//! The plain values a representation leaf can hold.
//!
//! A leaf stores either a single scalar (a character or a machine
//! integer) or a list of such scalars; which shapes a tree path uses is
//! fixed by its types, so a mismatch is a wiring error and shows up as
//! an absent result, never as a panic.

use vstd::prelude::*;

verus! {

broadcast use vstd::std_specs::vec::group_vec_axioms;

/// A concrete value held by a leaf: one scalar, or a list of scalars.
#[derive(Debug)]
pub enum LeafValue {
    Char(char),
    U8(u8),
    U64(u64),
    USize(usize),
    VecChar(Vec<char>),
    VecU64(Vec<u64>),
}

/// The model of a leaf value: the same shape over sequences.
pub enum ValueModel {
    Char(char),
    U8(u8),
    U64(u64),
    USize(usize),
    VecChar(Seq<char>),
    VecU64(Seq<u64>),
}

impl View for LeafValue {
    type V = ValueModel;

    open spec fn view(&self) -> ValueModel {
        match *self {
            LeafValue::Char(c) => ValueModel::Char(c),
            LeafValue::U8(x) => ValueModel::U8(x),
            LeafValue::U64(x) => ValueModel::U64(x),
            LeafValue::USize(x) => ValueModel::USize(x),
            LeafValue::VecChar(ref v) => ValueModel::VecChar(v@),
            LeafValue::VecU64(ref v) => ValueModel::VecU64(v@),
        }
    }
}

impl Clone for LeafValue {
    /// Cloning preserves the model exactly.
    fn clone(&self) -> (r: LeafValue)
        ensures
            r@ == self@,
    {
        match self {
            LeafValue::Char(c) => LeafValue::Char(*c),
            LeafValue::U8(x) => LeafValue::U8(*x),
            LeafValue::U64(x) => LeafValue::U64(*x),
            LeafValue::USize(x) => LeafValue::USize(*x),
            LeafValue::VecChar(v) => {
                let mut w: Vec<char> = Vec::new();
                let n: usize = v.len();
                let mut i: usize = 0;
                while i < n
                    invariant
                        n == v.len(),
                        i <= n,
                        w@ == v@.subrange(0, i as int),
                    decreases n - i,
                {
                    w.push(v[i]);
                    proof {
                        assert(w@ =~= v@.subrange(0, i + 1));
                    }
                    i = i + 1;
                }
                proof {
                    assert(w@ =~= v@);
                }
                LeafValue::VecChar(w)
            }
            LeafValue::VecU64(v) => {
                let mut w: Vec<u64> = Vec::new();
                let n: usize = v.len();
                let mut i: usize = 0;
                while i < n
                    invariant
                        n == v.len(),
                        i <= n,
                        w@ == v@.subrange(0, i as int),
                    decreases n - i,
                {
                    w.push(v[i]);
                    proof {
                        assert(w@ =~= v@.subrange(0, i + 1));
                    }
                    i = i + 1;
                }
                proof {
                    assert(w@ =~= v@);
                }
                LeafValue::VecU64(w)
            }
        }
    }
}

impl LeafValue {
    /// The character held by a `Char` leaf value, if that is the shape.
    pub fn as_char(&self) -> (r: Option<char>)
        ensures
            match r {
                Some(c) => self@ == ValueModel::Char(c),
                None => !(self@ is Char),
            },
    {
        match self {
            LeafValue::Char(c) => Some(*c),
            _ => None,
        }
    }

    /// The byte held by a `U8` leaf value, if that is the shape.
    pub fn as_u8(&self) -> (r: Option<u8>)
        ensures
            match r {
                Some(x) => self@ == ValueModel::U8(x),
                None => !(self@ is U8),
            },
    {
        match self {
            LeafValue::U8(x) => Some(*x),
            _ => None,
        }
    }

    /// The machine word held by a `USize` leaf value, if that is the
    /// shape.
    pub fn as_usize(&self) -> (r: Option<usize>)
        ensures
            match r {
                Some(x) => self@ == ValueModel::USize(x),
                None => !(self@ is USize),
            },
    {
        match self {
            LeafValue::USize(x) => Some(*x),
            _ => None,
        }
    }

    /// The integer held by a `U64` leaf value, if that is the shape.
    pub fn as_u64(&self) -> (r: Option<u64>)
        ensures
            match r {
                Some(x) => self@ == ValueModel::U64(x),
                None => !(self@ is U64),
            },
    {
        match self {
            LeafValue::U64(x) => Some(*x),
            _ => None,
        }
    }
}

} // verus!
