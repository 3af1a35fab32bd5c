//! The small algebra of representation types.
//!
//! A [`TypeTerm`] is an atomic identifier, a literal, a parametric
//! application, or a "ladder": an ordered refinement chain `A ~ B ~ C`
//! read "A, represented as B, represented as C".  The engine works on
//! ladders in a normal form where no rung is itself a ladder; the spec
//! model of a term is [`TermModel`].

use vstd::prelude::*;

verus! {

broadcast use vstd::std_specs::vec::group_vec_axioms;

/// An atomic type identifier: either a named (function-like) type or a
/// free type variable, both referred to by a numeric id handed out by a
/// type dictionary.
#[derive(Clone, Copy, PartialEq, Eq, Structural, Debug, Hash)]
pub enum TypeID {
    Fun(u64),
    Var(u64),
}

/// A term of the type algebra.
///
/// `App` is a parametric application such as `<Digit 16>` (head first,
/// then the arguments).  `Ladder` is a refinement chain; a term is
/// *flat* when it is not itself a ladder.
#[derive(Debug)]
pub enum TypeTerm {
    TypeID(TypeID),
    Num(i64),
    Char(char),
    App(Vec<TypeTerm>),
    Ladder(Vec<TypeTerm>),
}

/// The mathematical shape of a [`TypeTerm`]: the same tree, with the
/// argument vectors abstracted to sequences.
pub enum TermModel {
    TypeID(TypeID),
    Num(i64),
    Char(char),
    App(Seq<TermModel>),
    Ladder(Seq<TermModel>),
}

/// The model of a term: the identical tree over `Seq`.
pub open spec fn term_model(t: TypeTerm) -> TermModel
    decreases t,
{
    match t {
        TypeTerm::TypeID(id) => TermModel::TypeID(id),
        TypeTerm::Num(n) => TermModel::Num(n),
        TypeTerm::Char(c) => TermModel::Char(c),
        TypeTerm::App(args) => TermModel::App(seq_model(args@)),
        TypeTerm::Ladder(args) => TermModel::Ladder(seq_model(args@)),
    }
}

/// The models of a sequence of terms, elementwise.
pub open spec fn seq_model(s: Seq<TypeTerm>) -> Seq<TermModel>
    decreases s,
{
    if s.len() == 0 {
        Seq::empty()
    } else {
        seq![term_model(s[0])] + seq_model(s.subrange(1, s.len() as int))
    }
}

/// `seq_model` maps elementwise: it keeps the length and models each
/// element in place.
pub broadcast proof fn lemma_seq_model(s: Seq<TypeTerm>)
    ensures
        (#[trigger] seq_model(s)).len() == s.len(),
        forall|i: int| 0 <= i < s.len() ==> seq_model(s)[i] == term_model(s[i]),
    decreases s,
{
    if s.len() > 0 {
        lemma_seq_model(s.subrange(1, s.len() as int));
        assert forall|i: int| 0 <= i < s.len() implies seq_model(s)[i] == term_model(s[i]) by {
            if i > 0 {
                assert(s.subrange(1, s.len() as int)[i - 1] == s[i]);
            }
        }
    }
}

impl View for TypeTerm {
    type V = TermModel;

    open spec fn view(&self) -> TermModel {
        term_model(*self)
    }
}

impl vstd::std_specs::cmp::PartialEqSpecImpl for TypeTerm {
    open spec fn obeys_eq_spec() -> bool {
        true
    }

    open spec fn eq_spec(&self, other: &TypeTerm) -> bool {
        self@ == other@
    }
}

impl PartialEq for TypeTerm {
    fn eq(&self, other: &TypeTerm) -> (r: bool)
        decreases self,
    {
        match (self, other) {
            (TypeTerm::TypeID(a), TypeTerm::TypeID(b)) => a == b,
            (TypeTerm::Num(a), TypeTerm::Num(b)) => a == b,
            (TypeTerm::Char(a), TypeTerm::Char(b)) => a == b,
            (TypeTerm::App(a), TypeTerm::App(b)) => terms_eq(a, b),
            (TypeTerm::Ladder(a), TypeTerm::Ladder(b)) => terms_eq(a, b),
            _ => false,
        }
    }
}

/// Compares two argument vectors; true exactly when their models agree.
pub fn terms_eq(a: &Vec<TypeTerm>, b: &Vec<TypeTerm>) -> (r: bool)
    ensures
        r == (seq_model(a@) == seq_model(b@)),
    decreases a,
{
    proof {
        lemma_seq_model(a@);
        lemma_seq_model(b@);
    }
    if a.len() != b.len() {
        return false;
    }
    let n: usize = a.len();
    let mut i: usize = 0;
    while i < n
        invariant
            n == a.len() == b.len(),
            i <= n,
            forall|j: int| 0 <= j < i ==> term_model(a@[j]) == term_model(b@[j]),
        decreases n - i,
    {
        if !(a[i] == b[i]) {
            proof {
                lemma_seq_model(a@);
                lemma_seq_model(b@);
                assert(seq_model(a@)[i as int] != seq_model(b@)[i as int]);
            }
            return false;
        }
        i = i + 1;
    }
    proof {
        lemma_seq_model(a@);
        lemma_seq_model(b@);
        assert(seq_model(a@) =~= seq_model(b@));
    }
    true
}

impl Clone for TypeTerm {
    /// Cloning preserves the model exactly.
    fn clone(&self) -> (r: TypeTerm)
        ensures
            r@ == self@,
        decreases self,
    {
        match self {
            TypeTerm::TypeID(id) => TypeTerm::TypeID(*id),
            TypeTerm::Num(n) => TypeTerm::Num(*n),
            TypeTerm::Char(c) => TypeTerm::Char(*c),
            TypeTerm::App(args) => TypeTerm::App(clone_terms(args)),
            TypeTerm::Ladder(args) => TypeTerm::Ladder(clone_terms(args)),
        }
    }
}

/// Clones an argument vector, preserving the elementwise models.
pub fn clone_terms(a: &Vec<TypeTerm>) -> (r: Vec<TypeTerm>)
    ensures
        seq_model(r@) == seq_model(a@),
        r@.len() == a@.len(),
    decreases a,
{
    let mut r: Vec<TypeTerm> = Vec::new();
    let n: usize = a.len();
    let mut i: usize = 0;
    while i < n
        invariant
            n == a.len(),
            i == r@.len(),
            i <= n,
            forall|j: int| 0 <= j < i ==> term_model(r@[j]) == term_model(a@[j]),
        decreases n - i,
    {
        let t = a[i].clone();
        r.push(t);
        i = i + 1;
    }
    proof {
        lemma_seq_model(r@);
        lemma_seq_model(a@);
        assert(seq_model(r@) =~= seq_model(a@));
    }
    r
}

/// A term is *flat* when it is not itself a ladder.  Tree node types
/// are always flat; ladders only describe paths through the tree.
pub open spec fn is_flat_model(m: TermModel) -> bool {
    !(m is Ladder)
}

/// The empty ladder: the type of a tree root's (empty) halo.
pub open spec fn unit_model() -> TermModel {
    TermModel::Ladder(Seq::empty())
}

/// The ladder normal form of a term: the sequence of its flat rungs.
/// A non-ladder is its own single rung; a ladder is the concatenation
/// of the normal forms of its rungs, so nested ladders flatten fully.
/// Ladders inside application arguments are left untouched.
pub open spec fn lnf_model(m: TermModel) -> Seq<TermModel>
    decreases m,
{
    match m {
        TermModel::Ladder(rungs) => lnf_concat(rungs),
        _ => seq![m],
    }
}

/// The concatenated ladder normal forms of a sequence of rungs.
pub open spec fn lnf_concat(rungs: Seq<TermModel>) -> Seq<TermModel>
    decreases rungs,
{
    if rungs.len() == 0 {
        Seq::empty()
    } else {
        lnf_model(rungs[0]) + lnf_concat(rungs.subrange(1, rungs.len() as int))
    }
}

/// A ladder normal form folded back into one term: a single rung stands
/// alone, anything else becomes a ladder again.
pub open spec fn rungs_to_model(s: Seq<TermModel>) -> TermModel {
    if s.len() == 1 {
        s[0]
    } else {
        TermModel::Ladder(s)
    }
}

/// The canonical form of a term: its ladder normal form, folded.
pub open spec fn normalize_model(m: TermModel) -> TermModel {
    rungs_to_model(lnf_model(m))
}

/// Every rung of a ladder normal form is flat.
pub proof fn lemma_lnf_flat(m: TermModel)
    ensures
        forall|i: int| 0 <= i < lnf_model(m).len() ==> is_flat_model(#[trigger] lnf_model(m)[i]),
    decreases m,
{
    match m {
        TermModel::Ladder(rungs) => {
            lemma_lnf_concat_flat(rungs);
            assert(lnf_model(m) == lnf_concat(rungs));
        }
        _ => {
            assert(lnf_model(m) == seq![m]);
        }
    }
}

/// Every rung of a concatenated ladder normal form is flat.
pub proof fn lemma_lnf_concat_flat(rungs: Seq<TermModel>)
    ensures
        forall|i: int| 0 <= i < lnf_concat(rungs).len() ==> is_flat_model(
            #[trigger] lnf_concat(rungs)[i],
        ),
    decreases rungs,
{
    if rungs.len() > 0 {
        lemma_lnf_flat(rungs[0]);
        lemma_lnf_concat_flat(rungs.subrange(1, rungs.len() as int));
        let head = lnf_model(rungs[0]);
        let tail = lnf_concat(rungs.subrange(1, rungs.len() as int));
        assert(lnf_concat(rungs) == head + tail);
        assert forall|i: int| 0 <= i < lnf_concat(rungs).len() implies is_flat_model(
            lnf_concat(rungs)[i],
        ) by {
            if i < head.len() {
                assert(lnf_concat(rungs)[i] == head[i]);
            } else {
                assert(lnf_concat(rungs)[i] == tail[i - head.len()]);
            }
        }
    }
}

/// The ladder normal form of a flat term is that term alone.
pub proof fn lemma_lnf_of_flat(m: TermModel)
    requires
        is_flat_model(m),
    ensures
        lnf_model(m) == seq![m],
{
}

/// Concatenating the normal forms of flat rungs gives the rungs back.
pub proof fn lemma_lnf_concat_of_flat(s: Seq<TermModel>)
    requires
        forall|i: int| 0 <= i < s.len() ==> is_flat_model(#[trigger] s[i]),
    ensures
        lnf_concat(s) == s,
    decreases s,
{
    if s.len() > 0 {
        let tail = s.subrange(1, s.len() as int);
        assert forall|i: int| 0 <= i < tail.len() implies is_flat_model(#[trigger] tail[i]) by {
            assert(tail[i] == s[i + 1]);
        }
        lemma_lnf_concat_of_flat(tail);
        assert(is_flat_model(s[0]));
        assert(lnf_model(s[0]) == seq![s[0]]);
        assert(lnf_concat(s) == seq![s[0]] + tail);
        assert(lnf_concat(s) =~= s);
    }
}

/// A ladder of two or more flat rungs is already in canonical form.
pub proof fn lemma_normalize_flat_ladder(s: Seq<TermModel>)
    requires
        s.len() >= 2,
        forall|i: int| 0 <= i < s.len() ==> is_flat_model(#[trigger] s[i]),
    ensures
        normalize_model(TermModel::Ladder(s)) == TermModel::Ladder(s),
{
    lemma_lnf_concat_of_flat(s);
}

/// Normalizing does not change the ladder normal form.
pub proof fn lemma_lnf_normalize(m: TermModel)
    ensures
        lnf_model(normalize_model(m)) == lnf_model(m),
{
    lemma_lnf_flat(m);
    let s = lnf_model(m);
    if s.len() == 1 {
        lemma_lnf_of_flat(s[0]);
        assert(lnf_model(normalize_model(m)) =~= s);
    } else {
        lemma_lnf_concat_of_flat(s);
    }
}

impl TypeTerm {
    /// The empty ladder, used as the halo of a tree root.
    pub fn unit() -> (r: TypeTerm)
        ensures
            r@ == unit_model(),
    {
        TypeTerm::Ladder(Vec::new())
    }

    /// Whether this term is flat (not itself a ladder).
    pub fn is_flat(&self) -> (r: bool)
        ensures
            r == is_flat_model(self@),
    {
        match self {
            TypeTerm::Ladder(_) => false,
            _ => true,
        }
    }

    /// The ladder normal form of this term, as a vector of flat rungs.
    pub fn get_lnf_vec(&self) -> (r: Vec<TypeTerm>)
        ensures
            seq_model(r@) == lnf_model(self@),
    {
        let mut out: Vec<TypeTerm> = Vec::new();
        self.lnf_into(&mut out);
        proof {
            lemma_seq_model(out@);
        }
        out
    }

    /// Appends the ladder normal form of this term to `out`.
    #[verifier::loop_isolation(false)]
    fn lnf_into(&self, out: &mut Vec<TypeTerm>)
        ensures
            seq_model(final(out)@) == seq_model(old(out)@) + lnf_model(self@),
        decreases self,
    {
        match self {
            TypeTerm::Ladder(rungs) => {
                let n: usize = rungs.len();
                let mut i: usize = 0;
                proof {
                    lemma_seq_model(rungs@);
                }
                while i < n
                    invariant
                        n == rungs.len(),
                        i <= n,
                        seq_model(rungs@).len() == n,
                        seq_model(out@) == seq_model(old(out)@) + lnf_concat(
                            seq_model(rungs@).subrange(0, i as int),
                        ),
                    decreases n - i,
                {
                    proof {
                        assert(*self == TypeTerm::Ladder(*rungs));
                        assert(decreases_to!(*self => *rungs));
                        assert(decreases_to!(*rungs => rungs@));
                        assert(decreases_to!(rungs@ => rungs@[i as int]));
                        assert(decreases_to!(*self => rungs@[i as int]));
                    }
                    rungs[i].lnf_into(out);
                    proof {
                        lemma_seq_model(rungs@);
                        lemma_lnf_concat_snoc(seq_model(rungs@).subrange(0, i as int + 1));
                        assert(seq_model(rungs@).subrange(0, i as int + 1).subrange(
                            0,
                            i as int,
                        ) =~= seq_model(rungs@).subrange(0, i as int));
                        assert(seq_model(out@) =~= seq_model(old(out)@) + lnf_concat(
                            seq_model(rungs@).subrange(0, i as int + 1),
                        ));
                    }
                    i = i + 1;
                }
                proof {
                    lemma_seq_model(rungs@);
                    assert(seq_model(rungs@).subrange(0, n as int) =~= seq_model(rungs@));
                }
            }
            other => {
                let t = other.clone();
                out.push(t);
                proof {
                    lemma_seq_model(out@);
                    lemma_seq_model(old(out)@);
                    assert(seq_model(out@) =~= seq_model(old(out)@) + lnf_model(self@));
                }
            }
        }
    }

    /// The canonical form of this term: nested ladders on the spine are
    /// flattened, and a one-rung ladder collapses to its rung.
    pub fn normalize(&self) -> (r: TypeTerm)
        ensures
            r@ == normalize_model(self@),
    {
        let mut v = self.get_lnf_vec();
        proof {
            lemma_seq_model(v@);
        }
        if v.len() == 1 {
            let t = v.remove(0);
            t
        } else {
            TypeTerm::Ladder(v)
        }
    }
}

/// Splitting the last rung off a concatenated normal form.
pub proof fn lemma_lnf_concat_snoc(s: Seq<TermModel>)
    requires
        s.len() > 0,
    ensures
        lnf_concat(s) == lnf_concat(s.subrange(0, s.len() - 1)) + lnf_model(s[s.len() - 1]),
    decreases s,
{
    if s.len() == 1 {
        assert(s.subrange(0, 0) =~= Seq::<TermModel>::empty());
        assert(lnf_concat(s.subrange(1, 1)) =~= Seq::<TermModel>::empty());
        assert(lnf_concat(s) =~= lnf_concat(s.subrange(0, 0)) + lnf_model(s[0]));
    } else {
        let tail = s.subrange(1, s.len() as int);
        lemma_lnf_concat_snoc(tail);
        assert(tail.subrange(0, tail.len() - 1) =~= s.subrange(0, s.len() - 1).subrange(
            1,
            s.len() - 1,
        ));
        assert(tail[tail.len() - 1] == s[s.len() - 1]);
        let head = s.subrange(0, s.len() - 1);
        assert(head.len() > 0);
        assert(head[0] == s[0]);
        assert(lnf_concat(head) == lnf_model(head[0]) + lnf_concat(
            head.subrange(1, head.len() as int),
        ));
        assert(lnf_concat(s) =~= lnf_concat(head) + lnf_model(s[s.len() - 1]));
    }
}

} // verus!
