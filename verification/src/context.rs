//! The process-wide registry: a dictionary naming the atomic types, the
//! rule base, named objects, and an optional parent whose knowledge a
//! child context inherits (by copy) and can shadow.

use vstd::prelude::*;
use crate::term::{TypeID, TypeTerm, TermModel};
use crate::repr::{ReprTree, TreeModel};
use crate::morphism::spec_apply_morphism;
use crate::morphism::{MorphismType, MorphismBase, GenericReprTreeMorphism};

verus! {

broadcast use vstd::std_specs::vec::group_vec_axioms;

/// Assigns a name to every atomic type: named types get `Fun` ids,
/// type variables get `Var` ids, each numbered in order of addition.
#[derive(Debug)]
pub struct TypeDict {
    pub entries: Vec<(String, TypeID)>,
    pub next_fun_id: u64,
    pub next_var_id: u64,
}

/// The model of the dictionary entries: names as character sequences.
pub open spec fn dict_model(s: Seq<(String, TypeID)>) -> Seq<(Seq<char>, TypeID)>
    decreases s,
{
    if s.len() == 0 {
        Seq::empty()
    } else {
        seq![(s[0].0@, s[0].1)] + dict_model(s.subrange(1, s.len() as int))
    }
}

/// `dict_model` maps elementwise.
pub proof fn lemma_dict_model(s: Seq<(String, TypeID)>)
    ensures
        dict_model(s).len() == s.len(),
        forall|i: int| 0 <= i < s.len() ==> dict_model(s)[i] == (s[i].0@, s[i].1),
    decreases s,
{
    if s.len() > 0 {
        lemma_dict_model(s.subrange(1, s.len() as int));
        assert forall|i: int| 0 <= i < s.len() implies dict_model(s)[i] == (s[i].0@, s[i].1) by {
            if i > 0 {
                assert(s.subrange(1, s.len() as int)[i - 1] == s[i]);
            }
        }
    }
}

/// The id registered under `name`, from position `i` on.
pub open spec fn spec_name_lookup(s: Seq<(Seq<char>, TypeID)>, name: Seq<char>, i: int) -> Option<
    TypeID,
>
    decreases s.len() - i,
{
    if i < 0 || i >= s.len() {
        None
    } else if s[i].0 == name {
        Some(s[i].1)
    } else {
        spec_name_lookup(s, name, i + 1)
    }
}

/// The first name registered for `id`, from position `i` on.
pub open spec fn spec_id_lookup(s: Seq<(Seq<char>, TypeID)>, id: TypeID, i: int) -> Option<
    Seq<char>,
>
    decreases s.len() - i,
{
    if i < 0 || i >= s.len() {
        None
    } else if s[i].1 == id {
        Some(s[i].0)
    } else {
        spec_id_lookup(s, id, i + 1)
    }
}


/// A fresh entry is found after an append; earlier entries win.
pub proof fn lemma_name_lookup_push(
    s: Seq<(Seq<char>, TypeID)>,
    name: Seq<char>,
    id: TypeID,
    other: Seq<char>,
)
    ensures
        spec_name_lookup(s.push((name, id)), other, 0) == (if spec_name_lookup(s, other, 0)
            is Some {
            spec_name_lookup(s, other, 0)
        } else if other == name {
            Some(id)
        } else {
            None
        }),
{
    lemma_name_lookup_push_from(s, name, id, other, 0);
}

/// The same, from position `i` on.
proof fn lemma_name_lookup_push_from(
    s: Seq<(Seq<char>, TypeID)>,
    name: Seq<char>,
    id: TypeID,
    other: Seq<char>,
    i: int,
)
    requires
        0 <= i <= s.len(),
    ensures
        spec_name_lookup(s.push((name, id)), other, i) == (if spec_name_lookup(s, other, i)
            is Some {
            spec_name_lookup(s, other, i)
        } else if other == name {
            Some(id)
        } else {
            None
        }),
    decreases s.len() - i,
{
    if i < s.len() {
        assert(s.push((name, id))[i] == s[i]);
        if s[i].0 != other {
            lemma_name_lookup_push_from(s, name, id, other, i + 1);
        }
    } else {
        assert(s.push((name, id))[i] == (name, id));
        if other != name {
            assert(spec_name_lookup(s.push((name, id)), other, i + 1) is None);
        }
    }
}

impl View for TypeDict {
    type V = Seq<(Seq<char>, TypeID)>;

    open spec fn view(&self) -> Seq<(Seq<char>, TypeID)> {
        dict_model(self.entries@)
    }
}

impl TypeDict {
    /// An empty dictionary.
    pub fn new() -> (r: TypeDict)
        ensures
            r@ == Seq::<(Seq<char>, TypeID)>::empty(),
            r.next_fun_id == 0,
            r.next_var_id == 0,
    {
        let r = TypeDict { entries: Vec::new(), next_fun_id: 0, next_var_id: 0 };
        proof {
            assert(r@ =~= Seq::<(Seq<char>, TypeID)>::empty());
        }
        r
    }

    /// The id registered under `name`, if any.
    #[verifier::loop_isolation(false)]
    pub fn get_typeid(&self, name: &String) -> (r: Option<TypeID>)
        ensures
            r == spec_name_lookup(self@, name@, 0),
    {
        proof {
            lemma_dict_model(self.entries@);
        }
        let n: usize = self.entries.len();
        let mut i: usize = 0;
        while i < n
            invariant
                i <= n,
                n == self.entries@.len(),
                spec_name_lookup(self@, name@, 0) == spec_name_lookup(self@, name@, i as int),
            decreases n - i,
        {
            if self.entries[i].0 == *name {
                return Some(self.entries[i].1);
            }
            i = i + 1;
        }
        None
    }

    /// The first name registered for `id`, if any.
    #[verifier::loop_isolation(false)]
    pub fn get_typename(&self, id: &TypeID) -> (r: Option<String>)
        ensures
            match r {
                Some(s) => spec_id_lookup(self@, *id, 0) == Some(s@),
                None => spec_id_lookup(self@, *id, 0) is None,
            },
    {
        proof {
            lemma_dict_model(self.entries@);
        }
        let n: usize = self.entries.len();
        let mut i: usize = 0;
        while i < n
            invariant
                i <= n,
                n == self.entries@.len(),
                spec_id_lookup(self@, *id, 0) == spec_id_lookup(self@, *id, i as int),
            decreases n - i,
        {
            if self.entries[i].1 == *id {
                return Some(self.entries[i].0.clone());
            }
            i = i + 1;
        }
        None
    }

    /// Registers `name` as a named (function-like) type and returns its
    /// id; a name already present keeps the id it has.
    pub fn add_typename(&mut self, name: String) -> (r: TypeID)
        requires
            old(self).next_fun_id < u64::MAX,
        ensures
            match spec_name_lookup(old(self)@, name@, 0) {
                Some(id) => r == id && *final(self) == *old(self),
                None => r == TypeID::Fun(old(self).next_fun_id) && final(self)@ == old(self)@.push(
                    (name@, r),
                ) && final(self).next_fun_id == old(self).next_fun_id + 1
                    && final(self).next_var_id == old(self).next_var_id,
            },
            spec_name_lookup(final(self)@, name@, 0) == Some(r),
            forall|n: Seq<char>|
                spec_name_lookup(old(self)@, n, 0) is Some ==> spec_name_lookup(final(self)@, n, 0)
                    == spec_name_lookup(old(self)@, n, 0),
    {
        match self.get_typeid(&name) {
            Some(id) => id,
            None => {
                let id = TypeID::Fun(self.next_fun_id);
                self.next_fun_id = self.next_fun_id + 1;
                let ghost pre = self.entries@;
                self.entries.push((name, id));
                proof {
                    lemma_dict_model(self.entries@);
                    lemma_dict_model(pre);
                    assert(final(self)@ =~= old(self)@.push((name@, id)));
                    lemma_name_lookup_push(old(self)@, name@, id, name@);
                    assert forall|n: Seq<char>|
                        spec_name_lookup(old(self)@, n, 0) is Some implies spec_name_lookup(
                        final(self)@,
                        n,
                        0,
                    ) == spec_name_lookup(old(self)@, n, 0) by {
                        lemma_name_lookup_push(old(self)@, name@, id, n);
                    }
                }
                id
            }
        }
    }

    /// Registers `name` as a type variable and returns its id; a name
    /// already present keeps the id it has.
    pub fn add_varname(&mut self, name: String) -> (r: TypeID)
        requires
            old(self).next_var_id < u64::MAX,
        ensures
            match spec_name_lookup(old(self)@, name@, 0) {
                Some(id) => r == id && *final(self) == *old(self),
                None => r == TypeID::Var(old(self).next_var_id) && final(self)@ == old(self)@.push(
                    (name@, r),
                ) && final(self).next_var_id == old(self).next_var_id + 1
                    && final(self).next_fun_id == old(self).next_fun_id,
            },
            spec_name_lookup(final(self)@, name@, 0) == Some(r),
            forall|n: Seq<char>|
                spec_name_lookup(old(self)@, n, 0) is Some ==> spec_name_lookup(final(self)@, n, 0)
                    == spec_name_lookup(old(self)@, n, 0),
    {
        match self.get_typeid(&name) {
            Some(id) => id,
            None => {
                let id = TypeID::Var(self.next_var_id);
                self.next_var_id = self.next_var_id + 1;
                let ghost pre = self.entries@;
                self.entries.push((name, id));
                proof {
                    lemma_dict_model(self.entries@);
                    lemma_dict_model(pre);
                    assert(final(self)@ =~= old(self)@.push((name@, id)));
                    lemma_name_lookup_push(old(self)@, name@, id, name@);
                    assert forall|n: Seq<char>|
                        spec_name_lookup(old(self)@, n, 0) is Some implies spec_name_lookup(
                        final(self)@,
                        n,
                        0,
                    ) == spec_name_lookup(old(self)@, n, 0) by {
                        lemma_name_lookup_push(old(self)@, name@, id, n);
                    }
                }
                id
            }
        }
    }

    /// Registers `new_name` as another name for whatever `old_name`
    /// names; nothing happens if `old_name` names nothing.
    pub fn add_synonym(&mut self, new_name: String, old_name: &String)
        ensures
            match spec_name_lookup(old(self)@, old_name@, 0) {
                Some(id) => final(self)@ == old(self)@.push((new_name@, id)),
                None => *final(self) == *old(self),
            },
            final(self).next_fun_id == old(self).next_fun_id,
            final(self).next_var_id == old(self).next_var_id,
    {
        match self.get_typeid(old_name) {
            Some(id) => {
                let ghost pre = self.entries@;
                self.entries.push((new_name, id));
                proof {
                    lemma_dict_model(self.entries@);
                    lemma_dict_model(pre);
                    assert(final(self)@ =~= old(self)@.push((new_name@, id)));
                }
            }
            None => {},
        }
    }
}

impl Clone for TypeDict {
    /// Cloning preserves the dictionary model and counters.
    fn clone(&self) -> (r: TypeDict)
        ensures
            r@ == self@,
            r.next_fun_id == self.next_fun_id,
            r.next_var_id == self.next_var_id,
    {
        let n: usize = self.entries.len();
        let mut entries: Vec<(String, TypeID)> = Vec::new();
        let mut i: usize = 0;
        proof {
            lemma_dict_model(self.entries@);
        }
        while i < n
            invariant
                i <= n,
                n == self.entries.len(),
                entries@.len() == i,
                forall|j: int|
                    0 <= j < i ==> (entries@[j].0@, entries@[j].1) == (
                        self.entries@[j].0@,
                        self.entries@[j].1,
                    ),
            decreases n - i,
        {
            let name = self.entries[i].0.clone();
            let id = self.entries[i].1;
            entries.push((name, id));
            i = i + 1;
        }
        let r = TypeDict {
            entries,
            next_fun_id: self.next_fun_id,
            next_var_id: self.next_var_id,
        };
        proof {
            lemma_dict_model(r.entries@);
            lemma_dict_model(self.entries@);
            assert(r@ =~= self@);
        }
        r
    }
}

/// The registry an application works against: the type dictionary, the
/// rule base, named objects, the list-like type constructors, and an
/// optional parent context whose dictionary and list types the child
/// starts from.
#[derive(Debug)]
pub struct Context {
    pub type_dict: TypeDict,
    pub morphisms: MorphismBase,
    pub nodes: Vec<(String, ReprTree)>,
    pub list_types: Vec<TypeID>,
    pub parent: Option<Box<Context>>,
}

/// The number of ancestors above a context.
pub open spec fn spec_depth(c: Context) -> nat
    decreases c,
{
    match c.parent {
        Some(p) => spec_depth(*p) + 1,
        None => 0,
    }
}

/// The tree stored under `name`, looked up here first and then in the
/// ancestors, from position `i` of the local entries on.
pub open spec fn spec_obj_lookup(c: Context, name: Seq<char>, i: int) -> Option<TreeModel>
    decreases c, c.nodes@.len() - i + 1,
{
    if i < 0 || i >= c.nodes@.len() {
        match c.parent {
            Some(p) => spec_obj_lookup(*p, name, 0),
            None => None,
        }
    } else if c.nodes@[i].0@ == name {
        Some(c.nodes@[i].1@)
    } else {
        spec_obj_lookup(c, name, i + 1)
    }
}

impl Context {
    /// A fresh context: its dictionary and list types are copied from
    /// the parent if one is given, otherwise it starts with just the
    /// `List` constructor; its rule base starts empty either way.
    pub fn with_parent(parent: Option<Context>) -> (r: Context)
        ensures
            match parent {
                Some(p) => r.type_dict@ == p.type_dict@ && r.list_types@ == p.list_types@
                    && r.parent == Some(Box::new(p)),
                None => r.type_dict@ == seq![(("List")@, TypeID::Fun(0))] && r.list_types@
                    == Seq::<TypeID>::empty() && r.parent is None,
            },
            r.morphisms.morphisms@.len() == 0,
            r.morphisms.list_typeid == 0,
            r.nodes@.len() == 0,
    {
        match parent {
            Some(p) => {
                let type_dict = p.type_dict.clone();
                let list_types = clone_ids(&p.list_types);
                Context {
                    type_dict,
                    morphisms: MorphismBase::new(0),
                    nodes: Vec::new(),
                    list_types,
                    parent: Some(Box::new(p)),
                }
            }
            None => {
                let mut dict = TypeDict::new();
                dict.add_typename("List".to_string());
                proof {
                    assert(dict@ =~= seq![(("List")@, TypeID::Fun(0))]);
                }
                Context {
                    type_dict: dict,
                    morphisms: MorphismBase::new(0),
                    nodes: Vec::new(),
                    list_types: Vec::new(),
                    parent: None,
                }
            },
        }
    }

    /// A fresh root context.
    pub fn new() -> (r: Context)
        ensures
            r.type_dict@ == seq![(("List")@, TypeID::Fun(0))],
            r.list_types@ == Seq::<TypeID>::empty(),
            r.parent is None,
            r.morphisms.morphisms@.len() == 0,
            r.morphisms.list_typeid == 0,
            r.nodes@.len() == 0,
    {
        Context::with_parent(None)
    }

    /// How many ancestors this context has.
    pub fn depth(&self) -> (r: usize)
        requires
            spec_depth(*self) <= usize::MAX,
        ensures
            r == spec_depth(*self),
        decreases self,
    {
        match &self.parent {
            Some(p) => {
                let d = p.depth();
                d + 1
            }
            None => 0,
        }
    }

    /// Registers a type name in the dictionary.
    pub fn add_typename(&mut self, tn: &str) -> (r: TypeID)
        requires
            old(self).type_dict.next_fun_id < u64::MAX,
        ensures
            match crate::context::spec_name_lookup(old(self).type_dict@, tn@, 0) {
                Some(id) => r == id && final(self).type_dict@ == old(self).type_dict@,
                None => r == TypeID::Fun(old(self).type_dict.next_fun_id)
                    && final(self).type_dict@ == old(self).type_dict@.push((tn@, r)),
            },
            final(self).morphisms == old(self).morphisms,
            final(self).list_types == old(self).list_types,
            final(self).type_dict.next_fun_id <= old(self).type_dict.next_fun_id + 1,
            final(self).type_dict.next_var_id == old(self).type_dict.next_var_id,
            spec_name_lookup(final(self).type_dict@, tn@, 0) == Some(r),
            forall|n: Seq<char>|
                spec_name_lookup(old(self).type_dict@, n, 0) is Some ==> spec_name_lookup(
                    final(self).type_dict@,
                    n,
                    0,
                ) == spec_name_lookup(old(self).type_dict@, n, 0),
    {
        self.type_dict.add_typename(tn.to_string())
    }

    /// Registers a type variable name in the dictionary.
    pub fn add_varname(&mut self, vn: &str) -> (r: TypeID)
        requires
            old(self).type_dict.next_var_id < u64::MAX,
        ensures
            match crate::context::spec_name_lookup(old(self).type_dict@, vn@, 0) {
                Some(id) => r == id && final(self).type_dict@ == old(self).type_dict@,
                None => r == TypeID::Var(old(self).type_dict.next_var_id)
                    && final(self).type_dict@ == old(self).type_dict@.push((vn@, r)),
            },
            final(self).morphisms == old(self).morphisms,
            final(self).list_types == old(self).list_types,
            final(self).type_dict.next_var_id <= old(self).type_dict.next_var_id + 1,
            final(self).type_dict.next_fun_id == old(self).type_dict.next_fun_id,
            spec_name_lookup(final(self).type_dict@, vn@, 0) == Some(r),
            forall|n: Seq<char>|
                spec_name_lookup(old(self).type_dict@, n, 0) is Some ==> spec_name_lookup(
                    final(self).type_dict@,
                    n,
                    0,
                ) == spec_name_lookup(old(self).type_dict@, n, 0),
    {
        self.type_dict.add_varname(vn.to_string())
    }

    /// Registers another name for an already-named type.
    pub fn add_synonym(&mut self, new_name: &str, old_name: &str)
        ensures
            match crate::context::spec_name_lookup(old(self).type_dict@, old_name@, 0) {
                Some(id) => final(self).type_dict@ == old(self).type_dict@.push((new_name@, id)),
                None => final(self).type_dict@ == old(self).type_dict@,
            },
            final(self).morphisms == old(self).morphisms,
            final(self).list_types == old(self).list_types,
            final(self).type_dict.next_fun_id == old(self).type_dict.next_fun_id,
            final(self).type_dict.next_var_id == old(self).type_dict.next_var_id,
    {
        let o = old_name.to_string();
        self.type_dict.add_synonym(new_name.to_string(), &o);
    }

    /// Registers a type name that may head list-shaped values.
    pub fn add_list_typename(&mut self, tn: &str)
        requires
            old(self).type_dict.next_fun_id < u64::MAX,
        ensures
            final(self).list_types@ == old(self).list_types@.push(
                match crate::context::spec_name_lookup(old(self).type_dict@, tn@, 0) {
                    Some(id) => id,
                    None => TypeID::Fun(old(self).type_dict.next_fun_id),
                },
            ),
            final(self).type_dict.next_fun_id <= old(self).type_dict.next_fun_id + 1,
            final(self).type_dict.next_var_id == old(self).type_dict.next_var_id,
            final(self).morphisms == old(self).morphisms,
    {
        let id = self.add_typename(tn);
        self.list_types.push(id);
    }

    /// The id of the named type, if the dictionary knows the name.
    pub fn get_typeid(&self, tn: &str) -> (r: Option<TypeID>)
        ensures
            r == spec_name_lookup(self.type_dict@, tn@, 0),
    {
        let name = tn.to_string();
        self.type_dict.get_typeid(&name)
    }

    /// The numeric id of a named (function-like) type.
    pub fn get_fun_typeid(&self, tn: &str) -> (r: Option<u64>)
        ensures
            r == (match spec_name_lookup(self.type_dict@, tn@, 0) {
                Some(TypeID::Fun(x)) => Some(x),
                _ => None::<u64>,
            }),
    {
        match self.get_typeid(tn) {
            Some(TypeID::Fun(x)) => Some(x),
            _ => None,
        }
    }

    /// The numeric id of a type variable.
    pub fn get_var_typeid(&self, tn: &str) -> (r: Option<u64>)
        ensures
            r == (match spec_name_lookup(self.type_dict@, tn@, 0) {
                Some(TypeID::Var(x)) => Some(x),
                _ => None::<u64>,
            }),
    {
        match self.get_typeid(tn) {
            Some(TypeID::Var(x)) => Some(x),
            _ => None,
        }
    }

    /// The first name of an id, if it has one.
    pub fn get_typename(&self, tid: &TypeID) -> (r: Option<String>)
        ensures
            match r {
                Some(s) => spec_id_lookup(self.type_dict@, *tid, 0) == Some(s@),
                None => spec_id_lookup(self.type_dict@, *tid, 0) is None,
            },
    {
        self.type_dict.get_typename(tid)
    }

    /// Whether a term is headed by a list-like type: an atom registered
    /// as a list type, or an application or ladder whose first element
    /// is.
    #[verifier::loop_isolation(false)]
    pub fn is_list_type(&self, t: &TypeTerm) -> (r: bool)
        ensures
            r == spec_is_list_type(self.list_types@, t@),
        decreases t,
    {
        match t {
            TypeTerm::TypeID(id) => {
                let n: usize = self.list_types.len();
                let mut i: usize = 0;
                while i < n
                    invariant
                        i <= n,
                        n == self.list_types@.len(),
                        forall|j: int| 0 <= j < i ==> self.list_types@[j] != *id,
                    decreases n - i,
                {
                    if self.list_types[i] == *id {
                        proof {
                            assert(self.list_types@.contains(*id)) by {
                                assert(self.list_types@[i as int] == *id);
                            }
                        }
                        return true;
                    }
                    i = i + 1;
                }
                proof {
                    assert(!self.list_types@.contains(*id)) by {
                        if self.list_types@.contains(*id) {
                            let k = choose|k: int|
                                0 <= k < self.list_types@.len() && self.list_types@[k] == *id;
                            assert(false);
                        }
                    }
                }
                false
            }
            TypeTerm::App(args) => {
                if args.len() > 0 {
                    proof {
                        crate::term::lemma_seq_model(args@);
                        assert(decreases_to!(*t => *args));
                        assert(decreases_to!(*args => args@));
                        assert(decreases_to!(args@ => args@[0]));
                    }
                    self.is_list_type(&args[0])
                } else {
                    false
                }
            }
            TypeTerm::Ladder(args) => {
                if args.len() > 0 {
                    proof {
                        crate::term::lemma_seq_model(args@);
                        assert(decreases_to!(*t => *args));
                        assert(decreases_to!(*args => args@));
                        assert(decreases_to!(args@ => args@[0]));
                    }
                    self.is_list_type(&args[0])
                } else {
                    false
                }
            }
            _ => false,
        }
    }

    /// Stores a fresh, empty representation node of the given flat
    /// type under a name, after the objects already registered.
    pub fn add_obj(&mut self, name: String, type_tag: TypeTerm)
        requires
            crate::term::is_flat_model(type_tag@),
        ensures
            final(self).nodes@.len() == old(self).nodes@.len() + 1,
            final(self).nodes@.subrange(0, old(self).nodes@.len() as int) == old(self).nodes@,
            final(self).nodes@[old(self).nodes@.len() as int].0@ == name@,
            final(self).nodes@[old(self).nodes@.len() as int].1@ == (TreeModel {
                halo: crate::term::unit_model(),
                tag: type_tag@,
                branches: Seq::empty(),
                leaf: None,
                edges: Seq::empty(),
            }),
            final(self).type_dict == old(self).type_dict,
            final(self).morphisms == old(self).morphisms,
            final(self).list_types == old(self).list_types,
    {
        let node = ReprTree::new(type_tag);
        self.nodes.push((name, node));
        proof {
            assert(final(self).nodes@.subrange(0, old(self).nodes@.len() as int) =~= old(
                self,
            ).nodes@);
        }
    }

    /// Severs the wiring into the primary representations — the
    /// character-valued forms `Char`, `<Vec Char>` and `<List Char>` —
    /// freezing each one's current value as its own buffer, so that a
    /// fresh master can be wired afterwards (the re-mastering
    /// protocol).  A name the dictionary does not know contributes
    /// nothing to the set.
    pub fn detach(&self, rt: &mut ReprTree)
        ensures
            final(rt)@ == crate::repr::spec_detach(old(rt)@, spec_primary_types(self.type_dict@)),
    {
        let mut primary: Vec<TypeTerm> = Vec::new();
        match self.get_typeid("Char") {
            Some(c) => {
                primary.push(TypeTerm::TypeID(c));
                match self.get_typeid("Vec") {
                    Some(v) => {
                        let args = vec![TypeTerm::TypeID(v), TypeTerm::TypeID(c)];
                        let ghost av = args@;
                        primary.push(TypeTerm::App(args));
                        proof {
                            crate::term::lemma_seq_model(av);
                            assert(crate::term::seq_model(av) =~= seq![
                                TermModel::TypeID(v),
                                TermModel::TypeID(c),
                            ]);
                        }
                    }
                    None => {},
                }
                match self.get_typeid("List") {
                    Some(l) => {
                        let args = vec![TypeTerm::TypeID(l), TypeTerm::TypeID(c)];
                        let ghost av = args@;
                        primary.push(TypeTerm::App(args));
                        proof {
                            crate::term::lemma_seq_model(av);
                            assert(crate::term::seq_model(av) =~= seq![
                                TermModel::TypeID(l),
                                TermModel::TypeID(c),
                            ]);
                        }
                    }
                    None => {},
                }
            }
            None => {},
        }
        proof {
            crate::term::lemma_seq_model(primary@);
            assert(crate::term::seq_model(primary@) =~= spec_primary_types(self.type_dict@));
        }
        rt.detach(&primary);
    }

    /// The named object, looked up here and then in the ancestors.
    #[verifier::loop_isolation(false)]
    pub fn get_obj(&self, name: &String) -> (r: Option<&ReprTree>)
        ensures
            match r {
                Some(t) => spec_obj_lookup(*self, name@, 0) == Some(t@),
                None => spec_obj_lookup(*self, name@, 0) is None,
            },
        decreases self,
    {
        let n: usize = self.nodes.len();
        let mut i: usize = 0;
        while i < n
            invariant
                i <= n,
                n == self.nodes@.len(),
                spec_obj_lookup(*self, name@, 0) == spec_obj_lookup(*self, name@, i as int),
            decreases n - i,
        {
            if self.nodes[i].0 == *name {
                return Some(&self.nodes[i].1);
            }
            i = i + 1;
        }
        match &self.parent {
            Some(p) => p.get_obj(name),
            None => None,
        }
    }

    /// Triggers a conversion on a tree: a chain of representation
    /// types from the request's source to its destination is
    /// discovered in the rule base, and the resolved rule's projection
    /// is wired for each hop of the chain in order.  When no chain is
    /// found, the tree stays exactly as it was.  The contract promises
    /// the result of applying some valid chain hop by hop; the search
    /// visits each type once, breadth first, so a chain with fewer
    /// hops is preferred.
    pub fn apply_morphism(&self, rt: &mut ReprTree, ty: &MorphismType) -> (applied: bool)
        ensures
            !applied ==> final(rt)@ == old(rt)@,
            applied ==> exists|path: Seq<TypeTerm>|
                {
                    &&& #[trigger] crate::morphism::spec_path_found(
                        self.morphisms.morphisms@,
                        self.morphisms.list_typeid,
                        ty.src_type@,
                        ty.dst_type@,
                        path,
                    )
                    &&& final(rt)@ == spec_apply_path(
                        self.morphisms.morphisms@,
                        self.morphisms.list_typeid,
                        old(rt)@,
                        path,
                        0,
                    )
                },
    {
        match self.morphisms.find_morphism_path(ty) {
            Some(path) => {
                self.apply_morphism_path(rt, &path);
                proof {
                    assert(crate::morphism::spec_path_found(
                        self.morphisms.morphisms@,
                        self.morphisms.list_typeid,
                        ty.src_type@,
                        ty.dst_type@,
                        path@,
                    ));
                }
                true
            }
            None => false,
        }
    }

    /// Advances a tree through a caller-supplied chain of
    /// representation types, wiring one conversion per consecutive
    /// pair; a pair for which nothing fires is skipped, leaving the
    /// tree untouched for that hop.
    #[verifier::loop_isolation(false)]
    pub fn apply_morphism_path(&self, rt: &mut ReprTree, path: &Vec<TypeTerm>)
        ensures
            final(rt)@ == spec_apply_path(
                self.morphisms.morphisms@,
                self.morphisms.list_typeid,
                old(rt)@,
                path@,
                0,
            ),
    {
        let n: usize = path.len();
        if n == 0 {
            return;
        }
        let mut i: usize = 0;
        while i + 1 < n
            invariant
                i < n,
                n == path@.len(),
                spec_apply_path(
                    self.morphisms.morphisms@,
                    self.morphisms.list_typeid,
                    old(rt)@,
                    path@,
                    0,
                ) == spec_apply_path(
                    self.morphisms.morphisms@,
                    self.morphisms.list_typeid,
                    rt@,
                    path@,
                    i as int,
                ),
            decreases n - i,
        {
            self.morphisms.apply_morphism(rt, &path[i], &path[i + 1]);
            i = i + 1;
        }
    }
}

impl ReprTree {
    /// A single-node tree holding one character, typed by the
    /// context's `Char` type; nothing if the context does not know
    /// that name.
    pub fn from_char(ctx: &Context, c: char) -> (r: Option<ReprTree>)
        ensures
            match spec_name_lookup(ctx.type_dict@, ("Char")@, 0) {
                Some(id) => r matches Some(t) && t@ == (crate::repr::TreeModel {
                    halo: crate::term::unit_model(),
                    tag: TermModel::TypeID(id),
                    branches: Seq::empty(),
                    leaf: Some(crate::repr::LeafModel {
                        data: Some(crate::value::ValueModel::Char(c)),
                    }),
                    edges: Seq::empty(),
                }),
                None => r is None,
            },
    {
        match ctx.get_typeid("Char") {
            Some(id) => Some(
                ReprTree::from_singleton_buffer(
                    TypeTerm::TypeID(id),
                    crate::value::LeafValue::Char(c),
                ),
            ),
            None => None,
        }
    }
}


/// The primary representation types of a dictionary: the
/// character-valued forms `Char`, `<Vec Char>` and `<List Char>`, as
/// far as those names are registered.
pub open spec fn spec_primary_types(d: Seq<(Seq<char>, TypeID)>) -> Seq<TermModel> {
    match spec_name_lookup(d, ("Char")@, 0) {
        Some(c) => {
            let base = seq![TermModel::TypeID(c)];
            let with_vec = match spec_name_lookup(d, ("Vec")@, 0) {
                Some(v) => base.push(
                    TermModel::App(seq![TermModel::TypeID(v), TermModel::TypeID(c)]),
                ),
                None => base,
            };
            match spec_name_lookup(d, ("List")@, 0) {
                Some(l) => with_vec.push(
                    TermModel::App(seq![TermModel::TypeID(l), TermModel::TypeID(c)]),
                ),
                None => with_vec,
            }
        },
        None => Seq::empty(),
    }
}

/// Whether a term is headed by a registered list type.
pub open spec fn spec_is_list_type(list_types: Seq<TypeID>, m: TermModel) -> bool
    decreases m,
{
    match m {
        TermModel::TypeID(id) => list_types.contains(id),
        TermModel::App(args) => args.len() > 0 && spec_is_list_type(list_types, args[0]),
        TermModel::Ladder(args) => args.len() > 0 && spec_is_list_type(list_types, args[0]),
        _ => false,
    }
}

/// A chain of conversions applied hop by hop; a hop for which nothing
/// fires leaves the tree as it is.
pub open spec fn spec_apply_path(
    rules: Seq<GenericReprTreeMorphism>,
    ltid: u64,
    m: TreeModel,
    path: Seq<TypeTerm>,
    i: int,
) -> TreeModel
    decreases path.len() - i,
{
    if i < 0 || i + 1 >= path.len() {
        m
    } else {
        let m2 = match spec_apply_morphism(rules, ltid, m, path[i]@, path[i + 1]@) {
            Some(x) => x,
            None => m,
        };
        spec_apply_path(rules, ltid, m2, path, i + 1)
    }
}

/// Copies a vector of type ids.
fn clone_ids(v: &Vec<TypeID>) -> (r: Vec<TypeID>)
    ensures
        r@ == v@,
{
    let n: usize = v.len();
    let mut r: Vec<TypeID> = Vec::new();
    let mut i: usize = 0;
    while i < n
        invariant
            i <= n,
            n == v.len(),
            r@ == v@.subrange(0, i as int),
        decreases n - i,
    {
        r.push(v[i]);
        proof {
            assert(r@ =~= v@.subrange(0, i + 1));
        }
        i = i + 1;
    }
    proof {
        assert(r@ =~= v@);
    }
    r
}

} // verus!
