//! Substitutions and unification over type terms.
//!
//! A [`Substitution`] binds type variables to terms.  [`unify`] matches
//! two terms, extending a substitution so that bound variables agree on
//! both sides; it fails (returns `None`) on any structural mismatch and
//! never panics.

use vstd::prelude::*;
use crate::term::{TypeID, TypeTerm, TermModel, term_model, seq_model, lemma_seq_model};

verus! {

broadcast use vstd::std_specs::vec::group_vec_axioms;

/// A binding of type variables (by id) to terms.  Lookups return the
/// first binding of a variable; [`Substitution::bind`] is only ever
/// used on variables that are still unbound.
pub struct Substitution {
    pub pairs: Vec<(u64, TypeTerm)>,
}

/// The model of a binding list: the same pairs over term models.
pub open spec fn pairs_model(s: Seq<(u64, TypeTerm)>) -> Seq<(u64, TermModel)>
    decreases s,
{
    if s.len() == 0 {
        Seq::empty()
    } else {
        seq![(s[0].0, term_model(s[0].1))] + pairs_model(s.subrange(1, s.len() as int))
    }
}

/// `pairs_model` maps elementwise.
pub broadcast proof fn lemma_pairs_model(s: Seq<(u64, TypeTerm)>)
    ensures
        (#[trigger] pairs_model(s)).len() == s.len(),
        forall|i: int|
            0 <= i < s.len() ==> pairs_model(s)[i] == (s[i].0, term_model(s[i].1)),
    decreases s,
{
    if s.len() > 0 {
        lemma_pairs_model(s.subrange(1, s.len() as int));
        assert forall|i: int|
            0 <= i < s.len() implies pairs_model(s)[i] == (s[i].0, term_model(s[i].1)) by {
            if i > 0 {
                assert(s.subrange(1, s.len() as int)[i - 1] == s[i]);
            }
        }
    }
}

/// The first binding of `v` at or after position `i`.
pub open spec fn lookup_from(s: Seq<(u64, TermModel)>, v: u64, i: int) -> Option<TermModel>
    decreases s.len() - i,
{
    if i < 0 || i >= s.len() {
        None
    } else if s[i].0 == v {
        Some(s[i].1)
    } else {
        lookup_from(s, v, i + 1)
    }
}

/// The first binding of `v` in `s`, if any.
pub open spec fn lookup_model(s: Seq<(u64, TermModel)>, v: u64) -> Option<TermModel> {
    lookup_from(s, v, 0)
}

impl View for Substitution {
    type V = Seq<(u64, TermModel)>;

    open spec fn view(&self) -> Seq<(u64, TermModel)> {
        pairs_model(self.pairs@)
    }
}

impl Substitution {
    /// The empty substitution.
    pub fn new() -> (r: Substitution)
        ensures
            r@ == Seq::<(u64, TermModel)>::empty(),
    {
        proof {
            lemma_pairs_model(Seq::empty());
        }
        let r = Substitution { pairs: Vec::new() };
        proof {
            assert(r@ =~= Seq::<(u64, TermModel)>::empty());
        }
        r
    }

    /// The first term bound to variable `v`, if any.
    pub fn get(&self, v: u64) -> (r: Option<&TypeTerm>)
        ensures
            match r {
                Some(t) => lookup_model(self@, v) == Some(t@),
                None => lookup_model(self@, v) is None,
            },
    {
        proof {
            lemma_pairs_model(self.pairs@);
        }
        let n: usize = self.pairs.len();
        let mut i: usize = 0;
        while i < n
            invariant
                n == self.pairs.len(),
                i <= n,
                self@.len() == n,
                forall|j: int|
                    0 <= j < self@.len() ==> self@[j] == (
                        self.pairs@[j].0,
                        term_model(self.pairs@[j].1),
                    ),
                lookup_from(self@, v, 0) == lookup_from(self@, v, i as int),
            decreases n - i,
        {
            let p = &self.pairs[i];
            if p.0 == v {
                return Some(&p.1);
            }
            i = i + 1;
        }
        None
    }

    /// Binds `v` to `t` by appending the pair.
    pub fn bind(&mut self, v: u64, t: TypeTerm)
        ensures
            final(self)@ == old(self)@.push((v, t@)),
    {
        let ghost pre = self.pairs@;
        self.pairs.push((v, t));
        proof {
            lemma_pairs_model(self.pairs@);
            lemma_pairs_model(pre);
            assert(final(self)@ =~= old(self)@.push((v, term_model(t))));
        }
    }
}

/// A term with every bound variable replaced by its binding; other
/// variables and all atoms stay as they are.
pub open spec fn spec_apply_subst(m: TermModel, s: Seq<(u64, TermModel)>) -> TermModel
    decreases m,
{
    match m {
        TermModel::TypeID(TypeID::Var(v)) => match lookup_model(s, v) {
            Some(t) => t,
            None => m,
        },
        TermModel::App(args) => TermModel::App(spec_apply_subst_args(args, s)),
        TermModel::Ladder(args) => TermModel::Ladder(spec_apply_subst_args(args, s)),
        _ => m,
    }
}

/// Substitution applied to each argument.
pub open spec fn spec_apply_subst_args(args: Seq<TermModel>, s: Seq<(u64, TermModel)>) -> Seq<
    TermModel,
>
    decreases args,
{
    if args.len() == 0 {
        Seq::empty()
    } else {
        seq![spec_apply_subst(args[0], s)] + spec_apply_subst_args(
            args.subrange(1, args.len() as int),
            s,
        )
    }
}

/// `spec_apply_subst_args` maps elementwise.
pub proof fn lemma_apply_subst_args(args: Seq<TermModel>, s: Seq<(u64, TermModel)>)
    ensures
        spec_apply_subst_args(args, s).len() == args.len(),
        forall|i: int|
            0 <= i < args.len() ==> spec_apply_subst_args(args, s)[i] == spec_apply_subst(
                args[i],
                s,
            ),
    decreases args,
{
    if args.len() > 0 {
        lemma_apply_subst_args(args.subrange(1, args.len() as int), s);
        assert forall|i: int|
            0 <= i < args.len() implies spec_apply_subst_args(args, s)[i] == spec_apply_subst(
            args[i],
            s,
        ) by {
            if i > 0 {
                assert(args.subrange(1, args.len() as int)[i - 1] == args[i]);
            }
        }
    }
}

impl TypeTerm {
    /// This term with every variable bound in `sigma` replaced by its
    /// binding.
    #[verifier::loop_isolation(false)]
    pub fn apply_substitution(&self, sigma: &Substitution) -> (r: TypeTerm)
        ensures
            r@ == spec_apply_subst(self@, sigma@),
        decreases self,
    {
        match self {
            TypeTerm::TypeID(tid) => {
                match tid {
                    TypeID::Var(v) => {
                        match sigma.get(*v) {
                            Some(t) => t.clone(),
                            None => TypeTerm::TypeID(*tid),
                        }
                    }
                    TypeID::Fun(_) => TypeTerm::TypeID(*tid),
                }
            }
            TypeTerm::Num(n) => TypeTerm::Num(*n),
            TypeTerm::Char(c) => TypeTerm::Char(*c),
            TypeTerm::App(args) => {
                let out = apply_subst_vec(self, args, sigma);
                proof {
                    lemma_seq_model(out@);
                    lemma_seq_model(args@);
                    lemma_apply_subst_args(seq_model(args@), sigma@);
                    assert(seq_model(out@) =~= spec_apply_subst_args(seq_model(args@), sigma@));
                }
                TypeTerm::App(out)
            }
            TypeTerm::Ladder(args) => {
                let out = apply_subst_vec(self, args, sigma);
                proof {
                    lemma_seq_model(out@);
                    lemma_seq_model(args@);
                    lemma_apply_subst_args(seq_model(args@), sigma@);
                    assert(seq_model(out@) =~= spec_apply_subst_args(seq_model(args@), sigma@));
                }
                TypeTerm::Ladder(out)
            }
        }
    }
}

/// Substitution applied to each term of an argument vector of `whole`.
#[verifier::loop_isolation(false)]
fn apply_subst_vec(whole: &TypeTerm, args: &Vec<TypeTerm>, sigma: &Substitution) -> (r: Vec<
    TypeTerm,
>)
    requires
        decreases_to!(*whole => *args),
    ensures
        r@.len() == args@.len(),
        forall|i: int|
            0 <= i < args@.len() ==> term_model(r@[i]) == spec_apply_subst(
                term_model(args@[i]),
                sigma@,
            ),
    decreases whole, 0int,
{
    let n: usize = args.len();
    let mut out: Vec<TypeTerm> = Vec::new();
    let mut i: usize = 0;
    while i < n
        invariant
            i <= n,
            out@.len() == i,
            forall|j: int|
                0 <= j < i ==> term_model(out@[j]) == spec_apply_subst(
                    term_model(args@[j]),
                    sigma@,
                ),
        decreases n - i,
    {
        proof {
            assert(decreases_to!(*args => args@));
            assert(decreases_to!(args@ => args@[i as int]));
        }
        let t = args[i].apply_substitution(sigma);
        out.push(t);
        i = i + 1;
    }
    out
}

/// One step of matching: how `unify` treats a pair of terms under a
/// substitution.  A variable on either side is looked up; bound
/// variables must already map to the opposite term, unbound ones are
/// bound to it.  Atoms must agree; applications and ladders match
/// argument by argument, threading the substitution left to right.
pub open spec fn unify_model(a: TermModel, b: TermModel, s: Seq<(u64, TermModel)>) -> Option<
    Seq<(u64, TermModel)>,
>
    decreases a, 0int,
{
    match a {
        TermModel::TypeID(TypeID::Var(v)) => match lookup_model(s, v) {
            Some(t) => if t == b {
                Some(s)
            } else {
                None
            },
            None => Some(s.push((v, b))),
        },
        _ => match b {
            TermModel::TypeID(TypeID::Var(w)) => match lookup_model(s, w) {
                Some(t) => if t == a {
                    Some(s)
                } else {
                    None
                },
                None => Some(s.push((w, a))),
            },
            _ => match (a, b) {
                (TermModel::TypeID(x), TermModel::TypeID(y)) => if x == y {
                    Some(s)
                } else {
                    None
                },
                (TermModel::Num(x), TermModel::Num(y)) => if x == y {
                    Some(s)
                } else {
                    None
                },
                (TermModel::Char(x), TermModel::Char(y)) => if x == y {
                    Some(s)
                } else {
                    None
                },
                (TermModel::App(xs), TermModel::App(ys)) => unify_args(xs, ys, s, 0),
                (TermModel::Ladder(xs), TermModel::Ladder(ys)) => unify_args(xs, ys, s, 0),
                _ => None,
            },
        },
    }
}

/// Matches the argument sequences from position `i` on.
pub open spec fn unify_args(
    xs: Seq<TermModel>,
    ys: Seq<TermModel>,
    s: Seq<(u64, TermModel)>,
    i: int,
) -> Option<Seq<(u64, TermModel)>>
    decreases xs, xs.len() - i + 1,
{
    if xs.len() != ys.len() {
        None
    } else if i < 0 || i >= xs.len() {
        Some(s)
    } else {
        match unify_model(xs[i], ys[i], s) {
            Some(s2) => unify_args(xs, ys, s2, i + 1),
            None => None,
        }
    }
}

/// Matches `a` against `b`, extending `sigma`.  Returns the extended
/// substitution exactly when [`unify_model`] succeeds on the models,
/// and `None` exactly when it fails.
#[verifier::loop_isolation(false)]
pub fn unify_with(a: &TypeTerm, b: &TypeTerm, sigma: Substitution) -> (r: Option<Substitution>)
    ensures
        match r {
            Some(s2) => unify_model(a@, b@, sigma@) == Some(s2@),
            None => unify_model(a@, b@, sigma@) is None,
        },
    decreases a,
{
    if let TypeTerm::TypeID(TypeID::Var(v)) = a {
        let mut sigma = sigma;
        match sigma.get(*v) {
            Some(t) => {
                if t == b {
                    return Some(sigma);
                } else {
                    return None;
                }
            }
            None => {
                let bc = b.clone();
                sigma.bind(*v, bc);
                return Some(sigma);
            }
        }
    }
    if let TypeTerm::TypeID(TypeID::Var(w)) = b {
        let mut sigma = sigma;
        match sigma.get(*w) {
            Some(t) => {
                if t == a {
                    return Some(sigma);
                } else {
                    return None;
                }
            }
            None => {
                let ac = a.clone();
                sigma.bind(*w, ac);
                return Some(sigma);
            }
        }
    }
    match (a, b) {
        (TypeTerm::TypeID(x), TypeTerm::TypeID(y)) => {
            if x == y {
                Some(sigma)
            } else {
                None
            }
        }
        (TypeTerm::Num(x), TypeTerm::Num(y)) => {
            if x == y {
                Some(sigma)
            } else {
                None
            }
        }
        (TypeTerm::Char(x), TypeTerm::Char(y)) => {
            if x == y {
                Some(sigma)
            } else {
                None
            }
        }
        (TypeTerm::App(xs), TypeTerm::App(ys)) => unify_vec_args(a, xs, ys, sigma),
        (TypeTerm::Ladder(xs), TypeTerm::Ladder(ys)) => unify_vec_args(a, xs, ys, sigma),
        _ => None,
    }
}

/// Matches two argument vectors elementwise, threading the substitution.
/// `whole` is the application or ladder the vectors belong to; it only
/// serves as the termination measure.
#[verifier::loop_isolation(false)]
fn unify_vec_args(
    whole: &TypeTerm,
    xs: &Vec<TypeTerm>,
    ys: &Vec<TypeTerm>,
    sigma: Substitution,
) -> (r: Option<Substitution>)
    requires
        decreases_to!(*whole => *xs),
    ensures
        match r {
            Some(s2) => unify_args(seq_model(xs@), seq_model(ys@), sigma@, 0) == Some(s2@),
            None => unify_args(seq_model(xs@), seq_model(ys@), sigma@, 0) is None,
        },
    decreases whole, 0int,
{
    proof {
        lemma_seq_model(xs@);
        lemma_seq_model(ys@);
    }
    if xs.len() != ys.len() {
        return None;
    }
    let n: usize = xs.len();
    let mut i: usize = 0;
    let mut sigma = sigma;
    let ghost sigma0 = sigma@;
    while i < n
        invariant
            i <= n,
            unify_args(seq_model(xs@), seq_model(ys@), sigma0, 0) == unify_args(
                seq_model(xs@),
                seq_model(ys@),
                sigma@,
                i as int,
            ),
        decreases n - i,
    {
        proof {
            assert(decreases_to!(*xs => xs@));
            assert(decreases_to!(xs@ => xs@[i as int]));
        }
        match unify_with(&xs[i], &ys[i], sigma) {
            Some(s2) => {
                sigma = s2;
            }
            None => {
                return None;
            }
        }
        i = i + 1;
    }
    Some(sigma)
}

/// A term without type variables.
pub open spec fn term_ground(m: TermModel) -> bool
    decreases m, 0int,
{
    match m {
        TermModel::TypeID(TypeID::Var(_)) => false,
        TermModel::App(args) => args_ground(args),
        TermModel::Ladder(args) => args_ground(args),
        _ => true,
    }
}

/// A sequence of terms without type variables.
pub open spec fn args_ground(s: Seq<TermModel>) -> bool
    decreases s, 1int,
{
    s.len() == 0 || (term_ground(s[0]) && args_ground(s.subrange(1, s.len() as int)))
}

/// `args_ground` holds elementwise.
pub proof fn lemma_args_ground(s: Seq<TermModel>)
    ensures
        args_ground(s) <==> (forall|i: int| 0 <= i < s.len() ==> term_ground(#[trigger] s[i])),
    decreases s,
{
    if s.len() > 0 {
        let tail = s.subrange(1, s.len() as int);
        lemma_args_ground(tail);
        if args_ground(s) {
            assert forall|i: int| 0 <= i < s.len() implies term_ground(#[trigger] s[i]) by {
                if i > 0 {
                    assert(tail[i - 1] == s[i]);
                }
            }
        }
        if forall|i: int| 0 <= i < s.len() ==> term_ground(#[trigger] s[i]) {
            assert(term_ground(s[0]));
            assert forall|i: int| 0 <= i < tail.len() implies term_ground(#[trigger] tail[i]) by {
                assert(tail[i] == s[i + 1]);
            }
        }
    }
}

/// A binding present in a prefix is still found, unchanged, after the
/// binding list grows.
pub proof fn lemma_lookup_extend(s: Seq<(u64, TermModel)>, s2: Seq<(u64, TermModel)>, v: u64)
    requires
        s.len() <= s2.len(),
        s2.subrange(0, s.len() as int) == s,
        lookup_model(s, v) is Some,
    ensures
        lookup_model(s2, v) == lookup_model(s, v),
{
    lemma_lookup_extend_from(s, s2, v, 0);
}

/// The same, from position `i` on.
proof fn lemma_lookup_extend_from(
    s: Seq<(u64, TermModel)>,
    s2: Seq<(u64, TermModel)>,
    v: u64,
    i: int,
)
    requires
        s.len() <= s2.len(),
        s2.subrange(0, s.len() as int) == s,
        0 <= i,
        lookup_from(s, v, i) is Some,
    ensures
        lookup_from(s2, v, i) == lookup_from(s, v, i),
    decreases s.len() - i,
{
    if i < s.len() {
        assert(s2.subrange(0, s.len() as int)[i] == s2[i]);
        if s[i].0 != v {
            lemma_lookup_extend_from(s, s2, v, i + 1);
        }
    }
}

/// A fresh binding is found after an append; older bindings win.
pub proof fn lemma_lookup_push(s: Seq<(u64, TermModel)>, v: u64, t: TermModel, w: u64)
    ensures
        lookup_model(s.push((v, t)), w) == (if lookup_model(s, w) is Some {
            lookup_model(s, w)
        } else if w == v {
            Some(t)
        } else {
            None
        }),
{
    lemma_lookup_push_from(s, v, t, w, 0);
}

/// The same, from position `i` on.
proof fn lemma_lookup_push_from(s: Seq<(u64, TermModel)>, v: u64, t: TermModel, w: u64, i: int)
    requires
        0 <= i <= s.len(),
    ensures
        lookup_from(s.push((v, t)), w, i) == (if lookup_from(s, w, i) is Some {
            lookup_from(s, w, i)
        } else if w == v {
            Some(t)
        } else {
            None
        }),
    decreases s.len() - i,
{
    if i < s.len() {
        assert(s.push((v, t))[i] == s[i]);
        if s[i].0 != w {
            lemma_lookup_push_from(s, v, t, w, i + 1);
        }
    } else {
        assert(s.push((v, t))[i] == (v, t));
        if v != w {
            assert(lookup_from(s.push((v, t)), w, i + 1) is None);
        }
    }
}

/// Unification only appends bindings: the substitution it returns
/// extends the one it was given.
pub proof fn lemma_unify_extends(a: TermModel, b: TermModel, s: Seq<(u64, TermModel)>)
    requires
        unify_model(a, b, s) is Some,
    ensures
        ({
            let s2 = unify_model(a, b, s)->Some_0;
            s.len() <= s2.len() && s2.subrange(0, s.len() as int) == s
        }),
    decreases a, 0int,
{
    let s2 = unify_model(a, b, s)->Some_0;
    match a {
        TermModel::TypeID(TypeID::Var(v)) => {
            if lookup_model(s, v) is None {
                assert(s.push((v, b)).subrange(0, s.len() as int) =~= s);
            } else {
                assert(s2.subrange(0, s.len() as int) =~= s);
            }
        }
        _ => match b {
            TermModel::TypeID(TypeID::Var(w)) => {
                if lookup_model(s, w) is None {
                    assert(s.push((w, a)).subrange(0, s.len() as int) =~= s);
                } else {
                    assert(s2.subrange(0, s.len() as int) =~= s);
                }
            }
            _ => match (a, b) {
                (TermModel::App(xs), TermModel::App(ys)) => {
                    lemma_unify_args_extends(xs, ys, s, 0);
                }
                (TermModel::Ladder(xs), TermModel::Ladder(ys)) => {
                    lemma_unify_args_extends(xs, ys, s, 0);
                }
                _ => {
                    assert(s2.subrange(0, s.len() as int) =~= s);
                }
            },
        },
    }
}

/// The same for argument sequences, from position `i` on.
pub proof fn lemma_unify_args_extends(
    xs: Seq<TermModel>,
    ys: Seq<TermModel>,
    s: Seq<(u64, TermModel)>,
    i: int,
)
    requires
        unify_args(xs, ys, s, i) is Some,
    ensures
        ({
            let s2 = unify_args(xs, ys, s, i)->Some_0;
            s.len() <= s2.len() && s2.subrange(0, s.len() as int) == s
        }),
    decreases xs, xs.len() - i + 1,
{
    if xs.len() == ys.len() && 0 <= i < xs.len() {
        let s1 = unify_model(xs[i], ys[i], s)->Some_0;
        lemma_unify_extends(xs[i], ys[i], s);
        lemma_unify_args_extends(xs, ys, s1, i + 1);
        let s2 = unify_args(xs, ys, s, i)->Some_0;
        assert(s2.subrange(0, s.len() as int) =~= s2.subrange(0, s1.len() as int).subrange(
            0,
            s.len() as int,
        ));
    } else {
        let s2 = unify_args(xs, ys, s, i)->Some_0;
        assert(s2.subrange(0, s.len() as int) =~= s);
    }
}

/// A substitution that already grounds a term keeps giving the same
/// result after it grows.
pub proof fn lemma_apply_extend(b: TermModel, s: Seq<(u64, TermModel)>, s2: Seq<(u64, TermModel)>)
    requires
        s.len() <= s2.len(),
        s2.subrange(0, s.len() as int) == s,
        term_ground(spec_apply_subst(b, s)),
    ensures
        spec_apply_subst(b, s2) == spec_apply_subst(b, s),
    decreases b, 0int,
{
    match b {
        TermModel::TypeID(TypeID::Var(v)) => {
            match lookup_model(s, v) {
                Some(_) => {
                    lemma_lookup_extend(s, s2, v);
                }
                None => {
                    assert(spec_apply_subst(b, s) == b);
                    assert(!term_ground(b));
                }
            }
        }
        TermModel::App(args) => {
            lemma_apply_subst_args(args, s);
            lemma_args_ground(spec_apply_subst_args(args, s));
            assert forall|i: int|
                0 <= i < args.len() implies term_ground(
                #[trigger] spec_apply_subst(args[i], s),
            ) by {
                assert(spec_apply_subst_args(args, s)[i] == spec_apply_subst(args[i], s));
            }
            lemma_apply_extend_args(args, s, s2);
            lemma_apply_subst_args(args, s2);
            assert(spec_apply_subst_args(args, s2) =~= spec_apply_subst_args(args, s));
        }
        TermModel::Ladder(args) => {
            lemma_apply_subst_args(args, s);
            lemma_args_ground(spec_apply_subst_args(args, s));
            assert forall|i: int|
                0 <= i < args.len() implies term_ground(
                #[trigger] spec_apply_subst(args[i], s),
            ) by {
                assert(spec_apply_subst_args(args, s)[i] == spec_apply_subst(args[i], s));
            }
            lemma_apply_extend_args(args, s, s2);
            lemma_apply_subst_args(args, s2);
            assert(spec_apply_subst_args(args, s2) =~= spec_apply_subst_args(args, s));
        }
        _ => {},
    }
}

/// The same for argument sequences.
proof fn lemma_apply_extend_args(
    args: Seq<TermModel>,
    s: Seq<(u64, TermModel)>,
    s2: Seq<(u64, TermModel)>,
)
    requires
        s.len() <= s2.len(),
        s2.subrange(0, s.len() as int) == s,
        forall|i: int|
            0 <= i < args.len() ==> term_ground(#[trigger] spec_apply_subst(args[i], s)),
    ensures
        forall|i: int|
            0 <= i < args.len() ==> #[trigger] spec_apply_subst(args[i], s2) == spec_apply_subst(
                args[i],
                s,
            ),
    decreases args, 1int,
{
    assert forall|i: int|
        0 <= i < args.len() implies #[trigger] spec_apply_subst(args[i], s2) == spec_apply_subst(
        args[i],
        s,
    ) by {
        lemma_apply_extend(args[i], s, s2);
    }
}

/// Soundness of matching: when a ground subject unifies with a
/// pattern, the returned substitution really is a unifier — applying
/// it to the pattern gives the subject back.
pub proof fn lemma_unify_sound(a: TermModel, b: TermModel, s: Seq<(u64, TermModel)>)
    requires
        term_ground(a),
        unify_model(a, b, s) is Some,
    ensures
        spec_apply_subst(b, unify_model(a, b, s)->Some_0) == a,
    decreases a, 0int,
{
    let s2 = unify_model(a, b, s)->Some_0;
    match b {
        TermModel::TypeID(TypeID::Var(w)) => {
            assert(!(a is TypeID && a->TypeID_0 is Var));
            match lookup_model(s, w) {
                Some(t) => {
                    assert(t == a && s2 == s);
                }
                None => {
                    assert(s2 == s.push((w, a)));
                    lemma_lookup_push(s, w, a, w);
                }
            }
        }
        TermModel::App(ys) => {
            match a {
                TermModel::App(xs) => {
                    lemma_args_ground(xs);
                    lemma_unify_args_sound(xs, ys, s, 0);
                    lemma_apply_subst_args(ys, s2);
                    assert(spec_apply_subst_args(ys, s2) =~= xs);
                }
                _ => {},
            }
        }
        TermModel::Ladder(ys) => {
            match a {
                TermModel::Ladder(xs) => {
                    lemma_args_ground(xs);
                    lemma_unify_args_sound(xs, ys, s, 0);
                    lemma_apply_subst_args(ys, s2);
                    assert(spec_apply_subst_args(ys, s2) =~= xs);
                }
                _ => {},
            }
        }
        _ => {},
    }
}

/// The same for argument sequences: after a successful match, applying
/// the final substitution to each pattern argument from `i` on gives
/// the corresponding ground subject argument.
proof fn lemma_unify_args_sound(
    xs: Seq<TermModel>,
    ys: Seq<TermModel>,
    s: Seq<(u64, TermModel)>,
    i: int,
)
    requires
        forall|k: int| 0 <= k < xs.len() ==> term_ground(#[trigger] xs[k]),
        unify_args(xs, ys, s, i) is Some,
        0 <= i,
    ensures
        ({
            let s2 = unify_args(xs, ys, s, i)->Some_0;
            forall|k: int|
                i <= k < ys.len() ==> #[trigger] spec_apply_subst(ys[k], s2) == xs[k]
        }),
    decreases xs, xs.len() - i + 1,
{
    if xs.len() == ys.len() && i < xs.len() {
        let s1 = unify_model(xs[i], ys[i], s)->Some_0;
        let s2 = unify_args(xs, ys, s1, i + 1)->Some_0;
        lemma_unify_sound(xs[i], ys[i], s);
        lemma_unify_args_extends(xs, ys, s1, i + 1);
        lemma_apply_extend(ys[i], s1, s2);
        lemma_unify_args_sound(xs, ys, s1, i + 1);
    }
}

} // verus!
