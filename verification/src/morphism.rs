//! Typed conversion rules and their resolution.
//!
//! A [`GenericReprTreeMorphism`] is a registered rule: a source and a
//! destination type (possibly holding type variables) and a setup
//! description saying which projection to wire when the rule fires.
//! [`MorphismBase`] holds the registered rules and finds the rule for a
//! requested conversion by unification, synthesizing elementwise
//! "list-map" rules on the fly, and stripping a common halo prefix off
//! the requested types when the conversion applies below it.

use vstd::prelude::*;
use crate::term::{TypeID, TypeTerm, TermModel, term_model, seq_model, lnf_model, rungs_to_model,
    is_flat_model, lemma_seq_model};
use crate::subst::{Substitution, unify_with, unify_model, lookup_model};
use crate::transform::Transform;
use crate::repr::{ReprTree, TreeModel, spec_descend, spec_attach, EdgeModel};

verus! {

broadcast use vstd::std_specs::vec::group_vec_axioms;

/// A conversion request: from one ladder type to another.
#[derive(Debug)]
pub struct MorphismType {
    pub src_type: TypeTerm,
    pub dst_type: TypeTerm,
}

impl Clone for MorphismType {
    /// Cloning preserves both type models.
    fn clone(&self) -> (r: MorphismType)
        ensures
            r.src_type@ == self.src_type@,
            r.dst_type@ == self.dst_type@,
    {
        MorphismType { src_type: self.src_type.clone(), dst_type: self.dst_type.clone() }
    }
}

impl MorphismType {
    /// Both sides brought to canonical form.
    pub fn normalize(&self) -> (r: MorphismType)
        ensures
            r.src_type@ == crate::term::normalize_model(self.src_type@),
            r.dst_type@ == crate::term::normalize_model(self.dst_type@),
    {
        MorphismType {
            src_type: self.src_type.normalize(),
            dst_type: self.dst_type.normalize(),
        }
    }
}

/// The projection a rule wires, described as data: the transform kind
/// with the type variables it reads its radices from.
#[derive(Clone, Copy, PartialEq, Eq, Structural, Debug)]
pub enum TransformTemplate {
    CharToDigit { radix_var: u64 },
    DigitToChar { radix_var: u64 },
    Reverse,
    RadixConvert { src_radix_var: u64, dst_radix_var: u64 },
    EachCharToDigit { radix_var: u64 },
    EachDigitToChar { radix_var: u64 },
}

/// The radix bound to a variable, when it is a usable numeral: the
/// engine accepts radices 2 through 16.
pub open spec fn spec_radix_of(s: Seq<(u64, TermModel)>, v: u64) -> Option<u64> {
    match lookup_model(s, v) {
        Some(TermModel::Num(n)) => if 2 <= n <= 16 {
            Some(n as u64)
        } else {
            None
        },
        _ => None,
    }
}

/// The concrete transform a template resolves to under a substitution;
/// `None` when a radix variable is unbound, not a numeral, or outside
/// 2..=16.
pub open spec fn spec_resolve(t: TransformTemplate, s: Seq<(u64, TermModel)>) -> Option<Transform> {
    match t {
        TransformTemplate::CharToDigit { radix_var } => match spec_radix_of(s, radix_var) {
            Some(r) => Some(Transform::CharToDigit { radix: r }),
            None => None,
        },
        TransformTemplate::DigitToChar { radix_var } => match spec_radix_of(s, radix_var) {
            Some(r) => Some(Transform::DigitToChar { radix: r }),
            None => None,
        },
        TransformTemplate::Reverse => Some(Transform::Reverse),
        TransformTemplate::RadixConvert { src_radix_var, dst_radix_var } => match (
            spec_radix_of(s, src_radix_var),
            spec_radix_of(s, dst_radix_var),
        ) {
            (Some(a), Some(b)) => Some(Transform::RadixConvert { src_radix: a, dst_radix: b }),
            _ => None,
        },
        TransformTemplate::EachCharToDigit { radix_var } => match spec_radix_of(s, radix_var) {
            Some(r) => Some(Transform::EachCharToDigit { radix: r }),
            None => None,
        },
        TransformTemplate::EachDigitToChar { radix_var } => match spec_radix_of(s, radix_var) {
            Some(r) => Some(Transform::EachDigitToChar { radix: r }),
            None => None,
        },
    }
}

impl TransformTemplate {
    /// The elementwise lifting of a scalar digit template over lists,
    /// if this template is one of the recognized item conversions.
    pub fn lift(&self) -> (r: Option<TransformTemplate>)
        ensures
            r == spec_lift(*self),
    {
        match self {
            TransformTemplate::CharToDigit { radix_var } => Some(
                TransformTemplate::EachCharToDigit { radix_var: *radix_var },
            ),
            TransformTemplate::DigitToChar { radix_var } => Some(
                TransformTemplate::EachDigitToChar { radix_var: *radix_var },
            ),
            _ => None,
        }
    }

    /// Resolves the template to a concrete transform under `sigma`.
    pub fn resolve(&self, sigma: &Substitution) -> (r: Option<Transform>)
        ensures
            r == spec_resolve(*self, sigma@),
    {
        match self {
            TransformTemplate::CharToDigit { radix_var } => match radix_of(sigma, *radix_var) {
                Some(r) => Some(Transform::CharToDigit { radix: r }),
                None => None,
            },
            TransformTemplate::DigitToChar { radix_var } => match radix_of(sigma, *radix_var) {
                Some(r) => Some(Transform::DigitToChar { radix: r }),
                None => None,
            },
            TransformTemplate::Reverse => Some(Transform::Reverse),
            TransformTemplate::RadixConvert { src_radix_var, dst_radix_var } => match (
                radix_of(sigma, *src_radix_var),
                radix_of(sigma, *dst_radix_var),
            ) {
                (Some(a), Some(b)) => Some(
                    Transform::RadixConvert { src_radix: a, dst_radix: b },
                ),
                _ => None,
            },
            TransformTemplate::EachCharToDigit { radix_var } => match radix_of(
                sigma,
                *radix_var,
            ) {
                Some(r) => Some(Transform::EachCharToDigit { radix: r }),
                None => None,
            },
            TransformTemplate::EachDigitToChar { radix_var } => match radix_of(
                sigma,
                *radix_var,
            ) {
                Some(r) => Some(Transform::EachDigitToChar { radix: r }),
                None => None,
            },
        }
    }
}

/// The list lifting of a template, as a spec.
pub open spec fn spec_lift(t: TransformTemplate) -> Option<TransformTemplate> {
    match t {
        TransformTemplate::CharToDigit { radix_var } => Some(
            TransformTemplate::EachCharToDigit { radix_var },
        ),
        TransformTemplate::DigitToChar { radix_var } => Some(
            TransformTemplate::EachDigitToChar { radix_var },
        ),
        _ => None,
    }
}

/// Reads the radix bound to a variable out of a substitution.
fn radix_of(sigma: &Substitution, v: u64) -> (r: Option<u64>)
    ensures
        r == spec_radix_of(sigma@, v),
{
    match sigma.get(v) {
        Some(t) => match t {
            TypeTerm::Num(n) => {
                if 2 <= *n && *n <= 16 {
                    Some(*n as u64)
                } else {
                    None
                }
            }
            _ => None,
        },
        None => None,
    }
}

/// How a rule wires its projection once it fires: where (relative to
/// the node the rule is applied at) the source representation sits,
/// where the derived representation is attached, and which transform
/// computes it.  Both ladders may hold the rule's type variables.
#[derive(Debug)]
pub struct SetupRule {
    pub src_ladder: TypeTerm,
    pub dst_ladder: TypeTerm,
    pub template: TransformTemplate,
}

impl Clone for SetupRule {
    /// Cloning preserves the ladder models and the template.
    fn clone(&self) -> (r: SetupRule)
        ensures
            r.src_ladder@ == self.src_ladder@,
            r.dst_ladder@ == self.dst_ladder@,
            r.template == self.template,
    {
        SetupRule {
            src_ladder: self.src_ladder.clone(),
            dst_ladder: self.dst_ladder.clone(),
            template: self.template,
        }
    }
}

/// A registered conversion rule between two (possibly abstract)
/// representation types.
#[derive(Debug)]
pub struct GenericReprTreeMorphism {
    pub morph_type: MorphismType,
    pub setup: SetupRule,
}

impl Clone for GenericReprTreeMorphism {
    /// Cloning preserves all type models and the setup.
    fn clone(&self) -> (r: GenericReprTreeMorphism)
        ensures
            r.morph_type.src_type@ == self.morph_type.src_type@,
            r.morph_type.dst_type@ == self.morph_type.dst_type@,
            r.setup.src_ladder@ == self.setup.src_ladder@,
            r.setup.dst_ladder@ == self.setup.dst_ladder@,
            r.setup.template == self.setup.template,
    {
        GenericReprTreeMorphism { morph_type: self.morph_type.clone(), setup: self.setup.clone() }
    }
}

impl GenericReprTreeMorphism {
    /// A rule from `src_type` to `dst_type` wiring `setup`; both types
    /// are stored in canonical form.
    pub fn new(src_type: TypeTerm, dst_type: TypeTerm, setup: SetupRule) -> (r:
        GenericReprTreeMorphism)
        ensures
            r.morph_type.src_type@ == crate::term::normalize_model(src_type@),
            r.morph_type.dst_type@ == crate::term::normalize_model(dst_type@),
            r.setup.src_ladder@ == setup.src_ladder@,
            r.setup.dst_ladder@ == setup.dst_ladder@,
            r.setup.template == setup.template,
    {
        GenericReprTreeMorphism {
            morph_type: (MorphismType { src_type, dst_type }).normalize(),
            setup,
        }
    }
}

/// Whether one rule fires for a request: the request's source unifies
/// with the rule's source and its destination with the rule's
/// destination, under one shared substitution, tried in that order.
pub open spec fn spec_rule_match(
    rule: GenericReprTreeMorphism,
    srcm: TermModel,
    dstm: TermModel,
) -> Option<Seq<(u64, TermModel)>> {
    match unify_model(srcm, rule.morph_type.src_type@, Seq::empty()) {
        Some(s1) => unify_model(dstm, rule.morph_type.dst_type@, s1),
        None => None,
    }
}

/// The first registered rule (from position `i` on) that fires for the
/// request, with its substitution.
pub open spec fn spec_find_static(
    rules: Seq<GenericReprTreeMorphism>,
    srcm: TermModel,
    dstm: TermModel,
    i: int,
) -> Option<(int, Seq<(u64, TermModel)>)>
    decreases rules.len() - i,
{
    if i < 0 || i >= rules.len() {
        None
    } else {
        match spec_rule_match(rules[i], srcm, dstm) {
            Some(s) => Some((i, s)),
            None => spec_find_static(rules, srcm, dstm, i + 1),
        }
    }
}

/// The item type of a list type `<List Item>`, if the term has exactly
/// that shape.
pub open spec fn spec_list_item(m: TermModel, ltid: u64) -> Option<TermModel> {
    match m {
        TermModel::App(args) => if args.len() == 2 && args[0] == TermModel::TypeID(
            TypeID::Fun(ltid),
        ) {
            Some(args[1])
        } else {
            None
        },
        _ => None,
    }
}

/// The first rule (from `i` on) that fires for the item types and
/// whose projection has an elementwise lifting.
pub open spec fn spec_find_listmap(
    rules: Seq<GenericReprTreeMorphism>,
    si: TermModel,
    di: TermModel,
    i: int,
) -> Option<(int, Seq<(u64, TermModel)>)>
    decreases rules.len() - i,
{
    if i < 0 || i >= rules.len() {
        None
    } else {
        match spec_rule_match(rules[i], si, di) {
            Some(s) => if spec_lift(rules[i].setup.template) is Some {
                Some((i, s))
            } else {
                spec_find_listmap(rules, si, di, i + 1)
            },
            None => spec_find_listmap(rules, si, di, i + 1),
        }
    }
}

/// How a request was resolved: by a stored rule, by the synthesized
/// elementwise lifting of a stored rule, or not at all.
pub enum FindOutcome {
    Static(int, Seq<(u64, TermModel)>),
    Lifted(int, Seq<(u64, TermModel)>),
    Missing,
}

/// Resolving a request: list requests first try the synthesized
/// elementwise lifting, then (like everything else) the stored rules
/// in registration order.
pub open spec fn spec_find_morphism(
    rules: Seq<GenericReprTreeMorphism>,
    ltid: u64,
    srcm: TermModel,
    dstm: TermModel,
) -> FindOutcome {
    let lm = match (spec_list_item(srcm, ltid), spec_list_item(dstm, ltid)) {
        (Some(si), Some(di)) => spec_find_listmap(rules, si, di, 0),
        _ => None,
    };
    match lm {
        Some((i, s)) => FindOutcome::Lifted(i, s),
        None => match spec_find_static(rules, srcm, dstm, 0) {
            Some((i, s)) => FindOutcome::Static(i, s),
            None => FindOutcome::Missing,
        },
    }
}

/// The setup source ladder of a found rule.
pub open spec fn spec_found_setup_src(
    rules: Seq<GenericReprTreeMorphism>,
    ltid: u64,
    o: FindOutcome,
) -> TermModel {
    match o {
        FindOutcome::Static(i, _) => rules[i].setup.src_ladder@,
        FindOutcome::Lifted(i, _) => TermModel::App(
            seq![TermModel::TypeID(TypeID::Fun(ltid)), rules[i].morph_type.src_type@],
        ),
        FindOutcome::Missing => arbitrary(),
    }
}

/// The setup destination ladder of a found rule.
pub open spec fn spec_found_setup_dst(
    rules: Seq<GenericReprTreeMorphism>,
    ltid: u64,
    o: FindOutcome,
) -> TermModel {
    match o {
        FindOutcome::Static(i, _) => rules[i].setup.dst_ladder@,
        FindOutcome::Lifted(i, _) => TermModel::App(
            seq![TermModel::TypeID(TypeID::Fun(ltid)), rules[i].morph_type.dst_type@],
        ),
        FindOutcome::Missing => arbitrary(),
    }
}

/// The projection template of a found rule.
pub open spec fn spec_found_template(
    rules: Seq<GenericReprTreeMorphism>,
    o: FindOutcome,
) -> TransformTemplate {
    match o {
        FindOutcome::Static(i, _) => rules[i].setup.template,
        FindOutcome::Lifted(i, _) => spec_lift(rules[i].setup.template)->Some_0,
        FindOutcome::Missing => arbitrary(),
    }
}

/// The substitution of a found rule.
pub open spec fn spec_found_sigma(o: FindOutcome) -> Seq<(u64, TermModel)> {
    match o {
        FindOutcome::Static(_, s) => s,
        FindOutcome::Lifted(_, s) => s,
        FindOutcome::Missing => arbitrary(),
    }
}

/// Halo stripping: the request with its first `k` rungs removed, and
/// one more rung stripped after each failed attempt, as long as source
/// and destination still agree on the rung being stripped.
pub open spec fn spec_find_ladder(
    rules: Seq<GenericReprTreeMorphism>,
    ltid: u64,
    srcs: Seq<TermModel>,
    dsts: Seq<TermModel>,
    k: int,
) -> Option<(FindOutcome, int)>
    decreases srcs.len() - k + 1,
{
    if k < 0 || k > srcs.len() || k > dsts.len() {
        None
    } else {
        let o = spec_find_morphism(
            rules,
            ltid,
            rungs_to_model(srcs.subrange(k, srcs.len() as int)),
            rungs_to_model(dsts.subrange(k, dsts.len() as int)),
        );
        if !(o is Missing) {
            Some((o, k))
        } else if k < srcs.len() && k < dsts.len() && srcs[k] == dsts[k] {
            spec_find_ladder(rules, ltid, srcs, dsts, k + 1)
        } else {
            None
        }
    }
}


/// A successful halo-stripping lookup strips at most the whole ladder,
/// and always carries a real outcome.
pub proof fn lemma_find_ladder_bounds(
    rules: Seq<GenericReprTreeMorphism>,
    ltid: u64,
    srcs: Seq<TermModel>,
    dsts: Seq<TermModel>,
    k: int,
)
    requires
        0 <= k,
    ensures
        match spec_find_ladder(rules, ltid, srcs, dsts, k) {
            Some((o, kk)) => k <= kk <= srcs.len() && kk <= dsts.len() && !(o is Missing),
            None => true,
        },
    decreases srcs.len() - k + 1,
{
    if k <= srcs.len() && k <= dsts.len() {
        let o = spec_find_morphism(
            rules,
            ltid,
            rungs_to_model(srcs.subrange(k, srcs.len() as int)),
            rungs_to_model(dsts.subrange(k, dsts.len() as int)),
        );
        if o is Missing && k < srcs.len() && k < dsts.len() && srcs[k] == dsts[k] {
            lemma_find_ladder_bounds(rules, ltid, srcs, dsts, k + 1);
        }
    }
}

/// The registered conversion rules, in registration order, plus the id
/// of the list type constructor used for the elementwise lifting.
#[derive(Debug)]
pub struct MorphismBase {
    pub morphisms: Vec<GenericReprTreeMorphism>,
    pub list_typeid: u64,
}

impl MorphismBase {
    /// An empty rule base using the given id as the list constructor.
    pub fn new(list_typeid: u64) -> (r: MorphismBase)
        ensures
            r.morphisms@.len() == 0,
            r.list_typeid == list_typeid,
    {
        MorphismBase { morphisms: Vec::new(), list_typeid }
    }

    /// Registers a rule; later lookups try rules in this order.
    pub fn add_morphism(&mut self, m: GenericReprTreeMorphism)
        ensures
            final(self).morphisms@ == old(self).morphisms@.push(m),
            final(self).list_typeid == old(self).list_typeid,
    {
        self.morphisms.push(m);
    }

    /// Tries to fire one rule for the request `src -> dst`, under a
    /// fresh substitution.
    fn rule_match(rule: &GenericReprTreeMorphism, src: &TypeTerm, dst: &TypeTerm) -> (r: Option<
        Substitution,
    >)
        ensures
            match r {
                Some(s) => spec_rule_match(*rule, src@, dst@) == Some(s@),
                None => spec_rule_match(*rule, src@, dst@) is None,
            },
    {
        let empty = Substitution::new();
        proof {
            assert(empty@ =~= Seq::<(u64, TermModel)>::empty());
        }
        match unify_with(src, &rule.morph_type.src_type, empty) {
            Some(s1) => unify_with(dst, &rule.morph_type.dst_type, s1),
            None => None,
        }
    }

    /// Resolves a request to a rule and a substitution: a request
    /// between two list types is first answered by lifting a stored
    /// item rule elementwise; otherwise the stored rules are tried in
    /// registration order.  `None` exactly when nothing fires.
    #[verifier::loop_isolation(false)]
    pub fn find_morphism(&self, src: &TypeTerm, dst: &TypeTerm) -> (r: Option<
        (GenericReprTreeMorphism, Substitution),
    >)
        ensures
            match spec_find_morphism(self.morphisms@, self.list_typeid, src@, dst@) {
                FindOutcome::Missing => r is None,
                o => {
                    &&& r is Some
                    &&& r->Some_0.0.setup.src_ladder@ == spec_found_setup_src(
                        self.morphisms@,
                        self.list_typeid,
                        o,
                    )
                    &&& r->Some_0.0.setup.dst_ladder@ == spec_found_setup_dst(
                        self.morphisms@,
                        self.list_typeid,
                        o,
                    )
                    &&& r->Some_0.0.setup.template == spec_found_template(self.morphisms@, o)
                    &&& r->Some_0.1@ == spec_found_sigma(o)
                },
            },
    {
        let ghost rules = self.morphisms@;
        let ghost ltid = self.list_typeid;
        let list_head = TypeTerm::TypeID(TypeID::Fun(self.list_typeid));
        let mut item_src: Option<&TypeTerm> = None;
        let mut item_dst: Option<&TypeTerm> = None;
        match (src, dst) {
            (TypeTerm::App(a), TypeTerm::App(b)) => {
                if a.len() == 2 && b.len() == 2 {
                    proof {
                        lemma_seq_model(a@);
                        lemma_seq_model(b@);
                    }
                    if a[0] == list_head && b[0] == list_head {
                        item_src = Some(&a[1]);
                        item_dst = Some(&b[1]);
                    }
                }
            }
            _ => {},
        }
        proof {
            match (src, dst) {
                (TypeTerm::App(a), TypeTerm::App(b)) => {
                    lemma_seq_model(a@);
                    lemma_seq_model(b@);
                }
                _ => {},
            }
        }
        match (item_src, item_dst) {
            (Some(si), Some(di)) => {
                let n: usize = self.morphisms.len();
                let mut i: usize = 0;
                while i < n
                    invariant
                        i <= n,
                        n == self.morphisms@.len(),
                        spec_find_listmap(rules, si@, di@, 0) == spec_find_listmap(
                            rules,
                            si@,
                            di@,
                            i as int,
                        ),
                    decreases n - i,
                {
                    let rule = &self.morphisms[i];
                    match Self::rule_match(rule, si, di) {
                        Some(sigma) => {
                            match rule.setup.template.lift() {
                                Some(lifted_tmpl) => {
                                    let lsrc_args = vec![
                                        TypeTerm::TypeID(TypeID::Fun(self.list_typeid)),
                                        rule.morph_type.src_type.clone(),
                                    ];
                                    let ghost lsv = lsrc_args@;
                                    let ldst_args = vec![
                                        TypeTerm::TypeID(TypeID::Fun(self.list_typeid)),
                                        rule.morph_type.dst_type.clone(),
                                    ];
                                    let ghost ldv = ldst_args@;
                                    let lsrc = TypeTerm::App(lsrc_args);
                                    let ldst = TypeTerm::App(ldst_args);
                                    proof {
                                        lemma_seq_model(lsv);
                                        lemma_seq_model(ldv);
                                        assert(seq_model(lsv) =~= seq![
                                            TermModel::TypeID(TypeID::Fun(ltid)),
                                            rules[i as int].morph_type.src_type@,
                                        ]);
                                        assert(seq_model(ldv) =~= seq![
                                            TermModel::TypeID(TypeID::Fun(ltid)),
                                            rules[i as int].morph_type.dst_type@,
                                        ]);
                                    }
                                    let lifted = GenericReprTreeMorphism {
                                        morph_type: MorphismType {
                                            src_type: lsrc.clone(),
                                            dst_type: ldst.clone(),
                                        },
                                        setup: SetupRule {
                                            src_ladder: lsrc,
                                            dst_ladder: ldst,
                                            template: lifted_tmpl,
                                        },
                                    };
                                    return Some((lifted, sigma));
                                }
                                None => {},
                            }
                        }
                        None => {},
                    }
                    i = i + 1;
                }
            }
            _ => {},
        }
        let n: usize = self.morphisms.len();
        let mut i: usize = 0;
        while i < n
            invariant
                i <= n,
                n == self.morphisms@.len(),
                spec_find_static(rules, src@, dst@, 0) == spec_find_static(
                    rules,
                    src@,
                    dst@,
                    i as int,
                ),
                spec_find_morphism(rules, ltid, src@, dst@) matches FindOutcome::Static(_, _)
                    || spec_find_morphism(rules, ltid, src@, dst@) is Missing,
            decreases n - i,
        {
            let rule = &self.morphisms[i];
            match Self::rule_match(rule, src, dst) {
                Some(sigma) => {
                    return Some((rule.clone(), sigma));
                }
                None => {},
            }
            i = i + 1;
        }
        None
    }

    /// Resolves a request whose two types may share a leading halo of
    /// equal rungs that the conversion does not concern: rungs are
    /// stripped from the front one at a time, retrying the lookup
    /// after each strip, until a rule fires or the rungs diverge.
    /// Returns the rule, the stripped prefix (the sub-path at which
    /// the rule applies), and the substitution.
    #[verifier::loop_isolation(false)]
    pub fn find_morphism_ladder(&self, src: &TypeTerm, dst: &TypeTerm) -> (r: Option<
        (GenericReprTreeMorphism, Vec<TypeTerm>, Substitution),
    >)
        ensures
            match spec_find_ladder(
                self.morphisms@,
                self.list_typeid,
                lnf_model(src@),
                lnf_model(dst@),
                0,
            ) {
                Some((o, k)) => {
                    &&& r is Some
                    &&& r->Some_0.0.setup.src_ladder@ == spec_found_setup_src(
                        self.morphisms@,
                        self.list_typeid,
                        o,
                    )
                    &&& r->Some_0.0.setup.dst_ladder@ == spec_found_setup_dst(
                        self.morphisms@,
                        self.list_typeid,
                        o,
                    )
                    &&& r->Some_0.0.setup.template == spec_found_template(self.morphisms@, o)
                    &&& seq_model(r->Some_0.1@) == lnf_model(src@).subrange(0, k)
                    &&& r->Some_0.2@ == spec_found_sigma(o)
                },
                None => r is None,
            },
    {
        let ghost rules = self.morphisms@;
        let ghost ltid = self.list_typeid;
        let src_rungs = src.get_lnf_vec();
        let dst_rungs = dst.get_lnf_vec();
        let ghost srcs = lnf_model(src@);
        let ghost dsts = lnf_model(dst@);
        proof {
            lemma_seq_model(src_rungs@);
            lemma_seq_model(dst_rungs@);
        }
        let sn: usize = src_rungs.len();
        let dn: usize = dst_rungs.len();
        let mut k: usize = 0;
        loop
            invariant
                k <= sn,
                k <= dn,
                sn == srcs.len(),
                dn == dsts.len(),
                seq_model(src_rungs@) == srcs,
                seq_model(dst_rungs@) == dsts,
                spec_find_ladder(rules, ltid, srcs, dsts, 0) == spec_find_ladder(
                    rules,
                    ltid,
                    srcs,
                    dsts,
                    k as int,
                ),
            decreases sn - k,
        {
            let s_rem = term_of_rungs(&src_rungs, k);
            let d_rem = term_of_rungs(&dst_rungs, k);
            match self.find_morphism(&s_rem, &d_rem) {
                Some((m, sigma)) => {
                    let prefix = clone_range(&src_rungs, 0, k);
                    return Some((m, prefix, sigma));
                }
                None => {
                    if k < sn && k < dn {
                        if src_rungs[k] == dst_rungs[k] {
                            k = k + 1;
                        } else {
                            return None;
                        }
                    } else {
                        return None;
                    }
                }
            }
        }
    }

    /// Applies the conversion `src -> dst` to `rt`: resolves a rule by
    /// halo stripping, descends to the sub-node the rule concerns, and
    /// wires the rule's projection there.  Returns whether a
    /// projection was wired; when nothing fires — no rule, an unusable
    /// radix, or a missing source representation — the tree is left
    /// exactly as it was.
    pub fn apply_morphism(&self, rt: &mut ReprTree, src: &TypeTerm, dst: &TypeTerm) -> (applied:
        bool)
        ensures
            match spec_apply_morphism(
                self.morphisms@,
                self.list_typeid,
                old(rt)@,
                src@,
                dst@,
            ) {
                Some(m2) => applied && final(rt)@ == m2,
                None => !applied && final(rt)@ == old(rt)@,
            },
    {
        let ghost rules = self.morphisms@;
        let ghost ltid = self.list_typeid;
        let (rule, prefix, sigma) = match self.find_morphism_ladder(src, dst) {
            Some(x) => x,
            None => {
                return false;
            },
        };
        let ghost ok = spec_find_ladder(rules, ltid, lnf_model(src@), lnf_model(dst@), 0)->Some_0;
        let ghost o = ok.0;
        let ghost kk = ok.1;
        proof {
            lemma_find_ladder_bounds(rules, ltid, lnf_model(src@), lnf_model(dst@), 0);
            assert(seq_model(prefix@) == lnf_model(src@).subrange(0, kk));
            assert(seq_model(prefix@).len() == kk);
        }
        let transform = match rule.setup.template.resolve(&sigma) {
            Some(t) => t,
            None => {
                return false;
            },
        };
        let src_rel = rule.setup.src_ladder.apply_substitution(&sigma);
        let dst_rel = rule.setup.dst_ladder.apply_substitution(&sigma);
        let ghost srcp = lnf_model(src@).subrange(0, kk) + lnf_model(
            crate::subst::spec_apply_subst(spec_found_setup_src(rules, ltid, o), spec_found_sigma(o)),
        );
        let ghost dstp = lnf_model(src@).subrange(0, kk) + lnf_model(
            crate::subst::spec_apply_subst(spec_found_setup_dst(rules, ltid, o), spec_found_sigma(o)),
        );
        let src_tail = src_rel.get_lnf_vec();
        let dst_tail = dst_rel.get_lnf_vec();
        let mut src_path = clone_range(&prefix, 0, prefix.len());
        let mut dst_path = prefix;
        let mut src_tail = src_tail;
        let mut dst_tail = dst_tail;
        let ghost sp_pre = src_path@;
        let ghost st_pre = src_tail@;
        let ghost dp_pre = dst_path@;
        let ghost dt_pre = dst_tail@;
        proof {
            lemma_seq_model(sp_pre);
            lemma_seq_model(st_pre);
            lemma_seq_model(dp_pre);
            lemma_seq_model(dt_pre);
            assert(seq_model(sp_pre) =~= seq_model(dp_pre));
            assert(seq_model(st_pre) == lnf_model(src_rel@));
            assert(seq_model(dt_pre) == lnf_model(dst_rel@));
        }
        src_path.append(&mut src_tail);
        dst_path.append(&mut dst_tail);
        proof {
            lemma_seq_model(src_path@);
            lemma_seq_model(dst_path@);
            lemma_seq_model_concat(sp_pre.len() as int, src_path@);
            lemma_seq_model_concat(dp_pre.len() as int, dst_path@);
            assert(src_path@.subrange(0, sp_pre.len() as int) =~= sp_pre);
            assert(src_path@.subrange(sp_pre.len() as int, src_path@.len() as int) =~= st_pre);
            assert(dst_path@.subrange(0, dp_pre.len() as int) =~= dp_pre);
            assert(dst_path@.subrange(dp_pre.len() as int, dst_path@.len() as int) =~= dt_pre);
            assert(seq_model(src_path@) == seq_model(sp_pre) + seq_model(st_pre));
            assert(seq_model(dst_path@) == seq_model(dp_pre) + seq_model(dt_pre));
            assert(seq_model(src_path@) == srcp);
            assert(seq_model(dst_path@) == dstp);
        }
        match rt.descend_ladder(&src_path, 0) {
            Some(_) => {},
            None => {
                return false;
            },
        }
        proof {
            crate::term::lemma_lnf_flat(src@);
            crate::term::lemma_lnf_flat(dst_rel@);
            let whole = lnf_model(src@);
            assert forall|j: int|
                0 <= j < seq_model(dst_path@).len() implies is_flat_model(
                #[trigger] seq_model(dst_path@)[j],
            ) by {
                if j < kk {
                    assert(seq_model(dst_path@)[j] == seq_model(dp_pre)[j]);
                    assert(seq_model(dp_pre)[j] == whole.subrange(0, kk)[j]);
                    assert(whole.subrange(0, kk)[j] == whole[j]);
                } else {
                    assert(seq_model(dst_path@)[j] == seq_model(dt_pre)[j - kk]);
                    assert(seq_model(dt_pre)[j - kk] == lnf_model(dst_rel@)[j - kk]);
                }
            }
        }
                rt.attach_path(dst_path, src_path, transform);
        true
    }
}

/// The outcome of one application attempt: `Some` with the new tree
/// when a projection is wired, `None` when the request does not fire
/// and the tree stays as it is.
pub open spec fn spec_apply_morphism(
    rules: Seq<GenericReprTreeMorphism>,
    ltid: u64,
    m: TreeModel,
    srcm: TermModel,
    dstm: TermModel,
) -> Option<TreeModel> {
    match spec_find_ladder(rules, ltid, lnf_model(srcm), lnf_model(dstm), 0) {
        None => None,
        Some((o, k)) => {
            let sigma = spec_found_sigma(o);
            match spec_resolve(spec_found_template(rules, o), sigma) {
                None => None,
                Some(tr) => {
                    let prefix = lnf_model(srcm).subrange(0, k);
                    let srcp = prefix + lnf_model(
                        crate::subst::spec_apply_subst(spec_found_setup_src(rules, ltid, o), sigma),
                    );
                    let dstp = prefix + lnf_model(
                        crate::subst::spec_apply_subst(spec_found_setup_dst(rules, ltid, o), sigma),
                    );
                    if spec_descend(m, srcp, 0) is None {
                        None
                    } else {
                        Some(spec_attach(m, EdgeModel { src: srcp, dst: dstp, transform: tr }))
                    }
                },
            }
        },
    }
}


/// The most search nodes a path lookup will expand: each distinct
/// representation type is visited once, and a request whose path would
/// need more intermediate types than this is reported as not found.
pub const SEARCH_NODE_LIMIT: usize = 64;

/// One visited type of a path search, with the node it was reached
/// from.
struct SearchNode {
    ty: TypeTerm,
    parent: usize,
}

/// A well-formed search record: the first node is the (normalized)
/// request source, and every later node was reached from an earlier
/// one by a resolvable conversion.
#[verifier::opaque]
spec fn spec_search_wf(
    nodes: Seq<SearchNode>,
    rules: Seq<GenericReprTreeMorphism>,
    ltid: u64,
    src_norm: TermModel,
) -> bool {
    &&& nodes.len() >= 1
    &&& nodes[0].ty@ == src_norm
    &&& forall|i: int|
        1 <= i < nodes.len() ==> (#[trigger] nodes[i]).parent < i && spec_find_ladder(
            rules,
            ltid,
            lnf_model(nodes[nodes[i].parent as int].ty@),
            lnf_model(nodes[i].ty@),
            0,
        ) is Some
}

/// A discovered conversion chain: it starts at the normalized source,
/// ends at the normalized destination, and a rule resolves (by halo
/// stripping) for every consecutive pair.
pub open spec fn spec_path_found(
    rules: Seq<GenericReprTreeMorphism>,
    ltid: u64,
    srcm: TermModel,
    dstm: TermModel,
    path: Seq<TypeTerm>,
) -> bool {
    &&& path.len() >= 1
    &&& path[0]@ == crate::term::normalize_model(srcm)
    &&& path[path.len() - 1]@ == crate::term::normalize_model(dstm)
    &&& forall|i: int|
        0 <= i < path.len() - 1 ==> spec_find_ladder(
            rules,
            ltid,
            lnf_model(#[trigger] path[i]@),
            lnf_model(path[i + 1]@),
            0,
        ) is Some
}

/// Whether a record already holds this type.
fn contains_ty(nodes: &Vec<SearchNode>, ty: &TypeTerm) -> bool {
    let n: usize = nodes.len();
    let mut i: usize = 0;
    while i < n
        invariant
            i <= n,
            n == nodes@.len(),
        decreases n - i,
    {
        if nodes[i].ty == *ty {
            return true;
        }
        i = i + 1;
    }
    false
}

impl MorphismBase {
    /// Searches for a chain of representation types leading from the
    /// request's source to its destination, where each consecutive
    /// pair is resolvable by a registered rule (or a lifted one), with
    /// halo stripping.  The search explores types breadth first, so a
    /// path with fewer hops is preferred; it visits each type once and
    /// gives up beyond [`SEARCH_NODE_LIMIT`] types, reporting `None`.
    #[verifier::loop_isolation(false)]
    pub fn find_morphism_path(&self, ty: &MorphismType) -> (r: Option<Vec<TypeTerm>>)
        ensures
            match r {
                Some(path) => spec_path_found(
                    self.morphisms@,
                    self.list_typeid,
                    ty.src_type@,
                    ty.dst_type@,
                    path@,
                ),
                None => true,
            },
    {
        let ghost rules = self.morphisms@;
        let ghost ltid = self.list_typeid;
        let src_norm = ty.src_type.normalize();
        let dst_norm = ty.dst_type.normalize();
        let ghost srcm = src_norm@;
        let mut nodes: Vec<SearchNode> = Vec::new();
        nodes.push(SearchNode { ty: src_norm, parent: 0 });
        proof {
            reveal(spec_search_wf);
            assert(spec_search_wf(nodes@, rules, ltid, srcm));
        }
        let mut qi: usize = 0;
        while qi < nodes.len()
            invariant
                qi <= nodes@.len(),
                nodes@.len() <= SEARCH_NODE_LIMIT,
                spec_search_wf(nodes@, rules, ltid, srcm),
            decreases SEARCH_NODE_LIMIT - qi,
        {
            if nodes[qi].ty == dst_norm {
                let path = Self::build_path(&nodes, qi, Ghost(rules), Ghost(ltid), Ghost(srcm));
                proof {
                    assert(path@[path@.len() - 1]@ == dst_norm@);
                }
                return Some(path);
            }
            self.expand_node(&mut nodes, qi, &dst_norm, Ghost(rules), Ghost(ltid), Ghost(srcm));
            qi = qi + 1;
        }
        None
    }

    /// Expands one visited type: every candidate reachable from it by
    /// one resolvable conversion (possibly below a stripped halo, and
    /// including elementwise list liftings) that is new and within the
    /// node budget is recorded.
    #[verifier::loop_isolation(false)]
    fn expand_node(
        &self,
        nodes: &mut Vec<SearchNode>,
        qi: usize,
        goal: &TypeTerm,
        Ghost(rules): Ghost<Seq<GenericReprTreeMorphism>>,
        Ghost(ltid): Ghost<u64>,
        Ghost(srcm): Ghost<TermModel>,
    )
        requires
            rules == self.morphisms@,
            ltid == self.list_typeid,
            qi < old(nodes)@.len(),
            old(nodes)@.len() <= SEARCH_NODE_LIMIT,
            spec_search_wf(old(nodes)@, rules, ltid, srcm),
        ensures
            final(nodes)@.len() <= SEARCH_NODE_LIMIT,
            old(nodes)@.len() <= final(nodes)@.len(),
            spec_search_wf(final(nodes)@, rules, ltid, srcm),
    {
        let cur = nodes[qi].ty.clone();
        proof {
            assert(nodes@[qi as int].ty@ == cur@);
        }
        // a rule may determine some of its variables only through the
        // request's destination, so the goal itself is tried as a
        // successor of every node
        let goal_copy = goal.clone();
        self.record_candidate(nodes, qi, &cur, goal_copy, Ghost(rules), Ghost(ltid), Ghost(srcm));
        let cur_lnf = cur.get_lnf_vec();
        let nl: usize = cur_lnf.len();
        let mut k: usize = 0;
        while k <= nl
            invariant
                k <= nl,
                nl == cur_lnf@.len(),
                qi < nodes@.len(),
                old(nodes)@.len() <= nodes@.len() <= SEARCH_NODE_LIMIT,
                spec_search_wf(nodes@, rules, ltid, srcm),
                nodes@[qi as int].ty@ == cur@,
            decreases nl - k,
        {
                let suffix = term_of_rungs(&cur_lnf, k);
                let rn: usize = self.morphisms.len();
                let mut ri: usize = 0;
                while ri < rn
                    invariant
                        ri <= rn,
                        rn == self.morphisms@.len(),
                        k <= nl,
                        nl == cur_lnf@.len(),
                        qi < nodes@.len(),
                        old(nodes)@.len() <= nodes@.len() <= SEARCH_NODE_LIMIT,
                        spec_search_wf(nodes@, rules, ltid, srcm),
                        nodes@[qi as int].ty@ == cur@,
                    decreases rn - ri,
                {
                    self.try_candidate(
                        nodes,
                        qi,
                        &cur,
                        &cur_lnf,
                        &suffix,
                        k,
                        ri,
                        Ghost(rules),
                        Ghost(ltid),
                        Ghost(srcm),
                    );
                    ri = ri + 1;
                }
                if k == nl {
                    break;
                }
                k = k + 1;
            }
    }

    /// Tries one rule at one halo depth: if it yields a candidate type
    /// and a conversion to that type really resolves, the candidate is
    /// recorded (unless known already or over the node budget).
    #[verifier::rlimit(30)]
    fn try_candidate(
        &self,
        nodes: &mut Vec<SearchNode>,
        qi: usize,
        cur: &TypeTerm,
        cur_lnf: &Vec<TypeTerm>,
        suffix: &TypeTerm,
        k: usize,
        ri: usize,
        Ghost(rules): Ghost<Seq<GenericReprTreeMorphism>>,
        Ghost(ltid): Ghost<u64>,
        Ghost(srcm): Ghost<TermModel>,
    )
        requires
            rules == self.morphisms@,
            ltid == self.list_typeid,
            ri < self.morphisms@.len(),
            k <= cur_lnf@.len(),
            qi < old(nodes)@.len(),
            old(nodes)@.len() <= SEARCH_NODE_LIMIT,
            spec_search_wf(old(nodes)@, rules, ltid, srcm),
            old(nodes)@[qi as int].ty@ == cur@,
        ensures
            old(nodes)@.len() <= final(nodes)@.len() <= SEARCH_NODE_LIMIT,
            spec_search_wf(final(nodes)@, rules, ltid, srcm),
            final(nodes)@[qi as int].ty@ == cur@,
    {
        let empty = Substitution::new();
        let cand_tail: Option<TypeTerm> = match unify_with(
            suffix,
            &self.morphisms[ri].morph_type.src_type,
            empty,
        ) {
            Some(sigma) => Some(
                self.morphisms[ri].morph_type.dst_type.apply_substitution(&sigma),
            ),
            None => self.lift_candidate(suffix, ri),
        };
        match cand_tail {
            Some(tail_term) => {
                let mut cand_rungs = clone_range(cur_lnf, 0, k);
                let mut tail_rungs = tail_term.get_lnf_vec();
                cand_rungs.append(&mut tail_rungs);
                let cand = term_of_rungs(&cand_rungs, 0);
                self.record_candidate(nodes, qi, cur, cand, Ghost(rules), Ghost(ltid), Ghost(srcm));
            }
            None => {},
        }
    }

    /// Records a candidate successor type if the node budget allows,
    /// the type is new, and a conversion from the current type to it
    /// really resolves.
    #[verifier::rlimit(30)]
    fn record_candidate(
        &self,
        nodes: &mut Vec<SearchNode>,
        qi: usize,
        cur: &TypeTerm,
        cand: TypeTerm,
        Ghost(rules): Ghost<Seq<GenericReprTreeMorphism>>,
        Ghost(ltid): Ghost<u64>,
        Ghost(srcm): Ghost<TermModel>,
    )
        requires
            rules == self.morphisms@,
            ltid == self.list_typeid,
            qi < old(nodes)@.len(),
            old(nodes)@.len() <= SEARCH_NODE_LIMIT,
            spec_search_wf(old(nodes)@, rules, ltid, srcm),
            old(nodes)@[qi as int].ty@ == cur@,
        ensures
            old(nodes)@.len() <= final(nodes)@.len() <= SEARCH_NODE_LIMIT,
            spec_search_wf(final(nodes)@, rules, ltid, srcm),
            final(nodes)@[qi as int].ty@ == cur@,
    {
        if nodes.len() < SEARCH_NODE_LIMIT && !contains_ty(nodes, &cand) {
            match self.find_morphism_ladder(cur, &cand) {
                Some(_) => {
                    let ghost pre = nodes@;
                    nodes.push(SearchNode { ty: cand, parent: qi });
                    proof {
                        reveal(spec_search_wf);
                        assert(nodes@[qi as int] == pre[qi as int]);
                        assert forall|i: int|
                            1 <= i < nodes@.len() implies (
                        #[trigger] nodes@[i]).parent < i && spec_find_ladder(
                            rules,
                            ltid,
                            lnf_model(nodes@[nodes@[i].parent as int].ty@),
                            lnf_model(nodes@[i].ty@),
                            0,
                        ) is Some by {
                            if i < pre.len() {
                                assert(nodes@[i] == pre[i]);
                                assert(nodes@[nodes@[i].parent as int] == pre[pre[i].parent as int]);
                            }
                        }
                    }
                }
                None => {},
            }
        }
    }

    /// The elementwise candidate for a list-shaped type: if `suffix`
    /// is `<List Item>` and the item matches a rule with a liftable
    /// projection, the list of the rule's instantiated destination.
    fn lift_candidate(&self, suffix: &TypeTerm, ri: usize) -> (r: Option<TypeTerm>)
        requires
            ri < self.morphisms@.len(),
    {
        let list_head = TypeTerm::TypeID(TypeID::Fun(self.list_typeid));
        match suffix {
            TypeTerm::App(args) => {
                if args.len() == 2 && args[0] == list_head {
                    if self.morphisms[ri].setup.template.lift().is_some() {
                        let empty = Substitution::new();
                        match unify_with(
                            &args[1],
                            &self.morphisms[ri].morph_type.src_type,
                            empty,
                        ) {
                            Some(sigma) => {
                                let item = self.morphisms[
                                    ri
                                ].morph_type.dst_type.apply_substitution(&sigma);
                                Some(
                                    TypeTerm::App(
                                        vec![
                                            TypeTerm::TypeID(TypeID::Fun(self.list_typeid)),
                                            item,
                                        ],
                                    ),
                                )
                            }
                            None => None,
                        }
                    } else {
                        None
                    }
                } else {
                    None
                }
            }
            _ => None,
        }
    }

    /// Rebuilds the type chain leading to `goal` by following the
    /// parent links back to the search root, then turning it around.
    #[verifier::loop_isolation(false)]
    fn build_path(
        nodes: &Vec<SearchNode>,
        goal: usize,
        Ghost(rules): Ghost<Seq<GenericReprTreeMorphism>>,
        Ghost(ltid): Ghost<u64>,
        Ghost(srcm): Ghost<TermModel>,
    ) -> (path: Vec<TypeTerm>)
        requires
            spec_search_wf(nodes@, rules, ltid, srcm),
            goal < nodes@.len(),
        ensures
            path@.len() >= 1,
            path@[0]@ == srcm,
            path@[path@.len() - 1]@ == nodes@[goal as int].ty@,
            forall|i: int|
                0 <= i < path@.len() - 1 ==> spec_find_ladder(
                    rules,
                    ltid,
                    lnf_model(#[trigger] path@[i]@),
                    lnf_model(path@[i + 1]@),
                    0,
                ) is Some,
    {
        proof {
            reveal(spec_search_wf);
        }
        let mut chain: Vec<TypeTerm> = Vec::new();
        let mut g: usize = goal;
        let t0 = nodes[g].ty.clone();
        chain.push(t0);
        while g != 0
            invariant
                g < nodes@.len(),
                chain@.len() >= 1,
                chain@[0]@ == nodes@[goal as int].ty@,
                chain@[chain@.len() - 1]@ == nodes@[g as int].ty@,
                forall|j: int|
                    0 <= j < chain@.len() - 1 ==> spec_find_ladder(
                        rules,
                        ltid,
                        lnf_model(#[trigger] chain@[j + 1]@),
                        lnf_model(chain@[j]@),
                        0,
                    ) is Some,
            decreases g,
        {
            proof {
                reveal(spec_search_wf);
            }
            let p = nodes[g].parent;
            let t = nodes[p].ty.clone();
            chain.push(t);
            g = p;
        }
        let n: usize = chain.len();
        let mut path: Vec<TypeTerm> = Vec::new();
        let mut i: usize = 0;
        while i < n
            invariant
                i <= n,
                n == chain@.len(),
                path@.len() == i,
                forall|j: int| 0 <= j < i ==> (#[trigger] path@[j])@ == chain@[n - 1 - j]@,
            decreases n - i,
        {
            let t = chain[n - 1 - i].clone();
            path.push(t);
            i = i + 1;
        }
        proof {
            assert forall|j: int|
                0 <= j < path@.len() - 1 implies spec_find_ladder(
                rules,
                ltid,
                lnf_model(#[trigger] path@[j]@),
                lnf_model(path@[j + 1]@),
                0,
            ) is Some by {
                let jj = n - 2 - j;
                assert(0 <= jj < chain@.len() - 1);
                assert(spec_find_ladder(
                    rules,
                    ltid,
                    lnf_model(chain@[jj + 1]@),
                    lnf_model(chain@[jj]@),
                    0,
                ) is Some);
                assert(path@[j]@ == chain@[jj + 1]@);
                assert(path@[j + 1]@ == chain@[jj]@);
            }
        }
        path
    }
}

/// A stored rule found for a ground request really converts it: the
/// substitution the lookup returns instantiates the rule's source and
/// destination types to exactly the requested ones.
pub proof fn lemma_find_static_sound(
    rules: Seq<GenericReprTreeMorphism>,
    srcm: TermModel,
    dstm: TermModel,
    i: int,
)
    requires
        crate::subst::term_ground(srcm),
        crate::subst::term_ground(dstm),
        spec_find_static(rules, srcm, dstm, i) is Some,
        0 <= i,
    ensures
        ({
            let (k, sigma) = spec_find_static(rules, srcm, dstm, i)->Some_0;
            &&& i <= k < rules.len()
            &&& crate::subst::spec_apply_subst(rules[k].morph_type.src_type@, sigma) == srcm
            &&& crate::subst::spec_apply_subst(rules[k].morph_type.dst_type@, sigma) == dstm
        }),
    decreases rules.len() - i,
{
    if i < rules.len() {
        match spec_rule_match(rules[i], srcm, dstm) {
            Some(sigma) => {
                let s1 = unify_model(srcm, rules[i].morph_type.src_type@, Seq::empty())->Some_0;
                crate::subst::lemma_unify_sound(
                    srcm,
                    rules[i].morph_type.src_type@,
                    Seq::empty(),
                );
                crate::subst::lemma_unify_sound(dstm, rules[i].morph_type.dst_type@, s1);
                crate::subst::lemma_unify_extends(dstm, rules[i].morph_type.dst_type@, s1);
                crate::subst::lemma_apply_extend(rules[i].morph_type.src_type@, s1, sigma);
            }
            None => {
                lemma_find_static_sound(rules, srcm, dstm, i + 1);
            }
        }
    }
}

/// Requesting a conversion for which no rule unifies (and no list
/// lifting applies), at any halo depth, leaves the tree exactly as it
/// was: [`MorphismBase::apply_morphism`] then reports `false` and
/// ensures the tree unchanged.
pub proof fn lemma_missing_path_keeps_tree(
    rules: Seq<GenericReprTreeMorphism>,
    ltid: u64,
    m: TreeModel,
    srcm: TermModel,
    dstm: TermModel,
)
    requires
        spec_find_ladder(rules, ltid, lnf_model(srcm), lnf_model(dstm), 0) is None,
    ensures
        spec_apply_morphism(rules, ltid, m, srcm, dstm) is None,
{
}

/// The models of `s` split at `k`: modelling the parts separately and
/// concatenating gives the model of the whole.
pub proof fn lemma_seq_model_concat(k: int, s: Seq<TypeTerm>)
    requires
        0 <= k <= s.len(),
    ensures
        seq_model(s) == seq_model(s.subrange(0, k)) + seq_model(s.subrange(k, s.len() as int)),
{
    lemma_seq_model(s);
    lemma_seq_model(s.subrange(0, k));
    lemma_seq_model(s.subrange(k, s.len() as int));
    assert(seq_model(s) =~= seq_model(s.subrange(0, k)) + seq_model(
        s.subrange(k, s.len() as int),
    ));
}

/// The rungs `rungs[from..]` folded back into one ladder term.
pub fn term_of_rungs(rungs: &Vec<TypeTerm>, from: usize) -> (r: TypeTerm)
    requires
        from <= rungs@.len(),
    ensures
        r@ == rungs_to_model(seq_model(rungs@).subrange(from as int, rungs@.len() as int)),
{
    proof {
        lemma_seq_model(rungs@);
    }
    if rungs.len() - from == 1 {
        let t = rungs[from].clone();
        proof {
            lemma_seq_model(rungs@);
            assert(seq_model(rungs@).subrange(from as int, rungs@.len() as int).len() == 1);
            assert(seq_model(rungs@).subrange(from as int, rungs@.len() as int)[0] == term_model(
                rungs@[from as int],
            ));
        }
        t
    } else {
        let v = clone_range(rungs, from, rungs.len());
        proof {
            assert(seq_model(v@) == seq_model(rungs@).subrange(from as int, rungs@.len() as int));
        }
        TypeTerm::Ladder(v)
    }
}

/// Clones the terms `rungs[from..to]`.
#[verifier::loop_isolation(false)]
pub fn clone_range(rungs: &Vec<TypeTerm>, from: usize, to: usize) -> (r: Vec<TypeTerm>)
    requires
        from <= to <= rungs@.len(),
    ensures
        seq_model(r@) == seq_model(rungs@).subrange(from as int, to as int),
        r@.len() == to - from,
{
    proof {
        lemma_seq_model(rungs@);
    }
    let mut r: Vec<TypeTerm> = Vec::new();
    let mut i: usize = from;
    while i < to
        invariant
            from <= i <= to,
            r@.len() == i - from,
            forall|j: int|
                0 <= j < r@.len() ==> term_model(r@[j]) == term_model(rungs@[from + j]),
        decreases to - i,
    {
        let t = rungs[i].clone();
        r.push(t);
        i = i + 1;
    }
    proof {
        lemma_seq_model(r@);
        assert(seq_model(r@) =~= seq_model(rungs@).subrange(from as int, to as int));
    }
    r
}

} // verus!
