//! The digit rules: one positional digit, as a character or as a
//! machine integer, convertible in both directions.

use vstd::prelude::*;
use crate::term::{TypeID, TypeTerm, TermModel, lemma_seq_model};
use crate::context::Context;
use crate::morphism::{GenericReprTreeMorphism, SetupRule, TransformTemplate};

verus! {

broadcast use vstd::std_specs::vec::group_vec_axioms;

/// The term `<Digit Radix>` over the given ids.
pub open spec fn spec_digit_app(digit: TypeID, radix: TypeID) -> TermModel {
    TermModel::App(seq![TermModel::TypeID(digit), TermModel::TypeID(radix)])
}

/// The ladder `<Digit Radix> ~ Char`.
pub open spec fn spec_digit_char(digit: TypeID, radix: TypeID, ch: TypeID) -> TermModel {
    TermModel::Ladder(seq![spec_digit_app(digit, radix), TermModel::TypeID(ch)])
}

/// The ladder `<Digit Radix> ~ Z_2^64 ~ machine.UInt64`.
pub open spec fn spec_digit_u64(digit: TypeID, radix: TypeID, z: TypeID, u: TypeID) -> TermModel {
    TermModel::Ladder(
        seq![spec_digit_app(digit, radix), TermModel::TypeID(z), TermModel::TypeID(u)],
    )
}

/// The numeric id inside a type id, whichever kind it is.
pub open spec fn id_num(t: TypeID) -> u64 {
    match t {
        TypeID::Fun(v) => v,
        TypeID::Var(v) => v,
    }
}

/// The two digit rules in full, over the ids the dictionary assigned:
/// `<Digit Radix>~Char -> <Digit Radix>~Z_2^64~machine.UInt64` reading
/// the character representation below the node as a machine integer,
/// and the rule back, writing the integer as a character; each setup
/// reads its radix from the `Radix` variable.
pub open spec fn spec_digit_rules(
    m1: GenericReprTreeMorphism,
    m2: GenericReprTreeMorphism,
    radix: TypeID,
    digit: TypeID,
    ch: TypeID,
    z: TypeID,
    u: TypeID,
) -> bool {
    &&& m1.morph_type.src_type@ == spec_digit_char(digit, radix, ch)
    &&& m1.morph_type.dst_type@ == spec_digit_u64(digit, radix, z, u)
    &&& m1.setup.src_ladder@ == TermModel::TypeID(ch)
    &&& m1.setup.dst_ladder@ == TermModel::Ladder(
        seq![TermModel::TypeID(z), TermModel::TypeID(u)],
    )
    &&& m1.setup.template == (TransformTemplate::CharToDigit { radix_var: id_num(radix) })
    &&& m2.morph_type.src_type@ == spec_digit_u64(digit, radix, z, u)
    &&& m2.morph_type.dst_type@ == spec_digit_char(digit, radix, ch)
    &&& m2.setup.src_ladder@ == TermModel::Ladder(
        seq![TermModel::TypeID(z), TermModel::TypeID(u)],
    )
    &&& m2.setup.dst_ladder@ == TermModel::TypeID(ch)
    &&& m2.setup.template == (TransformTemplate::DigitToChar { radix_var: id_num(radix) })
}

/// Builds `<Digit Radix>` as a term.
fn digit_app_term(digit: TypeID, radix: TypeID) -> (r: TypeTerm)
    ensures
        r@ == spec_digit_app(digit, radix),
{
    let args = vec![TypeTerm::TypeID(digit), TypeTerm::TypeID(radix)];
    let ghost av = args@;
    let r = TypeTerm::App(args);
    proof {
        lemma_seq_model(av);
        assert(crate::term::seq_model(av) =~= seq![
            TermModel::TypeID(digit),
            TermModel::TypeID(radix),
        ]);
    }
    r
}

/// Registers the digit conversion rules: a digit's character
/// representation can be read as a machine integer and written back,
/// in any radix from 2 to 16 bound to the `Radix` variable.
pub fn init_ctx(ctx: &mut Context)
    requires
        old(ctx).type_dict.next_fun_id + 4 < u64::MAX,
        old(ctx).type_dict.next_var_id < u64::MAX,
    ensures
        final(ctx).morphisms.list_typeid == old(ctx).morphisms.list_typeid,
        final(ctx).list_types == old(ctx).list_types,
        ({
            let d = final(ctx).type_dict@;
            let rules = final(ctx).morphisms.morphisms@;
            let n0 = old(ctx).morphisms.morphisms@.len() as int;
            &&& rules.len() == n0 + 2
            &&& rules.subrange(0, n0) == old(ctx).morphisms.morphisms@
            &&& crate::context::spec_name_lookup(d, ("Radix")@, 0) is Some
            &&& crate::context::spec_name_lookup(d, ("Digit")@, 0) is Some
            &&& crate::context::spec_name_lookup(d, ("Char")@, 0) is Some
            &&& crate::context::spec_name_lookup(d, ("Z_2^64")@, 0) is Some
            &&& crate::context::spec_name_lookup(d, ("machine.UInt64")@, 0) is Some
            &&& spec_digit_rules(
                rules[n0],
                rules[n0 + 1],
                crate::context::spec_name_lookup(d, ("Radix")@, 0)->Some_0,
                crate::context::spec_name_lookup(d, ("Digit")@, 0)->Some_0,
                crate::context::spec_name_lookup(d, ("Char")@, 0)->Some_0,
                crate::context::spec_name_lookup(d, ("Z_2^64")@, 0)->Some_0,
                crate::context::spec_name_lookup(d, ("machine.UInt64")@, 0)->Some_0,
            )
        }),
{
    let radix = ctx.add_varname("Radix");
    let digit = ctx.add_typename("Digit");
    let ch = ctx.add_typename("Char");
    let z = ctx.add_typename("Z_2^64");
    let u = ctx.add_typename("machine.UInt64");
    let rv: u64 = match radix {
        TypeID::Var(v) => v,
        TypeID::Fun(v) => v,
    };

    let src1 = ladder2(digit_app_term(digit, radix), TypeTerm::TypeID(ch));
    let dst1 = ladder3(digit_app_term(digit, radix), TypeTerm::TypeID(z), TypeTerm::TypeID(u));
    let setup1 = SetupRule {
        src_ladder: TypeTerm::TypeID(ch),
        dst_ladder: ladder2(TypeTerm::TypeID(z), TypeTerm::TypeID(u)),
        template: TransformTemplate::CharToDigit { radix_var: rv },
    };
    let m1 = GenericReprTreeMorphism::new(src1, dst1, setup1);

    let src2 = ladder3(digit_app_term(digit, radix), TypeTerm::TypeID(z), TypeTerm::TypeID(u));
    let dst2 = ladder2(digit_app_term(digit, radix), TypeTerm::TypeID(ch));
    let setup2 = SetupRule {
        src_ladder: ladder2(TypeTerm::TypeID(z), TypeTerm::TypeID(u)),
        dst_ladder: TypeTerm::TypeID(ch),
        template: TransformTemplate::DigitToChar { radix_var: rv },
    };
    let m2 = GenericReprTreeMorphism::new(src2, dst2, setup2);

    proof {
        crate::term::lemma_normalize_flat_ladder(seq![spec_digit_app(digit, radix), TermModel::TypeID(ch)]);
        crate::term::lemma_normalize_flat_ladder(
            seq![spec_digit_app(digit, radix), TermModel::TypeID(z), TermModel::TypeID(u)],
        );
    }
    ctx.morphisms.add_morphism(m1);
    ctx.morphisms.add_morphism(m2);
    proof {
        let n0 = old(ctx).morphisms.morphisms@.len() as int;
        assert(final(ctx).morphisms.morphisms@.subrange(0, n0) =~= old(
            ctx,
        ).morphisms.morphisms@);
    }
}

/// A two-rung ladder.
pub fn ladder2(a: TypeTerm, b: TypeTerm) -> (r: TypeTerm)
    ensures
        r@ == TermModel::Ladder(seq![a@, b@]),
{
    let ghost am = a@;
    let ghost bm = b@;
    let args = vec![a, b];
    let ghost av = args@;
    let r = TypeTerm::Ladder(args);
    proof {
        lemma_seq_model(av);
        assert(crate::term::seq_model(av) =~= seq![am, bm]);
    }
    r
}

/// A three-rung ladder.
pub fn ladder3(a: TypeTerm, b: TypeTerm, c: TypeTerm) -> (r: TypeTerm)
    ensures
        r@ == TermModel::Ladder(seq![a@, b@, c@]),
{
    let ghost am = a@;
    let ghost bm = b@;
    let ghost cm = c@;
    let args = vec![a, b, c];
    let ghost av = args@;
    let r = TypeTerm::Ladder(args);
    proof {
        lemma_seq_model(av);
        assert(crate::term::seq_model(av) =~= seq![am, bm, cm]);
    }
    r
}

} // verus!
