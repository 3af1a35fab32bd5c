//! The positional integer rules: a natural number as a digit sequence,
//! convertible between endianness and between radices.

use vstd::prelude::*;
use crate::term::{TypeID, TypeTerm, TermModel, lemma_seq_model};
use crate::context::Context;
use crate::digit::{ladder2, ladder3};
use crate::morphism::{GenericReprTreeMorphism, SetupRule, TransformTemplate};

verus! {

broadcast use vstd::std_specs::vec::group_vec_axioms;

/// The ladder `Nat ~ <PosInt Radix Endian> ~ <Seq <Digit Radix> ~
/// Z_2^64 ~ machine.UInt64>`: a number as a digit sequence of machine
/// integers in one endianness.
pub open spec fn spec_endian_type(
    nat_id: TypeID,
    pos: TypeID,
    radix: TypeID,
    endian: TypeID,
    seq_t: TypeID,
    digit: TypeID,
    z: TypeID,
    u: TypeID,
) -> TermModel {
    TermModel::Ladder(
        seq![
            TermModel::TypeID(nat_id),
            spec_pos_app(pos, radix, endian),
            spec_seq_digits(seq_t, digit, radix, z, u),
        ],
    )
}

/// The application `<PosInt Radix Endian>`.
pub open spec fn spec_pos_app(pos: TypeID, radix: TypeID, endian: TypeID) -> TermModel {
    TermModel::App(
        seq![TermModel::TypeID(pos), TermModel::TypeID(radix), TermModel::TypeID(endian)],
    )
}

/// The application `<Seq <Digit Radix> ~ Z_2^64 ~ machine.UInt64>`.
pub open spec fn spec_seq_digits(
    seq_t: TypeID,
    digit: TypeID,
    radix: TypeID,
    z: TypeID,
    u: TypeID,
) -> TermModel {
    TermModel::App(
        seq![
            TermModel::TypeID(seq_t),
            TermModel::Ladder(
                seq![
                    crate::digit::spec_digit_app(digit, radix),
                    TermModel::TypeID(z),
                    TermModel::TypeID(u),
                ],
            ),
        ],
    )
}

/// The ladder `Nat ~ <PosInt Radix LittleEndian> ~ <Seq <Digit Radix>>
/// ~ <List <Digit Radix> ~ Z_2^64 ~ machine.UInt64>`: a number as a
/// little-endian machine-integer digit list.
pub open spec fn spec_radix_type(
    nat_id: TypeID,
    pos: TypeID,
    radix: TypeID,
    little: TypeID,
    seq_t: TypeID,
    digit: TypeID,
    z: TypeID,
    u: TypeID,
    list_t: TypeID,
) -> TermModel {
    TermModel::Ladder(
        seq![
            TermModel::TypeID(nat_id),
            spec_pos_app(pos, radix, little),
            TermModel::App(
                seq![TermModel::TypeID(seq_t), crate::digit::spec_digit_app(digit, radix)],
            ),
            spec_list_digits(list_t, digit, radix, z, u),
        ],
    )
}

/// The application `<List <Digit Radix> ~ Z_2^64 ~ machine.UInt64>`.
pub open spec fn spec_list_digits(
    list_t: TypeID,
    digit: TypeID,
    radix: TypeID,
    z: TypeID,
    u: TypeID,
) -> TermModel {
    TermModel::App(
        seq![
            TermModel::TypeID(list_t),
            TermModel::Ladder(
                seq![
                    crate::digit::spec_digit_app(digit, radix),
                    TermModel::TypeID(z),
                    TermModel::TypeID(u),
                ],
            ),
        ],
    )
}

/// A ladder with the first rung removed: the setup paths of a rule,
/// which locate representations below the node the rule is applied at.
pub open spec fn spec_tail_ladder(m: TermModel) -> TermModel {
    TermModel::Ladder(m->Ladder_0.subrange(1, m->Ladder_0.len() as int))
}

/// The three positional integer rules in full, over the dictionary's
/// ids: both endianness reversals between the big- and little-endian
/// digit sequences, and the radix conversion between little-endian
/// digit lists of the `SrcRadix` and `DstRadix` radices.  Each setup
/// reads and attaches below the number node (the rule's types without
/// their leading rung).
pub open spec fn spec_integer_rules(
    m1: GenericReprTreeMorphism,
    m2: GenericReprTreeMorphism,
    m3: GenericReprTreeMorphism,
    radix: TypeID,
    src_radix: TypeID,
    dst_radix: TypeID,
    nat_id: TypeID,
    digit: TypeID,
    z: TypeID,
    u: TypeID,
    pos: TypeID,
    big: TypeID,
    little: TypeID,
    seq_t: TypeID,
    list_t: TypeID,
) -> bool {
    let be = spec_endian_type(nat_id, pos, radix, big, seq_t, digit, z, u);
    let le = spec_endian_type(nat_id, pos, radix, little, seq_t, digit, z, u);
    let rs = spec_radix_type(nat_id, pos, src_radix, little, seq_t, digit, z, u, list_t);
    let rd = spec_radix_type(nat_id, pos, dst_radix, little, seq_t, digit, z, u, list_t);
    &&& m1.morph_type.src_type@ == be
    &&& m1.morph_type.dst_type@ == le
    &&& m1.setup.src_ladder@ == spec_tail_ladder(be)
    &&& m1.setup.dst_ladder@ == spec_tail_ladder(le)
    &&& m1.setup.template == TransformTemplate::Reverse
    &&& m2.morph_type.src_type@ == le
    &&& m2.morph_type.dst_type@ == be
    &&& m2.setup.src_ladder@ == spec_tail_ladder(le)
    &&& m2.setup.dst_ladder@ == spec_tail_ladder(be)
    &&& m2.setup.template == TransformTemplate::Reverse
    &&& m3.morph_type.src_type@ == rs
    &&& m3.morph_type.dst_type@ == rd
    &&& m3.setup.src_ladder@ == spec_tail_ladder(rs)
    &&& m3.setup.dst_ladder@ == spec_tail_ladder(rd)
    &&& m3.setup.template == (TransformTemplate::RadixConvert {
        src_radix_var: crate::digit::id_num(src_radix),
        dst_radix_var: crate::digit::id_num(dst_radix),
    })
}

/// Builds an application term from two ids and an argument term:
/// `<Head arg1 arg2>`.
fn app3(head: TypeID, arg1: TypeTerm, arg2: TypeTerm) -> (r: TypeTerm)
    ensures
        r@ == TermModel::App(seq![TermModel::TypeID(head), arg1@, arg2@]),
{
    let ghost a1 = arg1@;
    let ghost a2 = arg2@;
    let args = vec![TypeTerm::TypeID(head), arg1, arg2];
    let ghost av = args@;
    let r = TypeTerm::App(args);
    proof {
        lemma_seq_model(av);
        assert(crate::term::seq_model(av) =~= seq![TermModel::TypeID(head), a1, a2]);
    }
    r
}

/// Builds an application term from an id and one argument term:
/// `<Head arg>`.
fn app2(head: TypeID, arg: TypeTerm) -> (r: TypeTerm)
    ensures
        r@ == TermModel::App(seq![TermModel::TypeID(head), arg@]),
{
    let ghost a1 = arg@;
    let args = vec![TypeTerm::TypeID(head), arg];
    let ghost av = args@;
    let r = TypeTerm::App(args);
    proof {
        lemma_seq_model(av);
        assert(crate::term::seq_model(av) =~= seq![TermModel::TypeID(head), a1]);
    }
    r
}

/// Registers the positional integer rules: reversing a digit sequence
/// between big- and little-endian order, and re-expressing a
/// little-endian digit sequence in another radix.
pub fn init_ctx(ctx: &mut Context)
    requires
        old(ctx).type_dict.next_fun_id + 9 < u64::MAX,
        old(ctx).type_dict.next_var_id + 3 < u64::MAX,
    ensures
        final(ctx).morphisms.list_typeid == old(ctx).morphisms.list_typeid,
        final(ctx).list_types == old(ctx).list_types,
        ({
            let d = final(ctx).type_dict@;
            let rules = final(ctx).morphisms.morphisms@;
            let n0 = old(ctx).morphisms.morphisms@.len() as int;
            &&& rules.len() == n0 + 3
            &&& rules.subrange(0, n0) == old(ctx).morphisms.morphisms@
            &&& crate::context::spec_name_lookup(d, ("Radix")@, 0) is Some
            &&& crate::context::spec_name_lookup(d, ("SrcRadix")@, 0) is Some
            &&& crate::context::spec_name_lookup(d, ("DstRadix")@, 0) is Some
            &&& crate::context::spec_name_lookup(d, ("Nat")@, 0) is Some
            &&& crate::context::spec_name_lookup(d, ("Digit")@, 0) is Some
            &&& crate::context::spec_name_lookup(d, ("Z_2^64")@, 0) is Some
            &&& crate::context::spec_name_lookup(d, ("machine.UInt64")@, 0) is Some
            &&& crate::context::spec_name_lookup(d, ("PosInt")@, 0) is Some
            &&& crate::context::spec_name_lookup(d, ("BigEndian")@, 0) is Some
            &&& crate::context::spec_name_lookup(d, ("LittleEndian")@, 0) is Some
            &&& crate::context::spec_name_lookup(d, ("Seq")@, 0) is Some
            &&& crate::context::spec_name_lookup(d, ("List")@, 0) is Some
            &&& spec_integer_rules(
                rules[n0],
                rules[n0 + 1],
                rules[n0 + 2],
                crate::context::spec_name_lookup(d, ("Radix")@, 0)->Some_0,
                crate::context::spec_name_lookup(d, ("SrcRadix")@, 0)->Some_0,
                crate::context::spec_name_lookup(d, ("DstRadix")@, 0)->Some_0,
                crate::context::spec_name_lookup(d, ("Nat")@, 0)->Some_0,
                crate::context::spec_name_lookup(d, ("Digit")@, 0)->Some_0,
                crate::context::spec_name_lookup(d, ("Z_2^64")@, 0)->Some_0,
                crate::context::spec_name_lookup(d, ("machine.UInt64")@, 0)->Some_0,
                crate::context::spec_name_lookup(d, ("PosInt")@, 0)->Some_0,
                crate::context::spec_name_lookup(d, ("BigEndian")@, 0)->Some_0,
                crate::context::spec_name_lookup(d, ("LittleEndian")@, 0)->Some_0,
                crate::context::spec_name_lookup(d, ("Seq")@, 0)->Some_0,
                crate::context::spec_name_lookup(d, ("List")@, 0)->Some_0,
            )
        }),
{
    let radix = ctx.add_varname("Radix");
    let src_radix = ctx.add_varname("SrcRadix");
    let dst_radix = ctx.add_varname("DstRadix");
    let nat_id = ctx.add_typename("Nat");
    let digit = ctx.add_typename("Digit");
    let z = ctx.add_typename("Z_2^64");
    let u = ctx.add_typename("machine.UInt64");
    let pos_int = ctx.add_typename("PosInt");
    let big = ctx.add_typename("BigEndian");
    let little = ctx.add_typename("LittleEndian");
    let seq_t = ctx.add_typename("Seq");
    let list_t = ctx.add_typename("List");

    // one digit as a machine integer: <Digit R> ~ Z_2^64 ~ machine.UInt64
    let digit_u64_be = ladder3(
        app2(digit, TypeTerm::TypeID(radix)),
        TypeTerm::TypeID(z),
        TypeTerm::TypeID(u),
    );

    // a whole number as a machine-integer digit sequence, in each
    // endianness: Nat ~ <PosInt R E> ~ <Seq <Digit R> ~ Z ~ U>
    let pos_big = app3(pos_int, TypeTerm::TypeID(radix), TypeTerm::TypeID(big));
    let pos_little = app3(pos_int, TypeTerm::TypeID(radix), TypeTerm::TypeID(little));
    let seq_digits = app2(seq_t, digit_u64_be.clone());
    let src_be = ladder3(TypeTerm::TypeID(nat_id), pos_big.clone(), seq_digits.clone());
    let dst_le = ladder3(TypeTerm::TypeID(nat_id), pos_little.clone(), seq_digits.clone());

    let m_big_to_little = GenericReprTreeMorphism::new(
        src_be.clone(),
        dst_le.clone(),
        SetupRule {
            src_ladder: ladder2(pos_big.clone(), seq_digits.clone()),
            dst_ladder: ladder2(pos_little.clone(), seq_digits.clone()),
            template: TransformTemplate::Reverse,
        },
    );

    let m_little_to_big = GenericReprTreeMorphism::new(
        dst_le,
        src_be,
        SetupRule {
            src_ladder: ladder2(pos_little, seq_digits.clone()),
            dst_ladder: ladder2(pos_big, seq_digits),
            template: TransformTemplate::Reverse,
        },
    );

    // the radix conversion, on little-endian machine-integer lists:
    // Nat ~ <PosInt SrcR LittleEndian> ~ <Seq <Digit SrcR>>
    //     ~ <List <Digit SrcR> ~ Z ~ U>
    let sv: u64 = match src_radix {
        TypeID::Var(v) => v,
        TypeID::Fun(v) => v,
    };
    let dv: u64 = match dst_radix {
        TypeID::Var(v) => v,
        TypeID::Fun(v) => v,
    };
    let pos_src = app3(pos_int, TypeTerm::TypeID(src_radix), TypeTerm::TypeID(little));
    let pos_dst = app3(pos_int, TypeTerm::TypeID(dst_radix), TypeTerm::TypeID(little));
    let seq_src = app2(seq_t, app2(digit, TypeTerm::TypeID(src_radix)));
    let seq_dst = app2(seq_t, app2(digit, TypeTerm::TypeID(dst_radix)));
    let list_src = app2(
        list_t,
        ladder3(
            app2(digit, TypeTerm::TypeID(src_radix)),
            TypeTerm::TypeID(z),
            TypeTerm::TypeID(u),
        ),
    );
    let list_dst = app2(
        list_t,
        ladder3(
            app2(digit, TypeTerm::TypeID(dst_radix)),
            TypeTerm::TypeID(z),
            TypeTerm::TypeID(u),
        ),
    );
    let src_rdx = ladder4(
        TypeTerm::TypeID(nat_id),
        pos_src.clone(),
        seq_src.clone(),
        list_src.clone(),
    );
    let dst_rdx = ladder4(
        TypeTerm::TypeID(nat_id),
        pos_dst.clone(),
        seq_dst.clone(),
        list_dst.clone(),
    );

    let m_radix = GenericReprTreeMorphism::new(
        src_rdx,
        dst_rdx,
        SetupRule {
            src_ladder: ladder3(pos_src, seq_src, list_src),
            dst_ladder: ladder3(pos_dst, seq_dst, list_dst),
            template: TransformTemplate::RadixConvert { src_radix_var: sv, dst_radix_var: dv },
        },
    );

    proof {
        let be = spec_endian_type(nat_id, pos_int, radix, big, seq_t, digit, z, u);
        let le = spec_endian_type(nat_id, pos_int, radix, little, seq_t, digit, z, u);
        let rs = spec_radix_type(nat_id, pos_int, src_radix, little, seq_t, digit, z, u, list_t);
        let rd = spec_radix_type(nat_id, pos_int, dst_radix, little, seq_t, digit, z, u, list_t);
        crate::term::lemma_normalize_flat_ladder(be->Ladder_0);
        crate::term::lemma_normalize_flat_ladder(le->Ladder_0);
        crate::term::lemma_normalize_flat_ladder(rs->Ladder_0);
        crate::term::lemma_normalize_flat_ladder(rd->Ladder_0);
        assert(be->Ladder_0.subrange(1, 3) =~= seq![
            spec_pos_app(pos_int, radix, big),
            spec_seq_digits(seq_t, digit, radix, z, u),
        ]);
        assert(le->Ladder_0.subrange(1, 3) =~= seq![
            spec_pos_app(pos_int, radix, little),
            spec_seq_digits(seq_t, digit, radix, z, u),
        ]);
        assert(rs->Ladder_0.subrange(1, 4) =~= seq![
            spec_pos_app(pos_int, src_radix, little),
            TermModel::App(
                seq![
                    TermModel::TypeID(seq_t),
                    crate::digit::spec_digit_app(digit, src_radix),
                ],
            ),
            spec_list_digits(list_t, digit, src_radix, z, u),
        ]);
        assert(rd->Ladder_0.subrange(1, 4) =~= seq![
            spec_pos_app(pos_int, dst_radix, little),
            TermModel::App(
                seq![
                    TermModel::TypeID(seq_t),
                    crate::digit::spec_digit_app(digit, dst_radix),
                ],
            ),
            spec_list_digits(list_t, digit, dst_radix, z, u),
        ]);
    }
    ctx.morphisms.add_morphism(m_big_to_little);
    ctx.morphisms.add_morphism(m_little_to_big);
    ctx.morphisms.add_morphism(m_radix);
    proof {
        let n0 = old(ctx).morphisms.morphisms@.len() as int;
        assert(final(ctx).morphisms.morphisms@.subrange(0, n0) =~= old(
            ctx,
        ).morphisms.morphisms@);
    }
}

/// A four-rung ladder.
pub fn ladder4(a: TypeTerm, b: TypeTerm, c: TypeTerm, d: TypeTerm) -> (r: TypeTerm)
    ensures
        r@ == TermModel::Ladder(seq![a@, b@, c@, d@]),
{
    let ghost am = a@;
    let ghost bm = b@;
    let ghost cm = c@;
    let ghost dm = d@;
    let args = vec![a, b, c, d];
    let ghost av = args@;
    let r = TypeTerm::Ladder(args);
    proof {
        lemma_seq_model(av);
        assert(crate::term::seq_model(av) =~= seq![am, bm, cm, dm]);
    }
    r
}

} // verus!
