//! The representation tree: halos, leaves, and live digit projections.

use nested::{Context, GenericReprTreeMorphism, LeafValue, MorphismType, ReprLeaf, ReprTree,
    SetupRule, TransformTemplate, TypeTerm};

/// `<Digit radix>` as a term.
fn digit_app(ctx: &Context, radix: i64) -> TypeTerm {
    TypeTerm::App(vec![
        TypeTerm::TypeID(ctx.get_typeid("Digit").unwrap()),
        TypeTerm::Num(radix),
    ])
}

/// An atom by dictionary name.
fn atom(ctx: &Context, name: &str) -> TypeTerm {
    TypeTerm::TypeID(ctx.get_typeid(name).unwrap())
}

/// `Z_2^64 ~ machine.UInt64`, the ladder of a digit's machine-integer
/// representation.
fn u64_ladder(ctx: &Context) -> TypeTerm {
    TypeTerm::Ladder(vec![atom(ctx, "Z_2^64"), atom(ctx, "machine.UInt64")])
}

#[test]
fn halo_type() {
    let mut ctx = Context::new();
    let nat = TypeTerm::TypeID(ctx.add_typename("Nat"));
    let pos_int = ctx.add_typename("PosInt");
    let big = ctx.add_typename("BigEndian");
    let seq_id = ctx.add_typename("Seq");
    let digit = ctx.add_typename("Digit");
    let list_id = ctx.get_typeid("List").unwrap();

    let posint10 = TypeTerm::App(vec![
        TypeTerm::TypeID(pos_int),
        TypeTerm::Num(10),
        TypeTerm::TypeID(big),
    ]);
    let digit10 = TypeTerm::App(vec![TypeTerm::TypeID(digit), TypeTerm::Num(10)]);
    let seq_digit = TypeTerm::App(vec![TypeTerm::TypeID(seq_id), digit10.clone()]);
    let list_digit = TypeTerm::App(vec![TypeTerm::TypeID(list_id), digit10.clone()]);

    let mut rt1 = ReprTree::new(nat.clone());
    let rt2 = ReprTree::new(posint10.clone());
    rt1.insert_branch(rt2);
    assert_eq!(
        rt1.descend(&posint10).unwrap().get_halo_type(),
        &nat
    );

    // register the sequence representation below the positional one
    let pos_seq = TypeTerm::Ladder(vec![posint10.clone(), seq_digit.clone()]);
    rt1.create_branch(&pos_seq);
    assert_eq!(
        rt1.descend(&pos_seq).unwrap().get_halo_type(),
        &TypeTerm::Ladder(vec![nat.clone(), posint10.clone()])
    );

    let pos_seq_list = TypeTerm::Ladder(vec![
        posint10.clone(),
        seq_digit.clone(),
        list_digit.clone(),
    ]);
    rt1.create_branch(&pos_seq_list);
    assert_eq!(
        rt1.descend(&pos_seq_list).unwrap().get_halo_type(),
        &TypeTerm::Ladder(vec![nat.clone(), posint10.clone(), seq_digit.clone()])
    );

    // creating the branches afresh from the root behaves the same
    let mut r = ReprTree::new(nat.clone());
    r.create_branch(&pos_seq);
    assert_eq!(
        r.descend(&posint10).unwrap().get_halo_type(),
        &nat
    );
    assert_eq!(
        r.descend(&pos_seq).unwrap().get_halo_type(),
        &TypeTerm::Ladder(vec![nat.clone(), posint10.clone()])
    );
}

#[test]
fn char_view() {
    let mut ctx = Context::new();
    nested::digit::init_ctx(&mut ctx);

    let char_type = atom(&ctx, "Char");
    let mut rt_digit = ReprTree::new(digit_app(&ctx, 16));
    rt_digit.insert_leaf(&char_type, ReprLeaf { data: Some(LeafValue::Char('5')) });

    match rt_digit.singleton_buffer(&char_type) {
        LeafValue::Char(c) => assert_eq!(c, '5'),
        other => panic!("unexpected char buffer: {:?}", other),
    }

    assert_eq!(rt_digit.view_char(&char_type), '5');

    // the view is coupled to the buffer
    rt_digit.set_value(&char_type, LeafValue::Char('2'));
    assert_eq!(rt_digit.view_char(&char_type), '2');
}

#[test]
fn digit_projection_char_to_u64() {
    let mut ctx = Context::new();
    nested::digit::init_ctx(&mut ctx);

    let char_type = atom(&ctx, "Char");
    let mut rt_digit = ReprTree::new(digit_app(&ctx, 16));
    rt_digit.insert_leaf(&char_type, ReprLeaf { data: Some(LeafValue::Char('5')) });

    // add another representation
    let applied = ctx.apply_morphism(
        &mut rt_digit,
        &MorphismType {
            src_type: TypeTerm::Ladder(vec![digit_app(&ctx, 16), char_type.clone()]),
            dst_type: TypeTerm::Ladder(vec![
                digit_app(&ctx, 16),
                atom(&ctx, "Z_2^64"),
                atom(&ctx, "machine.UInt64"),
            ]),
        },
    );
    assert!(applied);

    assert_eq!(rt_digit.view_u64(&u64_ladder(&ctx)), 5);

    // the projection follows when the buffer changes
    rt_digit.set_value(&char_type, LeafValue::Char('2'));
    assert_eq!(rt_digit.view_u64(&u64_ladder(&ctx)), 2);
}

#[test]
fn digit_projection_u64_to_char() {
    let mut ctx = Context::new();
    nested::digit::init_ctx(&mut ctx);

    let char_type = atom(&ctx, "Char");
    let mut rt_digit = ReprTree::new(digit_app(&ctx, 16));
    rt_digit.insert_leaf(&u64_ladder(&ctx), ReprLeaf { data: Some(LeafValue::U64(5)) });

    let applied = ctx.apply_morphism(
        &mut rt_digit,
        &MorphismType {
            src_type: TypeTerm::Ladder(vec![
                digit_app(&ctx, 16),
                atom(&ctx, "Z_2^64"),
                atom(&ctx, "machine.UInt64"),
            ]),
            dst_type: TypeTerm::Ladder(vec![digit_app(&ctx, 16), char_type.clone()]),
        },
    );
    assert!(applied);

    assert_eq!(rt_digit.view_char(&char_type), '5');
}

#[test]
fn char_buffered_projection() {
    let mut ctx = Context::new();
    nested::digit::init_ctx(&mut ctx);

    let char_type = atom(&ctx, "Char");
    let u64_type = u64_ladder(&ctx);
    let mut rt_digit = ReprTree::new(digit_app(&ctx, 16));

    rt_digit.insert_leaf(&u64_type, ReprLeaf { data: Some(LeafValue::U64(8)) });
    match rt_digit.singleton_buffer(&u64_type) {
        LeafValue::U64(x) => assert_eq!(x, 8),
        other => panic!("unexpected u64 buffer: {:?}", other),
    }

    rt_digit.insert_leaf(&char_type, ReprLeaf { data: Some(LeafValue::Char('5')) });

    // before the morphism, the char representation keeps its own value
    match rt_digit.singleton_buffer(&char_type) {
        LeafValue::Char(c) => assert_eq!(c, '5'),
        other => panic!("unexpected char buffer: {:?}", other),
    }
    assert_eq!(rt_digit.view_char(&char_type), '5');

    // now attach the char representation to the u64 representation
    let applied = ctx.apply_morphism(
        &mut rt_digit,
        &MorphismType {
            src_type: TypeTerm::Ladder(vec![
                digit_app(&ctx, 16),
                atom(&ctx, "Z_2^64"),
                atom(&ctx, "machine.UInt64"),
            ]),
            dst_type: TypeTerm::Ladder(vec![digit_app(&ctx, 16), char_type.clone()]),
        },
    );
    assert!(applied);

    // the char buffer and view now follow the u64 buffer
    assert_eq!(rt_digit.view_char(&char_type), '8');
    match rt_digit.singleton_buffer(&char_type) {
        LeafValue::Char(c) => assert_eq!(c, '8'),
        other => panic!("unexpected char buffer: {:?}", other),
    }

    // a change of the u64 buffer pushes through to the char buffer
    rt_digit.set_value(&u64_type, LeafValue::U64(3));
    match rt_digit.singleton_buffer(&u64_type) {
        LeafValue::U64(x) => assert_eq!(x, 3),
        other => panic!("unexpected u64 buffer: {:?}", other),
    }
    match rt_digit.singleton_buffer(&char_type) {
        LeafValue::Char(c) => assert_eq!(c, '3'),
        other => panic!("unexpected char buffer: {:?}", other),
    }
    assert_eq!(rt_digit.view_char(&char_type), '3');
}

#[test]
fn round_trip_projection() {
    // a Char <-> u64 digit pair wired in both directions
    let mut ctx = Context::new();
    nested::digit::init_ctx(&mut ctx);

    let char_type = atom(&ctx, "Char");
    let u64_type = u64_ladder(&ctx);
    let char_full = TypeTerm::Ladder(vec![digit_app(&ctx, 16), char_type.clone()]);
    let u64_full = TypeTerm::Ladder(vec![
        digit_app(&ctx, 16),
        atom(&ctx, "Z_2^64"),
        atom(&ctx, "machine.UInt64"),
    ]);

    let mut rt_digit = ReprTree::new(digit_app(&ctx, 16));
    rt_digit.insert_leaf(&char_type, ReprLeaf { data: Some(LeafValue::Char('5')) });

    assert!(ctx.apply_morphism(
        &mut rt_digit,
        &MorphismType { src_type: char_full.clone(), dst_type: u64_full.clone() },
    ));
    assert!(ctx.apply_morphism(
        &mut rt_digit,
        &MorphismType { src_type: u64_full.clone(), dst_type: char_full.clone() },
    ));

    // the digit '5' reads as the number 5
    assert_eq!(rt_digit.view_u64(&u64_type), 5);

    // setting the u64 buffer makes the char view read '2'
    rt_digit.singleton_buffer(&u64_type);
    rt_digit.set_value(&u64_type, LeafValue::U64(2));
    assert_eq!(rt_digit.view_char(&char_type), '2');
}

#[test]
fn create_branch_idempotent() {
    let mut ctx = Context::new();
    let nat = TypeTerm::TypeID(ctx.add_typename("Nat"));
    let pos_int = ctx.add_typename("PosInt");
    let big = ctx.add_typename("BigEndian");
    let seq_id = ctx.add_typename("Seq");
    let digit = ctx.add_typename("Digit");
    let posint10 = TypeTerm::App(vec![
        TypeTerm::TypeID(pos_int),
        TypeTerm::Num(10),
        TypeTerm::TypeID(big),
    ]);
    let digit10 = TypeTerm::App(vec![TypeTerm::TypeID(digit), TypeTerm::Num(10)]);
    let seq_digit = TypeTerm::App(vec![TypeTerm::TypeID(seq_id), digit10]);
    let ladder = TypeTerm::Ladder(vec![posint10, seq_digit]);

    let mut rt = ReprTree::new(nat);
    rt.create_branch(&ladder);
    let once = format!("{:?}", rt);
    rt.create_branch(&ladder);
    assert_eq!(format!("{:?}", rt), once);
}

#[test]
fn missing_path_keeps_tree() {
    let mut ctx = Context::new();
    let nat = TypeTerm::TypeID(ctx.add_typename("Nat"));
    let other = TypeTerm::TypeID(ctx.add_typename("Other"));

    let mut rt = ReprTree::new(nat.clone());
    let before = format!("{:?}", rt);
    let applied = ctx.apply_morphism(
        &mut rt,
        &MorphismType { src_type: nat, dst_type: other },
    );
    assert!(!applied);
    assert_eq!(format!("{:?}", rt), before);
}

#[test]
fn list_map_projection() {
    // the elementwise lifting of the digit rule over a character list
    let mut ctx = Context::new();
    nested::digit::init_ctx(&mut ctx);

    let list_id = ctx.get_typeid("List").unwrap();
    let char_type = atom(&ctx, "Char");
    let item_char = TypeTerm::Ladder(vec![digit_app(&ctx, 16), char_type.clone()]);
    let item_u64 = TypeTerm::Ladder(vec![
        digit_app(&ctx, 16),
        atom(&ctx, "Z_2^64"),
        atom(&ctx, "machine.UInt64"),
    ]);
    let list_char = TypeTerm::App(vec![TypeTerm::TypeID(list_id), item_char]);
    let list_u64 = TypeTerm::App(vec![TypeTerm::TypeID(list_id), item_u64]);

    let mut rt = ReprTree::new(list_char.clone());
    rt.insert_leaf(
        &list_char,
        ReprLeaf { data: Some(LeafValue::VecChar(vec!['c', 'f', 'f'])) },
    );

    let applied = ctx.apply_morphism(
        &mut rt,
        &MorphismType { src_type: list_char, dst_type: list_u64.clone() },
    );
    assert!(applied);

    match rt.get_view(&list_u64) {
        Some(LeafValue::VecU64(v)) => assert_eq!(v, vec![12, 15, 15]),
        other => panic!("no u64 list view: {:?}", other),
    }
}

#[test]
fn leaf_types() {
    let mut ctx = Context::new();
    nested::digit::init_ctx(&mut ctx);

    let char_type = atom(&ctx, "Char");
    let u64_type = u64_ladder(&ctx);
    let mut rt_digit = ReprTree::new(digit_app(&ctx, 16));
    rt_digit.insert_leaf(&char_type, ReprLeaf { data: Some(LeafValue::Char('5')) });
    rt_digit.insert_leaf(&u64_type, ReprLeaf { data: Some(LeafValue::U64(5)) });

    let types = rt_digit.get_leaf_types();
    assert_eq!(types.len(), 2);
    assert!(types.contains(&TypeTerm::Ladder(vec![digit_app(&ctx, 16), char_type])));
    assert!(types.contains(&TypeTerm::Ladder(vec![
        digit_app(&ctx, 16),
        atom(&ctx, "Z_2^64"),
        atom(&ctx, "machine.UInt64"),
    ])));
}

#[test]
fn detach_freezes_primary_representations() {
    // the re-mastering protocol: freeze, then wire a fresh master
    let mut ctx = Context::new();
    nested::digit::init_ctx(&mut ctx);

    let char_type = atom(&ctx, "Char");
    let u64_type = u64_ladder(&ctx);
    let char_full = TypeTerm::Ladder(vec![digit_app(&ctx, 16), char_type.clone()]);
    let u64_full = TypeTerm::Ladder(vec![
        digit_app(&ctx, 16),
        atom(&ctx, "Z_2^64"),
        atom(&ctx, "machine.UInt64"),
    ]);

    let mut rt_digit = ReprTree::new(digit_app(&ctx, 16));
    rt_digit.insert_leaf(&u64_type, ReprLeaf { data: Some(LeafValue::U64(9)) });

    // the char representation follows the number
    assert!(ctx.apply_morphism(
        &mut rt_digit,
        &MorphismType { src_type: u64_full.clone(), dst_type: char_full.clone() },
    ));
    assert_eq!(rt_digit.view_char(&char_type), '9');

    // freeze the primary (character) representations; the char keeps
    // its last value even when the number changes afterwards
    ctx.detach(&mut rt_digit);
    rt_digit.set_value(&u64_type, LeafValue::U64(4));
    assert_eq!(rt_digit.view_char(&char_type), '9');

    // wiring the projection afresh makes it follow again
    assert!(ctx.apply_morphism(
        &mut rt_digit,
        &MorphismType { src_type: u64_full, dst_type: char_full },
    ));
    assert_eq!(rt_digit.view_char(&char_type), '4');
}

#[test]
fn ascend_wraps_a_tree() {
    let mut ctx = Context::new();
    let nat = TypeTerm::TypeID(ctx.add_typename("Nat"));
    let pos = TypeTerm::TypeID(ctx.add_typename("PosInt"));
    let inner = ReprTree::new(pos.clone());
    let outer = ReprTree::ascend(inner, nat.clone());
    assert_eq!(outer.get_type(), &nat);
    assert_eq!(outer.descend(&pos).unwrap().get_halo_type(), &nat);
}

#[test]
fn morphism_path_hops() {
    // two hops along a caller-supplied chain of representation types
    let mut ctx = Context::new();
    nested::digit::init_ctx(&mut ctx);

    let char_type = atom(&ctx, "Char");
    let u64_type = u64_ladder(&ctx);
    let char_full = TypeTerm::Ladder(vec![digit_app(&ctx, 16), char_type.clone()]);
    let u64_full = TypeTerm::Ladder(vec![
        digit_app(&ctx, 16),
        atom(&ctx, "Z_2^64"),
        atom(&ctx, "machine.UInt64"),
    ]);

    let mut rt_digit = ReprTree::new(digit_app(&ctx, 16));
    rt_digit.insert_leaf(&char_type, ReprLeaf { data: Some(LeafValue::Char('b')) });

    ctx.apply_morphism_path(
        &mut rt_digit,
        &vec![char_full.clone(), u64_full, char_full],
    );

    // both projections are wired: the number follows the character
    assert_eq!(rt_digit.view_u64(&u64_type), 11);
    rt_digit.set_value(&char_type, LeafValue::Char('e'));
    assert_eq!(rt_digit.view_u64(&u64_type), 14);
}

#[test]
fn descend_edge_cases() {
    let mut ctx = Context::new();
    let nat = TypeTerm::TypeID(ctx.add_typename("Nat"));
    let pos = TypeTerm::TypeID(ctx.add_typename("PosInt"));
    let mut rt = ReprTree::new(nat.clone());
    rt.create_branch(&pos);

    // descending an empty ladder stays at the node itself
    let unit = TypeTerm::Ladder(vec![]);
    assert_eq!(rt.descend(&unit).unwrap().get_type(), &nat);
    // a rung equal to the node's own type is a no-op advance
    assert_eq!(rt.descend(&nat).unwrap().get_type(), &nat);
    // one existing rung descends, a missing rung fails
    assert_eq!(rt.descend_one(&pos).unwrap().get_type(), &pos);
    let other = TypeTerm::TypeID(ctx.add_typename("Other"));
    assert!(rt.descend(&other).is_none());
}

#[test]
fn scalar_views() {
    let mut ctx = Context::new();
    let byte = TypeTerm::TypeID(ctx.add_typename("machine.UInt8"));
    let word = TypeTerm::TypeID(ctx.add_typename("machine.USize"));
    let mut rt = ReprTree::new(byte.clone());
    rt.insert_leaf(&byte, ReprLeaf { data: Some(LeafValue::U8(7)) });
    assert_eq!(rt.view_u8(&byte), 7);
    // a differently shaped representation is probed recoverably
    assert!(matches!(rt.get_view(&byte), Some(LeafValue::U8(_))));

    let mut rt2 = ReprTree::new(word.clone());
    rt2.insert_leaf(&word, ReprLeaf { data: Some(LeafValue::USize(9)) });
    assert_eq!(rt2.view_usize(&word), 9);
}

#[test]
fn discovered_two_hop_path() {
    // no single rule leads from the first representation to the third;
    // the conversion is discovered as a chain of two rules
    let mut ctx = Context::new();
    let nat = TypeTerm::TypeID(ctx.add_typename("Nat"));
    let a = TypeTerm::TypeID(ctx.add_typename("StageOne"));
    let b = TypeTerm::TypeID(ctx.add_typename("StageTwo"));
    let c = TypeTerm::TypeID(ctx.add_typename("StageThree"));
    let full = |t: &TypeTerm| TypeTerm::Ladder(vec![nat.clone(), t.clone()]);

    ctx.morphisms.add_morphism(GenericReprTreeMorphism::new(
        full(&a),
        full(&b),
        SetupRule {
            src_ladder: a.clone(),
            dst_ladder: b.clone(),
            template: TransformTemplate::Reverse,
        },
    ));
    ctx.morphisms.add_morphism(GenericReprTreeMorphism::new(
        full(&b),
        full(&c),
        SetupRule {
            src_ladder: b.clone(),
            dst_ladder: c.clone(),
            template: TransformTemplate::Reverse,
        },
    ));

    let mut rt = ReprTree::new(nat.clone());
    rt.insert_leaf(&a, ReprLeaf { data: Some(LeafValue::VecU64(vec![1, 2, 3])) });

    let applied = ctx.apply_morphism(
        &mut rt,
        &MorphismType { src_type: full(&a), dst_type: full(&c) },
    );
    assert!(applied);

    // two reversals along the chain reproduce the digits
    match rt.get_view(&c) {
        Some(LeafValue::VecU64(v)) => assert_eq!(v, vec![1, 2, 3]),
        other => panic!("no chained view: {:?}", other),
    }
    match rt.get_view(&b) {
        Some(LeafValue::VecU64(v)) => assert_eq!(v, vec![3, 2, 1]),
        other => panic!("no intermediate view: {:?}", other),
    }
}
