//! The pure conversions: digit reading and writing, endianness
//! reversal, and radix changes.

use nested::{Context, LeafValue, MorphismType, ReprLeaf, ReprTree, Transform, TypeTerm};
use nested::transform::{digit_char_to_u64, digit_u64_to_char, digits_of_value, reverse_u64,
    value_of_digits};

#[test]
fn digit_reading() {
    assert_eq!(digit_char_to_u64('5', 10), 5);
    assert_eq!(digit_char_to_u64('f', 16), 15);
    assert_eq!(digit_char_to_u64('F', 16), 15);
    // not a digit of the radix counts as zero
    assert_eq!(digit_char_to_u64('f', 10), 0);
    assert_eq!(digit_char_to_u64('?', 16), 0);
}

#[test]
fn digit_writing() {
    assert_eq!(digit_u64_to_char(5, 16), '5');
    assert_eq!(digit_u64_to_char(15, 16), 'f');
    // the digit is reduced modulo the radix first
    assert_eq!(digit_u64_to_char(200, 16), '8');
    // an unusable radix yields the placeholder
    assert_eq!(digit_u64_to_char(5, 1), '?');
    assert_eq!(digit_u64_to_char(5, 40), '?');
}

#[test]
fn endianness_round_trip() {
    // reversing twice reproduces the sequence, at every length
    for digits in [vec![], vec![7], vec![12, 15, 15]] {
        let once = reverse_u64(&digits);
        let twice = reverse_u64(&once);
        assert_eq!(twice, digits);
    }
    assert_eq!(reverse_u64(&vec![12, 15, 15]), vec![15, 15, 12]);
}

#[test]
fn digit_sequence_value() {
    // little-endian: cff in hex is 3327
    assert_eq!(value_of_digits(&vec![15, 15, 12], 16), Some(0xcff));
    assert_eq!(value_of_digits(&vec![], 16), Some(0));
    // a sequence denoting a number beyond u64 is refused
    assert_eq!(
        value_of_digits(&vec![0, 0, 0, 0, 0, 0, 0, 0, 1], 256),
        None
    );
    assert_eq!(digits_of_value(3327, 10), vec![7, 2, 3, 3]);
    assert_eq!(digits_of_value(0, 10), Vec::<u64>::new());
}

#[test]
fn radix_transform_values() {
    let t = Transform::RadixConvert { src_radix: 16, dst_radix: 10 };
    match t.apply(&LeafValue::VecU64(vec![15, 15, 12])) {
        Some(LeafValue::VecU64(v)) => assert_eq!(v, vec![7, 2, 3, 3]),
        other => panic!("unexpected radix conversion result: {:?}", other),
    }
    // the wrong value shape is refused
    assert!(t.apply(&LeafValue::Char('x')).is_none());
}

#[test]
fn endianness_morphism() {
    let mut ctx = Context::new();
    nested::integer::init_ctx(&mut ctx);

    let nat = TypeTerm::TypeID(ctx.get_typeid("Nat").unwrap());
    let digit16 = TypeTerm::App(vec![
        TypeTerm::TypeID(ctx.get_typeid("Digit").unwrap()),
        TypeTerm::Num(16),
    ]);
    let digit_u64 = TypeTerm::Ladder(vec![
        digit16,
        TypeTerm::TypeID(ctx.get_typeid("Z_2^64").unwrap()),
        TypeTerm::TypeID(ctx.get_typeid("machine.UInt64").unwrap()),
    ]);
    let seq_digits = TypeTerm::App(vec![
        TypeTerm::TypeID(ctx.get_typeid("Seq").unwrap()),
        digit_u64,
    ]);
    let pos_big = TypeTerm::App(vec![
        TypeTerm::TypeID(ctx.get_typeid("PosInt").unwrap()),
        TypeTerm::Num(16),
        TypeTerm::TypeID(ctx.get_typeid("BigEndian").unwrap()),
    ]);
    let pos_little = TypeTerm::App(vec![
        TypeTerm::TypeID(ctx.get_typeid("PosInt").unwrap()),
        TypeTerm::Num(16),
        TypeTerm::TypeID(ctx.get_typeid("LittleEndian").unwrap()),
    ]);
    let be_full = TypeTerm::Ladder(vec![nat.clone(), pos_big.clone(), seq_digits.clone()]);
    let le_full = TypeTerm::Ladder(vec![nat.clone(), pos_little.clone(), seq_digits.clone()]);
    let be_path = TypeTerm::Ladder(vec![pos_big, seq_digits.clone()]);
    let le_path = TypeTerm::Ladder(vec![pos_little, seq_digits]);

    // big-endian c f f
    let mut rt = ReprTree::new(nat);
    rt.insert_leaf(&be_path, ReprLeaf { data: Some(LeafValue::VecU64(vec![12, 15, 15])) });

    assert!(ctx.apply_morphism(
        &mut rt,
        &MorphismType { src_type: be_full.clone(), dst_type: le_full.clone() },
    ));
    match rt.get_view(&le_path) {
        Some(LeafValue::VecU64(v)) => assert_eq!(v, vec![15, 15, 12]),
        other => panic!("no little-endian view: {:?}", other),
    }

    // and back: the round trip reproduces the original digits
    assert!(ctx.apply_morphism(
        &mut rt,
        &MorphismType { src_type: le_full, dst_type: be_full },
    ));
    match rt.get_view(&be_path) {
        Some(LeafValue::VecU64(v)) => assert_eq!(v, vec![12, 15, 15]),
        other => panic!("no big-endian view: {:?}", other),
    }
}

#[test]
fn radix_morphism() {
    let mut ctx = Context::new();
    nested::integer::init_ctx(&mut ctx);

    let nat = TypeTerm::TypeID(ctx.get_typeid("Nat").unwrap());
    let z = TypeTerm::TypeID(ctx.get_typeid("Z_2^64").unwrap());
    let u = TypeTerm::TypeID(ctx.get_typeid("machine.UInt64").unwrap());
    let digit_id = ctx.get_typeid("Digit").unwrap();
    let little = TypeTerm::TypeID(ctx.get_typeid("LittleEndian").unwrap());
    let seq_id = ctx.get_typeid("Seq").unwrap();
    let list_id = ctx.get_typeid("List").unwrap();
    let pos_id = ctx.get_typeid("PosInt").unwrap();

    let path_of = |radix: i64| -> TypeTerm {
        let digit = TypeTerm::App(vec![TypeTerm::TypeID(digit_id), TypeTerm::Num(radix)]);
        TypeTerm::Ladder(vec![
            TypeTerm::App(vec![
                TypeTerm::TypeID(pos_id),
                TypeTerm::Num(radix),
                little.clone(),
            ]),
            TypeTerm::App(vec![TypeTerm::TypeID(seq_id), digit.clone()]),
            TypeTerm::App(vec![
                TypeTerm::TypeID(list_id),
                TypeTerm::Ladder(vec![digit, z.clone(), u.clone()]),
            ]),
        ])
    };

    let full_of = |radix: i64, path: &TypeTerm| -> TypeTerm {
        match path {
            TypeTerm::Ladder(rungs) => {
                let mut v = vec![nat.clone()];
                v.extend(rungs.iter().cloned());
                let _ = radix;
                TypeTerm::Ladder(v)
            }
            _ => unreachable!(),
        }
    };

    let hex_path = path_of(16);
    let dec_path = path_of(10);
    let hex_full = full_of(16, &hex_path);
    let dec_full = full_of(10, &dec_path);

    // little-endian hex digits of 0xcff = 3327
    let mut rt = ReprTree::new(nat.clone());
    rt.insert_leaf(&hex_path, ReprLeaf { data: Some(LeafValue::VecU64(vec![15, 15, 12])) });

    assert!(ctx.apply_morphism(
        &mut rt,
        &MorphismType { src_type: hex_full, dst_type: dec_full },
    ));
    match rt.get_view(&dec_path) {
        Some(LeafValue::VecU64(v)) => assert_eq!(v, vec![7, 2, 3, 3]),
        other => panic!("no decimal view: {:?}", other),
    }
}
