use dob_decoder::args::{decode_hex_arg, parse_seed};
use dob_decoder::cursor::ByteCursor;
use dob_decoder::decoder::{decode_traits, dobs_decode, mutant_count};
use dob_decoder::error::Error;
use dob_decoder::host::{panic_handler, syscall_exit, syscall_write, Syscall};
use dob_decoder::offset::resolve_offset;
use dob_decoder::pool::{pool_index, range_value, resolve_pool};
use dob_decoder::rng::draw_sequence;
use dob_decoder::schema::{Trait, TraitField, TraitGroup, TraitPool, DNA};

fn field(byte_length: u8, pool: Option<TraitPool>) -> TraitField {
    TraitField { byte_length, pool }
}

fn group(name: &str, fields: Vec<TraitField>) -> TraitGroup {
    TraitGroup { name: name.to_string(), fields }
}

fn strings(items: &[&str]) -> Vec<String> {
    items.iter().map(|s| s.to_string()).collect()
}

#[test]
fn single_byte_without_pool() {
    let schema = vec![group("Size", vec![field(1, None)])];
    let r = decode_traits(&[0x0a], &schema, &vec![]).unwrap();
    assert_eq!(
        r,
        vec![DNA { name: "Size".to_string(), traits: vec![Trait::Number(10)] }]
    );
}

#[test]
fn two_bytes_select_from_string_set() {
    let pool = TraitPool::StringSet(strings(&["Red", "Green", "Blue"]));
    let schema = vec![group("Color", vec![field(2, Some(pool))])];
    let r = decode_traits(&[0x01, 0x00], &schema, &vec![]).unwrap();
    assert_eq!(r[0].name, "Color");
    assert_eq!(r[0].traits, vec![Trait::String("Green".to_string())]);
}

#[test]
fn number_range_adds_offset_to_lower_bound() {
    let schema = vec![group("Level", vec![field(1, Some(TraitPool::NumberRange(10, 20)))])];
    let r = decode_traits(&[0x05], &schema, &vec![]).unwrap();
    assert_eq!(r[0].traits, vec![Trait::Number(15)]);
}

#[test]
fn empty_dna_is_insufficient() {
    let schema = vec![group("Size", vec![field(1, None)])];
    let r = decode_traits(&[], &schema, &vec![]);
    assert_eq!(r, Err(Error::InsufficientDNABytes));
    assert_eq!(Error::InsufficientDNABytes.code(), 5);
}

#[test]
fn empty_string_set_is_rejected() {
    let schema = vec![group("Color", vec![field(1, Some(TraitPool::StringSet(vec![])))])];
    let r = decode_traits(&[0x01], &schema, &vec![]);
    assert_eq!(r, Err(Error::InvalidDNASetSchema));
    assert_eq!(Error::InvalidDNASetSchema.code(), 6);
}

#[test]
fn empty_number_float_and_mutant_sets_are_rejected() {
    for pool in [
        TraitPool::NumberSet(vec![]),
        TraitPool::FloatSet(vec![], 3),
        TraitPool::MutantSet(vec![]),
    ] {
        assert_eq!(resolve_pool(7, &pool, 9), Err(Error::InvalidDNASetSchema));
    }
}

#[test]
fn byte_order_depends_on_length() {
    assert_eq!(resolve_offset(&[0x7f]), Ok(0x7f));
    assert_eq!(resolve_offset(&[0x01, 0x00]), Ok(1));
    assert_eq!(resolve_offset(&[0x00, 0x00, 0x00, 0x01]), Ok(1));
    assert_eq!(resolve_offset(&[0x01, 0x00, 0x00, 0x00]), Ok(0x0100_0000));
    assert_eq!(resolve_offset(&[1, 0, 0, 0, 0, 0, 0, 0]), Ok(1));
    assert_eq!(
        resolve_offset(&[1, 2, 3, 4, 5, 6, 7, 8]),
        Ok(0x0807_0605_0403_0201)
    );
    assert_eq!(resolve_offset(&[0xff; 8]), Ok(u64::MAX));
}

#[test]
fn invalid_byte_length_is_rejected_after_reading() {
    assert_eq!(resolve_offset(&[1, 2, 3]), Err(Error::InvalidDNAByteLengthSchema));
    let schema = vec![group("Odd", vec![field(3, None)])];
    assert_eq!(
        decode_traits(&[1, 2, 3], &schema, &vec![]),
        Err(Error::InvalidDNAByteLengthSchema)
    );
    assert_eq!(
        decode_traits(&[1, 2], &schema, &vec![]),
        Err(Error::InsufficientDNABytes)
    );
    assert_eq!(Error::InvalidDNAByteLengthSchema.code(), 7);
}

#[test]
fn reversed_range_is_rejected() {
    for pool in [
        TraitPool::NumberRange(20, 10),
        TraitPool::FloatRange(20, 10, 2),
        TraitPool::MutantRange(20, 10),
    ] {
        assert_eq!(resolve_pool(5, &pool, 1), Err(Error::InvalidDNARangeSchema));
    }
    assert_eq!(Error::InvalidDNARangeSchema.code(), 8);
}

#[test]
fn zero_width_range_yields_lower_bound() {
    assert_eq!(resolve_pool(123, &TraitPool::NumberRange(7, 7), 0), Ok(Trait::Number(7)));
    assert_eq!(resolve_pool(123, &TraitPool::FloatRange(7, 7, 4), 0), Ok(Trait::Float(7, 4)));
    assert_eq!(resolve_pool(123, &TraitPool::MutantRange(7, 7), 99), Ok(Trait::Number(7)));
}

#[test]
fn sets_and_float_pools() {
    assert_eq!(resolve_pool(4, &TraitPool::NumberSet(vec![10, 20, 30]), 0), Ok(Trait::Number(20)));
    assert_eq!(resolve_pool(5, &TraitPool::FloatSet(vec![1, 2, 3], 4), 0), Ok(Trait::Float(3, 4)));
    assert_eq!(resolve_pool(5, &TraitPool::FloatRange(100, 110, 10), 0), Ok(Trait::Float(105, 10)));
}

#[test]
fn mutant_pools_add_the_draw() {
    assert_eq!(resolve_pool(1, &TraitPool::MutantSet(vec![10, 20, 30]), 1), Ok(Trait::Number(30)));
    assert_eq!(resolve_pool(3, &TraitPool::MutantRange(100, 110), 4), Ok(Trait::Number(107)));
    // The sum wraps at 64 bits.
    assert_eq!(
        resolve_pool(u64::MAX, &TraitPool::MutantRange(0, 10), 1),
        Ok(Trait::Number(0))
    );
    let schema = vec![group("M", vec![field(8, Some(TraitPool::MutantSet(vec![10, 20, 30])))])];
    let r = decode_traits(&[0xff; 8], &schema, &vec![1]).unwrap();
    assert_eq!(r[0].traits, vec![Trait::Number(10)]);
}

#[test]
fn index_stays_within_pool() {
    for len in 1..20usize {
        for (o, d) in [(0u64, 0u64), (u64::MAX, u64::MAX), (12345, 678), (u64::MAX, 1)] {
            let i = pool_index(o, d, len);
            assert!(i < len);
            assert_eq!(i as u64, o.wrapping_add(d) % len as u64);
        }
    }
    assert_eq!(range_value(u64::MAX, u64::MAX, 5, u64::MAX), 5 + (u64::MAX - 1) % (u64::MAX - 5));
}

#[test]
fn draws_follow_mutant_field_order() {
    let a = field(1, Some(TraitPool::MutantRange(0, 100)));
    let b = field(1, Some(TraitPool::MutantSet(vec![0, 1, 2, 3, 4, 5, 6])));
    let schema_ab = vec![group("G", vec![a, b])];
    let a = field(1, Some(TraitPool::MutantRange(0, 100)));
    let b = field(1, Some(TraitPool::MutantSet(vec![0, 1, 2, 3, 4, 5, 6])));
    let schema_ba = vec![group("G", vec![b, a])];
    let draws = vec![10, 3];
    let ab = decode_traits(&[0, 0], &schema_ab, &draws).unwrap();
    let ba = decode_traits(&[0, 0], &schema_ba, &draws).unwrap();
    assert_eq!(ab[0].traits, vec![Trait::Number(10), Trait::Number(3)]);
    assert_eq!(ba[0].traits, vec![Trait::Number(3), Trait::Number(3)]);
    assert_ne!(ab[0].traits[0], ba[0].traits[1]);
}

#[test]
fn groups_keep_schema_order_and_leftover_bytes_are_ignored() {
    let schema = vec![
        group("A", vec![field(1, None), field(2, None)]),
        group("B", vec![field(4, None)]),
    ];
    let dna = [1, 2, 0, 0, 0, 0, 3, 9, 9];
    let r = decode_traits(&dna, &schema, &vec![]).unwrap();
    assert_eq!(r.len(), 2);
    assert_eq!(r[0].name, "A");
    assert_eq!(r[0].traits, vec![Trait::Number(1), Trait::Number(2)]);
    assert_eq!(r[1].name, "B");
    assert_eq!(r[1].traits, vec![Trait::Number(3)]);
    assert_eq!(decode_traits(&dna[..6], &schema, &vec![]), Err(Error::InsufficientDNABytes));
}

#[test]
fn repeated_decodes_agree() {
    let schema = vec![group("M", vec![field(8, Some(TraitPool::MutantRange(5, 1000)))])];
    let first = dobs_decode(b"0102030405060708", b"1250945", &schema);
    let second = dobs_decode(b"0102030405060708", b"1250945", &schema);
    assert!(first.is_ok());
    assert_eq!(first, second);
}

#[test]
fn mutant_count_counts_mutant_fields() {
    let schema = vec![
        group("A", vec![field(1, Some(TraitPool::MutantSet(vec![1]))), field(1, None)]),
        group("B", vec![field(1, Some(TraitPool::MutantRange(0, 3))), field(1, Some(TraitPool::NumberRange(0, 3)))]),
    ];
    assert_eq!(mutant_count(&schema), 2);
}

#[test]
fn draw_sequence_is_reproducible() {
    let a = draw_sequence(42, 4);
    assert_eq!(a.len(), 4);
    assert_eq!(a, draw_sequence(42, 4));
}

#[test]
fn hex_arguments() {
    assert_eq!(decode_hex_arg(b"0aff10"), Ok(vec![0x0a, 0xff, 0x10]));
    assert_eq!(decode_hex_arg(b"0AfF"), Ok(vec![0x0a, 0xff]));
    assert_eq!(decode_hex_arg(b""), Ok(vec![]));
    assert_eq!(decode_hex_arg(b"abc"), Err(Error::UnexpectedArgBytesLength));
    assert_eq!(decode_hex_arg(b"zz"), Err(Error::InvalidArgFormat));
    assert_eq!(Error::UnexpectedArgBytesLength.code(), 2);
}

#[test]
fn seed_arguments() {
    assert_eq!(parse_seed(b"1250945"), Ok(1250945));
    assert_eq!(parse_seed(b"18446744073709551615"), Ok(u64::MAX));
    assert_eq!(parse_seed(b"18446744073709551616"), Err(Error::InvalidArgFormat));
    assert_eq!(parse_seed(b""), Err(Error::InvalidArgFormat));
    assert_eq!(parse_seed(b"12a"), Err(Error::InvalidArgFormat));
    assert_eq!(parse_seed(b"+1250945"), Ok(1250945));
    assert_eq!(parse_seed(b"+"), Err(Error::InvalidArgFormat));
    assert_eq!(parse_seed(b"++5"), Err(Error::InvalidArgFormat));
    assert_eq!(parse_seed(b"-5"), Err(Error::InvalidArgFormat));
    assert_eq!(parse_seed(b"5+"), Err(Error::InvalidArgFormat));
    assert_eq!(Error::InvalidArgFormat.code(), 3);
}

#[test]
fn dobs_decode_checks_arguments_in_order() {
    let schema = vec![group("Size", vec![field(1, None)])];
    assert_eq!(dobs_decode(b"0", b"x", &schema), Err(Error::UnexpectedArgBytesLength));
    assert_eq!(dobs_decode(b"0g", b"1", &schema), Err(Error::InvalidArgFormat));
    assert_eq!(dobs_decode(b"0a", b"x", &schema), Err(Error::InvalidArgFormat));
    assert_eq!(
        dobs_decode(b"0a", b"1", &schema),
        Ok(vec![DNA { name: "Size".to_string(), traits: vec![Trait::Number(10)] }])
    );
    assert_eq!(dobs_decode(b"", b"1", &schema), Err(Error::InsufficientDNABytes));
}

#[test]
fn cursor_takes_from_the_front() {
    let data = [1u8, 2, 3];
    let mut c = ByteCursor::new(&data);
    assert_eq!(c.take(2), Ok(vec![1, 2]));
    assert_eq!(c.take(2), Err(Error::InsufficientDNABytes));
    assert_eq!(c.take(1), Ok(vec![3]));
    assert_eq!(c.take(0), Ok(vec![]));
}

#[test]
fn error_codes_follow_declaration_order() {
    assert_eq!(Error::UnexpectedArgCount.code(), 1);
    assert_eq!(Error::InvalidArgMolFormat.code(), 4);
}

#[test]
fn host_requests() {
    assert_eq!(syscall_exit(5), Syscall { number: 93, arg: 5 });
    assert_eq!(syscall_write(0x1000), Syscall { number: 2177, arg: 0x1000 });
    assert_eq!(panic_handler(), Syscall { number: 93, arg: 101 });
}
