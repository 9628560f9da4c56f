//! Text payloads: strings, characters and formatted integers.

use dom_batch::decode_streams;
use dom_batch::Batch;
use dom_batch::MaybeId;
use dom_batch::Operation;

#[test]
fn integers_format_as_decimal_text() {
    let mut batch = Batch::default();
    batch.create_text_node(0u64, MaybeId::LastNode);
    batch.create_text_node(42u32, MaybeId::LastNode);
    batch.create_text_node(65535u16, MaybeId::LastNode);
    batch.create_text_node(-7i32, MaybeId::LastNode);
    batch.create_text_node(-9223372036854775808i64, MaybeId::LastNode);
    let fin = batch.finalize();
    assert_eq!(
        fin.strs.as_slice(),
        b"04265535-7-9223372036854775808".as_slice()
    );
}

#[test]
fn wide_integers_format_as_decimal_text() {
    let mut batch = Batch::default();
    batch.create_text_node(340282366920938463463374607431768211455u128, MaybeId::LastNode);
    batch.create_text_node(-170141183460469231731687303715884105728i128, MaybeId::LastNode);
    let fin = batch.finalize();
    assert_eq!(
        fin.strs.as_slice(),
        b"340282366920938463463374607431768211455-170141183460469231731687303715884105728"
            .as_slice()
    );
}

#[test]
fn char_and_string_payloads() {
    let mut batch = Batch::default();
    batch.set_text('a', MaybeId::LastNode);
    batch.set_text(String::from("bc"), MaybeId::LastNode);
    batch.set_text("d", MaybeId::LastNode);
    let fin = batch.finalize();
    assert_eq!(fin.strs, b"abcd".to_vec());
    let ops = decode_streams(&fin.msg, &fin.strs).unwrap();
    assert_eq!(
        ops,
        vec![
            Operation::SetText { root: MaybeId::LastNode, text: b"a".to_vec() },
            Operation::SetText { root: MaybeId::LastNode, text: b"bc".to_vec() },
            Operation::SetText { root: MaybeId::LastNode, text: b"d".to_vec() },
        ]
    );
}

#[test]
fn text_lengths_are_two_byte_little_endian() {
    let mut batch = Batch::default();
    let long = "y".repeat(300);
    batch.set_text(long.as_str(), MaybeId::LastNode);
    let fin = batch.finalize();
    // tag group, then the length 300 = 0x012C little-endian
    assert_eq!(&fin.msg[4..6], &[0x2C, 0x01]);
    assert_eq!(fin.strs.len(), 300);
}
