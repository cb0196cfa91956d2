//! Identifiers, interning, time, text, rates, and bytes on the wire.

use aletheia_storage::error::{Error, StorageError, TemporalError};
use aletheia_storage::ids::{EdgeId, IdGenerator, NodeId, ShardId, TxId, VersionId};
use aletheia_storage::interning::StringInterner;
use aletheia_storage::property::{PropertyMap, PropertyValue};
use aletheia_storage::ratio::Ratio;
use aletheia_storage::sharding::wire::{first_u32, first_u64, push_le};
use aletheia_storage::temporal::{BiTemporalInterval, HybridTimestamp, TimeRange};
use aletheia_storage::text::{decimal_string, texts_in_order};
use aletheia_storage::time::Duration;

#[test]
fn identifiers_have_a_largest_value() {
    assert_eq!(NodeId::new(7).unwrap().as_u64(), 7);
    assert!(NodeId::new(u64::MAX - 1).is_ok());
    assert!(NodeId::new(u64::MAX).is_err());
    assert!(EdgeId::new(u64::MAX).is_err());
    assert!(VersionId::new(u64::MAX).is_err());
    assert_eq!(ShardId::new(65534).unwrap().as_u16(), 65534);
    assert!(ShardId::new(65535).is_err());
    assert_eq!(TxId::new(9).as_u64(), 9);
}

#[test]
fn identifiers_are_handed_out_in_turn() {
    let mut ids = IdGenerator::new();
    let first = ids.next().unwrap();
    assert_eq!(ids.next().unwrap(), first + 1);
    ids.ensure_at_least(10);
    assert_eq!(ids.next().unwrap(), 10);
    ids.ensure_at_least(3);
    assert_eq!(ids.current(), 11);
    ids.reset_to(u64::MAX);
    assert!(ids.next().is_err());
}

#[test]
fn strings_keep_their_numbers() {
    let mut interner = StringInterner::with_limit(2);
    let a = interner.intern("a").unwrap();
    let b = interner.intern("b").unwrap();
    assert_ne!(a, b);
    assert_eq!(interner.intern("a").unwrap(), a);
    assert_eq!(interner.get_id("b"), Some(b));
    assert_eq!(interner.get_id("c"), None);
    assert_eq!(interner.resolve(a).unwrap(), "a");
    match interner.intern("c") {
        Err(Error::Storage(StorageError::CapacityExceeded { resource, current, limit })) => {
            assert_eq!(resource, "string interner");
            assert_eq!((current, limit), (2, 2));
        }
        other => panic!("{:?}", other),
    }
    assert!(interner.intern("b").is_ok());
}

#[test]
fn spans_of_time_have_a_text() {
    assert_eq!(Duration::from_secs(30).text(), "30s");
    assert_eq!(Duration::from_millis(1500).text(), "1.5s");
    assert_eq!(Duration::from_micros(15).text(), format!("{:?}", std::time::Duration::from_micros(15)));
    assert_eq!(Duration::zero().text(), "0ns");
    assert_eq!(Duration::from_millis(2999).as_secs(), 2);
}

#[test]
fn numbers_and_texts() {
    assert_eq!(decimal_string(0), "0");
    assert_eq!(decimal_string(u64::MAX), "18446744073709551615");
    assert!(texts_in_order("abc", "abd"));
    assert!(texts_in_order("ab", "abc"));
    assert!(!texts_in_order("b", "a"));
    assert!(texts_in_order("a", "a"));
}

#[test]
fn rates_compare_by_value() {
    let half = Ratio { part: 1, whole: 2 };
    let third = Ratio { part: 1, whole: 3 };
    assert!(third.is_below(&half));
    assert!(!half.is_below(&third));
    assert!(!half.is_below(&Ratio { part: 2, whole: 4 }));
    assert!(!half.is_below(&Ratio { part: -1, whole: 4 }));
    assert_eq!(Ratio::whole_number(5), Ratio { part: 5, whole: 1 });
}

#[test]
fn bytes_round_trip() {
    let mut out: Vec<u8> = Vec::new();
    push_le(&mut out, 0x0102_0304, 4);
    assert_eq!(out, vec![4, 3, 2, 1]);
    push_le(&mut out, 0, 4);
    assert_eq!(first_u32(&out), 0x0102_0304);
    assert_eq!(first_u64(&out), 0x0102_0304);
    let mut long: Vec<u8> = Vec::new();
    push_le(&mut long, u64::MAX - 5, 8);
    assert_eq!(first_u64(&long), u64::MAX - 5);
}

#[test]
fn ranges_are_half_open() {
    let t = HybridTimestamp::from_micros;
    let range = TimeRange::new(t(10), t(20)).unwrap();
    assert!(range.contains(t(10)));
    assert!(!range.contains(t(20)));
    match TimeRange::new(t(20), t(10)) {
        Err(TemporalError::InvalidTimeRange { start, end }) => {
            assert_eq!((start, end), (t(20), t(10)));
        }
        other => panic!("{:?}", other),
    }
    let open = BiTemporalInterval::with_valid_time(t(1), t(2));
    assert!(open.is_currently_recorded());
    let closed = open.close_transaction_time(t(5)).unwrap();
    assert!(!closed.is_currently_recorded());
    assert!(open.close_valid_time(t(0)).is_err());
}

#[test]
fn zero_has_two_bit_patterns_and_one_value() {
    let zero = PropertyValue::Vector(vec![0.0f32.to_bits()]);
    let minus = PropertyValue::Vector(vec![(-0.0f32).to_bits()]);
    assert!(zero.equals(&minus));
    assert!(!zero.is_same(&minus));
    let nan = PropertyValue::Float(f64::NAN.to_bits());
    assert!(!nan.equals(&nan.copied()));
    assert!(nan.is_same(&nan.copied()));
}

#[test]
fn maps_hold_the_last_value() {
    let mut interner = StringInterner::new();
    let key = interner.intern("k").unwrap();
    let mut map = PropertyMap::new();
    map.insert(key, PropertyValue::Int(1));
    map.insert(key, PropertyValue::Int(2));
    assert_eq!(map.len(), 1);
    assert!(matches!(map.copied().get(key), Some(PropertyValue::Int(2))));
    map.remove(key);
    assert!(map.get(key).is_none());
}
