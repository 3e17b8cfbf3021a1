use cachetable::hash::hash_key;
use cachetable::key::{CacheKey, KEY_SIZE};
use cachetable::op::Op;
use cachetable::set::CacheSet;
use cachetable::slot::Slot;
use cachetable::utils::{find_padding, find_padding_cust_align, is_power_of_2};
use cachetable::value::{CacheValue, VALUE_SIZE};

/// The key hash is deterministic and is not the identity: a hasher that
/// handed its argument back would fail here.
#[test]
fn hash_is_deterministic_and_mixes() {
    assert_eq!(hash_key(10), hash_key(10));
    assert_ne!(hash_key(10), 10);
    assert_ne!(hash_key(10), hash_key(11));
}

#[test]
fn slot_fields_round_trip() {
    let mut slot = Slot::default();
    assert!(!slot.valid());

    slot.set_valid(true);
    slot.set_tag(0x1234);
    slot.set_log_idx(0xdead_beef);

    assert!(slot.valid());
    assert_eq!(slot.tag(), 0x1234);
    assert_eq!(slot.log_idx(), 0xdead_beef);

    slot.set_valid(false);
    assert!(!slot.valid());
    assert_eq!(slot.tag(), 0x1234);
    assert_eq!(slot.log_idx(), 0xdead_beef);
}

#[test]
fn slot_fields_are_masked() {
    let mut slot = Slot::default();
    // A tag wider than its field keeps only the field's bits.
    slot.set_tag(u64::MAX);
    assert_eq!(slot.tag(), 0x7f_ffff);
    // A log offset wider than its field keeps only the field's bits.
    slot.set_log_idx(u64::MAX);
    assert_eq!(slot.log_idx(), 0xff_ffff_ffff);
    assert_eq!(slot.tag(), 0x7f_ffff);
}

#[test]
fn cache_key_accessors() {
    let mut key = CacheKey::new(42);
    assert_eq!(key.key(), 42);
    assert_eq!(key.len(), KEY_SIZE);
    key.set_key(7);
    assert_eq!(key.key(), 7);
}

#[test]
fn cache_value_pads_and_truncates() {
    let short = CacheValue::new(&[1, 2, 3]);
    assert_eq!(short.len(), VALUE_SIZE);
    assert_eq!(short.raw.len(), VALUE_SIZE);
    assert_eq!(&short.raw[..3], &[1, 2, 3]);
    assert!(short.raw[3..].iter().all(|b| *b == 0));

    let long_input: Vec<u8> = (0..100u8).collect();
    let long = CacheValue::new(&long_input);
    assert_eq!(long.raw.len(), VALUE_SIZE);
    assert_eq!(&long.raw[..], &long_input[..VALUE_SIZE]);
}

#[test]
fn op_starts_zeroed() {
    let op = Op::new();
    assert_eq!(op.key.key(), 0);
    assert!(op.value.raw.iter().all(|b| *b == 0));
    assert_eq!(op.version, 0);
    assert_eq!(op.m_id, 0);
    assert_eq!(op.state, 0);
    assert_eq!(op.key_id, 0);
}

#[test]
fn power_of_two_check() {
    assert!(is_power_of_2(1));
    assert!(is_power_of_2(2));
    assert!(is_power_of_2(1024));
    assert!(is_power_of_2(1 << 30));
    assert!(!is_power_of_2(0));
    assert!(!is_power_of_2(3));
    assert!(!is_power_of_2(1000));
}

#[test]
fn padding_helpers() {
    assert_eq!(find_padding(0), 0);
    assert_eq!(find_padding(1), 63);
    assert_eq!(find_padding(64), 0);
    assert_eq!(find_padding(65), 63);
    assert_eq!(find_padding_cust_align(5, 8), 3);
    assert_eq!(find_padding_cust_align(8, 8), 0);
    assert_eq!(find_padding_cust_align(30, 32), 2);
}

#[test]
fn set_probe_finds_lowest_match() {
    let mut set = CacheSet::new();
    assert_eq!(set.probe(0xab), None);

    let s0 = set.next_slot();
    assert_eq!(s0, 0);
    set.set_finger(s0, 0xab);
    set.set_valid(s0, true);
    set.set_pointer(s0, 5);

    let s1 = set.next_slot();
    assert_eq!(s1, 1);
    set.set_finger(s1, 0xcd);
    set.set_valid(s1, true);
    set.set_pointer(s1, 6);

    assert_eq!(set.probe(0xab), Some(0));
    assert_eq!(set.probe(0xcd), Some(1));
    assert_eq!(set.probe(0xef), None);

    set.set_valid(0, false);
    assert_eq!(set.probe(0xab), None);
    // The freed way is claimed again before any untouched one.
    assert_eq!(set.next_slot(), 0);
}

#[test]
fn set_round_robin_when_full() {
    let mut set = CacheSet::new();
    for i in 0..16 {
        let s = set.next_slot();
        assert_eq!(s, i);
        set.set_finger(s, i as u8);
        set.set_valid(s, true);
        set.set_pointer(s, i);
    }
    // Full: the cursor walks the ways in order and wraps.
    assert_eq!(set.next_slot(), 0);
    assert_eq!(set.next_slot(), 1);
    for _ in 2..16 {
        set.next_slot();
    }
    assert_eq!(set.next_slot(), 0);
}
