//! Identifiers, names, numbers and how values are shown.
use coulisse::display::{format_duration, format_tokens, relative_time};
use coulisse::fences::{body_of, json_in};
use coulisse::ids::{bytes_of, MessageId, UserId};
use coulisse::judges::judge::ScoreId;
use coulisse::memory::types::MemoryId;
use coulisse::names::{clone_texts, sorted_set, NameMap, OrderedMap};
use coulisse::numbers::{
    i64_to_u32, i64_to_u64, low_bits, same_bits_signed, same_bits_unsigned, u64_to_i64, u64_to_u32,
};

#[test]
fn user_ids_read_as_uuids() {
    let id = UserId(0x0123_4567_89ab_cdef_0123_4567_89ab_cdef);
    assert_eq!(id.to_text(), "01234567-89ab-cdef-0123-456789abcdef");
    assert_eq!(UserId::parse(&id.to_text()), Some(id));
    assert_eq!(UserId::parse("0123456789ABCDEF0123456789ABCDEF"), Some(id));
    assert_eq!(UserId::parse("01234567"), None);
}

#[test]
fn fresh_ids_differ() {
    assert_ne!(UserId::new(), UserId::new());
    assert_ne!(MessageId::new(), MessageId::new());
    for n in [UserId::new().0, MessageId::new().0, MemoryId::new().0, ScoreId::new().0] {
        let id = uuid::Uuid::from_u128(n);
        assert_eq!(id.get_version_num(), 4);
        assert_eq!(id.get_variant(), uuid::Variant::RFC4122);
    }
}

#[test]
fn bytes_go_from_high_to_low() {
    assert_eq!(bytes_of(0x0102_0304, 4), vec![1, 2, 3, 4]);
    assert_eq!(bytes_of(300, 1), vec![44]);
    assert!(bytes_of(7, 0).is_empty());
}

#[test]
fn times_are_shown_relative_to_now() {
    assert_eq!(relative_time(100, 100), "just now");
    assert_eq!(relative_time(100, 100 + 120), "2m ago");
    assert_eq!(relative_time(100, 100 + 7200), "2h ago");
    assert_eq!(relative_time(100, 100 + 3 * 86_400), "3d ago");
    assert_eq!(relative_time(200, 100), "just now");
}

#[test]
fn durations_are_shown_in_their_unit() {
    assert_eq!(format_duration(0, 5), "< 1m");
    assert_eq!(format_duration(5, 0), "< 1m");
    assert_eq!(format_duration(0, 125), "2m");
    assert_eq!(format_duration(0, 3600), "1h");
    assert_eq!(format_duration(0, 3660), "1h 1m");
    assert_eq!(format_duration(0, 90_000), "1d 1h");
}

#[test]
fn token_counts_are_grouped() {
    assert_eq!(format_tokens(0), "0");
    assert_eq!(format_tokens(999), "999");
    assert_eq!(format_tokens(1_000), "1,000");
    assert_eq!(format_tokens(u64::MAX), "18,446,744,073,709,551,615");
}

#[test]
fn numbers_are_clamped_between_types() {
    assert_eq!(u64_to_i64(u64::MAX), i64::MAX);
    assert_eq!(i64_to_u64(-3), 0);
    assert_eq!(i64_to_u32(-3), 0);
    assert_eq!(i64_to_u32(i64::MAX), u32::MAX);
    assert_eq!(u64_to_u32(1 << 40), u32::MAX);
    assert_eq!(same_bits_unsigned(-1), u64::MAX);
    assert_eq!(same_bits_signed(u64::MAX), -1);
    assert_eq!(low_bits(0x1_0000_0002), 2);
}

#[test]
fn name_maps_keep_the_last_value() {
    let mut map = NameMap::new();
    map.insert("b".to_string(), 1u8);
    map.insert("a".to_string(), 2);
    map.insert("b".to_string(), 3);
    assert_eq!(map.len(), 2);
    assert_eq!(map.get("b"), Some(&3));
    assert!(map.contains("a"));
    assert_eq!(map.get("c"), None);
    assert_eq!(map.name_at(0), "b");
    assert_eq!(*map.value_at(0), 3);
}

#[test]
fn ordered_maps_are_walked_by_name() {
    let mut map = OrderedMap::new();
    for name in ["b", "a", "\u{e9}", "Z", "aa"] {
        map.insert(name.to_string(), name.to_string());
    }
    let names: Vec<&str> = (0..map.len()).map(|i| map.name_at(i).as_str()).collect();
    assert_eq!(names, vec!["Z", "a", "aa", "b", "\u{e9}"]);
    assert!(map.remove("a"));
    assert!(!map.remove("a"));
    assert_eq!(map.get("a"), None);
    assert_eq!(clone_texts(&map).get("b").map(String::as_str), Some("b"));
    assert_eq!(map.value_at(0), "Z");
}

#[test]
fn sorted_sets_have_each_name_once() {
    let all: Vec<String> = ["b", "a", "b"].iter().map(|s| s.to_string()).collect();
    assert_eq!(sorted_set(&all), vec!["a", "b"]);
}

#[test]
fn fences_come_off_answers() {
    assert_eq!(body_of(" ```json\n[1]\n``` "), "[1]");
    assert_eq!(body_of("```\n[1]\n```"), "[1]");
    assert_eq!(body_of(" [1] "), "[1]");
    assert_eq!(json_in("``````"), None);
    assert_eq!(json_in("x").as_deref(), Some("x"));
}
