use cextauthz::config::normalize_grpc_cluster;
use cextauthz::text::numbers::{push_decimal, push_hex, read_number};
use cextauthz::text::{chars_of, has_prefix, is_named, precedes, same_text};
use cextauthz::text_map::TextMap;
use std::collections::BTreeMap;

#[test]
fn white_space_is_that_of_unicode() {
    for c in '\0'..=char::MAX {
        let text = format!("{c}a{c}");
        let trimmed = normalize_grpc_cluster(&text).unwrap();
        assert_eq!(trimmed, text.trim());
        assert_eq!(trimmed == "a", c.is_whitespace(), "{:x}", c as u32);
    }
}

#[test]
fn numbers_are_read_as_by_std() {
    for text in [
        "0", "7", "42", "+42", "-1", "+", "", " 1", "1 ", "00012", "18446744073709551615",
        "18446744073709551616", "99999999999999999999999", "1a", "ff", "FF", "+fF", "\u{ff11}",
        "0x10", "++1",
    ] {
        assert_eq!(read_number(text, 10, u64::MAX), text.parse::<u64>().ok(), "{text}");
        assert_eq!(
            read_number(text, 16, u64::MAX),
            u64::from_str_radix(text, 16).ok(),
            "{text}"
        );
    }
    assert_eq!(read_number("255", 10, 255), Some(255));
    assert_eq!(read_number("256", 10, 255), None);
}

#[test]
fn numbers_are_written_as_by_std() {
    for value in [0, 1, 9, 10, 15, 16, 255, 4096, 123_456_789, u64::MAX] {
        let mut hex = "x".to_string();
        push_hex(&mut hex, value, 16);
        assert_eq!(hex, format!("x{value:016x}"));
        let mut decimal = String::new();
        push_decimal(&mut decimal, value);
        assert_eq!(decimal, value.to_string());
    }
}

#[test]
fn texts_are_compared_as_by_std() {
    let texts = [
        "", "a", "A", "b", "ab", "aB", "a\u{0}", "\u{7f}", "\u{80}", "\u{ffff}", "\u{10000}",
    ];
    for left in texts {
        for right in texts {
            assert_eq!(precedes(left, right), left < right);
            assert_eq!(same_text(left, right), left == right);
            assert_eq!(has_prefix(left, right), left.starts_with(right));
        }
    }
    assert!(is_named("X-ReQuest-ID", "x-request-id"));
    assert!(!is_named("x-request-id ", "x-request-id"));
    assert_eq!(chars_of("a\u{e9}\u{10000}"), vec!['a', '\u{e9}', '\u{10000}']);
}

#[test]
fn text_map_behaves_like_an_ordered_map() {
    let mut map: TextMap<String> = TextMap::new();
    let mut twin: BTreeMap<String, String> = BTreeMap::new();
    let mut seed: u32 = 1;
    for round in 0..400 {
        seed = seed.wrapping_mul(1_664_525).wrapping_add(1_013_904_223);
        let key = format!("k{}", (seed >> 16) % 23);
        if seed % 3 == 0 {
            map.remove(&key);
            twin.remove(&key);
        } else {
            map.insert(key.clone(), round.to_string());
            twin.insert(key.clone(), round.to_string());
        }
        assert_eq!(map.len(), twin.len());
        assert_eq!(map.is_empty(), twin.is_empty());
        assert_eq!(map.get(&key), twin.get(&key));
        assert_eq!(map.contains_key(&key), twin.contains_key(&key));
        for (place, (key, value)) in twin.iter().enumerate() {
            assert_eq!(map.key_at(place), key);
            assert_eq!(map.value_at(place), value);
        }
    }
    assert_eq!(map.clone(), map);
    let first = map.key_at(0).to_string();
    map.remove_at(0);
    assert!(!map.contains_key(&first));
    assert!(TextMap::<String>::default().is_empty());
}
