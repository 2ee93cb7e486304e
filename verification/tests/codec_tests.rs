//! Tests of the encoded-field codecs and the entry layer.

use twilia::codec::decode_ids;
use twilia::codec::encode_ids;
use twilia::codec::str_eq;
use twilia::entries::encode_entry;
use twilia::entries::parse_entry;
use twilia::strcodec::decode_strs;
use twilia::strcodec::encode_strs;

#[test]
fn encode_ids_basic() {
    assert_eq!(encode_ids(&vec![1, 2, 3]), "[1,2,3]");
    assert_eq!(encode_ids(&vec![]), "[]");
    assert_eq!(encode_ids(&vec![-5]), "[-5]");
    assert_eq!(encode_ids(&vec![0]), "[0]");
    assert_eq!(
        encode_ids(&vec![i64::MAX, i64::MIN]),
        "[9223372036854775807,-9223372036854775808]"
    );
}

#[test]
fn decode_ids_roundtrip() {
    let cases: Vec<Vec<i64>> = vec![
        vec![],
        vec![0],
        vec![7],
        vec![-1, 2, -3],
        vec![i64::MAX, i64::MIN, 42],
    ];
    for ids in cases {
        let tok = encode_ids(&ids);
        assert_eq!(decode_ids(&tok), Some(ids));
    }
}

#[test]
fn decode_ids_rejects_noncanonical() {
    assert_eq!(decode_ids(""), None);
    assert_eq!(decode_ids("[1,2"), None);
    assert_eq!(decode_ids("1,2]"), None);
    assert_eq!(decode_ids("[01]"), None);
    assert_eq!(decode_ids("[1, 2]"), None);
    assert_eq!(decode_ids("[-0]"), None);
    assert_eq!(decode_ids("[1,]"), None);
    assert_eq!(decode_ids("[a]"), None);
    assert_eq!(decode_ids("[9223372036854775808]"), None);
}

#[test]
fn decode_ids_accepts_plain_tokens() {
    assert_eq!(decode_ids("[]"), Some(vec![]));
    assert_eq!(decode_ids("[5]"), Some(vec![5]));
    assert_eq!(decode_ids("[1,2]"), Some(vec![1, 2]));
}

#[test]
fn encode_strs_basic() {
    let items: Vec<String> = vec!["a".to_string(), "b".to_string()];
    assert_eq!(encode_strs(&items), "[a,b,]");
    let empty: Vec<String> = vec![];
    assert_eq!(encode_strs(&empty), "[]");
    let one_empty: Vec<String> = vec![String::new()];
    assert_eq!(encode_strs(&one_empty), "[,]");
}

#[test]
fn strs_roundtrip_with_special_characters() {
    let cases: Vec<Vec<String>> = vec![
        vec![],
        vec![String::new()],
        vec!["plain".to_string()],
        vec!["with,comma".to_string(), "with\\slash".to_string()],
        vec!["a,b\\c,,".to_string(), String::new(), "[x]".to_string()],
    ];
    for items in cases {
        let tok = encode_strs(&items);
        assert_eq!(decode_strs(&tok), Some(items));
    }
}

#[test]
fn decode_strs_rejects_noncanonical() {
    assert_eq!(decode_strs(""), None);
    assert_eq!(decode_strs("[a]"), None);
    assert_eq!(decode_strs("[a,b]"), None);
    assert_eq!(decode_strs("a,"), None);
    assert_eq!(decode_strs("[\\x,]"), None);
}

#[test]
fn entry_roundtrip() {
    assert_eq!(encode_entry(5, "999"), "5:999");
    let parsed = parse_entry("5:999");
    assert_eq!(parsed, Some((5, "999".to_string())));
    assert_eq!(parse_entry("5:a:b"), Some((5, "a:b".to_string())));
    assert_eq!(parse_entry("-3:x"), Some((-3, "x".to_string())));
    assert_eq!(parse_entry("7:"), Some((7, String::new())));
}

#[test]
fn entry_rejects_malformed() {
    assert_eq!(parse_entry("abc"), None);
    assert_eq!(parse_entry("05:1"), None);
    assert_eq!(parse_entry(":v"), None);
    assert_eq!(parse_entry(""), None);
}

#[test]
fn str_eq_compares_by_characters() {
    assert!(str_eq("", ""));
    assert!(str_eq("abc", "abc"));
    assert!(!str_eq("abc", "abd"));
    assert!(!str_eq("abc", "ab"));
    assert!(str_eq("日本語", "日本語"));
    assert!(!str_eq("日本語", "日本誤"));
}
