use shr::path::{PathId, PathInterner};

#[test]
fn intern_gives_the_same_id_for_the_same_path() {
    let mut interner = PathInterner::new();
    let a = interner.intern("/tmp/a");
    let b = interner.intern("/tmp/b");
    let again = interner.intern("/tmp/a");
    assert_eq!(a, again);
    assert_ne!(a, b);
    assert_eq!(a.into_raw(), 1);
    assert_eq!(b.into_raw(), 2);
}

#[test]
fn intern_keeps_ids_while_the_table_grows() {
    let mut interner = PathInterner::new();
    let first = interner.intern("first");
    for i in 0..100 {
        let path = format!("entry-{i}");
        let id = interner.intern(&path);
        assert_eq!(id.into_raw(), i + 2);
    }
    assert_eq!(interner.intern("first"), first);
    assert_eq!(interner.intern("entry-41").into_raw(), 43);
    assert_eq!(interner.get(first), Some(String::from("first")));
}

#[test]
fn intern_takes_any_path() {
    let mut interner = PathInterner::new();
    let empty = interner.intern("");
    let odd = interner.intern("_never_touched_zero_");
    assert_eq!(empty.into_raw(), 1);
    assert_eq!(odd.into_raw(), 2);
    assert_eq!(interner.get(empty), Some(String::new()));
}

#[test]
fn get_resolves_known_ids_only() {
    let mut interner = PathInterner::new();
    assert_eq!(interner.get(PathId::from_raw(1)), None);
    let a = interner.intern("/tmp/a");
    assert_eq!(interner.get(a), Some(String::from("/tmp/a")));
    assert_eq!(interner.get(PathId::from_raw(2)), None);
    assert_eq!(interner.get(PathId::from_raw(usize::MAX)), None);
}

#[test]
fn raw_ids_round_trip() {
    let id = PathId::from_raw(7);
    assert_eq!(id.into_raw(), 7);
    assert_eq!(PathId::from_raw(id.into_raw()), id);
}

#[test]
fn parse_reads_positive_decimal_numbers() {
    assert_eq!(PathId::parse("1"), Some(PathId::from_raw(1)));
    assert_eq!(PathId::parse("42"), Some(PathId::from_raw(42)));
    assert_eq!(PathId::parse("+42"), Some(PathId::from_raw(42)));
    assert_eq!(PathId::parse("007"), Some(PathId::from_raw(7)));
    let max = usize::MAX.to_string();
    assert_eq!(PathId::parse(&max), Some(PathId::from_raw(usize::MAX)));
}

#[test]
fn parse_refuses_everything_else() {
    assert_eq!(PathId::parse(""), None);
    assert_eq!(PathId::parse("+"), None);
    assert_eq!(PathId::parse("0"), None);
    assert_eq!(PathId::parse("000"), None);
    assert_eq!(PathId::parse("+0"), None);
    assert_eq!(PathId::parse("-1"), None);
    assert_eq!(PathId::parse("++1"), None);
    assert_eq!(PathId::parse("1 "), None);
    assert_eq!(PathId::parse(" 1"), None);
    assert_eq!(PathId::parse("12a"), None);
    assert_eq!(PathId::parse("a12"), None);
    assert_eq!(PathId::parse("1.5"), None);
    assert_eq!(PathId::parse("١٢"), None);
    let mut too_big = usize::MAX.to_string();
    too_big.push('0');
    assert_eq!(PathId::parse(&too_big), None);
    let digits = usize::MAX.to_string();
    let (head, last) = digits.split_at(digits.len() - 1);
    let next = format!("{head}{}", last.parse::<u8>().unwrap() + 1);
    assert_eq!(PathId::parse(&next), None);
}

#[test]
fn parse_agrees_with_the_standard_parser() {
    let words = [
        "", "+", "-", "0", "1", "9", "10", "+10", "-10", "00012", "18446744073709551615",
        "18446744073709551616", "99999999999999999999999", "4294967295", "4294967296", "１２",
        "12_3", "0x10", "+ 1", "1+",
    ];
    for word in words {
        let expected = word.parse::<std::num::NonZeroUsize>().ok().map(|n| n.get());
        assert_eq!(PathId::parse(word).map(|id| id.into_raw()), expected, "{word:?}");
    }
}
