use openconfig::number::{decimal_text, decimal_text_usize, parse_u64};
use openconfig::order::text_less;
use openconfig::strmap::StrMap;
use openconfig::text::{blank, chars_of, occurs, tail_after, trimmed, white, without_trailing};

fn s(x: &str) -> String {
    x.to_string()
}

#[test]
fn decimal_texts() {
    assert_eq!(decimal_text(0), "0");
    assert_eq!(decimal_text(7), "7");
    assert_eq!(decimal_text(10), "10");
    assert_eq!(decimal_text(1234567890), "1234567890");
    assert_eq!(decimal_text(u64::MAX), "18446744073709551615");
    assert_eq!(decimal_text_usize(42), "42");
}

#[test]
fn parse_u64_like_std() {
    for t in ["0", "7", "007", "+5", "+", "", "-1", "12a", " 1", "18446744073709551615", "18446744073709551616", "99999999999999999999"] {
        assert_eq!(parse_u64(&s(t)), t.parse::<u64>().ok(), "for {t:?}");
    }
}

#[test]
fn parse_reads_back_decimal() {
    for n in [0u64, 1, 9, 10, 99, 100, 12345, u64::MAX] {
        assert_eq!(parse_u64(&decimal_text(n)), Some(n));
    }
}

#[test]
fn whitespace_like_std() {
    for c in [' ', '\t', '\n', '\r', '\u{b}', '\u{c}', '\u{85}', '\u{a0}', '\u{1680}', '\u{2000}', '\u{200a}', '\u{2028}', '\u{2029}', '\u{202f}', '\u{205f}', '\u{3000}', 'a', '0', '\u{200b}', '\u{feff}', '_'] {
        assert_eq!(white(c), c.is_whitespace(), "for {c:?}");
    }
}

#[test]
fn trim_like_std() {
    for t in ["", "  ", " a ", "\tab c\n", "x", "\u{3000}y\u{a0}"] {
        assert_eq!(trimmed(&s(t)), t.trim());
        assert_eq!(blank(&s(t)), t.trim().is_empty());
    }
}

#[test]
fn trailing_slashes() {
    assert_eq!(without_trailing(&s("http://h/v1///"), '/'), "http://h/v1");
    assert_eq!(without_trailing(&s("http://h/v1"), '/'), "http://h/v1");
    assert_eq!(without_trailing(&s("///"), '/'), "");
}

#[test]
fn occurs_like_contains() {
    for (q, t) in [("", "abc"), ("b", "abc"), ("abc", "abc"), ("abcd", "abc"), ("x", ""), ("", ""), ("bc", "abcbc"), ("cb", "abc")] {
        assert_eq!(occurs(&s(q), &s(t)), t.contains(q), "{q:?} in {t:?}");
    }
}

#[test]
fn tail_after_like_split() {
    for t in ["a-b-c", "abc", "a-", "-", "", "gpt-4o"] {
        assert_eq!(tail_after(&s(t), '-'), t.split('-').last().unwrap());
        assert_eq!(tail_after(&s(t), '-'), t.rsplit('-').next().unwrap());
    }
    assert_eq!(tail_after(&s("openai/gpt-4o"), '/'), "gpt-4o");
}

#[test]
fn chars_of_text() {
    assert_eq!(chars_of("aé✓"), vec!['a', 'é', '✓']);
}

#[test]
fn text_order_like_str_order() {
    let words = ["", "a", "b", "ab", "aa", "B", "é", "z", "provider-10", "provider-2"];
    for a in words {
        for b in words {
            assert_eq!(text_less(&s(a), &s(b)), a < b, "{a:?} < {b:?}");
        }
    }
}

#[test]
fn strmap_read_after_write() {
    let mut m: StrMap<u32> = StrMap::new();
    assert_eq!(m.len(), 0);
    assert_eq!(m.first_key(), None);
    assert_eq!(m.insert(s("b"), 2), None);
    assert_eq!(m.insert(s("a"), 1), None);
    assert_eq!(m.insert(s("c"), 3), None);
    assert_eq!(m.insert(s("b"), 20), Some(2));
    assert_eq!(m.get(&s("b")), Some(&20));
    assert_eq!(m.get(&s("a")), Some(&1));
    assert_eq!(m.get(&s("zz")), None);
    assert!(m.contains_key(&s("c")));
    assert_eq!(m.len(), 3);
    assert_eq!(m.keys(), vec![s("a"), s("b"), s("c")]);
    assert_eq!(m.first_key(), Some(s("a")));
    assert_eq!(m.key_at(1), "b");
    assert_eq!(*m.value_at(2), 3);
    assert_eq!(m.remove(&s("a")), Some(1));
    assert_eq!(m.remove(&s("a")), None);
    assert!(!m.contains_key(&s("a")));
    assert_eq!(m.first_key(), Some(s("b")));
    assert_eq!(m.keys(), vec![s("b"), s("c")]);
}
