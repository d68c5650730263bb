use fast_string::{FastString, InvalidIndex};

#[test]
fn empty_string_is_inline() {
    let v = FastString::from("");
    assert_eq!(v.as_str(), "");
    assert!(v.is_empty());
    assert_eq!(v.len(), 0);
    assert!(!v.is_large());
}

#[test]
fn new_and_default_are_empty() {
    let v = FastString::new();
    assert_eq!(v.as_str(), "");
    assert!(!v.is_large());
    let d = FastString::default();
    assert_eq!(d.as_str(), "");
    assert!(!d.is_large());
}

#[test]
fn short_text_stays_inline_through_append() {
    let mut v = FastString::from("hello");
    assert!(!v.is_large());
    v.push_str(" world");
    assert_eq!(v.as_str(), "hello world");
    assert!(!v.is_large());
}

#[test]
fn text_above_threshold_is_shared() {
    let text = "abcdefghijklmnopqrstuvwxy";
    assert_eq!(text.len(), 25);
    let v = FastString::from(text);
    assert!(v.is_large());
    assert_eq!(v.as_str(), text);
}

#[test]
fn boundary_sizes_around_threshold() {
    let at = "abcdefghijklmnopqrstuvw";
    assert_eq!(at.len(), 23);
    let v = FastString::from(at);
    assert!(!v.is_large());
    assert_eq!(v.as_str(), at);

    let above = "abcdefghijklmnopqrstuvwx";
    assert_eq!(above.len(), 24);
    let w = FastString::from(above);
    assert!(w.is_large());
    assert_eq!(w.as_str(), above);
}

#[test]
fn append_crosses_threshold_once() {
    let mut v = FastString::from("abcdefghijklmnopqrstuvw");
    assert_eq!(v.len(), 23);
    assert!(!v.is_large());
    v.push('x');
    assert!(v.is_large());
    assert_eq!(v.as_str(), "abcdefghijklmnopqrstuvwx");
    v.push('y');
    assert!(v.is_large());
    assert_eq!(v.as_str(), "abcdefghijklmnopqrstuvwxy");
}

#[test]
fn content_equivalence_from_as_text() {
    let cases: Vec<&str> = vec![
        "",
        "a",
        "hello",
        "abcdefghijklmnopqrstuvw",
        "abcdefghijklmnopqrstuvwx",
        "Grüße, Jürgen! Στα ελληνικά 中文 𝄞 music",
    ];
    for s in cases {
        let v = FastString::from(s);
        assert_eq!(v.as_str(), s);
        assert_eq!(v.len(), s.len());
    }
}

#[test]
fn append_equivalence_concrete() {
    let cases: Vec<(&str, &str)> = vec![
        ("", ""),
        ("", "abc"),
        ("abc", ""),
        ("hello", " world"),
        ("ab", "中文?"),
        ("abcdefghijklmnopqrs", "tuvwxyz expanding past the inline array"),
    ];
    for (a, b) in cases {
        let mut v = FastString::from(a);
        v.push_str(b);
        let mut expect = String::from(a);
        expect.push_str(b);
        assert_eq!(v.as_str(), expect.as_str());
    }
}

#[test]
fn push_multibyte_chars() {
    let mut v = FastString::new();
    v.push('a');
    v.push('é');
    v.push('中');
    v.push('𝄞');
    assert_eq!(v.as_str(), "aé中𝄞");
    assert_eq!(v.len(), 1 + 2 + 3 + 4);
}

#[test]
fn remove_multibyte_char_mid_string() {
    let mut v = FastString::from("ab中cd");
    let c = v.remove(2);
    assert_eq!(c, '中');
    assert_eq!(v.as_str(), "abcd");
    assert_eq!(v.len(), 4);
}

#[test]
fn remove_returns_char_at_byte_index() {
    let mut v = FastString::from("aé中𝄞z");
    assert_eq!(v.remove(1), 'é');
    assert_eq!(v.as_str(), "a中𝄞z");
    assert_eq!(v.remove(1), '中');
    assert_eq!(v.as_str(), "a𝄞z");
    assert_eq!(v.remove(1), '𝄞');
    assert_eq!(v.as_str(), "az");
    assert_eq!(v.remove(1), 'z');
    assert_eq!(v.as_str(), "a");
    assert_eq!(v.remove(0), 'a');
    assert_eq!(v.as_str(), "");
}

#[test]
fn try_remove_rejects_non_boundary() {
    let mut v = FastString::from("a中b");
    let before = String::from(v.as_str());
    assert_eq!(v.try_remove(2), Err(InvalidIndex));
    assert_eq!(v.as_str(), before.as_str());
    assert_eq!(v.try_remove(3), Err(InvalidIndex));
    assert_eq!(v.as_str(), before.as_str());
}

#[test]
fn try_remove_rejects_end_and_past_end() {
    let mut v = FastString::from("ab");
    assert_eq!(v.try_remove(2), Err(InvalidIndex));
    assert_eq!(v.try_remove(100), Err(InvalidIndex));
    assert_eq!(v.as_str(), "ab");
    let mut e = FastString::new();
    assert_eq!(e.try_remove(0), Err(InvalidIndex));
}

#[test]
fn try_remove_accepts_boundary() {
    let mut v = FastString::from("a中b");
    assert_eq!(v.try_remove(1), Ok('中'));
    assert_eq!(v.as_str(), "ab");
}

#[test]
fn clone_independence_small() {
    let v1 = FastString::from("hello");
    let mut v2 = v1.clone();
    v2.push_str(" world");
    assert_eq!(v1.as_str(), "hello");
    assert_eq!(v2.as_str(), "hello world");
}

#[test]
fn clone_independence_shared_append() {
    let text = "a long string that certainly does not fit inline";
    let v1 = FastString::from(text);
    assert!(v1.is_large());
    let mut v2 = v1.clone();
    v2.push_str("x");
    assert_eq!(v1.as_str(), text);
    let mut expect = String::from(text);
    expect.push('x');
    assert_eq!(v2.as_str(), expect.as_str());
}

#[test]
fn clone_independence_both_directions() {
    let text = "another long string that certainly does not fit inline";
    let mut v1 = FastString::from(text);
    let mut v2 = v1.clone();
    v1.push_str("1");
    v2.push_str("2");
    let mut e1 = String::from(text);
    e1.push('1');
    let mut e2 = String::from(text);
    e2.push('2');
    assert_eq!(v1.as_str(), e1.as_str());
    assert_eq!(v2.as_str(), e2.as_str());
}

#[test]
fn clone_independence_shared_remove() {
    let text = "remove from one clone and the other keeps its text";
    let v1 = FastString::from(text);
    let mut v2 = v1.clone();
    let c = v2.remove(0);
    assert_eq!(c, 'r');
    assert_eq!(v1.as_str(), text);
    assert_eq!(v2.as_str(), &text[1..]);
}

#[test]
fn repeated_view_is_identical() {
    let v = FastString::from("some words to look at twice");
    let a = String::from(v.as_str());
    let b = String::from(v.as_str());
    assert_eq!(a, b);
    assert_eq!(a.as_bytes(), b.as_bytes());
}

#[test]
fn equality_ignores_storage_class() {
    // Build "short" in large storage by removing from a long string.
    let mut big = FastString::from("0123456789abcdefghijklmnopqrstuv");
    assert!(big.is_large());
    while big.len() > 5 {
        big.remove(5);
    }
    assert!(big.is_large());
    assert_eq!(big.as_str(), "01234");
    let small = FastString::from("01234");
    assert!(!small.is_large());
    assert!(big == small);
    assert!(small == big);
    let other = FastString::from("01235");
    assert!(big != other);
}

#[test]
fn no_demotion_after_shrinking() {
    let mut v = FastString::from("a string above the inline threshold");
    assert!(v.is_large());
    while !v.is_empty() {
        v.remove(0);
    }
    assert!(v.is_large());
    assert_eq!(v.as_str(), "");
    assert!(v.is_empty());
}

#[test]
fn growth_after_promotion_appends() {
    let mut v = FastString::new();
    let mut expect = String::new();
    for i in 0..200 {
        let piece = format!("{}-", i);
        v.push_str(piece.as_str());
        expect.push_str(piece.as_str());
        assert_eq!(v.as_str(), expect.as_str());
    }
    assert!(v.is_large());
}

#[test]
fn remove_every_char_matches_std() {
    let mut v = FastString::from("aé中𝄞zÿ𝄢w");
    let mut s = String::from("aé中𝄞zÿ𝄢w");
    while !s.is_empty() {
        let idx = s.len() / 2;
        let mut at = idx;
        while !s.is_char_boundary(at) {
            at -= 1;
        }
        let expect = s.remove(at);
        let got = v.remove(at);
        assert_eq!(got, expect);
        assert_eq!(v.as_str(), s.as_str());
    }
}
