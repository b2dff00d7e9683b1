//! Text and path primitives, held against the standard library.

use ai_write::path::{comes_before, join_path, standing, Standing};
use ai_write::text::{
    byte_len, byte_offset, char_width, chars_of, decimal_string, is_boundary, join, lines, slice,
    starts_with, text_eq, trim, white,
};
use std::path::Path;

#[test]
fn white_space_is_what_unicode_says() {
    for u in 0..=0x10ffffu32 {
        if let Some(c) = char::from_u32(u) {
            assert_eq!(white(c), c.is_whitespace(), "{u:x}");
            assert_eq!(char_width(c), c.len_utf8(), "{u:x}");
        }
    }
}

#[test]
fn texts_are_cut_as_the_standard_library_cuts_them() {
    for s in [
        "",
        "a",
        "\n",
        "a\n",
        "a\nb",
        "a\r\nb\r\n",
        "a\r",
        "\r\n\r\n",
        "  x y \t",
        "\u{3000}caf\u{e9}\u{2003}",
        "a\n\n\nb",
    ] {
        let expected: Vec<String> = s.lines().map(|l| l.to_string()).collect();
        assert_eq!(lines(s), expected, "{s:?}");
        assert_eq!(trim(s), s.trim(), "{s:?}");
        assert_eq!(byte_len(s), s.len());
        let chars: Vec<char> = s.chars().collect();
        assert_eq!(chars_of(s), chars);
        for at in 0..=s.len() + 1 {
            assert_eq!(is_boundary(s, at), s.is_char_boundary(at), "{s:?} {at}");
        }
        for (k, (at, _)) in s.char_indices().enumerate() {
            assert_eq!(byte_offset(&chars, k), at);
        }
    }
}

#[test]
fn parts_are_put_together() {
    let parts = vec!["a".to_string(), String::new(), "b".to_string()];
    assert_eq!(join(&parts, "--"), "a----b");
    assert_eq!(join(&Vec::new(), "--"), "");
    assert_eq!(slice("caf\u{e9}!", 3, 5), "\u{e9}");
    assert!(starts_with(&chars_of("data: x"), "data:"));
    assert!(!starts_with(&chars_of("dat"), "data:"));
    assert!(text_eq("\u{e9}", "\u{e9}"));
    assert!(!text_eq("e", "\u{e9}"));
}

#[test]
fn numbers_are_written_in_decimal() {
    for n in [0u64, 7, 10, 99, 100, 12345, u64::MAX] {
        assert_eq!(decimal_string(n), n.to_string());
    }
}

#[test]
fn paths_stand_as_the_standard_library_orders_them() {
    let paths = [
        "", ".", "/", "a", "a/", "./a", "a/.", "a//b", "a/b", "a/./b", "a/../b", "/a", "b", "ab",
        "a-b", "a/b.md", "t/index.json", "..",
    ];
    for a in paths {
        for b in paths {
            let expected = Path::new(a).cmp(Path::new(b));
            let found = match standing(a, b) {
                Standing::Before => std::cmp::Ordering::Less,
                Standing::Same => std::cmp::Ordering::Equal,
                Standing::After => std::cmp::Ordering::Greater,
            };
            assert_eq!(found, expected, "{a:?} {b:?}");
        }
    }
}

#[test]
fn paths_are_joined_as_the_standard_library_joins_them() {
    for (dir, name) in [
        ("t", "a.md"),
        ("t/", "a.md"),
        ("", "a.md"),
        ("t", "/abs"),
        ("t", ""),
    ] {
        assert_eq!(
            join_path(dir, name),
            Path::new(dir).join(name).to_string_lossy(),
            "{dir:?} {name:?}"
        );
    }
}

#[test]
fn texts_are_ordered_by_their_bytes() {
    for (a, b) in [("a", "b"), ("a", "ab"), ("", "a"), ("z", "\u{e9}"), ("a", "a")] {
        assert_eq!(comes_before(a, b), a < b);
        assert_eq!(comes_before(b, a), b < a);
    }
}
