use pipemeeter_core::bytes::little_bytes;
use pipemeeter_core::order::{self, Key};
use pipemeeter_core::props;
use pipemeeter_core::single::Single;
use pipemeeter_core::table::Table;
use pipemeeter_core::text::{
    chars_of, comes_before, contains, find, join, lines_of, lists, number, pad_left, pad_right,
    parse_i32, parse_u32, replace, signed_number, split, string_of, string_together, to_small,
    trim, Trim,
};

fn chars(s: &str) -> Vec<char> {
    chars_of(s)
}

fn strings(list: Vec<Vec<char>>) -> Vec<String> {
    list.iter().map(|l| string_of(l)).collect()
}

#[test]
fn lines_are_split_as_the_standard_library_does() {
    for text in ["", "a", "a\n", "a\nb", "a\r\nb\r", "\n\n", "a\n\nb\n", "\r\n"] {
        let expected: Vec<&str> = text.lines().collect();
        assert_eq!(strings(lines_of(&chars(text))), expected, "{text:?}");
    }
}

#[test]
fn pieces_are_split_as_the_standard_library_does() {
    for text in ["", ",", "a", "a,b", ",a,,b,"] {
        let expected: Vec<&str> = text.split(',').collect();
        assert_eq!(strings(split(&chars(text), ',')), expected, "{text:?}");
    }
}

#[test]
fn numbers_are_read_as_the_standard_library_does() {
    for text in [
        "", "0", "007", "+5", "-5", "-0", "4294967295", "4294967296", "2147483647", "2147483648",
        "-2147483648", "-2147483649", "+", "-", "+-5", "5 ", "0x5", "99999999999999999999999",
    ] {
        assert_eq!(parse_u32(&chars(text)), text.parse::<u32>().ok(), "{text:?}");
        assert_eq!(parse_i32(&chars(text)), text.parse::<i32>().ok(), "{text:?}");
    }
}

#[test]
fn numbers_are_written_as_the_standard_library_does() {
    for n in [0u64, 7, 10, 48_000, u64::MAX] {
        assert_eq!(number(n), format!("{n}"));
    }
    for n in [0i64, -1, 32, -32, i64::MAX, i64::MIN + 1] {
        assert_eq!(signed_number(n), format!("{n}"));
    }
}

#[test]
fn white_space_is_what_unicode_says() {
    for text in ["  a ", "\u{85}\u{a0}a\u{3000}", "\u{200b}a", "\t\r\n", "", "a\u{1680}"] {
        assert_eq!(string_of(trim(&chars(text), Trim::Space)), text.trim(), "{text:?}");
    }
    for n in 0..=0x10ffffu32 {
        if let Some(c) = char::from_u32(n) {
            let kept = trim(&[c], Trim::Space).len();
            assert_eq!(kept == 0, c.is_whitespace(), "{n:x}");
        }
    }
    assert_eq!(string_of(trim(&chars("\"a\"\""), Trim::Just('"'))), "a");
}

#[test]
fn searching_finds_the_first() {
    assert_eq!(find(&chars("abcabc"), &chars("bc")), Some(1));
    assert_eq!(find(&chars("abc"), &chars("")), Some(0));
    assert_eq!(find(&chars("ab"), &chars("abc")), None);
    assert_eq!(find(&chars(""), &chars("")), Some(0));
    assert!(contains(&chars("pipemeter"), &chars("meter")));
    assert_eq!(replace(&chars("$H/$H$"), &chars("$H"), "x"), "$H/$H$".replace("$H", "x"));
    assert_eq!(replace(&chars("aaa"), &chars("aa"), "b"), "ba");
}

#[test]
fn paths_are_joined_as_the_standard_library_does() {
    for (dir, name) in [("/a", "b"), ("/a/", "b"), ("", "b"), ("/a", "/b"), ("a", "")] {
        let expected = std::path::Path::new(dir).join(name);
        assert_eq!(join(dir, name), expected.to_str().unwrap(), "{dir:?} {name:?}");
    }
}

#[test]
fn texts_are_ordered_as_the_standard_library_does() {
    for a in ["", "a", "b", "ab", "B", "\u{e4}", "\u{10000}", "\u{ffff}"] {
        for b in ["", "a", "b", "ab", "B", "\u{e4}", "\u{10000}", "\u{ffff}"] {
            assert_eq!(comes_before(a, b), a < b, "{a:?} {b:?}");
        }
    }
    assert_eq!(to_small("AbZ[\u{c4}"), "AbZ[\u{c4}".to_ascii_lowercase());
}

#[test]
fn padding_stops_at_the_width() {
    assert_eq!(pad_left("12", 5), "   12");
    assert_eq!(pad_right("sink", 6), "sink  ");
    assert_eq!(pad_left("123456", 5), "123456");
}

#[test]
fn lists_of_texts_are_strung_together() {
    let list = vec!["a".to_owned(), "b".to_owned()];
    assert_eq!(string_together(&list, " "), "a b");
    assert_eq!(string_together(&Vec::new(), " "), "");
    assert!(lists(&list, "b") && !lists(&list, "c"));
}

#[test]
fn sorting_keeps_equals_in_order() {
    let key = |late, text: &str| Key {
        late,
        text: text.to_owned(),
    };
    let keys = vec![key(true, "a"), key(false, "b"), key(false, "a"), key(false, "b")];
    assert_eq!(order::order(&keys), vec![2, 1, 3, 0]);
    assert_eq!(order::sort(vec![0, 1, 2, 3], &keys), vec![2, 1, 3, 0]);
}

#[test]
fn a_table_keeps_its_keys_once_and_in_order() {
    let mut table: Table<String, u32> = Table::new();
    table.insert("b".to_owned(), 1);
    table.insert("a".to_owned(), 2);
    table.insert("b".to_owned(), 3);
    assert_eq!(table.len(), 2);
    assert_eq!(table.entry(0), &("b".to_owned(), 3));
    assert_eq!(table.get(&"a".to_owned()), Some(&2));
    assert_eq!(table.sift(&vec![false, true]), vec![("a".to_owned(), 2)]);
    assert_eq!(table.remove(&"b".to_owned()), Some(3));
    assert!(!table.contains(&"b".to_owned()));
    table.insert("c".to_owned(), 4);
    table.clear();
    assert_eq!(table.len(), 0);
}

#[test]
fn the_first_property_of_a_name_counts() {
    let mut list = props::none();
    props::put(&mut list, "k", "1");
    props::put(&mut list, "k", "2");
    assert_eq!(props::get(&list, "k").map(String::as_str), Some("1"));
    assert_eq!(props::get(&list, "j"), None);
}

#[test]
fn singles_compare_as_floats_do() {
    let values = [
        0.0f32,
        -0.0,
        1.0,
        -1.0,
        0.5,
        f32::MIN_POSITIVE,
        f32::MAX,
        f32::INFINITY,
        f32::NEG_INFINITY,
        f32::NAN,
        -f32::NAN,
    ];
    for a in values {
        let x = Single { bits: a.to_bits() };
        assert_eq!(f32::from_bits(x.abs().bits).to_bits(), a.abs().to_bits());
        assert_eq!(
            x.clamp_unit().bits,
            a.clamp(0.0, 1.0).to_bits(),
            "{a}"
        );
        for b in values {
            let y = Single { bits: b.to_bits() };
            assert_eq!(x.is_at_most(y), a <= b, "{a} {b}");
        }
    }
}

#[test]
fn numbers_are_laid_out_lowest_byte_first() {
    assert_eq!(little_bytes(0x0102_0304, 4), vec![4, 3, 2, 1]);
    assert_eq!(little_bytes(0x0102_0304, 2), vec![4, 3]);
    assert_eq!(little_bytes(5, 0), Vec::<u8>::new());
}

#[test]
fn a_written_number_is_read_back() {
    for n in [0u32, 7, 48_000, u32::MAX] {
        assert_eq!(parse_u32(&chars(&number(u64::from(n)))), Some(n));
    }
}

#[test]
fn clamping_again_changes_nothing() {
    for value in [-1.0f32, 0.25, 3.0, f32::NAN] {
        let once = Single { bits: value.to_bits() }.clamp_unit();
        assert_eq!(once.clamp_unit(), once);
    }
}
