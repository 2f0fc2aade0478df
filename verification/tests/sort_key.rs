use egui_detail_view::sort_key::bytes_come_before;
use egui_detail_view::SortKey;

fn text(s: &str) -> SortKey {
    SortKey::Value(s.as_bytes().to_vec())
}

#[test]
fn bytes_order_is_lexicographic() {
    assert!(bytes_come_before(b"Bar", b"Foo"));
    assert!(!bytes_come_before(b"Foo", b"Bar"));
    assert!(bytes_come_before(b"abc", b"abd"));
    assert!(bytes_come_before(b"ab", b"b"));
    assert!(!bytes_come_before(b"b", b"ab"));
}

#[test]
fn bytes_order_puts_a_prefix_first() {
    assert!(bytes_come_before(b"Foo", b"Food"));
    assert!(!bytes_come_before(b"Food", b"Foo"));
    assert!(bytes_come_before(b"", b"a"));
    assert!(!bytes_come_before(b"a", b""));
}

#[test]
fn bytes_order_is_strict() {
    assert!(!bytes_come_before(b"Foo", b"Foo"));
    assert!(!bytes_come_before(b"", b""));
}

#[test]
fn bytes_order_compares_unsigned() {
    assert!(bytes_come_before(&[0x7f], &[0x80]));
    assert!(bytes_come_before(&[0x00, 0xff], &[0x01]));
    assert!(!bytes_come_before(&[0xff], &[0x00, 0xff]));
}

#[test]
fn bytes_order_agrees_with_the_order_of_strings() {
    let words = ["", "Bar", "Baz", "Foo", "Foo ", "bar", "é", "日本"];
    for a in words {
        for b in words {
            assert_eq!(bytes_come_before(a.as_bytes(), b.as_bytes()), a < b, "{a:?} {b:?}");
        }
    }
}

#[test]
fn absent_key_comes_before_every_value() {
    assert!(SortKey::Absent.comes_before(&text("")));
    assert!(SortKey::Absent.comes_before(&text("Foo")));
    assert!(!text("").comes_before(&SortKey::Absent));
    assert!(!text("Foo").comes_before(&SortKey::Absent));
}

#[test]
fn absent_keys_rank_equal() {
    assert!(!SortKey::Absent.comes_before(&SortKey::Absent));
}

#[test]
fn value_keys_go_by_their_bytes() {
    assert!(text("Bar").comes_before(&text("Foo")));
    assert!(!text("Foo").comes_before(&text("Bar")));
    assert!(!text("Foo").comes_before(&text("Foo")));
}

#[test]
fn key_order_agrees_with_the_order_of_options() {
    let keys: Vec<Option<Vec<u8>>> =
        vec![None, Some(vec![]), Some(vec![0]), Some(vec![0, 0]), Some(vec![1]), Some(vec![255])];
    for a in &keys {
        for b in &keys {
            let ka = a.clone().map_or(SortKey::Absent, SortKey::Value);
            let kb = b.clone().map_or(SortKey::Absent, SortKey::Value);
            assert_eq!(ka.comes_before(&kb), a < b);
        }
    }
}
