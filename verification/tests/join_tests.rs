use join_lazy_fmt::Decimal;
use join_lazy_fmt::Join;
use join_lazy_fmt::Sink;
use join_lazy_fmt::Text;

fn text(s: &str) -> Text {
    Text(s.as_bytes().to_vec())
}

fn texts(items: &[&str]) -> Vec<Text> {
    items.iter().map(|s| text(s)).collect()
}

#[test]
fn joins_five_decimals_with_comma() {
    let sep = text(", ");
    let mut j = sep.join(vec![Decimal(0), Decimal(1), Decimal(2), Decimal(3), Decimal(4)]);
    let mut sink = Sink::new(1024);
    let r = j.fmt(&mut sink);
    assert!(r.is_ok());
    assert_eq!(sink.bytes(), &b"0, 1, 2, 3, 4".to_vec());
}

#[test]
fn empty_join_renders_nothing() {
    let sep = text(", ");
    let mut j = sep.join(Vec::<Decimal>::new());
    let mut sink = Sink::new(1024);
    let r = j.fmt(&mut sink);
    assert!(r.is_ok());
    assert_eq!(sink.bytes(), &b"".to_vec());
}

#[test]
fn empty_join_never_fails_even_with_no_capacity() {
    let sep = text("anything");
    let mut j = sep.join(Vec::<Text>::new());
    let mut sink = Sink::new(0);
    let r = j.fmt(&mut sink);
    assert!(r.is_ok());
    assert_eq!(sink.bytes(), &b"".to_vec());
}

#[test]
fn single_item_has_no_separator() {
    let sep = text("-");
    let mut j = sep.join(texts(&["a"]));
    let mut sink = Sink::new(16);
    let r = j.fmt(&mut sink);
    assert!(r.is_ok());
    assert_eq!(sink.bytes(), &b"a".to_vec());
}

#[test]
fn two_items_one_separator() {
    let sep = text(" | ");
    let mut j = sep.join(texts(&["left", "right"]));
    let mut sink = Sink::new(64);
    let r = j.fmt(&mut sink);
    assert!(r.is_ok());
    assert_eq!(sink.bytes(), &b"left | right".to_vec());
}

#[test]
fn second_render_is_silently_empty() {
    let sep = text(", ");
    let mut j = sep.join(texts(&["a", "b", "c"]));
    let mut first = Sink::new(64);
    assert!(j.fmt(&mut first).is_ok());
    assert_eq!(first.bytes(), &b"a, b, c".to_vec());

    let mut second = Sink::new(64);
    assert!(j.fmt(&mut second).is_ok());
    assert_eq!(second.bytes(), &b"".to_vec());
}

#[test]
fn second_render_is_empty_after_a_failure_too() {
    let sep = text(", ");
    let mut j = sep.join(texts(&["aa", "bb", "cc"]));
    let mut first = Sink::new(3);
    assert!(j.fmt(&mut first).is_err());

    let mut second = Sink::new(64);
    assert!(j.fmt(&mut second).is_ok());
    assert_eq!(second.bytes(), &b"".to_vec());
}

#[test]
fn construction_consumes_nothing() {
    let sep = text(", ");
    let items = texts(&["x", "y", "z"]);
    let mut j = sep.join(items);
    // Only now does any pull or write happen; everything is still there.
    let mut sink = Sink::new(64);
    assert!(j.fmt(&mut sink).is_ok());
    assert_eq!(sink.bytes(), &b"x, y, z".to_vec());
}

#[test]
fn failing_item_leaves_exactly_the_fragments_before_it() {
    // "aa, " fits (4 bytes), "bb" would need 6 in total but only 5 fit:
    // the second item's fragment fails, with one item and one separator
    // already on the sink.
    let sep = text(", ");
    let mut j = sep.join(texts(&["aa", "bb", "cc"]));
    let mut sink = Sink::new(5);
    let r = j.fmt(&mut sink);
    assert!(r.is_err());
    assert_eq!(sink.bytes(), &b"aa, ".to_vec());
}

#[test]
fn failing_separator_leaves_exactly_the_items_before_it() {
    // "aa, bb" fits (6 bytes), the next ", " would need 8 but only 7 fit:
    // the separator fails, with two items and one separator written.
    let sep = text(", ");
    let mut j = sep.join(texts(&["aa", "bb", "cc"]));
    let mut sink = Sink::new(7);
    let r = j.fmt(&mut sink);
    assert!(r.is_err());
    assert_eq!(sink.bytes(), &b"aa, bb".to_vec());
}

#[test]
fn failing_first_item_writes_nothing() {
    let sep = text(", ");
    let mut j = sep.join(texts(&["aaaa", "bb"]));
    let mut sink = Sink::new(3);
    let r = j.fmt(&mut sink);
    assert!(r.is_err());
    assert_eq!(sink.bytes(), &b"".to_vec());
}

#[test]
fn failure_keeps_what_was_already_on_the_sink() {
    let sep = text("-");
    let mut sink = Sink::new(6);
    assert!(sink.write(&b"head".to_vec()).is_ok());
    let mut j = sep.join(texts(&["xx", "yy"]));
    let r = j.fmt(&mut sink);
    assert!(r.is_err());
    assert_eq!(sink.bytes(), &b"headxx".to_vec());
}

#[test]
fn bounded_prefix_of_the_naturals_joins_cleanly() {
    // A join is constructed from an already-taken bounded prefix of the
    // naturals; construction is cheap and rendering drains only these.
    let sep = text(", ");
    let prefix: Vec<Decimal> = (0..3).map(Decimal).collect();
    let mut j = sep.join(prefix);
    let mut sink = Sink::new(64);
    assert!(j.fmt(&mut sink).is_ok());
    assert_eq!(sink.bytes(), &b"0, 1, 2".to_vec());
}

#[test]
fn multi_digit_decimals_join() {
    let sep = text(",");
    let mut j = sep.join(vec![Decimal(10), Decimal(12345), Decimal(u64::MAX)]);
    let mut sink = Sink::new(64);
    assert!(j.fmt(&mut sink).is_ok());
    assert_eq!(sink.bytes(), &b"10,12345,18446744073709551615".to_vec());
}
