use join_lazy_fmt::Decimal;
use join_lazy_fmt::Render;
use join_lazy_fmt::Sink;
use join_lazy_fmt::Text;
use join_lazy_fmt::WriteError;
use join_lazy_fmt::render::decimal_bytes;

#[test]
fn writes_accumulate_in_order() {
    let mut sink = Sink::new(16);
    assert!(sink.write(&b"ab".to_vec()).is_ok());
    assert!(sink.write(&b"cd".to_vec()).is_ok());
    assert_eq!(sink.bytes(), &b"abcd".to_vec());
}

#[test]
fn a_write_that_does_not_fit_is_refused_whole() {
    let mut sink = Sink::new(3);
    assert!(sink.write(&b"ab".to_vec()).is_ok());
    assert_eq!(sink.write(&b"cd".to_vec()), Err(WriteError));
    assert_eq!(sink.bytes(), &b"ab".to_vec());
}

#[test]
fn a_write_that_exactly_fills_the_sink_succeeds() {
    let mut sink = Sink::new(4);
    assert!(sink.write(&b"full".to_vec()).is_ok());
    assert_eq!(sink.bytes(), &b"full".to_vec());
    assert_eq!(sink.write(&b"x".to_vec()), Err(WriteError));
}

#[test]
fn empty_writes_always_succeed() {
    let mut sink = Sink::new(0);
    assert!(sink.write(&b"".to_vec()).is_ok());
    assert_eq!(sink.bytes(), &b"".to_vec());
}

#[test]
fn text_renders_its_bytes() {
    let t = Text(b"plain".to_vec());
    let mut sink = Sink::new(8);
    assert!(t.fmt(&mut sink).is_ok());
    assert_eq!(sink.bytes(), &b"plain".to_vec());
}

#[test]
fn decimal_digits_are_exact() {
    assert_eq!(decimal_bytes(0), b"0".to_vec());
    assert_eq!(decimal_bytes(7), b"7".to_vec());
    assert_eq!(decimal_bytes(10), b"10".to_vec());
    assert_eq!(decimal_bytes(42), b"42".to_vec());
    assert_eq!(decimal_bytes(12345), b"12345".to_vec());
    assert_eq!(decimal_bytes(u64::MAX), b"18446744073709551615".to_vec());
}

#[test]
fn decimal_renders_like_its_digits() {
    let d = Decimal(90210);
    let mut sink = Sink::new(8);
    assert!(d.fmt(&mut sink).is_ok());
    assert_eq!(sink.bytes(), &b"90210".to_vec());
}
