use filterless::line_buffer::{IterDirection, LineBuffer};
use filterless::source::VecSource;

#[test]
fn test_iteration() {
    let vec: Vec<String> = vec![
        "one".to_owned(),
        "two".to_owned(),
        "three".to_owned(),
        "four".to_owned(),
    ];

    let mut line_buf = LineBuffer::new(VecSource::new(vec));

    let expected = Some((1, "one".to_owned()));
    let actual = line_buf.next();
    assert_eq!(expected, actual);

    let expected = Some((2, "two".to_owned()));
    let actual = line_buf.next();
    assert_eq!(expected, actual);

    let expected = Some((3, "three".to_owned()));
    let actual = line_buf.next();
    assert_eq!(expected, actual);

    let expected = Some((4, "four".to_owned()));
    let actual = line_buf.next();
    assert_eq!(expected, actual);

    let expected = None;
    let actual = line_buf.next();
    assert_eq!(expected, actual);
}

#[test]
fn test_seek() {
    let vec: Vec<String> = vec![
        "one".to_owned(),
        "two".to_owned(),
        "three".to_owned(),
        "four".to_owned(),
    ];

    let mut line_buf = LineBuffer::new(VecSource::new(vec));

    let expected = Some((1, "one".to_owned()));
    let actual = line_buf.next();
    assert_eq!(expected, actual);

    line_buf.seek(Some(1), Some(IterDirection::FORWARD));

    let expected = Some((1, "one".to_owned()));
    let actual = line_buf.next();
    assert_eq!(expected, actual);

    line_buf.seek(Some(4), Some(IterDirection::BACKWARD));

    let expected = Some((4, "four".to_owned()));
    let actual = line_buf.next();
    assert_eq!(expected, actual);

    let expected = Some((3, "three".to_owned()));
    let actual = line_buf.next();
    assert_eq!(expected, actual);

    let expected = Some((2, "two".to_owned()));
    let actual = line_buf.next();
    assert_eq!(expected, actual);

    let expected = Some((1, "one".to_owned()));
    let actual = line_buf.next();
    assert_eq!(expected, actual);

    let expected = None;
    let actual = line_buf.next();
    assert_eq!(expected, actual);

    line_buf.seek(Some(1), Some(IterDirection::FORWARD));

    let expected = Some((1, "one".to_owned()));
    let actual = line_buf.next();
    assert_eq!(expected, actual);
}

#[test]
fn test() {
    let vec: Vec<String> = vec![
        "one".to_owned(),
        "two".to_owned(),
        "three".to_owned(),
        "four".to_owned(),
    ];

    let mut line_buf = LineBuffer::new(VecSource::new(vec));

    let expected = Some((1, "one".to_owned()));
    let actual = line_buf.next();
    assert_eq!(expected, actual);

    let expected = Some((2, "two".to_owned()));
    let actual = line_buf.next();
    assert_eq!(expected, actual);

    let expected = Some((3, "three".to_owned()));
    let actual = line_buf.next();
    assert_eq!(expected, actual);

    let expected = Some((4, "four".to_owned()));
    let actual = line_buf.next();
    assert_eq!(expected, actual);

    let expected = None;
    let actual = line_buf.next();
    assert_eq!(expected, actual);
}

#[test]
fn test_get_pulls_and_memoizes() {
    let vec: Vec<String> = vec![
        "alpha".to_owned(),
        "beta".to_owned(),
        "gamma".to_owned(),
    ];

    let mut line_buf = LineBuffer::new(VecSource::new(vec));

    assert_eq!(line_buf.get(0), None);
    assert_eq!(line_buf.get(2), Some((2, "beta".to_owned())));
    assert_eq!(line_buf.get(1), Some((1, "alpha".to_owned())));
    assert_eq!(line_buf.get(4), None);
    assert_eq!(line_buf.get(3), Some((3, "gamma".to_owned())));
}
