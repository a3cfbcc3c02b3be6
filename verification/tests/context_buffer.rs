use filterless::context_buffer::ContextBuffer;
use filterless::filtered::{FilterPredicate, FilteredLine};
use filterless::line_buffer::LineBuffer;
use filterless::source::VecSource;

#[test]
fn context_buffer_test1() {
    let lines: Vec<String> = vec![
        "none".to_owned(),
        "ctx".to_owned(),
        "ctx".to_owned(),
        "match".to_owned(),
        "ctx".to_owned(),
        "ctx".to_owned(),
        "none".to_owned(),
        "none".to_owned(),
        "ctx".to_owned(),
        "ctx".to_owned(),
        "match".to_owned(),
        "ctx".to_owned(),
    ];
    let context_lines = 2;
    let filter_string = "match".to_owned();
    let line_buf = LineBuffer::new(VecSource::new(lines));

    let pred = FilterPredicate {
        filter_string: filter_string,
        context_lines: context_lines,
    };
    let mut cb = ContextBuffer::new(Some(pred), line_buf);

    let e0 = cb.next();
    assert!(e0 == Some(FilteredLine::Gap));
    let e1 = cb.next();
    assert!(e1 == Some(FilteredLine::ContextLine((2, String::from("ctx")))));
    let e2 = cb.next();
    assert!(e2 == Some(FilteredLine::ContextLine((3, String::from("ctx")))));
    let e3 = cb.next();
    assert!(e3 == Some(FilteredLine::MatchLine((4, String::from("match")))));
    let e4 = cb.next();
    assert!(e4 == Some(FilteredLine::ContextLine((5, String::from("ctx")))));
    let e5 = cb.next();
    assert!(e5 == Some(FilteredLine::ContextLine((6, String::from("ctx")))));
    let e6 = cb.next();
    assert!(e6 == Some(FilteredLine::Gap));
    let e7 = cb.next();
    assert!(e7 == Some(FilteredLine::ContextLine((9, String::from("ctx")))));
    let e8 = cb.next();
    assert!(e8 == Some(FilteredLine::ContextLine((10, String::from("ctx")))));
    let e9 = cb.next();
    assert!(e9 == Some(FilteredLine::MatchLine((11, String::from("match")))));
    let e10 = cb.next();
    assert!(e10 == Some(FilteredLine::ContextLine((12, String::from("ctx")))));
}

#[test]
fn context_buffer_test2() {
    let lines: Vec<String> = vec![
        "match".to_owned(),
        "match".to_owned(),
        "none".to_owned(),
        "match".to_owned(),
        "none".to_owned(),
    ];
    let context_lines = 0;
    let filter_string = "match".to_owned();
    let line_buf = LineBuffer::new(VecSource::new(lines));

    let pred = FilterPredicate {
        filter_string: filter_string,
        context_lines: context_lines,
    };
    let mut cb = ContextBuffer::new(Some(pred), line_buf);

    let e0 = cb.next();
    println!("{:?}", e0);
    assert!(e0 == Some(FilteredLine::MatchLine((1, String::from("match")))));
    let e1 = cb.next();
    assert!(e1 == Some(FilteredLine::MatchLine((2, String::from("match")))));
    let e2 = cb.next();
    assert!(e2 == Some(FilteredLine::Gap));
    let e3 = cb.next();
    assert!(e3 == Some(FilteredLine::MatchLine((4, String::from("match")))));
    let e4 = cb.next();
    assert!(e4 == None);
}

#[test]
fn context_buffer_test3() {
    let lines: Vec<String> = vec![
        "one".to_owned(),
        "two".to_owned(),
        "three".to_owned(),
    ];
    let line_buf = LineBuffer::new(VecSource::new(lines));

    let mut cb = ContextBuffer::new(None, line_buf);

    let e1 = cb.next();
    println!("{:?}", e1);
    assert!(e1 == Some(FilteredLine::UnfilteredLine((1, String::from("one")))));
    let e2 = cb.next();
    assert!(e2 == Some(FilteredLine::UnfilteredLine((2, String::from("two")))));
    let e3 = cb.next();
    assert!(e3 == Some(FilteredLine::UnfilteredLine((3, String::from("three")))));
    let e4 = cb.next();
    assert!(e4 == None);
    let e5 = cb.next();
    assert!(e5 == None);
}

#[test]
fn test_multiple_context_buffers() {
    let lines: Vec<String> = vec![
        "one".to_owned(),
        "two".to_owned(),
        "three".to_owned(),
    ];
    let line_buf = LineBuffer::new(VecSource::new(lines));

    let mb = line_buf;
    let cb = ContextBuffer::new(None, mb);

    let mb2 = cb.into_line_buffer();
    let _ = ContextBuffer::new(None, mb2);
}

#[test]
fn test_groups_touching_have_no_gap() {
    // Two matches exactly 2 * context_lines + 2 apart: their context
    // groups touch, so no gap marker stands between them.
    let lines: Vec<String> = vec![
        "match".to_owned(),
        "ctx".to_owned(),
        "ctx".to_owned(),
        "match".to_owned(),
    ];
    let pred = FilterPredicate {
        filter_string: "match".to_owned(),
        context_lines: 1,
    };
    let line_buf = LineBuffer::new(VecSource::new(lines));
    let mut cb = ContextBuffer::new(Some(pred), line_buf);

    assert!(cb.next() == Some(FilteredLine::MatchLine((1, String::from("match")))));
    assert!(cb.next() == Some(FilteredLine::ContextLine((2, String::from("ctx")))));
    assert!(cb.next() == Some(FilteredLine::ContextLine((3, String::from("ctx")))));
    assert!(cb.next() == Some(FilteredLine::MatchLine((4, String::from("match")))));
    assert!(cb.next() == None);
}

#[test]
fn test_separated_groups_have_one_gap() {
    // Two matches more than 2 * context_lines + 1 apart: exactly one
    // gap marker stands between the two context groups.
    let lines: Vec<String> = vec![
        "match".to_owned(),
        "ctx".to_owned(),
        "none".to_owned(),
        "ctx".to_owned(),
        "match".to_owned(),
    ];
    let pred = FilterPredicate {
        filter_string: "match".to_owned(),
        context_lines: 1,
    };
    let line_buf = LineBuffer::new(VecSource::new(lines));
    let mut cb = ContextBuffer::new(Some(pred), line_buf);

    assert!(cb.next() == Some(FilteredLine::MatchLine((1, String::from("match")))));
    assert!(cb.next() == Some(FilteredLine::ContextLine((2, String::from("ctx")))));
    assert!(cb.next() == Some(FilteredLine::Gap));
    assert!(cb.next() == Some(FilteredLine::ContextLine((4, String::from("ctx")))));
    assert!(cb.next() == Some(FilteredLine::MatchLine((5, String::from("match")))));
    assert!(cb.next() == None);
}

#[test]
fn test_empty_filter_string_means_no_predicate() {
    // A predicate with an empty filter string is invalid input and is
    // treated as "no predicate": every line comes back unfiltered.
    let lines: Vec<String> = vec!["one".to_owned(), "two".to_owned()];
    let pred = FilterPredicate {
        filter_string: String::new(),
        context_lines: 3,
    };
    let line_buf = LineBuffer::new(VecSource::new(lines));
    let mut cb = ContextBuffer::new(Some(pred), line_buf);

    assert!(cb.next() == Some(FilteredLine::UnfilteredLine((1, String::from("one")))));
    assert!(cb.next() == Some(FilteredLine::UnfilteredLine((2, String::from("two")))));
    assert!(cb.next() == None);
}

#[test]
fn test_empty_source() {
    let lines: Vec<String> = Vec::new();
    let pred = FilterPredicate {
        filter_string: "x".to_owned(),
        context_lines: 2,
    };
    let line_buf = LineBuffer::new(VecSource::new(lines));
    let mut cb = ContextBuffer::new(Some(pred), line_buf);
    assert!(cb.next() == None);
    assert!(cb.next() == None);

    let lines: Vec<String> = Vec::new();
    let line_buf = LineBuffer::new(VecSource::new(lines));
    let mut cb = ContextBuffer::new(None, line_buf);
    assert!(cb.next() == None);
}

#[test]
fn test_no_matches_anywhere() {
    // A predicate that matches nothing classifies every line away:
    // the stream is empty, with no gap marker at all.
    let lines: Vec<String> = vec![
        "one".to_owned(),
        "two".to_owned(),
        "three".to_owned(),
    ];
    let pred = FilterPredicate {
        filter_string: "zzz".to_owned(),
        context_lines: 1,
    };
    let line_buf = LineBuffer::new(VecSource::new(lines));
    let mut cb = ContextBuffer::new(Some(pred), line_buf);
    assert!(cb.next() == None);
}
