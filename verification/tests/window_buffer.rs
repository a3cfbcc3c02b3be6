use filterless::filtered::{FilterPredicate, FilteredLine};
use filterless::source::VecSource;
use filterless::window_buffer::WindowBuffer;

fn ten_lines() -> Vec<String> {
    vec![
        "one".to_owned(),
        "two".to_owned(),
        "three".to_owned(),
        "four".to_owned(),
        "five".to_owned(),
        "six".to_owned(),
        "seven".to_owned(),
        "eight".to_owned(),
        "nine".to_owned(),
        "ten".to_owned(),
    ]
}

#[test]
fn test_prev_next() {
    let vec: Vec<String> = ten_lines();

    let mut obj_ut = WindowBuffer::new(VecSource::new(vec), None, 80, 3);

    assert_eq!(obj_ut.prev_line(), None);

    assert_eq!(
        obj_ut.next_line(),
        Some(FilteredLine::UnfilteredLine((1, "one".to_owned())))
    );
    assert_eq!(
        obj_ut.next_line(),
        Some(FilteredLine::UnfilteredLine((2, "two".to_owned())))
    );
    assert_eq!(
        obj_ut.next_line(),
        Some(FilteredLine::UnfilteredLine((3, "three".to_owned())))
    );
    assert_eq!(
        obj_ut.next_line(),
        Some(FilteredLine::UnfilteredLine((4, "four".to_owned())))
    );
    assert_eq!(
        obj_ut.next_line(),
        Some(FilteredLine::UnfilteredLine((5, "five".to_owned())))
    );
    assert_eq!(
        obj_ut.next_line(),
        Some(FilteredLine::UnfilteredLine((6, "six".to_owned())))
    );
    assert_eq!(
        obj_ut.next_line(),
        Some(FilteredLine::UnfilteredLine((7, "seven".to_owned())))
    );
    assert_eq!(
        obj_ut.next_line(),
        Some(FilteredLine::UnfilteredLine((8, "eight".to_owned())))
    );
    assert_eq!(
        obj_ut.next_line(),
        Some(FilteredLine::UnfilteredLine((9, "nine".to_owned())))
    );
    assert_eq!(
        obj_ut.next_line(),
        Some(FilteredLine::UnfilteredLine((10, "ten".to_owned())))
    );
    assert_eq!(obj_ut.next_line(), None);

    assert_eq!(
        obj_ut.prev_line(),
        Some(FilteredLine::UnfilteredLine((7, "seven".to_owned())))
    );
    assert_eq!(
        obj_ut.prev_line(),
        Some(FilteredLine::UnfilteredLine((6, "six".to_owned())))
    );
    assert_eq!(
        obj_ut.prev_line(),
        Some(FilteredLine::UnfilteredLine((5, "five".to_owned())))
    );
    assert_eq!(
        obj_ut.prev_line(),
        Some(FilteredLine::UnfilteredLine((4, "four".to_owned())))
    );
    assert_eq!(
        obj_ut.prev_line(),
        Some(FilteredLine::UnfilteredLine((3, "three".to_owned())))
    );
    assert_eq!(
        obj_ut.prev_line(),
        Some(FilteredLine::UnfilteredLine((2, "two".to_owned())))
    );
    assert_eq!(
        obj_ut.prev_line(),
        Some(FilteredLine::UnfilteredLine((1, "one".to_owned())))
    );
    assert_eq!(obj_ut.prev_line(), None);
}

#[test]
fn test_paging() {
    let vec: Vec<String> = ten_lines();

    let mut obj_ut = WindowBuffer::new(VecSource::new(vec), None, 80, 3);

    assert_eq!(
        obj_ut.prev_page(),
        vec![
            FilteredLine::UnfilteredLine((1, "one".to_owned())),
            FilteredLine::UnfilteredLine((2, "two".to_owned())),
            FilteredLine::UnfilteredLine((3, "three".to_owned())),
        ]
    );
    assert_eq!(
        obj_ut.next_page(),
        vec![
            FilteredLine::UnfilteredLine((4, "four".to_owned())),
            FilteredLine::UnfilteredLine((5, "five".to_owned())),
            FilteredLine::UnfilteredLine((6, "six".to_owned())),
        ]
    );
    assert_eq!(
        obj_ut.next_page(),
        vec![
            FilteredLine::UnfilteredLine((7, "seven".to_owned())),
            FilteredLine::UnfilteredLine((8, "eight".to_owned())),
            FilteredLine::UnfilteredLine((9, "nine".to_owned())),
        ]
    );
    assert_eq!(
        obj_ut.next_page(),
        vec![FilteredLine::UnfilteredLine((10, "ten".to_owned()))]
    );
    assert_eq!(obj_ut.next_page(), Vec::new());
    assert_eq!(obj_ut.next_page(), Vec::new());

    assert_eq!(
        obj_ut.prev_page(),
        vec![
            FilteredLine::UnfilteredLine((8, "eight".to_owned())),
            FilteredLine::UnfilteredLine((9, "nine".to_owned())),
            FilteredLine::UnfilteredLine((10, "ten".to_owned())),
        ]
    );

    assert_eq!(
        obj_ut.prev_page(),
        vec![
            FilteredLine::UnfilteredLine((5, "five".to_owned())),
            FilteredLine::UnfilteredLine((6, "six".to_owned())),
            FilteredLine::UnfilteredLine((7, "seven".to_owned())),
        ]
    );

    assert_eq!(
        obj_ut.prev_page(),
        vec![
            FilteredLine::UnfilteredLine((2, "two".to_owned())),
            FilteredLine::UnfilteredLine((3, "three".to_owned())),
            FilteredLine::UnfilteredLine((4, "four".to_owned())),
        ]
    );

    assert_eq!(
        obj_ut.prev_page(),
        vec![
            FilteredLine::UnfilteredLine((1, "one".to_owned())),
            FilteredLine::UnfilteredLine((2, "two".to_owned())),
            FilteredLine::UnfilteredLine((3, "three".to_owned())),
        ]
    );

    assert_eq!(
        obj_ut.prev_page(),
        vec![
            FilteredLine::UnfilteredLine((1, "one".to_owned())),
            FilteredLine::UnfilteredLine((2, "two".to_owned())),
            FilteredLine::UnfilteredLine((3, "three".to_owned())),
        ]
    );

    assert_eq!(
        obj_ut.next_page(),
        vec![
            FilteredLine::UnfilteredLine((4, "four".to_owned())),
            FilteredLine::UnfilteredLine((5, "five".to_owned())),
            FilteredLine::UnfilteredLine((6, "six".to_owned())),
        ]
    );
}

#[test]
fn test_predicate() {
    let vec: Vec<String> = ten_lines();

    let predicate = Some(FilterPredicate {
        filter_string: "t".to_owned(),
        context_lines: 0,
    });
    let mut obj_ut = WindowBuffer::new(VecSource::new(vec), predicate, 80, 3);

    assert_eq!(obj_ut.next_line(), Some(FilteredLine::Gap));
    assert_eq!(
        obj_ut.next_line(),
        Some(FilteredLine::MatchLine((2, "two".to_owned())))
    );
    assert_eq!(
        obj_ut.next_line(),
        Some(FilteredLine::MatchLine((3, "three".to_owned())))
    );
    assert_eq!(obj_ut.next_line(), Some(FilteredLine::Gap));
    assert_eq!(
        obj_ut.next_line(),
        Some(FilteredLine::MatchLine((8, "eight".to_owned())))
    );
    assert_eq!(obj_ut.next_line(), Some(FilteredLine::Gap));
    assert_eq!(
        obj_ut.next_line(),
        Some(FilteredLine::MatchLine((10, "ten".to_owned())))
    );
    assert_eq!(obj_ut.next_line(), None);

    let predicate = Some(FilterPredicate {
        filter_string: "t".to_owned(),
        context_lines: 1,
    });
    obj_ut.set_predicate(predicate);

    assert_eq!(
        obj_ut.next_line(),
        Some(FilteredLine::ContextLine((1, "one".to_owned())))
    );
    assert_eq!(
        obj_ut.next_line(),
        Some(FilteredLine::MatchLine((2, "two".to_owned())))
    );
    assert_eq!(
        obj_ut.next_line(),
        Some(FilteredLine::MatchLine((3, "three".to_owned())))
    );
    assert_eq!(
        obj_ut.next_line(),
        Some(FilteredLine::ContextLine((4, "four".to_owned())))
    );
    assert_eq!(obj_ut.next_line(), Some(FilteredLine::Gap));
    assert_eq!(
        obj_ut.next_line(),
        Some(FilteredLine::ContextLine((7, "seven".to_owned())))
    );
    assert_eq!(
        obj_ut.next_line(),
        Some(FilteredLine::MatchLine((8, "eight".to_owned())))
    );
    assert_eq!(
        obj_ut.next_line(),
        Some(FilteredLine::ContextLine((9, "nine".to_owned())))
    );
    assert_eq!(
        obj_ut.next_line(),
        Some(FilteredLine::MatchLine((10, "ten".to_owned())))
    );
    assert_eq!(obj_ut.next_line(), None);
}

#[test]
fn test_prev_line_immediately_after_construction() {
    let vec: Vec<String> = ten_lines();
    let mut obj_ut = WindowBuffer::new(VecSource::new(vec), None, 80, 3);
    assert_eq!(obj_ut.prev_line(), None);
}

#[test]
fn test_get_lines_idempotent() {
    let vec: Vec<String> = ten_lines();
    let mut obj_ut = WindowBuffer::new(VecSource::new(vec), None, 80, 3);

    let first = obj_ut.get_lines(2, 3);
    let second = obj_ut.get_lines(2, 3);
    assert_eq!(first, second);
    assert_eq!(
        first,
        vec![
            FilteredLine::UnfilteredLine((2, "two".to_owned())),
            FilteredLine::UnfilteredLine((3, "three".to_owned())),
            FilteredLine::UnfilteredLine((4, "four".to_owned())),
        ]
    );
}

#[test]
fn test_get_lines_past_end() {
    let vec: Vec<String> = vec!["one".to_owned(), "two".to_owned()];
    let mut obj_ut = WindowBuffer::new(VecSource::new(vec), None, 80, 3);

    let lines = obj_ut.get_lines(2, 5);
    assert_eq!(lines, vec![FilteredLine::UnfilteredLine((2, "two".to_owned()))]);

    let lines = obj_ut.get_lines(5, 2);
    assert_eq!(lines, Vec::new());
}

#[test]
fn test_set_predicate_restarts_stream() {
    let vec: Vec<String> = ten_lines();
    let mut obj_ut = WindowBuffer::new(VecSource::new(vec), None, 80, 3);

    // Walk some way into the unfiltered stream first.
    for _ in 0..5 {
        assert!(obj_ut.next_line().is_some());
    }

    obj_ut.set_predicate(Some(FilterPredicate {
        filter_string: "nine".to_owned(),
        context_lines: 0,
    }));

    // The next line comes from the head of the new stream, not from
    // where the old one stood.
    assert_eq!(obj_ut.next_line(), Some(FilteredLine::Gap));
    assert_eq!(
        obj_ut.next_line(),
        Some(FilteredLine::MatchLine((9, "nine".to_owned())))
    );
    assert_eq!(obj_ut.next_line(), None);

    obj_ut.set_predicate(None);
    assert_eq!(
        obj_ut.next_line(),
        Some(FilteredLine::UnfilteredLine((1, "one".to_owned())))
    );
}

#[test]
fn test_paging_with_predicate() {
    let vec: Vec<String> = ten_lines();

    let predicate = Some(FilterPredicate {
        filter_string: "t".to_owned(),
        context_lines: 1,
    });
    let mut obj_ut = WindowBuffer::new(VecSource::new(vec), predicate, 80, 4);

    // Classified stream: C1 M2 M3 C4 Gap C7 M8 C9 M10.
    assert_eq!(
        obj_ut.next_page(),
        vec![
            FilteredLine::ContextLine((1, "one".to_owned())),
            FilteredLine::MatchLine((2, "two".to_owned())),
            FilteredLine::MatchLine((3, "three".to_owned())),
            FilteredLine::ContextLine((4, "four".to_owned())),
        ]
    );
    assert_eq!(
        obj_ut.next_page(),
        vec![
            FilteredLine::Gap,
            FilteredLine::ContextLine((7, "seven".to_owned())),
            FilteredLine::MatchLine((8, "eight".to_owned())),
            FilteredLine::ContextLine((9, "nine".to_owned())),
        ]
    );
    assert_eq!(
        obj_ut.next_page(),
        vec![FilteredLine::MatchLine((10, "ten".to_owned()))]
    );
    assert_eq!(obj_ut.next_page(), Vec::new());
}

#[test]
fn test_set_predicate_with_empty_filter_string() {
    let vec: Vec<String> = vec!["one".to_owned(), "two".to_owned()];
    let mut obj_ut = WindowBuffer::new(
        VecSource::new(vec),
        Some(FilterPredicate {
            filter_string: "one".to_owned(),
            context_lines: 0,
        }),
        80,
        3,
    );
    assert_eq!(
        obj_ut.next_line(),
        Some(FilteredLine::MatchLine((1, "one".to_owned())))
    );

    // An empty filter string is invalid input and stands for "no
    // predicate": the stream restarts as a verbatim pass-through.
    obj_ut.set_predicate(Some(FilterPredicate {
        filter_string: String::new(),
        context_lines: 2,
    }));
    assert_eq!(
        obj_ut.next_line(),
        Some(FilteredLine::UnfilteredLine((1, "one".to_owned())))
    );
    assert_eq!(
        obj_ut.next_line(),
        Some(FilteredLine::UnfilteredLine((2, "two".to_owned())))
    );
    assert_eq!(obj_ut.next_line(), None);
}
