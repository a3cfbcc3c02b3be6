use filterless::buffer::invert;
use filterless::filtered::{ContextLine, FilterPredicate, FilteredLine};

#[test]
fn buffer_test1() {
    assert!(invert(true) == false);
}

#[test]
fn test_get_line_num() {
    assert_eq!(FilteredLine::Gap.get_line_num(), None);
    assert_eq!(
        FilteredLine::ContextLine((3, "a".to_owned())).get_line_num(),
        Some(3)
    );
    assert_eq!(
        FilteredLine::MatchLine((7, "b".to_owned())).get_line_num(),
        Some(7)
    );
    assert_eq!(
        FilteredLine::UnfilteredLine((11, "c".to_owned())).get_line_num(),
        Some(11)
    );
}

#[test]
fn test_from_numbered_line_classifies_by_containment() {
    let filter = "bar".to_owned();

    let cl = ContextLine::from_numbered_line((1, "foobarbaz".to_owned()), &filter);
    assert!(matches!(cl, ContextLine::Match(_)));

    let cl = ContextLine::from_numbered_line((2, "foobaz".to_owned()), &filter);
    assert!(matches!(cl, ContextLine::NoMatch(_)));

    let cl = ContextLine::from_numbered_line((3, "bar".to_owned()), &filter);
    assert!(matches!(cl, ContextLine::Match(_)));

    let cl = ContextLine::from_numbered_line((4, "ba".to_owned()), &filter);
    assert!(matches!(cl, ContextLine::NoMatch(_)));

    // The empty filter string is contained in every line.
    let empty = String::new();
    let cl = ContextLine::from_numbered_line((5, "".to_owned()), &empty);
    assert!(matches!(cl, ContextLine::Match(_)));
}

#[test]
fn test_to_filtered_line() {
    let pred = Some(FilterPredicate {
        filter_string: "x".to_owned(),
        context_lines: 1,
    });

    let cl = ContextLine::Match((4, "axb".to_owned()));
    assert_eq!(
        cl.to_filtered_line(&pred),
        FilteredLine::MatchLine((4, "axb".to_owned()))
    );

    let cl = ContextLine::NoMatch((5, "ab".to_owned()));
    assert_eq!(
        cl.to_filtered_line(&pred),
        FilteredLine::ContextLine((5, "ab".to_owned()))
    );
    assert_eq!(
        cl.to_filtered_line(&None),
        FilteredLine::UnfilteredLine((5, "ab".to_owned()))
    );
}

#[test]
fn test_filter_predicate_clone() {
    let pred = FilterPredicate {
        filter_string: "needle".to_owned(),
        context_lines: 4,
    };
    let copy = pred.clone();
    assert_eq!(copy.filter_string, "needle".to_owned());
    assert_eq!(copy.context_lines, 4);
}
