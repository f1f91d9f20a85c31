use simple_detailed_error::simple_error_display_info::SimpleErrorDisplayInfo;

fn leaf(reason: &str) -> SimpleErrorDisplayInfo {
    SimpleErrorDisplayInfo::new(None, Some(reason.to_string()), None, None, None, 0, Vec::new())
}

#[test]
fn empty_snapshot_falls_back() {
    let info = SimpleErrorDisplayInfo::new(None, None, None, None, None, 0, Vec::new());
    assert!(!info.is_explained());
    assert_eq!(info.as_display_string(), "Error: Unexplained error");
    assert_eq!(info.__as_display_string(false), None);
}

#[test]
fn unexplained_tally_alone_is_not_explained() {
    let info = SimpleErrorDisplayInfo::new(None, None, None, None, None, 3, Vec::new());
    assert!(!info.is_explained());
    assert_eq!(info.as_display_string(), "Error: Unexplained error");
}

#[test]
fn position_and_fields_in_order() {
    let info = SimpleErrorDisplayInfo::new(
        Some("a = b".to_string()),
        Some("Types differ".to_string()),
        Some("Cast b".to_string()),
        Some((1, 2)),
        Some((3, 4)),
        0,
        Vec::new(),
    );
    assert_eq!(
        info.as_display_string(),
        "Position: On line 1 and column 2 up to line 3 and column 4\nAt: a = b\nError: Types differ\nSolution: Cast b"
    );
}

#[test]
fn start_without_end() {
    let info = SimpleErrorDisplayInfo::new(None, None, None, Some((10, 0)), None, 0, Vec::new());
    assert!(info.is_explained());
    assert_eq!(info.as_display_string(), "Position: On line 10 and column 0\nError: Unexplained error");
}

#[test]
fn multi_line_contents_align_under_label() {
    let info = SimpleErrorDisplayInfo::new(None, Some("first\nsecond".to_string()), None, None, None, 0, Vec::new());
    assert_eq!(info.as_display_string(), "Error: first\n       second");
}

#[test]
fn several_causes_are_numbered() {
    let info = SimpleErrorDisplayInfo::new(
        None,
        Some("Couldn't compile code.".to_string()),
        None,
        None,
        None,
        0,
        vec![leaf("a"), leaf("b")],
    );
    assert_eq!(
        info.as_display_string(),
        "Error: Couldn't compile code.\nHas: 2 explained causes.\nCauses: \n  - Cause nº 1 -\n  - Error: a\n  \n  - Cause nº 2 -\n  - Error: b"
    );
}

#[test]
fn one_cause_is_inline() {
    let info = SimpleErrorDisplayInfo::new(None, Some("top".to_string()), None, None, None, 0, vec![leaf("inner")]);
    assert_eq!(info.as_display_string(), "Error: top\nCause: \n  - Error: inner");
}

#[test]
fn nested_cause_shown_as_cause() {
    let info = leaf("x");
    assert_eq!(info.__as_display_string(true), Some("- Error: x".to_string()));
}

#[test]
fn complexity_counts_nodes() {
    let inner = SimpleErrorDisplayInfo::new(None, Some("m".to_string()), None, None, None, 0, vec![leaf("a"), leaf("b")]);
    let top = SimpleErrorDisplayInfo::new(None, None, None, None, None, 1, vec![inner, leaf("c")]);
    assert_eq!(top.complexity(), 5);
    assert_eq!(leaf("z").complexity(), 1);
}
