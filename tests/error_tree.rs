use simple_detailed_error::simple_error::SimpleError;
use simple_detailed_error::simple_error_detail::SimpleErrorDetail;
use simple_detailed_error::simple_error_explanation::SimpleErrorExplanation;

fn named(name: &str) -> SimpleError {
    SimpleError::new().error_detail(name.to_string())
}

fn reason(e: &SimpleError) -> Option<String> {
    e.error_detail.as_ref().and_then(|d| d.explanation.clone())
}

#[test]
fn leaves_from_left_to_right() {
    let tree = named("root")
        .with_cause(named("a").with_cause(named("a1")).with_cause(named("a2")))
        .with_cause(named("b"));
    let leaves: Vec<Option<String>> = tree.leaf_errors().into_iter().map(reason).collect();
    assert_eq!(leaves, vec![Some("a1".to_string()), Some("a2".to_string()), Some("b".to_string())]);
    let single = named("alone");
    assert_eq!(single.leaf_errors().len(), 1);
}

#[test]
fn inverted_tree_puts_leaves_on_top() {
    let tree = named("root")
        .with_cause(named("a").with_cause(named("a1")).with_cause(named("a2")))
        .with_cause(named("b"));
    let inverted = tree.inverted_error_tree();
    assert_eq!(inverted.len(), 3);
    let first = &inverted[0];
    assert_eq!(reason(first), Some("a1".to_string()));
    assert_eq!(first.causes.len(), 1);
    assert_eq!(reason(&first.causes[0]), Some("a".to_string()));
    assert_eq!(reason(&first.causes[0].causes[0]), Some("root".to_string()));
    assert!(first.causes[0].causes[0].causes.is_empty());
    assert_eq!(reason(&inverted[2]), Some("b".to_string()));
    assert_eq!(reason(&inverted[2].causes[0]), Some("root".to_string()));
}

#[test]
fn detail_builders() {
    let e = String::from("boom").at("x + 1");
    assert_eq!(e.where_, Some("x + 1".to_string()));
    let e = SimpleErrorExplanation::new().explanation("e").start_point_of_error(3, 1);
    assert_eq!(e.start_point_of_error, Some((3, 1)));
    let e = String::from("late").end_point_of_error(4, 2);
    assert_eq!(e.end_point_of_error, Some((4, 2)));
    let e = String::from("top").with_cause(named("inner"));
    assert_eq!(e.causes.len(), 1);
    let info = String::from("  alone ").to_display_struct(false);
    assert_eq!(info.reason, Some("alone".to_string()));
    assert_eq!(String::from("x").to_simple_error().causes.len(), 0);
}
