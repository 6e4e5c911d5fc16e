use t_rs::names::new_name;
use t_rs::names::parse_unnamed_name;
use t_rs::names::render_unnamed;

fn strings(parts: &[&str]) -> Vec<String> {
    parts.iter().map(|s| s.to_string()).collect()
}

#[test]
fn new_name_gap_not_reused() {
    let children = strings(&["unnamed_1", "unnamed_3"]);
    assert_eq!(new_name(&children), "unnamed_4");
}

#[test]
fn new_name_empty_registry() {
    let children: Vec<String> = Vec::new();
    assert_eq!(new_name(&children), "unnamed_1");
}

#[test]
fn new_name_ignores_unrelated_names() {
    let children = strings(&["project", "unnamed_2", "unnamed_x", "unnamed_"]);
    assert_eq!(new_name(&children), "unnamed_3");
}

#[test]
fn new_name_result_is_fresh() {
    let children = strings(&["unnamed_1", "unnamed_2", "unnamed_3"]);
    let name = new_name(&children);
    assert_eq!(name, "unnamed_4");
    assert!(!children.contains(&name));
}

#[test]
fn parse_unnamed_plain() {
    assert_eq!(parse_unnamed_name(&"unnamed_12".to_string()), Some(12));
    assert_eq!(parse_unnamed_name(&"unnamed_0".to_string()), Some(0));
    assert_eq!(parse_unnamed_name(&"unnamed_007".to_string()), Some(7));
}

#[test]
fn parse_unnamed_rejects_malformed() {
    assert_eq!(parse_unnamed_name(&"unnamed_".to_string()), None);
    assert_eq!(parse_unnamed_name(&"unnamed_1a".to_string()), None);
    assert_eq!(parse_unnamed_name(&"xunnamed_1".to_string()), None);
    assert_eq!(parse_unnamed_name(&"project".to_string()), None);
    assert_eq!(parse_unnamed_name(&"".to_string()), None);
}

#[test]
fn parse_unnamed_rejects_overflow() {
    assert_eq!(
        parse_unnamed_name(&"unnamed_99999999999999999999999".to_string()),
        None
    );
}

#[test]
fn render_unnamed_decimal() {
    assert_eq!(render_unnamed(0), "unnamed_0");
    assert_eq!(render_unnamed(10), "unnamed_10");
    assert_eq!(render_unnamed(907), "unnamed_907");
}
