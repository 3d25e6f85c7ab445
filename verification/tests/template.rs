use rust_design_pattern::behavioral_patterns::template::{Html, SimpleText, TextTemplate};

#[test]
fn template_case1() {
    let sut = SimpleText {
        title: "My items".to_string(),
        items: vec!["foo".to_string(), "bar".to_string()],
    };
    assert_eq!(sut.run(), "My items: foo, bar");
}

#[test]
fn case2() {
    let sut =
        Html { title: "My items".to_string(), items: vec!["foo".to_string(), "bar".to_string()] };
    assert_eq!(sut.run(), "<h1>My items</h1><ul><li>foo</li><li>bar</li></ul>");
}

#[test]
fn simple_text_steps() {
    let sut = SimpleText {
        title: "T".to_string(),
        items: vec!["a".to_string(), "b".to_string(), "c".to_string()],
    };
    assert_eq!(sut.title(), "T: ");
    assert_eq!(sut.list_start(), "");
    assert_eq!(sut.list_items(), "a, b, c");
    assert_eq!(sut.list_end(), "");
}

#[test]
fn html_steps() {
    let sut = Html { title: "T".to_string(), items: vec!["a".to_string()] };
    assert_eq!(sut.title(), "<h1>T</h1>");
    assert_eq!(sut.list_start(), "<ul>");
    assert_eq!(sut.list_items(), "<li>a</li>");
    assert_eq!(sut.list_end(), "</ul>");
}

#[test]
fn templates_without_items() {
    let simple = SimpleText { title: "Empty".to_string(), items: vec![] };
    assert_eq!(simple.run(), "Empty: ");
    let html = Html { title: "Empty".to_string(), items: vec![] };
    assert_eq!(html.run(), "<h1>Empty</h1><ul></ul>");
}
