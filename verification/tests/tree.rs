use mwparser_utils::Element;
use mwparser_utils::extract_plain_text;
use mwparser_utils::find_arg;

#[test]
fn text_nodes_concatenate() {
    let nodes = vec![
        Element::Text("Hello ".to_string()),
        Element::Text("world".to_string()),
    ];
    assert_eq!(extract_plain_text(&nodes), "Hello world");
}

#[test]
fn nested_wrappers_are_flattened() {
    let nodes = vec![
        Element::Paragraph(vec![
            Element::Text("a".to_string()),
            Element::Formatted(vec![Element::Text("b".to_string())]),
        ]),
        Element::TemplateArgument("arg".to_string(), vec![Element::Text("c".to_string())]),
    ];
    assert_eq!(extract_plain_text(&nodes), "abc");
}

#[test]
fn other_nodes_contribute_nothing() {
    let nodes = vec![
        Element::Other,
        Element::Text("x".to_string()),
        Element::Other,
    ];
    assert_eq!(extract_plain_text(&nodes), "x");
}

#[test]
fn empty_list_gives_empty_text() {
    let nodes: Vec<Element> = Vec::new();
    assert_eq!(extract_plain_text(&nodes), "");
}

#[test]
fn find_arg_matches_trimmed_lowercase_name() {
    let nodes = vec![
        Element::Text("x".to_string()),
        Element::TemplateArgument(" TITLE ".to_string(), vec![Element::Text("t".to_string())]),
    ];
    let names = vec!["title".to_string()];
    assert_eq!(find_arg(&nodes, &names), Some(&nodes[1]));
}

#[test]
fn find_arg_returns_first_match() {
    let nodes = vec![
        Element::TemplateArgument("other".to_string(), Vec::new()),
        Element::TemplateArgument("title".to_string(), vec![Element::Text("1".to_string())]),
        Element::TemplateArgument("title".to_string(), vec![Element::Text("2".to_string())]),
    ];
    let names = vec!["caption".to_string(), "title".to_string()];
    assert_eq!(find_arg(&nodes, &names), Some(&nodes[1]));
}

#[test]
fn find_arg_none_when_no_name_matches() {
    let nodes = vec![
        Element::Text("title".to_string()),
        Element::TemplateArgument("caption".to_string(), Vec::new()),
    ];
    let names = vec!["title".to_string()];
    assert_eq!(find_arg(&nodes, &names), None);
}
