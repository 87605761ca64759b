use swc_open_elements::node::{Attribute, Namespace, Node};
use swc_open_elements::stack::OpenElementsStack;

fn el(id: u64, ns: Namespace, tag: &str) -> Node {
    Node {
        id,
        tag_name: tag.to_string(),
        namespace: ns,
        attributes: Vec::new(),
    }
}

fn html(id: u64, tag: &str) -> Node {
    el(id, Namespace::HTML, tag)
}

fn stack_of(nodes: Vec<Node>) -> OpenElementsStack {
    let mut s = OpenElementsStack::new();
    for n in nodes {
        s.push(n);
    }
    s
}

fn tags(s: &OpenElementsStack) -> Vec<String> {
    s.items().iter().map(|n| n.tag_name.clone()).collect()
}

fn ids(s: &OpenElementsStack) -> Vec<u64> {
    s.items().iter().map(|n| n.id).collect()
}

#[test]
fn new_stack_is_empty() {
    let s = OpenElementsStack::new();
    assert!(s.items().is_empty());
    assert!(!s.contains_template_element());
}

#[test]
fn pop_returns_last_pushed() {
    let mut s = stack_of(vec![html(1, "html"), html(2, "body")]);
    let n = s.pop().unwrap();
    assert_eq!(n.id, 2);
    assert_eq!(ids(&s), vec![1]);
}

#[test]
fn pop_on_empty_is_none() {
    let mut s = OpenElementsStack::new();
    assert!(s.pop().is_none());
    assert!(s.items().is_empty());
}

#[test]
fn push_then_pop_restores() {
    let mut s = stack_of(vec![html(1, "html"), html(2, "body")]);
    s.push(html(3, "div"));
    assert_eq!(s.pop().unwrap().id, 3);
    assert_eq!(ids(&s), vec![1, 2]);
}

#[test]
fn template_is_counted_on_push_and_pop() {
    let mut s = stack_of(vec![html(1, "html")]);
    s.push(html(2, "template"));
    assert!(s.contains_template_element());
    s.pop();
    assert!(!s.contains_template_element());
}

#[test]
fn non_html_template_is_not_counted() {
    let s = stack_of(vec![html(1, "html"), el(2, Namespace::SVG, "template")]);
    assert!(!s.contains_template_element());
}

#[test]
fn insert_places_at_index() {
    let mut s = stack_of(vec![html(1, "html"), html(2, "body")]);
    s.insert(1, html(3, "template"));
    assert_eq!(ids(&s), vec![1, 3, 2]);
    assert!(s.contains_template_element());
    s.insert(3, html(4, "p"));
    assert_eq!(ids(&s), vec![1, 3, 2, 4]);
}

#[test]
fn replace_swaps_item_and_count() {
    let mut s = stack_of(vec![html(1, "html"), html(2, "template")]);
    s.replace(1, html(3, "div"));
    assert_eq!(ids(&s), vec![1, 3]);
    assert!(!s.contains_template_element());
    s.replace(0, html(4, "template"));
    assert_eq!(ids(&s), vec![4, 3]);
    assert!(s.contains_template_element());
}

#[test]
fn replace_out_of_range_does_nothing() {
    let mut s = stack_of(vec![html(1, "html")]);
    s.replace(5, html(2, "template"));
    assert_eq!(ids(&s), vec![1]);
    assert!(!s.contains_template_element());
}

#[test]
fn remove_takes_topmost_same_node() {
    let mut s = stack_of(vec![html(1, "html"), html(7, "b"), html(2, "p"), html(7, "b")]);
    s.remove(&html(7, "b"));
    assert_eq!(ids(&s), vec![1, 7, 2]);
}

#[test]
fn remove_absent_does_nothing() {
    let mut s = stack_of(vec![html(1, "html"), html(2, "p")]);
    s.remove(&html(9, "p"));
    assert_eq!(ids(&s), vec![1, 2]);
}

#[test]
fn remove_template_updates_count() {
    let mut s = stack_of(vec![html(1, "html"), html(2, "template"), html(3, "div")]);
    s.remove(&html(2, "template"));
    assert_eq!(ids(&s), vec![1, 3]);
    assert!(!s.contains_template_element());
}

#[test]
fn remove_after_push_restores() {
    let mut s = stack_of(vec![html(1, "html"), html(2, "p")]);
    s.push(html(2, "p"));
    s.remove(&html(2, "p"));
    assert_eq!(ids(&s), vec![1, 2]);
}

#[test]
fn in_scope_finds_target_below_plain_elements() {
    let s = stack_of(vec![html(1, "html"), html(2, "body"), html(3, "p"), html(4, "b")]);
    assert!(s.has_in_scope("p"));
    assert!(!s.has_in_scope("div"));
}

#[test]
fn in_scope_stops_at_table() {
    let s = stack_of(vec![html(1, "html"), html(2, "p"), html(3, "table")]);
    assert!(!s.has_in_scope("p"));
    assert!(s.has_in_scope("table"));
}

#[test]
fn in_scope_stops_at_mathml_and_svg_markers() {
    let s = stack_of(vec![html(1, "html"), html(2, "p"), el(3, Namespace::MATHML, "mi")]);
    assert!(!s.has_in_scope("p"));
    let s = stack_of(vec![html(1, "html"), html(2, "p"), el(3, Namespace::SVG, "title")]);
    assert!(!s.has_in_scope("p"));
    let s = stack_of(vec![html(1, "html"), html(2, "p"), el(3, Namespace::SVG, "mi")]);
    assert!(s.has_in_scope("p"));
}

#[test]
fn in_scope_needs_html_target() {
    let s = stack_of(vec![html(1, "html"), el(2, Namespace::SVG, "p")]);
    assert!(!s.has_in_scope("p"));
}

#[test]
fn node_in_scope_by_identity() {
    let s = stack_of(vec![html(1, "html"), html(2, "div"), html(3, "span")]);
    assert!(s.has_node_in_scope(&html(2, "div")));
    assert!(!s.has_node_in_scope(&html(5, "div")));
    let s = stack_of(vec![html(1, "html"), html(2, "div"), html(3, "td")]);
    assert!(!s.has_node_in_scope(&html(2, "div")));
    assert!(s.has_node_in_scope(&html(3, "td")));
}

#[test]
fn list_item_scope_stops_at_lists() {
    let s = stack_of(vec![html(1, "html"), html(2, "li"), html(3, "ul")]);
    assert!(!s.has_in_list_item_scope("li"));
    assert!(s.has_in_scope("li"));
    let s = stack_of(vec![html(1, "html"), html(2, "li"), html(3, "ol")]);
    assert!(!s.has_in_list_item_scope("li"));
    let s = stack_of(vec![html(1, "html"), html(2, "li"), html(3, "span")]);
    assert!(s.has_in_list_item_scope("li"));
}

#[test]
fn button_scope_stops_at_button() {
    let s = stack_of(vec![html(1, "html"), html(2, "p"), html(3, "button")]);
    assert!(!s.has_in_button_scope("p"));
    assert!(s.has_in_scope("p"));
    let s = stack_of(vec![html(1, "html"), html(2, "p"), html(3, "caption")]);
    assert!(!s.has_in_button_scope("p"));
}

#[test]
fn table_scope_passes_cells() {
    let s = stack_of(vec![html(1, "html"), html(2, "table"), html(3, "td"), html(4, "p")]);
    assert!(s.has_in_table_scope("table"));
    assert!(!s.has_in_scope("table"));
    let s = stack_of(vec![html(1, "html"), html(2, "table"), html(3, "template")]);
    assert!(!s.has_in_table_scope("table"));
}

#[test]
fn select_scope_passes_only_options() {
    let s = stack_of(vec![
        html(1, "html"),
        html(2, "select"),
        html(3, "optgroup"),
        html(4, "option"),
    ]);
    assert!(s.has_in_select_scope("select"));
    let s = stack_of(vec![html(1, "html"), html(2, "select"), html(3, "div")]);
    assert!(!s.has_in_select_scope("select"));
    let s = stack_of(vec![html(1, "html"), html(2, "select"), el(3, Namespace::SVG, "option")]);
    assert!(!s.has_in_select_scope("select"));
}

#[test]
fn clear_back_to_table_context_pops_to_table() {
    let mut s = stack_of(vec![
        html(1, "html"),
        html(2, "table"),
        html(3, "tbody"),
        html(4, "tr"),
        html(5, "td"),
    ]);
    s.clear_back_to_table_context();
    assert_eq!(tags(&s), vec!["html", "table"]);
}

#[test]
fn clear_back_to_table_context_pops_non_html_table() {
    let mut s = stack_of(vec![html(1, "html"), el(2, Namespace::SVG, "table")]);
    s.clear_back_to_table_context();
    assert_eq!(tags(&s), vec!["html"]);
}

#[test]
fn clear_back_to_table_row_context_pops_to_row() {
    let mut s = stack_of(vec![
        html(1, "html"),
        html(2, "table"),
        html(3, "tbody"),
        html(4, "tr"),
        html(5, "td"),
        html(6, "p"),
    ]);
    s.clear_back_to_table_row_context();
    assert_eq!(tags(&s), vec!["html", "table", "tbody", "tr"]);
}

#[test]
fn clear_back_to_table_body_context_pops_to_body() {
    let mut s = stack_of(vec![
        html(1, "html"),
        html(2, "table"),
        html(3, "thead"),
        html(4, "tr"),
        html(5, "td"),
    ]);
    s.clear_back_to_table_body_context();
    assert_eq!(tags(&s), vec!["html", "table", "thead"]);
}

#[test]
fn clear_back_on_template_stops_at_once() {
    let mut s = stack_of(vec![html(1, "html"), html(2, "template")]);
    s.clear_back_to_table_body_context();
    assert_eq!(tags(&s), vec!["html", "template"]);
    assert!(s.contains_template_element());
}

#[test]
fn clearing_pops_templates_off_the_count() {
    let mut s = stack_of(vec![
        html(1, "html"),
        html(2, "table"),
        html(3, "td"),
        el(4, Namespace::MATHML, "math"),
    ]);
    s.push(html(5, "template"));
    s.push(html(6, "div"));
    s.clear_back_to_table_row_context();
    assert_eq!(tags(&s), vec!["html", "table", "td", "math", "template"]);
    s.pop();
    s.clear_back_to_table_row_context();
    assert_eq!(tags(&s), vec!["html"]);
    assert!(!s.contains_template_element());
}

#[test]
fn implied_end_tags_are_generated() {
    let mut s = stack_of(vec![
        html(1, "html"),
        html(2, "body"),
        html(3, "p"),
        html(4, "li"),
        html(5, "option"),
    ]);
    s.generate_implied_end_tags();
    assert_eq!(tags(&s), vec!["html", "body"]);
}

#[test]
fn implied_end_tags_stop_at_foreign_element() {
    let mut s = stack_of(vec![html(1, "html"), el(2, Namespace::SVG, "p"), html(3, "rtc")]);
    s.generate_implied_end_tags();
    assert_eq!(tags(&s), vec!["html", "p"]);
}

#[test]
fn implied_end_tags_keep_cells() {
    let mut s = stack_of(vec![html(1, "html"), html(2, "td"), html(3, "dd")]);
    s.generate_implied_end_tags();
    assert_eq!(tags(&s), vec!["html", "td"]);
}

#[test]
fn implied_end_tags_with_exclusion_stop_at_excluded() {
    let mut s = stack_of(vec![html(1, "html"), html(2, "ul"), html(3, "li"), html(4, "p")]);
    s.generate_implied_end_tags_with_exclusion("li");
    assert_eq!(tags(&s), vec!["html", "ul", "li"]);
    s.generate_implied_end_tags_with_exclusion("p");
    assert_eq!(tags(&s), vec!["html", "ul"]);
}

#[test]
fn implied_end_tags_thoroughly_pop_cells() {
    let mut s = stack_of(vec![
        html(1, "html"),
        html(2, "table"),
        html(3, "tbody"),
        html(4, "tr"),
        html(5, "td"),
        html(6, "p"),
    ]);
    s.generate_implied_end_tags_thoroughly();
    assert_eq!(tags(&s), vec!["html", "table"]);
}

#[test]
fn pop_until_tag_name_returns_match() {
    let mut s = stack_of(vec![
        html(1, "html"),
        html(2, "h2"),
        html(3, "span"),
        el(4, Namespace::SVG, "h1"),
    ]);
    let names: Vec<&str> = vec!["h1", "h2"];
    let n = s.pop_until_tag_name_popped(&names).unwrap();
    assert_eq!(n.id, 2);
    assert_eq!(tags(&s), vec!["html"]);
}

#[test]
fn pop_until_tag_name_empties_without_match() {
    let mut s = stack_of(vec![html(1, "html"), html(2, "template")]);
    let names: Vec<&str> = vec!["h3"];
    assert!(s.pop_until_tag_name_popped(&names).is_none());
    assert!(s.items().is_empty());
    assert!(!s.contains_template_element());
}

#[test]
fn pop_until_node_returns_it() {
    let mut s = stack_of(vec![html(1, "html"), html(2, "a"), html(3, "b")]);
    let n = s.pop_until_node(&html(2, "a")).unwrap();
    assert_eq!(n.id, 2);
    assert_eq!(ids(&s), vec![1]);
    assert!(s.pop_until_node(&html(8, "a")).is_none());
    assert!(s.items().is_empty());
}

#[test]
fn pop_until_in_foreign_stops_at_html() {
    let mut s = stack_of(vec![
        html(1, "html"),
        html(2, "body"),
        el(3, Namespace::SVG, "svg"),
        el(4, Namespace::SVG, "g"),
    ]);
    s.pop_until_in_foreign();
    assert_eq!(tags(&s), vec!["html", "body"]);
}

#[test]
fn pop_until_in_foreign_stops_at_text_integration_point() {
    let mut s = stack_of(vec![
        html(1, "html"),
        el(2, Namespace::MATHML, "math"),
        el(3, Namespace::MATHML, "mtext"),
        el(4, Namespace::MATHML, "mglyph"),
    ]);
    s.pop_until_in_foreign();
    assert_eq!(tags(&s), vec!["html", "math", "mtext"]);
}

#[test]
fn pop_until_in_foreign_stops_at_svg_integration_point() {
    let mut s = stack_of(vec![
        html(1, "html"),
        el(2, Namespace::SVG, "svg"),
        el(3, Namespace::SVG, "foreignObject"),
        el(4, Namespace::SVG, "rect"),
    ]);
    s.pop_until_in_foreign();
    assert_eq!(tags(&s), vec!["html", "svg", "foreignObject"]);
}

#[test]
fn annotation_xml_with_html_encoding_is_integration_point() {
    let mut annotation = el(3, Namespace::MATHML, "annotation-xml");
    annotation.attributes.push(Attribute {
        name: "encoding".to_string(),
        value: Some("Application/XHTML+xml".to_string()),
    });
    let mut s = stack_of(vec![html(1, "html"), el(2, Namespace::MATHML, "math"), annotation]);
    s.push(el(4, Namespace::MATHML, "mrow"));
    s.pop_until_in_foreign();
    assert_eq!(tags(&s), vec!["html", "math", "annotation-xml"]);
}

#[test]
fn annotation_xml_without_html_encoding_is_popped() {
    let mut annotation = el(3, Namespace::MATHML, "annotation-xml");
    annotation.attributes.push(Attribute {
        name: "encoding".to_string(),
        value: Some("text/plain".to_string()),
    });
    annotation.attributes.push(Attribute {
        name: "definitionURL".to_string(),
        value: None,
    });
    let mut s = stack_of(vec![html(1, "html"), el(2, Namespace::MATHML, "math"), annotation]);
    s.pop_until_in_foreign();
    assert_eq!(tags(&s), vec!["html"]);
}

#[test]
fn in_scope_implies_in_table_scope() {
    let s = stack_of(vec![html(1, "html"), html(2, "p"), html(3, "span")]);
    assert!(s.has_in_scope("p"));
    assert!(s.has_in_table_scope("p"));
    assert!(s.has_in_list_item_scope("p"));
    assert!(s.has_in_button_scope("p"));
}

#[test]
fn current_node_is_in_every_scope() {
    let s = stack_of(vec![html(1, "html"), html(2, "table"), html(3, "button")]);
    assert!(s.has_in_scope("button"));
    assert!(s.has_in_list_item_scope("button"));
    assert!(s.has_in_button_scope("button"));
    assert!(s.has_in_table_scope("button"));
    assert!(s.has_in_select_scope("button"));
    assert!(s.has_node_in_scope(&html(3, "button")));
}

#[test]
fn walk_ends_at_html_root() {
    let s = stack_of(vec![html(1, "html"), html(2, "option")]);
    assert!(!s.has_in_scope("p"));
    assert!(!s.has_in_select_scope("p"));
    assert!(!s.has_in_table_scope("body"));
}

#[test]
fn clearing_twice_is_clearing_once() {
    let mut s = stack_of(vec![
        html(1, "html"),
        html(2, "table"),
        html(3, "tr"),
        html(4, "td"),
    ]);
    s.clear_back_to_table_row_context();
    let once = ids(&s);
    s.clear_back_to_table_row_context();
    assert_eq!(ids(&s), once);
    assert_eq!(once, vec![1, 2, 3]);
}

#[test]
fn thorough_pops_at_least_implied() {
    let nodes = || vec![html(1, "html"), html(2, "tr"), html(3, "li"), html(4, "p")];
    let mut implied = stack_of(nodes());
    implied.generate_implied_end_tags();
    let mut thorough = stack_of(nodes());
    thorough.generate_implied_end_tags_thoroughly();
    let mut excluding = stack_of(nodes());
    excluding.generate_implied_end_tags_with_exclusion("li");
    assert_eq!(ids(&thorough), vec![1]);
    assert_eq!(ids(&implied), vec![1, 2]);
    assert_eq!(ids(&excluding), vec![1, 2, 3]);
}
