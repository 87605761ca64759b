use swc_open_elements::attr::{
    doc_str, doc_str_from_meta, is_attr_name, try_doc_str, Attribute, DocAttrError,
};

fn attribute(leading_colon: bool, segments: &[&str], tokens: &str) -> Attribute {
    Attribute {
        leading_colon,
        segments: segments.iter().map(|s| s.to_string()).collect(),
        tokens: tokens.to_string(),
    }
}

#[test]
fn attr_name_is_single_segment() {
    assert!(is_attr_name(&attribute(false, &["doc"], ""), "doc"));
    assert!(!is_attr_name(&attribute(false, &["doc"], ""), "derive"));
    assert!(!is_attr_name(&attribute(true, &["doc"], ""), "doc"));
    assert!(!is_attr_name(&attribute(false, &["serde", "doc"], ""), "doc"));
    assert!(!is_attr_name(&attribute(false, &[], ""), "doc"));
    assert!(!is_attr_name(&attribute(false, &["r#doc"], ""), "doc"));
}

#[test]
fn doc_str_reads_doc_text() {
    let a = attribute(false, &["doc"], "= \" Creates a node.\"");
    assert_eq!(doc_str(&a), Some(" Creates a node.".to_string()));
}

#[test]
fn doc_str_resolves_escapes() {
    let a = attribute(false, &["doc"], r#"= "a \"quoted\" word\n""#);
    assert_eq!(doc_str(&a), Some("a \"quoted\" word\n".to_string()));
}

#[test]
fn doc_str_ignores_other_attributes() {
    let a = attribute(false, &["cfg"], "(test)");
    assert_eq!(doc_str(&a), None);
    let a = attribute(true, &["doc"], "= \"text\"");
    assert_eq!(doc_str(&a), None);
}

#[test]
fn try_doc_str_refuses_unreadable_doc() {
    let a = attribute(false, &["doc"], "(hidden)");
    assert_eq!(try_doc_str(&a), Err(DocAttrError::NotNameValueStr));
    let a = attribute(false, &["doc"], "= 3");
    assert_eq!(try_doc_str(&a), Err(DocAttrError::NotNameValueStr));
    let a = attribute(false, &["doc"], "= \"x\"");
    assert_eq!(try_doc_str(&a), Ok(Some("x".to_string())));
    let a = attribute(false, &["inline"], "");
    assert_eq!(try_doc_str(&a), Ok(None));
}

#[test]
fn doc_str_from_meta_decides_on_parsed_value() {
    let doc = attribute(false, &["doc"], "whatever");
    assert_eq!(
        doc_str_from_meta(&doc, Some("text".to_string())),
        Ok(Some("text".to_string()))
    );
    assert_eq!(doc_str_from_meta(&doc, None), Err(DocAttrError::NotNameValueStr));
    let other = attribute(false, &["derive"], "(Debug)");
    assert_eq!(doc_str_from_meta(&other, Some("x".to_string())), Ok(None));
    assert_eq!(doc_str_from_meta(&other, None), Ok(None));
}
