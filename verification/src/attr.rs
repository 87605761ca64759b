//! Reading the attributes of Rust items, as procedural macros do.

use vstd::prelude::*;

use crate::node::str_eq;

verus! {

/// An attribute `#[path tokens]` of a Rust item, as the macros read it.
pub struct Attribute {
    /// The path begins with `::`.
    pub leading_colon: bool,
    /// The identifiers of the path's segments, each as it is written
    /// (a raw identifier keeps its `r#`).
    pub segments: Vec<String>,
    /// The tokens that follow the path, as text: `= "text"` in
    /// `#[doc = "text"]`.
    pub tokens: String,
}

/// Why the text of a doc attribute could not be read.
#[derive(Debug, PartialEq, Eq, Structural)]
pub enum DocAttrError {
    /// The attribute does not read as `doc = "literal"`.
    NotNameValueStr,
}

/// The value of the string literal `l` when `text` parses, as Rust syntax,
/// as the meta item `path = l`; `None` when it parses otherwise or not at
/// all.
pub uninterp spec fn meta_name_value_str(text: Seq<char>) -> Option<Seq<char>>;

/// Parses `text` with `syn::parse_str::<syn::Meta>` and, when the result is
/// `Meta::NameValue` whose literal is `Lit::Str`, returns that literal's
/// value (`LitStr::value`, escapes resolved). Nothing more is claimed of
/// syn's parser than that the result is this function of `text`.
#[verifier::external_body]
fn parse_name_value_str(text: &str) -> (r: Option<String>)
    ensures
        r is Some <==> meta_name_value_str(text@) is Some,
        r is Some ==> r->0@ == meta_name_value_str(text@)->0,
{
    match syn::parse_str::<syn::Meta>(text) {
        Ok(syn::Meta::NameValue(syn::MetaNameValue { lit: syn::Lit::Str(s), .. })) => Some(
            s.value(),
        ),
        _ => None,
    }
}

/// The path of `attr` is the single identifier `name`, with no leading `::`.
pub open spec fn has_attr_name(attr: Attribute, name: Seq<char>) -> bool {
    &&& !attr.leading_colon
    &&& attr.segments@.len() == 1
    &&& attr.segments@[0]@ == name
}

/// The text of a doc attribute `attr` read as a meta item: its path `doc`
/// followed by its tokens.
pub open spec fn doc_meta_text(attr: Attribute) -> Seq<char> {
    "doc "@ + attr.tokens@
}

/// Whether the path of `attr` is the single identifier `name`.
pub fn is_attr_name(attr: &Attribute, name: &str) -> (r: bool)
    ensures
        r == has_attr_name(*attr, name@),
{
    !attr.leading_colon && attr.segments.len() == 1 && str_eq(attr.segments[0].as_str(), name)
}

fn doc_meta_text_of(attr: &Attribute) -> (r: String)
    ensures
        r@ == doc_meta_text(*attr),
{
    let mut text = String::from_str("doc ");
    text.append(attr.tokens.as_str());
    text
}

/// The text of the doc attribute `attr`, `#[doc = "text"]`; `None` when
/// `attr` is not a doc attribute.
pub fn doc_str(attr: &Attribute) -> (r: Option<String>)
    requires
        has_attr_name(*attr, "doc"@) ==> meta_name_value_str(doc_meta_text(*attr)) is Some,
    ensures
        has_attr_name(*attr, "doc"@) ==> r is Some && r->0@ == meta_name_value_str(
            doc_meta_text(*attr),
        )->0,
        !has_attr_name(*attr, "doc"@) ==> r is None,
{
    if !is_attr_name(attr, "doc") {
        return None;
    }
    parse_name_value_str(doc_meta_text_of(attr).as_str())
}

/// The reading of `attr` once its text has been parsed as a meta item:
/// `parsed` is the value of its string literal when it reads as
/// `doc = "literal"`, `None` when it reads otherwise.
pub fn doc_str_from_meta(attr: &Attribute, parsed: Option<String>) -> (r: Result<
    Option<String>,
    DocAttrError,
>)
    ensures
        !has_attr_name(*attr, "doc"@) ==> r == Ok::<Option<String>, DocAttrError>(None),
        has_attr_name(*attr, "doc"@) && parsed is None ==> r == Err::<
            Option<String>,
            DocAttrError,
        >(DocAttrError::NotNameValueStr),
        has_attr_name(*attr, "doc"@) && parsed is Some ==> r == Ok::<
            Option<String>,
            DocAttrError,
        >(parsed),
{
    if !is_attr_name(attr, "doc") {
        return Ok(None);
    }
    match parsed {
        Some(text) => Ok(Some(text)),
        None => Err(DocAttrError::NotNameValueStr),
    }
}

/// As `doc_str`, but a doc attribute that does not read as
/// `doc = "literal"` gives an error.
pub fn try_doc_str(attr: &Attribute) -> (r: Result<Option<String>, DocAttrError>)
    ensures
        !has_attr_name(*attr, "doc"@) ==> r == Ok::<Option<String>, DocAttrError>(None),
        has_attr_name(*attr, "doc"@) && meta_name_value_str(doc_meta_text(*attr)) is None ==> r
            == Err::<Option<String>, DocAttrError>(DocAttrError::NotNameValueStr),
        has_attr_name(*attr, "doc"@) && meta_name_value_str(doc_meta_text(*attr)) is Some ==> r
            is Ok && r->Ok_0 is Some && r->Ok_0->0@ == meta_name_value_str(
            doc_meta_text(*attr),
        )->0,
{
    if is_attr_name(attr, "doc") {
        let parsed = parse_name_value_str(doc_meta_text_of(attr).as_str());
        if let Err(e) = doc_str_from_meta(attr, parsed) {
            return Err(e);
        }
    }
    Ok(doc_str(attr))
}

} // verus!
