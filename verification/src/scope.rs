//! The element types that bound the scopes of the stack of open elements,
//! and the rules by which the stack pops its current node.

use vstd::prelude::*;

use crate::node::{
    is_html_integration_point, is_html_named, is_mathml_text_integration_point, str_eq, Namespace,
    Node,
};

verus! {

/// The lists of element types that bound a scope.
#[derive(Clone, Copy, Debug, PartialEq, Eq, Structural)]
pub enum ScopeList {
    /// The "has an element in scope" list.
    Specific,
    /// The scope list plus HTML `ol` and `ul`.
    ListItem,
    /// The scope list plus HTML `button`.
    Button,
    /// HTML `html`, `table` and `template`.
    Table,
}

/// `n` is one of the element types of the "has an element in scope" list:
/// HTML `applet`, `caption`, `html`, `marquee`, `object`, `table`, `td`,
/// `template`, `th`; MathML `annotation-xml`, `mi`, `mn`, `mo`, `ms`,
/// `mtext`; SVG `desc`, `foreignObject`, `title`.
pub open spec fn is_specific_scope_marker(n: Node) -> bool {
    let t = n.tag_name@;
    ||| (n.namespace == Namespace::HTML && (t == "applet"@ || t == "caption"@ || t == "html"@
        || t == "marquee"@ || t == "object"@ || t == "table"@ || t == "td"@ || t
        == "template"@ || t == "th"@))
    ||| (n.namespace == Namespace::MATHML && (t == "annotation-xml"@ || t == "mi"@ || t
        == "mn"@ || t == "mo"@ || t == "ms"@ || t == "mtext"@))
    ||| (n.namespace == Namespace::SVG && (t == "desc"@ || t == "foreignObject"@ || t
        == "title"@))
}

/// `n` is one of the element types of `list`.
pub open spec fn is_scope_marker(list: ScopeList, n: Node) -> bool {
    match list {
        ScopeList::Specific => is_specific_scope_marker(n),
        ScopeList::ListItem => is_specific_scope_marker(n) || is_html_named(n, "ol"@)
            || is_html_named(n, "ul"@),
        ScopeList::Button => is_specific_scope_marker(n) || is_html_named(n, "button"@),
        ScopeList::Table => is_html_named(n, "html"@) || is_html_named(n, "table"@)
            || is_html_named(n, "template"@),
    }
}

/// Walking `s` from the current node down, an HTML element named `tag_name`
/// comes before any element of the types of `list`.
pub open spec fn has_in_specific_scope(s: Seq<Node>, tag_name: Seq<char>, list: ScopeList) -> bool
    decreases s.len(),
{
    if s.len() == 0 {
        false
    } else if is_html_named(s.last(), tag_name) {
        true
    } else if is_scope_marker(list, s.last()) {
        false
    } else {
        has_in_specific_scope(s.drop_last(), tag_name, list)
    }
}

/// Walking `s` from the current node down, the element `target` comes
/// before any element of the "has an element in scope" list.
pub open spec fn has_node_in_specific_scope(s: Seq<Node>, target: Node) -> bool
    decreases s.len(),
{
    if s.len() == 0 {
        false
    } else if s.last().id == target.id {
        true
    } else if is_specific_scope_marker(s.last()) {
        false
    } else {
        has_node_in_specific_scope(s.drop_last(), target)
    }
}

/// `n` is an HTML `optgroup` or `option` element: the only element types
/// that do not bound the select scope.
pub open spec fn is_select_scope_exception(n: Node) -> bool {
    is_html_named(n, "optgroup"@) || is_html_named(n, "option"@)
}

/// Walking `s` from the current node down, an HTML element named `tag_name`
/// comes before any element other than HTML `optgroup` and `option`.
pub open spec fn has_in_select_scope(s: Seq<Node>, tag_name: Seq<char>) -> bool
    decreases s.len(),
{
    if s.len() == 0 {
        false
    } else if is_html_named(s.last(), tag_name) {
        true
    } else if !is_select_scope_exception(s.last()) {
        false
    } else {
        has_in_select_scope(s.drop_last(), tag_name)
    }
}

/// The current node is to be popped while it satisfies one of these rules.
#[derive(Clone, Copy)]
pub enum PopRule<'a> {
    /// Not an HTML `table`, `template` or `html` element.
    NotTableContext,
    /// Not an HTML `tr`, `template` or `html` element.
    NotTableRowContext,
    /// Not an HTML `thead`, `tfoot`, `tbody`, `template` or `html` element.
    NotTableBodyContext,
    /// An HTML element with an implied end tag.
    ImpliedEndTag,
    /// An HTML element with an implied end tag, other than the HTML element
    /// with the given tag name.
    ImpliedEndTagExcept(&'a str),
    /// An HTML element whose end tag is implied when generating them
    /// thoroughly.
    ImpliedEndTagThorough,
    /// Neither an HTML element nor a MathML text or HTML integration point.
    NotForeignContentBoundary,
}

/// The tag names whose end tags are implied: `dd`, `dt`, `li`, `optgroup`,
/// `option`, `p`, `rb`, `rp`, `rt`, `rtc`.
pub open spec fn is_implied_end_tag_name(t: Seq<char>) -> bool {
    t == "dd"@ || t == "dt"@ || t == "li"@ || t == "optgroup"@ || t == "option"@ || t == "p"@
        || t == "rb"@ || t == "rp"@ || t == "rt"@ || t == "rtc"@
}

/// The tag names whose end tags are implied when generating them thoroughly:
/// the implied ones and `caption`, `colgroup`, `tbody`, `td`, `tfoot`, `th`,
/// `thead`, `tr`.
pub open spec fn is_thoroughly_implied_end_tag_name(t: Seq<char>) -> bool {
    is_implied_end_tag_name(t) || t == "caption"@ || t == "colgroup"@ || t == "tbody"@ || t
        == "td"@ || t == "tfoot"@ || t == "th"@ || t == "thead"@ || t == "tr"@
}

/// `n` is to be popped under `rule`.
pub open spec fn pops(rule: PopRule, n: Node) -> bool {
    let html = n.namespace == Namespace::HTML;
    let t = n.tag_name@;
    match rule {
        PopRule::NotTableContext => !(html && (t == "table"@ || t == "template"@ || t
            == "html"@)),
        PopRule::NotTableRowContext => !(html && (t == "tr"@ || t == "template"@ || t
            == "html"@)),
        PopRule::NotTableBodyContext => !(html && (t == "thead"@ || t == "tfoot"@ || t
            == "tbody"@ || t == "template"@ || t == "html"@)),
        PopRule::ImpliedEndTag => html && is_implied_end_tag_name(t),
        PopRule::ImpliedEndTagExcept(excluded) => !(html && t == excluded@) && html
            && is_implied_end_tag_name(t),
        PopRule::ImpliedEndTagThorough => html && is_thoroughly_implied_end_tag_name(t),
        PopRule::NotForeignContentBoundary => !html && !is_mathml_text_integration_point(n)
            && !is_html_integration_point(n),
    }
}

/// `s` after popping its current node for as long as the current node is
/// to be popped under `rule`.
pub open spec fn popped_while(s: Seq<Node>, rule: PopRule) -> Seq<Node>
    decreases s.len(),
{
    if s.len() > 0 && pops(rule, s.last()) {
        popped_while(s.drop_last(), rule)
    } else {
        s
    }
}

/// Whether `n` is one of the element types of `list`.
pub fn is_scope_marker_node(list: ScopeList, n: &Node) -> (r: bool)
    ensures
        r == is_scope_marker(list, *n),
{
    match list {
        ScopeList::Specific => is_specific_scope_marker_node(n),
        ScopeList::ListItem => is_specific_scope_marker_node(n) || n.is_html_named("ol")
            || n.is_html_named("ul"),
        ScopeList::Button => is_specific_scope_marker_node(n) || n.is_html_named("button"),
        ScopeList::Table => n.is_html_named("html") || n.is_html_named("table")
            || n.is_html_named("template"),
    }
}

fn is_specific_scope_marker_node(n: &Node) -> (r: bool)
    ensures
        r == is_specific_scope_marker(*n),
{
    let h = Namespace::HTML;
    let m = Namespace::MATHML;
    let s = Namespace::SVG;
    n.is_named(h, "applet") || n.is_named(h, "caption") || n.is_named(h, "html") || n.is_named(
        h,
        "marquee",
    ) || n.is_named(h, "object") || n.is_named(h, "table") || n.is_named(h, "td")
        || n.is_named(h, "template") || n.is_named(h, "th") || n.is_named(m, "annotation-xml")
        || n.is_named(m, "mi") || n.is_named(m, "mn") || n.is_named(m, "mo") || n.is_named(
        m,
        "ms",
    ) || n.is_named(m, "mtext") || n.is_named(s, "desc") || n.is_named(s, "foreignObject")
        || n.is_named(s, "title")
}

/// Whether `n` is an HTML `optgroup` or `option` element.
pub fn is_select_scope_exception_node(n: &Node) -> (r: bool)
    ensures
        r == is_select_scope_exception(*n),
{
    n.is_html_named("optgroup") || n.is_html_named("option")
}

fn is_implied_end_tag_name_str(t: &str) -> (r: bool)
    ensures
        r == is_implied_end_tag_name(t@),
{
    str_eq(t, "dd") || str_eq(t, "dt") || str_eq(t, "li") || str_eq(t, "optgroup") || str_eq(
        t,
        "option",
    ) || str_eq(t, "p") || str_eq(t, "rb") || str_eq(t, "rp") || str_eq(t, "rt") || str_eq(
        t,
        "rtc",
    )
}

fn is_thoroughly_implied_end_tag_name_str(t: &str) -> (r: bool)
    ensures
        r == is_thoroughly_implied_end_tag_name(t@),
{
    is_implied_end_tag_name_str(t) || str_eq(t, "caption") || str_eq(t, "colgroup") || str_eq(
        t,
        "tbody",
    ) || str_eq(t, "td") || str_eq(t, "tfoot") || str_eq(t, "th") || str_eq(t, "thead")
        || str_eq(t, "tr")
}

/// Whether `n` is to be popped under `rule`.
pub fn node_pops(rule: PopRule, n: &Node) -> (r: bool)
    ensures
        r == pops(rule, *n),
{
    let html = n.namespace == Namespace::HTML;
    let t = n.tag_name.as_str();
    match rule {
        PopRule::NotTableContext => !(html && (str_eq(t, "table") || str_eq(t, "template")
            || str_eq(t, "html"))),
        PopRule::NotTableRowContext => !(html && (str_eq(t, "tr") || str_eq(t, "template")
            || str_eq(t, "html"))),
        PopRule::NotTableBodyContext => !(html && (str_eq(t, "thead") || str_eq(t, "tfoot")
            || str_eq(t, "tbody") || str_eq(t, "template") || str_eq(t, "html"))),
        PopRule::ImpliedEndTag => html && is_implied_end_tag_name_str(t),
        PopRule::ImpliedEndTagExcept(excluded) => !(html && str_eq(t, excluded)) && html
            && is_implied_end_tag_name_str(t),
        PopRule::ImpliedEndTagThorough => html && is_thoroughly_implied_end_tag_name_str(t),
        PopRule::NotForeignContentBoundary => !html && !n.is_mathml_text_integration_point()
            && !n.is_html_integration_point(),
    }
}

} // verus!
