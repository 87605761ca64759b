//! Elements as the stack of open elements sees them: a tag name, a
//! namespace, the attributes, and an identity.

use vstd::prelude::*;

verus! {

/// The namespaces an HTML tree builder puts elements in.
#[derive(Clone, Copy, Debug, PartialEq, Eq, Structural)]
pub enum Namespace {
    /// `http://www.w3.org/1999/xhtml`
    HTML,
    /// `http://www.w3.org/1998/Math/MathML`
    MATHML,
    /// `http://www.w3.org/2000/svg`
    SVG,
    /// `http://www.w3.org/1999/xlink`
    XLINK,
    /// `http://www.w3.org/XML/1998/namespace`
    XML,
    /// `http://www.w3.org/2000/xmlns/`
    XMLNS,
}

/// An attribute of an element, as the start tag gave it.
pub struct Attribute {
    pub name: String,
    pub value: Option<String>,
}

/// An element of the document tree.
///
/// `id` is the element's identity: two values with the same `id` stand for
/// the same element of the tree, as two handles to one shared node do.
pub struct Node {
    pub id: u64,
    pub tag_name: String,
    pub namespace: Namespace,
    pub attributes: Vec<Attribute>,
}

/// `a` and `b` are the same element of the tree.
pub open spec fn same_node(a: Node, b: Node) -> bool {
    a.id == b.id
}

/// `n` is an element of namespace `ns` whose tag name is `name`.
pub open spec fn is_named(n: Node, ns: Namespace, name: Seq<char>) -> bool {
    n.namespace == ns && n.tag_name@ == name
}

/// `n` is an HTML element whose tag name is `name`.
pub open spec fn is_html_named(n: Node, name: Seq<char>) -> bool {
    is_named(n, Namespace::HTML, name)
}

/// Two strings hold the same characters.
pub fn str_eq(a: &str, b: &str) -> (r: bool)
    ensures
        r == (a@ == b@),
{
    let n = a.unicode_len();
    let m = b.unicode_len();
    if n != m {
        return false;
    }
    let mut i: usize = 0;
    while i < n
        invariant
            n == a@.len(),
            m == b@.len(),
            n == m,
            0 <= i <= n,
            forall|j: int| 0 <= j < i ==> a@[j] == b@[j],
        decreases n - i,
    {
        if a.get_char(i) != b.get_char(i) {
            return false;
        }
        i = i + 1;
    }
    assert(a@ =~= b@);
    true
}

impl Node {
    /// Whether this element is in namespace `ns` with tag name `name`.
    pub fn is_named(&self, ns: Namespace, name: &str) -> (r: bool)
        ensures
            r == is_named(*self, ns, name@),
    {
        self.namespace == ns && str_eq(self.tag_name.as_str(), name)
    }

    /// Whether this element is an HTML element with tag name `name`.
    pub fn is_html_named(&self, name: &str) -> (r: bool)
        ensures
            r == is_html_named(*self, name@),
    {
        self.is_named(Namespace::HTML, name)
    }
}

/// Character `c` with the ASCII capitals mapped to lower case, as a code.
pub open spec fn ascii_lower(c: char) -> int {
    if 65 <= (c as u32) <= 90 {
        (c as u32) + 32
    } else {
        c as u32 as int
    }
}

/// `a` and `b` are equal once ASCII capitals are mapped to lower case.
pub open spec fn eq_ignore_ascii_case(a: Seq<char>, b: Seq<char>) -> bool {
    &&& a.len() == b.len()
    &&& forall|i: int| 0 <= i < a.len() ==> ascii_lower(#[trigger] a[i]) == ascii_lower(b[i])
}

fn ascii_lower_code(c: char) -> (r: u32)
    ensures
        r == ascii_lower(c),
{
    let code = c as u32;
    if 65 <= code && code <= 90 {
        code + 32
    } else {
        code
    }
}

/// Two strings are equal up to the case of ASCII letters.
pub fn str_eq_ignore_ascii_case(a: &str, b: &str) -> (r: bool)
    ensures
        r == eq_ignore_ascii_case(a@, b@),
{
    let n = a.unicode_len();
    let m = b.unicode_len();
    if n != m {
        return false;
    }
    let mut i: usize = 0;
    while i < n
        invariant
            n == a@.len(),
            m == b@.len(),
            n == m,
            0 <= i <= n,
            forall|j: int| 0 <= j < i ==> ascii_lower(#[trigger] a@[j]) == ascii_lower(b@[j]),
        decreases n - i,
    {
        let x = ascii_lower_code(a.get_char(i));
        let y = ascii_lower_code(b.get_char(i));
        if x != y {
            assert(ascii_lower(a@[i as int]) != ascii_lower(b@[i as int]));
            return false;
        }
        i = i + 1;
    }
    true
}

/// A MathML text integration point: a MathML `mi`, `mo`, `mn`, `ms` or
/// `mtext` element.
pub open spec fn is_mathml_text_integration_point(n: Node) -> bool {
    let t = n.tag_name@;
    &&& n.namespace == Namespace::MATHML
    &&& (t == "mi"@ || t == "mo"@ || t == "mn"@ || t == "ms"@ || t == "mtext"@)
}

/// The attribute is an `encoding` attribute whose value is, up to ASCII
/// case, `text/html` or `application/xhtml+xml`.
pub open spec fn is_html_encoding_attribute(a: Attribute) -> bool {
    &&& a.name@ == "encoding"@
    &&& a.value is Some
    &&& (eq_ignore_ascii_case(a.value->0@, "text/html"@) || eq_ignore_ascii_case(
        a.value->0@,
        "application/xhtml+xml"@,
    ))
}

/// An HTML integration point: a MathML `annotation-xml` element with an
/// HTML `encoding` attribute, or an SVG `foreignObject`, `desc` or `title`
/// element.
pub open spec fn is_html_integration_point(n: Node) -> bool {
    let t = n.tag_name@;
    ||| (n.namespace == Namespace::MATHML && t == "annotation-xml"@ && exists|i: int|
        0 <= i < n.attributes@.len() && is_html_encoding_attribute(#[trigger] n.attributes@[i]))
    ||| (n.namespace == Namespace::SVG && (t == "foreignObject"@ || t == "desc"@ || t
        == "title"@))
}

impl Attribute {
    fn is_html_encoding(&self) -> (r: bool)
        ensures
            r == is_html_encoding_attribute(*self),
    {
        if !str_eq(self.name.as_str(), "encoding") {
            return false;
        }
        match &self.value {
            Some(v) => str_eq_ignore_ascii_case(v.as_str(), "text/html")
                || str_eq_ignore_ascii_case(v.as_str(), "application/xhtml+xml"),
            None => false,
        }
    }
}

impl Node {
    /// Whether this element is a MathML text integration point.
    pub fn is_mathml_text_integration_point(&self) -> (r: bool)
        ensures
            r == is_mathml_text_integration_point(*self),
    {
        let ns = Namespace::MATHML;
        self.is_named(ns, "mi") || self.is_named(ns, "mo") || self.is_named(ns, "mn")
            || self.is_named(ns, "ms") || self.is_named(ns, "mtext")
    }

    /// Whether this element is an HTML integration point.
    pub fn is_html_integration_point(&self) -> (r: bool)
        ensures
            r == is_html_integration_point(*self),
    {
        if self.is_named(Namespace::MATHML, "annotation-xml") {
            let n = self.attributes.len();
            let mut i: usize = 0;
            while i < n
                invariant
                    n == self.attributes@.len(),
                    is_named(*self, Namespace::MATHML, "annotation-xml"@),
                    0 <= i <= n,
                    forall|j: int| 0 <= j < i ==> !is_html_encoding_attribute(
                        #[trigger] self.attributes@[j],
                    ),
                decreases n - i,
            {
                if self.attributes[i].is_html_encoding() {
                    assert(is_html_encoding_attribute(self.attributes@[i as int]));
                    return true;
                }
                i = i + 1;
            }
            false
        } else {
            let ns = Namespace::SVG;
            self.is_named(ns, "foreignObject") || self.is_named(ns, "desc") || self.is_named(
                ns,
                "title",
            )
        }
    }
}

} // verus!
