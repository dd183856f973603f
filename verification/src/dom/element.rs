//! Elements on their own: classes of tag names and simple queries.

use crate::dom::attributes::{has_class_in, Attributes};
use crate::text::{from_chars, lowercase_of, str_eq, str_to_lowercase, subvec, to_chars, trim, trimmed};
use vstd::prelude::*;

verus! {

/// An element outside a document.
#[derive(Debug, Clone)]
pub struct Element {
    /// The tag name, in lowercase.
    pub tag_name: String,
    /// The namespace, where it is not the default one.
    pub namespace: Option<String>,
    /// The attributes.
    pub attributes: Attributes,
}

/// Whether a tag name is that of an element without content.
pub open spec fn is_void_tag(tag: Seq<char>) -> bool {
    tag == "area"@ ||
        tag == "base"@ ||
        tag == "br"@ ||
        tag == "col"@ ||
        tag == "embed"@ ||
        tag == "hr"@ ||
        tag == "img"@ ||
        tag == "input"@ ||
        tag == "link"@ ||
        tag == "meta"@ ||
        tag == "param"@ ||
        tag == "source"@ ||
        tag == "track"@ ||
        tag == "wbr"@
}

/// Whether a tag name is that of an element that starts a block.
pub open spec fn is_block_context_tag(tag: Seq<char>) -> bool {
    tag == "html"@ ||
        tag == "body"@ ||
        tag == "article"@ ||
        tag == "section"@ ||
        tag == "nav"@ ||
        tag == "aside"@ ||
        tag == "header"@ ||
        tag == "footer"@ ||
        tag == "main"@ ||
        tag == "div"@ ||
        tag == "p"@ ||
        tag == "h1"@ ||
        tag == "h2"@ ||
        tag == "h3"@ ||
        tag == "h4"@ ||
        tag == "h5"@ ||
        tag == "h6"@ ||
        tag == "ul"@ ||
        tag == "ol"@ ||
        tag == "li"@ ||
        tag == "table"@ ||
        tag == "form"@ ||
        tag == "fieldset"@ ||
        tag == "blockquote"@ ||
        tag == "pre"@ ||
        tag == "figure"@
}

/// Whether a tag name is that of an element that flows in a line.
pub open spec fn is_inline_tag(tag: Seq<char>) -> bool {
    tag == "a"@ ||
        tag == "abbr"@ ||
        tag == "b"@ ||
        tag == "bdo"@ ||
        tag == "br"@ ||
        tag == "cite"@ ||
        tag == "code"@ ||
        tag == "dfn"@ ||
        tag == "em"@ ||
        tag == "i"@ ||
        tag == "img"@ ||
        tag == "kbd"@ ||
        tag == "label"@ ||
        tag == "q"@ ||
        tag == "samp"@ ||
        tag == "small"@ ||
        tag == "span"@ ||
        tag == "strong"@ ||
        tag == "sub"@ ||
        tag == "sup"@ ||
        tag == "time"@ ||
        tag == "var"@
}

impl Element {
    /// An element without attributes, its tag name put in lowercase.
    pub fn new(tag_name: String, namespace: Option<String>) -> (r: Self)
        ensures
            r.tag_name@ == lowercase_of(tag_name@),
            r.namespace == namespace,
            r.attributes@ == crate::dom::attributes::no_attributes(),
    {
        Element {
            tag_name: str_to_lowercase(tag_name.as_str()),
            namespace,
            attributes: Attributes::new(),
        }
    }

    /// An element with the given attributes, its tag name put in lowercase.
    pub fn with_attributes(tag_name: String, namespace: Option<String>, attributes: Attributes) -> (r:
        Self)
        ensures
            r.tag_name@ == lowercase_of(tag_name@),
            r.namespace == namespace,
            r.attributes == attributes,
    {
        Element { tag_name: str_to_lowercase(tag_name.as_str()), namespace, attributes }
    }

    /// Whether the element can have no content.
    pub fn is_void_element(&self) -> (r: bool)
        ensures
            r == is_void_tag(self.tag_name@),
    {
        let t = self.tag_name.as_str();
        str_eq(t, "area") ||
            str_eq(t, "base") ||
            str_eq(t, "br") ||
            str_eq(t, "col") ||
            str_eq(t, "embed") ||
            str_eq(t, "hr") ||
            str_eq(t, "img") ||
            str_eq(t, "input") ||
            str_eq(t, "link") ||
            str_eq(t, "meta") ||
            str_eq(t, "param") ||
            str_eq(t, "source") ||
            str_eq(t, "track") ||
            str_eq(t, "wbr")
    }

    /// Whether the element starts a block.
    pub fn creates_block_context(&self) -> (r: bool)
        ensures
            r == is_block_context_tag(self.tag_name@),
    {
        let t = self.tag_name.as_str();
        str_eq(t, "html") ||
            str_eq(t, "body") ||
            str_eq(t, "article") ||
            str_eq(t, "section") ||
            str_eq(t, "nav") ||
            str_eq(t, "aside") ||
            str_eq(t, "header") ||
            str_eq(t, "footer") ||
            str_eq(t, "main") ||
            str_eq(t, "div") ||
            str_eq(t, "p") ||
            str_eq(t, "h1") ||
            str_eq(t, "h2") ||
            str_eq(t, "h3") ||
            str_eq(t, "h4") ||
            str_eq(t, "h5") ||
            str_eq(t, "h6") ||
            str_eq(t, "ul") ||
            str_eq(t, "ol") ||
            str_eq(t, "li") ||
            str_eq(t, "table") ||
            str_eq(t, "form") ||
            str_eq(t, "fieldset") ||
            str_eq(t, "blockquote") ||
            str_eq(t, "pre") ||
            str_eq(t, "figure")
    }

    /// Whether the element flows in a line.
    pub fn is_inline(&self) -> (r: bool)
        ensures
            r == is_inline_tag(self.tag_name@),
    {
        let t = self.tag_name.as_str();
        str_eq(t, "a") ||
            str_eq(t, "abbr") ||
            str_eq(t, "b") ||
            str_eq(t, "bdo") ||
            str_eq(t, "br") ||
            str_eq(t, "cite") ||
            str_eq(t, "code") ||
            str_eq(t, "dfn") ||
            str_eq(t, "em") ||
            str_eq(t, "i") ||
            str_eq(t, "img") ||
            str_eq(t, "kbd") ||
            str_eq(t, "label") ||
            str_eq(t, "q") ||
            str_eq(t, "samp") ||
            str_eq(t, "small") ||
            str_eq(t, "span") ||
            str_eq(t, "strong") ||
            str_eq(t, "sub") ||
            str_eq(t, "sup") ||
            str_eq(t, "time") ||
            str_eq(t, "var")
    }
}

/// Simple selector queries on an element's tag name and attributes.
pub struct ElementQuery;

/// Whether an element with this tag name and these attributes answers a
/// simple selector: `#id` asks for that `id` attribute, `.class` for that
/// class, and any other text for that tag name, whatever its case. White
/// space around the selector is dropped.
pub open spec fn answers(tag: Seq<char>, attrs: Map<Seq<char>, Seq<char>>, selector: Seq<char>) -> bool {
    let s = trimmed(selector);
    if s.len() > 0 && s[0] == '#' {
        attrs.contains_key("id"@) && attrs["id"@] == s.drop_first()
    } else if s.len() > 0 && s[0] == '.' {
        has_class_in(attrs, s.drop_first())
    } else {
        tag == lowercase_of(s)
    }
}

impl ElementQuery {
    /// Whether the element answers the simple selector.
    pub fn matches_selector(tag_name: &str, attributes: &Attributes, selector: &str) -> (r: bool)
        ensures
            r == answers(tag_name@, attributes@, selector@),
    {
        let s = trim(&to_chars(selector));
        if s.len() > 0 && s[0] == '#' {
            let want = from_chars(&subvec(&s, 1, s.len()));
            match attributes.id() {
                Some(v) => str_eq(v, want.as_str()),
                None => false,
            }
        } else if s.len() > 0 && s[0] == '.' {
            let want = from_chars(&subvec(&s, 1, s.len()));
            attributes.has_class(want.as_str())
        } else {
            let whole = from_chars(&s);
            let lower = str_to_lowercase(whole.as_str());
            str_eq(tag_name, lower.as_str())
        }
    }
}

} // verus!
