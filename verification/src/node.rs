//! The tagged content stored in each tree node.

use vstd::prelude::*;

use crate::text::has_class_token;
use crate::text::lower;

verus! {

/// One attribute of an element: a name and a value, in insertion order.
#[derive(Debug)]
pub struct Attribute {
    pub name: String,
    pub value: String,
}

/// The payload of an element node: its tag name and its ordered attributes.
#[derive(Debug)]
pub struct ElementData {
    pub name: String,
    pub attrs: Vec<Attribute>,
}

/// The payload of a doctype node.
#[derive(Debug)]
pub struct DoctypeData {
    pub name: String,
    pub public_id: String,
    pub system_id: String,
}

/// The tagged union of everything a tree node can hold.
#[derive(Debug)]
pub enum NodeKind {
    Document,
    Fragment,
    Doctype(DoctypeData),
    Comment(String),
    Text(String),
    Element(ElementData),
    ProcessingInstruction(String),
}

impl NodeKind {
    /// True exactly when this node is an element.
    pub fn is_element(&self) -> (r: bool)
        ensures
            r == (self is Element),
    {
        match self {
            NodeKind::Element(_) => true,
            _ => false,
        }
    }

    /// The text of a text node, or `None` for every other kind.
    pub fn as_text(&self) -> (r: Option<&String>)
        ensures
            match r {
                Some(t) => self matches NodeKind::Text(u) && t == u,
                None => !(self is Text),
            },
    {
        match self {
            NodeKind::Text(t) => Some(t),
            _ => None,
        }
    }
}

/// The value of the first attribute at or after index `k` whose name equals
/// `name` up to ASCII case.
pub open spec fn attr_of(attrs: Seq<Attribute>, k: int, name: Seq<char>) -> Option<Seq<char>>
    decreases attrs.len() - k,
    when 0 <= k <= attrs.len()
{
    if k >= attrs.len() {
        None
    } else if lower(attrs[k].name@) == lower(name) {
        Some(attrs[k].value@)
    } else {
        attr_of(attrs, k + 1, name)
    }
}

/// Finds the first attribute whose name equals `name` up to ASCII case,
/// returning its index.
pub fn attr_find(attrs: &Vec<Attribute>, name: &str) -> (r: Option<usize>)
    ensures
        match r {
            Some(idx) => {
                &&& idx < attrs@.len()
                &&& attr_of(attrs@, 0, name@) == Some(attrs@[idx as int].value@)
            },
            None => attr_of(attrs@, 0, name@) is None,
        },
{
    let n = attrs.len();
    let mut k: usize = 0;
    while k < n
        invariant
            n == attrs@.len(),
            0 <= k <= n,
            attr_of(attrs@, 0, name@) == attr_of(attrs@, k as int, name@),
        decreases n - k,
    {
        if crate::text::eq_ignore_ascii_case(attrs[k].name.as_str(), name) {
            return Some(k);
        }
        k += 1;
    }
    None
}

impl ElementData {
    /// The value of the attribute named `name` (case-insensitively), if any.
    pub fn get_attribute<'a>(&'a self, name: &str) -> (r: Option<&'a String>)
        ensures
            match r {
                Some(v) => attr_of(self.attrs@, 0, name@) == Some(v@),
                None => attr_of(self.attrs@, 0, name@) is None,
            },
    {
        match attr_find(&self.attrs, name) {
            Some(idx) => Some(&self.attrs[idx].value),
            None => None,
        }
    }

    /// Whether the `class` attribute holds `cls` as a whole token.
    pub fn has_class(&self, cls: &str) -> (r: bool)
        ensures
            r == match attr_of(self.attrs@, 0, "class"@) {
                Some(v) => has_class_token(v, cls@),
                None => false,
            },
    {
        match attr_find(&self.attrs, "class") {
            Some(idx) => crate::text::contains_class_token(self.attrs[idx].value.as_str(), cls),
            None => false,
        }
    }
}

} // verus!
