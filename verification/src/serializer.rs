//! Rendering a (sub)tree back into HTML text, against an exact
//! specification of the output.

use vstd::prelude::*;

use crate::node::Attribute;
use crate::node::DoctypeData;
use crate::node::NodeKind;
use crate::text::lower;
use crate::tree::Html;

verus! {

/// Whether serialization renders the node itself or only its children.
#[derive(Clone, Copy, PartialEq, Eq, Structural, Debug)]
pub enum TraversalScope {
    IncludeNode,
    ChildrenOnly,
}

/// The escape of one ordinary text character.
pub open spec fn esc_text_char(c: char) -> Seq<char> {
    if c == '&' {
        "&amp;"@
    } else if c == '<' {
        "&lt;"@
    } else if c == '>' {
        "&gt;"@
    } else if c == '\u{a0}' {
        "&nbsp;"@
    } else {
        seq![c]
    }
}

/// The escape of a whole text run.
pub open spec fn esc_text(s: Seq<char>) -> Seq<char>
    decreases s.len(),
{
    if s.len() == 0 {
        Seq::empty()
    } else {
        esc_text(s.drop_last()) + esc_text_char(s.last())
    }
}

/// The escape of one attribute-value character.
pub open spec fn esc_attr_char(c: char) -> Seq<char> {
    if c == '&' {
        "&amp;"@
    } else if c == '"' {
        "&quot;"@
    } else if c == '\u{a0}' {
        "&nbsp;"@
    } else {
        seq![c]
    }
}

/// The escape of a whole attribute value.
pub open spec fn esc_attr(s: Seq<char>) -> Seq<char>
    decreases s.len(),
{
    if s.len() == 0 {
        Seq::empty()
    } else {
        esc_attr(s.drop_last()) + esc_attr_char(s.last())
    }
}

/// The fixed set of void elements: they render without children or a
/// closing tag.
pub open spec fn is_void(name: Seq<char>) -> bool {
    let n = lower(name);
    ||| n == "area"@
    ||| n == "base"@
    ||| n == "basefont"@
    ||| n == "bgsound"@
    ||| n == "br"@
    ||| n == "col"@
    ||| n == "embed"@
    ||| n == "frame"@
    ||| n == "hr"@
    ||| n == "img"@
    ||| n == "input"@
    ||| n == "keygen"@
    ||| n == "link"@
    ||| n == "meta"@
    ||| n == "param"@
    ||| n == "source"@
    ||| n == "track"@
    ||| n == "wbr"@
}

/// The elements whose text children are emitted verbatim, unescaped.
pub open spec fn is_raw_text(name: Seq<char>) -> bool {
    lower(name) == "script"@ || lower(name) == "style"@
}

/// Whether node `i` is a text node directly under a raw-text element.
pub open spec fn text_in_raw(t: Html, i: int) -> bool {
    match t.nodes@[i].parent {
        Some(p) => p < t.nodes@.len() && (t.nodes@[p as int].kind matches NodeKind::Element(e)
            && is_raw_text(e.name@)),
        None => false,
    }
}

/// The rendering of an attribute list from index `k` on.
pub open spec fn attrs_text(attrs: Seq<Attribute>, k: int) -> Seq<char>
    decreases attrs.len() - k,
    when 0 <= k <= attrs.len()
{
    if k >= attrs.len() {
        Seq::empty()
    } else {
        " "@ + attrs[k].name@ + "=\""@ + esc_attr(attrs[k].value@) + "\""@ + attrs_text(
            attrs,
            k + 1,
        )
    }
}

/// The identifier part of a doctype rendering.
pub open spec fn doctype_ids(d: DoctypeData) -> Seq<char> {
    if d.public_id@.len() == 0 && d.system_id@.len() == 0 {
        Seq::empty()
    } else if d.public_id@.len() > 0 {
        let tail: Seq<char> = if d.system_id@.len() > 0 {
            " \""@ + d.system_id@ + "\""@
        } else {
            Seq::empty()
        };
        " PUBLIC \""@ + d.public_id@ + "\""@ + tail
    } else {
        " SYSTEM \""@ + d.system_id@ + "\""@
    }
}

/// The canonical HTML rendering of node `i`, with or without the node
/// itself.
pub open spec fn ser_node(t: Html, i: int, with_self: bool) -> Seq<char>
    decreases t.nodes@.len() - i, 1int, 0int,
    when t.wf() && 0 <= i < t.nodes@.len()
{
    if !with_self {
        ser_kids(t, i, 0)
    } else {
        match t.nodes@[i].kind {
            NodeKind::Document => ser_kids(t, i, 0),
            NodeKind::Fragment => ser_kids(t, i, 0),
            NodeKind::Doctype(d) => "<!DOCTYPE "@ + d.name@ + doctype_ids(d) + ">"@,
            NodeKind::Comment(c) => "<!--"@ + c@ + "-->"@,
            NodeKind::Text(x) => if text_in_raw(t, i) {
                x@
            } else {
                esc_text(x@)
            },
            NodeKind::ProcessingInstruction(x) => "<?"@ + x@ + ">"@,
            NodeKind::Element(e) => {
                let open_tag = "<"@ + e.name@ + attrs_text(e.attrs@, 0) + ">"@;
                if is_void(e.name@) {
                    open_tag
                } else {
                    open_tag + ser_kids(t, i, 0) + "</"@ + e.name@ + ">"@
                }
            },
        }
    }
}

/// The concatenated renderings of the children of `i`, from child position
/// `k` on.
pub open spec fn ser_kids(t: Html, i: int, k: int) -> Seq<char>
    decreases t.nodes@.len() - i, 0int, t.nodes@[i].children@.len() - k,
    when t.wf() && 0 <= i < t.nodes@.len() && 0 <= k
{
    let cs = t.nodes@[i].children@;
    if k >= cs.len() {
        Seq::empty()
    } else if i < cs[k] < t.nodes@.len() {
        ser_node(t, cs[k] as int, true) + ser_kids(t, i, k + 1)
    } else {
        ser_kids(t, i, k + 1)
    }
}

/// Escapes a text run, exactly `esc_text`.
fn esc_text_ex(x: &str) -> (r: String)
    ensures
        r@ == esc_text(x@),
{
    let n = x.unicode_len();
    let mut out = String::new();
    let mut k: usize = 0;
    while k < n
        invariant
            n == x@.len(),
            0 <= k <= n,
            out@ == esc_text(x@.subrange(0, k as int)),
        decreases n - k,
    {
        let c = x.get_char(k);
        proof {
            assert(x@.subrange(0, k + 1 as int).drop_last() =~= x@.subrange(0, k as int));
            assert(x@.subrange(0, k + 1 as int).last() == x@[k as int]);
        }
        if c == '&' {
            out.append("&amp;");
        } else if c == '<' {
            out.append("&lt;");
        } else if c == '>' {
            out.append("&gt;");
        } else if c == '\u{a0}' {
            out.append("&nbsp;");
        } else {
            out.push(c);
        }
        k += 1;
    }
    proof {
        assert(x@.subrange(0, n as int) =~= x@);
    }
    out
}

/// Escapes an attribute value, exactly `esc_attr`.
fn esc_attr_ex(x: &str) -> (r: String)
    ensures
        r@ == esc_attr(x@),
{
    let n = x.unicode_len();
    let mut out = String::new();
    let mut k: usize = 0;
    while k < n
        invariant
            n == x@.len(),
            0 <= k <= n,
            out@ == esc_attr(x@.subrange(0, k as int)),
        decreases n - k,
    {
        let c = x.get_char(k);
        proof {
            assert(x@.subrange(0, k + 1 as int).drop_last() =~= x@.subrange(0, k as int));
            assert(x@.subrange(0, k + 1 as int).last() == x@[k as int]);
        }
        if c == '&' {
            out.append("&amp;");
        } else if c == '"' {
            out.append("&quot;");
        } else if c == '\u{a0}' {
            out.append("&nbsp;");
        } else {
            out.push(c);
        }
        k += 1;
    }
    proof {
        assert(x@.subrange(0, n as int) =~= x@);
    }
    out
}

/// Renders an attribute list, exactly `attrs_text`.
fn attrs_text_ex(attrs: &Vec<Attribute>) -> (r: String)
    ensures
        r@ == attrs_text(attrs@, 0),
{
    let n = attrs.len();
    let mut out = String::new();
    let mut k: usize = 0;
    while k < n
        invariant
            n == attrs@.len(),
            0 <= k <= n,
            out@ + attrs_text(attrs@, k as int) == attrs_text(attrs@, 0),
        decreases n - k,
    {
        let ghost out0 = out@;
        out.append(" ");
        out.append(attrs[k].name.as_str());
        out.append("=\"");
        let v = esc_attr_ex(attrs[k].value.as_str());
        out.append(v.as_str());
        out.append("\"");
        proof {
            let piece = " "@ + attrs@[k as int].name@ + "=\""@ + esc_attr(
                attrs@[k as int].value@,
            ) + "\""@;
            assert(out@ =~= out0 + piece);
            assert(attrs_text(attrs@, k as int) == piece + attrs_text(attrs@, k + 1));
            assert(out@ + attrs_text(attrs@, k + 1) =~= out0 + attrs_text(attrs@, k as int));
        }
        k += 1;
    }
    out
}

/// Tests a tag name against the void-element set, exactly `is_void`.
fn is_void_ex(name: &str) -> (r: bool)
    ensures
        r == is_void(name@),
{
    let low = crate::text::lower_str(name);
    let n = low.as_str();
    crate::text::str_eq(n, "area") || crate::text::str_eq(n, "base") || crate::text::str_eq(
        n,
        "basefont",
    ) || crate::text::str_eq(n, "bgsound") || crate::text::str_eq(n, "br") || crate::text::str_eq(
        n,
        "col",
    ) || crate::text::str_eq(n, "embed") || crate::text::str_eq(n, "frame") || crate::text::str_eq(
        n,
        "hr",
    ) || crate::text::str_eq(n, "img") || crate::text::str_eq(n, "input") || crate::text::str_eq(
        n,
        "keygen",
    ) || crate::text::str_eq(n, "link") || crate::text::str_eq(n, "meta") || crate::text::str_eq(
        n,
        "param",
    ) || crate::text::str_eq(n, "source") || crate::text::str_eq(n, "track")
        || crate::text::str_eq(n, "wbr")
}

impl Html {
    /// Renders node `i`, either the node itself with its subtree or its
    /// children only.  Serialization to a string is total: it never fails
    /// on a well-formed tree.
    pub fn serialize(&self, i: usize, scope: TraversalScope) -> (r: String)
        requires
            self.wf(),
            i < self.nodes@.len(),
        ensures
            r@ == ser_node(*self, i as int, scope is IncludeNode),
        decreases self.nodes@.len() - i, 1int,
    {
        if matches!(scope, TraversalScope::ChildrenOnly) {
            return self.serialize_children(i);
        }
        match &self.nodes[i].kind {
            NodeKind::Document => self.serialize_children(i),
            NodeKind::Fragment => self.serialize_children(i),
            NodeKind::Doctype(d) => {
                let mut out = String::from_str("<!DOCTYPE ");
                out.append(d.name.as_str());
                if d.public_id.as_str().unicode_len() == 0 && d.system_id.as_str().unicode_len()
                    == 0 {
                } else if d.public_id.as_str().unicode_len() > 0 {
                    out.append(" PUBLIC \"");
                    out.append(d.public_id.as_str());
                    out.append("\"");
                    if d.system_id.as_str().unicode_len() > 0 {
                        out.append(" \"");
                        out.append(d.system_id.as_str());
                        out.append("\"");
                    }
                } else {
                    out.append(" SYSTEM \"");
                    out.append(d.system_id.as_str());
                    out.append("\"");
                }
                out.append(">");
                proof {
                    assert(out@ =~= ser_node(*self, i as int, true));
                }
                out
            },
            NodeKind::Comment(c) => {
                let mut out = String::from_str("<!--");
                out.append(c.as_str());
                out.append("-->");
                proof {
                    assert(out@ =~= ser_node(*self, i as int, true));
                }
                out
            },
            NodeKind::Text(x) => {
                let raw = match self.nodes[i].parent {
                    Some(p) => {
                        proof {
                            assert(self.node_ok(i as int));
                        }
                        match &self.nodes[p].kind {
                            NodeKind::Element(e) => {
                                let low = crate::text::lower_str(e.name.as_str());
                                crate::text::str_eq(low.as_str(), "script") || crate::text::str_eq(
                                    low.as_str(),
                                    "style",
                                )
                            },
                            _ => false,
                        }
                    },
                    None => false,
                };
                if raw {
                    let out = String::from_str(x.as_str());
                    out
                } else {
                    esc_text_ex(x.as_str())
                }
            },
            NodeKind::ProcessingInstruction(x) => {
                let mut out = String::from_str("<?");
                out.append(x.as_str());
                out.append(">");
                proof {
                    assert(out@ =~= ser_node(*self, i as int, true));
                }
                out
            },
            NodeKind::Element(e) => {
                let mut out = String::from_str("<");
                out.append(e.name.as_str());
                let at = attrs_text_ex(&e.attrs);
                out.append(at.as_str());
                out.append(">");
                if is_void_ex(e.name.as_str()) {
                    proof {
                        assert(out@ =~= ser_node(*self, i as int, true));
                    }
                    out
                } else {
                    let kids = self.serialize_children(i);
                    out.append(kids.as_str());
                    out.append("</");
                    out.append(e.name.as_str());
                    out.append(">");
                    proof {
                        assert(out@ =~= ser_node(*self, i as int, true));
                    }
                    out
                }
            },
        }
    }

    /// Renders the children of `i` in order, exactly `ser_kids`.
    fn serialize_children(&self, i: usize) -> (r: String)
        requires
            self.wf(),
            i < self.nodes@.len(),
        ensures
            r@ == ser_kids(*self, i as int, 0),
        decreases self.nodes@.len() - i, 0int,
    {
        let n = self.nodes[i].children.len();
        let mut out = String::new();
        let mut k: usize = 0;
        while k < n
            invariant
                self.wf(),
                i < self.nodes@.len(),
                n == self.nodes@[i as int].children@.len(),
                0 <= k <= n,
                out@ + ser_kids(*self, i as int, k as int) == ser_kids(*self, i as int, 0),
            decreases n - k,
        {
            proof {
                assert(self.node_ok(i as int));
            }
            let c = self.nodes[i].children[k];
            let ghost out0 = out@;
            let piece = self.serialize(c, TraversalScope::IncludeNode);
            out.append(piece.as_str());
            proof {
                assert(ser_kids(*self, i as int, k as int) == ser_node(*self, c as int, true)
                    + ser_kids(*self, i as int, k + 1));
                assert(out@ + ser_kids(*self, i as int, k + 1) =~= out0 + ser_kids(
                    *self,
                    i as int,
                    k as int,
                ));
            }
            k += 1;
        }
        proof {
            assert(out@ + ser_kids(*self, i as int, n as int) =~= out@);
        }
        out
    }

    /// The rendering of the whole tree, root included.
    pub fn as_html(&self) -> (r: String)
        requires
            self.wf(),
        ensures
            r@ == ser_node(*self, 0, true),
    {
        self.serialize(0, TraversalScope::IncludeNode)
    }

    /// The rendering of the children of `i`: the markup inside the node.
    pub fn inner_html(&self, i: usize) -> (r: String)
        requires
            self.wf(),
            i < self.nodes@.len(),
        ensures
            r@ == ser_node(*self, i as int, false),
    {
        self.serialize(i, TraversalScope::ChildrenOnly)
    }
}

} // verus!
