//! Turning a parsed tree into Markdown text: the content-walking rules
//! shared by the article and answer extractors, with an exact specification
//! of what each subtree contributes.

use vstd::prelude::*;

use crate::node::NodeKind;
use crate::node::attr_of;
use crate::text::has_class_token;
use crate::text::trim;
use crate::tree::Html;

verus! {

/// Whether element `e` carries `cls` among its class tokens.
pub open spec fn spec_has_class(e: crate::node::ElementData, cls: Seq<char>) -> bool {
    match attr_of(e.attrs@, 0, "class"@) {
        Some(v) => has_class_token(v, cls),
        None => false,
    }
}

/// The image source that a `figure` subtree contributes: the first node in
/// document order with class `img` and a nonempty `data-original`
/// attribute.
pub open spec fn fig_pick(t: Html, i: int) -> Option<Seq<char>>
    decreases t.nodes@.len() - i, 1int, 0int,
    when t.wf() && 0 <= i < t.nodes@.len()
{
    let n = t.nodes@[i];
    if n.kind matches NodeKind::Element(e) && spec_has_class(e, "img"@) && (attr_of(
        e.attrs@,
        0,
        "data-original"@,
    ) matches Some(u) && u.len() > 0) {
        attr_of(n.kind->Element_0.attrs@, 0, "data-original"@)
    } else {
        fig_kids(t, i, 0)
    }
}

/// The image source found among the children of `i` from position `k` on.
pub open spec fn fig_kids(t: Html, i: int, k: int) -> Option<Seq<char>>
    decreases t.nodes@.len() - i, 0int, t.nodes@[i].children@.len() - k,
    when t.wf() && 0 <= i < t.nodes@.len() && 0 <= k
{
    let cs = t.nodes@[i].children@;
    if k >= cs.len() {
        None
    } else if i < cs[k] < t.nodes@.len() {
        match fig_pick(t, cs[k] as int) {
            Some(u) => Some(u),
            None => fig_kids(t, i, k + 1),
        }
    } else {
        None
    }
}

/// What the subtree at `i` contributes to the Markdown output, and whether
/// the walk succeeded.  On failure (an element kind the walk does not
/// know), the text gathered up to that point still stands.  `rich` enables
/// the line-break and figure rules of the article walker.
pub open spec fn md_node(t: Html, i: int, rich: bool) -> (Seq<char>, bool)
    decreases t.nodes@.len() - i, 1int, 0int,
    when t.wf() && 0 <= i < t.nodes@.len()
{
    match t.nodes@[i].kind {
        NodeKind::Text(x) => (trim(x@), true),
        NodeKind::Element(e) => {
            if e.name@ == "p"@ {
                let (c, ok) = md_kids(t, i, 0, rich);
                if ok {
                    (c + "\n\n"@, true)
                } else {
                    (c, false)
                }
            } else if e.name@ == "span"@ {
                if spec_has_class(e, "ztext-math"@) {
                    match attr_of(e.attrs@, 0, "data-tex"@) {
                        Some(v) => (" $$"@ + v + "$$ "@, true),
                        None => (Seq::empty(), true),
                    }
                } else {
                    md_kids(t, i, 0, rich)
                }
            } else if rich && e.name@ == "br"@ {
                ("\n"@, true)
            } else if rich && e.name@ == "figure"@ {
                match fig_pick(t, i) {
                    Some(u) => ("![]("@ + u + ")"@, true),
                    None => (Seq::empty(), true),
                }
            } else {
                (Seq::empty(), false)
            }
        },
        _ => (Seq::empty(), true),
    }
}

/// The concatenated contributions of the children of `i` from position `k`
/// on, stopping at (and keeping the partial text of) the first failing
/// child.
pub open spec fn md_kids(t: Html, i: int, k: int, rich: bool) -> (Seq<char>, bool)
    decreases t.nodes@.len() - i, 0int, t.nodes@[i].children@.len() - k,
    when t.wf() && 0 <= i < t.nodes@.len() && 0 <= k
{
    let cs = t.nodes@[i].children@;
    if k >= cs.len() {
        (Seq::empty(), true)
    } else if i < cs[k] < t.nodes@.len() {
        let (h, ok) = md_node(t, cs[k] as int, rich);
        if !ok {
            (h, false)
        } else {
            let (r, ok2) = md_kids(t, i, k + 1, rich);
            (h + r, ok2)
        }
    } else {
        (Seq::empty(), false)
    }
}

/// Searches a subtree for the first usable image source, exactly
/// `fig_pick`.
fn fig_pick_ex(t: &Html, i: usize) -> (r: Option<String>)
    requires
        t.wf(),
        i < t.nodes@.len(),
    ensures
        match r {
            Some(u) => fig_pick(*t, i as int) == Some(u@),
            None => fig_pick(*t, i as int) is None,
        },
    decreases t.nodes@.len() - i, 1int,
{
    match &t.nodes[i].kind {
        NodeKind::Element(e) => {
            if e.has_class("img") {
                match e.get_attribute("data-original") {
                    Some(u) => {
                        if u.as_str().unicode_len() > 0 {
                            return Some(String::from_str(u.as_str()));
                        }
                    },
                    None => {},
                }
            }
        },
        _ => {},
    }
    let n = t.nodes[i].children.len();
    let mut k: usize = 0;
    while k < n
        invariant
            t.wf(),
            i < t.nodes@.len(),
            n == t.nodes@[i as int].children@.len(),
            0 <= k <= n,
            fig_pick(*t, i as int) == fig_kids(*t, i as int, k as int),
        decreases n - k,
    {
        proof {
            assert(t.node_ok(i as int));
        }
        let c = t.nodes[i].children[k];
        match fig_pick_ex(t, c) {
            Some(u) => {
                return Some(u);
            },
            None => {},
        }
        k += 1;
    }
    None
}

/// Appends the Markdown contribution of the subtree at `i` to `out`,
/// exactly `md_node`.  On failure the error holds the tag name of the
/// element the walk has no rule for.
pub fn md_append(t: &Html, i: usize, rich: bool, out: &mut String) -> (r: Result<(), String>)
    requires
        t.wf(),
        i < t.nodes@.len(),
    ensures
        final(out)@ == old(out)@ + md_node(*t, i as int, rich).0,
        (r is Ok) == md_node(*t, i as int, rich).1,
    decreases t.nodes@.len() - i, 1int,
{
    let ghost out0 = out@;
    match &t.nodes[i].kind {
        NodeKind::Text(x) => {
            let piece = crate::text::trim_str(x.as_str());
            out.append(piece.as_str());
            Ok(())
        },
        NodeKind::Element(e) => {
            if crate::text::str_eq(e.name.as_str(), "p") {
                match md_kids_append(t, i, rich, out) {
                    Ok(()) => {
                        out.append("\n\n");
                        proof {
                            assert(out@ =~= out0 + (md_kids(*t, i as int, 0, rich).0 + "\n\n"@));
                        }
                        Ok(())
                    },
                    Err(name) => Err(name),
                }
            } else if crate::text::str_eq(e.name.as_str(), "span") {
                if e.has_class("ztext-math") {
                    match e.get_attribute("data-tex") {
                        Some(v) => {
                            out.append(" $$");
                            out.append(v.as_str());
                            out.append("$$ ");
                            proof {
                                let ee = t.nodes@[i as int].kind->Element_0;
                                assert(out@ =~= out0 + (" $$"@ + attr_of(
                                    ee.attrs@,
                                    0,
                                    "data-tex"@,
                                )->0 + "$$ "@));
                            }
                            Ok(())
                        },
                        None => Ok(()),
                    }
                } else {
                    md_kids_append(t, i, rich, out)
                }
            } else if rich && crate::text::str_eq(e.name.as_str(), "br") {
                out.append("\n");
                Ok(())
            } else if rich && crate::text::str_eq(e.name.as_str(), "figure") {
                match fig_pick_ex(t, i) {
                    Some(u) => {
                        out.append("![](");
                        out.append(u.as_str());
                        out.append(")");
                        proof {
                            assert(out@ =~= out0 + ("![]("@ + fig_pick(*t, i as int)->0 + ")"@));
                        }
                        Ok(())
                    },
                    None => Ok(()),
                }
            } else {
                Err(String::from_str(e.name.as_str()))
            }
        },
        _ => Ok(()),
    }
}

/// Appends the contributions of the children of `i`, exactly `md_kids`.
pub fn md_kids_append(t: &Html, i: usize, rich: bool, out: &mut String) -> (r: Result<(), String>)
    requires
        t.wf(),
        i < t.nodes@.len(),
    ensures
        final(out)@ == old(out)@ + md_kids(*t, i as int, 0, rich).0,
        (r is Ok) == md_kids(*t, i as int, 0, rich).1,
    decreases t.nodes@.len() - i, 0int,
{
    let ghost out0 = out@;
    let n = t.nodes[i].children.len();
    let mut k: usize = 0;
    while k < n
        invariant
            t.wf(),
            i < t.nodes@.len(),
            n == t.nodes@[i as int].children@.len(),
            0 <= k <= n,
            out0 == old(out)@,
            ({
                let (pre, okpre) = md_kids(*t, i as int, 0, rich);
                let (rest, okrest) = md_kids(*t, i as int, k as int, rich);
                &&& out@ + rest == out0 + pre
                &&& okrest == okpre
            }),
        decreases n - k,
    {
        proof {
            assert(t.node_ok(i as int));
        }
        let c = t.nodes[i].children[k];
        let ghost before = out@;
        let res = md_append(t, c, rich, out);
        proof {
            let (h, okh) = md_node(*t, c as int, rich);
            let (r2, ok2) = md_kids(*t, i as int, k + 1, rich);
            if okh {
                assert(md_kids(*t, i as int, k as int, rich).0 == h + r2);
                assert(out@ + r2 =~= before + md_kids(*t, i as int, k as int, rich).0);
            } else {
                assert(md_kids(*t, i as int, k as int, rich).0 == h);
                assert(out@ =~= out0 + md_kids(*t, i as int, 0, rich).0);
            }
        }
        match res {
            Ok(()) => {},
            Err(name) => {
                proof {
                    assert(out@ =~= out0 + md_kids(*t, i as int, 0, rich).0);
                }
                return Err(name);
            },
        }
        k += 1;
    }
    proof {
        assert(out@ + md_kids(*t, i as int, n as int, rich).0 =~= out@);
    }
    Ok(())
}

} // verus!
