//! Small query helpers shared by the extractors.

use vstd::prelude::*;

use crate::node::NodeKind;
use crate::query::first_match_from;
use crate::selector::Selector;
use crate::selector::SelectorSpec;
use crate::selector::parse_selector;
use crate::tree::Html;

verus! {

/// The text directly inside the first node matching `sel`: the content of
/// its first child, when that child is a text node.
pub open spec fn select_text_spec(t: Html, sel: SelectorSpec) -> Option<Seq<char>> {
    match first_match_from(t, sel, None, 0, t.nodes@.len() as int) {
        Some(n) => {
            let cs = t.nodes@[n].children@;
            if cs.len() > 0 && cs[0] < t.nodes@.len() && (t.nodes@[cs[0] as int].kind matches
                NodeKind::Text(_)) {
                Some(t.nodes@[cs[0] as int].kind->Text_0@)
            } else {
                None
            }
        },
        None => None,
    }
}

/// `select_text_spec` after compiling the selector text; `None` when the
/// text is not a valid selector.
pub open spec fn sel_first_text(t: Html, sel_text: Seq<char>) -> Option<Seq<char>> {
    match parse_selector(sel_text) {
        Some(sp) => select_text_spec(t, sp),
        None => None,
    }
}

/// The text inside the first node of `html` matching `sel`, exactly
/// `select_text_spec`.
pub fn select_text(html: &Html, sel: &Selector) -> (r: Option<String>)
    requires
        html.wf(),
    ensures
        match r {
            Some(v) => select_text_spec(*html, sel@) == Some(v@),
            None => select_text_spec(*html, sel@) is None,
        },
{
    let mut iter = html.select(sel);
    let n = match iter.next() {
        Some(n) => n,
        None => {
            return None;
        },
    };
    proof {
        assert(html.node_ok(n as int));
    }
    let c = match html.first_child(n) {
        Some(c) => c,
        None => {
            return None;
        },
    };
    match &html.nodes[c].kind {
        NodeKind::Text(x) => Some(String::from_str(x.as_str())),
        _ => None,
    }
}

} // verus!
