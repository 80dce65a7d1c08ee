//! Selector matching: what it means for a node of a tree to match a compiled
//! selector, and the executable matcher proved against that meaning.
//!
//! A selector is evaluated right to left: the rightmost compound is tested
//! against the candidate node itself, and each combinator then walks up or
//! sideways through the tree to find a node for the preceding compound.

use vstd::prelude::*;

use crate::node::NodeKind;
use crate::node::attr_of;
use crate::selector::Combinator;
use crate::selector::Compound;
use crate::selector::Selector;
use crate::selector::SelectorSpec;
use crate::selector::SimpleSelector;
use crate::selector::SimpleSpec;
use crate::text::has_class_token;
use crate::text::lower;
use crate::tree::Html;

verus! {

/// The element-kind entries of a child list, in order.
pub open spec fn elem_kids(t: Html, cs: Seq<usize>) -> Seq<usize>
    decreases cs.len(),
{
    if cs.len() == 0 {
        Seq::empty()
    } else {
        let pre = elem_kids(t, cs.drop_last());
        if cs.last() < t.nodes@.len() && t.nodes@[cs.last() as int].kind is Element {
            pre.push(cs.last())
        } else {
            pre
        }
    }
}

/// The element children of node `p`, in document order.
pub open spec fn elem_children(t: Html, p: int) -> Seq<usize> {
    elem_kids(t, t.nodes@[p].children@)
}

pub open spec fn abs_int(x: int) -> int {
    if x >= 0 {
        x
    } else {
        -x
    }
}

/// The `an+b` test of `:nth-child` on the 1-based position `p`: an exact
/// position when the step is zero, and otherwise congruence of `p` and `b`
/// modulo the step.
pub open spec fn nth_matches(a: int, b: int, p: int) -> bool {
    if a == 0 {
        p == b
    } else {
        abs_int(p - b) % abs_int(a) == 0
    }
}

/// The 0-based index of node `i` among the element children of its parent,
/// or `None` for a node without a parent.
pub open spec fn elem_pos(t: Html, i: int) -> Option<int> {
    match t.nodes@[i].parent {
        Some(p) => {
            let ec = elem_children(t, p as int);
            if ec.contains(i as usize) {
                Some(ec.index_of(i as usize))
            } else {
                None
            }
        },
        None => None,
    }
}

/// What one simple selector asks of node `i`.  Only element nodes match, and
/// the structural pseudo-classes never match a node without a parent.
pub open spec fn matches_simple(t: Html, i: int, s: SimpleSpec) -> bool {
    &&& t.nodes@[i].kind is Element
    &&& {
        let e = t.nodes@[i].kind->Element_0;
        match s {
            SimpleSpec::Tag(name) => lower(e.name@) == lower(name),
            SimpleSpec::Id(v) => attr_of(e.attrs@, 0, "id"@) == Some(v),
            SimpleSpec::Class(c) => match attr_of(e.attrs@, 0, "class"@) {
                Some(v) => has_class_token(v, c),
                None => false,
            },
            SimpleSpec::AttrExists(n) => attr_of(e.attrs@, 0, n) is Some,
            SimpleSpec::AttrEquals(n, v) => attr_of(e.attrs@, 0, n) == Some(v),
            SimpleSpec::AttrEqualsCaseless(n, v) => match attr_of(e.attrs@, 0, n) {
                Some(u) => lower(u) == lower(v),
                None => false,
            },
            SimpleSpec::FirstChild => elem_pos(t, i) == Some(0int),
            SimpleSpec::LastChild => match (elem_pos(t, i), t.nodes@[i].parent) {
                (Some(x), Some(p)) => x == elem_children(t, p as int).len() - 1,
                _ => false,
            },
            SimpleSpec::NthChild(a, b) => match elem_pos(t, i) {
                Some(x) => nth_matches(a, b, x + 1),
                None => false,
            },
        }
    }
}

/// What a whole compound asks of node `i`: every simple selector in it.
pub open spec fn matches_compound(t: Html, i: int, comp: Seq<SimpleSpec>) -> bool {
    &&& t.nodes@[i].kind is Element
    &&& forall|k: int| 0 <= k < comp.len() ==> matches_simple(t, i, #[trigger] comp[k])
}

/// The compound at position `k` of a selector, counting the leftmost as 0.
pub open spec fn compound_at(sel: SelectorSpec, k: int) -> Seq<SimpleSpec> {
    if k == 0 {
        sel.first
    } else {
        sel.rest[k - 1].1
    }
}

/// Node `i` matches the prefix of `sel` that ends at compound `k`.
pub open spec fn matches_upto(t: Html, sel: SelectorSpec, k: int, i: int) -> bool
    decreases k, i, 0int,
    when t.wf() && 0 <= i < t.nodes@.len() && 0 <= k
{
    &&& matches_compound(t, i, compound_at(sel, k))
    &&& (k == 0 || {
        let comb = sel.rest[k - 1].0;
        match comb {
            Combinator::Child => match t.nodes@[i].parent {
                Some(p) => matches_upto(t, sel, k - 1, p as int),
                None => false,
            },
            Combinator::Descendant => match t.nodes@[i].parent {
                Some(p) => ancestor_matches(t, sel, k - 1, p as int),
                None => false,
            },
            Combinator::Adjacent => match elem_pos(t, i) {
                Some(x) => {
                    let ec = elem_children(t, t.nodes@[i].parent->0 as int);
                    x > 0 && matches_upto(t, sel, k - 1, ec[x - 1] as int)
                },
                None => false,
            },
            Combinator::Sibling => match elem_pos(t, i) {
                Some(x) => {
                    let ec = elem_children(t, t.nodes@[i].parent->0 as int);
                    exists|j: int| 0 <= j < x && matches_upto(t, sel, k - 1, #[trigger] ec[j] as int)
                },
                None => false,
            },
        }
    })
}

/// Some ancestor-or-self of node `j` matches the prefix ending at compound
/// `k`.
pub open spec fn ancestor_matches(t: Html, sel: SelectorSpec, k: int, j: int) -> bool
    decreases k, j, 1int,
    when t.wf() && 0 <= j < t.nodes@.len() && 0 <= k
{
    ||| matches_upto(t, sel, k, j)
    ||| match t.nodes@[j].parent {
        Some(p) => p < j && ancestor_matches(t, sel, k, p as int),
        None => false,
    }
}

/// Node `i` matches the whole selector.
pub open spec fn selector_matches(t: Html, sel: SelectorSpec, i: int) -> bool {
    matches_upto(t, sel, sel.rest.len() as int, i)
}

/// Facts about `elem_kids` that the scans below rely on: membership,
/// bounds, element-ness, and preservation of distinctness.
proof fn lemma_elem_kids(t: Html, cs: Seq<usize>)
    ensures
        forall|w: int|
            0 <= w < elem_kids(t, cs).len() ==> cs.contains(#[trigger] elem_kids(t, cs)[w])
                && elem_kids(t, cs)[w] < t.nodes@.len() && t.nodes@[
                elem_kids(t, cs)[w] as int
            ].kind is Element,
        forall|x: usize|
            cs.contains(x) && x < t.nodes@.len() && t.nodes@[x as int].kind is Element
                ==> elem_kids(t, cs).contains(x),
        (forall|k1: int, k2: int| 0 <= k1 < k2 < cs.len() ==> cs[k1] != cs[k2]) ==> (forall|
            w1: int,
            w2: int,
        |
            0 <= w1 < w2 < elem_kids(t, cs).len() ==> elem_kids(t, cs)[w1] != elem_kids(
                t,
                cs,
            )[w2]),
    decreases cs.len(),
{
    if cs.len() > 0 {
        lemma_elem_kids(t, cs.drop_last());
        let pre = elem_kids(t, cs.drop_last());
        assert forall|w: int| 0 <= w < elem_kids(t, cs).len() implies cs.contains(
            #[trigger] elem_kids(t, cs)[w],
        ) && elem_kids(t, cs)[w] < t.nodes@.len() && t.nodes@[
            elem_kids(t, cs)[w] as int
        ].kind is Element by {
            if w < pre.len() {
                assert(cs.drop_last().contains(pre[w]));
                let u = choose|u: int|
                    0 <= u < cs.drop_last().len() && cs.drop_last()[u] == pre[w];
                assert(cs[u] == pre[w]);
            } else {
                assert(cs[cs.len() - 1] == elem_kids(t, cs)[w]);
            }
        }
        assert forall|x: usize|
            cs.contains(x) && x < t.nodes@.len() && t.nodes@[x as int].kind is Element implies
            elem_kids(t, cs).contains(x) by {
            let u = choose|u: int| 0 <= u < cs.len() && cs[u] == x;
            if u < cs.len() - 1 {
                assert(cs.drop_last()[u] == x);
                assert(cs.drop_last().contains(x));
                let w = choose|w: int| 0 <= w < pre.len() && pre[w] == x;
                assert(elem_kids(t, cs)[w] == x);
            } else {
                assert(elem_kids(t, cs).last() == x);
            }
        }
        if forall|k1: int, k2: int| 0 <= k1 < k2 < cs.len() ==> cs[k1] != cs[k2] {
            assert(forall|k1: int, k2: int|
                0 <= k1 < k2 < cs.drop_last().len() ==> cs.drop_last()[k1] != cs.drop_last()[k2]);
            assert forall|w1: int, w2: int|
                0 <= w1 < w2 < elem_kids(t, cs).len() implies elem_kids(t, cs)[w1] != elem_kids(
                t,
                cs,
            )[w2] by {
                if w2 == elem_kids(t, cs).len() - 1 && elem_kids(t, cs).len() > pre.len() {
                    // the last entry is cs.last(); earlier entries come from
                    // the prefix, where cs.last() does not occur
                    assert(cs.drop_last().contains(pre[w1]));
                    let u = choose|u: int|
                        0 <= u < cs.drop_last().len() && cs.drop_last()[u] == pre[w1];
                    assert(cs[u] == pre[w1]);
                    assert(cs[cs.len() - 1] == elem_kids(t, cs)[w2]);
                }
            }
        }
    }
}

/// Scans a child list and returns the element entries, exactly `elem_kids`.
fn element_children_of(t: &Html, p: usize) -> (r: Vec<usize>)
    requires
        t.wf(),
        p < t.nodes@.len(),
    ensures
        r@ == elem_children(*t, p as int),
        forall|w: int| 0 <= w < r@.len() ==> r@[w] < t.nodes@.len(),
{
    let cs = &t.nodes[p].children;
    let n = cs.len();
    let mut out: Vec<usize> = Vec::new();
    let mut k: usize = 0;
    while k < n
        invariant
            t.wf(),
            p < t.nodes@.len(),
            cs == t.nodes@[p as int].children,
            n == cs@.len(),
            0 <= k <= n,
            out@ == elem_kids(*t, cs@.subrange(0, k as int)),
        decreases n - k,
    {
        let c = cs[k];
        proof {
            assert(t.node_ok(p as int));
            assert(cs@.subrange(0, k + 1 as int).drop_last() =~= cs@.subrange(0, k as int));
            assert(cs@.subrange(0, k + 1 as int).last() == cs@[k as int]);
        }
        if c < t.nodes.len() && t.nodes[c].kind.is_element() {
            out.push(c);
        }
        k += 1;
    }
    proof {
        assert(cs@.subrange(0, n as int) =~= cs@);
        lemma_elem_kids(*t, cs@);
    }
    out
}

/// The 0-based position of `i` among its parent's element children, exactly
/// `elem_pos`.
fn elem_pos_ex(t: &Html, i: usize) -> (r: Option<usize>)
    requires
        t.wf(),
        i < t.nodes@.len(),
    ensures
        match r {
            Some(x) => elem_pos(*t, i as int) == Some(x as int),
            None => elem_pos(*t, i as int) is None,
        },
{
    let p = match t.nodes[i].parent {
        Some(p) => p,
        None => {
            return None;
        },
    };
    proof {
        assert(t.node_ok(i as int));
    }
    let ec = element_children_of(t, p);
    let n = ec.len();
    let mut w: usize = 0;
    while w < n
        invariant
            t.wf(),
            i < t.nodes@.len(),
            p < t.nodes@.len(),
            ec@ == elem_children(*t, p as int),
            n == ec@.len(),
            0 <= w <= n,
            forall|u: int| 0 <= u < w ==> ec@[u] != i,
        decreases n - w,
    {
        if ec[w] == i {
            proof {
                let ghost ecs = elem_children(*t, p as int);
                assert(ecs[w as int] == i);
                assert(ecs.contains(i));
                lemma_elem_kids(*t, t.nodes@[p as int].children@);
                assert(t.node_ok(p as int));
                let x = ecs.index_of(i);
                assert(0 <= x < ecs.len() && ecs[x] == i);
                if x != w {
                    assert(false);
                }
            }
            return Some(w);
        }
        w += 1;
    }
    proof {
        if elem_children(*t, p as int).contains(i) {
            let u = choose|u: int|
                0 <= u < elem_children(*t, p as int).len() && elem_children(*t, p as int)[u] == i;
            assert(false);
        }
    }
    None
}

/// Evaluates one simple selector on node `i`, exactly `matches_simple`.
fn matches_simple_ex(t: &Html, i: usize, s: &SimpleSelector) -> (r: bool)
    requires
        t.wf(),
        i < t.nodes@.len(),
    ensures
        r == matches_simple(*t, i as int, s@),
{
    let e = match &t.nodes[i].kind {
        NodeKind::Element(e) => e,
        _ => {
            return false;
        },
    };
    match s {
        SimpleSelector::Tag(name) => crate::text::eq_ignore_ascii_case(
            e.name.as_str(),
            name.as_str(),
        ),
        SimpleSelector::Id(v) => match crate::node::attr_find(&e.attrs, "id") {
            Some(idx) => crate::text::str_eq(e.attrs[idx].value.as_str(), v.as_str()),
            None => false,
        },
        SimpleSelector::Class(c) => match crate::node::attr_find(&e.attrs, "class") {
            Some(idx) => crate::text::contains_class_token(e.attrs[idx].value.as_str(), c.as_str()),
            None => false,
        },
        SimpleSelector::AttrExists(n) => crate::node::attr_find(&e.attrs, n.as_str()).is_some(),
        SimpleSelector::AttrEquals(n, v) => match crate::node::attr_find(&e.attrs, n.as_str()) {
            Some(idx) => crate::text::str_eq(e.attrs[idx].value.as_str(), v.as_str()),
            None => false,
        },
        SimpleSelector::AttrEqualsCaseless(n, v) => match crate::node::attr_find(
            &e.attrs,
            n.as_str(),
        ) {
            Some(idx) => crate::text::eq_ignore_ascii_case(e.attrs[idx].value.as_str(), v.as_str()),
            None => false,
        },
        SimpleSelector::FirstChild => match elem_pos_ex(t, i) {
            Some(x) => x == 0,
            None => false,
        },
        SimpleSelector::LastChild => match t.nodes[i].parent {
            Some(p) => {
                proof {
                    assert(t.node_ok(i as int));
                }
                let ec = element_children_of(t, p);
                match elem_pos_ex(t, i) {
                    Some(x) => x == ec.len() - 1,
                    None => false,
                }
            },
            None => false,
        },
        SimpleSelector::NthChild(a, b) => match elem_pos_ex(t, i) {
            Some(x) => {
                let pos1: i128 = x as i128 + 1;
                if *a == 0 {
                    pos1 == *b as i128
                } else {
                    let diff: i128 = pos1 - *b as i128;
                    let ai: i128 = *a as i128;
                    let da: u128 = if diff >= 0 {
                        diff as u128
                    } else {
                        (-diff) as u128
                    };
                    let aa: u128 = if ai >= 0 {
                        ai as u128
                    } else {
                        (-ai) as u128
                    };
                    proof {
                        assert(da as int == abs_int(x + 1 - *b));
                        assert(aa as int == abs_int(*a as int));
                    }
                    da % aa == 0
                }
            },
            None => false,
        },
    }
}

/// Evaluates a whole compound on node `i`, exactly `matches_compound`.
fn matches_compound_ex(t: &Html, i: usize, comp: &Compound) -> (r: bool)
    requires
        t.wf(),
        i < t.nodes@.len(),
    ensures
        r == matches_compound(*t, i as int, comp@),
{
    if !t.nodes[i].kind.is_element() {
        return false;
    }
    let n = comp.simples.len();
    let mut k: usize = 0;
    while k < n
        invariant
            t.wf(),
            i < t.nodes@.len(),
            n == comp.simples@.len(),
            0 <= k <= n,
            t.nodes@[i as int].kind is Element,
            forall|u: int| 0 <= u < k ==> matches_simple(*t, i as int, #[trigger] comp@[u]),
        decreases n - k,
    {
        if !matches_simple_ex(t, i, &comp.simples[k]) {
            proof {
                assert(!matches_simple(*t, i as int, comp@[k as int]));
            }
            return false;
        }
        k += 1;
    }
    true
}

/// Picks the compound at position `k`.
fn compound_at_ex<'a>(sel: &'a Selector, k: usize) -> (r: &'a Compound)
    requires
        k <= sel.rest@.len(),
    ensures
        r@ == compound_at(sel@, k as int),
{
    if k == 0 {
        &sel.first
    } else {
        &sel.rest[k - 1].1
    }
}

/// Evaluates the selector prefix ending at compound `k` on node `i`, exactly
/// `matches_upto`.
fn matches_upto_ex(t: &Html, sel: &Selector, k: usize, i: usize) -> (r: bool)
    requires
        t.wf(),
        k <= sel.rest@.len(),
        i < t.nodes@.len(),
    ensures
        r == matches_upto(*t, sel@, k as int, i as int),
    decreases k, i, 0int,
{
    if !matches_compound_ex(t, i, compound_at_ex(sel, k)) {
        return false;
    }
    if k == 0 {
        return true;
    }
    let comb = sel.rest[k - 1].0;
    proof {
        assert(sel@.rest[k - 1].0 == comb);
        assert(t.node_ok(i as int));
    }
    match comb {
        Combinator::Child => match t.nodes[i].parent {
            Some(p) => matches_upto_ex(t, sel, k - 1, p),
            None => false,
        },
        Combinator::Descendant => match t.nodes[i].parent {
            Some(p) => ancestor_matches_ex(t, sel, k - 1, p),
            None => false,
        },
        Combinator::Adjacent => match elem_pos_ex(t, i) {
            Some(x) => {
                if x == 0 {
                    false
                } else {
                    let p = match t.nodes[i].parent {
                        Some(p) => p,
                        None => {
                            return false;
                        },
                    };
                    let ec = element_children_of(t, p);
                    proof {
                        assert(elem_children(*t, p as int).contains(i));
                        assert(0 <= x < ec@.len());
                    }
                    matches_upto_ex(t, sel, k - 1, ec[x - 1])
                }
            },
            None => false,
        },
        Combinator::Sibling => match elem_pos_ex(t, i) {
            Some(x) => {
                let p = match t.nodes[i].parent {
                    Some(p) => p,
                    None => {
                        return false;
                    },
                };
                let ec = element_children_of(t, p);
                proof {
                    assert(elem_children(*t, p as int).contains(i));
                    assert(0 <= x < ec@.len());
                }
                let mut j: usize = 0;
                while j < x
                    invariant
                        t.wf(),
                        k <= sel.rest@.len(),
                        1 <= k,
                        i < t.nodes@.len(),
                        p < t.nodes@.len(),
                        t.nodes@[i as int].parent == Some(p),
                        elem_pos(*t, i as int) == Some(x as int),
                        matches_compound(*t, i as int, compound_at(sel@, k as int)),
                        sel@.rest[k - 1].0 == Combinator::Sibling,
                        ec@ == elem_children(*t, p as int),
                        x < ec@.len(),
                        0 <= j <= x,
                        forall|w: int| 0 <= w < ec@.len() ==> ec@[w] < t.nodes@.len(),
                        forall|u: int|
                            0 <= u < j ==> !matches_upto(*t, sel@, k - 1, #[trigger] ec@[u] as int),
                    decreases x - j,
                {
                    if matches_upto_ex(t, sel, k - 1, ec[j]) {
                        proof {
                            assert(matches_upto(*t, sel@, k - 1, ec@[j as int] as int));
                            assert(matches_upto(*t, sel@, k as int, i as int));
                        }
                        return true;
                    }
                    j += 1;
                }
                proof {
                    assert(!matches_upto(*t, sel@, k as int, i as int));
                }
                false
            },
            None => false,
        },
    }
}

/// Whether any ancestor-or-self of `j` matches the prefix ending at `k`,
/// exactly `ancestor_matches`.
fn ancestor_matches_ex(t: &Html, sel: &Selector, k: usize, j: usize) -> (r: bool)
    requires
        t.wf(),
        k <= sel.rest@.len(),
        j < t.nodes@.len(),
    ensures
        r == ancestor_matches(*t, sel@, k as int, j as int),
    decreases k, j, 1int,
{
    if matches_upto_ex(t, sel, k, j) {
        return true;
    }
    proof {
        assert(t.node_ok(j as int));
    }
    match t.nodes[j].parent {
        Some(p) => {
            if p < j {
                ancestor_matches_ex(t, sel, k, p)
            } else {
                false
            }
        },
        None => false,
    }
}

/// `:nth-child(2n+1)` picks exactly the odd 1-based positions: the 1st,
/// 3rd, 5th and so on among the element siblings.
pub proof fn lemma_nth_child_odd(p: int)
    ensures
        nth_matches(2, 1, p) == (p % 2 == 1),
{
    if p >= 1 {
        assert(abs_int(p - 1) == p - 1);
        assert((p - 1) % 2 == 0 <==> p % 2 == 1) by (nonlinear_arith);
    } else {
        assert(abs_int(p - 1) == 1 - p);
        assert((1 - p) % 2 == 0 <==> p % 2 == 1) by (nonlinear_arith);
    }
}

/// A zero step makes `:nth-child(0n+b)` an exact test for the `b`-th
/// element child.
pub proof fn lemma_nth_child_exact(b: int, p: int)
    ensures
        nth_matches(0, b, p) == (p == b),
{
}

impl Selector {
    /// Whether node `i` of `t` matches this selector.  Matching is total:
    /// it always yields a boolean, exactly `selector_matches`.
    pub fn matches(&self, t: &Html, i: usize) -> (r: bool)
        requires
            t.wf(),
            i < t.nodes@.len(),
        ensures
            r == selector_matches(*t, self@, i as int),
    {
        let k = self.rest.len();
        matches_upto_ex(t, self, k, i)
    }
}

} // verus!
