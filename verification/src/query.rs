//! The query iterator: a lazy walk over the arena in document order,
//! filtered by a compiled selector, with an exact reverse.

use vstd::prelude::*;

use crate::matcher::selector_matches;
use crate::selector::Selector;
use crate::tree::Html;

verus! {

/// Node `i` lies strictly inside the subtree rooted at `root`.
pub open spec fn in_subtree(t: Html, root: int, i: int) -> bool
    decreases i,
    when t.wf() && 0 <= i < t.nodes@.len()
{
    ||| i == root
    ||| match t.nodes@[i].parent {
        Some(p) => p < i && in_subtree(t, root, p as int),
        None => false,
    }
}

/// Whether node `i` is one of the results of a query: it has a parent, lies
/// in the requested scope (strictly below the scope node, when there is
/// one), and matches the selector.
pub open spec fn eligible(t: Html, sel: crate::selector::SelectorSpec, scope: Option<usize>, i: int) -> bool {
    &&& 0 <= i < t.nodes@.len()
    &&& t.nodes@[i].parent is Some
    &&& match scope {
        Some(r) => i != r && in_subtree(t, r as int, i),
        None => true,
    }
    &&& selector_matches(t, sel, i)
}

/// The first eligible index in `[i, back)`, if any.
pub open spec fn first_match_from(
    t: Html,
    sel: crate::selector::SelectorSpec,
    scope: Option<usize>,
    i: int,
    back: int,
) -> Option<int>
    decreases back - i,
    when i <= back
{
    if i >= back {
        None
    } else if eligible(t, sel, scope, i) {
        Some(i)
    } else {
        first_match_from(t, sel, scope, i + 1, back)
    }
}

/// The last eligible index in `[front, j)`, if any.
pub open spec fn last_match_before(
    t: Html,
    sel: crate::selector::SelectorSpec,
    scope: Option<usize>,
    front: int,
    j: int,
) -> Option<int>
    decreases j - front,
    when front <= j
{
    if j <= front {
        None
    } else if eligible(t, sel, scope, j - 1) {
        Some(j - 1)
    } else {
        last_match_before(t, sel, scope, front, j - 1)
    }
}

/// Walks the parent chain of `i` looking for `root`, exactly `in_subtree`.
fn in_subtree_ex(t: &Html, root: usize, i: usize) -> (r: bool)
    requires
        t.wf(),
        i < t.nodes@.len(),
    ensures
        r == in_subtree(*t, root as int, i as int),
    decreases i,
{
    if i == root {
        return true;
    }
    proof {
        assert(t.node_ok(i as int));
    }
    match t.nodes[i].parent {
        Some(p) => {
            if p < i {
                in_subtree_ex(t, root, p)
            } else {
                false
            }
        },
        None => false,
    }
}

/// A lazy iterator over the nodes matching a selector, in document order.
/// `front` and `back` bound the arena positions still to be examined.
pub struct HtmlSelect<'a, 'b> {
    pub html: &'a Html,
    pub selector: &'b Selector,
    pub scope: Option<usize>,
    pub front: usize,
    pub back: usize,
}

impl<'a, 'b> HtmlSelect<'a, 'b> {
    /// The iterator's own validity.
    pub open spec fn inv(&self) -> bool {
        &&& self.html.wf()
        &&& self.front <= self.back <= self.html.nodes@.len()
        &&& match self.scope {
            Some(r) => r < self.html.nodes@.len(),
            None => true,
        }
    }

    /// Whether node `i` is in scope and matches; the runtime test behind
    /// both directions of iteration.
    fn check(&self, i: usize) -> (r: bool)
        requires
            self.inv(),
            i < self.html.nodes@.len(),
        ensures
            r == eligible(*self.html, self.selector@, self.scope, i as int),
    {
        let t = self.html;
        if t.nodes[i].parent.is_none() {
            return false;
        }
        let in_scope = match self.scope {
            Some(r) => i != r && in_subtree_ex(t, r, i),
            None => true,
        };
        if !in_scope {
            return false;
        }
        self.selector.matches(t, i)
    }

    /// The next match in document order, or `None` when the rest of the
    /// range holds none.
    pub fn next(&mut self) -> (r: Option<usize>)
        requires
            old(self).inv(),
        ensures
            final(self).inv(),
            final(self).html == old(self).html,
            final(self).selector == old(self).selector,
            final(self).scope == old(self).scope,
            final(self).back == old(self).back,
            match r {
                Some(i) => {
                    &&& first_match_from(
                        *old(self).html,
                        old(self).selector@,
                        old(self).scope,
                        old(self).front as int,
                        old(self).back as int,
                    ) == Some(i as int)
                    &&& old(self).front <= i < old(self).back
                    &&& final(self).front == i + 1
                },
                None => {
                    &&& first_match_from(
                        *old(self).html,
                        old(self).selector@,
                        old(self).scope,
                        old(self).front as int,
                        old(self).back as int,
                    ) is None
                    &&& final(self).front == final(self).back
                },
            },
    {
        while self.front < self.back
            invariant
                self.inv(),
                self.html == old(self).html,
                self.selector == old(self).selector,
                self.scope == old(self).scope,
                self.back == old(self).back,
                old(self).front <= self.front,
                first_match_from(
                    *self.html,
                    self.selector@,
                    self.scope,
                    old(self).front as int,
                    self.back as int,
                ) == first_match_from(
                    *self.html,
                    self.selector@,
                    self.scope,
                    self.front as int,
                    self.back as int,
                ),
            decreases self.back - self.front,
        {
            let i = self.front;
            if self.check(i) {
                self.front = i + 1;
                return Some(i);
            }
            self.front = i + 1;
        }
        None
    }

    /// The next match from the back, or `None`; the exact reverse order.
    pub fn next_back(&mut self) -> (r: Option<usize>)
        requires
            old(self).inv(),
        ensures
            final(self).inv(),
            final(self).html == old(self).html,
            final(self).selector == old(self).selector,
            final(self).scope == old(self).scope,
            final(self).front == old(self).front,
            match r {
                Some(i) => {
                    &&& last_match_before(
                        *old(self).html,
                        old(self).selector@,
                        old(self).scope,
                        old(self).front as int,
                        old(self).back as int,
                    ) == Some(i as int)
                    &&& old(self).front <= i < old(self).back
                    &&& final(self).back == i
                },
                None => {
                    &&& last_match_before(
                        *old(self).html,
                        old(self).selector@,
                        old(self).scope,
                        old(self).front as int,
                        old(self).back as int,
                    ) is None
                    &&& final(self).back == final(self).front
                },
            },
    {
        while self.front < self.back
            invariant
                self.inv(),
                self.html == old(self).html,
                self.selector == old(self).selector,
                self.scope == old(self).scope,
                self.front == old(self).front,
                self.back <= old(self).back,
                last_match_before(
                    *self.html,
                    self.selector@,
                    self.scope,
                    self.front as int,
                    old(self).back as int,
                ) == last_match_before(
                    *self.html,
                    self.selector@,
                    self.scope,
                    self.front as int,
                    self.back as int,
                ),
            decreases self.back - self.front,
        {
            let i = self.back - 1;
            self.back = i;
            if self.check(i) {
                return Some(i);
            }
        }
        None
    }

    /// The lower bound is always zero: filtering can rule out every
    /// remaining candidate.  The upper bound is the unfiltered count of
    /// arena positions still to be examined, a deliberate overestimate.
    pub fn size_hint(&self) -> (r: (usize, Option<usize>))
        requires
            self.inv(),
        ensures
            r.0 == 0,
            r.1 matches Some(u) && u == self.back - self.front,
    {
        (0, Some(self.back - self.front))
    }

    /// Every remaining match, in document order, materialized.
    pub fn collect_ids(&mut self) -> (r: Vec<usize>)
        requires
            old(self).inv(),
        ensures
            final(self).inv(),
            r@ == match_seq(
                *old(self).html,
                old(self).selector@,
                old(self).scope,
                old(self).front as int,
                old(self).back as int,
            ),
    {
        let mut out: Vec<usize> = Vec::new();
        loop
            invariant
                self.inv(),
                self.html == old(self).html,
                self.selector == old(self).selector,
                self.scope == old(self).scope,
                out@ + match_seq(
                    *self.html,
                    self.selector@,
                    self.scope,
                    self.front as int,
                    self.back as int,
                ) == match_seq(
                    *old(self).html,
                    old(self).selector@,
                    old(self).scope,
                    old(self).front as int,
                    old(self).back as int,
                ),
            decreases self.back - self.front,
        {
            let ghost pre_front = self.front as int;
            let ghost pre_back = self.back as int;
            let ghost out0 = out@;
            match self.next() {
                Some(i) => {
                    proof {
                        lemma_match_seq_step(
                            *self.html,
                            self.selector@,
                            self.scope,
                            pre_front,
                            pre_back,
                        );
                    }
                    out.push(i);
                    proof {
                        let cur = match_seq(
                            *self.html,
                            self.selector@,
                            self.scope,
                            self.front as int,
                            self.back as int,
                        );
                        assert(out@ =~= out0 + seq![i]);
                        assert(out@ + cur =~= out0 + (seq![i] + cur));
                    }
                },
                None => {
                    proof {
                        lemma_match_seq_none(
                            *self.html,
                            self.selector@,
                            self.scope,
                            pre_front,
                            pre_back,
                        );
                        assert(out@ + match_seq(
                            *self.html,
                            self.selector@,
                            self.scope,
                            self.front as int,
                            self.back as int,
                        ) =~= out@);
                    }
                    return out;
                },
            }
        }
    }

    /// Every remaining match in reverse document order, materialized: the
    /// exact reverse of what forward iteration yields.
    pub fn collect_ids_back(&mut self) -> (r: Vec<usize>)
        requires
            old(self).inv(),
        ensures
            final(self).inv(),
            r@ == rev_match_seq(
                *old(self).html,
                old(self).selector@,
                old(self).scope,
                old(self).front as int,
                old(self).back as int,
            ),
    {
        let mut out: Vec<usize> = Vec::new();
        loop
            invariant
                self.inv(),
                self.html == old(self).html,
                self.selector == old(self).selector,
                self.scope == old(self).scope,
                self.front == old(self).front,
                out@ + rev_match_seq(
                    *self.html,
                    self.selector@,
                    self.scope,
                    self.front as int,
                    self.back as int,
                ) == rev_match_seq(
                    *old(self).html,
                    old(self).selector@,
                    old(self).scope,
                    old(self).front as int,
                    old(self).back as int,
                ),
            decreases self.back - self.front,
        {
            let ghost pre_front = self.front as int;
            let ghost pre_back = self.back as int;
            let ghost out0 = out@;
            match self.next_back() {
                Some(i) => {
                    proof {
                        lemma_rev_match_seq_step(
                            *self.html,
                            self.selector@,
                            self.scope,
                            pre_front,
                            pre_back,
                        );
                    }
                    out.push(i);
                    proof {
                        let cur = rev_match_seq(
                            *self.html,
                            self.selector@,
                            self.scope,
                            self.front as int,
                            self.back as int,
                        );
                        assert(out@ =~= out0 + seq![i]);
                        assert(out@ + cur =~= out0 + (seq![i] + cur));
                    }
                },
                None => {
                    proof {
                        lemma_rev_match_seq_none(
                            *self.html,
                            self.selector@,
                            self.scope,
                            pre_front,
                            pre_back,
                        );
                        assert(out@ + rev_match_seq(
                            *self.html,
                            self.selector@,
                            self.scope,
                            self.front as int,
                            self.back as int,
                        ) =~= out@);
                    }
                    return out;
                },
            }
        }
    }
}

/// The full ordered sequence of matches in `[i, back)`.
pub open spec fn match_seq(
    t: Html,
    sel: crate::selector::SelectorSpec,
    scope: Option<usize>,
    i: int,
    back: int,
) -> Seq<usize>
    decreases back - i,
    when i <= back
{
    if i >= back {
        Seq::empty()
    } else if eligible(t, sel, scope, i) {
        seq![i as usize] + match_seq(t, sel, scope, i + 1, back)
    } else {
        match_seq(t, sel, scope, i + 1, back)
    }
}

/// After taking the first match `m`, the remaining matches are those past
/// `m`.
proof fn lemma_match_seq_step(
    t: Html,
    sel: crate::selector::SelectorSpec,
    scope: Option<usize>,
    i: int,
    back: int,
)
    requires
        i <= back,
        first_match_from(t, sel, scope, i, back) is Some,
    ensures
        ({
            let m = first_match_from(t, sel, scope, i, back)->0;
            match_seq(t, sel, scope, i, back) =~= seq![m as usize] + match_seq(
                t,
                sel,
                scope,
                m + 1,
                back,
            )
        }),
    decreases back - i,
{
    if i < back && !eligible(t, sel, scope, i) {
        lemma_match_seq_step(t, sel, scope, i + 1, back);
    }
}

/// When no match remains the sequence is empty.
proof fn lemma_match_seq_none(
    t: Html,
    sel: crate::selector::SelectorSpec,
    scope: Option<usize>,
    i: int,
    back: int,
)
    requires
        i <= back,
        first_match_from(t, sel, scope, i, back) is None,
    ensures
        match_seq(t, sel, scope, i, back) =~= Seq::<usize>::empty(),
    decreases back - i,
{
    if i < back {
        lemma_match_seq_none(t, sel, scope, i + 1, back);
    }
}


/// The full ordered sequence of matches in `[front, j)`, walked from the
/// back: what repeated backward iteration yields.
pub open spec fn rev_match_seq(
    t: Html,
    sel: crate::selector::SelectorSpec,
    scope: Option<usize>,
    front: int,
    j: int,
) -> Seq<usize>
    decreases j - front,
    when front <= j
{
    if j <= front {
        Seq::empty()
    } else if eligible(t, sel, scope, j - 1) {
        seq![(j - 1) as usize] + rev_match_seq(t, sel, scope, front, j - 1)
    } else {
        rev_match_seq(t, sel, scope, front, j - 1)
    }
}

/// Peeling the last position off a forward match sequence.
proof fn lemma_match_seq_snoc(
    t: Html,
    sel: crate::selector::SelectorSpec,
    scope: Option<usize>,
    i: int,
    back: int,
)
    requires
        i < back,
    ensures
        match_seq(t, sel, scope, i, back) == match_seq(t, sel, scope, i, back - 1) + (
        if eligible(t, sel, scope, back - 1) {
            seq![(back - 1) as usize]
        } else {
            Seq::<usize>::empty()
        }),
    decreases back - i,
{
    if i == back - 1 {
        assert(match_seq(t, sel, scope, back, back) =~= Seq::<usize>::empty());
        assert(match_seq(t, sel, scope, i, back - 1) =~= Seq::<usize>::empty());
        if eligible(t, sel, scope, i) {
            assert(match_seq(t, sel, scope, i, back) =~= seq![i as usize]);
            assert(match_seq(t, sel, scope, i, back) =~= match_seq(t, sel, scope, i, back - 1) + (
            if eligible(t, sel, scope, back - 1) {
                seq![(back - 1) as usize]
            } else {
                Seq::<usize>::empty()
            }));
        } else {
            assert(match_seq(t, sel, scope, i, back) =~= Seq::<usize>::empty());
            assert(match_seq(t, sel, scope, i, back) =~= match_seq(t, sel, scope, i, back - 1) + (
            if eligible(t, sel, scope, back - 1) {
                seq![(back - 1) as usize]
            } else {
                Seq::<usize>::empty()
            }));
        }
    } else {
        lemma_match_seq_snoc(t, sel, scope, i + 1, back);
        if eligible(t, sel, scope, i) {
            assert(match_seq(t, sel, scope, i, back) =~= match_seq(t, sel, scope, i, back - 1) + (
            if eligible(t, sel, scope, back - 1) {
                seq![(back - 1) as usize]
            } else {
                Seq::<usize>::empty()
            }));
        } else {
            assert(match_seq(t, sel, scope, i, back) =~= match_seq(t, sel, scope, i, back - 1) + (
            if eligible(t, sel, scope, back - 1) {
                seq![(back - 1) as usize]
            } else {
                Seq::<usize>::empty()
            }));
        }
    }
}

/// Backward selection yields exactly the reverse of forward selection, for
/// every tree, selector, scope and range.
pub proof fn lemma_select_reverse(
    t: Html,
    sel: crate::selector::SelectorSpec,
    scope: Option<usize>,
    front: int,
    back: int,
)
    requires
        front <= back,
    ensures
        rev_match_seq(t, sel, scope, front, back) == match_seq(t, sel, scope, front, back).reverse(),
    decreases back - front,
{
    if front < back {
        lemma_select_reverse(t, sel, scope, front, back - 1);
        lemma_match_seq_snoc(t, sel, scope, front, back);
        assert(rev_match_seq(t, sel, scope, front, back) =~= match_seq(
            t,
            sel,
            scope,
            front,
            back,
        ).reverse());
    } else {
        assert(rev_match_seq(t, sel, scope, front, back) =~= match_seq(
            t,
            sel,
            scope,
            front,
            back,
        ).reverse());
    }
}

/// After taking the last match `m`, the remaining backward matches are
/// those before `m`.
proof fn lemma_rev_match_seq_step(
    t: Html,
    sel: crate::selector::SelectorSpec,
    scope: Option<usize>,
    front: int,
    j: int,
)
    requires
        front <= j,
        last_match_before(t, sel, scope, front, j) is Some,
    ensures
        ({
            let m = last_match_before(t, sel, scope, front, j)->0;
            rev_match_seq(t, sel, scope, front, j) =~= seq![m as usize] + rev_match_seq(
                t,
                sel,
                scope,
                front,
                m,
            )
        }),
    decreases j - front,
{
    if front < j && !eligible(t, sel, scope, j - 1) {
        lemma_rev_match_seq_step(t, sel, scope, front, j - 1);
    }
}

/// When no backward match remains the sequence is empty.
proof fn lemma_rev_match_seq_none(
    t: Html,
    sel: crate::selector::SelectorSpec,
    scope: Option<usize>,
    front: int,
    j: int,
)
    requires
        front <= j,
        last_match_before(t, sel, scope, front, j) is None,
    ensures
        rev_match_seq(t, sel, scope, front, j) =~= Seq::<usize>::empty(),
    decreases j - front,
{
    if front < j {
        lemma_rev_match_seq_none(t, sel, scope, front, j - 1);
    }
}


/// The subtree of `i` in document order: the node itself, then each child's
/// subtree, left to right.
pub open spec fn subtree_seq(t: Html, i: int) -> Seq<usize>
    decreases t.nodes@.len() - i, 1int, 0int,
    when t.wf() && 0 <= i < t.nodes@.len()
{
    seq![i as usize] + subtree_kids(t, i, 0)
}

/// The concatenated subtrees of the children of `i` from position `k` on.
pub open spec fn subtree_kids(t: Html, i: int, k: int) -> Seq<usize>
    decreases t.nodes@.len() - i, 0int, t.nodes@[i].children@.len() - k,
    when t.wf() && 0 <= i < t.nodes@.len() && 0 <= k
{
    let cs = t.nodes@[i].children@;
    if k >= cs.len() {
        Seq::empty()
    } else if i < cs[k] < t.nodes@.len() {
        subtree_seq(t, cs[k] as int) + subtree_kids(t, i, k + 1)
    } else {
        Seq::empty()
    }
}


/// The concatenated subtrees of the first `k` children of `i`.
pub open spec fn subtree_kids_upto(t: Html, i: int, k: int) -> Seq<usize>
    decreases t.nodes@.len() - i, 0int, k,
    when t.wf() && 0 <= i < t.nodes@.len() && 0 <= k <= t.nodes@[i].children@.len()
{
    let cs = t.nodes@[i].children@;
    if k <= 0 {
        Seq::empty()
    } else if i < cs[k - 1] < t.nodes@.len() {
        subtree_kids_upto(t, i, k - 1) + subtree_seq(t, cs[k - 1] as int)
    } else {
        subtree_kids_upto(t, i, k - 1)
    }
}

/// Extending a prefix of child subtrees by one more child.
proof fn lemma_subtree_kids_snoc(t: Html, i: int, k: int)
    requires
        t.wf(),
        0 <= i < t.nodes@.len(),
        0 <= k < t.nodes@[i].children@.len(),
        i < t.nodes@[i].children@[k] < t.nodes@.len(),
    ensures
        subtree_kids_upto(t, i, k + 1) == subtree_kids_upto(t, i, k) + subtree_seq(
            t,
            t.nodes@[i].children@[k] as int,
        ),
{
}

/// The full prefix equals the suffix form of the child-subtree
/// concatenation.
proof fn lemma_subtree_kids_upto_full(t: Html, i: int, n: int)
    requires
        t.wf(),
        0 <= i < t.nodes@.len(),
        n == t.nodes@[i].children@.len(),
    ensures
        subtree_kids_upto(t, i, n) == subtree_kids(t, i, 0),
{
    lemma_subtree_kids_split(t, i, 0);
}

/// Prefix plus suffix covers all child subtrees.
proof fn lemma_subtree_kids_split(t: Html, i: int, k: int)
    requires
        t.wf(),
        0 <= i < t.nodes@.len(),
        0 <= k <= t.nodes@[i].children@.len(),
    ensures
        subtree_kids_upto(t, i, t.nodes@[i].children@.len() as int) == subtree_kids_upto(t, i, k)
            + subtree_kids(t, i, k),
    decreases t.nodes@[i].children@.len() - k,
{
    let cs = t.nodes@[i].children@;
    if k < cs.len() {
        lemma_subtree_kids_split(t, i, k + 1);
        assert(t.node_ok(i));
        assert(i < cs[k] < t.nodes@.len());
        lemma_subtree_kids_snoc(t, i, k);
        assert(subtree_kids_upto(t, i, k) + subtree_kids(t, i, k) =~= subtree_kids_upto(
            t,
            i,
            k + 1,
        ) + subtree_kids(t, i, k + 1));
    } else {
        assert(subtree_kids_upto(t, i, k) + subtree_kids(t, i, k) =~= subtree_kids_upto(t, i, k));
    }
}

impl Html {
    /// An iterator over every node of the tree that matches `selector`.
    pub fn select<'a, 'b>(&'a self, selector: &'b Selector) -> (r: HtmlSelect<'a, 'b>)
        requires
            self.wf(),
        ensures
            r.inv(),
            r.html == self,
            r.selector == selector,
            r.scope is None,
            r.front == 0,
            r.back == self.nodes@.len(),
    {
        HtmlSelect { html: self, selector, scope: None, front: 0, back: self.nodes.len() }
    }

    /// An iterator over the nodes strictly below `root` that match
    /// `selector`.
    pub fn select_in<'a, 'b>(&'a self, root: usize, selector: &'b Selector) -> (r: HtmlSelect<
        'a,
        'b,
    >)
        requires
            self.wf(),
            root < self.nodes@.len(),
        ensures
            r.inv(),
            r.html == self,
            r.selector == selector,
            r.scope == Some(root),
            r.front == 0,
            r.back == self.nodes@.len(),
    {
        HtmlSelect { html: self, selector, scope: Some(root), front: 0, back: self.nodes.len() }
    }


    /// The nodes of the subtree rooted at `i`, itself included, in document
    /// order.
    pub fn descendants(&self, i: usize) -> (r: Vec<usize>)
        requires
            self.wf(),
            i < self.nodes@.len(),
        ensures
            r@ == subtree_seq(*self, i as int),
        decreases self.nodes@.len() - i, 1int,
    {
        let mut out: Vec<usize> = Vec::new();
        out.push(i);
        proof {
            assert(out@ =~= seq![i]);
        }
        let n = self.nodes[i].children.len();
        let mut k: usize = 0;
        while k < n
            invariant
                self.wf(),
                i < self.nodes@.len(),
                n == self.nodes@[i as int].children@.len(),
                0 <= k <= n,
                out@ == seq![i] + subtree_kids_upto(*self, i as int, k as int),
            decreases n - k,
        {
            proof {
                assert(self.node_ok(i as int));
            }
            let c = self.nodes[i].children[k];
            let sub = self.descendants(c);
            let ghost out0 = out@;
            let mut idx: usize = 0;
            let m = sub.len();
            while idx < m
                invariant
                    m == sub@.len(),
                    0 <= idx <= m,
                    out@ == out0 + sub@.subrange(0, idx as int),
                decreases m - idx,
            {
                out.push(sub[idx]);
                proof {
                    assert(sub@.subrange(0, idx + 1 as int) =~= sub@.subrange(
                        0,
                        idx as int,
                    ).push(sub@[idx as int]));
                }
                idx += 1;
            }
            proof {
                assert(sub@.subrange(0, m as int) =~= sub@);
                lemma_subtree_kids_snoc(*self, i as int, k as int);
                assert(out@ =~= seq![i] + subtree_kids_upto(*self, i as int, k + 1));
            }
            k += 1;
        }
        proof {
            lemma_subtree_kids_upto_full(*self, i as int, n as int);
            assert(out@ =~= subtree_seq(*self, i as int));
        }
        out
    }

    /// The first element child of the root: the `<html>` element of a parsed
    /// document.  `None` exactly when the root has no element child.
    pub fn root_element(&self) -> (r: Option<usize>)
        requires
            self.wf(),
        ensures
            r == first_element_child(*self, 0),
            r matches Some(i) ==> 0 < i < self.nodes@.len() && self.nodes@[
                i as int
            ].kind is Element,
    {
        self.first_element_child_of(0)
    }

    /// The first element among the children of node `p`.
    pub fn first_element_child_of(&self, p: usize) -> (r: Option<usize>)
        requires
            self.wf(),
            p < self.nodes@.len(),
        ensures
            r == first_element_child(*self, p as int),
            r matches Some(i) ==> p < i < self.nodes@.len() && self.nodes@[
                i as int
            ].kind is Element,
    {
        let n = self.nodes[p].children.len();
        let mut k: usize = 0;
        while k < n
            invariant
                self.wf(),
                p < self.nodes@.len(),
                n == self.nodes@[p as int].children@.len(),
                0 <= k <= n,
                first_element_child(*self, p as int) == fec_from(*self, p as int, k as int),
            decreases n - k,
        {
            proof {
                assert(self.node_ok(p as int));
            }
            let c = self.nodes[p].children[k];
            if self.nodes[c].kind.is_element() {
                return Some(c);
            }
            k += 1;
        }
        None
    }

    /// The first child of node `i`, if any.
    pub fn first_child(&self, i: usize) -> (r: Option<usize>)
        requires
            self.wf(),
            i < self.nodes@.len(),
        ensures
            match r {
                Some(c) => self.nodes@[i as int].children@.len() > 0 && c == self.nodes@[
                    i as int
                ].children@[0] && c < self.nodes@.len(),
                None => self.nodes@[i as int].children@.len() == 0,
            },
    {
        if self.nodes[i].children.len() > 0 {
            proof {
                assert(self.node_ok(i as int));
            }
            Some(self.nodes[i].children[0])
        } else {
            None
        }
    }

    /// The children of node `i`, in document order.
    pub fn children(&self, i: usize) -> (r: &Vec<usize>)
        requires
            i < self.nodes@.len(),
        ensures
            r@ == self.nodes@[i as int].children@,
    {
        &self.nodes[i].children
    }
}

/// The first element child of `p`, scanning from child position `k`.
pub open spec fn fec_from(t: Html, p: int, k: int) -> Option<usize>
    decreases t.nodes@[p].children@.len() - k,
    when 0 <= k <= t.nodes@[p].children@.len()
{
    let cs = t.nodes@[p].children@;
    if k >= cs.len() {
        None
    } else if cs[k] < t.nodes@.len() && t.nodes@[cs[k] as int].kind is Element {
        Some(cs[k])
    } else {
        fec_from(t, p, k + 1)
    }
}

/// The first element child of `p`.
pub open spec fn first_element_child(t: Html, p: int) -> Option<usize> {
    fec_from(t, p, 0)
}

} // verus!

