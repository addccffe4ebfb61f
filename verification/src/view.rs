//! The view protocol: the lifecycle every tree node implements.
//!
//! A view node is an immutable description of one tree position, rebuilt by
//! application logic every cycle. `build` creates its persistent widget and
//! initial view state, `rebuild` diffs a new node against the previous one
//! and patches the widget, `teardown` releases the routing entries of a
//! subtree that left the tree, and `message` routes an inbound event down
//! the retained tree by its recorded path.
//!
//! Heterogeneously-typed positions are carried by a tagged union, with the
//! sum-of-variants combinator (`OneOfA` / `OneOfB`) for a position that
//! holds one of two statically distinct views, and the erased wrapper
//! (`Any`) for a position whose concrete view shape is not fixed: both
//! tear the old subtree down and build the new one fresh when the shape
//! changes between cycles.

use vstd::prelude::*;
use crate::ctx::ViewCtx;
use crate::pod::{Pod, Widget};

verus! {

/// One node of the immutable view tree an application produces each cycle.
#[verifier::ext_equal]
pub enum ViewNode {
    /// A static text leaf.
    Label { text: String },
    /// An action-emitting leaf: an event addressed to its widget identity
    /// produces an action for the application.
    Button { label: String },
    /// A container of exactly two children.
    Pair { first: Box<ViewNode>, second: Box<ViewNode> },
    /// Sum-of-variants combinator, first variant active.
    OneOfA { inner: Box<ViewNode> },
    /// Sum-of-variants combinator, second variant active.
    OneOfB { inner: Box<ViewNode> },
    /// Erased wrapper: the inner shape may change freely between cycles.
    Any { inner: Box<ViewNode> },
}

/// What a node retains across cycles to rebuild and tear down later.
#[verifier::ext_equal]
pub enum ViewState {
    /// A leaf that retains nothing.
    Leaf,
    /// An action-emitting leaf retains the identity it registered.
    ActionLeaf { widget_id: u64 },
    /// A two-child container retains both child states.
    Branch { first: Box<ViewState>, second: Box<ViewState> },
    /// The sum-of-variants combinator retains the active variant's state.
    Variant { inner: Box<ViewState> },
    /// The erased wrapper retains the inner state.
    Erased { inner: Box<ViewState> },
}

/// The outcome of delivering a message to the tree.
#[derive(Clone, Copy, PartialEq, Eq, Structural, Debug)]
pub enum MessageResult {
    /// The addressed node handled the message and emits an action.
    Action { payload: u64 },
    /// Application state changed; the caller must run a new cycle.
    RequestRebuild,
    /// Handled, nothing visible happened.
    Nop,
    /// The address no longer matches the live tree; the event is dropped.
    Stale,
}

/// The widget identities a retained subtree registered in the routing table.
pub open spec fn owned_ids(s: ViewState) -> Set<u64>
    decreases s,
{
    match s {
        ViewState::Leaf => Set::empty(),
        ViewState::ActionLeaf { widget_id } => Set::empty().insert(widget_id),
        ViewState::Branch { first, second } => owned_ids(*first).union(owned_ids(*second)),
        ViewState::Variant { inner } => owned_ids(*inner),
        ViewState::Erased { inner } => owned_ids(*inner),
    }
}

/// All identities a subtree owns were allocated below `n`.
pub open spec fn ids_below(s: ViewState, n: u64) -> bool {
    forall|k: u64| #[trigger] owned_ids(s).contains(k) ==> k < n
}

/// All keys of a routing table were allocated below `n`.
pub open spec fn routes_below(m: Map<u64, Vec<u64>>, n: u64) -> bool {
    forall|k: u64| #[trigger] m.contains_key(k) ==> k < n
}

/// The routing table is faithful to a subtree that sits under the path
/// `base`: every action leaf's registered entry is exactly the path from
/// the root to that leaf. This is what lets an event addressed by identity
/// find the node that produced its widget, however much later it arrives.
pub open spec fn routes_ok(v: ViewNode, s: ViewState, base: Seq<u64>, m: Map<u64, Vec<u64>>) -> bool
    decreases v,
{
    match (v, s) {
        (ViewNode::Button { .. }, ViewState::ActionLeaf { widget_id }) => m.contains_key(widget_id)
            && m[widget_id]@ == base,
        (
            ViewNode::Pair { first, second },
            ViewState::Branch { first: s1, second: s2 },
        ) => routes_ok(*first, *s1, base.push(0), m) && routes_ok(*second, *s2, base.push(1), m),
        (ViewNode::OneOfA { inner }, ViewState::Variant { inner: si }) => routes_ok(
            *inner,
            *si,
            base.push(0),
            m,
        ),
        (ViewNode::OneOfB { inner }, ViewState::Variant { inner: si }) => routes_ok(
            *inner,
            *si,
            base.push(1),
            m,
        ),
        (ViewNode::Any { inner }, ViewState::Erased { inner: si }) => routes_ok(
            *inner,
            *si,
            base.push(0),
            m,
        ),
        (ViewNode::Label { .. }, ViewState::Leaf) => true,
        _ => false,
    }
}

/// Faithfulness of the table to a subtree depends only on the entries that
/// subtree owns: a table that keeps them unchanged stays faithful.
pub proof fn lemma_routes_ok_frame(
    v: ViewNode,
    s: ViewState,
    base: Seq<u64>,
    m0: Map<u64, Vec<u64>>,
    m1: Map<u64, Vec<u64>>,
)
    requires
        routes_ok(v, s, base, m0),
        forall|k: u64|
            #[trigger] owned_ids(s).contains(k) ==> m1.contains_key(k) && m1[k] == m0[k],
    ensures
        routes_ok(v, s, base, m1),
    decreases v,
{
    match (v, s) {
        (ViewNode::Button { .. }, ViewState::ActionLeaf { widget_id }) => {
            assert(owned_ids(s).contains(widget_id));
        },
        (ViewNode::Pair { first, second }, ViewState::Branch { first: s1, second: s2 }) => {
            assert forall|k: u64| #[trigger] owned_ids(*s1).contains(k) implies owned_ids(
                s,
            ).contains(k) by {}
            assert forall|k: u64| #[trigger] owned_ids(*s2).contains(k) implies owned_ids(
                s,
            ).contains(k) by {}
            lemma_routes_ok_frame(*first, *s1, base.push(0), m0, m1);
            lemma_routes_ok_frame(*second, *s2, base.push(1), m0, m1);
        },
        (ViewNode::OneOfA { inner }, ViewState::Variant { inner: si }) => {
            assert(owned_ids(s) == owned_ids(*si));
            lemma_routes_ok_frame(*inner, *si, base.push(0), m0, m1);
        },
        (ViewNode::OneOfB { inner }, ViewState::Variant { inner: si }) => {
            assert(owned_ids(s) == owned_ids(*si));
            lemma_routes_ok_frame(*inner, *si, base.push(1), m0, m1);
        },
        (ViewNode::Any { inner }, ViewState::Erased { inner: si }) => {
            assert(owned_ids(s) == owned_ids(*si));
            lemma_routes_ok_frame(*inner, *si, base.push(0), m0, m1);
        },
        _ => {},
    }
}

/// Law: a faithful routing table delivers. For every identity a retained
/// subtree owns, the registered path leads the message router back to the
/// action leaf that registered it, and the delivery emits the action — an
/// event is never misrouted to another node, however the rest of the table
/// looks.
pub proof fn lemma_routes_ok_delivers(
    v: ViewNode,
    s: ViewState,
    base: Seq<u64>,
    m: Map<u64, Vec<u64>>,
    k: u64,
    payload: u64,
)
    requires
        routes_ok(v, s, base, m),
        owned_ids(s).contains(k),
    ensures
        m.contains_key(k),
        m[k]@.len() >= base.len(),
        m[k]@.subrange(0, base.len() as int) == base,
        route(v, s, m[k]@, base.len() as int, payload) == (MessageResult::Action { payload }),
    decreases v,
{
    let l = base.len() as int;
    match (v, s) {
        (ViewNode::Button { .. }, ViewState::ActionLeaf { widget_id }) => {
            assert(owned_ids(s) == Set::<u64>::empty().insert(widget_id));
            assert(k == widget_id);
            assert(m[k]@.subrange(0, l) =~= base);
        },
        (ViewNode::Pair { first, second }, ViewState::Branch { first: s1, second: s2 }) => {
            assert(owned_ids(s) == owned_ids(*s1).union(owned_ids(*s2)));
            if owned_ids(*s1).contains(k) {
                lemma_routes_ok_delivers(*first, *s1, base.push(0), m, k, payload);
                lemma_prefix_step(m[k]@, base, 0);
            } else {
                assert(owned_ids(*s2).contains(k));
                lemma_routes_ok_delivers(*second, *s2, base.push(1), m, k, payload);
                lemma_prefix_step(m[k]@, base, 1);
            }
        },
        (ViewNode::OneOfA { inner }, ViewState::Variant { inner: si }) => {
            lemma_routes_ok_delivers(*inner, *si, base.push(0), m, k, payload);
            lemma_prefix_step(m[k]@, base, 0);
        },
        (ViewNode::OneOfB { inner }, ViewState::Variant { inner: si }) => {
            lemma_routes_ok_delivers(*inner, *si, base.push(1), m, k, payload);
            lemma_prefix_step(m[k]@, base, 1);
        },
        (ViewNode::Any { inner }, ViewState::Erased { inner: si }) => {
            lemma_routes_ok_delivers(*inner, *si, base.push(0), m, k, payload);
            lemma_prefix_step(m[k]@, base, 0);
        },
        (ViewNode::Label { .. }, ViewState::Leaf) => {
            assert(owned_ids(s) == Set::<u64>::empty());
        },
        _ => {
            assert(false);
        },
    }
}

/// A path that extends `base.push(id)` extends `base`, and carries `id` at
/// position `base.len()`.
proof fn lemma_prefix_step(p: Seq<u64>, base: Seq<u64>, id: u64)
    requires
        p.len() >= base.len() + 1,
        p.subrange(0, base.len() as int + 1) == base.push(id),
    ensures
        p.len() >= base.len(),
        p.subrange(0, base.len() as int) == base,
        p[base.len() as int] == id,
{
    let l = base.len() as int;
    assert(p.subrange(0, l + 1)[l] == p[l]);
    assert(base.push(id)[l] == id);
    assert forall|j: int| 0 <= j < l implies p.subrange(0, l)[j] == base[j] by {
        assert(p.subrange(0, l + 1)[j] == p[j]);
        assert(base.push(id)[j] == base[j]);
    }
    assert(p.subrange(0, l) =~= base);
}

/// Well-formedness of one retained tree position: the view state has the
/// shape the view dictates, the widget reflects the view's content, an
/// action leaf's recorded identity is its widget's identity, and sibling
/// subtrees own disjoint identities.
pub open spec fn wf(v: ViewNode, s: ViewState, p: Pod) -> bool
    decreases v,
{
    match v {
        ViewNode::Label { text } => match (s, p.widget) {
            (ViewState::Leaf, Widget::Label { text: wtext }) => text@ == wtext@,
            _ => false,
        },
        ViewNode::Button { label } => match (s, p.widget) {
            (ViewState::ActionLeaf { widget_id }, Widget::Button { label: wlabel }) => label@
                == wlabel@ && widget_id == p.id,
            _ => false,
        },
        ViewNode::Pair { first, second } => match (s, p.widget) {
            (
                ViewState::Branch { first: s1, second: s2 },
                Widget::Pair { first: p1, second: p2 },
            ) => wf(*first, *s1, *p1) && wf(*second, *s2, *p2) && owned_ids(*s1).disjoint(
                owned_ids(*s2),
            ),
            _ => false,
        },
        ViewNode::OneOfA { inner } => match (s, p.widget) {
            (ViewState::Variant { inner: si }, Widget::Slot { inner: pi }) => wf(*inner, *si, *pi),
            _ => false,
        },
        ViewNode::OneOfB { inner } => match (s, p.widget) {
            (ViewState::Variant { inner: si }, Widget::Slot { inner: pi }) => wf(*inner, *si, *pi),
            _ => false,
        },
        ViewNode::Any { inner } => match s {
            ViewState::Erased { inner: si } => wf(*inner, *si, p),
            _ => false,
        },
    }
}

/// Two views occupy the same static shape: `rebuild` may patch in place.
/// The sum-of-variants combinator accepts either variant, and the erased
/// wrapper accepts any inner shape; those two handle a shape change
/// themselves, by structural recreation.
pub open spec fn compatible(new: ViewNode, prev: ViewNode) -> bool
    decreases new,
{
    match (new, prev) {
        (ViewNode::Label { .. }, ViewNode::Label { .. }) => true,
        (ViewNode::Button { .. }, ViewNode::Button { .. }) => true,
        (
            ViewNode::Pair { first: a, second: b },
            ViewNode::Pair { first: c, second: d },
        ) => compatible(*a, *c) && compatible(*b, *d),
        (ViewNode::OneOfA { inner: a }, ViewNode::OneOfA { inner: b }) => compatible(*a, *b),
        (ViewNode::OneOfB { inner: a }, ViewNode::OneOfB { inner: b }) => compatible(*a, *b),
        (ViewNode::OneOfA { .. }, ViewNode::OneOfB { .. }) => true,
        (ViewNode::OneOfB { .. }, ViewNode::OneOfA { .. }) => true,
        (ViewNode::Any { .. }, ViewNode::Any { .. }) => true,
        _ => false,
    }
}

/// Domain equality of two views: same shape and same content everywhere.
pub open spec fn node_eq(a: ViewNode, b: ViewNode) -> bool
    decreases a,
{
    match (a, b) {
        (ViewNode::Label { text: t1 }, ViewNode::Label { text: t2 }) => t1@ == t2@,
        (ViewNode::Button { label: l1 }, ViewNode::Button { label: l2 }) => l1@ == l2@,
        (
            ViewNode::Pair { first: a1, second: b1 },
            ViewNode::Pair { first: a2, second: b2 },
        ) => node_eq(*a1, *a2) && node_eq(*b1, *b2),
        (ViewNode::OneOfA { inner: a1 }, ViewNode::OneOfA { inner: a2 }) => node_eq(*a1, *a2),
        (ViewNode::OneOfB { inner: a1 }, ViewNode::OneOfB { inner: a2 }) => node_eq(*a1, *a2),
        (ViewNode::Any { inner: a1 }, ViewNode::Any { inner: a2 }) => node_eq(*a1, *a2),
        _ => false,
    }
}

/// How many widget identities building this view allocates.
pub open spec fn node_count(v: ViewNode) -> nat
    decreases v,
{
    match v {
        ViewNode::Label { .. } => 1,
        ViewNode::Button { .. } => 1,
        ViewNode::Pair { first, second } => 1 + node_count(*first) + node_count(*second),
        ViewNode::OneOfA { inner } => 1 + node_count(*inner),
        ViewNode::OneOfB { inner } => 1 + node_count(*inner),
        ViewNode::Any { inner } => node_count(*inner),
    }
}

impl ViewNode {
    /// Erase this node's shape: the resulting position may hold any shape
    /// in a later cycle, at the cost of a full teardown and rebuild when
    /// the shape changes.
    pub fn boxed(self) -> (r: ViewNode)
        ensures
            r matches ViewNode::Any { inner } && *inner == self,
    {
        ViewNode::Any { inner: Box::new(self) }
    }
}

/// Equal views occupy the same static shape.
pub proof fn lemma_node_eq_compatible(a: ViewNode, b: ViewNode)
    requires
        node_eq(a, b),
    ensures
        compatible(a, b),
    decreases a,
{
    match (a, b) {
        (ViewNode::Pair { first: a1, second: b1 }, ViewNode::Pair { first: a2, second: b2 }) => {
            lemma_node_eq_compatible(*a1, *a2);
            lemma_node_eq_compatible(*b1, *b2);
        },
        (ViewNode::OneOfA { inner: a1 }, ViewNode::OneOfA { inner: a2 }) => {
            lemma_node_eq_compatible(*a1, *a2);
        },
        (ViewNode::OneOfB { inner: a1 }, ViewNode::OneOfB { inner: a2 }) => {
            lemma_node_eq_compatible(*a1, *a2);
        },
        _ => {},
    }
}

/// Decide `compatible` at run time, so a host can test a fresh view tree
/// against the retained one before asking for a rebuild.
pub fn is_compatible(new: &ViewNode, prev: &ViewNode) -> (r: bool)
    ensures
        r == compatible(*new, *prev),
    decreases *new,
{
    match (new, prev) {
        (ViewNode::Label { .. }, ViewNode::Label { .. }) => true,
        (ViewNode::Button { .. }, ViewNode::Button { .. }) => true,
        (ViewNode::Pair { first: a, second: b }, ViewNode::Pair { first: c, second: d }) => {
            is_compatible(a, c) && is_compatible(b, d)
        },
        (ViewNode::OneOfA { inner: a }, ViewNode::OneOfA { inner: b }) => is_compatible(a, b),
        (ViewNode::OneOfB { inner: a }, ViewNode::OneOfB { inner: b }) => is_compatible(a, b),
        (ViewNode::OneOfA { .. }, ViewNode::OneOfB { .. }) => true,
        (ViewNode::OneOfB { .. }, ViewNode::OneOfA { .. }) => true,
        (ViewNode::Any { .. }, ViewNode::Any { .. }) => true,
        _ => false,
    }
}

/// How many widget identities building this view would allocate, or `None`
/// where the count does not fit a machine word.
pub fn count_nodes(view: &ViewNode) -> (r: Option<u64>)
    ensures
        match r {
            Some(n) => n == node_count(*view),
            None => node_count(*view) > u64::MAX,
        },
    decreases *view,
{
    match view {
        ViewNode::Label { .. } => Some(1),
        ViewNode::Button { .. } => Some(1),
        ViewNode::Pair { first, second } => {
            match (count_nodes(first), count_nodes(second)) {
                (Some(a), Some(b)) => {
                    match a.checked_add(b) {
                        Some(ab) => ab.checked_add(1),
                        None => None,
                    }
                },
                _ => None,
            }
        },
        ViewNode::OneOfA { inner } => {
            match count_nodes(inner) {
                Some(a) => a.checked_add(1),
                None => None,
            }
        },
        ViewNode::OneOfB { inner } => {
            match count_nodes(inner) {
                Some(a) => a.checked_add(1),
                None => None,
            }
        },
        ViewNode::Any { inner } => count_nodes(inner),
    }
}

/// Create the subtree of `view`: allocate its widgets, register its
/// action-capable leaves under the current path, and return the widget
/// handle with the state the subtree retains.
///
/// The contract carries the invariants every traversal keeps: the path
/// stack leaves as it entered, identities are allocated fresh and in order,
/// and the routing table gains exactly the entries the new subtree owns,
/// every older entry untouched.
pub fn build(view: &ViewNode, ctx: &mut ViewCtx) -> (r: (Pod, ViewState))
    requires
        old(ctx).next_id() + node_count(*view) <= u64::MAX,
        routes_below(old(ctx).routes(), old(ctx).next_id()),
    ensures
        final(ctx).path() == old(ctx).path(),
        final(ctx).changed() == old(ctx).changed(),
        final(ctx).next_id() == old(ctx).next_id() + node_count(*view),
        wf(*view, r.1, r.0),
        ids_below(r.1, final(ctx).next_id()),
        routes_below(final(ctx).routes(), final(ctx).next_id()),
        forall|k: u64| #[trigger] owned_ids(r.1).contains(k) ==> old(ctx).next_id() <= k,
        forall|k: u64|
            #[trigger] final(ctx).routes().contains_key(k) <==> (old(ctx).routes().contains_key(k)
                || owned_ids(r.1).contains(k)),
        forall|k: u64|
            #[trigger] old(ctx).routes().contains_key(k) ==> final(ctx).routes()[k] == old(
                ctx,
            ).routes()[k],
        routes_ok(*view, r.1, old(ctx).path(), final(ctx).routes()),
    decreases *view,
{
    match view {
        ViewNode::Label { text } => {
            let pod = Pod::new(Widget::Label { text: text.clone() }, ctx);
            proof {
                assert(owned_ids(ViewState::Leaf) == Set::<u64>::empty());
            }
            (pod, ViewState::Leaf)
        },
        ViewNode::Button { label } => {
            let pod = Pod::new(Widget::Button { label: label.clone() }, ctx);
            let pod = ctx.with_action_widget(pod);
            let widget_id: u64 = pod.id;
            proof {
                assert(owned_ids(ViewState::ActionLeaf { widget_id }) == Set::<
                    u64,
                >::empty().insert(widget_id));
            }
            (pod, ViewState::ActionLeaf { widget_id })
        },
        ViewNode::Pair { first, second } => {
            ctx.push_id(0);
            let (p1, s1) = build(first, ctx);
            ctx.pop_id();
            let ghost mid = *ctx;
            ctx.push_id(1);
            let (p2, s2) = build(second, ctx);
            ctx.pop_id();
            let ghost done = *ctx;
            let pod = Pod::new(
                Widget::Pair { first: Box::new(p1), second: Box::new(p2) },
                ctx,
            );
            let st = ViewState::Branch { first: Box::new(s1), second: Box::new(s2) };
            proof {
                assert(old(ctx).path().push(0).drop_last() =~= old(ctx).path());
                assert(old(ctx).path().push(1).drop_last() =~= old(ctx).path());
                assert(owned_ids(st) == owned_ids(s1).union(owned_ids(s2)));
                assert forall|k: u64| owned_ids(s1).contains(k) && owned_ids(s2).contains(
                    k,
                ) implies false by {
                    assert(k < mid.next_id());
                    assert(mid.next_id() <= k);
                }
                assert(owned_ids(s1).disjoint(owned_ids(s2)));
                assert forall|k: u64| #[trigger] old(ctx).routes().contains_key(
                    k,
                ) implies ctx.routes().contains_key(k) && ctx.routes()[k] == old(
                    ctx,
                ).routes()[k] by {
                    assert(mid.routes().contains_key(k));
                    assert(mid.routes()[k] == old(ctx).routes()[k]);
                    assert(done.routes().contains_key(k));
                    assert(done.routes()[k] == mid.routes()[k]);
                }
                assert forall|k: u64| #[trigger] ctx.routes().contains_key(k) implies (old(
                    ctx,
                ).routes().contains_key(k) || owned_ids(st).contains(k)) by {
                    assert(done.routes().contains_key(k));
                    if !old(ctx).routes().contains_key(k) {
                        if mid.routes().contains_key(k) {
                            assert(owned_ids(s1).contains(k));
                        } else {
                            assert(owned_ids(s2).contains(k));
                        }
                    }
                }
                assert forall|k: u64| old(ctx).routes().contains_key(k) || owned_ids(
                    st,
                ).contains(k) implies #[trigger] ctx.routes().contains_key(k) by {
                    if owned_ids(st).contains(k) {
                        if owned_ids(s1).contains(k) {
                            assert(mid.routes().contains_key(k));
                        }
                        assert(done.routes().contains_key(k));
                    } else {
                        assert(mid.routes().contains_key(k));
                        assert(done.routes().contains_key(k));
                    }
                }
                assert forall|k: u64| #[trigger] owned_ids(st).contains(k) implies old(
                    ctx,
                ).next_id() <= k && k < ctx.next_id() by {
                    if owned_ids(s1).contains(k) {
                        assert(k < mid.next_id());
                    } else {
                        assert(owned_ids(s2).contains(k));
                        assert(mid.next_id() <= k);
                        assert(k < done.next_id());
                    }
                }
                // the first child's registrations survive the second build
                assert forall|k: u64| #[trigger] owned_ids(s1).contains(k) implies ctx.routes().contains_key(
                    k,
                ) && ctx.routes()[k] == mid.routes()[k] by {
                    assert(mid.routes().contains_key(k));
                    assert(done.routes().contains_key(k));
                    assert(done.routes()[k] == mid.routes()[k]);
                }
                lemma_routes_ok_frame(
                    **first,
                    s1,
                    old(ctx).path().push(0),
                    mid.routes(),
                    ctx.routes(),
                );
            }
            (pod, st)
        },
        ViewNode::OneOfA { inner } => {
            ctx.push_id(0);
            let (pi, si) = build(inner, ctx);
            ctx.pop_id();
            let pod = Pod::new(Widget::Slot { inner: Box::new(pi) }, ctx);
            let st = ViewState::Variant { inner: Box::new(si) };
            proof {
                assert(old(ctx).path().push(0).drop_last() =~= old(ctx).path());
                assert(owned_ids(st) == owned_ids(si));
            }
            (pod, st)
        },
        ViewNode::OneOfB { inner } => {
            ctx.push_id(1);
            let (pi, si) = build(inner, ctx);
            ctx.pop_id();
            let pod = Pod::new(Widget::Slot { inner: Box::new(pi) }, ctx);
            let st = ViewState::Variant { inner: Box::new(si) };
            proof {
                assert(old(ctx).path().push(1).drop_last() =~= old(ctx).path());
                assert(owned_ids(st) == owned_ids(si));
            }
            (pod, st)
        },
        ViewNode::Any { inner } => {
            ctx.push_id(0);
            let (pi, si) = build(inner, ctx);
            ctx.pop_id();
            let st = ViewState::Erased { inner: Box::new(si) };
            proof {
                assert(old(ctx).path().push(0).drop_last() =~= old(ctx).path());
                assert(owned_ids(st) == owned_ids(si));
            }
            (pi, st)
        },
    }
}

/// Release the subtree at this position: remove every routing entry it
/// owns, and nothing else. Called exactly once, in the cycle the position
/// is structurally removed, before the widget handle is dropped.
pub fn teardown(view: &ViewNode, state: &ViewState, ctx: &mut ViewCtx, element: &Pod)
    requires
        wf(*view, *state, *element),
    ensures
        final(ctx).path() == old(ctx).path(),
        final(ctx).changed() == old(ctx).changed(),
        final(ctx).next_id() == old(ctx).next_id(),
        forall|k: u64|
            #[trigger] final(ctx).routes().contains_key(k) <==> (old(ctx).routes().contains_key(k)
                && !owned_ids(*state).contains(k)),
        forall|k: u64|
            #[trigger] final(ctx).routes().contains_key(k) ==> final(ctx).routes()[k] == old(
                ctx,
            ).routes()[k],
    decreases *view,
{
    match view {
        ViewNode::Label { .. } => {},
        ViewNode::Button { .. } => {
            ctx.teardown_leaf(element);
        },
        ViewNode::Pair { first, second } => {
            match (state, &element.widget) {
                (
                    ViewState::Branch { first: s1, second: s2 },
                    Widget::Pair { first: p1, second: p2 },
                ) => {
                    ctx.push_id(0);
                    teardown(first, s1, ctx, p1);
                    ctx.pop_id();
                    ctx.push_id(1);
                    teardown(second, s2, ctx, p2);
                    ctx.pop_id();
                    proof {
                        assert(old(ctx).path().push(0).drop_last() =~= old(ctx).path());
                        assert(old(ctx).path().push(1).drop_last() =~= old(ctx).path());
                    }
                },
                _ => {
                    proof {
                        assert(false);
                    }
                },
            }
        },
        ViewNode::OneOfA { inner } => {
            match (state, &element.widget) {
                (ViewState::Variant { inner: si }, Widget::Slot { inner: pi }) => {
                    ctx.push_id(0);
                    teardown(inner, si, ctx, pi);
                    ctx.pop_id();
                    proof {
                        assert(old(ctx).path().push(0).drop_last() =~= old(ctx).path());
                    }
                },
                _ => {
                    proof {
                        assert(false);
                    }
                },
            }
        },
        ViewNode::OneOfB { inner } => {
            match (state, &element.widget) {
                (ViewState::Variant { inner: si }, Widget::Slot { inner: pi }) => {
                    ctx.push_id(1);
                    teardown(inner, si, ctx, pi);
                    ctx.pop_id();
                    proof {
                        assert(old(ctx).path().push(1).drop_last() =~= old(ctx).path());
                    }
                },
                _ => {
                    proof {
                        assert(false);
                    }
                },
            }
        },
        ViewNode::Any { inner } => {
            match state {
                ViewState::Erased { inner: si } => {
                    ctx.push_id(0);
                    teardown(inner, si, ctx, element);
                    ctx.pop_id();
                    proof {
                        assert(old(ctx).path().push(0).drop_last() =~= old(ctx).path());
                    }
                },
                _ => {
                    proof {
                        assert(false);
                    }
                },
            }
        },
    }
}

/// Did this rebuild step switch the active shape of the position, tearing
/// the old subtree down and building the new one fresh?
pub open spec fn shape_switch(new: ViewNode, prev: ViewNode) -> bool {
    match (new, prev) {
        (ViewNode::OneOfA { .. }, ViewNode::OneOfB { .. }) => true,
        (ViewNode::OneOfB { .. }, ViewNode::OneOfA { .. }) => true,
        (ViewNode::Any { inner: ni }, ViewNode::Any { inner: pi }) => !compatible(*ni, *pi),
        _ => false,
    }
}

/// Diff `new` against `prev` at a position whose retained state and widget
/// are `state` and `element`, patching as little as possible: an unchanged
/// node leaves the widget, the view state, the routing table and the
/// structural-change flag exactly as they were. A changed variant or an
/// incompatible erased shape is torn down and rebuilt fresh, so no routing
/// entry of the old subtree survives and every identity of the new one is
/// freshly allocated.
pub fn rebuild(
    new: &ViewNode,
    prev: &ViewNode,
    state: &ViewState,
    ctx: &mut ViewCtx,
    element: &Pod,
) -> (r: (Pod, ViewState))
    requires
        compatible(*new, *prev),
        wf(*prev, *state, *element),
        ids_below(*state, old(ctx).next_id()),
        routes_below(old(ctx).routes(), old(ctx).next_id()),
        forall|k: u64|
            #[trigger] owned_ids(*state).contains(k) ==> old(ctx).routes().contains_key(k),
        routes_ok(*prev, *state, old(ctx).path(), old(ctx).routes()),
        old(ctx).next_id() + node_count(*new) <= u64::MAX,
    ensures
        final(ctx).path() == old(ctx).path(),
        old(ctx).next_id() <= final(ctx).next_id() <= old(ctx).next_id() + node_count(*new),
        wf(*new, r.1, r.0),
        ids_below(r.1, final(ctx).next_id()),
        routes_below(final(ctx).routes(), final(ctx).next_id()),
        forall|k: u64|
            #[trigger] owned_ids(r.1).contains(k) ==> owned_ids(*state).contains(k) || old(
                ctx,
            ).next_id() <= k,
        forall|k: u64|
            #[trigger] final(ctx).routes().contains_key(k) <==> ((old(ctx).routes().contains_key(k)
                && !owned_ids(*state).contains(k)) || owned_ids(r.1).contains(k)),
        forall|k: u64|
            old(ctx).routes().contains_key(k) && !owned_ids(*state).contains(k)
                ==> final(ctx).routes().contains_key(k) && final(ctx).routes()[k] == old(
                ctx,
            ).routes()[k],
        forall|k: u64|
            owned_ids(*state).contains(k) && owned_ids(r.1).contains(k)
                ==> final(ctx).routes()[k] == old(ctx).routes()[k],
        shape_switch(*new, *prev) ==> forall|k: u64|
            #[trigger] owned_ids(r.1).contains(k) ==> old(ctx).next_id() <= k,
        old(ctx).changed() ==> final(ctx).changed(),
        node_eq(*new, *prev) ==> (r.0 == *element && r.1 == *state && final(ctx).routes() == old(
            ctx,
        ).routes() && final(ctx).changed() == old(ctx).changed() && final(ctx).next_id() == old(
            ctx,
        ).next_id()),
        routes_ok(*new, r.1, old(ctx).path(), final(ctx).routes()),
    decreases *new,
{
    match (new, prev) {
        (ViewNode::Label { text: nt }, ViewNode::Label { .. }) => {
            let old_text = element.label_text();
            proof {
                assert(owned_ids(ViewState::Leaf) == Set::<u64>::empty());
            }
            if *nt == *old_text {
                let pod = Pod { id: element.id, widget: Widget::Label { text: old_text.clone() } };
                (pod, ViewState::Leaf)
            } else {
                ctx.mark_changed();
                let pod = Pod { id: element.id, widget: Widget::Label { text: nt.clone() } };
                (pod, ViewState::Leaf)
            }
        },
        (ViewNode::Button { label: nl }, ViewNode::Button { .. }) => {
            let old_label = element.button_label();
            let widget_id: u64 = element.id;
            let st = ViewState::ActionLeaf { widget_id };
            proof {
                assert(owned_ids(st) == Set::<u64>::empty().insert(widget_id));
                assert(owned_ids(st).contains(widget_id));
                assert(*state == st);
            }
            if *nl == *old_label {
                let pod = Pod {
                    id: element.id,
                    widget: Widget::Button { label: old_label.clone() },
                };
                (pod, st)
            } else {
                ctx.mark_changed();
                let pod = Pod { id: element.id, widget: Widget::Button { label: nl.clone() } };
                (pod, st)
            }
        },
        (
            ViewNode::Pair { first: nf, second: ns },
            ViewNode::Pair { first: pf, second: ps },
        ) => {
            match (state, &element.widget) {
                (
                    ViewState::Branch { first: s1, second: s2 },
                    Widget::Pair { first: p1, second: p2 },
                ) => {
                    proof {
                        assert(owned_ids(*state) == owned_ids(**s1).union(owned_ids(**s2)));
                        assert forall|k: u64| #[trigger] owned_ids(**s1).contains(
                            k,
                        ) implies owned_ids(*state).contains(k) by {}
                        assert forall|k: u64| #[trigger] owned_ids(**s2).contains(
                            k,
                        ) implies owned_ids(*state).contains(k) by {}
                    }
                    ctx.push_id(0);
                    let r1 = rebuild(nf, pf, s1, ctx, p1);
                    ctx.pop_id();
                    let ghost mid = *ctx;
                    proof {
                        assert(old(ctx).path().push(0).drop_last() =~= old(ctx).path());
                        assert forall|k: u64| #[trigger] owned_ids(**s2).contains(
                            k,
                        ) implies mid.routes().contains_key(k) && mid.routes()[k] == old(
                            ctx,
                        ).routes()[k] by {
                            assert(owned_ids(*state).contains(k));
                            assert(old(ctx).routes().contains_key(k));
                            assert(!owned_ids(**s1).contains(k));
                        }
                        lemma_routes_ok_frame(
                            **ps,
                            **s2,
                            old(ctx).path().push(1),
                            old(ctx).routes(),
                            mid.routes(),
                        );
                    }
                    ctx.push_id(1);
                    let r2 = rebuild(ns, ps, s2, ctx, p2);
                    ctx.pop_id();
                    let ghost done = *ctx;
                    let pod = Pod {
                        id: element.id,
                        widget: Widget::Pair {
                            first: Box::new(r1.0),
                            second: Box::new(r2.0),
                        },
                    };
                    let st = ViewState::Branch {
                        first: Box::new(r1.1),
                        second: Box::new(r2.1),
                    };
                    proof {
                        assert(old(ctx).path().push(0).drop_last() =~= old(ctx).path());
                        assert(old(ctx).path().push(1).drop_last() =~= old(ctx).path());
                        assert(owned_ids(st) == owned_ids(r1.1).union(owned_ids(r2.1)));
                        // sibling identity sets stay apart
                        assert forall|k: u64| owned_ids(r1.1).contains(k) && owned_ids(
                            r2.1,
                        ).contains(k) implies false by {
                            assert(k < mid.next_id());
                            if owned_ids(**s2).contains(k) {
                                assert(owned_ids(*state).contains(k));
                                if owned_ids(**s1).contains(k) {
                                    assert(false);
                                } else {
                                    assert(owned_ids(r1.1).contains(k));
                                    assert(owned_ids(**s1).contains(k) || old(ctx).next_id() <= k);
                                    assert(k < old(ctx).next_id());
                                }
                            } else {
                                assert(mid.next_id() <= k);
                            }
                        }
                        assert(owned_ids(r1.1).disjoint(owned_ids(r2.1)));
                        // untouched entries survive both children
                        assert forall|k: u64| old(ctx).routes().contains_key(k) && !owned_ids(
                            *state,
                        ).contains(k) implies done.routes().contains_key(k) && done.routes()[k]
                            == old(ctx).routes()[k] by {
                            assert(!owned_ids(**s1).contains(k));
                            assert(!owned_ids(**s2).contains(k));
                            assert(mid.routes().contains_key(k));
                            assert(mid.routes()[k] == old(ctx).routes()[k]);
                        }
                        // kept entries keep their paths
                        assert forall|k: u64| owned_ids(*state).contains(k) && owned_ids(
                            st,
                        ).contains(k) implies done.routes()[k] == old(ctx).routes()[k] by {
                            if owned_ids(**s1).contains(k) {
                                assert(k < old(ctx).next_id());
                                if owned_ids(r2.1).contains(k) {
                                    assert(owned_ids(**s2).contains(k) || mid.next_id() <= k);
                                    assert(false);
                                }
                                assert(owned_ids(r1.1).contains(k));
                                assert(mid.routes()[k] == old(ctx).routes()[k]);
                                assert(mid.routes().contains_key(k));
                                assert(!owned_ids(**s2).contains(k));
                                assert(done.routes()[k] == mid.routes()[k]);
                            } else {
                                assert(owned_ids(**s2).contains(k));
                                assert(k < old(ctx).next_id());
                                if owned_ids(r1.1).contains(k) {
                                    assert(owned_ids(**s1).contains(k) || old(ctx).next_id() <= k);
                                    assert(false);
                                }
                                assert(owned_ids(r2.1).contains(k));
                                assert(mid.routes().contains_key(k));
                                assert(mid.routes()[k] == old(ctx).routes()[k]);
                                assert(done.routes()[k] == mid.routes()[k]);
                            }
                        }
                        // the domain transition, both directions
                        assert forall|k: u64| #[trigger] done.routes().contains_key(k) implies ((old(
                            ctx,
                        ).routes().contains_key(k) && !owned_ids(*state).contains(k)) || owned_ids(
                            st,
                        ).contains(k)) by {
                            if !owned_ids(st).contains(k) {
                                assert(!owned_ids(r2.1).contains(k));
                                assert(mid.routes().contains_key(k) && !owned_ids(**s2).contains(
                                    k,
                                ));
                                assert(!owned_ids(r1.1).contains(k));
                                assert(old(ctx).routes().contains_key(k) && !owned_ids(
                                    **s1,
                                ).contains(k));
                            }
                        }
                        assert forall|k: u64| ((old(ctx).routes().contains_key(k) && !owned_ids(
                            *state,
                        ).contains(k)) || owned_ids(st).contains(k)) implies #[trigger] done.routes().contains_key(
                            k,
                        ) by {
                            if owned_ids(st).contains(k) {
                                if owned_ids(r2.1).contains(k) {
                                    assert(done.routes().contains_key(k));
                                } else {
                                    assert(owned_ids(r1.1).contains(k));
                                    assert(mid.routes().contains_key(k));
                                    assert(!owned_ids(**s2).contains(k));
                                    assert(done.routes().contains_key(k));
                                }
                            } else {
                                assert(!owned_ids(**s1).contains(k));
                                assert(!owned_ids(**s2).contains(k));
                                assert(mid.routes().contains_key(k));
                                assert(done.routes().contains_key(k));
                            }
                        }
                        // where the new subtree's identities come from
                        assert forall|k: u64| #[trigger] owned_ids(st).contains(k) implies owned_ids(
                            *state,
                        ).contains(k) || old(ctx).next_id() <= k by {
                            if owned_ids(r1.1).contains(k) {
                            } else {
                                assert(owned_ids(r2.1).contains(k));
                                if !owned_ids(**s2).contains(k) {
                                    assert(mid.next_id() <= k);
                                }
                            }
                        }
                        assert forall|k: u64| #[trigger] owned_ids(st).contains(k) implies k
                            < done.next_id() by {
                            if owned_ids(r1.1).contains(k) {
                                assert(k < mid.next_id());
                            }
                        }
                        if node_eq(*new, *prev) {
                            assert(node_eq(**nf, **pf) && node_eq(**ns, **ps));
                            assert(r1.0 == **p1 && r2.0 == **p2);
                            assert(pod =~= *element);
                            assert(st =~= *state);
                        }
                        // the first child's registrations survive the second rebuild
                        assert forall|k: u64| #[trigger] owned_ids(r1.1).contains(
                            k,
                        ) implies done.routes().contains_key(k) && done.routes()[k]
                            == mid.routes()[k] by {
                            assert(mid.routes().contains_key(k));
                            if owned_ids(**s2).contains(k) {
                                assert(owned_ids(*state).contains(k));
                                assert(k < old(ctx).next_id());
                                if owned_ids(**s1).contains(k) {
                                    assert(false);
                                } else {
                                    assert(owned_ids(**s1).contains(k) || old(ctx).next_id() <= k);
                                    assert(false);
                                }
                            }
                            assert(!owned_ids(**s2).contains(k));
                        }
                        lemma_routes_ok_frame(
                            **nf,
                            r1.1,
                            old(ctx).path().push(0),
                            mid.routes(),
                            done.routes(),
                        );
                    }
                    (pod, st)
                },
                _ => {
                    proof {
                        assert(false);
                    }
                    unreached()
                },
            }
        },
        (ViewNode::OneOfA { inner: ni }, ViewNode::OneOfA { inner: pi }) => {
            match (state, &element.widget) {
                (ViewState::Variant { inner: si }, Widget::Slot { inner: ip }) => {
                    proof {
                        assert(owned_ids(*state) == owned_ids(**si));
                    }
                    ctx.push_id(0);
                    let ri = rebuild(ni, pi, si, ctx, ip);
                    ctx.pop_id();
                    let pod = Pod { id: element.id, widget: Widget::Slot { inner: Box::new(ri.0) } };
                    let st = ViewState::Variant { inner: Box::new(ri.1) };
                    proof {
                        assert(old(ctx).path().push(0).drop_last() =~= old(ctx).path());
                        assert(owned_ids(st) == owned_ids(ri.1));
                        if node_eq(*new, *prev) {
                            assert(ri.0 == **ip && ri.1 == **si);
                            assert(pod =~= *element);
                            assert(st =~= *state);
                        }
                    }
                    (pod, st)
                },
                _ => {
                    proof {
                        assert(false);
                    }
                    unreached()
                },
            }
        },
        (ViewNode::OneOfB { inner: ni }, ViewNode::OneOfB { inner: pi }) => {
            match (state, &element.widget) {
                (ViewState::Variant { inner: si }, Widget::Slot { inner: ip }) => {
                    proof {
                        assert(owned_ids(*state) == owned_ids(**si));
                    }
                    ctx.push_id(1);
                    let ri = rebuild(ni, pi, si, ctx, ip);
                    ctx.pop_id();
                    let pod = Pod { id: element.id, widget: Widget::Slot { inner: Box::new(ri.0) } };
                    let st = ViewState::Variant { inner: Box::new(ri.1) };
                    proof {
                        assert(old(ctx).path().push(1).drop_last() =~= old(ctx).path());
                        assert(owned_ids(st) == owned_ids(ri.1));
                        if node_eq(*new, *prev) {
                            assert(ri.0 == **ip && ri.1 == **si);
                            assert(pod =~= *element);
                            assert(st =~= *state);
                        }
                    }
                    (pod, st)
                },
                _ => {
                    proof {
                        assert(false);
                    }
                    unreached()
                },
            }
        },
        (ViewNode::OneOfA { inner: ni }, ViewNode::OneOfB { inner: pi }) => {
            match (state, &element.widget) {
                (ViewState::Variant { inner: si }, Widget::Slot { inner: ip }) => {
                    proof {
                        assert(owned_ids(*state) == owned_ids(**si));
                    }
                    ctx.push_id(1);
                    teardown(pi, si, ctx, ip);
                    ctx.pop_id();
                    ctx.push_id(0);
                    let b = build(ni, ctx);
                    ctx.pop_id();
                    ctx.mark_changed();
                    let pod = Pod { id: element.id, widget: Widget::Slot { inner: Box::new(b.0) } };
                    let st = ViewState::Variant { inner: Box::new(b.1) };
                    proof {
                        assert(old(ctx).path().push(1).drop_last() =~= old(ctx).path());
                        assert(old(ctx).path().push(0).drop_last() =~= old(ctx).path());
                        assert(owned_ids(st) == owned_ids(b.1));
                    }
                    (pod, st)
                },
                _ => {
                    proof {
                        assert(false);
                    }
                    unreached()
                },
            }
        },
        (ViewNode::OneOfB { inner: ni }, ViewNode::OneOfA { inner: pi }) => {
            match (state, &element.widget) {
                (ViewState::Variant { inner: si }, Widget::Slot { inner: ip }) => {
                    proof {
                        assert(owned_ids(*state) == owned_ids(**si));
                    }
                    ctx.push_id(0);
                    teardown(pi, si, ctx, ip);
                    ctx.pop_id();
                    ctx.push_id(1);
                    let b = build(ni, ctx);
                    ctx.pop_id();
                    ctx.mark_changed();
                    let pod = Pod { id: element.id, widget: Widget::Slot { inner: Box::new(b.0) } };
                    let st = ViewState::Variant { inner: Box::new(b.1) };
                    proof {
                        assert(old(ctx).path().push(0).drop_last() =~= old(ctx).path());
                        assert(old(ctx).path().push(1).drop_last() =~= old(ctx).path());
                        assert(owned_ids(st) == owned_ids(b.1));
                    }
                    (pod, st)
                },
                _ => {
                    proof {
                        assert(false);
                    }
                    unreached()
                },
            }
        },
        (ViewNode::Any { inner: ni }, ViewNode::Any { inner: pi }) => {
            match state {
                ViewState::Erased { inner: si } => {
                    proof {
                        assert(owned_ids(*state) == owned_ids(**si));
                    }
                    if is_compatible(ni, pi) {
                        ctx.push_id(0);
                        let ri = rebuild(ni, pi, si, ctx, element);
                        ctx.pop_id();
                        let st = ViewState::Erased { inner: Box::new(ri.1) };
                        proof {
                            assert(old(ctx).path().push(0).drop_last() =~= old(ctx).path());
                            assert(owned_ids(st) == owned_ids(ri.1));
                            if node_eq(*new, *prev) {
                                assert(st =~= *state);
                            }
                        }
                        (ri.0, st)
                    } else {
                        ctx.push_id(0);
                        teardown(pi, si, ctx, element);
                        ctx.pop_id();
                        ctx.push_id(0);
                        let b = build(ni, ctx);
                        ctx.pop_id();
                        ctx.mark_changed();
                        let st = ViewState::Erased { inner: Box::new(b.1) };
                        proof {
                            assert(old(ctx).path().push(0).drop_last() =~= old(ctx).path());
                            assert(owned_ids(st) == owned_ids(b.1));
                            if node_eq(*new, *prev) {
                                lemma_node_eq_compatible(**ni, **pi);
                                assert(false);
                            }
                        }
                        (b.0, st)
                    }
                },
                _ => {
                    proof {
                        assert(false);
                    }
                    unreached()
                },
            }
        },
        _ => {
            proof {
                assert(false);
            }
            unreached()
        },
    }
}

/// Where a message addressed by `path` goes, read from position `i`: each
/// inner node consumes one structural identifier and descends into the
/// matching child; an action leaf reached with the path exhausted emits the
/// payload as an action. Any mismatch between the address and the live tree
/// is stale, never a fault.
pub open spec fn route(
    v: ViewNode,
    s: ViewState,
    path: Seq<u64>,
    i: int,
    payload: u64,
) -> MessageResult
    decreases v,
{
    match (v, s) {
        (ViewNode::Button { .. }, ViewState::ActionLeaf { .. }) => if i == path.len() {
            MessageResult::Action { payload }
        } else {
            MessageResult::Stale
        },
        (
            ViewNode::Pair { first, second },
            ViewState::Branch { first: s1, second: s2 },
        ) => if i < path.len() && path[i] == 0 {
            route(*first, *s1, path, i + 1, payload)
        } else if i < path.len() && path[i] == 1 {
            route(*second, *s2, path, i + 1, payload)
        } else {
            MessageResult::Stale
        },
        (ViewNode::OneOfA { inner }, ViewState::Variant { inner: si }) => if i < path.len()
            && path[i] == 0 {
            route(*inner, *si, path, i + 1, payload)
        } else {
            MessageResult::Stale
        },
        (ViewNode::OneOfB { inner }, ViewState::Variant { inner: si }) => if i < path.len()
            && path[i] == 1 {
            route(*inner, *si, path, i + 1, payload)
        } else {
            MessageResult::Stale
        },
        (ViewNode::Any { inner }, ViewState::Erased { inner: si }) => if i < path.len() && path[i]
            == 0 {
            route(*inner, *si, path, i + 1, payload)
        } else {
            MessageResult::Stale
        },
        _ => MessageResult::Stale,
    }
}

/// Deliver a message addressed by the unconsumed suffix of `path` starting
/// at `idx`. Total: a stale or malformed address yields `Stale` and nothing
/// else happens — the tree, the table and the application are untouched.
pub fn message(
    view: &ViewNode,
    state: &ViewState,
    path: &Vec<u64>,
    idx: usize,
    payload: u64,
) -> (r: MessageResult)
    requires
        idx <= path@.len(),
    ensures
        r == route(*view, *state, path@, idx as int, payload),
    decreases *view,
{
    match (view, state) {
        (ViewNode::Button { .. }, ViewState::ActionLeaf { .. }) => {
            if idx == path.len() {
                MessageResult::Action { payload }
            } else {
                MessageResult::Stale
            }
        },
        (ViewNode::Pair { first, second }, ViewState::Branch { first: s1, second: s2 }) => {
            if idx < path.len() {
                let seg: u64 = path[idx];
                if seg == 0 {
                    message(first, s1, path, idx + 1, payload)
                } else if seg == 1 {
                    message(second, s2, path, idx + 1, payload)
                } else {
                    MessageResult::Stale
                }
            } else {
                MessageResult::Stale
            }
        },
        (ViewNode::OneOfA { inner }, ViewState::Variant { inner: si }) => {
            if idx < path.len() && path[idx] == 0 {
                message(inner, si, path, idx + 1, payload)
            } else {
                MessageResult::Stale
            }
        },
        (ViewNode::OneOfB { inner }, ViewState::Variant { inner: si }) => {
            if idx < path.len() && path[idx] == 1 {
                message(inner, si, path, idx + 1, payload)
            } else {
                MessageResult::Stale
            }
        },
        (ViewNode::Any { inner }, ViewState::Erased { inner: si }) => {
            if idx < path.len() && path[idx] == 0 {
                message(inner, si, path, idx + 1, payload)
            } else {
                MessageResult::Stale
            }
        },
        _ => MessageResult::Stale,
    }
}

/// Law: when a rebuild switches the active shape of a position — the
/// sum-of-variants combinator changes variant, or the erased wrapper's
/// inner shape changes — every routing entry the old subtree owned is gone
/// from the table afterward; the switch leaves nothing stale behind.
///
/// The hypotheses are exactly what `rebuild` ensures on such a step: the
/// domain transition, the bound on the old subtree's identities, and the
/// freshness of the new subtree's identities.
pub proof fn lemma_shape_switch_clears(
    old_routes: Map<u64, Vec<u64>>,
    new_routes: Map<u64, Vec<u64>>,
    old_owned: Set<u64>,
    new_owned: Set<u64>,
    boundary: u64,
)
    requires
        forall|k: u64|
            #[trigger] new_routes.contains_key(k) <==> ((old_routes.contains_key(k)
                && !old_owned.contains(k)) || new_owned.contains(k)),
        forall|k: u64| #[trigger] old_owned.contains(k) ==> k < boundary,
        forall|k: u64| #[trigger] new_owned.contains(k) ==> boundary <= k,
    ensures
        forall|k: u64| #[trigger] old_owned.contains(k) ==> !new_routes.contains_key(k),
{
    assert forall|k: u64| #[trigger] old_owned.contains(k) implies !new_routes.contains_key(
        k,
    ) by {
        if new_routes.contains_key(k) {
            assert(new_owned.contains(k));
        }
    }
}

} // verus!
