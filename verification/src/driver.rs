//! The driver: owns the retained view tree, its view state, the root widget
//! handle and the traversal context between cycles, and routes inbound
//! events back into the tree.
//!
//! One cycle: the host invokes application logic to obtain a fresh view
//! tree and hands it to `run_cycle`, which rebuilds against the retained
//! tree and patches the retained widgets; the host then gives the widget
//! tree to the toolkit. An inbound event (from the toolkit or from a
//! completed async task) carries a widget identity; `handle_event` looks
//! it up in the routing table and routes the message down the tree, or
//! drops it as stale when the owner has since been torn down.

use vstd::prelude::*;
use crate::ctx::ViewCtx;
use crate::pod::Pod;
use crate::view::{
    ViewNode, ViewState, MessageResult, owned_ids, ids_below, routes_below, routes_ok,
    lemma_routes_ok_delivers, node_count, compatible, node_eq, build, rebuild, message, route,
};

verus! {

/// The retained state between cycles.
pub struct Driver {
    current_view: ViewNode,
    view_state: ViewState,
    root: Pod,
    ctx: ViewCtx,
}

impl Driver {
    /// The view tree of the last completed cycle.
    pub closed spec fn current(&self) -> ViewNode {
        self.current_view
    }

    /// The retained view state tree.
    pub closed spec fn state(&self) -> ViewState {
        self.view_state
    }

    /// The retained root widget handle.
    pub closed spec fn element(&self) -> Pod {
        self.root
    }

    /// The action-routing table.
    pub closed spec fn routes(&self) -> Map<u64, Vec<u64>> {
        self.ctx.routes()
    }

    /// The structural-change diagnostic flag.
    pub closed spec fn changed(&self) -> bool {
        self.ctx.changed()
    }

    /// How many widget identities have been allocated so far.
    pub closed spec fn ids_used(&self) -> u64 {
        self.ctx.next_id()
    }

    /// The widget identities the retained tree owns in the routing table.
    pub closed spec fn owned(&self) -> Set<u64> {
        owned_ids(self.view_state)
    }

    /// The driver invariant: the retained widget tree reflects the retained
    /// view tree, every identity the tree owns is registered and was
    /// allocated below the allocator's cursor, and the path stack is empty
    /// between cycles.
    pub closed spec fn wf(&self) -> bool {
        &&& crate::view::wf(self.current_view, self.view_state, self.root)
        &&& ids_below(self.view_state, self.ctx.next_id())
        &&& routes_below(self.ctx.routes(), self.ctx.next_id())
        &&& (forall|k: u64|
            #[trigger] owned_ids(self.view_state).contains(k) ==> self.ctx.routes().contains_key(
                k,
            ))
        &&& routes_ok(self.current_view, self.view_state, Seq::<u64>::empty(), self.ctx.routes())
        &&& self.ctx.path() == Seq::<u64>::empty()
    }

    /// First cycle: build the first view tree against an empty context.
    pub fn new(first_view: ViewNode, runtime: tokio::runtime::Runtime) -> (d: Driver)
        requires
            node_count(first_view) <= u64::MAX,
        ensures
            d.wf(),
            d.current() == first_view,
            !d.changed(),
            forall|k: u64| #[trigger] d.routes().contains_key(k) <==> d.owned().contains(k),
    {
        let mut ctx = ViewCtx::new(runtime);
        let (root, view_state) = build(&first_view, &mut ctx);
        Driver { current_view: first_view, view_state, root, ctx }
    }

    /// One cycle after the first: application logic produced `new_view`;
    /// diff it against the retained tree, patch the retained widgets, and
    /// store the new tree as the previous one for the next cycle.
    ///
    /// The contract carries the cycle-level laws: an entry leaves the
    /// routing table exactly when the subtree that owned it left the tree,
    /// every other entry is untouched, and a view equal to the previous one
    /// changes nothing at all — not the widgets, not the table, not the
    /// structural-change flag.
    pub fn run_cycle(&mut self, new_view: ViewNode)
        requires
            old(self).wf(),
            compatible(new_view, old(self).current()),
            old(self).ids_used() + node_count(new_view) <= u64::MAX,
        ensures
            final(self).wf(),
            final(self).current() == new_view,
            forall|k: u64|
                #[trigger] final(self).routes().contains_key(k)
                    <==> ((old(self).routes().contains_key(k) && !old(self).owned().contains(k))
                    || final(self).owned().contains(k)),
            forall|k: u64|
                old(self).routes().contains_key(k) && !old(self).owned().contains(k)
                    ==> final(self).routes()[k] == old(self).routes()[k],
            forall|k: u64|
                old(self).owned().contains(k) && final(self).owned().contains(k)
                    ==> final(self).routes()[k] == old(self).routes()[k],
            node_eq(new_view, old(self).current())
                ==> (final(self).element() == old(self).element() && final(self).routes() == old(
                self,
            ).routes() && final(self).changed() == old(self).changed()),
    {
        let r = rebuild(&new_view, &self.current_view, &self.view_state, &mut self.ctx, &self.root);
        self.root = r.0;
        self.view_state = r.1;
        self.current_view = new_view;
    }

    /// An inbound event, from the toolkit or from a completed async task:
    /// look the widget identity up and route the message down the retained
    /// tree. An identity whose owner was torn down — or never registered —
    /// is stale: the event is dropped, and nothing is read or written
    /// beyond the lookup, so delivery can never corrupt application state.
    pub fn handle_event(&self, widget_id: u64, payload: u64) -> (r: MessageResult)
        ensures
            !self.routes().contains_key(widget_id) ==> r == MessageResult::Stale,
            self.routes().contains_key(widget_id) ==> r == route(
                self.current(),
                self.state(),
                self.routes()[widget_id]@,
                0,
                payload,
            ),
            self.wf() && self.owned().contains(widget_id) ==> r == (MessageResult::Action {
                payload,
            }),
    {
        proof {
            if self.wf() && owned_ids(self.view_state).contains(widget_id) {
                lemma_routes_ok_delivers(
                    self.current_view,
                    self.view_state,
                    Seq::<u64>::empty(),
                    self.ctx.routes(),
                    widget_id,
                    payload,
                );
            }
        }
        match self.ctx.route_of(widget_id) {
            None => MessageResult::Stale,
            Some(path) => message(&self.current_view, &self.view_state, path, 0, payload),
        }
    }

    /// The retained view tree of the last completed cycle, for a host that
    /// must test shape compatibility before asking for a rebuild.
    pub fn current_root(&self) -> (v: &ViewNode)
        ensures
            *v == self.current(),
    {
        &self.current_view
    }

    /// How many widget identities have been allocated so far, for a host
    /// that must test the identity budget before asking for a rebuild.
    pub fn ids_allocated(&self) -> (n: u64)
        ensures
            n == self.ids_used(),
    {
        self.ctx.next_id_value()
    }

    /// Read access to the retained root widget handle, for the toolkit side.
    pub fn root(&self) -> (r: &Pod)
        ensures
            *r == self.element(),
    {
        &self.root
    }

    /// Read access to the traversal context, for observation and for the
    /// async runtime handle.
    pub fn ctx(&self) -> (c: &ViewCtx)
        ensures
            c.routes() == self.routes(),
            c.changed() == self.changed(),
    {
        &self.ctx
    }
}

} // verus!
