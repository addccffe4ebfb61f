//! The per-traversal mutable environment: the view-path tracker, the
//! action-routing table, the structural-change flag, the widget identity
//! allocator, and the handle to the async task runtime.

use vstd::prelude::*;
use std::collections::HashMap;
use crate::pod::Pod;

verus! {

broadcast use vstd::std_specs::hash::group_hash_axioms;

#[verifier::external_type_specification]
#[verifier::external_body]
pub struct ExRuntime(tokio::runtime::Runtime);

/// Relies on `tokio::runtime::Runtime::new`: builds a multi-thread task
/// runtime, failing only when the operating system denies the resources.
/// Nothing is promised of the outcome; the caller surfaces a failure as a
/// typed error.
#[verifier::external_body]
pub(crate) fn new_runtime() -> Option<tokio::runtime::Runtime> {
    tokio::runtime::Runtime::new().ok()
}

/// Per-cycle mutable environment threaded through every build, rebuild and
/// teardown traversal. One instance lives for the whole process; its fields
/// are mutated in place, never reconstructed per cycle.
pub struct ViewCtx {
    /// identity of an action-capable widget -> view path active at its build.
    widget_map: HashMap<u64, Vec<u64>>,
    /// The current position in the view tree, root to cursor.
    id_path: Vec<u64>,
    /// Development-time flag: set when a rebuild changed the tree structure.
    view_tree_changed: bool,
    /// The next toolkit identity to hand to a freshly built widget.
    next_widget_id: u64,
    /// The runtime that carries work a view node submits asynchronously.
    runtime: tokio::runtime::Runtime,
}

impl ViewCtx {
    /// The routing table: widget identity to the path of the view that owns it.
    pub closed spec fn routes(&self) -> Map<u64, Vec<u64>> {
        self.widget_map@
    }

    /// The current view path.
    pub closed spec fn path(&self) -> Seq<u64> {
        self.id_path@
    }

    /// The structural-change diagnostic flag.
    pub closed spec fn changed(&self) -> bool {
        self.view_tree_changed
    }

    /// The next unassigned widget identity; all identities handed out so far
    /// are below it.
    pub closed spec fn next_id(&self) -> u64 {
        self.next_widget_id
    }

    pub fn new(runtime: tokio::runtime::Runtime) -> (c: ViewCtx)
        ensures
            c.routes() == Map::<u64, Vec<u64>>::empty(),
            c.path() == Seq::<u64>::empty(),
            !c.changed(),
            c.next_id() == 0,
    {
        ViewCtx {
            widget_map: HashMap::new(),
            id_path: Vec::new(),
            view_tree_changed: false,
            next_widget_id: 0,
            runtime,
        }
    }

    /// Descend into the child with structural identifier `id`.
    pub fn push_id(&mut self, id: u64)
        ensures
            final(self).path() == old(self).path().push(id),
            final(self).routes() == old(self).routes(),
            final(self).changed() == old(self).changed(),
            final(self).next_id() == old(self).next_id(),
    {
        self.id_path.push(id);
    }

    /// Ascend back to the parent position.
    pub fn pop_id(&mut self)
        requires
            old(self).path().len() > 0,
        ensures
            final(self).path() == old(self).path().drop_last(),
            final(self).routes() == old(self).routes(),
            final(self).changed() == old(self).changed(),
            final(self).next_id() == old(self).next_id(),
    {
        self.id_path.pop();
    }

    /// The current path, root to cursor.
    pub fn view_path(&self) -> (p: &Vec<u64>)
        ensures
            p@ == self.path(),
    {
        &self.id_path
    }

    /// Record that a rebuild changed the structure of the tree. A
    /// development-time consistency diagnostic; nothing in the core reads it
    /// back except tests.
    pub fn mark_changed(&mut self)
        ensures
            final(self).changed(),
            final(self).routes() == old(self).routes(),
            final(self).path() == old(self).path(),
            final(self).next_id() == old(self).next_id(),
    {
        self.view_tree_changed = true;
    }

    /// Hand out a fresh toolkit widget identity.
    pub fn alloc_widget_id(&mut self) -> (id: u64)
        requires
            old(self).next_id() < u64::MAX,
        ensures
            id == old(self).next_id(),
            final(self).next_id() == old(self).next_id() + 1,
            final(self).routes() == old(self).routes(),
            final(self).path() == old(self).path(),
            final(self).changed() == old(self).changed(),
    {
        let id: u64 = self.next_widget_id;
        self.next_widget_id = self.next_widget_id + 1;
        id
    }

    /// Register a freshly built action-capable widget: its identity is mapped
    /// to a deep copy of the current path, so a later event carrying that
    /// identity finds the view node that built it.
    pub fn with_action_widget(&mut self, pod: Pod) -> (r: Pod)
        ensures
            r == pod,
            final(self).routes().contains_key(pod.id),
            final(self).routes()[pod.id]@ == old(self).path(),
            forall|k: u64|
                #[trigger] final(self).routes().contains_key(k) <==> (old(self).routes().contains_key(k)
                    || k == pod.id),
            forall|k: u64|
                old(self).routes().contains_key(k) && k != pod.id ==> final(self).routes()[k]
                    == old(self).routes()[k],
            final(self).path() == old(self).path(),
            final(self).changed() == old(self).changed(),
            final(self).next_id() == old(self).next_id(),
    {
        let path = self.id_path.clone();
        self.widget_map.insert(pod.id, path);
        pod
    }

    /// As `with_action_widget`, paired with the empty view state a leaf that
    /// retains nothing keeps across cycles.
    pub fn with_leaf_action_widget(&mut self, pod: Pod) -> (r: (Pod, ()))
        ensures
            r.0 == pod,
            final(self).routes().contains_key(pod.id),
            final(self).routes()[pod.id]@ == old(self).path(),
            forall|k: u64|
                #[trigger] final(self).routes().contains_key(k) <==> (old(self).routes().contains_key(k)
                    || k == pod.id),
            forall|k: u64|
                old(self).routes().contains_key(k) && k != pod.id ==> final(self).routes()[k]
                    == old(self).routes()[k],
            final(self).path() == old(self).path(),
            final(self).changed() == old(self).changed(),
            final(self).next_id() == old(self).next_id(),
    {
        (self.with_action_widget(pod), ())
    }

    /// Remove the routing entry of a torn-down action-capable leaf.
    pub fn teardown_leaf(&mut self, pod: &Pod)
        ensures
            final(self).routes() == old(self).routes().remove(pod.id),
            final(self).path() == old(self).path(),
            final(self).changed() == old(self).changed(),
            final(self).next_id() == old(self).next_id(),
    {
        self.widget_map.remove(&pod.id);
    }

    /// Does the routing table hold an entry for this widget identity?
    pub fn has_route(&self, id: u64) -> (b: bool)
        ensures
            b == self.routes().contains_key(id),
    {
        self.widget_map.contains_key(&id)
    }

    /// The registered path of a widget identity, if any.
    pub fn route_of(&self, id: u64) -> (r: Option<&Vec<u64>>)
        ensures
            match r {
                Some(p) => self.routes().contains_key(id) && *p == self.routes()[id],
                None => !self.routes().contains_key(id),
            },
    {
        self.widget_map.get(&id)
    }

    /// How many action-capable widgets are registered.
    pub fn route_count(&self) -> (n: usize)
        ensures
            n == self.routes().len(),
    {
        self.widget_map.len()
    }

    /// The next unassigned widget identity.
    pub fn next_id_value(&self) -> (n: u64)
        ensures
            n == self.next_id(),
    {
        self.next_widget_id
    }

    /// Was the structural-change flag set since the context was created?
    pub fn tree_changed(&self) -> (b: bool)
        ensures
            b == self.changed(),
    {
        self.view_tree_changed
    }

    /// The async runtime a view node submits long-running work to.
    pub fn runtime(&self) -> &tokio::runtime::Runtime {
        &self.runtime
    }
}

} // verus!
