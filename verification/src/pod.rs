//! The element layer: `Pod` owns exactly one persistent widget instance and
//! is the unit exchanged between the view layer and the rendering toolkit.
//!
//! The toolkit itself is outside this core: a widget here is the retained
//! description the toolkit renders from, and a `Pod`'s identity stands for
//! the toolkit-assigned identity of the underlying instance. `Widget` is the
//! uniform, dynamically-tagged form every concrete widget kind lives in; a
//! caller that knows the concrete kind at a position reads or patches it
//! through a kind-checked accessor, the downcast half of the upcast/downcast
//! bridge. A kind mismatch there is a programming error, excluded by
//! contract rather than silently misrouted.

use vstd::prelude::*;
use crate::ctx::ViewCtx;

verus! {

/// The uniform widget form: one tag per concrete widget kind.
#[verifier::ext_equal]
pub enum Widget {
    /// A static text leaf.
    Label { text: String },
    /// An action-emitting leaf.
    Button { label: String },
    /// A container of exactly two children.
    Pair { first: Box<Pod>, second: Box<Pod> },
    /// A container of one swappable child, kept by the sum-of-variants
    /// combinator so the position's outer identity survives a variant switch.
    Slot { inner: Box<Pod> },
}

/// An owned handle around one persistent widget instance.
#[verifier::ext_equal]
pub struct Pod {
    /// The toolkit-assigned identity, stable for the widget's lifetime.
    pub id: u64,
    /// The retained widget content.
    pub widget: Widget,
}

impl Pod {
    /// Wrap a fresh widget, drawing its identity from the context's
    /// allocator, as the toolkit does when a widget is created.
    pub fn new(widget: Widget, ctx: &mut ViewCtx) -> (p: Pod)
        requires
            old(ctx).next_id() < u64::MAX,
        ensures
            p.id == old(ctx).next_id(),
            p.widget == widget,
            final(ctx).next_id() == old(ctx).next_id() + 1,
            final(ctx).routes() == old(ctx).routes(),
            final(ctx).path() == old(ctx).path(),
            final(ctx).changed() == old(ctx).changed(),
    {
        let id: u64 = ctx.alloc_widget_id();
        Pod { id, widget }
    }

    /// Downcast for reading: the text of a label widget. Failure-free when
    /// the dynamic kind matches, as the view layer guarantees by
    /// construction; any other kind is excluded by contract.
    pub fn label_text(&self) -> (t: &String)
        requires
            self.widget is Label,
        ensures
            self.widget == (Widget::Label { text: *t }),
    {
        match &self.widget {
            Widget::Label { text } => text,
            _ => unreached(),
        }
    }

    /// Downcast for reading: the label of a button widget.
    pub fn button_label(&self) -> (t: &String)
        requires
            self.widget is Button,
        ensures
            self.widget == (Widget::Button { label: *t }),
    {
        match &self.widget {
            Widget::Button { label } => label,
            _ => unreached(),
        }
    }

    /// Downcast for mutation: patch the text of a label widget in place,
    /// leaving its identity untouched.
    pub fn set_label_text(&mut self, text: String)
        requires
            old(self).widget is Label,
        ensures
            final(self).id == old(self).id,
            final(self).widget == (Widget::Label { text }),
    {
        self.widget = Widget::Label { text };
    }
}

} // verus!
