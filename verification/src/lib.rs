//! Reconciliation core of a retained-mode UI framework.
//!
//! Application logic produces an immutable view tree each cycle; this crate
//! diffs it against the previous tree, patches a persistent widget tree in
//! place, and routes inbound events (from the toolkit or from asynchronous
//! tasks) back to the view node that produced the originating widget. The
//! rendering toolkit and the windowing loop are outside the core: they
//! receive the retained widget tree and hand events back by widget identity.

use vstd::prelude::*;

pub mod ctx;
pub mod pod;
pub mod view;
pub mod driver;

use crate::ctx::{ViewCtx, new_runtime};
use crate::driver::Driver;
use crate::view::{ViewNode, node_count};

verus! {

/// An RGBA color, the only window configuration the core carries; the
/// toolkit consumes it when the window is brought up.
#[derive(Clone, Copy, PartialEq, Eq, Structural, Debug)]
pub struct Color {
    pub r: u8,
    pub g: u8,
    pub b: u8,
    pub a: u8,
}

/// A failure before any cycle ran; the process must not proceed to drive the
/// tree.
#[derive(Clone, Copy, PartialEq, Eq, Structural, Debug)]
pub enum StartError {
    /// The async task runtime could not be brought up.
    RuntimeUnavailable,
}

/// The boot-time configuration of an application: its initial state, the
/// async runtime that will carry its background work, and the window
/// background color.
pub struct Xilem<State> {
    state: State,
    runtime: tokio::runtime::Runtime,
    background_color: Color,
}

impl<State> Xilem<State> {
    /// The initial application state.
    pub closed spec fn app_state(&self) -> State {
        self.state
    }

    /// The configured window background color.
    pub closed spec fn color(&self) -> Color {
        self.background_color
    }

    /// Gather the initial state and bring up the async runtime. Fails only
    /// when the runtime cannot be created, surfaced as a typed error.
    pub fn new(state: State) -> (r: Result<Xilem<State>, StartError>)
        ensures
            r matches Ok(x) ==> x.app_state() == state && x.color() == (Color {
                r: 0,
                g: 0,
                b: 0,
                a: 255,
            }),
    {
        match new_runtime() {
            Some(runtime) => Ok(Xilem {
                state,
                runtime,
                background_color: Color { r: 0, g: 0, b: 0, a: 255 },
            }),
            None => Err(StartError::RuntimeUnavailable),
        }
    }

    /// Sets main window background color.
    pub fn background_color(self, color: Color) -> (r: Self)
        ensures
            r.color() == color,
            r.app_state() == self.app_state(),
    {
        let Xilem { state, runtime, background_color: _ } = self;
        Xilem { state, runtime, background_color: color }
    }

    /// End of boot: build the first view tree and hand back the driver that
    /// owns the retained tree from now on, together with the application
    /// state and the color the host needs.
    pub fn into_driver(self, first_view: ViewNode) -> (r: (Driver, State, Color))
        requires
            node_count(first_view) <= u64::MAX,
        ensures
            r.0.wf(),
            r.0.current() == first_view,
            !r.0.changed(),
            forall|k: u64|
                #[trigger] r.0.routes().contains_key(k) <==> r.0.owned().contains(k),
            r.1 == self.app_state(),
            r.2 == self.color(),
    {
        let Xilem { state, runtime, background_color } = self;
        let driver = Driver::new(first_view, runtime);
        (driver, state, background_color)
    }
}

} // verus!
