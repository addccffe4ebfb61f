//! End-to-end cycles over the reconciliation core: building, patching,
//! switching variants, and routing events back into the tree.

use xilem::driver::Driver;
use xilem::pod::Widget;
use xilem::view::{is_compatible, MessageResult, ViewNode};
use xilem::Xilem;

fn label(text: &str) -> ViewNode {
    ViewNode::Label { text: String::from(text) }
}

fn button(text: &str) -> ViewNode {
    ViewNode::Button { label: String::from(text) }
}

fn pair(first: ViewNode, second: ViewNode) -> ViewNode {
    ViewNode::Pair { first: Box::new(first), second: Box::new(second) }
}

fn counter_view(count: u64) -> ViewNode {
    pair(label(&format!("Count: {count}")), button("+"))
}

fn new_driver(first_view: ViewNode) -> Driver {
    let (driver, (), _color) = Xilem::new(()).unwrap().into_driver(first_view);
    driver
}

/// The identity of the button in a `pair(label, button)` root.
fn pair_button_id(driver: &Driver) -> u64 {
    match &driver.root().widget {
        Widget::Pair { second, .. } => second.id,
        other => panic!("root is not a pair: {:?}", pod_kind(other)),
    }
}

fn pod_kind(w: &Widget) -> &'static str {
    match w {
        Widget::Label { .. } => "label",
        Widget::Button { .. } => "button",
        Widget::Pair { .. } => "pair",
        Widget::Slot { .. } => "slot",
    }
}

#[test]
fn first_cycle_builds_label_and_registers_button() {
    let driver = new_driver(counter_view(0));
    match &driver.root().widget {
        Widget::Pair { first, second } => {
            match &first.widget {
                Widget::Label { text } => assert_eq!(text, "Count: 0"),
                _ => panic!("first child is not a label"),
            }
            match &second.widget {
                Widget::Button { label } => assert_eq!(label, "+"),
                _ => panic!("second child is not a button"),
            }
            assert!(driver.ctx().has_route(second.id));
        }
        _ => panic!("root is not a pair"),
    }
    assert_eq!(driver.ctx().route_count(), 1);
    assert!(!driver.ctx().tree_changed());
    assert!(driver.ctx().view_path().is_empty());
}

#[test]
fn increment_patches_label_and_keeps_button() {
    let mut count: u64 = 0;
    let mut driver = new_driver(counter_view(count));
    let button_id = pair_button_id(&driver);

    let result = driver.handle_event(button_id, 1);
    assert!(matches!(result, MessageResult::Action { payload: 1 }));
    count += 1;

    let next = counter_view(count);
    assert!(is_compatible(&next, &counter_view(0)));
    driver.run_cycle(next);

    match &driver.root().widget {
        Widget::Pair { first, second } => {
            match &first.widget {
                Widget::Label { text } => assert_eq!(text, "Count: 1"),
                _ => panic!("first child is not a label"),
            }
            assert_eq!(second.id, button_id, "button was recreated");
        }
        _ => panic!("root is not a pair"),
    }
    assert!(driver.ctx().has_route(button_id));
    assert_eq!(driver.ctx().route_count(), 1);
    assert!(driver.ctx().view_path().is_empty());
}

#[test]
fn rebuild_with_equal_view_changes_nothing() {
    let mut driver = new_driver(counter_view(3));
    let button_id = pair_button_id(&driver);
    driver.run_cycle(counter_view(3));
    assert!(!driver.ctx().tree_changed());
    assert_eq!(driver.ctx().route_count(), 1);
    assert_eq!(pair_button_id(&driver), button_id);
    match &driver.root().widget {
        Widget::Pair { first, .. } => match &first.widget {
            Widget::Label { text } => assert_eq!(text, "Count: 3"),
            _ => panic!("first child is not a label"),
        },
        _ => panic!("root is not a pair"),
    }
}

fn conditional_view(flag: bool) -> ViewNode {
    let slot = if flag {
        ViewNode::OneOfA { inner: Box::new(button("on")) }
    } else {
        ViewNode::OneOfB { inner: Box::new(label("off")) }
    };
    pair(label("header"), slot)
}

#[test]
fn toggling_conditional_slot_swaps_element_and_prunes_routes() {
    let mut driver = new_driver(conditional_view(true));
    let button_id = match &driver.root().widget {
        Widget::Pair { second, .. } => match &second.widget {
            Widget::Slot { inner } => {
                assert_eq!(pod_kind(&inner.widget), "button");
                inner.id
            }
            _ => panic!("slot missing"),
        },
        _ => panic!("root is not a pair"),
    };
    assert!(driver.ctx().has_route(button_id));
    assert_eq!(driver.ctx().route_count(), 1);

    driver.run_cycle(conditional_view(false));

    match &driver.root().widget {
        Widget::Pair { second, .. } => match &second.widget {
            Widget::Slot { inner } => match &inner.widget {
                Widget::Label { text } => assert_eq!(text, "off"),
                _ => panic!("slot was not rebuilt as a label"),
            },
            _ => panic!("slot missing after toggle"),
        },
        _ => panic!("root is not a pair"),
    }
    assert!(!driver.ctx().has_route(button_id), "stale route survived the toggle");
    assert_eq!(driver.ctx().route_count(), 0);
    assert!(driver.ctx().tree_changed());
    assert!(driver.ctx().view_path().is_empty());
}

#[test]
fn variant_switch_with_two_buttons_leaves_no_stale_entry() {
    let a = ViewNode::OneOfA { inner: Box::new(button("a")) };
    let b = ViewNode::OneOfB { inner: Box::new(button("b")) };
    let mut driver = new_driver(a);
    let old_id = match &driver.root().widget {
        Widget::Slot { inner } => inner.id,
        _ => panic!("root is not a slot"),
    };
    driver.run_cycle(b);
    let new_id = match &driver.root().widget {
        Widget::Slot { inner } => inner.id,
        _ => panic!("root is not a slot"),
    };
    assert_ne!(old_id, new_id, "the new variant reused the old widget");
    assert!(!driver.ctx().has_route(old_id));
    assert!(driver.ctx().has_route(new_id));
    assert_eq!(driver.ctx().route_count(), 1);
    assert!(matches!(driver.handle_event(old_id, 5), MessageResult::Stale));
    assert!(matches!(driver.handle_event(new_id, 5), MessageResult::Action { payload: 5 }));
}

#[test]
fn stale_event_after_teardown_is_dropped() {
    let mut driver = new_driver(conditional_view(true));
    let button_id = pair_button_id_in_slot(&driver);
    driver.run_cycle(conditional_view(false));
    let result = driver.handle_event(button_id, 42);
    assert!(matches!(result, MessageResult::Stale));
}

fn pair_button_id_in_slot(driver: &Driver) -> u64 {
    match &driver.root().widget {
        Widget::Pair { second, .. } => match &second.widget {
            Widget::Slot { inner } => inner.id,
            _ => panic!("slot missing"),
        },
        _ => panic!("root is not a pair"),
    }
}

#[test]
fn unknown_identity_is_stale() {
    let driver = new_driver(counter_view(0));
    assert!(matches!(driver.handle_event(999, 1), MessageResult::Stale));
}

#[test]
fn nested_button_routes_through_both_levels() {
    let view = pair(label("top"), pair(label("mid"), button("go")));
    let driver = new_driver(view);
    let button_id = match &driver.root().widget {
        Widget::Pair { second, .. } => match &second.widget {
            Widget::Pair { second: inner_second, .. } => inner_second.id,
            _ => panic!("inner pair missing"),
        },
        _ => panic!("root is not a pair"),
    };
    let path = driver.ctx().route_of(button_id).expect("button not registered");
    assert_eq!(path, &vec![1u64, 1u64]);
    assert!(matches!(driver.handle_event(button_id, 8), MessageResult::Action { payload: 8 }));
}

#[test]
fn erased_wrapper_switches_shape_freshly() {
    let first = ViewNode::Any { inner: Box::new(label("plain")) };
    let second = ViewNode::Any { inner: Box::new(button("press")) };
    assert!(is_compatible(&second, &first));
    let mut driver = new_driver(first);
    assert_eq!(driver.ctx().route_count(), 0);
    driver.run_cycle(second);
    assert!(driver.ctx().tree_changed());
    assert_eq!(driver.ctx().route_count(), 1);
    let button_id = driver.root().id;
    assert!(driver.ctx().has_route(button_id));
    assert!(matches!(driver.handle_event(button_id, 3), MessageResult::Action { payload: 3 }));
}

#[test]
fn async_completion_after_teardown_is_a_noop() {
    let mut driver = new_driver(conditional_view(true));
    let button_id = pair_button_id_in_slot(&driver);

    let (done_tx, done_rx) = std::sync::mpsc::channel();
    let (go_tx, go_rx) = std::sync::mpsc::channel::<()>();
    {
        let runtime = driver.ctx().runtime();
        runtime.spawn(async move {
            go_rx.recv().unwrap();
            done_tx.send((button_id, 9u64)).unwrap();
        });
    }

    // The originating node is torn down before the task completes.
    driver.run_cycle(conditional_view(false));
    go_tx.send(()).unwrap();
    let (id, payload) = done_rx.recv().unwrap();

    let result = driver.handle_event(id, payload);
    assert!(matches!(result, MessageResult::Stale));
    assert_eq!(driver.ctx().route_count(), 0);
}
