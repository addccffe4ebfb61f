//! Boot-time configuration and the helpers a host calls before a cycle.

use xilem::view::{count_nodes, is_compatible, ViewNode};
use xilem::{Color, Xilem};

fn label(text: &str) -> ViewNode {
    ViewNode::Label { text: String::from(text) }
}

fn button(text: &str) -> ViewNode {
    ViewNode::Button { label: String::from(text) }
}

fn pair(first: ViewNode, second: ViewNode) -> ViewNode {
    ViewNode::Pair { first: Box::new(first), second: Box::new(second) }
}

#[test]
fn background_color_defaults_to_black_and_is_configurable() {
    let (_driver, state, color) = Xilem::new(7u32).unwrap().into_driver(label("x"));
    assert_eq!(state, 7);
    assert_eq!(color, Color { r: 0, g: 0, b: 0, a: 255 });

    let teal = Color { r: 0, g: 128, b: 128, a: 255 };
    let (_driver, _state, color) = Xilem::new(0u32)
        .unwrap()
        .background_color(teal)
        .into_driver(label("x"));
    assert_eq!(color, teal);
}

#[test]
fn count_nodes_counts_allocated_identities() {
    assert_eq!(count_nodes(&label("a")), Some(1));
    assert_eq!(count_nodes(&button("b")), Some(1));
    assert_eq!(count_nodes(&pair(label("a"), button("b"))), Some(3));
    let one_of = ViewNode::OneOfA { inner: Box::new(label("a")) };
    assert_eq!(count_nodes(&one_of), Some(2));
    let erased = ViewNode::Any { inner: Box::new(pair(label("a"), label("b"))) };
    assert_eq!(count_nodes(&erased), Some(3));
}

#[test]
fn compatibility_separates_static_shapes() {
    assert!(is_compatible(&label("a"), &label("b")));
    assert!(!is_compatible(&label("a"), &button("b")));
    assert!(!is_compatible(&pair(label("a"), button("b")), &pair(button("a"), button("b"))));
    let a = ViewNode::OneOfA { inner: Box::new(label("a")) };
    let b = ViewNode::OneOfB { inner: Box::new(button("b")) };
    assert!(is_compatible(&a, &b));
    assert!(is_compatible(&b, &a));
    let any_label = ViewNode::Any { inner: Box::new(label("a")) };
    let any_button = ViewNode::Any { inner: Box::new(button("b")) };
    assert!(is_compatible(&any_label, &any_button));
    assert!(!is_compatible(&any_label, &label("a")));
}
