//! The traversal context and the element bridge, exercised directly.

use xilem::ctx::ViewCtx;
use xilem::pod::{Pod, Widget};
use xilem::view::ViewNode;

fn new_ctx() -> ViewCtx {
    ViewCtx::new(tokio::runtime::Runtime::new().expect("no runtime"))
}

#[test]
fn path_tracking_follows_strict_stack_discipline() {
    let mut ctx = new_ctx();
    assert!(ctx.view_path().is_empty());
    ctx.push_id(4);
    ctx.push_id(7);
    assert_eq!(ctx.view_path(), &vec![4u64, 7u64]);
    ctx.pop_id();
    assert_eq!(ctx.view_path(), &vec![4u64]);
    ctx.pop_id();
    assert!(ctx.view_path().is_empty());
}

#[test]
fn action_widget_registration_snapshots_the_current_path() {
    let mut ctx = new_ctx();
    ctx.push_id(2);
    let pod = Pod::new(Widget::Button { label: String::from("go") }, &mut ctx);
    let (pod, ()) = ctx.with_leaf_action_widget(pod);
    ctx.pop_id();

    assert!(ctx.has_route(pod.id));
    assert_eq!(ctx.route_of(pod.id), Some(&vec![2u64]));
    assert_eq!(ctx.route_count(), 1);

    ctx.teardown_leaf(&pod);
    assert!(!ctx.has_route(pod.id));
    assert_eq!(ctx.route_count(), 0);
}

#[test]
fn widget_identities_are_never_reused() {
    let mut ctx = new_ctx();
    let a = Pod::new(Widget::Label { text: String::from("a") }, &mut ctx);
    let b = Pod::new(Widget::Label { text: String::from("b") }, &mut ctx);
    assert_ne!(a.id, b.id);
}

#[test]
fn mark_changed_latches_the_flag() {
    let mut ctx = new_ctx();
    assert!(!ctx.tree_changed());
    ctx.mark_changed();
    assert!(ctx.tree_changed());
}

#[test]
fn downcast_accessors_reach_the_concrete_widget() {
    let mut ctx = new_ctx();
    let mut pod = Pod::new(Widget::Label { text: String::from("before") }, &mut ctx);
    assert_eq!(pod.label_text(), "before");
    let id = pod.id;
    pod.set_label_text(String::from("after"));
    assert_eq!(pod.label_text(), "after");
    assert_eq!(pod.id, id, "patching the text must not change the identity");

    let button = Pod::new(Widget::Button { label: String::from("press") }, &mut ctx);
    assert_eq!(button.button_label(), "press");
}

#[test]
fn boxed_wraps_a_node_in_the_erased_form() {
    let node = ViewNode::Label { text: String::from("x") };
    match node.boxed() {
        ViewNode::Any { inner } => match *inner {
            ViewNode::Label { text } => assert_eq!(text, "x"),
            _ => panic!("inner node changed"),
        },
        _ => panic!("boxed did not erase"),
    }
}
