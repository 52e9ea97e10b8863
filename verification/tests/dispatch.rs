use input_events::events::{EventKind, FileDropEvent, InputEvent, KeyDownEvent, MouseDownEvent};
use input_events::focus::{FocusEvent, FocusHandle, NodeId};
use input_events::geometry::{point, Pixels, Point};
use input_events::keymap::BindingSpec;
use input_events::keystroke::Keystroke;
use input_events::pass::{
    ClaimPolicy, Delivery, DispatchPass, Invocation, ListenerId, ListenerOutcome, Phase,
};
use input_events::paths::ExternalPaths;
use input_events::router::{Router, Trigger};
use std::path::PathBuf;

fn at(x: f32, y: f32) -> Point<Pixels> {
    point(Pixels::from_bits(x.to_bits()), Pixels::from_bits(y.to_bits()))
}

fn label(text: &str) -> Option<String> {
    Some(text.to_string())
}

fn spec(keystroke: &str, action: &str, context: Option<&str>) -> BindingSpec {
    BindingSpec {
        keystroke: keystroke.to_string(),
        action: action.to_string(),
        context: context.map(|text| text.to_string()),
    }
}

fn key_down(text: &str) -> InputEvent {
    InputEvent::KeyDown(KeyDownEvent { keystroke: Keystroke::parse(text).unwrap(), is_held: false })
}

fn run(pass: &mut DispatchPass, answer: &dyn Fn(Delivery) -> ListenerOutcome) -> Vec<Delivery> {
    let mut made = Vec::new();
    while let Some(delivery) = pass.next() {
        made.push(delivery);
        pass.report(answer(delivery));
    }
    assert_eq!(pass.next(), None);
    made
}

fn run_all(pass: &mut DispatchPass) -> Vec<Delivery> {
    run(pass, &|_| ListenerOutcome::Continue)
}

fn event_call(listener: ListenerId, node: NodeId) -> Delivery {
    Delivery { invocation: Invocation { listener, node }, phase: Phase::Event }
}

fn action_call(listener: ListenerId, node: NodeId) -> Delivery {
    Delivery { invocation: Invocation { listener, node }, phase: Phase::Action }
}

struct TestView {
    router: Router,
    parent: NodeId,
    nested: NodeId,
    key_down: ListenerId,
    action: ListenerId,
    second_action: ListenerId,
}

fn test_view(policy: ClaimPolicy) -> TestView {
    let mut router = Router::new(policy);
    let root = router.add_node(None, None).unwrap();
    let parent = router.add_node(Some(root), label("parent")).unwrap();
    let key_down = router.on_event(parent, EventKind::KeyDown).unwrap();
    let action = router.on_action(parent, "TestAction".to_string()).unwrap();
    let second_action = router.on_action(parent, "SecondTestAction".to_string()).unwrap();
    let nested = router.add_node(Some(parent), label("nested")).unwrap();
    TestView { router, parent, nested, key_down, action, second_action }
}

#[test]
fn test_on_events() {
    let mut view = test_view(ClaimPolicy::Independent);
    let refused = view.router.bind_keys(&vec![spec("ctrl-g", "TestAction", Some("parent"))]);
    assert!(refused.is_empty());
    view.router.focus(FocusHandle { node: view.nested }).unwrap();

    let mut pass = view.router.dispatch(&key_down("ctrl-g"), None);
    assert_eq!(pass.action(), &Some("TestAction".to_string()));
    let made = run_all(&mut pass);

    let saw_key_down = made.contains(&event_call(view.key_down, view.parent));
    let saw_action = made.contains(&action_call(view.action, view.parent));
    assert!(saw_key_down || saw_action);
    assert!(saw_key_down);
    assert!(saw_action);

    assert_eq!(
        made,
        vec![event_call(view.key_down, view.parent), action_call(view.action, view.parent)]
    );
    assert!(made.iter().all(|delivery| delivery.invocation.listener != view.second_action));
    assert!(pass.failures().is_empty());
}

#[test]
fn key_without_binding_reaches_only_the_key_listener() {
    let mut view = test_view(ClaimPolicy::Independent);
    view.router.focus(FocusHandle { node: view.nested }).unwrap();
    let mut pass = view.router.dispatch(&key_down("ctrl-g"), None);
    assert_eq!(pass.action(), &None);
    assert_eq!(run_all(&mut pass), vec![event_call(view.key_down, view.parent)]);

    view.router.bind_keys(&vec![
        spec("ctrl-h", "TestAction", Some("parent")),
        spec("ctrl-g", "TestAction", Some("elsewhere")),
    ]);
    let mut pass = view.router.dispatch(&key_down("ctrl-g"), None);
    assert_eq!(pass.action(), &None);
    assert_eq!(run_all(&mut pass), vec![event_call(view.key_down, view.parent)]);
}

#[test]
fn key_without_focus_is_dropped() {
    let mut view = test_view(ClaimPolicy::Independent);
    view.router.bind_keys(&vec![spec("ctrl-g", "TestAction", None)]);
    let mut pass = view.router.dispatch(&key_down("ctrl-g"), Some(view.nested));
    assert_eq!(pass.action(), &None);
    assert_eq!(pass.next(), None);
    assert!(run_all(&mut pass).is_empty());
}

#[test]
fn file_drop_sequence_arrives_in_order() {
    let mut router = Router::new(ClaimPolicy::Independent);
    let root = router.add_node(None, None).unwrap();
    let zone = router.add_node(Some(root), None).unwrap();
    let listener = router.on_event(zone, EventKind::FileDrop).unwrap();
    let sequence = vec![
        InputEvent::FileDrop(FileDropEvent::Entered {
            position: at(1.0, 1.0),
            files: ExternalPaths::new(vec![PathBuf::from("/tmp/dropped")]),
        }),
        InputEvent::FileDrop(FileDropEvent::Pending { position: at(2.0, 3.5) }),
        InputEvent::FileDrop(FileDropEvent::Pending { position: at(-4.0, 0.0) }),
        InputEvent::FileDrop(FileDropEvent::Submit { position: at(5.0, 6.0) }),
    ];
    let mut received: Vec<Option<Point<Pixels>>> = Vec::new();
    let mut steps: Vec<&str> = Vec::new();
    for event in &sequence {
        let mut pass = router.dispatch(event, Some(zone));
        let made = run_all(&mut pass);
        assert_eq!(made, vec![event_call(listener, zone)]);
        let handle = event.mouse_event().unwrap();
        let payload = handle.downcast_ref::<FileDropEvent>().unwrap();
        steps.push(match payload {
            FileDropEvent::Entered { .. } => "entered",
            FileDropEvent::Pending { .. } => "pending",
            FileDropEvent::Submit { .. } => "submit",
            FileDropEvent::Exited => "exited",
        });
        received.push(event.position());
    }
    assert_eq!(steps, vec!["entered", "pending", "pending", "submit"]);
    assert_eq!(
        received,
        vec![Some(at(1.0, 1.0)), Some(at(2.0, 3.5)), Some(at(-4.0, 0.0)), Some(at(5.0, 6.0))]
    );
    match &sequence[0] {
        InputEvent::FileDrop(FileDropEvent::Entered { files, .. }) => {
            assert_eq!(files.paths(), &[PathBuf::from("/tmp/dropped")]);
        }
        other => panic!("unexpected event {:?}", other),
    }
}

#[test]
fn dispatching_twice_gives_the_same_calls() {
    let mut view = test_view(ClaimPolicy::Independent);
    view.router.bind_keys(&vec![spec("ctrl-g", "TestAction", Some("parent"))]);
    view.router.focus(FocusHandle { node: view.nested }).unwrap();
    let event = key_down("ctrl-g");
    let first = run_all(&mut view.router.dispatch(&event, None));
    let second = run_all(&mut view.router.dispatch(&event, None));
    assert_eq!(first.len(), 2);
    assert_eq!(first, second);
    let copy = event.clone();
    assert_eq!(run_all(&mut view.router.dispatch(&copy, None)), first);

    let click = InputEvent::MouseDown(MouseDownEvent::default());
    let mouse = view.router.on_event(view.nested, EventKind::MouseDown).unwrap();
    let first = run_all(&mut view.router.dispatch(&click, Some(view.nested)));
    let second = run_all(&mut view.router.dispatch(&click, Some(view.nested)));
    assert_eq!(first, vec![event_call(mouse, view.nested)]);
    assert_eq!(first, second);
}

#[test]
fn events_bubble_from_the_innermost_node() {
    let mut router = Router::new(ClaimPolicy::Independent);
    let root = router.add_node(None, None).unwrap();
    let on_root = router.on_event(root, EventKind::MouseDown).unwrap();
    let middle = router.add_node(Some(root), None).unwrap();
    let leaf = router.add_node(Some(middle), None).unwrap();
    let sibling = router.add_node(Some(root), None).unwrap();
    let on_leaf_first = router.on_event(leaf, EventKind::MouseDown).unwrap();
    let on_middle = router.on_event(middle, EventKind::MouseDown).unwrap();
    let on_leaf_second = router.on_event(leaf, EventKind::MouseDown).unwrap();
    let _on_sibling = router.on_event(sibling, EventKind::MouseDown).unwrap();
    let _other_kind = router.on_event(leaf, EventKind::MouseUp).unwrap();
    assert_eq!(router.ancestors(leaf), vec![leaf, middle, root]);
    assert_eq!(router.ancestors(sibling), vec![sibling, root]);
    assert_eq!(router.ancestors(root), vec![root]);
    assert_eq!(router.ancestors(NodeId(99)), Vec::<NodeId>::new());

    let click = InputEvent::MouseDown(MouseDownEvent::default());
    let made = run_all(&mut router.dispatch(&click, Some(leaf)));
    assert_eq!(
        made,
        vec![
            event_call(on_leaf_first, leaf),
            event_call(on_leaf_second, leaf),
            event_call(on_middle, middle),
            event_call(on_root, root),
        ]
    );
    let made = run_all(&mut router.dispatch(&click, Some(middle)));
    assert_eq!(made, vec![event_call(on_middle, middle), event_call(on_root, root)]);
    assert!(run_all(&mut router.dispatch(&click, None)).is_empty());
    assert!(run_all(&mut router.dispatch(&click, Some(NodeId(99)))).is_empty());
}

#[test]
fn a_claim_stops_the_way_out() {
    let mut router = Router::new(ClaimPolicy::Independent);
    let root = router.add_node(None, None).unwrap();
    let leaf = router.add_node(Some(root), None).unwrap();
    let on_root = router.on_event(root, EventKind::MouseDown).unwrap();
    let on_leaf = router.on_event(leaf, EventKind::MouseDown).unwrap();
    let click = InputEvent::MouseDown(MouseDownEvent::default());
    let mut pass = router.dispatch(&click, Some(leaf));
    let made = run(&mut pass, &|_| ListenerOutcome::Handled);
    assert_eq!(made, vec![event_call(on_leaf, leaf)]);
    let made = run(&mut router.dispatch(&click, Some(leaf)), &|delivery| {
        if delivery.invocation.listener == on_root {
            ListenerOutcome::Handled
        } else {
            ListenerOutcome::Continue
        }
    });
    assert_eq!(made, vec![event_call(on_leaf, leaf), event_call(on_root, root)]);
}

#[test]
fn claim_policy_decides_whether_the_action_follows() {
    for (policy, action_follows) in
        [(ClaimPolicy::Independent, true), (ClaimPolicy::RawClaimStopsAction, false)]
    {
        let mut view = test_view(policy);
        let outer = view.router.on_event(NodeId(0), EventKind::KeyDown).unwrap();
        view.router.bind_keys(&vec![spec("ctrl-g", "TestAction", Some("parent"))]);
        view.router.focus(FocusHandle { node: view.nested }).unwrap();
        let mut pass = view.router.dispatch(&key_down("ctrl-g"), None);
        let made = run(&mut pass, &|delivery| match delivery.phase {
            Phase::Event => ListenerOutcome::Handled,
            Phase::Action => ListenerOutcome::Continue,
        });
        let mut expected = vec![event_call(view.key_down, view.parent)];
        if action_follows {
            expected.push(action_call(view.action, view.parent));
        }
        assert_eq!(made, expected);
        assert!(!made.contains(&event_call(outer, NodeId(0))));
    }
}

#[test]
fn a_claimed_action_goes_no_further() {
    let mut view = test_view(ClaimPolicy::Independent);
    let outer_action = view.router.on_action(NodeId(0), "TestAction".to_string()).unwrap();
    view.router.bind_keys(&vec![spec("ctrl-g", "TestAction", Some("parent"))]);
    view.router.focus(FocusHandle { node: view.nested }).unwrap();
    let event = key_down("ctrl-g");
    let made = run_all(&mut view.router.dispatch(&event, None));
    assert_eq!(
        made,
        vec![
            event_call(view.key_down, view.parent),
            action_call(view.action, view.parent),
            action_call(outer_action, NodeId(0)),
        ]
    );
    let made = run(&mut view.router.dispatch(&event, None), &|delivery| match delivery.phase {
        Phase::Event => ListenerOutcome::Continue,
        Phase::Action => ListenerOutcome::Handled,
    });
    assert_eq!(
        made,
        vec![event_call(view.key_down, view.parent), action_call(view.action, view.parent)]
    );
}

#[test]
fn a_failed_listener_is_noted_and_the_pass_goes_on() {
    let mut view = test_view(ClaimPolicy::RawClaimStopsAction);
    view.router.bind_keys(&vec![spec("ctrl-g", "TestAction", Some("parent"))]);
    view.router.focus(FocusHandle { node: view.nested }).unwrap();
    let mut pass = view.router.dispatch(&key_down("ctrl-g"), None);
    let made = run(&mut pass, &|delivery| match delivery.phase {
        Phase::Event => ListenerOutcome::Failed,
        Phase::Action => ListenerOutcome::Continue,
    });
    assert_eq!(
        made,
        vec![event_call(view.key_down, view.parent), action_call(view.action, view.parent)]
    );
    assert_eq!(pass.failures(), &vec![view.key_down]);
    pass.report(ListenerOutcome::Failed);
    assert_eq!(pass.failures(), &vec![view.key_down]);
}

#[test]
fn a_report_counts_once_and_only_after_a_call() {
    let view = test_view(ClaimPolicy::Independent);
    let click = InputEvent::KeyDown(KeyDownEvent {
        keystroke: Keystroke::parse("a").unwrap(),
        is_held: true,
    });
    let mut router = view.router;
    router.focus(FocusHandle { node: view.parent }).unwrap();
    let mut pass = router.dispatch(&click, None);
    pass.report(ListenerOutcome::Handled);
    pass.report(ListenerOutcome::Failed);
    assert!(pass.failures().is_empty());
    assert_eq!(pass.next(), Some(event_call(view.key_down, view.parent)));
    pass.report(ListenerOutcome::Failed);
    pass.report(ListenerOutcome::Failed);
    assert_eq!(pass.failures(), &vec![view.key_down]);
    assert_eq!(pass.next(), None);
}

#[test]
fn the_nearest_context_wins_then_the_latest_binding() {
    let mut router = Router::new(ClaimPolicy::Independent);
    let root = router.add_node(None, label("workspace")).unwrap();
    let pane = router.add_node(Some(root), label("pane")).unwrap();
    let plain = router.add_node(Some(pane), None).unwrap();
    let editor = router.add_node(Some(plain), label("editor")).unwrap();
    let mut listeners = Vec::new();
    for node in [root, pane, plain, editor] {
        for name in ["Workspace", "Pane", "Editor", "Newer", "Global"] {
            listeners.push((node, name, router.on_action(node, name.to_string()).unwrap()));
        }
    }
    let heard = |made: &Vec<Delivery>| -> Vec<(NodeId, &str)> {
        made.iter()
            .map(|delivery| {
                let (node, name, _) = listeners
                    .iter()
                    .find(|(_, _, listener)| *listener == delivery.invocation.listener)
                    .unwrap();
                assert_eq!(*node, delivery.invocation.node);
                assert_eq!(delivery.phase, Phase::Action);
                (*node, *name)
            })
            .collect()
    };
    router.focus(FocusHandle { node: editor }).unwrap();
    let event = key_down("cmd-k");

    router.bind_keys(&vec![spec("cmd-k", "Global", None)]);
    let mut pass = router.dispatch(&event, None);
    assert_eq!(pass.action(), &Some("Global".to_string()));
    assert_eq!(
        heard(&run_all(&mut pass)),
        vec![(editor, "Global"), (plain, "Global"), (pane, "Global"), (root, "Global")]
    );

    router.bind_keys(&vec![spec("cmd-k", "Workspace", Some("workspace"))]);
    let mut pass = router.dispatch(&event, None);
    assert_eq!(pass.action(), &Some("Workspace".to_string()));
    assert_eq!(heard(&run_all(&mut pass)), vec![(root, "Workspace")]);

    router.bind_keys(&vec![
        spec("cmd-k", "Pane", Some("pane")),
        spec("cmd-k", "Workspace", Some("workspace")),
        spec("cmd-k", "Global", None),
    ]);
    let mut pass = router.dispatch(&event, None);
    assert_eq!(pass.action(), &Some("Pane".to_string()));
    assert_eq!(heard(&run_all(&mut pass)), vec![(pane, "Pane"), (root, "Pane")]);

    router.bind_keys(&vec![spec("cmd-k", "Newer", Some("pane"))]);
    let mut pass = router.dispatch(&event, None);
    assert_eq!(pass.action(), &Some("Newer".to_string()));
    assert_eq!(heard(&run_all(&mut pass)), vec![(pane, "Newer"), (root, "Newer")]);

    router.bind_keys(&vec![spec("cmd-k", "Editor", Some("editor"))]);
    let mut pass = router.dispatch(&event, None);
    assert_eq!(pass.action(), &Some("Editor".to_string()));
    assert_eq!(
        heard(&run_all(&mut pass)),
        vec![(editor, "Editor"), (plain, "Editor"), (pane, "Editor"), (root, "Editor")]
    );

    router.blur().unwrap();
    router.focus(FocusHandle { node: pane }).unwrap();
    let mut pass = router.dispatch(&event, None);
    assert_eq!(pass.action(), &Some("Newer".to_string()));
    assert_eq!(heard(&run_all(&mut pass)), vec![(pane, "Newer"), (root, "Newer")]);
}

#[test]
fn only_a_key_press_brings_about_an_action() {
    let mut view = test_view(ClaimPolicy::Independent);
    view.router.bind_keys(&vec![spec("ctrl-g", "TestAction", Some("parent"))]);
    view.router.focus(FocusHandle { node: view.nested }).unwrap();
    let key_up = view.router.on_event(view.nested, EventKind::KeyUp).unwrap();
    let event = InputEvent::KeyUp(input_events::events::KeyUpEvent {
        keystroke: Keystroke::parse("ctrl-g").unwrap(),
    });
    let mut pass = view.router.dispatch(&event, None);
    assert_eq!(pass.action(), &None);
    assert_eq!(run_all(&mut pass), vec![event_call(key_up, view.nested)]);
}

#[test]
fn malformed_bindings_are_reported_and_the_rest_installed() {
    let mut view = test_view(ClaimPolicy::Independent);
    let refused = view.router.bind_keys(&vec![
        spec("hyper-g", "TestAction", Some("parent")),
        spec("ctrl-g", "TestAction", Some("parent")),
        spec("", "TestAction", Some("parent")),
    ]);
    assert_eq!(refused.len(), 2);
    assert_eq!(refused[0].index, 0);
    assert_eq!(refused[1].index, 2);
    view.router.focus(FocusHandle { node: view.nested }).unwrap();
    let made = run_all(&mut view.router.dispatch(&key_down("ctrl-g"), None));
    assert!(made.contains(&action_call(view.action, view.parent)));
}

#[test]
fn focus_moves_and_reports_each_transition() {
    let mut router = Router::new(ClaimPolicy::Independent);
    let a = router.add_node(None, None).unwrap();
    let b = router.add_node(Some(a), None).unwrap();
    let on_a = FocusHandle { node: a };
    let on_b = FocusHandle { node: b };
    assert_eq!(router.focused(), None);
    assert_eq!(router.blur(), None);
    assert_eq!(router.focus(on_a), Some(FocusEvent { blurred: None, focused: Some(on_a) }));
    assert_eq!(router.focused(), Some(on_a));
    assert_eq!(router.focus(on_a), None);
    assert_eq!(router.focus(on_b), Some(FocusEvent { blurred: Some(on_a), focused: Some(on_b) }));
    assert_eq!(router.focus(FocusHandle { node: NodeId(7) }), None);
    assert_eq!(router.focused(), Some(on_b));
    assert_eq!(router.blur(), Some(FocusEvent { blurred: Some(on_b), focused: None }));
    assert_eq!(router.focused(), None);
}

#[test]
fn unknown_nodes_are_refused() {
    let mut router = Router::new(ClaimPolicy::Independent);
    assert_eq!(router.add_node(Some(NodeId(0)), None), None);
    assert_eq!(router.on_event(NodeId(0), EventKind::KeyDown), None);
    assert_eq!(router.on_action(NodeId(0), "Act".to_string()), None);
    let root = router.add_node(None, None).unwrap();
    assert_eq!(root, NodeId(0));
    assert_eq!(router.add_node(Some(NodeId(1)), None), None);
    assert_eq!(router.add_node(Some(root), None), Some(NodeId(1)));
    assert_eq!(router.listen(NodeId(1), Trigger::Event(EventKind::KeyUp)), Some(ListenerId(0)));
    assert_eq!(router.listen(NodeId(2), Trigger::Event(EventKind::KeyUp)), None);
    assert_eq!(router.on_action(root, "Act".to_string()), Some(ListenerId(1)));
}

#[test]
fn a_claim_still_reaches_the_same_node() {
    let mut router = Router::new(ClaimPolicy::Independent);
    let root = router.add_node(None, None).unwrap();
    let leaf = router.add_node(Some(root), None).unwrap();
    let first = router.on_event(leaf, EventKind::MouseDown).unwrap();
    let _on_root = router.on_event(root, EventKind::MouseDown).unwrap();
    let second = router.on_event(leaf, EventKind::MouseDown).unwrap();
    let click = InputEvent::MouseDown(MouseDownEvent::default());
    let made = run(&mut router.dispatch(&click, Some(leaf)), &|delivery| {
        if delivery.invocation.listener == first {
            ListenerOutcome::Handled
        } else {
            ListenerOutcome::Continue
        }
    });
    assert_eq!(made, vec![event_call(first, leaf), event_call(second, leaf)]);
    let made = run(&mut router.dispatch(&click, Some(leaf)), &|delivery| {
        if delivery.invocation.listener == second {
            ListenerOutcome::Handled
        } else {
            ListenerOutcome::Continue
        }
    });
    assert_eq!(made, vec![event_call(first, leaf), event_call(second, leaf)]);
}

#[test]
fn the_router_shows_what_it_holds() {
    let mut view = test_view(ClaimPolicy::Independent);
    view.router.bind_keys(&vec![spec("ctrl-g", "TestAction", Some("parent"))]);
    let parent = view.router.node(view.parent).unwrap();
    assert_eq!(parent.parent, Some(NodeId(0)));
    assert_eq!(parent.key_context, label("parent"));
    let root = view.router.node(NodeId(0)).unwrap();
    assert_eq!(root.parent, None);
    assert_eq!(root.key_context, None);
    assert!(view.router.node(NodeId(3)).is_none());
    let listener = view.router.listener(view.action).unwrap();
    assert_eq!(listener.node, view.parent);
    assert_eq!(listener.trigger, Trigger::Action("TestAction".to_string()));
    let listener = view.router.listener(view.key_down).unwrap();
    assert_eq!(listener.trigger, Trigger::Event(EventKind::KeyDown));
    assert!(view.router.listener(ListenerId(3)).is_none());
    assert_eq!(view.router.keymap().len(), 1);
    assert_eq!(view.router.keymap().get(0).unwrap().action, "TestAction");
}
