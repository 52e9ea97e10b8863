use input_events::events::{
    ClickEvent, DowncastMismatch, EventKind, FileDropEvent, InputEvent, KeyDownEvent, KeyUpEvent,
    ModifiersChangedEvent, MouseButton, MouseDownEvent, MouseExitEvent, MouseMoveEvent,
    MouseUpEvent, NavigationDirection, ScrollDelta, ScrollWheelEvent, TouchPhase,
};
use input_events::focus::{FocusEvent, FocusHandle, NodeId};
use input_events::geometry::{point, Lines, Pixels, Point};
use input_events::keystroke::{Keystroke, Modifiers};
use input_events::paths::ExternalPaths;
use std::path::PathBuf;

fn px(value: f32) -> Pixels {
    Pixels::from_bits(value.to_bits())
}

fn at(x: f32, y: f32) -> Point<Pixels> {
    point(px(x), px(y))
}

fn keystroke(text: &str) -> Keystroke {
    Keystroke::parse(text).unwrap()
}

fn shift() -> Modifiers {
    Modifiers { shift: true, ..Modifiers::default() }
}

fn one_of_each() -> Vec<InputEvent> {
    vec![
        InputEvent::KeyDown(KeyDownEvent { keystroke: keystroke("ctrl-g"), is_held: false }),
        InputEvent::KeyUp(KeyUpEvent { keystroke: keystroke("ctrl-g") }),
        InputEvent::ModifiersChanged(ModifiersChangedEvent { modifiers: shift() }),
        InputEvent::MouseDown(MouseDownEvent {
            button: MouseButton::Left,
            position: at(1.0, 2.0),
            modifiers: Modifiers::default(),
            click_count: 1,
        }),
        InputEvent::MouseUp(MouseUpEvent {
            button: MouseButton::Right,
            position: at(3.0, 4.0),
            modifiers: Modifiers::default(),
            click_count: 2,
        }),
        InputEvent::MouseMove(MouseMoveEvent {
            position: at(5.5, -6.25),
            pressed_button: Some(MouseButton::Middle),
            modifiers: shift(),
        }),
        InputEvent::MouseExited(MouseExitEvent {
            position: at(7.0, 8.0),
            pressed_button: None,
            modifiers: Modifiers::default(),
        }),
        InputEvent::ScrollWheel(ScrollWheelEvent {
            position: at(9.0, 10.0),
            delta: ScrollDelta::Pixels(at(0.0, -3.0)),
            modifiers: Modifiers::default(),
            touch_phase: TouchPhase::Moved,
        }),
        InputEvent::FileDrop(FileDropEvent::Entered {
            position: at(11.0, 12.0),
            files: ExternalPaths::new(vec![PathBuf::from("/tmp/a.txt")]),
        }),
        InputEvent::FileDrop(FileDropEvent::Pending { position: at(13.0, 14.0) }),
        InputEvent::FileDrop(FileDropEvent::Submit { position: at(15.0, 16.0) }),
        InputEvent::FileDrop(FileDropEvent::Exited),
    ]
}

#[test]
fn position_is_the_stored_position() {
    let expected = vec![
        None,
        None,
        None,
        Some(at(1.0, 2.0)),
        Some(at(3.0, 4.0)),
        Some(at(5.5, -6.25)),
        Some(at(7.0, 8.0)),
        Some(at(9.0, 10.0)),
        Some(at(11.0, 12.0)),
        Some(at(13.0, 14.0)),
        Some(at(15.0, 16.0)),
        None,
    ];
    let events = one_of_each();
    assert_eq!(events.len(), expected.len());
    for (event, want) in events.iter().zip(expected) {
        assert_eq!(event.position(), want);
    }
}

#[test]
fn position_keeps_every_bit() {
    let odd = point(Pixels::from_bits(0x7fc0_0001), Pixels::from_bits(0x8000_0000));
    let event = InputEvent::FileDrop(FileDropEvent::Pending { position: odd });
    assert_eq!(event.position(), Some(odd));
    assert_eq!(event.position().unwrap().x.to_bits(), 0x7fc0_0001);
    assert_eq!(event.position().unwrap().y.to_bits(), 0x8000_0000);
}

#[test]
fn every_event_is_mouse_or_keyboard_never_both() {
    for (index, event) in one_of_each().iter().enumerate() {
        let keyboard = index < 3;
        assert_eq!(event.keyboard_event().is_some(), keyboard);
        assert_eq!(event.mouse_event().is_some(), !keyboard);
        assert_eq!(event.kind().is_keyboard(), keyboard);
    }
}

#[test]
fn kinds_follow_the_variants() {
    let kinds: Vec<EventKind> = one_of_each().iter().map(|event| event.kind()).collect();
    assert_eq!(
        kinds,
        vec![
            EventKind::KeyDown,
            EventKind::KeyUp,
            EventKind::ModifiersChanged,
            EventKind::MouseDown,
            EventKind::MouseUp,
            EventKind::MouseMove,
            EventKind::MouseExited,
            EventKind::ScrollWheel,
            EventKind::FileDrop,
            EventKind::FileDrop,
            EventKind::FileDrop,
            EventKind::FileDrop,
        ]
    );
}

#[test]
fn downcast_gives_the_payload() {
    let events = one_of_each();
    let handle = events[5].mouse_event().unwrap();
    assert_eq!(handle.kind(), EventKind::MouseMove);
    assert!(handle.is::<MouseMoveEvent>());
    assert!(!handle.is::<MouseDownEvent>());
    let payload = handle.downcast_ref::<MouseMoveEvent>().unwrap();
    assert_eq!(payload.position, at(5.5, -6.25));
    assert_eq!(payload.pressed_button, Some(MouseButton::Middle));

    let handle = events[0].keyboard_event().unwrap();
    let payload = handle.downcast_ref::<KeyDownEvent>().unwrap();
    assert_eq!(payload.keystroke, keystroke("ctrl-g"));
    assert!(!payload.is_held);

    let handle = events[8].mouse_event().unwrap();
    match handle.downcast_ref::<FileDropEvent>().unwrap() {
        FileDropEvent::Entered { position, files } => {
            assert_eq!(*position, at(11.0, 12.0));
            assert_eq!(files.paths(), &[PathBuf::from("/tmp/a.txt")]);
        }
        other => panic!("unexpected payload {:?}", other),
    }
}

#[test]
fn downcast_to_the_wrong_type_is_reported() {
    let events = one_of_each();
    let handle = events[3].mouse_event().unwrap();
    assert_eq!(
        handle.downcast_ref::<MouseUpEvent>().err(),
        Some(DowncastMismatch { found: EventKind::MouseDown })
    );
    assert_eq!(
        handle.downcast_ref::<KeyDownEvent>().err(),
        Some(DowncastMismatch { found: EventKind::MouseDown })
    );
    let handle = events[1].keyboard_event().unwrap();
    assert_eq!(
        handle.downcast_ref::<KeyDownEvent>().err(),
        Some(DowncastMismatch { found: EventKind::KeyUp })
    );
    assert_eq!(
        handle.downcast_ref::<ScrollWheelEvent>().err(),
        Some(DowncastMismatch { found: EventKind::KeyUp })
    );
}

#[test]
fn pixel_delta_of_pixels_ignores_the_line_height() {
    let delta = ScrollDelta::Pixels(at(4.0, -2.5));
    assert!(delta.precise());
    for height in [0.0f32, 1.0, -3.0, 20.0, 1.0e9] {
        let scaled = at(height * 7.0, height * 9.0);
        assert_eq!(delta.pixel_delta(scaled), at(4.0, -2.5));
    }
}

#[test]
fn pixel_delta_of_lines_is_the_scaled_count() {
    let cases = [
        (20.0f32, 1.5f32, -2.0f32, 30.0f32, -40.0f32),
        (16.0, 0.0, 0.25, 0.0, 4.0),
        (-8.0, 3.0, -0.5, -24.0, 4.0),
        (0.0, 5.0, -5.0, 0.0, -0.0),
    ];
    for (height, x, y, want_x, want_y) in cases {
        let delta = ScrollDelta::Lines(point(
            Lines::from_bits(x.to_bits()),
            Lines::from_bits(y.to_bits()),
        ));
        assert!(!delta.precise());
        let scaled = at(height * x, height * y);
        let got = delta.pixel_delta(scaled);
        assert_eq!(got.x.to_bits(), want_x.to_bits());
        assert_eq!(got.y.to_bits(), want_y.to_bits());
    }
}

#[test]
fn scroll_delta_defaults_to_no_lines() {
    match ScrollDelta::default() {
        ScrollDelta::Lines(lines) => {
            assert_eq!(lines.x.to_bits(), 0.0f32.to_bits());
            assert_eq!(lines.y.to_bits(), 0.0f32.to_bits());
        }
        ScrollDelta::Pixels(_) => panic!("the default delta counts lines"),
    }
}

#[test]
fn all_mouse_buttons_in_canonical_order() {
    let all = MouseButton::all();
    assert_eq!(
        all,
        vec![
            MouseButton::Left,
            MouseButton::Right,
            MouseButton::Middle,
            MouseButton::Navigate(NavigationDirection::Back),
            MouseButton::Navigate(NavigationDirection::Forward),
        ]
    );
    assert_eq!(all.len(), 5);
    for (i, first) in all.iter().enumerate() {
        for second in &all[i + 1..] {
            assert_ne!(first, second);
        }
    }
}

#[test]
fn defaults_of_buttons_and_directions() {
    assert_eq!(MouseButton::default(), MouseButton::Left);
    assert_eq!(NavigationDirection::default(), NavigationDirection::Back);
    let down = MouseDownEvent::default();
    assert_eq!(down.button, MouseButton::Left);
    assert_eq!(down.click_count, 0);
    assert_eq!(down.position, at(0.0, 0.0));
    let click = ClickEvent::default();
    assert_eq!(click.up.button, MouseButton::Left);
    assert_eq!(Pixels::default().to_bits(), 0);
    assert_eq!(Lines::default().to_bits(), 0);
}

#[test]
fn events_pass_their_modifiers_through() {
    let changed = ModifiersChangedEvent { modifiers: shift() };
    assert!(changed.shift);
    assert!(!changed.control);
    assert!(changed.modified());
    let exit = MouseExitEvent {
        position: at(0.0, 0.0),
        pressed_button: None,
        modifiers: Modifiers { alt: true, ..Modifiers::default() },
    };
    assert!(exit.alt);
    assert!(!exit.shift);
    let scroll = ScrollWheelEvent {
        position: at(0.0, 0.0),
        delta: ScrollDelta::default(),
        modifiers: Modifiers::default(),
        touch_phase: TouchPhase::Started,
    };
    assert!(!scroll.modified());
}

#[test]
fn external_paths_keep_their_order() {
    let paths = vec![
        PathBuf::from("/tmp/first"),
        PathBuf::from("/tmp/second"),
        PathBuf::from("/tmp/third"),
    ];
    let dragged = ExternalPaths::new(paths.clone());
    assert_eq!(dragged.paths(), paths.as_slice());
    assert_eq!(dragged.paths().len(), 3);
    let copy = dragged.clone();
    assert_eq!(copy.paths(), paths.as_slice());
    assert!(ExternalPaths::default().paths().is_empty());
    assert!(ExternalPaths::new(Vec::new()).paths().is_empty());
}

#[test]
fn focus_event_sides() {
    let a = FocusHandle { node: NodeId(1) };
    let b = FocusHandle { node: NodeId(2) };
    let moved = FocusEvent { blurred: Some(a), focused: Some(b) };
    assert_ne!(moved.blurred, moved.focused);
    let teardown = FocusEvent { blurred: None, focused: None };
    assert_eq!(teardown.blurred, teardown.focused);
}
