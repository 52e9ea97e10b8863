//! The closed set of normalized input events.

use crate::geometry::{Lines, Pixels, Point};
use crate::keystroke::{Keystroke, Modifiers};
use crate::paths::ExternalPaths;
use vstd::prelude::*;

verus! {

/// A key went down.
#[derive(Clone, Debug, Eq, PartialEq)]
pub struct KeyDownEvent {
    pub keystroke: Keystroke,
    /// Whether this is a repeat produced by holding the key, not the first
    /// press.
    pub is_held: bool,
}

/// A key came up.
#[derive(Clone, Debug)]
pub struct KeyUpEvent {
    pub keystroke: Keystroke,
}

/// The held modifiers changed without a key press or release.
#[derive(Clone, Debug, Default)]
pub struct ModifiersChangedEvent {
    pub modifiers: Modifiers,
}

impl core::ops::Deref for ModifiersChangedEvent {
    type Target = Modifiers;

    fn deref(&self) -> (r: &Modifiers)
        ensures
            *r == self.modifiers,
    {
        &self.modifiers
    }
}

/// The phase of a touch motion.
#[derive(Clone, Copy, Debug, PartialEq, Eq, Structural)]
pub enum TouchPhase {
    Started,
    Moved,
    Ended,
}

/// A direction of history navigation, for mice with such buttons.
#[derive(Hash, PartialEq, Eq, Copy, Clone, Debug, Structural)]
pub enum NavigationDirection {
    Back,
    Forward,
}

impl Default for NavigationDirection {
    fn default() -> (r: NavigationDirection)
        ensures
            r == NavigationDirection::Back,
    {
        NavigationDirection::Back
    }
}

/// A mouse button.
#[derive(Hash, PartialEq, Eq, Copy, Clone, Debug, Structural)]
pub enum MouseButton {
    Left,
    Right,
    Middle,
    Navigate(NavigationDirection),
}

impl MouseButton {
    /// The five buttons, in their canonical order.
    pub open spec fn spec_all() -> Seq<MouseButton> {
        seq![
            MouseButton::Left,
            MouseButton::Right,
            MouseButton::Middle,
            MouseButton::Navigate(NavigationDirection::Back),
            MouseButton::Navigate(NavigationDirection::Forward),
        ]
    }

    /// Every button, each once, in the order left, right, middle, back,
    /// forward.
    pub fn all() -> (r: Vec<MouseButton>)
        ensures
            r@ == MouseButton::spec_all(),
            r@.len() == 5,
            r@.no_duplicates(),
            forall|button: MouseButton| r@.contains(button),
    {
        let mut buttons: Vec<MouseButton> = Vec::new();
        buttons.push(MouseButton::Left);
        buttons.push(MouseButton::Right);
        buttons.push(MouseButton::Middle);
        buttons.push(MouseButton::Navigate(NavigationDirection::Back));
        buttons.push(MouseButton::Navigate(NavigationDirection::Forward));
        proof {
            assert(buttons@ =~= MouseButton::spec_all());
            assert forall|button: MouseButton| buttons@.contains(button) by {
                match button {
                    MouseButton::Left => {
                        assert(buttons@[0] == button);
                    },
                    MouseButton::Right => {
                        assert(buttons@[1] == button);
                    },
                    MouseButton::Middle => {
                        assert(buttons@[2] == button);
                    },
                    MouseButton::Navigate(NavigationDirection::Back) => {
                        assert(buttons@[3] == button);
                    },
                    MouseButton::Navigate(NavigationDirection::Forward) => {
                        assert(buttons@[4] == button);
                    },
                }
            }
        }
        buttons
    }
}

impl Default for MouseButton {
    fn default() -> (r: MouseButton)
        ensures
            r == MouseButton::Left,
    {
        MouseButton::Left
    }
}

/// A mouse button went down.
#[derive(Clone, Debug, Default)]
pub struct MouseDownEvent {
    pub button: MouseButton,
    pub position: Point<Pixels>,
    pub modifiers: Modifiers,
    /// 1 for a single click, 2 for a double click, and so on.
    pub click_count: usize,
}

/// A mouse button came up.
#[derive(Clone, Debug, Default)]
pub struct MouseUpEvent {
    pub button: MouseButton,
    pub position: Point<Pixels>,
    pub modifiers: Modifiers,
    pub click_count: usize,
}

/// One completed click: a press and the release that ended it.
#[derive(Clone, Debug, Default)]
pub struct ClickEvent {
    pub down: MouseDownEvent,
    pub up: MouseUpEvent,
}

/// The pointer moved; `pressed_button` is set while a button is held.
#[derive(Clone, Debug, Default)]
pub struct MouseMoveEvent {
    pub position: Point<Pixels>,
    pub pressed_button: Option<MouseButton>,
    pub modifiers: Modifiers,
}

/// How far a scroll moved, in pixels or in lines.
#[derive(Clone, Copy, Debug)]
pub enum ScrollDelta {
    Pixels(Point<Pixels>),
    Lines(Point<Lines>),
}

impl Default for ScrollDelta {
    fn default() -> (r: ScrollDelta)
        ensures
            r == ScrollDelta::Lines(Point { x: Lines { bits: 0 }, y: Lines { bits: 0 } }),
    {
        ScrollDelta::Lines(Point { x: Lines { bits: 0 }, y: Lines { bits: 0 } })
    }
}

impl ScrollDelta {
    /// Whether the delta is given in pixels.
    pub fn precise(&self) -> (r: bool)
        ensures
            r == (*self is Pixels),
    {
        match self {
            ScrollDelta::Pixels(_) => true,
            ScrollDelta::Lines(_) => false,
        }
    }

    /// The delta in pixels.
    ///
    /// `scaled_lines` is what a delta counted in lines comes to: the line
    /// count on each axis multiplied by the line height. A delta that is
    /// already in pixels is returned as it is, whatever `scaled_lines` holds.
    pub fn pixel_delta(&self, scaled_lines: Point<Pixels>) -> (r: Point<Pixels>)
        ensures
            r == match *self {
                ScrollDelta::Pixels(delta) => delta,
                ScrollDelta::Lines(_) => scaled_lines,
            },
    {
        match self {
            ScrollDelta::Pixels(delta) => *delta,
            ScrollDelta::Lines(_) => scaled_lines,
        }
    }
}

/// The wheel, or a touch surface, scrolled.
#[derive(Clone, Debug)]
pub struct ScrollWheelEvent {
    pub position: Point<Pixels>,
    pub delta: ScrollDelta,
    pub modifiers: Modifiers,
    pub touch_phase: TouchPhase,
}

impl core::ops::Deref for ScrollWheelEvent {
    type Target = Modifiers;

    fn deref(&self) -> (r: &Modifiers)
        ensures
            *r == self.modifiers,
    {
        &self.modifiers
    }
}

/// The pointer left a tracked region.
#[derive(Clone, Debug, Default)]
pub struct MouseExitEvent {
    pub position: Point<Pixels>,
    pub pressed_button: Option<MouseButton>,
    pub modifiers: Modifiers,
}

impl core::ops::Deref for MouseExitEvent {
    type Target = Modifiers;

    fn deref(&self) -> (r: &Modifiers)
        ensures
            *r == self.modifiers,
    {
        &self.modifiers
    }
}

/// A step of a drag of files from outside the application.
///
/// One drag is `Entered` once, `Pending` while it moves, and ends with either
/// `Submit` or `Exited`.
#[derive(Debug, Clone)]
pub enum FileDropEvent {
    Entered { position: Point<Pixels>, files: ExternalPaths },
    Pending { position: Point<Pixels> },
    Submit { position: Point<Pixels> },
    Exited,
}

impl FileDropEvent {
    /// Where the drag is, unless it has left.
    pub open spec fn spec_position(&self) -> Option<Point<Pixels>> {
        match *self {
            FileDropEvent::Entered { position, .. } => Some(position),
            FileDropEvent::Pending { position } => Some(position),
            FileDropEvent::Submit { position } => Some(position),
            FileDropEvent::Exited => None,
        }
    }
}

/// The kinds of input event.
#[derive(Clone, Copy, Debug, PartialEq, Eq, Hash, Structural)]
pub enum EventKind {
    KeyDown,
    KeyUp,
    ModifiersChanged,
    MouseDown,
    MouseUp,
    MouseMove,
    MouseExited,
    ScrollWheel,
    FileDrop,
}

impl EventKind {
    /// Whether events of this kind come from the keyboard.
    pub open spec fn spec_is_keyboard(self) -> bool {
        self == EventKind::KeyDown || self == EventKind::KeyUp || self
            == EventKind::ModifiersChanged
    }

    /// Whether events of this kind come from the keyboard. Every other kind
    /// belongs to the pointer.
    #[verifier::when_used_as_spec(spec_is_keyboard)]
    pub fn is_keyboard(self) -> (r: bool)
        ensures
            r == self.spec_is_keyboard(),
    {
        match self {
            EventKind::KeyDown | EventKind::KeyUp | EventKind::ModifiersChanged => true,
            _ => false,
        }
    }
}

/// Any input event.
#[derive(Clone, Debug)]
pub enum InputEvent {
    KeyDown(KeyDownEvent),
    KeyUp(KeyUpEvent),
    ModifiersChanged(ModifiersChangedEvent),
    MouseDown(MouseDownEvent),
    MouseUp(MouseUpEvent),
    MouseMove(MouseMoveEvent),
    MouseExited(MouseExitEvent),
    ScrollWheel(ScrollWheelEvent),
    FileDrop(FileDropEvent),
}

impl InputEvent {
    /// The kind of this event.
    pub open spec fn spec_kind(&self) -> EventKind {
        match *self {
            InputEvent::KeyDown(_) => EventKind::KeyDown,
            InputEvent::KeyUp(_) => EventKind::KeyUp,
            InputEvent::ModifiersChanged(_) => EventKind::ModifiersChanged,
            InputEvent::MouseDown(_) => EventKind::MouseDown,
            InputEvent::MouseUp(_) => EventKind::MouseUp,
            InputEvent::MouseMove(_) => EventKind::MouseMove,
            InputEvent::MouseExited(_) => EventKind::MouseExited,
            InputEvent::ScrollWheel(_) => EventKind::ScrollWheel,
            InputEvent::FileDrop(_) => EventKind::FileDrop,
        }
    }

    /// The kind of this event.
    #[verifier::when_used_as_spec(spec_kind)]
    pub fn kind(&self) -> (r: EventKind)
        ensures
            r == self.spec_kind(),
    {
        match self {
            InputEvent::KeyDown(_) => EventKind::KeyDown,
            InputEvent::KeyUp(_) => EventKind::KeyUp,
            InputEvent::ModifiersChanged(_) => EventKind::ModifiersChanged,
            InputEvent::MouseDown(_) => EventKind::MouseDown,
            InputEvent::MouseUp(_) => EventKind::MouseUp,
            InputEvent::MouseMove(_) => EventKind::MouseMove,
            InputEvent::MouseExited(_) => EventKind::MouseExited,
            InputEvent::ScrollWheel(_) => EventKind::ScrollWheel,
            InputEvent::FileDrop(_) => EventKind::FileDrop,
        }
    }

    /// Where the event happened: the `position` that its payload carries.
    /// Keyboard events, and a file drag that has left, happen nowhere.
    pub open spec fn spec_position(&self) -> Option<Point<Pixels>> {
        match *self {
            InputEvent::KeyDown(_) => None,
            InputEvent::KeyUp(_) => None,
            InputEvent::ModifiersChanged(_) => None,
            InputEvent::MouseDown(event) => Some(event.position),
            InputEvent::MouseUp(event) => Some(event.position),
            InputEvent::MouseMove(event) => Some(event.position),
            InputEvent::MouseExited(event) => Some(event.position),
            InputEvent::ScrollWheel(event) => Some(event.position),
            InputEvent::FileDrop(event) => event.spec_position(),
        }
    }

    /// Where the event happened, for hit-testing.
    #[verifier::when_used_as_spec(spec_position)]
    pub fn position(&self) -> (r: Option<Point<Pixels>>)
        ensures
            r == self.spec_position(),
    {
        match self {
            InputEvent::KeyDown(_) => None,
            InputEvent::KeyUp(_) => None,
            InputEvent::ModifiersChanged(_) => None,
            InputEvent::MouseDown(event) => Some(event.position),
            InputEvent::MouseUp(event) => Some(event.position),
            InputEvent::MouseMove(event) => Some(event.position),
            InputEvent::MouseExited(event) => Some(event.position),
            InputEvent::ScrollWheel(event) => Some(event.position),
            InputEvent::FileDrop(FileDropEvent::Exited) => None,
            InputEvent::FileDrop(FileDropEvent::Entered { position, .. }) => Some(*position),
            InputEvent::FileDrop(FileDropEvent::Pending { position }) => Some(*position),
            InputEvent::FileDrop(FileDropEvent::Submit { position }) => Some(*position),
        }
    }

    /// Whether this is a pointer event: a press, a release, a move, an exit,
    /// a scroll, or a step of a file drag.
    pub open spec fn is_mouse(&self) -> bool {
        *self is MouseDown || *self is MouseUp || *self is MouseMove || *self is MouseExited
            || *self is ScrollWheel || *self is FileDrop
    }

    /// Whether this is a keyboard event: a key press, a key release, or a
    /// change of the held modifiers.
    pub open spec fn is_keyboard(&self) -> bool {
        *self is KeyDown || *self is KeyUp || *self is ModifiersChanged
    }

    /// This event behind a handle that no longer shows its variant, if it is
    /// a pointer event. A file drag is one: it happens at a position.
    pub fn mouse_event<'a>(&'a self) -> (r: Option<ErasedRef<'a>>)
        ensures
            match r {
                Some(handle) => self.is_mouse() && handle.event() == *self,
                None => !self.is_mouse(),
            },
    {
        match self {
            InputEvent::KeyDown(_) => None,
            InputEvent::KeyUp(_) => None,
            InputEvent::ModifiersChanged(_) => None,
            InputEvent::MouseDown(_) => Some(ErasedRef { event: self }),
            InputEvent::MouseUp(_) => Some(ErasedRef { event: self }),
            InputEvent::MouseMove(_) => Some(ErasedRef { event: self }),
            InputEvent::MouseExited(_) => Some(ErasedRef { event: self }),
            InputEvent::ScrollWheel(_) => Some(ErasedRef { event: self }),
            InputEvent::FileDrop(_) => Some(ErasedRef { event: self }),
        }
    }

    /// This event behind a handle that no longer shows its variant, if it is
    /// a keyboard event.
    pub fn keyboard_event<'a>(&'a self) -> (r: Option<ErasedRef<'a>>)
        ensures
            match r {
                Some(handle) => self.is_keyboard() && handle.event() == *self,
                None => !self.is_keyboard(),
            },
    {
        match self {
            InputEvent::KeyDown(_) => Some(ErasedRef { event: self }),
            InputEvent::KeyUp(_) => Some(ErasedRef { event: self }),
            InputEvent::ModifiersChanged(_) => Some(ErasedRef { event: self }),
            InputEvent::MouseDown(_) => None,
            InputEvent::MouseUp(_) => None,
            InputEvent::MouseMove(_) => None,
            InputEvent::MouseExited(_) => None,
            InputEvent::ScrollWheel(_) => None,
            InputEvent::FileDrop(_) => None,
        }
    }
}

/// A payload type of [`InputEvent`]: the content of one of its variants.
pub trait Payload: Sized {
    /// The payload of this type that `event` carries, if its variant is the
    /// one that carries this type.
    spec fn carried_by(event: &InputEvent) -> Option<Self>;

    /// Borrows the payload of this type out of `event`.
    fn borrow_from<'a>(event: &'a InputEvent) -> (r: Option<&'a Self>)
        ensures
            match r {
                Some(payload) => Self::carried_by(event) == Some(*payload),
                None => Self::carried_by(event) is None,
            },
    ;
}

impl Payload for KeyDownEvent {
    open spec fn carried_by(event: &InputEvent) -> Option<KeyDownEvent> {
        match *event {
            InputEvent::KeyDown(payload) => Some(payload),
            _ => None,
        }
    }

    fn borrow_from<'a>(event: &'a InputEvent) -> (r: Option<&'a KeyDownEvent>) {
        match event {
            InputEvent::KeyDown(payload) => Some(payload),
            _ => None,
        }
    }
}

impl Payload for KeyUpEvent {
    open spec fn carried_by(event: &InputEvent) -> Option<KeyUpEvent> {
        match *event {
            InputEvent::KeyUp(payload) => Some(payload),
            _ => None,
        }
    }

    fn borrow_from<'a>(event: &'a InputEvent) -> (r: Option<&'a KeyUpEvent>) {
        match event {
            InputEvent::KeyUp(payload) => Some(payload),
            _ => None,
        }
    }
}

impl Payload for ModifiersChangedEvent {
    open spec fn carried_by(event: &InputEvent) -> Option<ModifiersChangedEvent> {
        match *event {
            InputEvent::ModifiersChanged(payload) => Some(payload),
            _ => None,
        }
    }

    fn borrow_from<'a>(event: &'a InputEvent) -> (r: Option<&'a ModifiersChangedEvent>) {
        match event {
            InputEvent::ModifiersChanged(payload) => Some(payload),
            _ => None,
        }
    }
}

impl Payload for MouseDownEvent {
    open spec fn carried_by(event: &InputEvent) -> Option<MouseDownEvent> {
        match *event {
            InputEvent::MouseDown(payload) => Some(payload),
            _ => None,
        }
    }

    fn borrow_from<'a>(event: &'a InputEvent) -> (r: Option<&'a MouseDownEvent>) {
        match event {
            InputEvent::MouseDown(payload) => Some(payload),
            _ => None,
        }
    }
}

impl Payload for MouseUpEvent {
    open spec fn carried_by(event: &InputEvent) -> Option<MouseUpEvent> {
        match *event {
            InputEvent::MouseUp(payload) => Some(payload),
            _ => None,
        }
    }

    fn borrow_from<'a>(event: &'a InputEvent) -> (r: Option<&'a MouseUpEvent>) {
        match event {
            InputEvent::MouseUp(payload) => Some(payload),
            _ => None,
        }
    }
}

impl Payload for MouseMoveEvent {
    open spec fn carried_by(event: &InputEvent) -> Option<MouseMoveEvent> {
        match *event {
            InputEvent::MouseMove(payload) => Some(payload),
            _ => None,
        }
    }

    fn borrow_from<'a>(event: &'a InputEvent) -> (r: Option<&'a MouseMoveEvent>) {
        match event {
            InputEvent::MouseMove(payload) => Some(payload),
            _ => None,
        }
    }
}

impl Payload for MouseExitEvent {
    open spec fn carried_by(event: &InputEvent) -> Option<MouseExitEvent> {
        match *event {
            InputEvent::MouseExited(payload) => Some(payload),
            _ => None,
        }
    }

    fn borrow_from<'a>(event: &'a InputEvent) -> (r: Option<&'a MouseExitEvent>) {
        match event {
            InputEvent::MouseExited(payload) => Some(payload),
            _ => None,
        }
    }
}

impl Payload for ScrollWheelEvent {
    open spec fn carried_by(event: &InputEvent) -> Option<ScrollWheelEvent> {
        match *event {
            InputEvent::ScrollWheel(payload) => Some(payload),
            _ => None,
        }
    }

    fn borrow_from<'a>(event: &'a InputEvent) -> (r: Option<&'a ScrollWheelEvent>) {
        match event {
            InputEvent::ScrollWheel(payload) => Some(payload),
            _ => None,
        }
    }
}

impl Payload for FileDropEvent {
    open spec fn carried_by(event: &InputEvent) -> Option<FileDropEvent> {
        match *event {
            InputEvent::FileDrop(payload) => Some(payload),
            _ => None,
        }
    }

    fn borrow_from<'a>(event: &'a InputEvent) -> (r: Option<&'a FileDropEvent>) {
        match event {
            InputEvent::FileDrop(payload) => Some(payload),
            _ => None,
        }
    }
}

/// A request for a payload type that the event does not carry.
#[derive(Clone, Copy, Debug, PartialEq, Eq, Structural)]
pub struct DowncastMismatch {
    /// The kind of the event that was asked.
    pub found: EventKind,
}

/// An event seen only as "a pointer event" or "a keyboard event". Its payload
/// is reached by naming the payload type.
#[derive(Clone, Copy, Debug)]
pub struct ErasedRef<'a> {
    event: &'a InputEvent,
}

impl<'a> ErasedRef<'a> {
    /// The event behind the handle.
    pub closed spec fn event(self) -> InputEvent {
        *self.event
    }

    /// The kind of the event behind the handle.
    pub fn kind(&self) -> (r: EventKind)
        ensures
            r == self.event().spec_kind(),
    {
        self.event.kind()
    }

    /// Whether the event carries a payload of type `T`.
    pub fn is<T: Payload>(&self) -> (r: bool)
        ensures
            r == T::carried_by(&self.event()) is Some,
    {
        T::borrow_from(self.event).is_some()
    }

    /// The payload, if it is of type `T`; else the mismatch, with the kind of
    /// event that the handle stands for.
    pub fn downcast_ref<T: Payload>(&self) -> (r: Result<&'a T, DowncastMismatch>)
        ensures
            match r {
                Ok(payload) => T::carried_by(&self.event()) == Some(*payload),
                Err(mismatch) => T::carried_by(&self.event()) is None && mismatch.found
                    == self.event().spec_kind(),
            },
    {
        match T::borrow_from(self.event) {
            Some(payload) => Ok(payload),
            None => Err(DowncastMismatch { found: self.event.kind() }),
        }
    }
}

/// Every event is a pointer event or a keyboard event, and none is both:
/// of `mouse_event` and `keyboard_event`, exactly one hands out a handle. The
/// kind of an event tells which.
pub proof fn lemma_capabilities_partition(event: InputEvent)
    ensures
        event.is_mouse() != event.is_keyboard(),
        event.is_keyboard() == event.spec_kind().spec_is_keyboard(),
{
}

/// An event has a position unless it comes from the keyboard or is a file
/// drag that has left.
pub proof fn lemma_position_is_total(event: InputEvent)
    ensures
        event.spec_position() is None <==> (event.is_keyboard() || event
            == InputEvent::FileDrop(FileDropEvent::Exited)),
{
}

} // verus!
