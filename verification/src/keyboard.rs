//! Turns raw keyboard events into the key events that drive pasting.

use vstd::prelude::*;

verus! {

/// The code under which the left Control key is known.
pub const CONTROL_LEFT_CODE: u32 = 0;

/// A keyboard key, told apart from the others by its code.
#[derive(Clone, Copy, Debug, PartialEq, Eq, Structural)]
pub struct Key {
    pub code: u32,
}

impl Key {
    /// Whether this is the left Control key.
    pub open spec fn is_control_left(self) -> bool {
        self.code == CONTROL_LEFT_CODE
    }

    /// The left Control key.
    pub fn control_left() -> (key: Key)
        ensures
            key.is_control_left(),
    {
        Key { code: CONTROL_LEFT_CODE }
    }
}

/// Whether a reported key event is a press or a release.
#[derive(Clone, Copy, Debug, PartialEq, Eq, Structural)]
pub enum KeyActionType {
    Release,
    Press,
}

/// A raw event as the keyboard listener hands it over.
#[derive(Clone, Copy, Debug, PartialEq, Eq, Structural)]
pub enum InputEvent {
    KeyPress(Key),
    KeyRelease(Key),
    /// Any event that is not a key press or release (mouse, wheel).
    Other,
}

/// An event on the watched key, with the state of the left Control key.
#[derive(Clone, Copy, Debug, PartialEq, Eq, Structural)]
pub struct KeyEvent {
    pub key: Key,
    pub is_ctrl: bool,
    pub action_type: KeyActionType,
}

/// What the listener remembers between two raw events.
#[derive(Clone, Copy, Debug, PartialEq, Eq, Structural)]
pub struct ControlContainer {
    /// The left Control key is held.
    pub is_ctrl: bool,
    /// The watched key is held.
    pub is_pressed: bool,
}

/// Whether the left Control key is held after `event`.
pub open spec fn next_ctrl(is_ctrl: bool, event: InputEvent) -> bool {
    match event {
        InputEvent::KeyPress(k) => if k.is_control_left() { true } else { is_ctrl },
        InputEvent::KeyRelease(k) => if k.is_control_left() { false } else { is_ctrl },
        InputEvent::Other => is_ctrl,
    }
}

/// Whether the watched key `key` is held after `event`.
pub open spec fn next_pressed(is_pressed: bool, key: Key, event: InputEvent) -> bool {
    match event {
        InputEvent::KeyPress(k) => if k == key { true } else { is_pressed },
        InputEvent::KeyRelease(k) => if k == key { false } else { is_pressed },
        InputEvent::Other => is_pressed,
    }
}

/// The state after `event`.
pub open spec fn next_container(c: ControlContainer, key: Key, event: InputEvent) -> ControlContainer {
    ControlContainer {
        is_ctrl: next_ctrl(c.is_ctrl, event),
        is_pressed: next_pressed(c.is_pressed, key, event),
    }
}

/// The key event reported for `event`: only the release of the watched key,
/// after it was pressed, is reported, as a release.
pub open spec fn reported(c: ControlContainer, key: Key, event: InputEvent) -> Option<KeyEvent> {
    match event {
        InputEvent::KeyRelease(k) => if k == key && c.is_pressed {
            Some(
                KeyEvent {
                    key,
                    is_ctrl: next_ctrl(c.is_ctrl, event),
                    action_type: KeyActionType::Release,
                },
            )
        } else {
            None
        },
        _ => None,
    }
}

/// The state after a sequence of events.
pub open spec fn run(c: ControlContainer, key: Key, events: Seq<InputEvent>) -> ControlContainer
    decreases events.len(),
{
    if events.len() == 0 {
        c
    } else {
        next_container(run(c, key, events.drop_last()), key, events.last())
    }
}

/// The key events reported along a sequence of events, in order.
pub open spec fn reports(c: ControlContainer, key: Key, events: Seq<InputEvent>) -> Seq<KeyEvent>
    decreases events.len(),
{
    if events.len() == 0 {
        seq![]
    } else {
        let before = run(c, key, events.drop_last());
        let earlier = reports(c, key, events.drop_last());
        match reported(before, key, events.last()) {
            Some(e) => earlier.push(e),
            None => earlier,
        }
    }
}

/// The number of presses of `key` among `events`.
pub open spec fn press_count(key: Key, events: Seq<InputEvent>) -> nat
    decreases events.len(),
{
    if events.len() == 0 {
        0
    } else {
        press_count(key, events.drop_last()) + if events.last() == InputEvent::KeyPress(key) {
            1nat
        } else {
            0nat
        }
    }
}

impl ControlContainer {
    /// Nothing held.
    pub fn new() -> (c: ControlContainer)
        ensures
            !c.is_ctrl,
            !c.is_pressed,
    {
        ControlContainer { is_ctrl: false, is_pressed: false }
    }

    /// Takes in one raw event: updates what is held and returns the key event
    /// to report, if any.
    pub fn process_event(&mut self, key: Key, event: InputEvent) -> (report: Option<KeyEvent>)
        ensures
            *final(self) == next_container(*old(self), key, event),
            report == reported(*old(self), key, event),
    {
        match event {
            InputEvent::KeyPress(k) => {
                if k.code == CONTROL_LEFT_CODE {
                    self.is_ctrl = true;
                }
            },
            InputEvent::KeyRelease(k) => {
                if k.code == CONTROL_LEFT_CODE {
                    self.is_ctrl = false;
                }
            },
            InputEvent::Other => {},
        }
        match event {
            InputEvent::KeyPress(k) => {
                if k == key {
                    self.is_pressed = true;
                }
                None
            },
            InputEvent::KeyRelease(k) => {
                if k == key {
                    if !self.is_pressed {
                        return None;
                    }
                    self.is_pressed = false;
                    Some(
                        KeyEvent {
                            key,
                            is_ctrl: self.is_ctrl,
                            action_type: if self.is_pressed {
                                KeyActionType::Press
                            } else {
                                KeyActionType::Release
                            },
                        },
                    )
                } else {
                    None
                }
            },
            InputEvent::Other => None,
        }
    }
}

/// Every key event reported is a release of the watched key.
pub proof fn reports_are_releases_of_the_key(c: ControlContainer, key: Key, events: Seq<InputEvent>)
    ensures
        forall|i: int|
            0 <= i < reports(c, key, events).len() ==> {
                &&& (#[trigger] reports(c, key, events)[i]).key == key
                &&& reports(c, key, events)[i].action_type == KeyActionType::Release
            },
    decreases events.len(),
{
    if events.len() > 0 {
        reports_are_releases_of_the_key(c, key, events.drop_last());
    }
}

/// Each reported release answers a press of its own: from a state with the
/// watched key up, no more releases are reported than the key was pressed,
/// and one fewer while it is still held.
pub proof fn each_report_answers_a_press(c: ControlContainer, key: Key, events: Seq<InputEvent>)
    requires
        !c.is_pressed,
    ensures
        reports(c, key, events).len() + (if run(c, key, events).is_pressed { 1nat } else { 0nat })
            <= press_count(key, events),
    decreases events.len(),
{
    if events.len() > 0 {
        each_report_answers_a_press(c, key, events.drop_last());
    }
}

/// The Control flag of a reported event is the state of the left Control key
/// once the event that caused the report has been taken in.
pub proof fn report_carries_ctrl_state(c: ControlContainer, key: Key, events: Seq<InputEvent>)
    requires
        events.len() > 0,
        reported(run(c, key, events.drop_last()), key, events.last()) is Some,
    ensures
        reports(c, key, events).last().is_ctrl == run(c, key, events).is_ctrl,
        reports(c, key, events).last().is_ctrl == next_ctrl(run(c, key, events.drop_last()).is_ctrl, events.last()),
{
}

/// Nothing held: the state the listener starts in.
pub open spec fn idle() -> ControlContainer {
    ControlContainer { is_ctrl: false, is_pressed: false }
}

/// `event` presses or releases `key`.
pub open spec fn touches_key(event: InputEvent, key: Key) -> bool {
    event == InputEvent::KeyPress(key) || event == InputEvent::KeyRelease(key)
}

/// `event` presses or releases the left Control key.
pub open spec fn touches_ctrl(event: InputEvent) -> bool {
    match event {
        InputEvent::KeyPress(k) => k.is_control_left(),
        InputEvent::KeyRelease(k) => k.is_control_left(),
        InputEvent::Other => false,
    }
}

/// Whether `key` is held after `events`, having been `held` before them:
/// the last press or release of it decides; with none, it stays as it was.
pub open spec fn key_held_after(held: bool, key: Key, events: Seq<InputEvent>) -> bool
    decreases events.len(),
{
    if events.len() == 0 {
        held
    } else if events.last() == InputEvent::KeyPress(key) {
        true
    } else if events.last() == InputEvent::KeyRelease(key) {
        false
    } else {
        key_held_after(held, key, events.drop_last())
    }
}

/// Whether the left Control key is held after `events`, having been `held`
/// before them: the last press or release of it decides; with none, it
/// stays as it was.
pub open spec fn ctrl_held_after(held: bool, events: Seq<InputEvent>) -> bool
    decreases events.len(),
{
    if events.len() == 0 {
        held
    } else if touches_ctrl(events.last()) {
        events.last() is KeyPress
    } else {
        ctrl_held_after(held, events.drop_last())
    }
}

proof fn run_follows_last_touch(c: ControlContainer, key: Key, events: Seq<InputEvent>)
    ensures
        run(c, key, events).is_pressed == key_held_after(c.is_pressed, key, events),
        run(c, key, events).is_ctrl == ctrl_held_after(c.is_ctrl, events),
    decreases events.len(),
{
    if events.len() > 0 {
        run_follows_last_touch(c, key, events.drop_last());
    }
}

proof fn key_held_after_is_last_touch(held: bool, key: Key, events: Seq<InputEvent>)
    ensures
        forall|i: int|
            0 <= i < events.len() && touches_key(#[trigger] events[i], key) && (forall|j: int|
                i < j < events.len() ==> !touches_key(events[j], key)) ==> key_held_after(
                held,
                key,
                events,
            ) == (events[i] == InputEvent::KeyPress(key)),
        (forall|i: int| 0 <= i < events.len() ==> !touches_key(#[trigger] events[i], key))
            ==> key_held_after(held, key, events) == held,
    decreases events.len(),
{
    if events.len() > 0 {
        let n = events.len() - 1;
        let before = events.drop_last();
        key_held_after_is_last_touch(held, key, before);
        assert(events.last() == events[n]);
        assert forall|i: int|
            0 <= i < events.len() && touches_key(#[trigger] events[i], key) && (forall|j: int|
                i < j < events.len() ==> !touches_key(events[j], key)) implies key_held_after(
            held,
            key,
            events,
        ) == (events[i] == InputEvent::KeyPress(key)) by {
            if i < n {
                assert(!touches_key(events[n], key));
                assert(before[i] == events[i]);
                assert forall|j: int| i < j < before.len() implies !touches_key(before[j], key) by {
                    assert(before[j] == events[j]);
                }
            }
        }
        if forall|i: int| 0 <= i < events.len() ==> !touches_key(#[trigger] events[i], key) {
            assert forall|i: int| 0 <= i < before.len() implies !touches_key(
                #[trigger] before[i],
                key,
            ) by {
                assert(before[i] == events[i]);
            }
            assert(!touches_key(events[n], key));
        }
    }
}

proof fn ctrl_held_after_is_last_touch(held: bool, events: Seq<InputEvent>)
    ensures
        forall|i: int|
            0 <= i < events.len() && touches_ctrl(#[trigger] events[i]) && (forall|j: int|
                i < j < events.len() ==> !touches_ctrl(events[j])) ==> ctrl_held_after(held, events)
                == (events[i] is KeyPress),
        (forall|i: int| 0 <= i < events.len() ==> !touches_ctrl(#[trigger] events[i]))
            ==> ctrl_held_after(held, events) == held,
    decreases events.len(),
{
    if events.len() > 0 {
        let n = events.len() - 1;
        let before = events.drop_last();
        ctrl_held_after_is_last_touch(held, before);
        assert(events.last() == events[n]);
        assert forall|i: int|
            0 <= i < events.len() && touches_ctrl(#[trigger] events[i]) && (forall|j: int|
                i < j < events.len() ==> !touches_ctrl(events[j])) implies ctrl_held_after(
            held,
            events,
        ) == (events[i] is KeyPress) by {
            if i < n {
                assert(!touches_ctrl(events[n]));
                assert(before[i] == events[i]);
                assert forall|j: int| i < j < before.len() implies !touches_ctrl(before[j]) by {
                    assert(before[j] == events[j]);
                }
            }
        }
        if forall|i: int| 0 <= i < events.len() ==> !touches_ctrl(#[trigger] events[i]) {
            assert forall|i: int| 0 <= i < before.len() implies !touches_ctrl(#[trigger] before[i]) by {
                assert(before[i] == events[i]);
            }
            assert(!touches_ctrl(events[n]));
        }
    }
}

/// After a run of events the watched key is held exactly when the last press
/// or release of it was a press, and the left Control key likewise; where
/// there was none, the state is the one the run started from.
pub proof fn held_state_after_a_run(c: ControlContainer, key: Key, events: Seq<InputEvent>)
    ensures
        run(c, key, events).is_pressed == key_held_after(c.is_pressed, key, events),
        run(c, key, events).is_ctrl == ctrl_held_after(c.is_ctrl, events),
        forall|i: int|
            0 <= i < events.len() && touches_key(#[trigger] events[i], key) && (forall|j: int|
                i < j < events.len() ==> !touches_key(events[j], key)) ==> run(c, key, events).is_pressed
                == (events[i] == InputEvent::KeyPress(key)),
        (forall|i: int| 0 <= i < events.len() ==> !touches_key(#[trigger] events[i], key)) ==> run(
            c,
            key,
            events,
        ).is_pressed == c.is_pressed,
        forall|i: int|
            0 <= i < events.len() && touches_ctrl(#[trigger] events[i]) && (forall|j: int|
                i < j < events.len() ==> !touches_ctrl(events[j])) ==> run(c, key, events).is_ctrl == (
            events[i] is KeyPress),
        (forall|i: int| 0 <= i < events.len() ==> !touches_ctrl(#[trigger] events[i])) ==> run(
            c,
            key,
            events,
        ).is_ctrl == c.is_ctrl,
{
    run_follows_last_touch(c, key, events);
    key_held_after_is_last_touch(c.is_pressed, key, events);
    ctrl_held_after_is_last_touch(c.is_ctrl, events);
}

/// Over a run of the listener the reports are, in order, one for each
/// release of the watched key whose last earlier press or release was a
/// press (or, with none, from a start with the key held); a repeated press
/// adds none. Each carries the Control state once that release is taken in.
pub proof fn reports_over_a_run(c: ControlContainer, key: Key, events: Seq<InputEvent>, j: int)
    requires
        0 <= j < events.len(),
    ensures
        reports(c, key, events.take(j + 1)) == if events[j] == InputEvent::KeyRelease(key)
            && key_held_after(c.is_pressed, key, events.take(j)) {
            reports(c, key, events.take(j)).push(
                KeyEvent {
                    key,
                    is_ctrl: ctrl_held_after(c.is_ctrl, events.take(j + 1)),
                    action_type: KeyActionType::Release,
                },
            )
        } else {
            reports(c, key, events.take(j))
        },
{
    let upto = events.take(j + 1);
    assert(upto.drop_last() =~= events.take(j));
    assert(upto.last() == events[j]);
    held_state_after_a_run(c, key, events.take(j));
    held_state_after_a_run(c, key, upto);
}

/// The listener for one watched key: what is held, with the events taken in
/// so far.
pub struct KeyListener {
    key: Key,
    container: ControlContainer,
    seen: Ghost<Seq<InputEvent>>,
}

impl KeyListener {
    /// The key this listener watches.
    pub closed spec fn watched(&self) -> Key {
        self.key
    }

    /// The events taken in so far, in order.
    pub closed spec fn events_seen(&self) -> Seq<InputEvent> {
        self.seen@
    }

    /// What is held is what the events taken in have left, from rest.
    pub closed spec fn wf(&self) -> bool {
        self.container == run(idle(), self.key, self.seen@)
    }

    /// A listener for `key` that has taken in nothing.
    pub fn new(key: Key) -> (listener: KeyListener)
        ensures
            listener.wf(),
            listener.watched() == key,
            listener.events_seen() == Seq::<InputEvent>::empty(),
    {
        KeyListener { key, container: ControlContainer::new(), seen: Ghost(Seq::empty()) }
    }

    /// Takes in one raw event and returns the key event to report, if any:
    /// what it returns over its life are exactly the reports of the events
    /// it has taken in, and each is a release of the watched key.
    pub fn on_event(&mut self, event: InputEvent) -> (report: Option<KeyEvent>)
        requires
            old(self).wf(),
        ensures
            final(self).wf(),
            final(self).watched() == old(self).watched(),
            final(self).events_seen() == old(self).events_seen().push(event),
            report == reported(run(idle(), old(self).watched(), old(self).events_seen()), old(self).watched(), event),
            reports(idle(), final(self).watched(), final(self).events_seen()) == match report {
                Some(r) => reports(idle(), old(self).watched(), old(self).events_seen()).push(r),
                None => reports(idle(), old(self).watched(), old(self).events_seen()),
            },
            report matches Some(r) ==> r.key == old(self).watched() && r.action_type
                == KeyActionType::Release,
    {
        let ghost before = self.seen@;
        let report = self.container.process_event(self.key, event);
        self.seen = Ghost(before.push(event));
        proof {
            assert(self.seen@.drop_last() =~= before);
            assert(self.seen@.last() == event);
        }
        report
    }
}

} // verus!
