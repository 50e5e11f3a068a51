use cancersongpaster::keyboard::{ControlContainer, InputEvent, Key, KeyActionType, KeyEvent};
use cancersongpaster::session::{is_timed_out, PasteAction, PasteSession};

fn press(is_ctrl: bool) -> KeyEvent {
    KeyEvent { key: Key { code: 3 }, is_ctrl, action_type: KeyActionType::Press }
}

fn release(is_ctrl: bool) -> KeyEvent {
    KeyEvent { key: Key { code: 3 }, is_ctrl, action_type: KeyActionType::Release }
}

#[test]
fn starts_on_first_line() {
    let (s, a) = PasteSession::start(3);
    assert_eq!(a, PasteAction::PasteLine(0));
    assert_eq!(s.current, 0);
    assert!(!s.used_paste);
}

#[test]
fn empty_song_finishes_at_once() {
    let (_, a) = PasteSession::start(0);
    assert_eq!(a, PasteAction::Finish);
}

#[test]
fn ctrl_press_then_release_moves_on() {
    let (mut s, _) = PasteSession::start(3);
    assert_eq!(s.on_key_event(&press(true)), PasteAction::AwaitKey);
    assert!(s.used_paste);
    assert_eq!(s.on_key_event(&release(false)), PasteAction::PasteLine(1));
    assert_eq!(s.on_key_event(&press(true)), PasteAction::AwaitKey);
    assert_eq!(s.on_key_event(&release(true)), PasteAction::PasteLine(2));
    assert_eq!(s.on_key_event(&press(true)), PasteAction::AwaitKey);
    assert_eq!(s.on_key_event(&release(true)), PasteAction::Finish);
    assert_eq!(s.current, 3);
    assert_eq!(s.on_key_event(&press(true)), PasteAction::Finish);
}

#[test]
fn release_without_ctrl_press_stays() {
    let (mut s, _) = PasteSession::start(2);
    assert_eq!(s.on_key_event(&release(true)), PasteAction::AwaitKey);
    assert_eq!(s.on_key_event(&press(false)), PasteAction::AwaitKey);
    assert_eq!(s.on_key_event(&release(true)), PasteAction::AwaitKey);
    assert_eq!(s.current, 0);
}

#[test]
fn lines_come_in_order() {
    let (mut s, first) = PasteSession::start(4);
    let mut pasted = vec![first];
    let events = [press(true), release(false), release(false), press(false), press(true), release(true), press(true), release(true), press(true), release(true)];
    for e in events.iter() {
        let a = s.on_key_event(e);
        if a != PasteAction::AwaitKey {
            pasted.push(a);
        }
    }
    assert_eq!(
        pasted,
        vec![
            PasteAction::PasteLine(0),
            PasteAction::PasteLine(1),
            PasteAction::PasteLine(2),
            PasteAction::PasteLine(3),
            PasteAction::Finish
        ]
    );
}

#[test]
fn listener_reports_leave_session_in_place() {
    let key = Key { code: 5 };
    let mut c = ControlContainer::new();
    let (mut s, _) = PasteSession::start(2);
    let raw = [
        InputEvent::KeyPress(Key::control_left()),
        InputEvent::KeyPress(key),
        InputEvent::KeyRelease(key),
        InputEvent::KeyPress(key),
        InputEvent::KeyRelease(key),
    ];
    for e in raw {
        if let Some(report) = c.process_event(key, e) {
            assert_eq!(s.on_key_event(&report), PasteAction::AwaitKey);
        }
    }
    assert_eq!(s.current, 0);
}

#[test]
fn timeout_is_strict() {
    assert!(!is_timed_out(7_000_000_000, 7));
    assert!(is_timed_out(7_000_000_001, 7));
    assert!(!is_timed_out(0, 0));
    assert!(is_timed_out(1, 0));
    assert!(!is_timed_out(u64::MAX as u128 * 1_000_000_000, u64::MAX));
}
