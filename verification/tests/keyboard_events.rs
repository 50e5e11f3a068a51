use cancersongpaster::keyboard::{ControlContainer, InputEvent, Key, KeyActionType, KeyEvent, KeyListener};

fn v() -> Key {
    Key { code: 7 }
}

fn ctrl() -> Key {
    Key::control_left()
}

#[test]
fn press_alone_reports_nothing() {
    let mut c = ControlContainer::new();
    assert_eq!(c.process_event(v(), InputEvent::KeyPress(v())), None);
    assert!(c.is_pressed);
    assert!(!c.is_ctrl);
}

#[test]
fn release_after_press_is_reported_as_release() {
    let mut c = ControlContainer::new();
    c.process_event(v(), InputEvent::KeyPress(v()));
    let r = c.process_event(v(), InputEvent::KeyRelease(v()));
    assert_eq!(
        r,
        Some(KeyEvent { key: v(), is_ctrl: false, action_type: KeyActionType::Release })
    );
    assert!(!c.is_pressed);
}

#[test]
fn release_without_press_reports_nothing() {
    let mut c = ControlContainer::new();
    assert_eq!(c.process_event(v(), InputEvent::KeyRelease(v())), None);
    assert_eq!(c, ControlContainer { is_ctrl: false, is_pressed: false });
}

#[test]
fn repeated_press_reports_one_release() {
    let mut c = ControlContainer::new();
    c.process_event(v(), InputEvent::KeyPress(v()));
    c.process_event(v(), InputEvent::KeyPress(v()));
    c.process_event(v(), InputEvent::KeyPress(v()));
    assert!(c.process_event(v(), InputEvent::KeyRelease(v())).is_some());
    assert!(c.process_event(v(), InputEvent::KeyRelease(v())).is_none());
}

#[test]
fn ctrl_state_is_carried() {
    let mut c = ControlContainer::new();
    c.process_event(v(), InputEvent::KeyPress(ctrl()));
    assert!(c.is_ctrl);
    c.process_event(v(), InputEvent::KeyPress(v()));
    let r = c.process_event(v(), InputEvent::KeyRelease(v())).unwrap();
    assert!(r.is_ctrl);
    c.process_event(v(), InputEvent::KeyRelease(ctrl()));
    assert!(!c.is_ctrl);
    c.process_event(v(), InputEvent::KeyPress(v()));
    let r = c.process_event(v(), InputEvent::KeyRelease(v())).unwrap();
    assert!(!r.is_ctrl);
}

#[test]
fn other_keys_and_events_change_nothing() {
    let mut c = ControlContainer::new();
    c.process_event(v(), InputEvent::KeyPress(v()));
    let before = c;
    assert_eq!(c.process_event(v(), InputEvent::KeyPress(Key { code: 9 })), None);
    assert_eq!(c.process_event(v(), InputEvent::KeyRelease(Key { code: 9 })), None);
    assert_eq!(c.process_event(v(), InputEvent::Other), None);
    assert_eq!(c, before);
}

#[test]
fn watching_control_itself() {
    let mut c = ControlContainer::new();
    c.process_event(ctrl(), InputEvent::KeyPress(ctrl()));
    assert!(c.is_ctrl && c.is_pressed);
    let r = c.process_event(ctrl(), InputEvent::KeyRelease(ctrl())).unwrap();
    assert!(!r.is_ctrl);
    assert_eq!(r.key, ctrl());
}

#[test]
fn every_report_is_a_release() {
    let mut c = ControlContainer::new();
    let events = [
        InputEvent::KeyPress(ctrl()),
        InputEvent::KeyPress(v()),
        InputEvent::KeyRelease(v()),
        InputEvent::KeyRelease(ctrl()),
        InputEvent::KeyPress(v()),
        InputEvent::KeyRelease(v()),
        InputEvent::KeyRelease(v()),
    ];
    let mut reports = Vec::new();
    for e in events {
        if let Some(r) = c.process_event(v(), e) {
            reports.push(r);
        }
    }
    assert_eq!(reports.len(), 2);
    assert!(reports.iter().all(|r| r.action_type == KeyActionType::Release && r.key == v()));
}

#[test]
fn listener_reports_releases_after_presses() {
    let mut l = KeyListener::new(v());
    let events = [
        InputEvent::KeyRelease(v()),
        InputEvent::KeyPress(v()),
        InputEvent::KeyPress(v()),
        InputEvent::KeyPress(ctrl()),
        InputEvent::KeyRelease(v()),
        InputEvent::KeyRelease(ctrl()),
        InputEvent::KeyPress(v()),
        InputEvent::KeyRelease(v()),
    ];
    let reports: Vec<KeyEvent> = events.iter().filter_map(|e| l.on_event(*e)).collect();
    assert_eq!(
        reports,
        vec![
            KeyEvent { key: v(), is_ctrl: true, action_type: KeyActionType::Release },
            KeyEvent { key: v(), is_ctrl: false, action_type: KeyActionType::Release },
        ]
    );
}
