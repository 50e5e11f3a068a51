//! The paste loop: which line goes to the clipboard, and when the next one
//! follows.

use vstd::prelude::*;
use crate::keyboard::{
    ControlContainer,
    InputEvent,
    Key,
    KeyActionType,
    KeyEvent,
    reports,
    reports_are_releases_of_the_key,
};

verus! {

/// What the program has to do next.
#[derive(Clone, Copy, Debug, PartialEq, Eq, Structural)]
pub enum PasteAction {
    /// Put the line with this index on the clipboard.
    PasteLine(usize),
    /// Wait for the next key event.
    AwaitKey,
    /// Every line has been pasted.
    Finish,
}

/// Progress through the lines of a song.
#[derive(Clone, Copy, Debug, PartialEq, Eq, Structural)]
pub struct PasteSession {
    /// How many lines there are.
    pub line_count: usize,
    /// The line on the clipboard; `line_count` once all are done.
    pub current: usize,
    /// Ctrl+V has been pressed since the current line went to the clipboard.
    pub used_paste: bool,
}

impl PasteSession {
    /// The session is consistent: it never runs past the last line.
    pub open spec fn wf(self) -> bool {
        self.current <= self.line_count
    }

    /// All lines have been pasted.
    pub open spec fn finished(self) -> bool {
        self.current >= self.line_count
    }

    /// The session after `event`.
    pub open spec fn next(self, event: KeyEvent) -> PasteSession {
        if self.finished() {
            self
        } else if event.action_type == KeyActionType::Press {
            PasteSession { used_paste: self.used_paste || event.is_ctrl, ..self }
        } else if self.used_paste {
            PasteSession { current: (self.current + 1) as usize, used_paste: false, ..self }
        } else {
            self
        }
    }

    /// The action that follows `event`.
    pub open spec fn action_after(self, event: KeyEvent) -> PasteAction {
        let n = self.next(event);
        if n.current == self.current {
            if self.finished() { PasteAction::Finish } else { PasteAction::AwaitKey }
        } else if n.finished() {
            PasteAction::Finish
        } else {
            PasteAction::PasteLine(n.current)
        }
    }

    /// Starts on a song of `line_count` lines and says what to do first.
    pub fn start(line_count: usize) -> (res: (PasteSession, PasteAction))
        ensures
            res.0.wf(),
            res.0.line_count == line_count,
            res.0.current == 0,
            !res.0.used_paste,
            line_count > 0 ==> res.1 == PasteAction::PasteLine(0),
            line_count == 0 ==> res.1 == PasteAction::Finish,
    {
        let s = PasteSession { line_count, current: 0, used_paste: false };
        if line_count > 0 {
            (s, PasteAction::PasteLine(0))
        } else {
            (s, PasteAction::Finish)
        }
    }

    /// Takes in one key event: a Ctrl+V press marks the current line as
    /// pasted, and the release that follows moves on to the next line.
    pub fn on_key_event(&mut self, event: &KeyEvent) -> (action: PasteAction)
        requires
            old(self).wf(),
        ensures
            final(self).wf(),
            *final(self) == old(self).next(*event),
            action == old(self).action_after(*event),
    {
        if self.current >= self.line_count {
            return PasteAction::Finish;
        }
        match event.action_type {
            KeyActionType::Press => {
                if event.is_ctrl {
                    self.used_paste = true;
                }
                PasteAction::AwaitKey
            },
            KeyActionType::Release => {
                if self.used_paste {
                    self.current = self.current + 1;
                    self.used_paste = false;
                    if self.current < self.line_count {
                        PasteAction::PasteLine(self.current)
                    } else {
                        PasteAction::Finish
                    }
                } else {
                    PasteAction::AwaitKey
                }
            },
        }
    }
}

/// The session after a sequence of key events.
pub open spec fn run_session(s: PasteSession, events: Seq<KeyEvent>) -> PasteSession
    decreases events.len(),
{
    if events.len() == 0 {
        s
    } else {
        run_session(s, events.drop_last()).next(events.last())
    }
}

/// The lines put on the clipboard along a sequence of key events, in order.
pub open spec fn pasted_lines(s: PasteSession, events: Seq<KeyEvent>) -> Seq<usize>
    decreases events.len(),
{
    if events.len() == 0 {
        seq![]
    } else {
        let before = run_session(s, events.drop_last());
        match before.action_after(events.last()) {
            PasteAction::PasteLine(i) => pasted_lines(s, events.drop_last()).push(i),
            _ => pasted_lines(s, events.drop_last()),
        }
    }
}

/// Lines go to the clipboard in order, each once: along any sequence of
/// key events, the lines pasted after the current one are the ones that
/// follow it, one after the other, and the session is on the last of them.
pub proof fn lines_pasted_in_order(s: PasteSession, events: Seq<KeyEvent>)
    requires
        s.wf(),
    ensures
        run_session(s, events).wf(),
        run_session(s, events).line_count == s.line_count,
        forall|i: int|
            0 <= i < pasted_lines(s, events).len() ==> #[trigger] pasted_lines(s, events)[i] == s.current
                + i + 1,
        pasted_lines(s, events).len() <= run_session(s, events).current - s.current,
        !run_session(s, events).finished() ==> pasted_lines(s, events).len() == run_session(
            s,
            events,
        ).current - s.current,
    decreases events.len(),
{
    if events.len() > 0 {
        lines_pasted_in_order(s, events.drop_last());
    }
}

/// The session moves on only on a release that follows a Ctrl press made
/// since the current line went to the clipboard; events without a Ctrl
/// press leave the current line where it is.
pub proof fn no_advance_without_ctrl_press(s: PasteSession, events: Seq<KeyEvent>)
    requires
        s.wf(),
        !s.used_paste,
        forall|i: int|
            0 <= i < events.len() ==> !((#[trigger] events[i]).action_type == KeyActionType::Press
                && events[i].is_ctrl),
    ensures
        run_session(s, events).current == s.current,
        !run_session(s, events).used_paste,
        pasted_lines(s, events).len() == 0,
    decreases events.len(),
{
    if events.len() > 0 {
        no_advance_without_ctrl_press(s, events.drop_last());
    }
}

/// Presses leave the session on its line, and once a Ctrl press has been
/// taken in on it, later presses, with or without Ctrl, leave that mark set.
pub proof fn presses_keep_the_line_and_the_ctrl_mark(s: PasteSession, presses: Seq<KeyEvent>)
    requires
        s.wf(),
        forall|i: int| 0 <= i < presses.len() ==> (#[trigger] presses[i]).action_type == KeyActionType::Press,
    ensures
        run_session(s, presses).current == s.current,
        run_session(s, presses).line_count == s.line_count,
        !s.finished() ==> (run_session(s, presses).used_paste <==> (s.used_paste || exists|i: int|
            0 <= i < presses.len() && (#[trigger] presses[i]).is_ctrl)),
    decreases presses.len(),
{
    if presses.len() > 0 {
        let before = presses.drop_last();
        let n = presses.len() - 1;
        assert forall|i: int| 0 <= i < before.len() implies (#[trigger] before[i]).action_type
            == KeyActionType::Press by {
            assert(before[i] == presses[i]);
        }
        presses_keep_the_line_and_the_ctrl_mark(s, before);
        assert(presses.last() == presses[n]);
        if !s.finished() {
            if exists|i: int| 0 <= i < presses.len() && (#[trigger] presses[i]).is_ctrl {
                let i = choose|i: int| 0 <= i < presses.len() && (#[trigger] presses[i]).is_ctrl;
                if i < n {
                    assert(before[i] == presses[i]);
                }
            }
            if exists|i: int| 0 <= i < before.len() && (#[trigger] before[i]).is_ctrl {
                let i = choose|i: int| 0 <= i < before.len() && (#[trigger] before[i]).is_ctrl;
                assert(presses[i] == before[i]);
            }
        }
    }
}

/// The paste gesture: on a line not yet done, presses of which at least one
/// comes with Ctrl, then a release, move the session on by exactly one line
/// and clear the mark; the action is to paste that next line, or to finish
/// after the last.
pub proof fn paste_gesture_moves_on(s: PasteSession, presses: Seq<KeyEvent>, release: KeyEvent)
    requires
        s.wf(),
        !s.finished(),
        forall|i: int| 0 <= i < presses.len() ==> (#[trigger] presses[i]).action_type == KeyActionType::Press,
        exists|i: int| 0 <= i < presses.len() && (#[trigger] presses[i]).is_ctrl,
        release.action_type == KeyActionType::Release,
    ensures
        run_session(s, presses.push(release)).current == s.current + 1,
        !run_session(s, presses.push(release)).used_paste,
        run_session(s, presses).action_after(release) == if s.current + 1 < s.line_count {
            PasteAction::PasteLine((s.current + 1) as usize)
        } else {
            PasteAction::Finish
        },
{
    presses_keep_the_line_and_the_ctrl_mark(s, presses);
    assert(presses.push(release).drop_last() =~= presses);
    assert(presses.push(release).last() == release);
}

/// The number of nanoseconds in a second.
pub const NANOS_PER_SECOND: u128 = 1_000_000_000;

/// Whether a run idle for `elapsed_nanos` nanoseconds has gone past a limit
/// of `timeout_secs` seconds.
pub fn is_timed_out(elapsed_nanos: u128, timeout_secs: u64) -> (res: bool)
    ensures
        res == (elapsed_nanos > timeout_secs * NANOS_PER_SECOND),
{
    let limit: u128 = (timeout_secs as u128) * NANOS_PER_SECOND;
    elapsed_nanos > limit
}

/// A defect of this program, kept as it is: the key listener reports only
/// releases of the watched key, never presses, while the session leaves a
/// line only after a Ctrl press has been reported. So a session fed with
/// nothing but the listener's reports never leaves the line it is on, and
/// the program never gets past the first line of a song (it ends through
/// the inactivity timeout instead).
pub proof fn listener_reports_never_advance(
    c: ControlContainer,
    key: Key,
    raw: Seq<InputEvent>,
    s: PasteSession,
)
    requires
        s.wf(),
        !s.used_paste,
    ensures
        run_session(s, reports(c, key, raw)).current == s.current,
        pasted_lines(s, reports(c, key, raw)).len() == 0,
{
    let events = reports(c, key, raw);
    reports_are_releases_of_the_key(c, key, raw);
    assert forall|i: int| 0 <= i < events.len() implies !((#[trigger] events[i]).action_type
        == KeyActionType::Press && events[i].is_ctrl) by {
        assert(events[i].action_type == KeyActionType::Release);
    }
    no_advance_without_ctrl_press(s, events);
}

} // verus!
