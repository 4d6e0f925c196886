//! The dictation session: a state machine that turns hotkey presses into
//! listening windows, tells the audio gate what the recognizer may hear, and
//! routes transcript events to the text injector.
//!
//! - **Idle**: the recognizer hears nothing and transcript events are ignored.
//! - **Listening**: microphone audio flows.
//! - **Draining**: the user ended the window; the recognizer hears silence until
//!   the trailing final event commits the last words, or a timer gives up on it.
//!
//! With cleanup on, nothing is typed while the user speaks: committed utterances
//! are buffered, and the whole window is cleaned and pasted as one edit. With
//! cleanup off, partials are typed live.
//!
//! Each entry point changes the state and returns the [`Action`]s to perform, in
//! order.

use vstd::prelude::*;

use crate::diarize::Line;
use crate::events::TranscriptEvent;
use crate::gate;
use crate::text;

verus! {

/// A buffered dictation longer than this many characters is flushed before the
/// window ends.
pub const MAX_BUFFER_CHARS: usize = 600;

/// How much longer than the silence threshold a drain may take.
pub const DRAIN_SLACK_MS: u64 = 800;

/// The event that carries the status to the window.
pub const STATUS_EVENT: &'static str = "status";

/// How the hotkey drives sessions.
#[derive(Clone, Copy, PartialEq, Eq, Structural, Debug)]
pub enum Mode {
    /// Press starts, release ends.
    PushToTalk,
    /// Each press starts or ends.
    Toggle,
}

/// Where a session stands.
#[derive(Clone, Copy, PartialEq, Eq, Structural, Debug)]
pub enum State {
    Idle,
    Listening,
    Draining,
}

/// What the status indicator is told.
#[derive(Clone, Copy, PartialEq, Eq, Structural, Debug)]
pub enum Status {
    /// The microphone is live and the model is warm.
    Ready,
    /// Activation came before that.
    Warming,
    /// A meeting is being transcribed.
    Meeting,
    /// A dictation is being cleaned.
    Cleaning,
    /// Whether a dictation is being listened to.
    Listening(bool),
}

impl Status {
    /// Whether the indicator shows that something is listened to.
    pub open spec fn shows_listening(self) -> bool {
        match self {
            Status::Meeting => true,
            Status::Listening(on) => on,
            _ => false,
        }
    }

    /// The name of the state that is told along with it, if any.
    pub open spec fn state_name(self) -> Option<Seq<char>> {
        match self {
            Status::Ready => Some("ready"@),
            Status::Warming => Some("warming"@),
            Status::Meeting => Some("meeting"@),
            Status::Cleaning => Some("cleaning"@),
            Status::Listening(_) => None,
        }
    }

    /// Whether the indicator shows that something is listened to.
    pub fn listening(self) -> (r: bool)
        ensures
            r == self.shows_listening(),
    {
        match self {
            Status::Meeting => true,
            Status::Listening(on) => on,
            _ => false,
        }
    }

    /// The name of the state that is told along with it, if any.
    pub fn state(self) -> (r: Option<&'static str>)
        ensures
            match r {
                Some(name) => self.state_name() == Some(name@),
                None => self.state_name() is None,
            },
    {
        match self {
            Status::Ready => Some("ready"),
            Status::Warming => Some("warming"),
            Status::Meeting => Some("meeting"),
            Status::Cleaning => Some("cleaning"),
            Status::Listening(_) => None,
        }
    }
}

/// Something for the host to do.
#[derive(Clone, Debug, PartialEq, Eq)]
pub enum Action<T> {
    /// Set the audio gate.
    SetGate(u8),
    /// Tell the status indicator.
    Tell(Status),
    /// Show or hide the floating pill.
    Pill(bool),
    /// Inject a live partial.
    Partial(T),
    /// Inject a final text.
    Commit(T),
    /// Drop the injector's tracking.
    ResetInjector,
    /// Bring the cleanup model up, in the background.
    WarmCleaner,
    /// After so many milliseconds, report that the drain of this generation is
    /// over time.
    StartDrainTimer { generation: u64, after_ms: u64 },
    /// Clean a dictation, in the background, and report the outcome.
    Clean { raw: T, hide_pill: bool },
    /// Record the meeting under this file name.
    StartRecording(T),
    /// Stop recording and report what was recorded.
    StopRecording,
    /// Show the transcript window.
    ShowTranscript,
}

/// An action, its text as characters.
pub open spec fn action_text(a: Action<String>) -> Action<Seq<char>> {
    match a {
        Action::SetGate(mode) => Action::SetGate(mode),
        Action::Tell(status) => Action::Tell(status),
        Action::Pill(visible) => Action::Pill(visible),
        Action::Partial(t) => Action::Partial(t@),
        Action::Commit(t) => Action::Commit(t@),
        Action::ResetInjector => Action::ResetInjector,
        Action::WarmCleaner => Action::WarmCleaner,
        Action::StartDrainTimer { generation, after_ms } => Action::StartDrainTimer {
            generation,
            after_ms,
        },
        Action::Clean { raw, hide_pill } => Action::Clean { raw: raw@, hide_pill },
        Action::StartRecording(name) => Action::StartRecording(name@),
        Action::StopRecording => Action::StopRecording,
        Action::ShowTranscript => Action::ShowTranscript,
    }
}

/// Actions, their texts as characters.
pub open spec fn action_texts(v: Seq<Action<String>>) -> Seq<Action<Seq<char>>> {
    v.map_values(|a: Action<String>| action_text(a))
}

/// A session as a value.
#[verifier::ext_equal]
pub struct Model {
    pub state: State,
    pub mode: Mode,
    /// The microphone is live and the model is warm.
    pub ready: bool,
    /// A meeting is being transcribed: capture is continuous, nothing is injected,
    /// and the hotkey does nothing.
    pub meeting: bool,
    /// The committed lines of the meeting.
    pub lines: Seq<crate::diarize::Span>,
    /// The application that a meeting was noticed in.
    pub detected: Option<Seq<char>>,
    pub gate: u8,
    /// There is an injector.
    pub injector: bool,
    /// There is a cleanup model.
    pub cleaner: bool,
    /// The user wants cleanup.
    pub cleanup: bool,
    /// The committed utterances of this window, not yet pasted.
    pub buffer: Seq<Seq<char>>,
    /// The last partial that no final has superseded.
    pub last_partial: Option<Seq<char>>,
    /// Tells drains apart.
    pub generation: u64,
    pub drain_timeout_ms: u64,
}

/// The audio gate that goes with a state.
pub open spec fn gate_of(s: State) -> u8 {
    match s {
        State::Idle => gate::NONE,
        State::Listening => gate::REAL,
        State::Draining => gate::SILENCE,
    }
}

/// The next number, zero after the last one.
pub open spec fn succ(n: u64) -> u64 {
    if n == u64::MAX {
        0
    } else {
        (n + 1) as u64
    }
}

/// What a step leads to: the state after it and the actions to perform.
pub struct Step {
    pub next: Model,
    pub actions: Seq<Action<Seq<char>>>,
}

impl Model {
    /// Whether the session is consistent: the recognizer hears the microphone
    /// exactly while listening, silence exactly while draining and nothing
    /// otherwise; a meeting listens throughout; and nothing is listened to before
    /// the pipeline is ready.
    pub open spec fn wf(self) -> bool {
        &&& self.gate == gate_of(self.state)
        &&& self.meeting ==> self.state == State::Listening
        &&& self.state != State::Idle ==> self.ready
        &&& contiguous(self.lines)
    }

    /// Whether dictations are buffered for cleanup instead of typed live.
    pub open spec fn buffering(self) -> bool {
        self.cleaner && self.cleanup
    }

    /// Nothing happens.
    pub open spec fn stay(self) -> Step {
        Step { next: self, actions: seq![] }
    }

    /// A listening window opens, unless one is open or the pipeline is not ready.
    pub open spec fn start(self) -> Step {
        if !self.ready {
            Step { next: self, actions: seq![Action::Tell(Status::Warming)] }
        } else if self.state == State::Listening {
            self.stay()
        } else {
            Step {
                next: Model {
                    state: State::Listening,
                    gate: gate::REAL,
                    generation: succ(self.generation),
                    last_partial: None,
                    buffer: seq![],
                    ..self
                },
                actions: (if self.injector {
                    seq![Action::ResetInjector]
                } else {
                    seq![]
                }) + (if self.cleaner {
                    seq![Action::WarmCleaner]
                } else {
                    seq![]
                }) + seq![
                    Action::SetGate(gate::REAL),
                    Action::Tell(Status::Listening(true)),
                    Action::Pill(true),
                ],
            }
        }
    }

    /// An open window ends: the recognizer hears silence, and a timer bounds the
    /// wait for its last words.
    pub open spec fn stop(self) -> Step {
        if self.state != State::Listening {
            self.stay()
        } else {
            Step {
                next: Model {
                    state: State::Draining,
                    gate: gate::SILENCE,
                    generation: succ(self.generation),
                    ..self
                },
                actions: seq![
                    Action::SetGate(gate::SILENCE),
                    Action::Tell(Status::Listening(false)),
                    Action::StartDrainTimer {
                        generation: succ(self.generation),
                        after_ms: self.drain_timeout_ms,
                    },
                ],
            }
        }
    }

    /// The hotkey goes down.
    pub open spec fn press(self) -> Step {
        if self.meeting {
            self.stay()
        } else if self.mode == Mode::Toggle && self.state == State::Listening {
            self.stop()
        } else {
            self.start()
        }
    }

    /// The hotkey goes up.
    pub open spec fn release(self) -> Step {
        if !self.meeting && self.mode == Mode::PushToTalk {
            self.stop()
        } else {
            self.stay()
        }
    }

    /// What is done with the buffered utterances: cleaned and pasted as one text,
    /// if there is any text.
    pub open spec fn clean_buffer(self, hide_pill: bool) -> Seq<Action<Seq<char>>> {
        let raw = text::joined(self.buffer);
        if text::is_blank(raw) {
            if hide_pill {
                seq![Action::Pill(false)]
            } else {
                seq![]
            }
        } else {
            seq![Action::Tell(Status::Cleaning), Action::Clean { raw, hide_pill }]
        }
    }

    /// The dictation is over. Without cleanup its text has been typed already.
    pub open spec fn finish(self) -> Step {
        if self.buffering() {
            Step { next: Model { buffer: seq![], ..self }, actions: self.clean_buffer(true) }
        } else {
            Step { next: self, actions: seq![Action::Pill(false)] }
        }
    }

    /// A long dictation is pasted before it is over.
    pub open spec fn flush(self) -> Step {
        if self.buffering() {
            Step { next: Model { buffer: seq![], ..self }, actions: self.clean_buffer(false) }
        } else {
            self.stay()
        }
    }

    /// A drain ends: the session goes idle, and the dictation is over.
    pub open spec fn go_idle(self) -> Step {
        let idle = Model { state: State::Idle, gate: gate::NONE, ..self };
        Step {
            next: idle.finish().next,
            actions: seq![Action::SetGate(gate::NONE), Action::Tell(Status::Listening(false))]
                + idle.finish().actions,
        }
    }

    /// A partial transcript arrives in an open window.
    pub open spec fn take_partial(self, t: Seq<char>) -> Step {
        Step {
            next: Model { last_partial: Some(t), ..self },
            actions: if !self.buffering() && self.injector {
                seq![Action::Partial(t)]
            } else {
                seq![]
            },
        }
    }

    /// What becomes of a final text: it is buffered, or injected at once.
    pub open spec fn keep_final(self, t: Seq<char>) -> Step {
        if self.buffering() {
            Step {
                next: Model { buffer: self.buffer.push(t), last_partial: None, ..self },
                actions: seq![],
            }
        } else {
            Step {
                next: Model { last_partial: None, ..self },
                actions: if self.injector {
                    seq![Action::Commit(t)]
                } else {
                    seq![]
                },
            }
        }
    }

    /// A final transcript arrives in an open window. It ends a drain; while
    /// listening it only commits an utterance.
    pub open spec fn take_final(self, t: Seq<char>) -> Step {
        let kept = self.keep_final(t);
        let after = if self.state == State::Draining {
            Model { generation: succ(self.generation), ..kept.next }.go_idle()
        } else if text::joined(kept.next.buffer).len() > MAX_BUFFER_CHARS {
            kept.next.flush()
        } else {
            kept.next.stay()
        };
        Step { next: after.next, actions: kept.actions + after.actions }
    }

    /// A transcript event arrives, `elapsed_ms` into the meeting if there is one.
    pub open spec fn event(self, ev: crate::events::Event, elapsed_ms: u64) -> Step {
        if self.meeting {
            if ev.is_final {
                Step {
                    next: Model {
                        lines: self.lines.push(
                            crate::diarize::Span {
                                start_ms: meeting_end(self.lines),
                                end_ms: elapsed_ms,
                                text: ev.text,
                            },
                        ),
                        ..self
                    },
                    actions: seq![],
                }
            } else {
                self.stay()
            }
        } else if self.state == State::Idle {
            self.stay()
        } else if ev.is_final {
            self.take_final(ev.text)
        } else {
            self.take_partial(ev.text)
        }
    }

    /// The timer of a drain fires. If that drain is still waiting, its last partial
    /// is the best record of what was said, and stands in for the final.
    pub open spec fn drain_timeout(self, generation: u64) -> Step {
        if self.state != State::Draining || self.generation != generation {
            self.stay()
        } else {
            let salvaged = match self.last_partial {
                Some(t) => self.keep_final(t),
                None => Step {
                    next: self,
                    actions: if self.injector {
                        seq![Action::ResetInjector]
                    } else {
                        seq![]
                    },
                },
            };
            let done = Model { state: State::Idle, gate: gate::NONE, ..salvaged.next }.finish();
            Step {
                next: done.next,
                actions: seq![Action::SetGate(gate::NONE)] + salvaged.actions + seq![
                    Action::Tell(Status::Listening(false)),
                ] + done.actions,
            }
        }
    }

    /// A cleaned dictation comes back. What is pasted is the cleaned text, or the
    /// dictation itself if there is none.
    pub open spec fn cleaned(
        self,
        raw: Seq<char>,
        cleaned: Option<Seq<char>>,
        hide_pill: bool,
    ) -> Seq<Action<Seq<char>>> {
        (if self.injector {
            seq![
                Action::Commit(
                    match cleaned {
                        Some(t) => t,
                        None => raw,
                    },
                ),
            ]
        } else {
            seq![]
        }) + (if hide_pill {
            seq![Action::Pill(false)]
        } else {
            seq![]
        })
    }

    /// A meeting begins at `now_secs`, unless the pipeline is not ready.
    pub open spec fn begin_meeting(self, now_secs: u64) -> Step {
        if !self.ready {
            Step { next: self, actions: seq![Action::Tell(Status::Warming)] }
        } else {
            Step {
                next: Model {
                    meeting: true,
                    state: State::Listening,
                    lines: seq![],
                    gate: gate::REAL,
                    ..self
                },
                actions: seq![
                    Action::StartRecording(recording_name(now_secs)),
                    Action::SetGate(gate::REAL),
                    Action::ShowTranscript,
                    Action::Tell(Status::Meeting),
                ],
            }
        }
    }

    /// A meeting ends. Its lines stay until the recording is in.
    pub open spec fn end_meeting(self) -> Step {
        Step {
            next: Model { meeting: false, state: State::Idle, gate: gate::NONE, ..self },
            actions: seq![
                Action::SetGate(gate::NONE),
                Action::Tell(Status::Listening(false)),
                Action::StopRecording,
            ],
        }
    }
}

/// The file name under which a meeting is recorded.
pub open spec fn recording_name(now_secs: u64) -> Seq<char> {
    "matalu-meeting-"@ + text::decimal(now_secs as nat) + ".wav"@
}

/// When the last line of a meeting ended; zero before the first.
pub open spec fn meeting_end(lines: Seq<crate::diarize::Span>) -> u64 {
    if lines.len() == 0 {
        0
    } else {
        lines.last().end_ms
    }
}

/// Whether the lines of a meeting cover it without gaps: the first begins at
/// zero, and each other one where the one before it ends.
pub open spec fn contiguous(lines: Seq<crate::diarize::Span>) -> bool {
    forall|i: int|
        0 <= i < lines.len() ==> (#[trigger] lines[i]).start_ms == meeting_end(lines.take(i))
}

/// The texts of lines.
pub open spec fn spans(lines: Seq<Line>) -> Seq<crate::diarize::Span> {
    lines.map_values(|l: Line| l@)
}

/// More words joined make no shorter text.
proof fn lemma_joined_grows(ws: Seq<Seq<char>>, n: int)
    requires
        0 <= n <= ws.len(),
    ensures
        text::joined(ws.take(n)).len() <= text::joined(ws).len(),
    decreases ws.len(),
{
    if n == ws.len() {
        assert(ws.take(n) =~= ws);
    } else if ws.len() == 1 {
        assert(ws.take(n) =~= seq![]);
    } else {
        assert(ws.drop_last().take(n) =~= ws.take(n));
        lemma_joined_grows(ws.drop_last(), n);
    }
}

/// Whether the buffered utterances, joined, are longer than a dictation may get
/// before it is flushed.
pub fn buffer_over_cap(buf: &[String]) -> (r: bool)
    ensures
        r == (text::joined(text::texts(buf@)).len() > MAX_BUFFER_CHARS),
{
    let ghost all = text::texts(buf@);
    let mut total: usize = 0;
    let mut i: usize = 0;
    assert(all.take(0) =~= seq![]);
    while i < buf.len()
        invariant
            i <= buf@.len(),
            all == text::texts(buf@),
            total == text::joined(all.take(i as int)).len(),
            total <= MAX_BUFFER_CHARS,
        decreases buf@.len() - i,
    {
        let ghost next = all.take(i + 1);
        assert(next.drop_last() =~= all.take(i as int));
        assert(next.last() == buf@[i as int]@);
        let spaces: usize = if i == 0 {
            0
        } else {
            1
        };
        let n = buf[i].as_str().unicode_len();
        assert(text::joined(next).len() == total + spaces + n);
        proof {
            lemma_joined_grows(all, i + 1);
        }
        if total + spaces > MAX_BUFFER_CHARS || n > MAX_BUFFER_CHARS - (total + spaces) {
            return true;
        }
        total = total + spaces + n;
        i = i + 1;
    }
    assert(all.take(buf@.len() as int) =~= all);
    false
}

/// A dictation session.
pub struct Session {
    state: State,
    mode: Mode,
    ready: bool,
    meeting: bool,
    lines: Vec<Line>,
    detected: Option<&'static str>,
    gate: u8,
    injector: bool,
    cleaner: bool,
    cleanup: bool,
    buffer: Vec<String>,
    last_partial: Option<String>,
    generation: u64,
    drain_timeout_ms: u64,
}

impl View for Session {
    type V = Model;

    closed spec fn view(&self) -> Model {
        Model {
            state: self.state,
            mode: self.mode,
            ready: self.ready,
            meeting: self.meeting,
            lines: spans(self.lines@),
            detected: match self.detected {
                Some(app) => Some(app@),
                None => None,
            },
            gate: self.gate,
            injector: self.injector,
            cleaner: self.cleaner,
            cleanup: self.cleanup,
            buffer: text::texts(self.buffer@),
            last_partial: text::opt_text(self.last_partial),
            generation: self.generation,
            drain_timeout_ms: self.drain_timeout_ms,
        }
    }
}

impl Session {
    /// An idle session that is not ready yet. `injector` and `cleaner` tell whether
    /// there is one, `cleanup` whether the user wants dictations cleaned, and
    /// `silence_ms` how long a silence ends an utterance.
    pub fn new(
        injector: bool,
        cleaner: bool,
        cleanup: bool,
        mode: Mode,
        silence_ms: u64,
    ) -> (r: Self)
        requires
            silence_ms + DRAIN_SLACK_MS <= u64::MAX,
        ensures
            r@ == (Model {
                state: State::Idle,
                mode,
                ready: false,
                meeting: false,
                lines: seq![],
                detected: None,
                gate: gate::NONE,
                injector,
                cleaner,
                cleanup,
                buffer: seq![],
                last_partial: None,
                generation: 0,
                drain_timeout_ms: (silence_ms + DRAIN_SLACK_MS) as u64,
            }),
            r@.wf(),
    {
        let r = Session {
            state: State::Idle,
            mode,
            ready: false,
            meeting: false,
            lines: Vec::new(),
            detected: None,
            gate: gate::NONE,
            injector,
            cleaner,
            cleanup,
            buffer: Vec::new(),
            last_partial: None,
            generation: 0,
            drain_timeout_ms: silence_ms + DRAIN_SLACK_MS,
        };
        assert(r@.lines =~= seq![]);
        assert(r@.buffer =~= seq![]);
        r
    }

    /// Changes how the hotkey drives the session.
    pub fn set_mode(&mut self, mode: Mode)
        ensures
            final(self)@ == (Model { mode, ..old(self)@ }),
    {
        self.mode = mode;
    }

    /// Turns cleanup on or off.
    pub fn set_cleanup(&mut self, on: bool)
        ensures
            final(self)@ == (Model { cleanup: on, ..old(self)@ }),
    {
        self.cleanup = on;
    }

    /// Takes note of the application that a meeting was noticed in, or that there
    /// is none.
    pub fn set_meeting_detected(&mut self, app: Option<&'static str>)
        ensures
            final(self)@ == (Model {
                detected: match app {
                    Some(name) => Some(name@),
                    None => None,
                },
                ..old(self)@
            }),
    {
        self.detected = app;
    }

    /// Whether a meeting was noticed.
    pub fn meeting_detected(&self) -> (r: bool)
        ensures
            r == (self@.detected is Some),
    {
        self.detected.is_some()
    }

    /// Whether a meeting is being transcribed.
    pub fn is_meeting(&self) -> (r: bool)
        ensures
            r == self@.meeting,
    {
        self.meeting
    }

    fn cleanup_on(&self) -> (r: bool)
        ensures
            r == self@.buffering(),
    {
        self.cleaner && self.cleanup
    }

    /// The microphone is live and the model is warm: from now on activation counts.
    pub fn mark_ready(&mut self) -> (r: Vec<Action<String>>)
        ensures
            final(self)@ == (Model { ready: true, ..old(self)@ }),
            action_texts(r@) == seq![Action::<Seq<char>>::Tell(Status::Ready)],
            old(self)@.wf() ==> final(self)@.wf(),
    {
        self.ready = true;
        let mut out: Vec<Action<String>> = Vec::new();
        out.push(Action::Tell(Status::Ready));
        assert(action_texts(out@) =~= seq![Action::<Seq<char>>::Tell(Status::Ready)]);
        out
    }
}

/// Adds an action to a list.
fn push(out: &mut Vec<Action<String>>, a: Action<String>)
    ensures
        action_texts(final(out)@) == action_texts(old(out)@).push(action_text(a)),
{
    out.push(a);
    assert(action_texts(out@) =~= action_texts(old(out)@).push(action_text(a)));
}

/// An empty list of actions.
fn no_actions() -> (r: Vec<Action<String>>)
    ensures
        action_texts(r@) == Seq::<Action<Seq<char>>>::empty(),
{
    let r: Vec<Action<String>> = Vec::new();
    assert(action_texts(r@) =~= Seq::<Action<Seq<char>>>::empty());
    r
}

impl Session {
    fn start(&mut self, out: &mut Vec<Action<String>>)
        ensures
            final(self)@ == old(self)@.start().next,
            action_texts(final(out)@) == action_texts(old(out)@) + old(self)@.start().actions,
    {
        let ghost before = action_texts(out@);
        if !self.ready {
            push(out, Action::Tell(Status::Warming));
            assert(action_texts(out@) =~= before + old(self)@.start().actions);
            return;
        }
        if self.state == State::Listening {
            assert(action_texts(out@) =~= before + old(self)@.start().actions);
            return;
        }
        self.state = State::Listening;
        self.generation = self.generation.wrapping_add(1);
        self.last_partial = None;
        self.buffer = Vec::new();
        if self.injector {
            push(out, Action::ResetInjector);
        }
        if self.cleaner {
            push(out, Action::WarmCleaner);
        }
        self.gate = gate::REAL;
        push(out, Action::SetGate(gate::REAL));
        push(out, Action::Tell(Status::Listening(true)));
        push(out, Action::Pill(true));
        assert(action_texts(out@) =~= before + old(self)@.start().actions);
        assert(self@.buffer =~= seq![]);
    }

    fn stop(&mut self, out: &mut Vec<Action<String>>)
        ensures
            final(self)@ == old(self)@.stop().next,
            action_texts(final(out)@) == action_texts(old(out)@) + old(self)@.stop().actions,
    {
        let ghost before = action_texts(out@);
        if self.state != State::Listening {
            assert(action_texts(out@) =~= before + old(self)@.stop().actions);
            return;
        }
        self.state = State::Draining;
        self.gate = gate::SILENCE;
        self.generation = self.generation.wrapping_add(1);
        push(out, Action::SetGate(gate::SILENCE));
        push(out, Action::Tell(Status::Listening(false)));
        push(
            out,
            Action::StartDrainTimer {
                generation: self.generation,
                after_ms: self.drain_timeout_ms,
            },
        );
        assert(action_texts(out@) =~= before + old(self)@.stop().actions);
    }

    /// The hotkey went down. While a meeting is transcribed it does nothing.
    pub fn on_press(&mut self) -> (r: Vec<Action<String>>)
        ensures
            final(self)@ == old(self)@.press().next,
            action_texts(r@) == old(self)@.press().actions,
            old(self)@.wf() ==> final(self)@.wf(),
    {
        let mut out = no_actions();
        if !self.meeting {
            match self.mode {
                Mode::PushToTalk => self.start(&mut out),
                Mode::Toggle => {
                    if self.state == State::Listening {
                        self.stop(&mut out);
                    } else {
                        self.start(&mut out);
                    }
                },
            }
        }
        assert(action_texts(out@) =~= old(self)@.press().actions);
        out
    }

    /// The hotkey went up, which only matters if it is held to talk.
    pub fn on_release(&mut self) -> (r: Vec<Action<String>>)
        ensures
            final(self)@ == old(self)@.release().next,
            action_texts(r@) == old(self)@.release().actions,
            old(self)@.wf() ==> final(self)@.wf(),
    {
        let mut out = no_actions();
        if !self.meeting && self.mode == Mode::PushToTalk {
            self.stop(&mut out);
        }
        assert(action_texts(out@) =~= old(self)@.release().actions);
        out
    }

    /// Takes the buffered utterances, joined by spaces.
    fn take_buffer(&mut self) -> (r: String)
        ensures
            r@ == text::joined(old(self)@.buffer),
            final(self)@ == (Model { buffer: seq![], ..old(self)@ }),
    {
        let raw = text::join_words(&self.buffer);
        self.buffer = Vec::new();
        assert(self@.buffer =~= seq![]);
        raw
    }

    fn clean_buffer(&mut self, hide_pill: bool, out: &mut Vec<Action<String>>)
        ensures
            final(self)@ == (Model { buffer: seq![], ..old(self)@ }),
            action_texts(final(out)@) == action_texts(old(out)@) + old(self)@.clean_buffer(
                hide_pill,
            ),
    {
        let ghost before = action_texts(out@);
        let raw = self.take_buffer();
        if text::blank(raw.as_str()) {
            if hide_pill {
                push(out, Action::Pill(false));
            }
        } else {
            push(out, Action::Tell(Status::Cleaning));
            push(out, Action::Clean { raw, hide_pill });
        }
        assert(action_texts(out@) =~= before + old(self)@.clean_buffer(hide_pill));
    }

    fn finish_dictation(&mut self, out: &mut Vec<Action<String>>)
        ensures
            final(self)@ == old(self)@.finish().next,
            action_texts(final(out)@) == action_texts(old(out)@) + old(self)@.finish().actions,
    {
        let ghost before = action_texts(out@);
        if self.cleanup_on() {
            self.clean_buffer(true, out);
        } else {
            push(out, Action::Pill(false));
            assert(action_texts(out@) =~= before + old(self)@.finish().actions);
        }
    }

    fn flush_long_session(&mut self, out: &mut Vec<Action<String>>)
        ensures
            final(self)@ == old(self)@.flush().next,
            action_texts(final(out)@) == action_texts(old(out)@) + old(self)@.flush().actions,
    {
        let ghost before = action_texts(out@);
        if self.cleanup_on() {
            self.clean_buffer(false, out);
        } else {
            assert(action_texts(out@) =~= before + old(self)@.flush().actions);
        }
    }

    fn keep_final(&mut self, text: String, out: &mut Vec<Action<String>>)
        ensures
            final(self)@ == old(self)@.keep_final(text@).next,
            action_texts(final(out)@) == action_texts(old(out)@) + old(self)@.keep_final(
                text@,
            ).actions,
    {
        let ghost before = action_texts(out@);
        let ghost t = text@;
        self.last_partial = None;
        if self.cleanup_on() {
            self.buffer.push(text);
            assert(self@.buffer =~= old(self)@.buffer.push(t));
        } else if self.injector {
            push(out, Action::Commit(text));
        }
        assert(action_texts(out@) =~= before + old(self)@.keep_final(t).actions);
    }

    /// A transcript event arrived. `elapsed_ms` is how much of the meeting has been
    /// recorded; it only matters while there is one.
    pub fn on_event(&mut self, ev: &TranscriptEvent, elapsed_ms: u64) -> (r: Vec<Action<String>>)
        ensures
            final(self)@ == old(self)@.event(ev@, elapsed_ms).next,
            action_texts(r@) == old(self)@.event(ev@, elapsed_ms).actions,
            old(self)@.wf() ==> final(self)@.wf(),
    {
        let mut out = no_actions();
        let ghost pre = self@;
        let ghost step = pre.event(ev@, elapsed_ms);
        if self.meeting {
            if let TranscriptEvent::Final { text, .. } = ev {
                let start_ms: u64 = if self.lines.len() == 0 {
                    0
                } else {
                    self.lines[self.lines.len() - 1].end_ms
                };
                self.lines.push(Line { start_ms, end_ms: elapsed_ms, text: text.clone() });
                assert(self@.lines =~= step.next.lines);
                proof {
                    lemma_contiguous_push(pre.lines, step.next.lines.last());
                }
            }
            return out;
        }
        if self.state == State::Idle {
            return out;
        }
        match ev {
            TranscriptEvent::Partial { text, .. } => {
                if !self.cleanup_on() && self.injector {
                    push(&mut out, Action::Partial(text.clone()));
                }
                self.last_partial = Some(text.clone());
                assert(action_texts(out@) =~= step.actions);
            },
            TranscriptEvent::Final { text, .. } => {
                self.keep_final(text.clone(), &mut out);
                let ghost kept = pre.keep_final(text@);
                if self.state == State::Draining {
                    self.state = State::Idle;
                    self.gate = gate::NONE;
                    self.generation = self.generation.wrapping_add(1);
                    push(&mut out, Action::SetGate(gate::NONE));
                    push(&mut out, Action::Tell(Status::Listening(false)));
                    self.finish_dictation(&mut out);
                } else if buffer_over_cap(self.buffer.as_slice()) {
                    self.flush_long_session(&mut out);
                }
                assert(action_texts(out@) =~= step.actions);
            },
        }
        out
    }

    /// The timer of a drain fired. A drain that has ended, or was superseded by a
    /// newer window, is left alone.
    pub fn on_drain_timeout(&mut self, generation: u64) -> (r: Vec<Action<String>>)
        ensures
            final(self)@ == old(self)@.drain_timeout(generation).next,
            action_texts(r@) == old(self)@.drain_timeout(generation).actions,
            old(self)@.wf() ==> final(self)@.wf(),
    {
        let mut out = no_actions();
        let ghost pre = self@;
        let ghost step = pre.drain_timeout(generation);
        if self.state != State::Draining || self.generation != generation {
            return out;
        }
        self.state = State::Idle;
        self.gate = gate::NONE;
        push(&mut out, Action::SetGate(gate::NONE));
        match self.last_partial.take() {
            Some(text) => self.keep_final(text, &mut out),
            None => {
                if self.injector {
                    push(&mut out, Action::ResetInjector);
                }
            },
        }
        push(&mut out, Action::Tell(Status::Listening(false)));
        self.finish_dictation(&mut out);
        assert(action_texts(out@) =~= step.actions);
        out
    }

    /// A dictation came back from cleanup, with nothing if it was rejected or
    /// failed: then the dictation itself is pasted, so that no words are lost.
    pub fn on_cleaned(&self, raw: String, cleaned: Option<String>, hide_pill: bool) -> (r: Vec<
        Action<String>,
    >)
        ensures
            action_texts(r@) == self@.cleaned(
                raw@,
                text::opt_text(cleaned),
                hide_pill,
            ),
    {
        let ghost expected = self@.cleaned(raw@, text::opt_text(cleaned), hide_pill);
        let mut out = no_actions();
        let text = match cleaned {
            Some(t) => t,
            None => raw,
        };
        if self.injector {
            push(&mut out, Action::Commit(text));
        }
        if hide_pill {
            push(&mut out, Action::Pill(false));
        }
        assert(action_texts(out@) =~= expected);
        out
    }

    /// Starts transcribing a meeting: capture runs throughout, the transcript is
    /// shown and nothing is injected. Does nothing until the pipeline is ready.
    pub fn start_meeting(&mut self, now_secs: u64) -> (r: Vec<Action<String>>)
        ensures
            final(self)@ == old(self)@.begin_meeting(now_secs).next,
            action_texts(r@) == old(self)@.begin_meeting(now_secs).actions,
            old(self)@.wf() ==> final(self)@.wf(),
    {
        let mut out = no_actions();
        let ghost step = self@.begin_meeting(now_secs);
        if !self.ready {
            push(&mut out, Action::Tell(Status::Warming));
            assert(action_texts(out@) =~= step.actions);
            return out;
        }
        self.meeting = true;
        self.state = State::Listening;
        self.lines = Vec::new();
        self.gate = gate::REAL;
        let mut name = "matalu-meeting-".to_owned();
        name.append(text::to_decimal(now_secs).as_str());
        name.append(".wav");
        push(&mut out, Action::StartRecording(name));
        push(&mut out, Action::SetGate(gate::REAL));
        push(&mut out, Action::ShowTranscript);
        push(&mut out, Action::Tell(Status::Meeting));
        assert(action_texts(out@) =~= step.actions);
        assert(self@.lines =~= seq![]);
        out
    }

    /// Stops transcribing a meeting.
    pub fn stop_meeting(&mut self) -> (r: Vec<Action<String>>)
        ensures
            final(self)@ == old(self)@.end_meeting().next,
            action_texts(r@) == old(self)@.end_meeting().actions,
            old(self)@.wf() ==> final(self)@.wf(),
    {
        let mut out = no_actions();
        self.meeting = false;
        self.state = State::Idle;
        self.gate = gate::NONE;
        push(&mut out, Action::SetGate(gate::NONE));
        push(&mut out, Action::Tell(Status::Listening(false)));
        push(&mut out, Action::StopRecording);
        assert(action_texts(out@) =~= old(self)@.end_meeting().actions);
        out
    }

    /// The recording of the meeting came in, or there is none. Returns what is to
    /// be diarized: the recording and the lines, if there are both. The lines are
    /// gone after this.
    pub fn on_recorded<P>(&mut self, recording: Option<P>) -> (r: Option<(P, Vec<Line>)>)
        ensures
            final(self)@ == (Model { lines: seq![], ..old(self)@ }),
            match r {
                Some((path, lines)) => recording == Some(path) && spans(lines@) == old(
                    self,
                )@.lines && lines@.len() > 0,
                None => recording is None || old(self)@.lines.len() == 0,
            },
            old(self)@.wf() ==> final(self)@.wf(),
    {
        let mut lines: Vec<Line> = Vec::new();
        std::mem::swap(&mut lines, &mut self.lines);
        assert(self@.lines =~= seq![]);
        match recording {
            Some(path) => {
                if lines.len() > 0 {
                    Some((path, lines))
                } else {
                    None
                }
            },
            None => None,
        }
    }
}

/// A line that begins where the meeting's last one ends keeps it without gaps.
proof fn lemma_contiguous_push(lines: Seq<crate::diarize::Span>, l: crate::diarize::Span)
    requires
        l.start_ms == meeting_end(lines),
    ensures
        contiguous(lines) ==> contiguous(lines.push(l)),
{
    if contiguous(lines) {
        let all = lines.push(l);
        assert forall|i: int| 0 <= i < all.len() implies (#[trigger] all[i]).start_ms
            == meeting_end(all.take(i)) by {
            if i < lines.len() {
                assert(all[i] == lines[i]);
                assert(all.take(i) =~= lines.take(i));
            } else {
                assert(all.take(i) =~= lines);
            }
        }
    }
}

/// Whether an action types into the focused application.
pub open spec fn types_text(a: Action<Seq<char>>) -> bool {
    a is Partial || a is Commit
}

/// Whether a step announces the audio gate it leaves behind: every gate it sets is that
/// one, and it sets it if it changed.
pub open spec fn announces_gate(before: Model, step: Step) -> bool {
    &&& forall|i: int|
        0 <= i < step.actions.len() && #[trigger] step.actions[i] is SetGate ==> step.actions[i]
            == Action::<Seq<char>>::SetGate(step.next.gate)
    &&& step.next.gate != before.gate ==> exists|i: int|
        0 <= i < step.actions.len() && #[trigger] step.actions[i] == Action::<Seq<char>>::SetGate(
            step.next.gate,
        )
}

/// In a consistent session the recognizer hears the microphone exactly while the
/// session listens, and nothing at all exactly while it is idle.
pub proof fn law_microphone_is_heard_only_while_listening(s: Model)
    requires
        s.wf(),
    ensures
        s.gate == gate::REAL <==> s.state == State::Listening,
        s.gate == gate::SILENCE <==> s.state == State::Draining,
        s.gate == gate::NONE <==> s.state == State::Idle,
        s.gate == gate::REAL ==> s.ready,
{
}

/// A host that follows the audio gate actions always has the audio gate of the session.
pub proof fn law_gate_changes_are_announced(
    s: Model,
    ev: crate::events::Event,
    elapsed_ms: u64,
    generation: u64,
    now_secs: u64,
)
    ensures
        announces_gate(s, s.press()),
        announces_gate(s, s.release()),
        announces_gate(s, s.event(ev, elapsed_ms)),
        announces_gate(s, s.drain_timeout(generation)),
        announces_gate(s, s.begin_meeting(now_secs)),
        announces_gate(s, s.end_meeting()),
{
    let start = s.start();
    if s.ready && s.state != State::Listening {
        let i = start.actions.len() - 3;
        assert(start.actions[i] == Action::<Seq<char>>::SetGate(gate::REAL));
    }
    let stop = s.stop();
    if s.state == State::Listening {
        assert(stop.actions[0] == Action::<Seq<char>>::SetGate(gate::SILENCE));
    }
    let e = s.event(ev, elapsed_ms);
    if !s.meeting && ev.is_final && s.state == State::Draining {
        let n = s.keep_final(ev.text).actions.len() as int;
        assert(e.actions[n] == Action::<Seq<char>>::SetGate(gate::NONE));
    }
    let d = s.drain_timeout(generation);
    if s.state == State::Draining && s.generation == generation {
        assert(d.actions[0] == Action::<Seq<char>>::SetGate(gate::NONE));
    }
    let b = s.begin_meeting(now_secs);
    if s.ready {
        assert(b.actions[1] == Action::<Seq<char>>::SetGate(gate::REAL));
    }
    assert(s.end_meeting().actions[0] == Action::<Seq<char>>::SetGate(gate::NONE));
}

/// Transcript events do nothing while the session is idle.
pub proof fn law_events_are_ignored_while_idle(
    s: Model,
    ev: crate::events::Event,
    elapsed_ms: u64,
)
    requires
        s.state == State::Idle,
        !s.meeting,
    ensures
        s.event(ev, elapsed_ms) == s.stay(),
{
}

/// Activation before the pipeline is ready changes nothing and only says so.
pub proof fn law_activation_waits_for_the_pipeline(s: Model, now_secs: u64)
    requires
        s.wf(),
        !s.ready,
    ensures
        s.press() == (Step { next: s, actions: seq![Action::Tell(Status::Warming)] }),
        s.begin_meeting(now_secs) == (Step { next: s, actions: seq![Action::Tell(Status::Warming)] }),
        s.release() == s.stay(),
{
}

/// While a meeting is transcribed, the hotkey does nothing and no transcript event
/// leads to any action: nothing is typed.
pub proof fn law_meeting_types_nothing(s: Model, ev: crate::events::Event, elapsed_ms: u64)
    requires
        s.meeting,
    ensures
        s.press() == s.stay(),
        s.release() == s.stay(),
        s.event(ev, elapsed_ms).actions.len() == 0,
        s.event(ev, elapsed_ms).next.meeting,
{
}

/// With cleanup on, nothing is typed while the user speaks: neither a transcript
/// event nor the end of a drain types anything.
pub proof fn law_nothing_is_typed_while_buffering(
    s: Model,
    ev: crate::events::Event,
    elapsed_ms: u64,
    generation: u64,
)
    requires
        s.buffering(),
    ensures
        forall|i: int|
            0 <= i < s.event(ev, elapsed_ms).actions.len() ==> !types_text(
                #[trigger] s.event(ev, elapsed_ms).actions[i],
            ),
        forall|i: int|
            0 <= i < s.drain_timeout(generation).actions.len() ==> !types_text(
                #[trigger] s.drain_timeout(generation).actions[i],
            ),
{
}

/// Whether a text has been handed on for cleaning, or has no words to hand on.
pub open spec fn handed_on(raw: Seq<char>, actions: Seq<Action<Seq<char>>>) -> bool {
    text::is_blank(raw) || exists|i: int|
        0 <= i < actions.len() && (#[trigger] actions[i] matches Action::Clean { raw: r, .. } && r
            == raw)
}

/// With cleanup on, no committed words are lost: a final text stays in the buffer
/// behind everything already there, or the whole of it is handed on for cleaning.
pub proof fn law_committed_words_are_kept(s: Model, t: Seq<char>, ts_ms: u64, elapsed_ms: u64)
    requires
        s.buffering(),
        !s.meeting,
        s.state != State::Idle,
    ensures
        ({
            let step = s.event(
                crate::events::Event { is_final: true, text: t, ts_ms },
                elapsed_ms,
            );
            let words = s.buffer.push(t);
            ||| step.next.buffer == words && step.actions.len() == 0
            ||| step.next.buffer.len() == 0 && handed_on(text::joined(words), step.actions)
        }),
        s.state == State::Draining ==> handed_on(
            text::joined(s.buffer.push(t)),
            s.event(crate::events::Event { is_final: true, text: t, ts_ms }, elapsed_ms).actions,
        ),
{
    let step = s.event(crate::events::Event { is_final: true, text: t, ts_ms }, elapsed_ms);
    let words = s.buffer.push(t);
    let raw = text::joined(words);
    if !text::is_blank(raw) {
        if s.state == State::Draining {
            assert(step.actions[3] == Action::<Seq<char>>::Clean { raw, hide_pill: true });
        } else if raw.len() > MAX_BUFFER_CHARS {
            assert(step.actions[1] == Action::<Seq<char>>::Clean { raw, hide_pill: false });
        }
    }
}

/// With cleanup on, a drain whose final never comes loses no words either: the
/// buffer and the last partial are handed on together.
pub proof fn law_drain_timeout_keeps_words(s: Model)
    requires
        s.buffering(),
        s.state == State::Draining,
    ensures
        ({
            let words = match s.last_partial {
                Some(t) => s.buffer.push(t),
                None => s.buffer,
            };
            handed_on(text::joined(words), s.drain_timeout(s.generation).actions)
        }),
        s.drain_timeout(s.generation).next.state == State::Idle,
{
    let words = match s.last_partial {
        Some(t) => s.buffer.push(t),
        None => s.buffer,
    };
    let raw = text::joined(words);
    let actions = s.drain_timeout(s.generation).actions;
    if !text::is_blank(raw) {
        assert(actions.last() == Action::<Seq<char>>::Clean { raw, hide_pill: true });
        assert(actions[actions.len() - 1] == Action::<Seq<char>>::Clean { raw, hide_pill: true });
    }
}

/// A timer belongs to one drain only: once a newer window has opened, or the drain
/// has ended, it does nothing, however quickly windows follow each other.
pub proof fn law_stale_timers_do_nothing(s: Model, t: Seq<char>, ts_ms: u64, elapsed_ms: u64)
    requires
        s.wf(),
        s.state == State::Listening,
        !s.meeting,
    ensures
        ({
            let draining = s.stop().next;
            let timer = draining.generation;
            let reopened = draining.start().next;
            let drained_again = reopened.stop().next;
            let ended = draining.event(
                crate::events::Event { is_final: true, text: t, ts_ms },
                elapsed_ms,
            ).next;
            &&& reopened.drain_timeout(timer) == reopened.stay()
            &&& drained_again.state == State::Draining
            &&& drained_again.drain_timeout(timer) == drained_again.stay()
            &&& ended.drain_timeout(timer) == ended.stay()
        }),
{
}

/// The final texts among events, in order.
pub open spec fn finals(evs: Seq<crate::events::Event>) -> Seq<Seq<char>>
    decreases evs.len(),
{
    if evs.len() == 0 {
        seq![]
    } else {
        let before = finals(evs.drop_last());
        if evs.last().is_final {
            before.push(evs.last().text)
        } else {
            before
        }
    }
}

/// A session after a run of events, and all the actions they lead to.
pub open spec fn after_events(s: Model, evs: Seq<crate::events::Event>) -> Step
    decreases evs.len(),
{
    if evs.len() == 0 {
        s.stay()
    } else {
        let before = after_events(s, evs.drop_last());
        let step = before.next.event(evs.last(), 0);
        Step { next: step.next, actions: before.actions + step.actions }
    }
}

/// Events in an open window only fill the buffer, as long as it stays below its
/// limit.
proof fn lemma_events_fill_the_buffer(s: Model, evs: Seq<crate::events::Event>)
    requires
        s.buffering(),
        !s.meeting,
        s.state == State::Listening,
        text::joined(s.buffer + finals(evs)).len() <= MAX_BUFFER_CHARS,
    ensures
        ({
            let step = after_events(s, evs);
            &&& step.actions.len() == 0
            &&& step.next == (Model {
                buffer: s.buffer + finals(evs),
                last_partial: step.next.last_partial,
                ..s
            })
        }),
    decreases evs.len(),
{
    if evs.len() == 0 {
        assert(s.buffer + finals(evs) =~= s.buffer);
    } else {
        let front = evs.drop_last();
        let all = s.buffer + finals(evs);
        let part = s.buffer + finals(front);
        if evs.last().is_final {
            assert(all.drop_last() =~= part);
            assert(all.take(all.len() - 1) =~= part);
            assert(part.push(evs.last().text) =~= all);
            lemma_joined_grows(all, all.len() - 1);
        }
        lemma_events_fill_the_buffer(s, front);
    }
}

/// The whole window from press to release is cleaned once: from an idle session,
/// press, any events, the end by the hotkey and the trailing final text lead to exactly one
/// text handed on, which holds every final text of the window in order; nothing
/// is typed on the way.
pub proof fn law_window_is_cleaned_as_one_text(
    s: Model,
    evs: Seq<crate::events::Event>,
    t: Seq<char>,
    ts_ms: u64,
)
    requires
        s.wf(),
        s.ready,
        s.buffering(),
        s.state == State::Idle,
        text::joined(finals(evs)).len() <= MAX_BUFFER_CHARS,
        !text::is_blank(text::joined(finals(evs).push(t))),
    ensures
        ({
            let opened = s.press().next;
            let spoken = after_events(opened, evs);
            let released = hotkey_ends(spoken.next).next;
            let ended = released.event(
                crate::events::Event { is_final: true, text: t, ts_ms },
                0,
            );
            &&& spoken.actions.len() == 0
            &&& released.state == State::Draining
            &&& ended.next.state == State::Idle
            &&& ended.next.buffer.len() == 0
            &&& ended.actions == seq![
                Action::SetGate(gate::NONE),
                Action::Tell(Status::Listening(false)),
                Action::Tell(Status::Cleaning),
                Action::Clean { raw: text::joined(finals(evs).push(t)), hide_pill: true },
            ]
        }),
{
    let opened = s.press().next;
    assert(opened.buffer + finals(evs) =~= finals(evs));
    lemma_events_fill_the_buffer(opened, evs);
    let released = hotkey_ends(after_events(opened, evs).next).next;
    assert(released.buffer =~= finals(evs));
    let ended = released.event(crate::events::Event { is_final: true, text: t, ts_ms }, 0);
    assert(ended.actions =~= seq![
        Action::SetGate(gate::NONE),
        Action::Tell(Status::Listening(false)),
        Action::Tell(Status::Cleaning),
        Action::Clean { raw: text::joined(finals(evs).push(t)), hide_pill: true },
    ]);
}

/// The words of all the texts that actions hand on for cleaning, in order.
pub open spec fn handed_words(actions: Seq<Action<Seq<char>>>) -> Seq<Seq<char>>
    decreases actions.len(),
{
    if actions.len() == 0 {
        seq![]
    } else {
        let before = handed_words(actions.drop_last());
        match actions.last() {
            Action::Clean { raw, .. } => before + text::words(raw),
            _ => before,
        }
    }
}

proof fn lemma_handed_words_add(a: Seq<Action<Seq<char>>>, b: Seq<Action<Seq<char>>>)
    ensures
        handed_words(a + b) == handed_words(a) + handed_words(b),
    decreases b.len(),
{
    if b.len() == 0 {
        assert(a + b =~= a);
        assert(handed_words(a) + handed_words(b) =~= handed_words(a));
    } else {
        lemma_handed_words_add(a, b.drop_last());
        assert((a + b).drop_last() =~= a + b.drop_last());
        assert(handed_words(a + b) =~= handed_words(a) + handed_words(b));
    }
}

/// What is done with a buffer hands all of its words on.
proof fn lemma_clean_buffer_words(s: Model, hide_pill: bool)
    ensures
        handed_words(s.clean_buffer(hide_pill)) == text::words(text::joined(s.buffer)),
{
    let raw = text::joined(s.buffer);
    let actions = s.clean_buffer(hide_pill);
    text::lemma_blank_has_no_words(raw);
    reveal_with_fuel(handed_words, 3);
    if text::is_blank(raw) {
        assert(text::words(raw) =~= seq![]);
        assert(handed_words(actions) =~= seq![]);
    } else {
        assert(actions.drop_last() =~= seq![Action::<Seq<char>>::Tell(Status::Cleaning)]);
        assert(actions.drop_last().drop_last() =~= seq![]);
        assert(handed_words(actions) =~= text::words(raw));
    }
}

/// The partial that no final has superseded, if the last event is one.
pub open spec fn open_partial(evs: Seq<crate::events::Event>) -> Option<Seq<char>> {
    if evs.len() == 0 || evs.last().is_final {
        None
    } else {
        Some(evs.last().text)
    }
}

/// However long a dictation gets and however often it is pasted in between, no
/// word of it is lost, doubled or moved: what has been handed on for cleaning,
/// followed by what is still buffered, are the words of all the final texts in
/// order.
pub proof fn law_long_dictations_lose_no_words(s: Model, evs: Seq<crate::events::Event>)
    requires
        s.buffering(),
        !s.meeting,
        s.state == State::Listening,
        s.buffer.len() == 0,
        s.last_partial is None,
    ensures
        ({
            let step = after_events(s, evs);
            &&& handed_words(step.actions) + text::words(text::joined(step.next.buffer))
                == text::words(text::joined(finals(evs)))
            &&& step.next == (Model {
                buffer: step.next.buffer,
                last_partial: open_partial(evs),
                ..s
            })
        }),
    decreases evs.len(),
{
    if evs.len() == 0 {
        assert(handed_words(seq![]) + text::words(text::joined(s.buffer)) =~= text::words(
            text::joined(finals(evs)),
        ));
    } else {
        let front = evs.drop_last();
        law_long_dictations_lose_no_words(s, front);
        let before = after_events(s, front);
        let ev = evs.last();
        let step = before.next.event(ev, 0);
        lemma_handed_words_add(before.actions, step.actions);
        if ev.is_final {
            let kept = before.next.keep_final(ev.text).next;
            text::lemma_words_of_joined_push(before.next.buffer, ev.text);
            text::lemma_words_of_joined_push(finals(front), ev.text);
            lemma_clean_buffer_words(kept, false);
            assert(step.actions =~= if text::joined(kept.buffer).len() > MAX_BUFFER_CHARS {
                kept.clean_buffer(false)
            } else {
                seq![]
            });
            assert(text::words(text::joined(Seq::<Seq<char>>::empty())) =~= seq![]);
        } else {
            assert(step.actions =~= seq![]);
        }
        assert(handed_words(Seq::<Action<Seq<char>>>::empty()) =~= seq![]);
        assert(handed_words(before.actions + step.actions) + text::words(
            text::joined(step.next.buffer),
        ) =~= text::words(text::joined(finals(evs))));
    }
}

/// How a window is ended by the hotkey.
pub open spec fn hotkey_ends(s: Model) -> Step {
    match s.mode {
        Mode::PushToTalk => s.release(),
        Mode::Toggle => s.press(),
    }
}

/// The trailing final text of a drain is handed on behind the buffered ones.
proof fn lemma_ended_drain_hands_on(draining: Model, t: Seq<char>, ts_ms: u64)
    requires
        draining.buffering(),
        !draining.meeting,
        draining.state == State::Draining,
    ensures
        ({
            let ended = draining.event(
                crate::events::Event { is_final: true, text: t, ts_ms },
                0,
            );
            &&& ended.next.state == State::Idle
            &&& ended.next.buffer.len() == 0
            &&& handed_words(ended.actions) == text::words(text::joined(draining.buffer))
                + text::words(t)
        }),
{
    let ended = draining.event(crate::events::Event { is_final: true, text: t, ts_ms }, 0);
    let kept = draining.keep_final(t).next;
    let idle = Model { state: State::Idle, gate: gate::NONE, ..kept };
    let told = seq![
        Action::<Seq<char>>::SetGate(gate::NONE),
        Action::<Seq<char>>::Tell(Status::Listening(false)),
    ];
    reveal_with_fuel(handed_words, 3);
    assert(told.drop_last().drop_last() =~= seq![]);
    assert(handed_words(told) =~= seq![]);
    assert(ended.actions =~= told + idle.clean_buffer(true));
    lemma_clean_buffer_words(idle, true);
    lemma_handed_words_add(told, idle.clean_buffer(true));
    text::lemma_words_of_joined_push(draining.buffer, t);
    assert(handed_words(ended.actions) =~= text::words(text::joined(draining.buffer))
        + text::words(t));
}

/// The words that a drain still owes when its final text does not come: the buffered
/// ones and those of the last partial.
spec fn owed_words(draining: Model) -> Seq<Seq<char>> {
    match draining.last_partial {
        Some(p) => text::words(text::joined(draining.buffer)) + text::words(p),
        None => text::words(text::joined(draining.buffer)),
    }
}

/// A drain whose final text does not come hands on all that it owes.
proof fn lemma_forced_drain_hands_on(draining: Model)
    requires
        draining.buffering(),
        draining.state == State::Draining,
    ensures
        ({
            let forced = draining.drain_timeout(draining.generation);
            &&& forced.next.state == State::Idle
            &&& forced.next.buffer.len() == 0
            &&& handed_words(forced.actions) == owed_words(draining)
        }),
{
    let forced = draining.drain_timeout(draining.generation);
    let salvaged = match draining.last_partial {
        Some(p) => draining.keep_final(p).next,
        None => draining,
    };
    let left = Model { state: State::Idle, gate: gate::NONE, ..salvaged };
    let first = seq![Action::<Seq<char>>::SetGate(gate::NONE)];
    let reset = if draining.last_partial is None && draining.injector {
        seq![Action::<Seq<char>>::ResetInjector]
    } else {
        seq![]
    };
    let last = seq![Action::<Seq<char>>::Tell(Status::Listening(false))];
    let announced = first + reset + last;
    assert(handed_words(announced) =~= seq![]) by {
        reveal_with_fuel(handed_words, 2);
        assert(first.drop_last() =~= seq![] && last.drop_last() =~= seq![]);
        assert(reset.len() == 1 ==> reset.drop_last() =~= seq![]);
        lemma_handed_words_add(first, reset);
        lemma_handed_words_add(first + reset, last);
    }
    assert(forced.actions =~= announced + left.clean_buffer(true));
    lemma_clean_buffer_words(left, true);
    lemma_handed_words_add(announced, left.clean_buffer(true));
    if let Some(p) = draining.last_partial {
        text::lemma_words_of_joined_push(draining.buffer, p);
    }
    assert(handed_words(forced.actions) =~= owed_words(draining));
}

/// From press to the end of the drain no word is lost, whatever is said, however
/// long it takes, and whether or not the trailing final text comes: the texts
/// handed on for cleaning hold the words of all the final texts of the window in
/// order, and where the trailing one does not come, those of the last partial in
/// its place.
#[verifier::spinoff_prover]
pub proof fn law_window_loses_no_words(
    s: Model,
    evs: Seq<crate::events::Event>,
    t: Seq<char>,
    ts_ms: u64,
)
    requires
        s.wf(),
        s.ready,
        s.buffering(),
        s.state == State::Idle,
    ensures
        ({
            let spoken = after_events(s.press().next, evs);
            let draining = hotkey_ends(spoken.next).next;
            let ended = draining.event(
                crate::events::Event { is_final: true, text: t, ts_ms },
                0,
            );
            let forced = draining.drain_timeout(draining.generation);
            let salvaged = match open_partial(evs) {
                Some(p) => finals(evs).push(p),
                None => finals(evs),
            };
            &&& draining.state == State::Draining
            &&& ended.next.state == State::Idle && ended.next.buffer.len() == 0
            &&& handed_words(spoken.actions + ended.actions) == text::words(
                text::joined(finals(evs).push(t)),
            )
            &&& forced.next.state == State::Idle && forced.next.buffer.len() == 0
            &&& handed_words(spoken.actions + forced.actions) == text::words(
                text::joined(salvaged),
            )
        }),
{
    let opened = s.press().next;
    law_long_dictations_lose_no_words(opened, evs);
    let spoken = after_events(opened, evs);
    let draining = hotkey_ends(spoken.next).next;
    let ended = draining.event(crate::events::Event { is_final: true, text: t, ts_ms }, 0);
    let forced = draining.drain_timeout(draining.generation);
    assert(draining.buffer == spoken.next.buffer);
    assert(draining.last_partial == open_partial(evs));

    lemma_ended_drain_hands_on(draining, t, ts_ms);
    lemma_handed_words_add(spoken.actions, ended.actions);
    text::lemma_words_of_joined_push(finals(evs), t);
    assert(handed_words(spoken.actions + ended.actions) =~= text::words(
        text::joined(finals(evs).push(t)),
    ));

    lemma_forced_drain_hands_on(draining);
    lemma_handed_words_add(spoken.actions, forced.actions);
    if let Some(p) = open_partial(evs) {
        text::lemma_words_of_joined_push(finals(evs), p);
        assert(handed_words(spoken.actions + forced.actions) =~= text::words(
            text::joined(finals(evs).push(p)),
        ));
    }
}

/// Without cleanup, every transcript event of an open window reaches the injector
/// as it comes.
pub proof fn law_without_cleanup_text_is_typed_live(
    s: Model,
    t: Seq<char>,
    ts_ms: u64,
    elapsed_ms: u64,
)
    requires
        !s.buffering(),
        s.injector,
        !s.meeting,
        s.state != State::Idle,
    ensures
        s.event(
            crate::events::Event { is_final: false, text: t, ts_ms },
            elapsed_ms,
        ).actions == seq![Action::Partial(t)],
        s.event(
            crate::events::Event { is_final: true, text: t, ts_ms },
            elapsed_ms,
        ).actions.len() > 0,
        s.event(
            crate::events::Event { is_final: true, text: t, ts_ms },
            elapsed_ms,
        ).actions[0] == Action::Commit(t),
{
}

/// Whatever a cleanup model answers, the user gets text: the answer if it passes
/// the guards, and the very words of the dictation if it does not.
pub proof fn law_dictation_is_never_lost_to_cleanup(
    s: Model,
    raw: Seq<char>,
    candidate: Seq<char>,
    hide_pill: bool,
)
    requires
        s.injector,
    ensures
        s.cleaned(raw, None, hide_pill)[0] == Action::Commit(raw),
        crate::cleaner::acceptable(raw, candidate) ==> s.cleaned(
            raw,
            crate::cleaner::vetted(raw, candidate),
            hide_pill,
        )[0] == Action::Commit(crate::cleaner::vetted(raw, candidate)->0),
        !crate::cleaner::acceptable(raw, candidate) ==> s.cleaned(
            raw,
            crate::cleaner::vetted(raw, candidate),
            hide_pill,
        )[0] == Action::Commit(raw),
{
}

/// The pill goes away: a dictation that ends hides it at once or leaves that to
/// the cleanup, which hides it with the paste.
pub proof fn law_pill_is_hidden_in_the_end(s: Model, raw: Seq<char>, cleaned: Option<Seq<char>>)
    ensures
        ({
            let a = s.finish().actions;
            ||| a.last() == Action::<Seq<char>>::Pill(false)
            ||| a.last() matches Action::Clean { hide_pill, .. } && hide_pill
        }),
        s.cleaned(raw, cleaned, true).last() == Action::<Seq<char>>::Pill(false),
{
}

/// A session after a run of transcript events, each with the time that it came with.
pub open spec fn after_run(s: Model, run: Seq<(crate::events::Event, u64)>) -> Model
    decreases run.len(),
{
    if run.len() == 0 {
        s
    } else {
        after_run(s, run.drop_last()).event(run.last().0, run.last().1).next
    }
}

/// A meeting is written down whole. However many events come in from its start, its lines
/// are the final ones, all of them and in order: each with the text of its event, ending
/// at the time that came with it and beginning where the line before it ended. Nothing
/// else about the session changes.
pub proof fn law_meeting_is_written_down_whole(
    s: Model,
    now_secs: u64,
    run: Seq<(crate::events::Event, u64)>,
)
    requires
        s.ready,
    ensures
        ({
            let m = s.begin_meeting(now_secs).next;
            let after = after_run(m, run);
            let said = run.filter(|e: (crate::events::Event, u64)| e.0.is_final);
            &&& m.meeting
            &&& after.lines.len() == said.len()
            &&& forall|i: int|
                0 <= i < said.len() ==> (#[trigger] after.lines[i]).text == said[i].0.text
                    && after.lines[i].end_ms == said[i].1 && after.lines[i].start_ms == (if i
                    == 0 {
                    0
                } else {
                    said[i - 1].1
                })
            &&& after == (Model { lines: after.lines, ..m })
        }),
    decreases run.len(),
{
    reveal(Seq::filter);
    let m = s.begin_meeting(now_secs).next;
    if run.len() > 0 {
        let front = run.drop_last();
        law_meeting_is_written_down_whole(s, now_secs, front);
        let before = after_run(m, front);
        let said = front.filter(|e: (crate::events::Event, u64)| e.0.is_final);
        if said.len() > 0 {
            assert(before.lines[said.len() - 1].end_ms == said[said.len() - 1].1);
        }
    }
}

/// Lists of actions are compared one by one.
proof fn lemma_action_texts(r: Seq<Action<String>>)
    ensures
        action_texts(r).len() == r.len(),
        forall|i: int| 0 <= i < r.len() ==> #[trigger] action_texts(r)[i] == action_text(r[i]),
{
}

/// While a meeting is transcribed, a final event adds one line with its text, from the
/// end of the last one to the time that came with it. A partial adds none, and neither
/// has anything done.
pub proof fn law_final_events_become_lines(
    k: &mut Session,
    ev: &TranscriptEvent,
    elapsed_ms: u64,
    r: Vec<Action<String>>,
)
    requires
        call_ensures(Session::on_event, (k, ev, elapsed_ms), r),
        old(k)@.meeting,
    ensures
        r@.len() == 0,
        ev is Partial ==> final(k)@ == old(k)@,
        ev is Final ==> final(k)@.lines.len() == old(k)@.lines.len() + 1,
        ev is Final ==> final(k)@.lines.drop_last() == old(k)@.lines,
        ev is Final ==> final(k)@.lines.last().text == ev->Final_text@,
        ev is Final ==> final(k)@.lines.last().end_ms == elapsed_ms,
        ev is Final ==> final(k)@.lines.last().start_ms == (if old(k)@.lines.len() == 0 {
            0
        } else {
            old(k)@.lines.last().end_ms
        }),
        final(k)@ == (Model { lines: final(k)@.lines, ..old(k)@ }),
{
    lemma_action_texts(r@);
    if ev is Final {
        assert(final(k)@.lines.drop_last() =~= old(k)@.lines);
    }
}

/// The hotkey is dead during a meeting. Before the pipeline is ready it only says so. Else
/// a press opens a window that starts from nothing, with the microphone heard, unless one
/// is open; and where presses toggle, it ends an open one.
pub proof fn law_press_opens_a_fresh_window(k: &mut Session, r: Vec<Action<String>>)
    requires
        call_ensures(Session::on_press, (k,), r),
    ensures
        old(k)@.meeting ==> final(k)@ == old(k)@ && r@.len() == 0,
        ({
            let s = old(k)@;
            let t = final(k)@;
            let n = r@.len() as int;
            &&& !s.meeting && !s.ready && !(s.mode == Mode::Toggle && s.state == State::Listening)
                ==> t == s && n == 1 && r@[0] == Action::<String>::Tell(Status::Warming)
            &&& !s.meeting && s.ready && s.state != State::Listening ==> {
                &&& t.state == State::Listening && t.gate == 2
                &&& t.buffer.len() == 0 && t.last_partial is None
                &&& t.generation == if s.generation == u64::MAX {
                    0
                } else {
                    s.generation + 1
                }
                &&& t == (Model {
                    state: t.state,
                    gate: t.gate,
                    buffer: t.buffer,
                    last_partial: t.last_partial,
                    generation: t.generation,
                    ..s
                })
                &&& n == 3 + (if s.injector {
                    1int
                } else {
                    0
                }) + (if s.cleaner {
                    1int
                } else {
                    0
                })
                &&& s.injector ==> r@[0] == Action::<String>::ResetInjector
                &&& s.cleaner ==> r@[n - 4] == Action::<String>::WarmCleaner
                &&& r@[n - 3] == Action::<String>::SetGate(2)
                &&& r@[n - 2] == Action::<String>::Tell(Status::Listening(true))
                &&& r@[n - 1] == Action::<String>::Pill(true)
            }
            &&& !s.meeting && s.ready && s.state == State::Listening && s.mode == Mode::PushToTalk
                ==> t == s && n == 0
            &&& !s.meeting && s.state == State::Listening && s.mode == Mode::Toggle
                ==> ends_window(s, t, r@)
        }),
{
    lemma_action_texts(r@);
    let s = old(k)@;
    let a = s.press().actions;
    assert forall|i: int| 0 <= i < r@.len() implies action_text(#[trigger] r@[i]) == a[i] by {
        assert(action_texts(r@)[i] == action_text(r@[i]));
    }
}

/// A window is ended: the recognizer hears silence from now on, what was heard is kept,
/// and a timer is set for this very drain.
pub open spec fn ends_window(s: Model, t: Model, r: Seq<Action<String>>) -> bool {
    &&& t.state == State::Draining && t.gate == 1
    &&& t.generation == if s.generation == u64::MAX {
        0
    } else {
        s.generation + 1
    }
    &&& t == (Model { state: t.state, gate: t.gate, generation: t.generation, ..s })
    &&& r.len() == 3
    &&& r[0] == Action::<String>::SetGate(1)
    &&& r[1] == Action::<String>::Tell(Status::Listening(false))
    &&& r[2] == (Action::<String>::StartDrainTimer {
        generation: t.generation,
        after_ms: s.drain_timeout_ms,
    })
}

/// A release ends the open window of a hotkey that is held to talk, and does nothing else.
pub proof fn law_release_ends_a_held_window(k: &mut Session, r: Vec<Action<String>>)
    requires
        call_ensures(Session::on_release, (k,), r),
    ensures
        !old(k)@.meeting && old(k)@.mode == Mode::PushToTalk && old(k)@.state == State::Listening
            ==> ends_window(old(k)@, final(k)@, r@),
        old(k)@.meeting || old(k)@.mode == Mode::Toggle || old(k)@.state != State::Listening
            ==> final(k)@ == old(k)@ && r@.len() == 0,
{
    lemma_action_texts(r@);
    let a = old(k)@.release().actions;
    assert forall|i: int| 0 <= i < r@.len() implies action_text(#[trigger] r@[i]) == a[i] by {
        assert(action_texts(r@)[i] == action_text(r@[i]));
    }
}

/// Outside a window events are ignored. In one, a partial is remembered, and typed at
/// once unless dictations are buffered for cleanup.
pub proof fn law_partials_are_typed_live(
    k: &mut Session,
    ev: &TranscriptEvent,
    elapsed_ms: u64,
    r: Vec<Action<String>>,
)
    requires
        call_ensures(Session::on_event, (k, ev, elapsed_ms), r),
        !old(k)@.meeting,
        old(k)@.state == State::Idle || ev is Partial,
    ensures
        ({
            let s = old(k)@;
            let t = final(k)@;
            &&& s.state == State::Idle ==> t == s && r@.len() == 0
            &&& s.state != State::Idle ==> {
                &&& t == (Model { last_partial: Some(ev->Partial_text@), ..s })
                &&& s.injector && !(s.cleaner && s.cleanup) ==> {
                    &&& r@.len() == 1
                    &&& r@[0] is Partial && r@[0]->Partial_0@ == ev->Partial_text@
                }
                &&& !s.injector || s.cleaner && s.cleanup ==> r@.len() == 0
            }
        }),
{
    lemma_action_texts(r@);
    let a = old(k)@.event(ev@, elapsed_ms).actions;
    assert forall|i: int| 0 <= i < r@.len() implies action_text(#[trigger] r@[i]) == a[i] by {
        assert(action_texts(r@)[i] == action_text(r@[i]));
    }
}

/// The actions that hand a buffered dictation to the cleanup, or none if it has no text.
pub open spec fn hands_to_cleanup(r: Seq<Action<String>>, raw: Seq<char>, hide_pill: bool) -> bool {
    if forall|i: int| 0 <= i < raw.len() ==> text::is_white_space(#[trigger] raw[i]) {
        if hide_pill {
            r.len() == 1 && r[0] == Action::<String>::Pill(false)
        } else {
            r.len() == 0
        }
    } else {
        &&& r.len() == 2
        &&& r[0] == Action::<String>::Tell(Status::Cleaning)
        &&& r[1] is Clean && r[1]->raw@ == raw && r[1]->hide_pill == hide_pill
    }
}

/// A final event in an open window supersedes the partial. Without cleanup it is typed;
/// with it, it joins the buffer, which is handed on as one text once it is longer than
/// six hundred characters. The window stays open.
pub proof fn law_finals_are_typed_or_buffered(
    k: &mut Session,
    ev: &TranscriptEvent,
    elapsed_ms: u64,
    r: Vec<Action<String>>,
)
    requires
        call_ensures(Session::on_event, (k, ev, elapsed_ms), r),
        !old(k)@.meeting,
        old(k)@.state == State::Listening,
        ev is Final,
    ensures
        ({
            let s = old(k)@;
            let t = final(k)@;
            let whole = s.buffer.push(ev->Final_text@);
            &&& !(s.cleaner && s.cleanup) ==> {
                &&& t == (Model { last_partial: None, ..s })
                &&& s.injector ==> r@.len() == 1 && r@[0] is Commit && r@[0]->Commit_0@
                    == ev->Final_text@
                &&& !s.injector ==> r@.len() == 0
            }
            &&& s.cleaner && s.cleanup && text::joined(whole).len() <= 600 ==> {
                &&& t == (Model { last_partial: None, buffer: whole, ..s })
                &&& r@.len() == 0
            }
            &&& s.cleaner && s.cleanup && text::joined(whole).len() > 600 ==> {
                &&& t == (Model { last_partial: None, buffer: seq![], ..s })
                &&& hands_to_cleanup(r@, text::joined(whole), false)
            }
        }),
{
    lemma_action_texts(r@);
    let a = old(k)@.event(ev@, elapsed_ms).actions;
    assert forall|i: int| 0 <= i < r@.len() implies action_text(#[trigger] r@[i]) == a[i] by {
        assert(action_texts(r@)[i] == action_text(r@[i]));
    }
}

/// A final event ends a drain: the recognizer hears nothing any more, timers of the drain
/// are void, and the dictation is over: typed, or handed to the cleanup with all that was
/// buffered, the pill hidden once that is done.
pub proof fn law_final_ends_a_drain(
    k: &mut Session,
    ev: &TranscriptEvent,
    elapsed_ms: u64,
    r: Vec<Action<String>>,
)
    requires
        call_ensures(Session::on_event, (k, ev, elapsed_ms), r),
        !old(k)@.meeting,
        old(k)@.state == State::Draining,
        ev is Final,
    ensures
        ({
            let s = old(k)@;
            let t = final(k)@;
            let whole = s.buffer.push(ev->Final_text@);
            let n = r@.len() as int;
            &&& t.state == State::Idle && t.gate == 0 && t.last_partial is None
            &&& t.generation == if s.generation == u64::MAX {
                0
            } else {
                s.generation + 1
            }
            &&& t == (Model {
                state: t.state,
                gate: t.gate,
                last_partial: t.last_partial,
                generation: t.generation,
                buffer: t.buffer,
                ..s
            })
            &&& !(s.cleaner && s.cleanup) ==> {
                &&& t.buffer == s.buffer
                &&& n == if s.injector {
                    4
                } else {
                    3int
                }
                &&& s.injector ==> r@[0] is Commit && r@[0]->Commit_0@ == ev->Final_text@
                &&& r@[n - 3] == Action::<String>::SetGate(0)
                &&& r@[n - 2] == Action::<String>::Tell(Status::Listening(false))
                &&& r@[n - 1] == Action::<String>::Pill(false)
            }
            &&& s.cleaner && s.cleanup ==> {
                &&& t.buffer.len() == 0
                &&& n >= 2
                &&& r@[0] == Action::<String>::SetGate(0)
                &&& r@[1] == Action::<String>::Tell(Status::Listening(false))
                &&& hands_to_cleanup(r@.skip(2), text::joined(whole), true)
            }
        }),
{
    lemma_action_texts(r@);
    let a = old(k)@.event(ev@, elapsed_ms).actions;
    assert forall|i: int| 0 <= i < r@.len() implies action_text(#[trigger] r@[i]) == a[i] by {
        assert(action_texts(r@)[i] == action_text(r@[i]));
    }
}

/// A timer ends the drain that it was set for, and no other. The last partial, if one is
/// open, stands in for the final that did not come; without one the injector forgets what
/// it typed.
pub proof fn law_timer_ends_its_drain(k: &mut Session, generation: u64, r: Vec<Action<String>>)
    requires
        call_ensures(Session::on_drain_timeout, (k, generation), r),
    ensures
        ({
            let s = old(k)@;
            let t = final(k)@;
            let whole = match s.last_partial {
                Some(p) => s.buffer.push(p),
                None => s.buffer,
            };
            let n = r@.len() as int;
            &&& s.state != State::Draining || s.generation != generation ==> t == s && n == 0
            &&& s.state == State::Draining && s.generation == generation ==> {
                &&& t.state == State::Idle && t.gate == 0 && t.last_partial is None
                &&& t == (Model {
                    state: t.state,
                    gate: t.gate,
                    last_partial: t.last_partial,
                    buffer: t.buffer,
                    ..s
                })
                &&& n > 0 && r@[0] == Action::<String>::SetGate(0)
                &&& !(s.cleaner && s.cleanup) ==> {
                    &&& t.buffer == s.buffer
                    &&& n == if s.injector {
                        4
                    } else {
                        3int
                    }
                    &&& s.injector && s.last_partial is Some ==> r@[1] is Commit && r@[1]->Commit_0@
                        == s.last_partial->0
                    &&& s.injector && s.last_partial is None ==> r@[1]
                        == Action::<String>::ResetInjector
                    &&& r@[n - 2] == Action::<String>::Tell(Status::Listening(false))
                    &&& r@[n - 1] == Action::<String>::Pill(false)
                }
                &&& s.cleaner && s.cleanup ==> {
                    let m = if s.injector && s.last_partial is None {
                        2
                    } else {
                        1int
                    };
                    &&& t.buffer.len() == 0
                    &&& m == 2 ==> r@[1] == Action::<String>::ResetInjector
                    &&& n > m && r@[m] == Action::<String>::Tell(Status::Listening(false))
                    &&& hands_to_cleanup(r@.skip(m + 1), text::joined(whole), true)
                }
            }
        }),
{
    lemma_action_texts(r@);
    let a = old(k)@.drain_timeout(generation).actions;
    assert forall|i: int| 0 <= i < r@.len() implies action_text(#[trigger] r@[i]) == a[i] by {
        assert(action_texts(r@)[i] == action_text(r@[i]));
    }
}

/// What comes back from cleanup is pasted, and where nothing came back the dictation
/// itself is; the pill is hidden exactly if it was asked for.
pub proof fn law_cleaned_text_or_dictation_is_pasted(
    k: &Session,
    raw: String,
    cleaned: Option<String>,
    hide_pill: bool,
    r: Vec<Action<String>>,
)
    requires
        call_ensures(Session::on_cleaned, (k, raw, cleaned, hide_pill), r),
    ensures
        r@.len() == (if k@.injector {
            1int
        } else {
            0
        }) + (if hide_pill {
            1int
        } else {
            0
        }),
        k@.injector && cleaned is Some ==> r@[0] is Commit && r@[0]->Commit_0@ == cleaned->0@,
        k@.injector && cleaned is None ==> r@[0] is Commit && r@[0]->Commit_0@ == raw@,
        hide_pill ==> r@.last() == Action::<String>::Pill(false),
{
    lemma_action_texts(r@);
    let a = k@.cleaned(raw@, text::opt_text(cleaned), hide_pill);
    assert forall|i: int| 0 <= i < r@.len() implies action_text(#[trigger] r@[i]) == a[i] by {
        assert(action_texts(r@)[i] == action_text(r@[i]));
    }
}

/// A meeting starts with no lines and the microphone heard, whatever was going on; it is
/// recorded under a name of its own, shown and told. Before the pipeline is ready there is
/// none.
pub proof fn law_meeting_starts_afresh(k: &mut Session, now_secs: u64, r: Vec<Action<String>>)
    requires
        call_ensures(Session::start_meeting, (k, now_secs), r),
    ensures
        !old(k)@.ready ==> final(k)@ == old(k)@ && r@.len() == 1 && r@[0]
            == Action::<String>::Tell(Status::Warming),
        old(k)@.ready ==> {
            &&& final(k)@ == (Model {
                meeting: true,
                state: State::Listening,
                lines: seq![],
                gate: 2,
                ..old(k)@
            })
            &&& r@.len() == 4
            &&& r@[0] is StartRecording
            &&& r@[0]->StartRecording_0@ == "matalu-meeting-"@ + text::decimal(now_secs as nat)
                + ".wav"@
            &&& r@[1] == Action::<String>::SetGate(2)
            &&& r@[2] == Action::<String>::ShowTranscript
            &&& r@[3] == Action::<String>::Tell(Status::Meeting)
        },
{
    lemma_action_texts(r@);
    let a = old(k)@.begin_meeting(now_secs).actions;
    assert forall|i: int| 0 <= i < r@.len() implies action_text(#[trigger] r@[i]) == a[i] by {
        assert(action_texts(r@)[i] == action_text(r@[i]));
    }
}

/// A meeting ends with nothing heard and the recording stopped, and keeps its lines.
pub proof fn law_meeting_ends_with_its_lines(k: &mut Session, r: Vec<Action<String>>)
    requires
        call_ensures(Session::stop_meeting, (k,), r),
    ensures
        final(k)@ == (Model { meeting: false, state: State::Idle, gate: 0, ..old(k)@ }),
        r@.len() == 3,
        r@[0] == Action::<String>::SetGate(0),
        r@[1] == Action::<String>::Tell(Status::Listening(false)),
        r@[2] == Action::<String>::StopRecording,
{
    lemma_action_texts(r@);
    let a = old(k)@.end_meeting().actions;
    assert forall|i: int| 0 <= i < r@.len() implies action_text(#[trigger] r@[i]) == a[i] by {
        assert(action_texts(r@)[i] == action_text(r@[i]));
    }
}

/// A recording goes to be diarized with every line of its meeting, in order and as it was
/// written down; without a recording, or without a line, nothing does. Either way the
/// lines are gone, so that none is diarized twice.
pub proof fn law_recordings_go_with_all_their_lines<P>(
    k: &mut Session,
    recording: Option<P>,
    r: Option<(P, Vec<Line>)>,
)
    requires
        call_ensures(Session::on_recorded::<P>, (k, recording), r),
    ensures
        r is Some <==> recording is Some && old(k)@.lines.len() > 0,
        match r {
            Some((path, lines)) => {
                &&& path == recording->0
                &&& lines@.len() == old(k)@.lines.len()
                &&& forall|i: int|
                    0 <= i < lines@.len() ==> (#[trigger] lines@[i]).start_ms == old(
                        k,
                    )@.lines[i].start_ms && lines@[i].end_ms == old(k)@.lines[i].end_ms
                        && lines@[i].text@ == old(k)@.lines[i].text
            },
            None => true,
        },
        final(k)@ == (Model { lines: seq![], ..old(k)@ }),
{
    match r {
        Some((path, lines)) => {
            assert(spans(lines@).len() == lines@.len());
            assert forall|i: int| 0 <= i < lines@.len() implies (#[trigger] lines@[i]).start_ms
                == old(k)@.lines[i].start_ms && lines@[i].end_ms == old(k)@.lines[i].end_ms
                && lines@[i].text@ == old(k)@.lines[i].text by {
                assert(spans(lines@)[i] == lines@[i]@);
            }
        },
        None => {},
    }
}

/// A session starts idle, deaf and not ready, with nothing heard, and lets a drain take
/// eight hundred milliseconds longer than the silence that ends an utterance.
pub proof fn law_session_starts_idle(
    injector: bool,
    cleaner: bool,
    cleanup: bool,
    mode: Mode,
    silence_ms: u64,
    r: Session,
)
    requires
        silence_ms + 800 <= u64::MAX,
        call_ensures(Session::new, (injector, cleaner, cleanup, mode, silence_ms), r),
    ensures
        r@.state == State::Idle && r@.gate == 0,
        !r@.ready && !r@.meeting,
        r@.lines.len() == 0 && r@.buffer.len() == 0,
        r@.last_partial is None && r@.detected is None,
        r@.injector == injector && r@.cleaner == cleaner && r@.cleanup == cleanup,
        r@.mode == mode,
        r@.generation == 0,
        r@.drain_timeout_ms == silence_ms + 800,
{
}

/// Settings change what they say and nothing else, and what is set is what is read.
pub proof fn law_settings_change_one_thing(
    a: &mut Session,
    mode: Mode,
    b: &mut Session,
    on: bool,
    c: &mut Session,
    app: Option<&'static str>,
    d: &mut Session,
    told: Vec<Action<String>>,
)
    requires
        call_ensures(Session::set_mode, (a, mode), ()),
        call_ensures(Session::set_cleanup, (b, on), ()),
        call_ensures(Session::set_meeting_detected, (c, app), ()),
        call_ensures(Session::mark_ready, (d,), told),
    ensures
        final(a)@ == (Model { mode, ..old(a)@ }),
        final(b)@ == (Model { cleanup: on, ..old(b)@ }),
        final(c)@ == (Model { detected: final(c)@.detected, ..old(c)@ }),
        app is Some ==> final(c)@.detected == Some(app->0@),
        app is None ==> final(c)@.detected is None,
        final(d)@ == (Model { ready: true, ..old(d)@ }),
        told@.len() == 1 && told@[0] == Action::<String>::Tell(Status::Ready),
{
    lemma_action_texts(told@);
    assert(action_texts(told@)[0] == action_text(told@[0]));
}

/// What a session says of itself is so.
pub proof fn law_session_says_what_it_does(k: &Session, detected: bool, meeting: bool)
    requires
        call_ensures(Session::meeting_detected, (k,), detected),
        call_ensures(Session::is_meeting, (k,), meeting),
    ensures
        detected <==> k@.detected is Some,
        meeting <==> k@.meeting,
{
}

/// A buffer is over its cap exactly if its utterances, with one space between each two,
/// have more than six hundred characters.
pub proof fn law_buffer_is_capped(buf: &[String], all: Vec<String>, joined: String, r: bool)
    requires
        all@ == buf@,
        call_ensures(text::join_words, (&all,), joined),
        call_ensures(buffer_over_cap, (buf,), r),
    ensures
        r <==> joined@.len() > 600,
{
}

/// The indicator shows listening in a meeting and while a dictation is listened to, and
/// every other status is told by its name.
pub proof fn law_statuses_are_told_apart(
    s: Status,
    listening: bool,
    state: Option<&'static str>,
)
    requires
        call_ensures(Status::listening, (s,), listening),
        call_ensures(Status::state, (s,), state),
    ensures
        listening <==> s == Status::Meeting || s == Status::Listening(true),
        s is Listening <==> state is None,
        s is Ready ==> state->0@ == "ready"@,
        s is Warming ==> state->0@ == "warming"@,
        s is Meeting ==> state->0@ == "meeting"@,
        s is Cleaning ==> state->0@ == "cleaning"@,
{
}

}
