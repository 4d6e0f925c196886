use matalu::diarize::Line;
use matalu::events::TranscriptEvent;
use matalu::gate;
use matalu::hotkey::on_edge;
use matalu::hotkey::Edge;
use matalu::session::buffer_over_cap;
use matalu::session::Action;
use matalu::session::Mode;
use matalu::session::Session;
use matalu::session::Status;
use matalu::session::MAX_BUFFER_CHARS;

fn utterance(chars: usize) -> String {
    "a".repeat(chars)
}

#[test]
fn empty_and_short_buffers_do_not_flush() {
    assert!(!buffer_over_cap(&[]));
    assert!(!buffer_over_cap(&[utterance(10), utterance(20)]));
    // Exactly at the cap stays — only *past* it flushes.
    assert!(!buffer_over_cap(&[utterance(MAX_BUFFER_CHARS)]));
}

#[test]
fn long_dictation_flushes() {
    assert!(buffer_over_cap(&[utterance(MAX_BUFFER_CHARS + 1)]));
}

#[test]
fn joining_spaces_count_toward_the_cap() {
    // Two halves sum to exactly the cap, but joining adds a space -> over.
    let halves = vec![utterance(MAX_BUFFER_CHARS / 2), utterance(MAX_BUFFER_CHARS / 2)];
    assert!(buffer_over_cap(&halves));
    // One char shorter, and the joined string lands exactly on the cap.
    let under = vec![utterance(MAX_BUFFER_CHARS / 2 - 1), utterance(MAX_BUFFER_CHARS / 2)];
    assert!(!buffer_over_cap(&under));
}

#[test]
fn multibyte_utterances_count_chars_not_bytes() {
    // "é" is two bytes; a byte-based cap would flush ~2x too early.
    let text = "é".repeat(MAX_BUFFER_CHARS);
    assert!(!buffer_over_cap(&[text]));
}

fn partial(t: &str) -> TranscriptEvent {
    TranscriptEvent::Partial { text: t.to_string(), ts_ms: 0 }
}

fn finished(t: &str) -> TranscriptEvent {
    TranscriptEvent::Final { text: t.to_string(), ts_ms: 0 }
}

fn ready(injector: bool, cleaner: bool, mode: Mode) -> Session {
    let mut s = Session::new(injector, cleaner, true, mode, 700);
    assert_eq!(s.mark_ready(), vec![Action::Tell(Status::Ready)]);
    s
}

#[test]
fn activation_waits_for_the_pipeline() {
    let mut s = Session::new(true, true, true, Mode::PushToTalk, 700);
    assert_eq!(s.on_press(), vec![Action::Tell(Status::Warming)]);
    assert!(s.on_release().is_empty());
    assert_eq!(s.start_meeting(5), vec![Action::Tell(Status::Warming)]);
    assert!(!s.is_meeting());
}

#[test]
fn window_is_cleaned_as_one_text() {
    let mut s = ready(true, true, Mode::PushToTalk);
    assert_eq!(
        s.on_press(),
        vec![
            Action::ResetInjector,
            Action::WarmCleaner,
            Action::SetGate(gate::REAL),
            Action::Tell(Status::Listening(true)),
            Action::Pill(true),
        ]
    );
    // Nothing is typed while speaking.
    assert!(s.on_event(&partial("ship it"), 0).is_empty());
    assert!(s.on_event(&finished("Ship it Tuesday."), 0).is_empty());
    assert_eq!(
        s.on_release(),
        vec![
            Action::SetGate(gate::SILENCE),
            Action::Tell(Status::Listening(false)),
            Action::StartDrainTimer { generation: 2, after_ms: 1500 },
        ]
    );
    assert_eq!(
        s.on_event(&finished("No wait, Thursday."), 0),
        vec![
            Action::SetGate(gate::NONE),
            Action::Tell(Status::Listening(false)),
            Action::Tell(Status::Cleaning),
            Action::Clean {
                raw: "Ship it Tuesday. No wait, Thursday.".to_string(),
                hide_pill: true,
            },
        ]
    );
    // The timer of a drain that has ended does nothing.
    assert!(s.on_drain_timeout(2).is_empty());
    assert_eq!(
        s.on_cleaned("raw words".to_string(), None, true),
        vec![Action::Commit("raw words".to_string()), Action::Pill(false)]
    );
    assert_eq!(
        s.on_cleaned("raw words".to_string(), Some("words".to_string()), false),
        vec![Action::Commit("words".to_string())]
    );
}

#[test]
fn drain_timeout_salvages_the_last_partial() {
    let mut s = ready(true, true, Mode::PushToTalk);
    s.on_press();
    s.on_event(&finished("First."), 0);
    s.on_event(&partial("and sec"), 0);
    s.on_release();
    assert!(s.on_drain_timeout(1).is_empty(), "an older window's timer");
    assert_eq!(
        s.on_drain_timeout(2),
        vec![
            Action::SetGate(gate::NONE),
            Action::Tell(Status::Listening(false)),
            Action::Tell(Status::Cleaning),
            Action::Clean { raw: "First. and sec".to_string(), hide_pill: true },
        ]
    );
}

#[test]
fn drain_timeout_with_nothing_said_hides_the_pill() {
    let mut s = ready(true, true, Mode::PushToTalk);
    s.on_press();
    s.on_release();
    assert_eq!(
        s.on_drain_timeout(2),
        vec![
            Action::SetGate(gate::NONE),
            Action::ResetInjector,
            Action::Tell(Status::Listening(false)),
            Action::Pill(false),
        ]
    );
}

#[test]
fn without_cleanup_text_is_typed_live() {
    let mut s = ready(true, false, Mode::Toggle);
    assert_eq!(
        s.on_press(),
        vec![
            Action::ResetInjector,
            Action::SetGate(gate::REAL),
            Action::Tell(Status::Listening(true)),
            Action::Pill(true),
        ]
    );
    assert!(s.on_release().is_empty(), "a toggle ignores the release");
    assert_eq!(s.on_event(&partial("hel"), 0), vec![Action::Partial("hel".to_string())]);
    assert_eq!(s.on_event(&finished("Hello."), 0), vec![Action::Commit("Hello.".to_string())]);
    s.on_press();
    assert_eq!(
        s.on_event(&finished("Bye."), 0),
        vec![
            Action::Commit("Bye.".to_string()),
            Action::SetGate(gate::NONE),
            Action::Tell(Status::Listening(false)),
            Action::Pill(false),
        ]
    );
    assert!(s.on_event(&finished("late"), 0).is_empty(), "idle sessions hear nothing");
}

#[test]
fn cleanup_can_be_switched_off() {
    let mut s = ready(true, true, Mode::PushToTalk);
    s.set_cleanup(false);
    s.on_press();
    assert_eq!(s.on_event(&partial("hel"), 0), vec![Action::Partial("hel".to_string())]);
}

#[test]
fn long_dictation_is_pasted_before_it_is_over() {
    let mut s = ready(true, true, Mode::PushToTalk);
    s.on_press();
    let long = utterance(MAX_BUFFER_CHARS + 1);
    assert_eq!(
        s.on_event(&finished(&long), 0),
        vec![
            Action::Tell(Status::Cleaning),
            Action::Clean { raw: long.clone(), hide_pill: false },
        ]
    );
    assert!(s.on_event(&finished("short"), 0).is_empty());
}

/// The words handed on for cleaning.
fn handed(actions: &[Action<String>]) -> Vec<String> {
    let mut words = Vec::new();
    for a in actions {
        if let Action::Clean { raw, .. } = a {
            words.extend(raw.split_whitespace().map(|w| w.to_string()));
        }
    }
    words
}

#[test]
fn no_word_of_a_long_dictation_is_lost() {
    for timeout in [false, true] {
        let mut s = ready(true, true, Mode::Toggle);
        s.on_press();
        let mut said: Vec<String> = Vec::new();
        let mut actions: Vec<Action<String>> = Vec::new();
        for i in 0..200 {
            let text = format!("  word{i} and more  ");
            said.extend(text.split_whitespace().map(|w| w.to_string()));
            actions.extend(s.on_event(&finished(&text), 0));
        }
        assert!(!actions.is_empty(), "long dictations are pasted in between");
        actions.extend(s.on_event(&partial("last words"), 0));
        said.extend(["last".to_string(), "words".to_string()]);
        s.on_press();
        actions.extend(if timeout {
            s.on_drain_timeout(2)
        } else {
            s.on_event(&finished("last words"), 0)
        });
        assert_eq!(handed(&actions), said);
    }
}

#[test]
fn meeting_keeps_lines_and_types_nothing() {
    let mut s = ready(true, true, Mode::PushToTalk);
    s.set_meeting_detected(Some("Zoom"));
    assert!(s.meeting_detected());
    assert_eq!(
        s.start_meeting(1_700_000_000),
        vec![
            Action::StartRecording("matalu-meeting-1700000000.wav".to_string()),
            Action::SetGate(gate::REAL),
            Action::ShowTranscript,
            Action::Tell(Status::Meeting),
        ]
    );
    assert!(s.is_meeting());
    assert!(s.on_press().is_empty() && s.on_release().is_empty());
    assert!(s.on_event(&partial("hel"), 900).is_empty());
    assert!(s.on_event(&finished("Hello."), 1_000).is_empty());
    assert!(s.on_event(&finished("Bye."), 2_500).is_empty());
    assert_eq!(
        s.stop_meeting(),
        vec![
            Action::SetGate(gate::NONE),
            Action::Tell(Status::Listening(false)),
            Action::StopRecording,
        ]
    );
    let (path, lines): (&str, Vec<Line>) = s.on_recorded(Some("m.wav")).expect("lines");
    assert_eq!(path, "m.wav");
    let spans: Vec<(u64, u64, &str)> =
        lines.iter().map(|l| (l.start_ms, l.end_ms, l.text.as_str())).collect();
    assert_eq!(spans, vec![(0, 1_000, "Hello."), (1_000, 2_500, "Bye.")]);
    assert!(s.on_recorded(Some("m.wav")).is_none(), "the lines are gone");
}

#[test]
fn status_is_told_in_words() {
    assert_eq!(Status::Ready.state(), Some("ready"));
    assert_eq!(Status::Warming.state(), Some("warming"));
    assert_eq!(Status::Meeting.state(), Some("meeting"));
    assert_eq!(Status::Cleaning.state(), Some("cleaning"));
    assert_eq!(Status::Listening(true).state(), None);
    assert!(Status::Meeting.listening());
    assert!(Status::Listening(true).listening());
    assert!(!Status::Listening(false).listening());
    assert!(!Status::Ready.listening());
}

#[test]
fn both_kinds_of_key_drive_the_session() {
    let mut s = ready(false, false, Mode::PushToTalk);
    assert_eq!(
        on_edge(&mut s, Edge::Pressed),
        vec![
            Action::SetGate(gate::REAL),
            Action::Tell(Status::Listening(true)),
            Action::Pill(true),
        ]
    );
    assert_eq!(on_edge(&mut s, Edge::Released).len(), 3);
    s.set_mode(Mode::Toggle);
    assert!(on_edge(&mut s, Edge::Released).is_empty());
}
