use matalu::corrector::Corrector;
use matalu::corrector::PassThrough;
use matalu::events::Demo;
use matalu::events::TranscriptEvent;
use matalu::sidecar::frame_samples;
use matalu::sidecar::refine_event;
use matalu::sidecar::LineAction;
use matalu::sidecar::Reader;

#[test]
fn samples_travel_as_little_endian_bytes() {
    let samples = [0.5f32, -1.0, 1.0e-7, f32::MAX, 0.0];
    let bits: Vec<u32> = samples.iter().map(|s| s.to_bits()).collect();
    let mut expected: Vec<u8> = Vec::new();
    for s in &samples {
        expected.extend_from_slice(&s.to_le_bytes());
    }
    assert_eq!(frame_samples(&bits), expected);
    assert_eq!(frame_samples(&[0x0403_0201]), vec![1, 2, 3, 4]);
    assert!(frame_samples(&[]).is_empty());
}

fn event(t: &str) -> TranscriptEvent {
    TranscriptEvent::Final { text: t.to_string(), ts_ms: 9 }
}

fn is_event(a: &LineAction, t: &str) -> bool {
    matches!(a, LineAction::Emit(TranscriptEvent::Final { text, ts_ms: 9 }) if text == t)
}

#[test]
fn readiness_is_said_once() {
    let mut r = Reader::new();
    let p = PassThrough;
    assert!(matches!(r.on_line("", None, &p), LineAction::Skip));
    assert!(matches!(r.on_line("  \t", Some(event("x")), &p), LineAction::Skip));
    assert!(matches!(r.on_line("{\"type\":\"ready\"}", None, &p), LineAction::Ready));
    assert!(matches!(r.on_line("{\"type\":\"ready\",\"n\":1}", None, &p), LineAction::Skip));
}

#[test]
fn other_lines_are_events_or_reported() {
    let mut r = Reader::new();
    let p = PassThrough;
    let line = "{\"type\":\"final\",\"text\":\"hi\",\"ts_ms\":9}";
    assert!(is_event(&r.on_line(line, Some(event("hi")), &p), "hi"));
    assert!(matches!(r.on_line("garbage", None, &p), LineAction::Unparseable));
    assert!(matches!(r.on_line("{\"type\":7}", None, &p), LineAction::Unparseable));
    assert!(matches!(r.on_line("\"ready\"", None, &p), LineAction::Unparseable));
    // Decided by the type alone, whatever the line holds.
    let kind = Some("ready".to_string());
    assert!(matches!(r.on_message("x", kind, Some(event("x")), &p), LineAction::Ready));
    assert!(is_event(&r.on_message("x", Some("Ready".to_string()), Some(event("x")), &p), "x"));
}

struct Shout;

impl Corrector for Shout {
    fn refine(&self, text: &str) -> String {
        text.to_uppercase()
    }
}

#[test]
fn events_are_refined() {
    let mut r = Reader::new();
    assert!(is_event(&r.on_line("{}", Some(event("hi")), &Shout), "HI"));
    assert_eq!(refine_event(&Shout, event("a")).text(), "A");
    assert_eq!(refine_event(&PassThrough, event("a")).text(), "a");
    assert_eq!(PassThrough.refine("same"), "same");
}

#[test]
fn events_carry_their_text() {
    let p = TranscriptEvent::Partial { text: "a".to_string(), ts_ms: 3 };
    assert_eq!(p.text(), "a");
    assert!(matches!(
        p.with_text("b".to_string()),
        TranscriptEvent::Partial { text, ts_ms: 3 } if text == "b"
    ));
}

#[test]
fn demonstration_repeats_one_utterance() {
    let mut d = Demo::new();
    let mut seen: Vec<(bool, String, u64)> = Vec::new();
    for _ in 0..5 {
        seen.push(match d.next() {
            TranscriptEvent::Partial { text, ts_ms } => (false, text, ts_ms),
            TranscriptEvent::Final { text, ts_ms } => (true, text, ts_ms),
        });
    }
    assert_eq!(
        seen,
        vec![
            (false, "hello".to_string(), 400),
            (false, "hello world".to_string(), 800),
            (false, "hello world this".to_string(), 1200),
            (true, "hello world this is a demo.".to_string(), 1600),
            (false, "hello".to_string(), 2000),
        ]
    );
}
