//! Transcript events.

use vstd::prelude::*;

verus! {

/// A single message on the transcript stream.
///
/// Partial events grow and are revised while audio streams in; a final event is
/// emitted once an utterance is committed, after a silence.
#[derive(Clone, Debug)]
pub enum TranscriptEvent {
    Partial { text: String, ts_ms: u64 },
    Final { text: String, ts_ms: u64 },
}

/// An event as a value: whether it commits, its text, its time.
pub struct Event {
    pub is_final: bool,
    pub text: Seq<char>,
    pub ts_ms: u64,
}

impl View for TranscriptEvent {
    type V = Event;

    open spec fn view(&self) -> Event {
        match *self {
            TranscriptEvent::Partial { text, ts_ms } => Event {
                is_final: false,
                text: text@,
                ts_ms,
            },
            TranscriptEvent::Final { text, ts_ms } => Event { is_final: true, text: text@, ts_ms },
        }
    }
}

impl TranscriptEvent {
    /// What was transcribed.
    pub fn text(&self) -> (r: &str)
        ensures
            r@ == self@.text,
    {
        match self {
            TranscriptEvent::Partial { text, .. } => text.as_str(),
            TranscriptEvent::Final { text, .. } => text.as_str(),
        }
    }

    /// The same event with another text.
    pub fn with_text(self, text: String) -> (r: Self)
        ensures
            r@ == (Event { text: text@, ..self@ }),
    {
        match self {
            TranscriptEvent::Partial { ts_ms, .. } => TranscriptEvent::Partial { text, ts_ms },
            TranscriptEvent::Final { ts_ms, .. } => TranscriptEvent::Final { text, ts_ms },
        }
    }
}

/// The utterance that the demonstration speaks, word by word.
pub open spec fn demo_text(step: int) -> Seq<char> {
    if step == 0 {
        "hello"@
    } else if step == 1 {
        "hello world"@
    } else if step == 2 {
        "hello world this"@
    } else {
        "hello world this is a demo."@
    }
}

/// How many events the demonstrated utterance has.
pub const DEMO_STEPS: u8 = 4;

/// The time between two events of the demonstration.
pub const DEMO_STEP_MS: u64 = 400;

/// The synthetic transcript: an utterance that grows into a final event, over and
/// over, so that everything behind the transcript can be tried without audio.
pub struct Demo {
    step: u8,
    ts_ms: u64,
}

impl Demo {
    #[verifier::type_invariant]
    spec fn within_utterance(self) -> bool {
        self.step < DEMO_STEPS
    }

    /// The step of the utterance that comes next.
    pub closed spec fn step(&self) -> int {
        self.step as int
    }

    /// The time of the last event.
    pub closed spec fn ts_ms(&self) -> u64 {
        self.ts_ms
    }

    /// At the start of the utterance, at time zero.
    pub fn new() -> (r: Self)
        ensures
            r.step() == 0,
            r.ts_ms() == 0,
    {
        Demo { step: 0, ts_ms: 0 }
    }

    /// The next event: the last step of the utterance is final, and the first one
    /// follows it again.
    pub fn next(&mut self) -> (r: TranscriptEvent)
        requires
            old(self).ts_ms() + DEMO_STEP_MS <= u64::MAX,
        ensures
            0 <= old(self).step() < DEMO_STEPS,
            final(self).step() == (old(self).step() + 1) % (DEMO_STEPS as int),
            final(self).ts_ms() == old(self).ts_ms() + DEMO_STEP_MS,
            r@ == (Event {
                is_final: old(self).step() == DEMO_STEPS - 1,
                text: demo_text(old(self).step()),
                ts_ms: final(self).ts_ms(),
            }),
    {
        proof {
            use_type_invariant(&*self);
        }
        let step = self.step;
        self.ts_ms = self.ts_ms + DEMO_STEP_MS;
        let ts_ms = self.ts_ms;
        let text = if step == 0 {
            "hello".to_owned()
        } else if step == 1 {
            "hello world".to_owned()
        } else if step == 2 {
            "hello world this".to_owned()
        } else {
            "hello world this is a demo.".to_owned()
        };
        if step == DEMO_STEPS - 1 {
            self.step = 0;
            TranscriptEvent::Final { text, ts_ms }
        } else {
            self.step = step + 1;
            TranscriptEvent::Partial { text, ts_ms }
        }
    }
}

/// An event gives its text, whichever it is, and with another text it is the same event.
pub proof fn law_events_keep_what_they_are(
    ev: &TranscriptEvent,
    said: &str,
    text: String,
    r: TranscriptEvent,
)
    requires
        call_ensures(TranscriptEvent::text, (ev,), said),
        call_ensures(TranscriptEvent::with_text, (*ev, text), r),
    ensures
        *ev is Partial ==> said@ == ev->Partial_text@ && r is Partial && r->Partial_text@ == text@
            && r->Partial_ts_ms == ev->Partial_ts_ms,
        *ev is Final ==> said@ == ev->Final_text@ && r is Final && r->Final_text@ == text@
            && r->Final_ts_ms == ev->Final_ts_ms,
{
}

/// The demonstration speaks one utterance over and over: three partials that grow and a
/// final, four hundred milliseconds apart, starting at time zero.
pub proof fn law_demo_speaks_its_utterance(fresh: Demo, k: &mut Demo, r: TranscriptEvent)
    requires
        call_ensures(Demo::new, (), fresh),
        old(k).ts_ms() + 400 <= u64::MAX,
        call_ensures(Demo::next, (k,), r),
    ensures
        fresh.step() == 0 && fresh.ts_ms() == 0,
        final(k).ts_ms() == old(k).ts_ms() + 400,
        r@.ts_ms == old(k).ts_ms() + 400,
        old(k).step() == 0 ==> r is Partial && r@.text == "hello"@ && final(k).step() == 1,
        old(k).step() == 1 ==> r is Partial && r@.text == "hello world"@ && final(k).step() == 2,
        old(k).step() == 2 ==> r is Partial && r@.text == "hello world this"@ && final(k).step()
            == 3,
        old(k).step() == 3 ==> r is Final && r@.text == "hello world this is a demo."@,
        old(k).step() == 3 ==> final(k).step() == 0,
        0 <= old(k).step() < 4,
{
}

}
