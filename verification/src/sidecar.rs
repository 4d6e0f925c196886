//! The speech recognizer, a process that takes samples and gives back lines.

use vstd::prelude::*;

use crate::corrector::Corrector;
use crate::corrector::PassThrough;
use crate::events;
use crate::events::TranscriptEvent;
use crate::json;
use crate::text;

verus! {

/// How long the recognizer may take to load before the microphone is opened
/// anyway.
pub const READY_TIMEOUT_MS: u64 = 180_000;

/// The byte of weight `256^k` of a sample's bits.
pub open spec fn sample_byte(bits: u32, k: int) -> u8 {
    if k == 0 {
        (bits % 256) as u8
    } else if k == 1 {
        (bits / 256 % 256) as u8
    } else if k == 2 {
        (bits / 65_536 % 256) as u8
    } else {
        (bits / 16_777_216) as u8
    }
}

/// The bytes that carry samples, given by their bits: four for each, the least
/// significant first.
pub open spec fn framed(samples: Seq<u32>) -> Seq<u8> {
    Seq::new(4 * samples.len(), |i: int| sample_byte(samples[i / 4], i % 4))
}

/// The bytes that carry samples, given by their bits: four for each, the least
/// significant first.
pub fn frame_samples(samples: &[u32]) -> (bytes: Vec<u8>)
    ensures
        bytes@ == framed(samples@),
{
    let mut bytes: Vec<u8> = Vec::new();
    let mut i: usize = 0;
    while i < samples.len()
        invariant
            i <= samples@.len(),
            bytes@ == framed(samples@.take(i as int)),
        decreases samples@.len() - i,
    {
        let bits: u32 = samples[i];
        bytes.push((bits % 256) as u8);
        bytes.push((bits / 256 % 256) as u8);
        bytes.push((bits / 65_536 % 256) as u8);
        bytes.push((bits / 16_777_216) as u8);
        assert(bytes@ =~= framed(samples@.take(i + 1)));
        i += 1;
    }
    assert(samples@.take(i as int) =~= samples@);
    bytes
}

/// The bits that four bytes carry.
pub open spec fn carried(bytes: Seq<u8>, i: int) -> int {
    bytes[4 * i] + 256 * bytes[4 * i + 1] + 65_536 * bytes[4 * i + 2] + 16_777_216 * bytes[4 * i
        + 3]
}

/// Nothing of a sample is lost on the way: its four bytes carry its bits.
pub proof fn law_frames_carry_the_samples(samples: Seq<u32>, i: int)
    requires
        0 <= i < samples.len(),
    ensures
        framed(samples).len() == 4 * samples.len(),
        carried(framed(samples), i) == samples[i],
{
    let bytes = framed(samples);
    assert(forall|k: int| 0 <= k < 4 ==> #[trigger] ((4 * i + k) / 4) == i && (4 * i + k) % 4 == k);
    assert(bytes[4 * i] == sample_byte(samples[i], 0)) by {
        assert((4 * i + 0) / 4 == i);
    }
    assert(bytes[4 * i + 1] == sample_byte(samples[i], 1)) by {
        assert((4 * i + 1) / 4 == i);
    }
    assert(bytes[4 * i + 2] == sample_byte(samples[i], 2)) by {
        assert((4 * i + 2) / 4 == i);
    }
    assert(bytes[4 * i + 3] == sample_byte(samples[i], 3)) by {
        assert((4 * i + 3) / 4 == i);
    }
}

/// What a line from the recognizer leads to.
pub enum LineAction {
    /// Nothing.
    Skip,
    /// The recognizer is ready; said once.
    Ready,
    /// An event to hand on, its text refined.
    Emit(TranscriptEvent),
    /// The line makes no sense and is reported.
    Unparseable,
}

/// What kind of line the recognizer sent.
pub enum LineKind {
    Blank,
    Control,
    Message,
}

/// The kind of a line, by what stands under `type` in it.
pub open spec fn line_kind(line: Seq<char>, kind: Option<Seq<char>>) -> LineKind {
    if text::is_blank(line) {
        LineKind::Blank
    } else if kind == Some("ready"@) {
        LineKind::Control
    } else {
        LineKind::Message
    }
}

/// `r` is the event `ev` with its text as the corrector refined it.
pub open spec fn refined_by<C: Corrector>(corrector: &C, ev: events::Event, r: events::Event) -> bool {
    &&& r.is_final == ev.is_final
    &&& r.ts_ms == ev.ts_ms
    &&& exists|before: &str, after: String|
        before@ == ev.text && after@ == r.text && #[trigger] call_ensures(
            C::refine,
            (corrector, before),
            after,
        )
}

/// An event whose text has been refined.
pub fn refine_event<C: Corrector>(corrector: &C, ev: TranscriptEvent) -> (r: TranscriptEvent)
    ensures
        refined_by(corrector, ev@, r@),
{
    let refined = corrector.refine(ev.text());
    ev.with_text(refined)
}

/// With nothing to refine it, an event is handed on as it came.
pub proof fn law_pass_through_changes_nothing(ev: events::Event, r: events::Event)
    requires
        refined_by(&PassThrough, ev, r),
    ensures
        r == ev,
{
}

/// What a line of the given kind leads to.
pub open spec fn line_action<C: Corrector>(
    kind: LineKind,
    heard_ready: bool,
    parsed: Option<TranscriptEvent>,
    corrector: &C,
    action: LineAction,
) -> bool {
    match kind {
        LineKind::Blank => action is Skip,
        LineKind::Control => if heard_ready {
            action is Skip
        } else {
            action is Ready
        },
        LineKind::Message => match parsed {
            Some(ev) => action is Emit && refined_by(corrector, ev@, action->Emit_0@),
            None => action is Unparseable,
        },
    }
}

/// Reads the recognizer's lines.
pub struct Reader {
    ready: bool,
}

impl Reader {
    /// Whether the recognizer has reported ready.
    pub closed spec fn heard_ready(&self) -> bool {
        self.ready
    }

    /// A reader that has read nothing yet.
    pub fn new() -> (r: Self)
        ensures
            !r.heard_ready(),
    {
        Reader { ready: false }
    }

    /// What a line leads to, given what stands under `type` in it, and the event
    /// that it is, if it is one.
    pub fn on_message<C: Corrector>(
        &mut self,
        line: &str,
        kind: Option<String>,
        parsed: Option<TranscriptEvent>,
        corrector: &C,
    ) -> (r: LineAction)
        ensures
            final(self).heard_ready() == (old(self).heard_ready() || line_kind(
                line@,
                text::opt_text(kind),
            ) is Control),
            line_action(
                line_kind(line@, text::opt_text(kind)),
                old(self).heard_ready(),
                parsed,
                corrector,
                r,
            ),
    {
        if text::blank(line) {
            return LineAction::Skip;
        }
        let control = match &kind {
            Some(k) => text::same_text(k.as_str(), "ready"),
            None => false,
        };
        if control {
            let first = !self.ready;
            self.ready = true;
            return if first {
                LineAction::Ready
            } else {
                LineAction::Skip
            };
        }
        match parsed {
            Some(ev) => LineAction::Emit(refine_event(corrector, ev)),
            None => LineAction::Unparseable,
        }
    }

    /// What a line leads to, given the event that it is, if it is one.
    pub fn on_line<C: Corrector>(
        &mut self,
        line: &str,
        parsed: Option<TranscriptEvent>,
        corrector: &C,
    ) -> (r: LineAction)
        ensures
            final(self).heard_ready() == (old(self).heard_ready() || line_kind(
                line@,
                json::text_at(line@, "type"@),
            ) is Control),
            line_action(
                line_kind(line@, json::text_at(line@, "type"@)),
                old(self).heard_ready(),
                parsed,
                corrector,
                r,
            ),
    {
        let kind = json::read_text(line, "type");
        self.on_message(line, kind, parsed, corrector)
    }
}

/// `r` is the event `ev` but for its text, which is what the corrector makes of the text
/// of `ev`.
pub open spec fn same_but_refined<C: Corrector>(
    corrector: &C,
    ev: TranscriptEvent,
    r: TranscriptEvent,
) -> bool {
    match (ev, r) {
        (
            TranscriptEvent::Partial { text: said, ts_ms: at },
            TranscriptEvent::Partial { text: told, ts_ms: time },
        ) => at == time && exists|before: &str, after: String|
            before@ == said@ && after@ == told@ && #[trigger] call_ensures(
                C::refine,
                (corrector, before),
                after,
            ),
        (
            TranscriptEvent::Final { text: said, ts_ms: at },
            TranscriptEvent::Final { text: told, ts_ms: time },
        ) => at == time && exists|before: &str, after: String|
            before@ == said@ && after@ == told@ && #[trigger] call_ensures(
                C::refine,
                (corrector, before),
                after,
            ),
        _ => false,
    }
}

/// Every line that is an event is handed on as that event with its text refined, whatever
/// type it names, as long as it is not blank and does not say ready; and it leaves the
/// reader as it was. Such a line that is no event is reported.
pub proof fn law_every_event_is_handed_on<C: Corrector>(
    k: &mut Reader,
    line: &str,
    kind: Option<String>,
    parsed: Option<TranscriptEvent>,
    corrector: &C,
    r: LineAction,
)
    requires
        call_ensures(Reader::on_message::<C>, (k, line, kind, parsed, corrector), r),
        exists|i: int| 0 <= i < line@.len() && !text::is_white_space(#[trigger] line@[i]),
        kind is Some ==> kind->0@ != "ready"@,
    ensures
        parsed is Some ==> r is Emit && same_but_refined(corrector, parsed->0, r->Emit_0),
        parsed is None ==> r is Unparseable,
        final(k).heard_ready() == old(k).heard_ready(),
{
    if parsed is Some {
        let ev = parsed->0;
        let told = r->Emit_0;
        assert(refined_by(corrector, ev@, told@));
    }
}

/// The same of a line whose type is read from the line itself.
pub proof fn law_every_event_line_is_handed_on<C: Corrector>(
    k: &mut Reader,
    line: &str,
    parsed: Option<TranscriptEvent>,
    corrector: &C,
    r: LineAction,
)
    requires
        call_ensures(Reader::on_line::<C>, (k, line, parsed, corrector), r),
        exists|i: int| 0 <= i < line@.len() && !text::is_white_space(#[trigger] line@[i]),
        json::text_at(line@, "type"@) != Some("ready"@),
    ensures
        parsed is Some ==> r is Emit && same_but_refined(corrector, parsed->0, r->Emit_0),
        parsed is None ==> r is Unparseable,
        final(k).heard_ready() == old(k).heard_ready(),
{
    if parsed is Some {
        let ev = parsed->0;
        let told = r->Emit_0;
        assert(refined_by(corrector, ev@, told@));
    }
}

/// A blank line leads to nothing. That the recognizer is ready is told at the first line
/// that says so, and at no other; from then on it is known.
pub proof fn law_ready_is_told_once<C: Corrector>(
    k: &mut Reader,
    line: &str,
    kind: Option<String>,
    parsed: Option<TranscriptEvent>,
    corrector: &C,
    r: LineAction,
)
    requires
        call_ensures(Reader::on_message::<C>, (k, line, kind, parsed, corrector), r),
    ensures
        ({
            let blank = forall|i: int|
                0 <= i < line@.len() ==> text::is_white_space(#[trigger] line@[i]);
            let says_ready = !blank && kind is Some && kind->0@ == "ready"@;
            &&& blank ==> r is Skip && final(k).heard_ready() == old(k).heard_ready()
            &&& says_ready ==> final(k).heard_ready()
            &&& says_ready && !old(k).heard_ready() ==> r is Ready
            &&& says_ready && old(k).heard_ready() ==> r is Skip
            &&& r is Ready ==> says_ready && !old(k).heard_ready()
        }),
{
}

/// The same of a line whose type is read from the line itself, and of a reader that has
/// read nothing yet.
pub proof fn law_ready_line_is_told_once<C: Corrector>(
    fresh: Reader,
    k: &mut Reader,
    line: &str,
    parsed: Option<TranscriptEvent>,
    corrector: &C,
    r: LineAction,
)
    requires
        call_ensures(Reader::new, (), fresh),
        call_ensures(Reader::on_line::<C>, (k, line, parsed, corrector), r),
    ensures
        ({
            let blank = forall|i: int|
                0 <= i < line@.len() ==> text::is_white_space(#[trigger] line@[i]);
            let says_ready = !blank && json::text_at(line@, "type"@) == Some("ready"@);
            &&& blank ==> r is Skip && final(k).heard_ready() == old(k).heard_ready()
            &&& says_ready ==> final(k).heard_ready()
            &&& says_ready && !old(k).heard_ready() ==> r is Ready
            &&& says_ready && old(k).heard_ready() ==> r is Skip
            &&& r is Ready ==> says_ready && !old(k).heard_ready()
        }),
        !fresh.heard_ready(),
{
}

/// Refining an event changes its text, as the corrector says, and nothing else.
pub proof fn law_refining_changes_the_text_alone<C: Corrector>(
    corrector: &C,
    ev: TranscriptEvent,
    r: TranscriptEvent,
)
    requires
        call_ensures(refine_event::<C>, (corrector, ev), r),
    ensures
        same_but_refined(corrector, ev, r),
{
    assert(refined_by(corrector, ev@, r@));
}

/// Samples are sent as they are: four bytes each, from which its bits can be put together
/// again, the least significant first.
pub proof fn law_samples_are_sent_as_they_are(samples: &[u32], bytes: Vec<u8>, i: int)
    requires
        call_ensures(frame_samples, (samples,), bytes),
        0 <= i < samples@.len(),
    ensures
        bytes@.len() == 4 * samples@.len(),
        samples@[i] == bytes@[4 * i] + 256 * bytes@[4 * i + 1] + 65_536 * bytes@[4 * i + 2]
            + 16_777_216 * bytes@[4 * i + 3],
{
    law_frames_carry_the_samples(samples@, i);
}

}
