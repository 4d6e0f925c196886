//! From the microphone to the recognizer: the audio gate, the drain burst and the
//! meeting recorder.
//!
//! Audio travels in buffers over two bounded queues, from capture to the audio gate and
//! from the audio gate to the recognizer. Neither side ever waits for the other: what a
//! full queue cannot take is dropped, and counted.

use vstd::prelude::*;

use crate::audio;
use crate::config::TARGET_SAMPLE_RATE;
use crate::gate;
use crate::queue;
use crate::queue::Inlet;
use crate::queue::Outlet;
use crate::session;

verus! {

/// The event that carries a transcript to the window.
pub const TRANSCRIPT_EVENT: &'static str = "transcript";

/// How many buffers each queue holds.
pub const QUEUE_BUFFERS: usize = 64;

/// How many events a listener may be behind.
pub const EVENT_BACKLOG: usize = 256;

/// The recognizer takes audio in steps of this length, and counts silence by them.
pub const SIDECAR_STEP_MS: u64 = 500;

/// The samples of one step.
pub const STEP_SAMPLES: usize = 8_000;

/// A sum that starts again at zero where it would not fit.
pub open spec fn wrapping_sum(a: u64, b: u64) -> u64 {
    if a + b > u64::MAX {
        (a + b - 0x1_0000_0000_0000_0000) as u64
    } else {
        (a + b) as u64
    }
}

/// The meeting recorder as a value.
#[verifier::ext_equal]
pub struct Recording<P, T> {
    /// Where the recording goes, while there is one.
    pub path: Option<P>,
    /// The samples recorded so far, or by the last recording.
    pub samples: u64,
    /// Samples that are recorded and not yet in the file.
    pub unwritten: Seq<T>,
}

impl<P, T> Recording<P, T> {
    /// A buffer is recorded, or ignored while nothing is.
    pub open spec fn written(self, buffer: Seq<T>) -> Self {
        if self.path is Some {
            Recording {
                samples: wrapping_sum(self.samples, buffer.len() as u64),
                unwritten: self.unwritten + buffer,
                ..self
            }
        } else {
            self
        }
    }

    /// Buffers are recorded, one after the other.
    pub open spec fn written_all(self, buffers: Seq<Seq<T>>) -> Self
        decreases buffers.len(),
    {
        if buffers.len() == 0 {
            self
        } else {
            self.written_all(buffers.drop_last()).written(buffers.last())
        }
    }
}

/// Records the audio of a meeting, and keeps the meeting's time by it. What is
/// recorded waits here until [`MeetingRecorder::take_unwritten`] fetches it for the
/// file.
pub struct MeetingRecorder<P, T> {
    path: Option<P>,
    samples: u64,
    unwritten: Vec<T>,
}

impl<P, T> View for MeetingRecorder<P, T> {
    type V = Recording<P, T>;

    closed spec fn view(&self) -> Recording<P, T> {
        Recording { path: self.path, samples: self.samples, unwritten: self.unwritten@ }
    }
}

impl<P, T: Copy> MeetingRecorder<P, T> {
    /// A recorder that records nothing yet.
    pub fn new() -> (r: Self)
        ensures
            r@ == (Recording::<P, T> { path: None, samples: 0, unwritten: Seq::empty() }),
    {
        MeetingRecorder { path: None, samples: 0, unwritten: Vec::new() }
    }

    /// Begins to record, to a file that has been created at `path`.
    pub fn start(&mut self, path: P)
        ensures
            final(self)@ == (Recording::<P, T> {
                path: Some(path),
                samples: 0,
                unwritten: Seq::empty(),
            }),
    {
        self.samples = 0;
        self.path = Some(path);
        self.unwritten = Vec::new();
    }

    /// Records a buffer. Does nothing unless a recording is on.
    pub fn write(&mut self, buf: &[T])
        ensures
            final(self)@ == old(self)@.written(buf@),
    {
        if self.path.is_some() {
            let ghost before = self.unwritten@;
            let mut i: usize = 0;
            while i < buf.len()
                invariant
                    i <= buf@.len(),
                    self.unwritten@ == before + buf@.take(i as int),
                    self.path == old(self).path,
                    self.samples == old(self).samples,
                decreases buf@.len() - i,
            {
                self.unwritten.push(buf[i]);
                assert(before + buf@.take(i + 1) =~= (before + buf@.take(i as int)).push(
                    buf@[i as int],
                ));
                i += 1;
            }
            assert(buf@.take(i as int) =~= buf@);
            self.samples = self.samples.wrapping_add(buf.len() as u64);
        }
    }

    /// The recorded samples that are not yet in the file.
    pub fn take_unwritten(&mut self) -> (r: Vec<T>)
        ensures
            r@ == old(self)@.unwritten,
            final(self)@ == (Recording { unwritten: Seq::empty(), ..old(self)@ }),
    {
        let mut r: Vec<T> = Vec::new();
        std::mem::swap(&mut r, &mut self.unwritten);
        r
    }

    /// Stops recording, and says where the recording went, if there was one.
    pub fn stop(&mut self) -> (r: Option<P>)
        ensures
            r == old(self)@.path,
            final(self)@ == (Recording { path: None, ..old(self)@ }),
    {
        self.path.take()
    }

    /// How long the meeting has been recorded, in milliseconds.
    pub fn elapsed_ms(&self) -> (r: u64)
        ensures
            r == self@.samples * 1000 / TARGET_SAMPLE_RATE as int,
    {
        self.samples / 16
    }
}

/// The steps of silence in a drain burst: those that the recognizer needs to see
/// before it ends the utterance, and one more, since the burst begins inside a step.
pub open spec fn burst_steps(silence_ms: u64) -> nat {
    ((silence_ms + SIDECAR_STEP_MS - 1) / SIDECAR_STEP_MS as int + 1) as nat
}

/// The samples of a drain burst can be counted.
pub open spec fn burst_countable(silence_ms: u64) -> bool {
    &&& burst_steps(silence_ms) * SIDECAR_STEP_MS * TARGET_SAMPLE_RATE <= u64::MAX
    &&& burst_steps(silence_ms) * STEP_SAMPLES <= usize::MAX
}

/// Says whether the samples of a drain burst can be counted.
pub fn burst_fits(silence_ms: u64) -> (r: bool)
    ensures
        r == burst_countable(silence_ms),
{
    let steps: u128 = (silence_ms as u128 + 499) / 500 + 1;
    steps * 8_000_000 <= u64::MAX as u128 && steps * 8_000 <= usize::MAX as u128
}

/// How many silent samples a drain burst holds.
pub fn drain_burst_samples(silence_ms: u64) -> (r: usize)
    requires
        burst_countable(silence_ms),
    ensures
        r == burst_steps(silence_ms) * STEP_SAMPLES,
{
    let whole: u64 = silence_ms / SIDECAR_STEP_MS;
    let steps: u64 = if silence_ms % SIDECAR_STEP_MS == 0 {
        whole + 1
    } else {
        whole + 2
    };
    assert(steps == burst_steps(silence_ms));
    assert(steps * 500 * 16_000 == steps * 8_000_000 && steps * 8_000_000 / 1000 == steps * 8_000);
    (steps * 500 * 16_000 / 1000) as usize
}

/// Silence of the given length.
pub open spec fn silent<T>(silence: T, len: nat) -> Seq<T> {
    Seq::new(len, |i: int| silence)
}

/// Silence of the given length.
pub fn silence_of<T: Copy>(silence: T, len: usize) -> (r: Vec<T>)
    ensures
        r@ == silent(silence, len as nat),
{
    let mut r: Vec<T> = Vec::new();
    let mut i: usize = 0;
    while i < len
        invariant
            i <= len,
            r@ == silent(silence, i as nat),
        decreases len - i,
    {
        r.push(silence);
        assert(r@ =~= silent(silence, (i + 1) as nat));
        i += 1;
    }
    r
}

/// Sends a buffer on, and counts it if the queue cannot take it. Says whether the
/// loss is reported.
pub fn forward_to_sidecar<T>(outlet: &mut Outlet<T>, buf: Vec<T>, dropped: &mut u64) -> (report:
    bool)
    requires
        *old(dropped) < u64::MAX,
    ensures
        final(outlet)@.len() == old(outlet)@.len() + 1,
        final(outlet)@ == old(outlet)@.push(
            (queue::Offer { buffer: buf@, taken: final(outlet)@.last().taken }),
        ),
        *final(dropped) == *old(dropped) + if final(outlet)@.last().taken {
            0int
        } else {
            1int
        },
        report == (!final(outlet)@.last().taken && *final(dropped) % audio::DROPS_PER_REPORT == 1),
{
    if outlet.offer(buf) {
        false
    } else {
        audio::count_drop(dropped)
    }
}

/// Reading ended because the queue was empty.
pub open spec fn emptied<T>(answers: Seq<Option<Seq<T>>>) -> bool {
    answers.len() > 0 && answers.last() is None
}

/// The buffers among the answers of reading a queue until it is empty.
pub open spec fn buffers<T>(answers: Seq<Option<Seq<T>>>) -> Seq<Seq<T>> {
    Seq::new(
        if emptied(answers) {
            (answers.len() - 1) as nat
        } else {
            answers.len()
        },
        |i: int| answers[i]->0,
    )
}

/// The answers of reading a queue until it is empty. That it never is, through
/// more reads than can be counted, is left open.
pub open spec fn read_until_empty<T>(answers: Seq<Option<Seq<T>>>) -> bool {
    &&& emptied(answers) || answers.len() == u64::MAX
    &&& forall|i: int| 0 <= i < buffers(answers).len() ==> #[trigger] answers[i] is Some
}

/// The attempts that send a drain burst: one step of silence at a time, until all
/// are sent or one is not taken.
pub open spec fn is_burst<T>(offers: Seq<queue::Offer<T>>, silence: T, silence_ms: u64) -> bool {
    &&& 0 < offers.len() <= burst_steps(silence_ms)
    &&& forall|i: int|
        0 <= i < offers.len() ==> (#[trigger] offers[i]).buffer == silent(
            silence,
            STEP_SAMPLES as nat,
        )
    &&& forall|i: int| 0 <= i < offers.len() - 1 ==> (#[trigger] offers[i]).taken
    &&& offers.len() == burst_steps(silence_ms) || !offers.last().taken
}

/// The steps of a drain burst that were taken.
pub open spec fn steps_taken<T>(offers: Seq<queue::Offer<T>>) -> nat {
    if offers.last().taken {
        offers.len()
    } else {
        (offers.len() - 1) as nat
    }
}

/// A drain: the queue from capture is read until it is empty, each buffer is
/// recorded and sent on, and the burst follows.
pub open spec fn is_drain<P, T>(
    answers: Seq<Option<Seq<T>>>,
    offers: Seq<queue::Offer<T>>,
    before: Recording<P, T>,
    after: Recording<P, T>,
    silence: T,
    silence_ms: u64,
) -> bool {
    let flushed = buffers(answers);
    &&& read_until_empty(answers)
    &&& after == before.written_all(flushed)
    &&& flushed.len() < offers.len()
    &&& forall|i: int| 0 <= i < flushed.len() ==> (#[trigger] offers[i]).buffer == flushed[i]
    &&& is_burst(offers.skip(flushed.len() as int), silence, silence_ms)
}

/// The silent samples of a drain that were taken.
pub open spec fn burst_sent<T>(answers: Seq<Option<Seq<T>>>, offers: Seq<queue::Offer<T>>) -> nat {
    steps_taken(offers.skip(buffers(answers).len() as int)) * STEP_SAMPLES as nat
}

/// The buffer at hand was offered and not taken.
pub open spec fn lost<T>(offers: Seq<queue::Offer<T>>) -> bool {
    offers.len() > 0 && !offers[0].taken
}

/// What the audio gate's dealing with a buffer amounts to: what it read from capture, what
/// it offered to the recognizer, and what it recorded.
pub open spec fn passed<P, T>(
    passage: Passage,
    buffer: Seq<T>,
    answers: Seq<Option<Seq<T>>>,
    offers: Seq<queue::Offer<T>>,
    before: Recording<P, T>,
    after: Recording<P, T>,
    silence: T,
    silence_ms: u64,
) -> bool {
    match passage {
        Passage::Through => {
            &&& answers.len() == 0
            &&& offers.len() == 1
            &&& offers[0].buffer == buffer
            &&& after == before.written(buffer)
        },
        Passage::Drain => {
            &&& offers.len() > 0
            &&& offers[0].buffer == buffer
            &&& is_drain(
                answers,
                offers.skip(1),
                before.written(buffer),
                after,
                silence,
                silence_ms,
            )
        },
        Passage::Silence => {
            &&& answers.len() == 0
            &&& offers.len() == 1
            &&& offers[0].buffer == silent(silence, buffer.len())
            &&& after == before
        },
        Passage::Nothing => {
            &&& answers.len() == 0
            &&& offers.len() == 0
            &&& after == before
        },
    }
}

/// `longer` goes on where `shorter` ends.
pub open spec fn continues<A>(shorter: Seq<A>, longer: Seq<A>) -> bool {
    &&& shorter.len() <= longer.len()
    &&& longer.take(shorter.len() as int) == shorter
}

/// Reads the queue from capture until it is empty; records each buffer and sends it
/// on.
fn flush_queued<P, T: Copy>(
    inlet: &mut Inlet<T>,
    outlet: &mut Outlet<T>,
    recorder: &mut MeetingRecorder<P, T>,
)
    ensures
        continues(old(inlet)@, final(inlet)@),
        continues(old(outlet)@, final(outlet)@),
        ({
            let answers = final(inlet)@.skip(old(inlet)@.len() as int);
            let offers = final(outlet)@.skip(old(outlet)@.len() as int);
            let flushed = buffers(answers);
            &&& read_until_empty(answers)
            &&& final(recorder)@ == old(recorder)@.written_all(flushed)
            &&& flushed.len() == offers.len()
            &&& forall|i: int|
                0 <= i < flushed.len() ==> (#[trigger] offers[i]).buffer == flushed[i]
        }),
{
    let ghost in0 = inlet@;
    let ghost out0 = outlet@;
    let ghost rec0 = recorder@;
    let ghost mut answers: Seq<Option<Seq<T>>> = Seq::empty();
    let ghost mut flushed: Seq<Seq<T>> = Seq::empty();
    let ghost mut offers: Seq<queue::Offer<T>> = Seq::empty();
    let mut left: u64 = u64::MAX;
    let mut empty = false;
    while !empty && left > 0
        invariant
            inlet@ == in0 + answers,
            outlet@ == out0 + offers,
            recorder@ == rec0.written_all(flushed),
            flushed.len() == offers.len(),
            answers.len() == flushed.len() + if empty {
                1int
            } else {
                0int
            },
            answers.len() + left == u64::MAX,
            empty ==> answers.last() is None,
            forall|i: int|
                0 <= i < flushed.len() ==> (#[trigger] answers[i]) is Some && answers[i]->0
                    == flushed[i],
            forall|i: int| 0 <= i < flushed.len() ==> (#[trigger] offers[i]).buffer == flushed[i],
        decreases left,
    {
        left -= 1;
        match inlet.take() {
            Some(pending) => {
                let ghost buffer = pending@;
                recorder.write(pending.as_slice());
                let taken = outlet.offer(pending);
                proof {
                    answers = answers.push(Some(buffer));
                    assert(flushed.push(buffer).drop_last() =~= flushed);
                    flushed = flushed.push(buffer);
                    offers = offers.push(queue::Offer { buffer, taken });
                    assert(inlet@ =~= in0 + answers);
                    assert(outlet@ =~= out0 + offers);
                }
            },
            None => {
                proof {
                    answers = answers.push(None);
                    assert(inlet@ =~= in0 + answers);
                }
                empty = true;
            },
        }
    }
    proof {
        assert(inlet@.skip(in0.len() as int) =~= answers);
        assert(outlet@.skip(out0.len() as int) =~= offers);
        assert(inlet@.take(in0.len() as int) =~= in0);
        assert(outlet@.take(out0.len() as int) =~= out0);
        if !empty && answers.len() > 0 {
            assert(answers[answers.len() - 1] is Some);
        }
        assert(buffers(answers) =~= flushed);
    }
}

/// Sends the silence of a drain burst, as far as the queue takes it.
fn send_burst<T: Copy>(outlet: &mut Outlet<T>, silence: T, silence_ms: u64) -> (sent: usize)
    requires
        burst_countable(silence_ms),
    ensures
        continues(old(outlet)@, final(outlet)@),
        is_burst(final(outlet)@.skip(old(outlet)@.len() as int), silence, silence_ms),
        sent == steps_taken(final(outlet)@.skip(old(outlet)@.len() as int)) * STEP_SAMPLES,
{
    let ghost out0 = outlet@;
    let ghost mut offers: Seq<queue::Offer<T>> = Seq::empty();
    let ghost mut steps: nat = 0;
    let ghost wanted = burst_steps(silence_ms);
    let total = drain_burst_samples(silence_ms);
    let mut sent: usize = 0;
    let mut full = false;
    while !full && sent < total
        invariant
            total == wanted * 8_000,
            outlet@ == out0 + offers,
            sent == steps * 8_000,
            steps <= wanted,
            offers.len() == steps + if full {
                1int
            } else {
                0int
            },
            full ==> !offers.last().taken && steps < wanted,
            forall|i: int|
                0 <= i < offers.len() ==> (#[trigger] offers[i]).buffer == silent(silence, 8_000),
            forall|i: int| 0 <= i < steps ==> (#[trigger] offers[i]).taken,
        decreases total - sent, (if full { 0int } else { 1int }),
    {
        let n: usize = if total - sent < STEP_SAMPLES {
            total - sent
        } else {
            STEP_SAMPLES
        };
        assert(n == STEP_SAMPLES);
        let taken = outlet.offer(silence_of(silence, n));
        proof {
            offers = offers.push(queue::Offer { buffer: silent(silence, 8_000), taken });
            assert(outlet@ =~= out0 + offers);
        }
        if taken {
            sent += n;
            proof {
                steps = steps + 1;
            }
        } else {
            full = true;
        }
    }
    proof {
        assert(outlet@.skip(out0.len() as int) =~= offers);
        assert(outlet@.take(out0.len() as int) =~= out0);
    }
    sent
}

/// Sends the drain silence all at once, behind what is still queued.
///
/// Buffers that wait in the queue when the audio gate begins to drain were captured
/// before: they are the speaker's last words, so they go first. Then comes enough
/// silence for the recognizer to end the utterance, in one buffer for each of its
/// steps. A full queue cuts the burst short; nothing waits for it. Returns the
/// silent samples that were taken.
pub fn burst_drain_silence<P, T: Copy>(
    inlet: &mut Inlet<T>,
    outlet: &mut Outlet<T>,
    recorder: &mut MeetingRecorder<P, T>,
    silence: T,
    silence_ms: u64,
) -> (sent: usize)
    requires
        burst_countable(silence_ms),
    ensures
        continues(old(inlet)@, final(inlet)@),
        continues(old(outlet)@, final(outlet)@),
        is_drain(
            final(inlet)@.skip(old(inlet)@.len() as int),
            final(outlet)@.skip(old(outlet)@.len() as int),
            old(recorder)@,
            final(recorder)@,
            silence,
            silence_ms,
        ),
        sent == burst_sent(
            final(inlet)@.skip(old(inlet)@.len() as int),
            final(outlet)@.skip(old(outlet)@.len() as int),
        ),
{
    let ghost out0 = outlet@;
    flush_queued(inlet, outlet, recorder);
    let ghost out1 = outlet@;
    let sent = send_burst(outlet, silence, silence_ms);
    proof {
        let k = (out1.len() - out0.len()) as int;
        let offers = outlet@.skip(out0.len() as int);
        assert(outlet@.take(out0.len() as int) =~= out1.take(out0.len() as int));
        assert(offers.skip(k) =~= outlet@.skip(out1.len() as int));
        assert forall|i: int| 0 <= i < k implies #[trigger] offers[i] == out1.skip(
            out0.len() as int,
        )[i] by {
            assert(outlet@.take(out1.len() as int)[out0.len() + i] == out1[out0.len() + i]);
        }
    }
    sent
}

/// The audio gate as a value.
#[verifier::ext_equal]
pub struct Gating {
    /// The mode that the last buffer met.
    pub prev: u8,
    /// The buffers that the queue to the recognizer could not take.
    pub dropped: u64,
}

/// Lets audio through to the recognizer, or silence, or nothing.
pub struct AudioGate {
    prev: u8,
    dropped: u64,
}

impl View for AudioGate {
    type V = Gating;

    closed spec fn view(&self) -> Gating {
        Gating { prev: self.prev, dropped: self.dropped }
    }
}

/// What the audio gate does with a buffer.
pub enum Passage {
    /// It goes through.
    Through,
    /// It goes through as the last one before a drain.
    Drain,
    /// Silence of its length goes through.
    Silence,
    /// Nothing goes through.
    Nothing,
}

/// What the audio gate does with a buffer that meets `mode` after one that met `prev`.
/// The buffer at hand when the audio gate begins to drain was captured before, so it
/// still goes through.
pub open spec fn passage(prev: u8, mode: u8) -> Passage {
    if mode == gate::REAL {
        Passage::Through
    } else if mode == gate::SILENCE {
        if prev == gate::SILENCE {
            Passage::Silence
        } else {
            Passage::Drain
        }
    } else {
        Passage::Nothing
    }
}

impl AudioGate {
    /// A gate that is closed.
    pub fn new() -> (r: Self)
        ensures
            r@ == (Gating { prev: gate::NONE, dropped: 0 }),
    {
        AudioGate { prev: gate::NONE, dropped: 0 }
    }

    /// The buffers that the queue to the recognizer could not take.
    pub fn dropped(&self) -> (r: u64)
        ensures
            r == self@.dropped,
    {
        self.dropped
    }

    /// Deals with one buffer from capture. Says whether a loss is reported.
    pub fn on_buffer<P, T: Copy>(
        &mut self,
        mode: u8,
        buf: Vec<T>,
        inlet: &mut Inlet<T>,
        outlet: &mut Outlet<T>,
        recorder: &mut MeetingRecorder<P, T>,
        silence: T,
        silence_ms: u64,
    ) -> (report: bool)
        requires
            burst_countable(silence_ms),
            old(self)@.dropped < u64::MAX,
        ensures
            final(self)@.prev == mode,
            continues(old(inlet)@, final(inlet)@),
            continues(old(outlet)@, final(outlet)@),
            passed(
                passage(old(self)@.prev, mode),
                buf@,
                final(inlet)@.skip(old(inlet)@.len() as int),
                final(outlet)@.skip(old(outlet)@.len() as int),
                old(recorder)@,
                final(recorder)@,
                silence,
                silence_ms,
            ),
            final(self)@.dropped == old(self)@.dropped + if lost(
                final(outlet)@.skip(old(outlet)@.len() as int),
            ) {
                1int
            } else {
                0int
            },
            report == (lost(final(outlet)@.skip(old(outlet)@.len() as int))
                && final(self)@.dropped % audio::DROPS_PER_REPORT == 1),
    {
        let prev = self.prev;
        self.prev = mode;
        let ghost in0 = inlet@;
        let ghost out0 = outlet@;
        let ghost rec0 = recorder@;
        if mode == gate::SILENCE && prev != gate::SILENCE {
            recorder.write(buf.as_slice());
            let report = forward_to_sidecar(outlet, buf, &mut self.dropped);
            let ghost out1 = outlet@;
            let _ = burst_drain_silence(inlet, outlet, recorder, silence, silence_ms);
            proof {
                let offers = outlet@.skip(out0.len() as int);
                assert(outlet@.take(out1.len() as int)[out0.len() as int] == out1.last());
                assert(offers.skip(1) =~= outlet@.skip(out1.len() as int));
                assert(outlet@.take(out0.len() as int) =~= out1.take(out0.len() as int));
                assert(out1.take(out0.len() as int) =~= out0);
            }
            return report;
        }
        let out = if mode == gate::REAL {
            recorder.write(buf.as_slice());
            buf
        } else if mode == gate::SILENCE {
            silence_of(silence, buf.len())
        } else {
            assert(outlet@.take(out0.len() as int) =~= out0);
            assert(inlet@.take(in0.len() as int) =~= in0);
            return false;
        };
        let report = forward_to_sidecar(outlet, out, &mut self.dropped);
        assert(outlet@.take(out0.len() as int) =~= out0);
        assert(inlet@.take(in0.len() as int) =~= in0);
        report
    }
}

/// What the app sets up when it starts.
#[derive(Clone, Copy, PartialEq, Eq, Debug, Structural)]
pub struct Startup {
    /// Text is typed into other apps.
    pub inject: bool,
    /// Dictations are cleaned.
    pub clean: bool,
    /// Events are made up, without a microphone or a recognizer.
    pub demo: bool,
}

/// What the app sets up, by the switches that are set. A demonstration is shown as
/// it is, without cleanup.
pub fn startup(no_inject: bool, no_cleanup: bool, demo: bool) -> (r: Startup)
    ensures
        r == (Startup { inject: !no_inject, clean: !(no_cleanup || demo), demo }),
{
    Startup { inject: !no_inject, clean: !no_cleanup && !demo, demo }
}

/// The step of silence after which the recognizer ends the utterance.
pub open spec fn final_step(silence_ms: u64) -> nat {
    if silence_ms == 0 {
        1
    } else {
        (burst_steps(silence_ms) - 1) as nat
    }
}

/// A burst always makes the recognizer end the utterance. Its whole steps reach the
/// step at which the silence is long enough, which no earlier step does, and beyond
/// that there is one spare step, no more.
pub proof fn law_burst_ends_the_utterance(silence_ms: u64)
    ensures
        final_step(silence_ms) >= 1,
        final_step(silence_ms) * SIDECAR_STEP_MS >= silence_ms,
        forall|step: nat|
            1 <= step < final_step(silence_ms) ==> #[trigger] (step * SIDECAR_STEP_MS) < silence_ms,
        final_step(silence_ms) <= burst_steps(silence_ms),
        silence_ms > 0 ==> burst_steps(silence_ms) == final_step(silence_ms) + 1,
{
}

/// The buffers of the first `n` attempts.
pub open spec fn offered<T>(offers: Seq<queue::Offer<T>>, n: nat) -> Seq<Seq<T>> {
    Seq::new(n, |i: int| offers[i].buffer)
}

/// Buffers as one stretch of samples.
pub open spec fn concat<T>(bufs: Seq<Seq<T>>) -> Seq<T>
    decreases bufs.len(),
{
    if bufs.len() == 0 {
        Seq::empty()
    } else {
        concat(bufs.drop_last()) + bufs.last()
    }
}

/// How many of the attempts made for one buffer carry audio from the microphone.
pub open spec fn real_offers<T>(passage: Passage, answers: Seq<Option<Seq<T>>>) -> nat {
    match passage {
        Passage::Through => 1,
        Passage::Drain => 1 + buffers(answers).len(),
        Passage::Silence => 0,
        Passage::Nothing => 0,
    }
}

/// The speaker's last words are never overtaken by silence: when the audio gate begins to
/// drain, the buffer at hand and all that wait in the queue are offered first, in
/// the order of capture, and only silence follows.
pub proof fn law_last_words_go_before_silence<P, T>(
    prev: u8,
    buffer: Seq<T>,
    answers: Seq<Option<Seq<T>>>,
    offers: Seq<queue::Offer<T>>,
    before: Recording<P, T>,
    after: Recording<P, T>,
    silence: T,
    silence_ms: u64,
)
    requires
        prev != gate::SILENCE,
        passed(
            passage(prev, gate::SILENCE),
            buffer,
            answers,
            offers,
            before,
            after,
            silence,
            silence_ms,
        ),
    ensures
        offered(offers, 1 + buffers(answers).len()) == seq![buffer] + buffers(answers),
        forall|i: int|
            1 + buffers(answers).len() <= i < offers.len() ==> (#[trigger] offers[i]).buffer
                == silent(silence, STEP_SAMPLES as nat),
{
    let flushed = buffers(answers);
    let rest = offers.skip(1);
    assert forall|i: int| 0 <= i < flushed.len() implies #[trigger] flushed[i] == offers[i
        + 1].buffer by {
        assert(rest[i].buffer == flushed[i]);
    }
    assert(offered(offers, 1 + flushed.len()) =~= seq![buffer] + flushed);
    let burst = rest.skip(flushed.len() as int);
    assert forall|i: int| 1 + flushed.len() <= i < offers.len() implies (
    #[trigger] offers[i]).buffer == silent(silence, STEP_SAMPLES as nat) by {
        assert(burst[i - 1 - flushed.len()] == offers[i]);
    }
}

/// Nobody is overheard: while a session is idle, nothing of what the microphone
/// picks up reaches the recognizer, or is recorded.
pub proof fn law_idle_session_is_not_heard<P, T>(
    m: session::Model,
    prev: u8,
    buffer: Seq<T>,
    answers: Seq<Option<Seq<T>>>,
    offers: Seq<queue::Offer<T>>,
    before: Recording<P, T>,
    after: Recording<P, T>,
    silence: T,
    silence_ms: u64,
)
    requires
        m.wf(),
        m.state == session::State::Idle,
        passed(
            passage(prev, m.gate),
            buffer,
            answers,
            offers,
            before,
            after,
            silence,
            silence_ms,
        ),
    ensures
        offers.len() == 0,
        after == before,
{
}

/// While a drain goes on after its burst, the recognizer hears silence only,
/// whatever the microphone picks up.
pub proof fn law_draining_session_is_not_heard<P, T>(
    m: session::Model,
    buffer: Seq<T>,
    answers: Seq<Option<Seq<T>>>,
    offers: Seq<queue::Offer<T>>,
    before: Recording<P, T>,
    after: Recording<P, T>,
    silence: T,
    silence_ms: u64,
)
    requires
        m.wf(),
        m.state == session::State::Draining,
        passed(
            passage(gate::SILENCE, m.gate),
            buffer,
            answers,
            offers,
            before,
            after,
            silence,
            silence_ms,
        ),
    ensures
        offered(offers, offers.len()) == seq![silent(silence, buffer.len())],
        after == before,
{
    assert(offered(offers, offers.len()) =~= seq![silent(silence, buffer.len())]);
}

/// A meeting is recorded whole: while it is on, every buffer is recorded and
/// offered as it came.
pub proof fn law_meeting_is_recorded<P, T>(
    m: session::Model,
    prev: u8,
    buffer: Seq<T>,
    answers: Seq<Option<Seq<T>>>,
    offers: Seq<queue::Offer<T>>,
    before: Recording<P, T>,
    after: Recording<P, T>,
    silence: T,
    silence_ms: u64,
)
    requires
        m.wf(),
        m.meeting,
        before.path is Some,
        passed(
            passage(prev, m.gate),
            buffer,
            answers,
            offers,
            before,
            after,
            silence,
            silence_ms,
        ),
    ensures
        offered(offers, offers.len()) == seq![buffer],
        after.unwritten == before.unwritten + buffer,
{
    assert(offered(offers, offers.len()) =~= seq![buffer]);
}

/// Unless the queue refuses a buffer, the whole burst is sent.
pub proof fn law_unhindered_burst_is_complete<P, T>(
    answers: Seq<Option<Seq<T>>>,
    offers: Seq<queue::Offer<T>>,
    before: Recording<P, T>,
    after: Recording<P, T>,
    silence: T,
    silence_ms: u64,
)
    requires
        is_drain(answers, offers, before, after, silence, silence_ms),
        forall|i: int| 0 <= i < offers.len() ==> (#[trigger] offers[i]).taken,
    ensures
        burst_sent(answers, offers) == burst_steps(silence_ms) * STEP_SAMPLES,
{
    let burst = offers.skip(buffers(answers).len() as int);
    assert(burst.last() == offers.last());
}

/// Recording buffers appends them, and nothing else, while a recording is on.
proof fn lemma_written_all<P, T>(rec: Recording<P, T>, bufs: Seq<Seq<T>>)
    requires
        rec.path is Some,
    ensures
        rec.written_all(bufs).path == rec.path,
        rec.written_all(bufs).unwritten == rec.unwritten + concat(bufs),
    decreases bufs.len(),
{
    if bufs.len() == 0 {
        assert(rec.unwritten + concat(bufs) =~= rec.unwritten);
    } else {
        lemma_written_all(rec, bufs.drop_last());
        assert(rec.unwritten + concat(bufs.drop_last()) + bufs.last() =~= rec.unwritten + concat(
            bufs,
        ));
    }
}

/// While no recording is on, nothing is recorded.
proof fn lemma_unwritten_all<P, T>(rec: Recording<P, T>, bufs: Seq<Seq<T>>)
    requires
        rec.path is None,
    ensures
        rec.written_all(bufs) == rec,
    decreases bufs.len(),
{
    if bufs.len() > 0 {
        lemma_unwritten_all(rec, bufs.drop_last());
    }
}

/// A meeting's recording keeps all the audio that is offered to the recognizer,
/// whether the queue takes it or not, and none of the silence that is put in its
/// place.
pub proof fn law_recording_keeps_what_is_offered<P, T>(
    passage: Passage,
    buffer: Seq<T>,
    answers: Seq<Option<Seq<T>>>,
    offers: Seq<queue::Offer<T>>,
    before: Recording<P, T>,
    after: Recording<P, T>,
    silence: T,
    silence_ms: u64,
)
    requires
        passed(passage, buffer, answers, offers, before, after, silence, silence_ms),
    ensures
        before.path is Some ==> after.path == before.path && after.unwritten == before.unwritten
            + concat(offered(offers, real_offers(passage, answers))),
        before.path is None ==> after == before,
{
    let n = real_offers(passage, answers);
    match passage {
        Passage::Through => {
            let one = offered(offers, n);
            assert(one.drop_last() =~= Seq::empty());
            assert(concat(one) =~= buffer) by {
                reveal_with_fuel(concat, 2);
            }
        },
        Passage::Drain => {
            let flushed = buffers(answers);
            let rest = offers.skip(1);
            assert forall|i: int| 0 <= i < flushed.len() implies #[trigger] flushed[i] == offers[i
                + 1].buffer by {
                assert(rest[i].buffer == flushed[i]);
            }
            assert(offered(offers, n) =~= seq![buffer] + flushed);
            if before.path is Some {
                lemma_written_all(before.written(buffer), flushed);
                lemma_concat_first(buffer, flushed);
                assert(before.unwritten + buffer + concat(flushed) =~= before.unwritten + (buffer
                    + concat(flushed)));
            } else {
                lemma_unwritten_all(before, flushed);
            }
        },
        _ => {
            assert(concat(offered(offers, 0)) =~= Seq::<T>::empty());
            assert(before.unwritten + concat(offered(offers, 0)) =~= before.unwritten);
        },
    }
}

proof fn lemma_concat_first<T>(first: Seq<T>, bufs: Seq<Seq<T>>)
    ensures
        concat(seq![first] + bufs) == first + concat(bufs),
    decreases bufs.len(),
{
    let all = seq![first] + bufs;
    if bufs.len() == 0 {
        assert(all.drop_last() =~= Seq::empty());
        assert(all.last() == first);
        assert(concat(all.drop_last()) =~= Seq::<T>::empty());
        assert(concat(all) =~= first + concat(bufs));
    } else {
        assert(all.drop_last() =~= seq![first] + bufs.drop_last());
        lemma_concat_first(first, bufs.drop_last());
        assert(concat(all) =~= first + concat(bufs));
    }
}

/// The buffers that the queue took, in order.
pub open spec fn accepted<T>(offers: Seq<queue::Offer<T>>) -> Seq<Seq<T>>
    decreases offers.len(),
{
    if offers.len() == 0 {
        Seq::empty()
    } else {
        let before = accepted(offers.drop_last());
        if offers.last().taken {
            before.push(offers.last().buffer)
        } else {
            before
        }
    }
}

/// A queue that takes everything gets all that it is offered.
proof fn lemma_all_accepted<T>(offers: Seq<queue::Offer<T>>)
    requires
        forall|i: int| 0 <= i < offers.len() ==> (#[trigger] offers[i]).taken,
    ensures
        accepted(offers) == offered(offers, offers.len()),
    decreases offers.len(),
{
    if offers.len() > 0 {
        let front = offers.drop_last();
        assert forall|i: int| 0 <= i < front.len() implies (#[trigger] front[i]).taken by {
            assert(front[i] == offers[i]);
        }
        lemma_all_accepted(front);
        assert(offers[offers.len() - 1].taken);
    }
    assert(accepted(offers) =~= offered(offers, offers.len()));
}

/// When the audio gate begins to drain and the queue takes everything, the recognizer
/// gets the buffer at hand, then all that waited in the queue from capture, then the
/// whole burst of silence, and nothing else.
pub proof fn law_drain_delivers_last_words_and_silence<P, T>(
    prev: u8,
    buffer: Seq<T>,
    answers: Seq<Option<Seq<T>>>,
    offers: Seq<queue::Offer<T>>,
    before: Recording<P, T>,
    after: Recording<P, T>,
    silence: T,
    silence_ms: u64,
)
    requires
        prev != gate::SILENCE,
        passed(
            passage(prev, gate::SILENCE),
            buffer,
            answers,
            offers,
            before,
            after,
            silence,
            silence_ms,
        ),
        forall|i: int| 0 <= i < offers.len() ==> (#[trigger] offers[i]).taken,
    ensures
        accepted(offers) == seq![buffer] + buffers(answers) + Seq::new(
            burst_steps(silence_ms),
            |i: int| silent(silence, STEP_SAMPLES as nat),
        ),
{
    law_last_words_go_before_silence(
        prev,
        buffer,
        answers,
        offers,
        before,
        after,
        silence,
        silence_ms,
    );
    lemma_all_accepted(offers);
    let audible = 1 + buffers(answers).len();
    let burst = offers.skip(1).skip(buffers(answers).len() as int);
    assert(burst.last() == offers[offers.len() - 1]);
    assert(offers.len() == audible + burst_steps(silence_ms));
    let words = offered(offers, audible);
    assert forall|i: int| 0 <= i < offers.len() implies #[trigger] accepted(offers)[i] == (if i
        < audible {
        words[i]
    } else {
        silent(silence, STEP_SAMPLES as nat)
    }) by {
        assert(accepted(offers)[i] == offers[i].buffer);
    }
    assert(accepted(offers) =~= seq![buffer] + buffers(answers) + Seq::new(
        burst_steps(silence_ms),
        |i: int| silent(silence, STEP_SAMPLES as nat),
    ));
}

/// A run of buffers through the audio gate: what became of each, the recording and the
/// count of losses before and after each.
#[verifier::ext_equal]
pub struct Run<P, T> {
    pub buffers: Seq<Seq<T>>,
    pub prevs: Seq<u8>,
    pub answers: Seq<Seq<Option<Seq<T>>>>,
    pub offers: Seq<Seq<queue::Offer<T>>>,
    pub recordings: Seq<Recording<P, T>>,
    pub dropped: Seq<u64>,
}

impl<P, T> Run<P, T> {
    /// Every buffer met the audio gate in the same mode.
    pub open spec fn steady(self, mode: u8, silence: T, silence_ms: u64) -> bool {
        let n = self.buffers.len();
        &&& self.prevs.len() == self.answers.len() == self.offers.len() == n
        &&& self.recordings.len() == self.dropped.len() == n + 1
        &&& forall|i: int|
            0 <= i < n ==> passed(
                passage(self.prevs[i], mode),
                self.buffers[i],
                self.answers[i],
                #[trigger] self.offers[i],
                self.recordings[i],
                self.recordings[i + 1],
                silence,
                silence_ms,
            ) && self.dropped[i + 1] == self.dropped[i] + if lost(self.offers[i]) {
                1int
            } else {
                0int
            }
    }

    /// The run without its last buffer.
    pub open spec fn front(self) -> Run<P, T> {
        Run {
            buffers: self.buffers.drop_last(),
            prevs: self.prevs.drop_last(),
            answers: self.answers.drop_last(),
            offers: self.offers.drop_last(),
            recordings: self.recordings.drop_last(),
            dropped: self.dropped.drop_last(),
        }
    }
}

proof fn lemma_front_is_steady<P, T>(run: Run<P, T>, mode: u8, silence: T, silence_ms: u64)
    requires
        run.steady(mode, silence, silence_ms),
        run.buffers.len() > 0,
    ensures
        run.front().steady(mode, silence, silence_ms),
{
    let front = run.front();
    assert forall|i: int| 0 <= i < front.buffers.len() implies passed(
        passage(front.prevs[i], mode),
        front.buffers[i],
        front.answers[i],
        #[trigger] front.offers[i],
        front.recordings[i],
        front.recordings[i + 1],
        silence,
        silence_ms,
    ) && front.dropped[i + 1] == front.dropped[i] + (if lost(front.offers[i]) {
        1int
    } else {
        0int
    }) by {
        assert(front.offers[i] == run.offers[i]);
    }
}

/// While the audio gate is open every buffer is offered to the recognizer unaltered and
/// in order. Those that the queue does not take are counted, all of them and no others,
/// so if it takes everything nothing is counted and the recognizer gets exactly what was
/// captured.
pub proof fn law_open_gate_passes_every_buffer<P, T>(
    run: Run<P, T>,
    silence: T,
    silence_ms: u64,
)
    requires
        run.steady(gate::REAL, silence, silence_ms),
    ensures
        ({
            let offers = concat(run.offers);
            &&& offered(offers, offers.len()) == run.buffers
            &&& run.dropped.last() - run.dropped.first() == run.buffers.len() - accepted(
                offers,
            ).len()
            &&& (forall|i: int| 0 <= i < offers.len() ==> (#[trigger] offers[i]).taken) ==> accepted(
                offers,
            ) == run.buffers
        }),
    decreases run.buffers.len(),
{
    let n = run.buffers.len();
    let offers = concat(run.offers);
    if n > 0 {
        lemma_front_is_steady(run, gate::REAL, silence, silence_ms);
        law_open_gate_passes_every_buffer(run.front(), silence, silence_ms);
        let before = concat(run.front().offers);
        let own = run.offers[n - 1];
        assert(offers == before + own);
        assert(own.len() == 1);
        assert(own =~= seq![own[0]]);
        assert(offers.drop_last() =~= before);
        assert(offers.last() == own[0]);
        assert(before.len() == n - 1) by {
            assert(offered(before, before.len()).len() == n - 1);
        }
        assert forall|i: int| 0 <= i < n implies #[trigger] offered(offers, offers.len())[i]
            == run.buffers[i] by {
            if i < n - 1 {
                assert(offered(before, before.len())[i] == run.front().buffers[i]);
            }
        }
        assert(run.front().dropped.last() == run.dropped[n - 1]);
        assert(run.front().dropped.first() == run.dropped[0]);
    }
    assert(offered(offers, offers.len()) =~= run.buffers);
    if forall|i: int| 0 <= i < offers.len() ==> (#[trigger] offers[i]).taken {
        lemma_all_accepted(offers);
    }
}

/// While the audio gate is closed nothing is offered to the recognizer, nothing is
/// recorded and nothing is counted as lost.
pub proof fn law_closed_gate_passes_nothing<P, T>(run: Run<P, T>, silence: T, silence_ms: u64)
    requires
        run.steady(gate::NONE, silence, silence_ms),
    ensures
        concat(run.offers).len() == 0,
        run.recordings.last() == run.recordings.first(),
        run.dropped.last() == run.dropped.first(),
    decreases run.buffers.len(),
{
    let n = run.buffers.len();
    if n > 0 {
        lemma_front_is_steady(run, gate::NONE, silence, silence_ms);
        law_closed_gate_passes_nothing(run.front(), silence, silence_ms);
        assert(run.offers[n - 1].len() == 0);
        assert(run.front().recordings.last() == run.recordings[n - 1]);
        assert(run.front().recordings.first() == run.recordings[0]);
        assert(run.front().dropped.last() == run.dropped[n - 1]);
        assert(run.front().dropped.first() == run.dropped[0]);
    }
}

/// A meeting's time is kept by what is recorded: from the start, every sample
/// counts once.
pub proof fn law_time_is_kept_by_samples<P, T>(path: P, bufs: Seq<Seq<T>>)
    requires
        concat(bufs).len() <= u64::MAX,
    ensures
        (Recording::<P, T> { path: Some(path), samples: 0, unwritten: Seq::empty() }).written_all(
            bufs,
        ).samples == concat(bufs).len(),
    decreases bufs.len(),
{
    let rec = Recording::<P, T> { path: Some(path), samples: 0, unwritten: Seq::empty() };
    if bufs.len() > 0 {
        law_time_is_kept_by_samples(path, bufs.drop_last());
        lemma_written_all(rec, bufs.drop_last());
    }
}

/// `n` steps of half a second are one more than it takes to last `silence_ms`.
pub open spec fn one_step_to_spare(n: int, silence_ms: u64) -> bool {
    &&& n >= 1
    &&& 500 * (n - 1) >= silence_ms
    &&& n >= 2 ==> 500 * (n - 2) < silence_ms
}

/// A burst is as many whole steps of eight thousand samples as outlast the silence, and
/// one more.
pub proof fn law_burst_outlasts_the_silence(silence_ms: u64, r: usize, n: int)
    requires
        one_step_to_spare(n, silence_ms),
        8000 * n <= usize::MAX,
        call_ensures(drain_burst_samples, (silence_ms,), r),
    ensures
        r == 8000 * n,
{
    assert(n == burst_steps(silence_ms));
}

/// A burst can be counted exactly if its samples, a thousand times over, are not too many
/// for sixty-four bits, and its samples fit in memory.
pub proof fn law_countable_bursts_fit(silence_ms: u64, fits: bool, n: int)
    requires
        one_step_to_spare(n, silence_ms),
        call_ensures(burst_fits, (silence_ms,), fits),
    ensures
        fits <==> 8_000_000 * n <= u64::MAX && 8000 * n <= usize::MAX,
{
    assert(n == burst_steps(silence_ms));
    assert(burst_steps(silence_ms) * SIDECAR_STEP_MS * TARGET_SAMPLE_RATE == 8_000_000 * n);
    assert(burst_steps(silence_ms) * STEP_SAMPLES == 8000 * n);
}

/// Silence is as long as it is asked for, and silent throughout.
pub proof fn law_silence_is_silent<T: Copy>(silence: T, len: usize, r: Vec<T>)
    requires
        call_ensures(silence_of::<T>, (silence, len), r),
    ensures
        r@.len() == len,
        forall|i: int| 0 <= i < len ==> #[trigger] r@[i] == silence,
{
}

/// A buffer is offered once, as it is; it is counted exactly if it is not taken, and the
/// first of every hundred losses is reported.
pub proof fn law_losses_are_counted<T>(
    outlet: &mut Outlet<T>,
    buf: Vec<T>,
    dropped: &mut u64,
    report: bool,
)
    requires
        *old(dropped) < u64::MAX,
        call_ensures(forward_to_sidecar::<T>, (outlet, buf, dropped), report),
    ensures
        final(outlet)@.len() == old(outlet)@.len() + 1,
        final(outlet)@.drop_last() == old(outlet)@,
        final(outlet)@.last().buffer == buf@,
        final(outlet)@.last().taken ==> *final(dropped) == *old(dropped) && !report,
        !final(outlet)@.last().taken ==> *final(dropped) == *old(dropped) + 1,
        !final(outlet)@.last().taken ==> (report <==> *old(dropped) % 100 == 0),
{
    assert(final(outlet)@.drop_last() =~= old(outlet)@);
}

/// A buffer that is recorded, or ignored while nothing is.
pub open spec fn recorded<P, T>(
    before: Recording<P, T>,
    buffer: Seq<T>,
    after: Recording<P, T>,
) -> bool {
    &&& after.path == before.path
    &&& before.path is None ==> after == before
    &&& before.path is Some ==> {
        &&& after.unwritten == before.unwritten + buffer
        &&& before.samples + buffer.len() <= u64::MAX ==> after.samples == before.samples
            + buffer.len()
        &&& buffer.len() <= u64::MAX && before.samples + buffer.len() > u64::MAX ==> after.samples
            == before.samples + buffer.len() - 0x1_0000_0000_0000_0000
    }
}

/// While the audio gate is open each buffer is offered as it is and recorded, and nothing
/// is read from capture besides. A loss is counted.
pub proof fn law_open_gate_passes_the_buffer<P, T: Copy>(
    k: &mut AudioGate,
    buf: Vec<T>,
    inlet: &mut Inlet<T>,
    outlet: &mut Outlet<T>,
    recorder: &mut MeetingRecorder<P, T>,
    silence: T,
    silence_ms: u64,
    report: bool,
)
    requires
        old(k)@.dropped < u64::MAX,
        call_ensures(
            AudioGate::on_buffer::<P, T>,
            (k, 2u8, buf, inlet, outlet, recorder, silence, silence_ms),
            report,
        ),
    ensures
        final(k)@.prev == 2,
        final(inlet)@ == old(inlet)@,
        final(outlet)@.len() == old(outlet)@.len() + 1,
        final(outlet)@.drop_last() == old(outlet)@,
        final(outlet)@.last().buffer == buf@,
        recorded(old(recorder)@, buf@, final(recorder)@),
        final(outlet)@.last().taken ==> final(k)@.dropped == old(k)@.dropped && !report,
        !final(outlet)@.last().taken ==> final(k)@.dropped == old(k)@.dropped + 1,
        !final(outlet)@.last().taken ==> (report <==> old(k)@.dropped % 100 == 0),
{
    let a = old(inlet)@;
    let b = final(inlet)@;
    assert(b =~= b.take(a.len() as int));
    let c = old(outlet)@;
    let d = final(outlet)@;
    assert(d.skip(c.len() as int)[0] == d.last());
    assert(d.drop_last() =~= d.take(c.len() as int));
}

/// While the audio gate is closed nothing is read, offered, recorded or counted.
pub proof fn law_closed_gate_passes_no_buffer<P, T: Copy>(
    k: &mut AudioGate,
    mode: u8,
    buf: Vec<T>,
    inlet: &mut Inlet<T>,
    outlet: &mut Outlet<T>,
    recorder: &mut MeetingRecorder<P, T>,
    silence: T,
    silence_ms: u64,
    report: bool,
)
    requires
        mode != 1 && mode != 2,
        call_ensures(
            AudioGate::on_buffer::<P, T>,
            (k, mode, buf, inlet, outlet, recorder, silence, silence_ms),
            report,
        ),
    ensures
        final(k)@.prev == mode,
        final(inlet)@ == old(inlet)@,
        final(outlet)@ == old(outlet)@,
        final(recorder)@ == old(recorder)@,
        final(k)@.dropped == old(k)@.dropped,
        !report,
{
    let a = old(inlet)@;
    let b = final(inlet)@;
    assert(b =~= b.take(a.len() as int));
    let c = old(outlet)@;
    let d = final(outlet)@;
    assert(d =~= d.take(c.len() as int));
}

/// Once a drain is under way each buffer is replaced by silence of its length, and neither
/// recorded nor followed by anything.
pub proof fn law_draining_gate_passes_silence<P, T: Copy>(
    k: &mut AudioGate,
    buf: Vec<T>,
    inlet: &mut Inlet<T>,
    outlet: &mut Outlet<T>,
    recorder: &mut MeetingRecorder<P, T>,
    silence: T,
    silence_ms: u64,
    report: bool,
)
    requires
        old(k)@.prev == 1,
        old(k)@.dropped < u64::MAX,
        call_ensures(
            AudioGate::on_buffer::<P, T>,
            (k, 1u8, buf, inlet, outlet, recorder, silence, silence_ms),
            report,
        ),
    ensures
        final(k)@.prev == 1,
        final(inlet)@ == old(inlet)@,
        final(outlet)@.len() == old(outlet)@.len() + 1,
        final(outlet)@.drop_last() == old(outlet)@,
        final(outlet)@.last().buffer.len() == buf@.len(),
        forall|i: int|
            0 <= i < buf@.len() ==> #[trigger] final(outlet)@.last().buffer[i] == silence,
        final(recorder)@ == old(recorder)@,
        final(outlet)@.last().taken ==> final(k)@.dropped == old(k)@.dropped && !report,
        !final(outlet)@.last().taken ==> final(k)@.dropped == old(k)@.dropped + 1,
        !final(outlet)@.last().taken ==> (report <==> old(k)@.dropped % 100 == 0),
{
    let a = old(inlet)@;
    let b = final(inlet)@;
    assert(b =~= b.take(a.len() as int));
    let c = old(outlet)@;
    let d = final(outlet)@;
    assert(d.skip(c.len() as int)[0] == d.last());
    assert(d.drop_last() =~= d.take(c.len() as int));
}

/// What a drain does with the queues, `m` being how many buffers waited in the queue from
/// capture: it is read until it is empty, unless there is no end to it; what it gave is
/// offered first, in order; then steps of silence, `n` of them unless one is not taken.
pub open spec fn drained<T>(
    answers: Seq<Option<Seq<T>>>,
    offers: Seq<queue::Offer<T>>,
    m: int,
    n: int,
    silence: T,
) -> bool {
    &&& 0 <= m < offers.len()
    &&& answers.len() == m + 1 && answers[m] is None || answers.len() == m && m == u64::MAX
    &&& forall|i: int|
        0 <= i < m ==> (#[trigger] answers[i]) is Some && answers[i]->0 == offers[i].buffer
    &&& forall|i: int|
        m <= i < offers.len() ==> (#[trigger] offers[i]).buffer == Seq::new(
            8000,
            |j: int| silence,
        )
    &&& forall|i: int| m <= i < offers.len() - 1 ==> (#[trigger] offers[i]).taken
    &&& offers.len() <= m + n
    &&& offers.last().taken ==> offers.len() == m + n
}

proof fn lemma_samples_written<P, T>(rec: Recording<P, T>, bufs: Seq<Seq<T>>)
    requires
        rec.path is Some,
        rec.samples + concat(bufs).len() <= u64::MAX,
    ensures
        rec.written_all(bufs).samples == rec.samples + concat(bufs).len(),
    decreases bufs.len(),
{
    if bufs.len() > 0 {
        lemma_samples_written(rec, bufs.drop_last());
        lemma_written_all(rec, bufs.drop_last());
    }
}

proof fn lemma_drained<P, T>(
    answers: Seq<Option<Seq<T>>>,
    offers: Seq<queue::Offer<T>>,
    before: Recording<P, T>,
    after: Recording<P, T>,
    silence: T,
    silence_ms: u64,
    n: int,
) -> (m: int)
    requires
        one_step_to_spare(n, silence_ms),
        is_drain(answers, offers, before, after, silence, silence_ms),
    ensures
        drained(answers, offers, m, n, silence),
        m == buffers(answers).len(),
        burst_sent(answers, offers) == 8000 * (if offers.last().taken {
            offers.len() - m
        } else {
            offers.len() - m - 1
        }),
        after.path == before.path,
        before.path is None ==> after == before,
        before.path is Some ==> {
            let last_words = concat(offered(offers, m as nat));
            &&& after.unwritten == before.unwritten + last_words
            &&& before.samples + last_words.len() <= u64::MAX ==> after.samples == before.samples
                + last_words.len()
        },
{
    assert(n == burst_steps(silence_ms));
    let flushed = buffers(answers);
    let m = flushed.len() as int;
    let burst = offers.skip(m);
    assert(burst.last() == offers.last());
    assert forall|i: int| m <= i < offers.len() implies (#[trigger] offers[i]).buffer == Seq::new(
        8000,
        |j: int| silence,
    ) by {
        assert(burst[i - m] == offers[i]);
    }
    assert forall|i: int| m <= i < offers.len() - 1 implies (#[trigger] offers[i]).taken by {
        assert(burst[i - m] == offers[i]);
    }
    assert forall|i: int| 0 <= i < m implies (#[trigger] answers[i]) is Some && answers[i]->0
        == offers[i].buffer by {
        assert(offers[i].buffer == flushed[i]);
    }
    assert(offered(offers, m as nat) =~= flushed);
    if before.path is Some {
        lemma_written_all(before, flushed);
        if before.samples + concat(flushed).len() <= u64::MAX {
            lemma_samples_written(before, flushed);
        }
    } else {
        lemma_unwritten_all(before, flushed);
    }
    m
}

/// A burst goes behind what still waits, reads that to the end, and says how many silent
/// samples were taken: eight thousand for each step, all that outlast the silence and one
/// more unless the queue refuses one. What waited is recorded, and nothing else.
pub proof fn law_burst_follows_what_waits<P, T: Copy>(
    inlet: &mut Inlet<T>,
    outlet: &mut Outlet<T>,
    recorder: &mut MeetingRecorder<P, T>,
    silence: T,
    silence_ms: u64,
    sent: usize,
    n: int,
)
    requires
        one_step_to_spare(n, silence_ms),
        call_ensures(
            burst_drain_silence::<P, T>,
            (inlet, outlet, recorder, silence, silence_ms),
            sent,
        ),
    ensures
        final(inlet)@.take(old(inlet)@.len() as int) == old(inlet)@,
        final(outlet)@.take(old(outlet)@.len() as int) == old(outlet)@,
        ({
            let answers = final(inlet)@.skip(old(inlet)@.len() as int);
            let offers = final(outlet)@.skip(old(outlet)@.len() as int);
            &&& final(recorder)@.path == old(recorder)@.path
            &&& old(recorder)@.path is None ==> final(recorder)@ == old(recorder)@
            &&& exists|m: int|
                {
                    &&& #[trigger] drained(answers, offers, m, n, silence)
                    &&& offers.last().taken ==> sent == 8000 * n
                    &&& !offers.last().taken ==> sent == 8000 * (offers.len() - m - 1)
                    &&& old(recorder)@.path is Some ==> final(recorder)@.unwritten == old(
                        recorder,
                    )@.unwritten + concat(offered(offers, m as nat))
                    &&& old(recorder)@.path is Some && old(recorder)@.samples + concat(
                        offered(offers, m as nat),
                    ).len() <= u64::MAX ==> final(recorder)@.samples == old(recorder)@.samples
                        + concat(offered(offers, m as nat)).len()
                }
        }),
{
    let _ = lemma_drained(
        final(inlet)@.skip(old(inlet)@.len() as int),
        final(outlet)@.skip(old(outlet)@.len() as int),
        old(recorder)@,
        final(recorder)@,
        silence,
        silence_ms,
        n,
    );
}

/// When the audio gate begins to drain, the buffer at hand is still offered and recorded,
/// and the burst follows; a loss of that buffer is counted.
pub proof fn law_drain_begins_with_the_buffer_at_hand<P, T: Copy>(
    k: &mut AudioGate,
    buf: Vec<T>,
    inlet: &mut Inlet<T>,
    outlet: &mut Outlet<T>,
    recorder: &mut MeetingRecorder<P, T>,
    silence: T,
    silence_ms: u64,
    report: bool,
    n: int,
)
    requires
        old(k)@.prev != 1,
        old(k)@.dropped < u64::MAX,
        one_step_to_spare(n, silence_ms),
        call_ensures(
            AudioGate::on_buffer::<P, T>,
            (k, 1u8, buf, inlet, outlet, recorder, silence, silence_ms),
            report,
        ),
    ensures
        final(k)@.prev == 1,
        final(inlet)@.take(old(inlet)@.len() as int) == old(inlet)@,
        final(outlet)@.take(old(outlet)@.len() as int) == old(outlet)@,
        ({
            let answers = final(inlet)@.skip(old(inlet)@.len() as int);
            let offers = final(outlet)@.skip(old(outlet)@.len() as int);
            &&& offers.len() > 0 && offers[0].buffer == buf@
            &&& final(recorder)@.path == old(recorder)@.path
            &&& old(recorder)@.path is None ==> final(recorder)@ == old(recorder)@
            &&& exists|m: int|
                {
                    &&& #[trigger] drained(answers, offers.skip(1), m, n, silence)
                    &&& old(recorder)@.path is Some ==> final(recorder)@.unwritten == old(
                        recorder,
                    )@.unwritten + buf@ + concat(offered(offers.skip(1), m as nat))
                    &&& old(recorder)@.path is Some && old(recorder)@.samples + buf@.len()
                        + concat(offered(offers.skip(1), m as nat)).len() <= u64::MAX
                        ==> final(recorder)@.samples == old(recorder)@.samples + buf@.len()
                        + concat(offered(offers.skip(1), m as nat)).len()
                }
            &&& offers[0].taken ==> final(k)@.dropped == old(k)@.dropped && !report
            &&& !offers[0].taken ==> final(k)@.dropped == old(k)@.dropped + 1
            &&& !offers[0].taken ==> (report <==> old(k)@.dropped % 100 == 0)
        }),
{
    let _ = lemma_drained(
        final(inlet)@.skip(old(inlet)@.len() as int),
        final(outlet)@.skip(old(outlet)@.len() as int).skip(1),
        old(recorder)@.written(buf@),
        final(recorder)@,
        silence,
        silence_ms,
        n,
    );
}

/// A gate starts closed, with nothing lost, and says what it lost.
pub proof fn law_gate_starts_closed(fresh: AudioGate, k: &AudioGate, dropped: u64)
    requires
        call_ensures(AudioGate::new, (), fresh),
        call_ensures(AudioGate::dropped, (k,), dropped),
    ensures
        fresh@.prev == 0 && fresh@.dropped == 0,
        dropped == k@.dropped,
{
}

/// A recording starts from nothing, however much was recorded before, and ends with where
/// it went; what it holds is kept until it is fetched, once.
pub proof fn law_recordings_start_and_end<P, T: Copy>(
    fresh: MeetingRecorder<P, T>,
    a: &mut MeetingRecorder<P, T>,
    path: P,
    b: &mut MeetingRecorder<P, T>,
    went: Option<P>,
    c: &mut MeetingRecorder<P, T>,
    fetched: Vec<T>,
)
    requires
        call_ensures(MeetingRecorder::<P, T>::new, (), fresh),
        call_ensures(MeetingRecorder::<P, T>::start, (a, path), ()),
        call_ensures(MeetingRecorder::<P, T>::stop, (b,), went),
        call_ensures(MeetingRecorder::<P, T>::take_unwritten, (c,), fetched),
    ensures
        fresh@.path is None && fresh@.samples == 0 && fresh@.unwritten.len() == 0,
        final(a)@.path == Some(path) && final(a)@.samples == 0 && final(a)@.unwritten.len() == 0,
        went == old(b)@.path,
        final(b)@.path is None,
        final(b)@.samples == old(b)@.samples && final(b)@.unwritten == old(b)@.unwritten,
        fetched@ == old(c)@.unwritten,
        final(c)@.unwritten.len() == 0,
        final(c)@.samples == old(c)@.samples && final(c)@.path == old(c)@.path,
{
}

/// What is written while a recording is on is recorded whole, and sixteen samples last a
/// millisecond.
pub proof fn law_recordings_keep_time<P, T: Copy>(
    a: &mut MeetingRecorder<P, T>,
    buf: &[T],
    b: &MeetingRecorder<P, T>,
    ms: u64,
)
    requires
        call_ensures(MeetingRecorder::<P, T>::write, (a, buf), ()),
        call_ensures(MeetingRecorder::<P, T>::elapsed_ms, (b,), ms),
    ensures
        recorded(old(a)@, buf@, final(a)@),
        16 * ms <= b@.samples,
        b@.samples < 16 * ms + 16,
{
}

/// Text is typed and dictations are cleaned unless that is switched off, and a
/// demonstration is not cleaned.
pub proof fn law_switches_turn_things_off(
    no_inject: bool,
    no_cleanup: bool,
    demo: bool,
    r: Startup,
)
    requires
        call_ensures(startup, (no_inject, no_cleanup, demo), r),
    ensures
        r.inject <==> !no_inject,
        r.demo <==> demo,
        demo ==> !r.clean,
        !demo ==> (r.clean <==> !no_cleanup),
{
}

}
