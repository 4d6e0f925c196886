//! Speaker labels for a meeting transcript.

use vstd::prelude::*;

verus! {

/// The event that carries a labeled meeting transcript to the window.
pub const MEETING_RESULT_EVENT: &'static str = "meeting_result";

/// A committed transcript line with its time span within the meeting.
#[derive(Clone, Debug)]
pub struct Line {
    pub start_ms: u64,
    pub end_ms: u64,
    pub text: String,
}

/// A transcript line with the speaker it is attributed to; `-1` is unknown.
#[derive(Clone, Debug)]
pub struct LabeledLine {
    pub speaker: i32,
    pub text: String,
}

/// A line as a value.
pub struct Span {
    pub start_ms: u64,
    pub end_ms: u64,
    pub text: Seq<char>,
}

impl View for Line {
    type V = Span;

    open spec fn view(&self) -> Span {
        Span { start_ms: self.start_ms, end_ms: self.end_ms, text: self.text@ }
    }
}

impl View for LabeledLine {
    type V = (i32, Seq<char>);

    open spec fn view(&self) -> (i32, Seq<char>) {
        (self.speaker, self.text@)
    }
}

/// The speaker of a line that nobody is known to have spoken.
pub const UNKNOWN_SPEAKER: i32 = -1;

/// One diarization segment as it bears on one line: who speaks in it, and a key
/// that orders the segments by how long they overlap with the line, zero where
/// they do not.
#[derive(Clone, Copy, PartialEq, Eq, Structural, Debug)]
pub struct Segment {
    pub speaker: i32,
    pub overlap: u64,
}

/// Whether segment `i` is the one a line is attributed to: it overlaps with the
/// line, no segment overlaps more, and none before it overlaps as much.
pub open spec fn overlaps_most(segments: Seq<Segment>, i: int) -> bool {
    &&& 0 <= i < segments.len()
    &&& segments[i].overlap > 0
    &&& forall|j: int| 0 <= j < i ==> (#[trigger] segments[j]).overlap < segments[i].overlap
    &&& forall|j: int|
        i <= j < segments.len() ==> (#[trigger] segments[j]).overlap <= segments[i].overlap
}

/// Whether `speaker` is the label of a line: the speaker of the segment that
/// overlaps with it most, or unknown if none overlaps.
pub open spec fn is_label(segments: Seq<Segment>, speaker: i32) -> bool {
    ||| exists|i: int| #[trigger] overlaps_most(segments, i) && speaker == segments[i].speaker
    ||| speaker == UNKNOWN_SPEAKER && forall|j: int|
        0 <= j < segments.len() ==> (#[trigger] segments[j]).overlap == 0
}

/// A line has exactly one label.
pub proof fn law_label_is_unique(segments: Seq<Segment>, a: i32, b: i32)
    requires
        is_label(segments, a),
        is_label(segments, b),
    ensures
        a == b,
{
    if exists|i: int| overlaps_most(segments, i) && a == segments[i].speaker {
        let i = choose|i: int| overlaps_most(segments, i) && a == segments[i].speaker;
        if exists|j: int| overlaps_most(segments, j) && b == segments[j].speaker {
            let j = choose|j: int| overlaps_most(segments, j) && b == segments[j].speaker;
            if i < j {
                assert(segments[i].overlap < segments[j].overlap);
            } else if j < i {
                assert(segments[j].overlap < segments[i].overlap);
            }
        }
    }
}

/// The label of a line.
pub fn label(segments: &[Segment]) -> (speaker: i32)
    ensures
        is_label(segments@, speaker),
{
    let mut best: i32 = UNKNOWN_SPEAKER;
    let mut best_overlap: u64 = 0;
    let mut i: usize = 0;
    while i < segments.len()
        invariant
            i <= segments@.len(),
            is_label(segments@.take(i as int), best),
            forall|j: int|
                0 <= j < i ==> (#[trigger] segments@[j]).overlap <= best_overlap,
            best_overlap > 0 ==> exists|k: int| #[trigger]
                overlaps_most(segments@.take(i as int), k) && best == segments@[k].speaker
                    && best_overlap == segments@[k].overlap,
            best_overlap == 0 ==> best == UNKNOWN_SPEAKER,
        decreases segments@.len() - i,
    {
        let ghost before = segments@.take(i as int);
        let ghost after = segments@.take(i + 1);
        if segments[i].overlap > best_overlap {
            best_overlap = segments[i].overlap;
            best = segments[i].speaker;
            assert(overlaps_most(after, i as int));
        } else if best_overlap > 0 {
            let ghost k = choose|k: int| #[trigger]
                overlaps_most(before, k) && best == segments@[k].speaker && best_overlap
                    == segments@[k].overlap;
            assert(before[k] == after[k]);
            assert(overlaps_most(after, k)) by {
                assert forall|j: int| 0 <= j < k implies (#[trigger] after[j]).overlap
                    < after[k].overlap by {
                    assert(before[j] == after[j]);
                }
            }
        } else {
            assert forall|j: int| 0 <= j < after.len() implies (#[trigger] after[j]).overlap
                == 0 by {
                assert(segments@[j].overlap <= best_overlap);
            }
        }
        i = i + 1;
    }
    assert(segments@.take(segments@.len() as int) =~= segments@);
    best
}

/// Labels each line with the speaker whose segment overlaps with it most. For
/// each line, `segments` holds the diarization segments as they bear on it.
pub fn align(lines: &[Line], segments: &[Vec<Segment>]) -> (r: Vec<LabeledLine>)
    requires
        segments@.len() == lines@.len(),
    ensures
        r@.len() == lines@.len(),
        forall|i: int|
            0 <= i < r@.len() ==> {
                &&& (#[trigger] r@[i]).text@ == lines@[i].text@
                &&& is_label(segments@[i]@, r@[i].speaker)
            },
{
    let mut out: Vec<LabeledLine> = Vec::new();
    let mut i: usize = 0;
    while i < lines.len()
        invariant
            segments@.len() == lines@.len(),
            i <= lines@.len(),
            out@.len() == i,
            forall|j: int|
                0 <= j < i ==> {
                    &&& (#[trigger] out@[j]).text@ == lines@[j].text@
                    &&& is_label(segments@[j]@, out@[j].speaker)
                },
        decreases lines@.len() - i,
    {
        let speaker = label(&segments[i]);
        out.push(LabeledLine { speaker, text: lines[i].text.clone() });
        i = i + 1;
    }
    out
}

/// The lines of a meeting whose speakers could not be told apart.
pub fn unlabeled(lines: &[Line]) -> (r: Vec<LabeledLine>)
    ensures
        r@.len() == lines@.len(),
        forall|i: int|
            0 <= i < r@.len() ==> (#[trigger] r@[i])@ == (UNKNOWN_SPEAKER, lines@[i].text@),
{
    let mut out: Vec<LabeledLine> = Vec::new();
    let mut i: usize = 0;
    while i < lines.len()
        invariant
            i <= lines@.len(),
            out@.len() == i,
            forall|j: int|
                0 <= j < i ==> (#[trigger] out@[j])@ == (UNKNOWN_SPEAKER, lines@[j].text@),
        decreases lines@.len() - i,
    {
        out.push(LabeledLine { speaker: UNKNOWN_SPEAKER, text: lines[i].text.clone() });
        i = i + 1;
    }
    out
}

/// The transcript of a meeting: labeled if the diarization succeeded, all unknown
/// if it did not, so that a transcript always comes out.
pub fn run(lines: &[Line], diarized: Option<Vec<Vec<Segment>>>) -> (r: Vec<LabeledLine>)
    requires
        diarized is Some ==> diarized->0@.len() == lines@.len(),
    ensures
        r@.len() == lines@.len(),
        forall|i: int|
            0 <= i < r@.len() ==> {
                &&& (#[trigger] r@[i]).text@ == lines@[i].text@
                &&& match diarized {
                    Some(segments) => is_label(segments@[i]@, r@[i].speaker),
                    None => r@[i].speaker == UNKNOWN_SPEAKER,
                }
            },
{
    match diarized {
        Some(segments) => align(lines, &segments),
        None => {
            let r = unlabeled(lines);
            assert forall|i: int| 0 <= i < r@.len() implies (#[trigger] r@[i]).text@
                == lines@[i].text@ && r@[i].speaker == UNKNOWN_SPEAKER by {
                assert(r@[i]@ == (UNKNOWN_SPEAKER, lines@[i].text@));
            }
            r
        },
    }
}

/// A line belongs to the speaker of the segment that overlaps with it most, the first
/// such one, and to nobody if none does.
pub proof fn law_line_belongs_to_the_longest_overlap(segments: &[Segment], r: i32, i: int)
    requires
        call_ensures(label, (segments,), r),
    ensures
        names_speaker(segments@, r, i),
{
    lemma_label_names(segments@, r, i);
}

/// Where segment `i` overlaps most, and no earlier one as much, `speaker` is who speaks in
/// it; where none overlaps, it is `-1`.
pub open spec fn names_speaker(segments: Seq<Segment>, speaker: i32, i: int) -> bool {
    &&& (0 <= i < segments.len() && segments[i].overlap > 0 && (forall|j: int|
        0 <= j < segments.len() ==> (#[trigger] segments[j]).overlap <= segments[i].overlap) && (
    forall|j: int| 0 <= j < i ==> (#[trigger] segments[j]).overlap != segments[i].overlap))
        ==> speaker == segments[i].speaker
    &&& (forall|j: int| 0 <= j < segments.len() ==> (#[trigger] segments[j]).overlap == 0)
        ==> speaker == -1
}

proof fn lemma_label_names(segments: Seq<Segment>, r: i32, i: int)
    requires
        is_label(segments, r),
    ensures
        names_speaker(segments, r, i),
{
    if exists|k: int| #[trigger] overlaps_most(segments, k) && r == segments[k].speaker {
        let k = choose|k: int| #[trigger] overlaps_most(segments, k) && r == segments[k].speaker;
        assert(segments[k].overlap > 0);
    }
}

/// Labeling changes no text and no order, and labels each line by its own segments.
pub proof fn law_lines_keep_their_texts(
    lines: &[Line],
    segments: &[Vec<Segment>],
    r: Vec<LabeledLine>,
    n: int,
    i: int,
)
    requires
        segments@.len() == lines@.len(),
        call_ensures(align, (lines, segments), r),
        0 <= n < lines@.len(),
    ensures
        r@.len() == lines@.len(),
        r@[n].text@ == lines@[n].text@,
        names_speaker(segments@[n]@, r@[n].speaker, i),
{
    lemma_label_names(segments@[n]@, r@[n].speaker, i);
}

/// A transcript always comes out, with every line: labeled if the speakers could be told
/// apart, and all unknown if not.
pub proof fn law_transcript_always_comes_out(
    lines: &[Line],
    segments: Vec<Vec<Segment>>,
    told: Vec<LabeledLine>,
    untold: Vec<LabeledLine>,
    plain: Vec<LabeledLine>,
    n: int,
    i: int,
)
    requires
        segments@.len() == lines@.len(),
        call_ensures(run, (lines, Some(segments)), told),
        call_ensures(run, (lines, None::<Vec<Vec<Segment>>>), untold),
        call_ensures(unlabeled, (lines,), plain),
        0 <= n < lines@.len(),
    ensures
        told@.len() == untold@.len() == plain@.len() == lines@.len(),
        told@[n].text@ == lines@[n].text@,
        names_speaker(segments@[n]@, told@[n].speaker, i),
        untold@[n].text@ == lines@[n].text@ && untold@[n].speaker == -1,
        plain@[n].text@ == lines@[n].text@ && plain@[n].speaker == -1,
{
    lemma_label_names(segments@[n]@, told@[n].speaker, i);
    assert(plain@[n]@ == (UNKNOWN_SPEAKER, lines@[n].text@));
}

}
