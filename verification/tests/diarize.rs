use matalu::diarize::align;
use matalu::diarize::label;
use matalu::diarize::run;
use matalu::diarize::Line;
use matalu::diarize::Segment;
use matalu::diarize::UNKNOWN_SPEAKER;

/// A diarization segment in seconds.
struct Interval {
    start: f64,
    end: f64,
    speaker: i32,
}

/// The segments as they bear on a line: for positive numbers, the bits order them.
fn bearing_on(line: &Line, segments: &[Interval]) -> Vec<Segment> {
    let (ls, le) = (line.start_ms as f64 / 1000.0, line.end_ms as f64 / 1000.0);
    segments
        .iter()
        .map(|s| {
            let overlap = (le.min(s.end) - ls.max(s.start)).max(0.0);
            Segment { speaker: s.speaker, overlap: (overlap + 0.0).to_bits() }
        })
        .collect()
}

fn line(start_ms: u64, end_ms: u64) -> Line {
    Line { start_ms, end_ms, text: format!("{start_ms}-{end_ms}") }
}

#[test]
fn align_picks_max_overlap_speaker() {
    let lines = vec![line(0, 2000), line(2000, 4000), line(10_000, 11_000)];
    let segments = vec![
        Interval { start: 0.0, end: 2.5, speaker: 0 }, // covers line 0, part of 1
        Interval { start: 2.5, end: 4.0, speaker: 1 }, // tail of line 1
    ];
    let bearing: Vec<Vec<Segment>> = lines.iter().map(|l| bearing_on(l, &segments)).collect();
    let labeled = align(&lines, &bearing);
    assert_eq!(labeled[0].speaker, 0, "line 0 (0-2s) fully inside speaker 0");
    assert_eq!(
        labeled[1].speaker, 1,
        "line 1 (2-4s) overlaps speaker 1 (1.5s) > speaker 0 (0.5s)"
    );
    assert_eq!(labeled[2].speaker, -1, "line 2 (10-11s) overlaps no segment → unknown");
    assert_eq!(labeled[1].text, "2000-4000");
}

#[test]
fn first_of_equal_overlaps_wins() {
    let segments = vec![
        Segment { speaker: 4, overlap: 10 },
        Segment { speaker: 7, overlap: 30 },
        Segment { speaker: 9, overlap: 30 },
        Segment { speaker: 2, overlap: 20 },
    ];
    assert_eq!(label(&segments), 7);
    assert_eq!(label(&[]), UNKNOWN_SPEAKER);
}

#[test]
fn failed_diarization_still_gives_a_transcript() {
    let lines = vec![line(0, 500), line(500, 900)];
    let labeled = run(&lines, None);
    assert_eq!(labeled.len(), 2);
    assert!(labeled.iter().all(|l| l.speaker == UNKNOWN_SPEAKER));
    assert_eq!(labeled[0].text, "0-500");

    let bearing = vec![vec![Segment { speaker: 3, overlap: 1 }], vec![]];
    let labeled = run(&lines, Some(bearing));
    assert_eq!(labeled[0].speaker, 3);
    assert_eq!(labeled[1].speaker, UNKNOWN_SPEAKER);
}
