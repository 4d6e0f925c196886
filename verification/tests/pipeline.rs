use matalu::config::TARGET_SAMPLE_RATE;
use matalu::gate;
use matalu::pipeline::burst_drain_silence;
use matalu::pipeline::burst_fits;
use matalu::pipeline::drain_burst_samples;
use matalu::pipeline::forward_to_sidecar;
use matalu::pipeline::startup;
use matalu::pipeline::AudioGate;
use matalu::pipeline::MeetingRecorder;
use matalu::pipeline::Startup;
use matalu::pipeline::SIDECAR_STEP_MS;
use matalu::pipeline::STEP_SAMPLES;
use matalu::queue::Inlet;
use matalu::queue::Outlet;

/// Mirrors the recognizer: it accumulates `SIDECAR_STEP_MS` per whole chunk read
/// and finalizes at `silence_ms >= SILENCE_MS`.
fn steps_until_final(burst_samples: usize, silence_ms: u64) -> Option<u64> {
    let per_step = (SIDECAR_STEP_MS * TARGET_SAMPLE_RATE as u64 / 1000) as usize;
    let mut accumulated = 0u64;
    for step in 1..=(burst_samples / per_step) as u64 {
        accumulated += SIDECAR_STEP_MS;
        if accumulated >= silence_ms {
            return Some(step);
        }
    }
    None
}

#[test]
fn burst_always_crosses_the_vad_threshold() {
    for silence_ms in [200, 500, 700, 1000, 1500, 2000, 3000] {
        let samples = drain_burst_samples(silence_ms);
        assert!(
            steps_until_final(samples, silence_ms).is_some(),
            "burst of {samples} samples never finalizes at silence_ms={silence_ms}"
        );
    }
}

#[test]
fn burst_does_not_massively_overshoot() {
    // One spare step of headroom past the threshold, no more.
    for silence_ms in [500, 700, 1000] {
        let samples = drain_burst_samples(silence_ms);
        let step = steps_until_final(samples, silence_ms).unwrap();
        let per_step = (SIDECAR_STEP_MS * TARGET_SAMPLE_RATE as u64 / 1000) as usize;
        let sent_steps = (samples / per_step) as u64;
        assert_eq!(sent_steps, step + 1, "silence_ms={silence_ms}");
    }
}

#[test]
fn default_silence_bursts_1500ms() {
    // 700 ms threshold -> 2 steps to cross, +1 spare = 1.5 s @ 16 kHz.
    assert_eq!(drain_burst_samples(700), 24_000);
}

fn recorder() -> MeetingRecorder<String, f32> {
    MeetingRecorder::new()
}

/// Audio already queued when the audio gate flips was captured before release and is the
/// speaker's last words.
#[test]
fn queued_real_audio_is_flushed_before_the_silence_burst() {
    let (cap_tx, cap_rx) = crossbeam_channel::bounded::<Vec<f32>>(64);
    let (side_tx, side_rx) = crossbeam_channel::bounded::<Vec<f32>>(64);
    let mut inlet = Inlet::new(cap_rx);
    let mut outlet = Outlet::new(side_tx);

    // Two buffers of real speech still in flight at the moment of release.
    cap_tx.send(vec![0.5f32; 100]).unwrap();
    cap_tx.send(vec![-0.5f32; 100]).unwrap();

    burst_drain_silence(&mut inlet, &mut outlet, &mut recorder(), 0.0, 700);
    drop(outlet);

    let forwarded: Vec<Vec<f32>> = side_rx.iter().collect();
    let real: Vec<&Vec<f32>> =
        forwarded.iter().filter(|b| b.iter().any(|s| *s != 0.0)).collect();
    assert_eq!(real.len(), 2, "both queued speech buffers must be forwarded");

    let first_silence = forwarded.iter().position(|b| b.iter().all(|s| *s == 0.0)).unwrap();
    let last_real = forwarded.iter().rposition(|b| b.iter().any(|s| *s != 0.0)).unwrap();
    assert!(
        last_real < first_silence,
        "silence at index {first_silence} jumped ahead of real audio at {last_real}"
    );

    let silence: usize = forwarded[first_silence..].iter().map(|b| b.len()).sum();
    assert_eq!(silence, drain_burst_samples(700));
}

#[test]
fn burst_with_nothing_queued_sends_only_silence() {
    let (_cap_tx, cap_rx) = crossbeam_channel::bounded::<Vec<f32>>(64);
    let (side_tx, side_rx) = crossbeam_channel::bounded::<Vec<f32>>(64);
    let mut outlet = Outlet::new(side_tx);
    burst_drain_silence(&mut Inlet::new(cap_rx), &mut outlet, &mut recorder(), 0.0, 700);
    drop(outlet);
    let forwarded: Vec<Vec<f32>> = side_rx.iter().collect();
    assert!(forwarded.iter().all(|b| b.iter().all(|s| *s == 0.0)));
    assert_eq!(forwarded.iter().map(|b| b.len()).sum::<usize>(), 24_000);
}

/// The audio gate must never block, so a full downstream queue truncates the burst.
#[test]
fn full_sidecar_queue_truncates_instead_of_blocking() {
    let (_cap_tx, cap_rx) = crossbeam_channel::bounded::<Vec<f32>>(64);
    let (side_tx, side_rx) = crossbeam_channel::bounded::<Vec<f32>>(1);
    let sent = burst_drain_silence(
        &mut Inlet::new(cap_rx),
        &mut Outlet::new(side_tx),
        &mut recorder(),
        0.0,
        700,
    );
    assert_eq!(side_rx.len(), 1, "should have stopped at the queue limit");
    assert_eq!(sent, STEP_SAMPLES);
}

#[test]
fn dropped_buffers_are_counted_not_silent() {
    let (side_tx, _side_rx) = crossbeam_channel::bounded::<Vec<f32>>(1);
    let mut outlet = Outlet::new(side_tx);
    let mut dropped: u64 = 0;

    assert!(!forward_to_sidecar(&mut outlet, vec![0.1f32; 10], &mut dropped));
    assert_eq!(dropped, 0, "a buffer that fits is not a drop");

    for i in 0..5 {
        let report = forward_to_sidecar(&mut outlet, vec![0.1f32; 10], &mut dropped);
        assert_eq!(report, i == 0, "the first loss is reported");
    }
    assert_eq!(dropped, 5, "every buffer past capacity counts");
}

/// The counter is the only evidence a dropped buffer leaves, so the audio gate has to
/// keep routing through it.
#[test]
fn gate_counts_buffers_the_sidecar_queue_rejects() {
    let (cap_tx, cap_rx) = crossbeam_channel::bounded::<Vec<f32>>(64);
    let (side_tx, _side_rx) = crossbeam_channel::bounded::<Vec<f32>>(2);
    let mut gate_state = AudioGate::new();
    let mut inlet = Inlet::new(cap_rx.clone());
    let mut outlet = Outlet::new(side_tx);
    let mut rec = recorder();

    // Nothing drains `_side_rx`, so the queue takes 2 and rejects the rest.
    for _ in 0..12 {
        cap_tx.send(vec![0.5f32; 10]).unwrap();
    }
    drop(cap_tx); // closing capture ends the loop
    while let Ok(buf) = cap_rx.recv() {
        gate_state.on_buffer(gate::REAL, buf, &mut inlet, &mut outlet, &mut rec, 0.0, 700);
    }

    assert_eq!(gate_state.dropped(), 10, "12 buffers into a queue of 2 must count 10 drops");
    let held: Vec<Vec<f32>> = _side_rx.try_iter().collect();
    assert_eq!(held, vec![vec![0.5f32; 10]; 2]);
}

/// Sends buffers through an audio gate that stays in one mode.
fn run_steadily(mode: u8, buffers: &[Vec<f32>]) -> (Vec<Vec<f32>>, u64, u64) {
    let (cap_tx, cap_rx) = crossbeam_channel::bounded::<Vec<f32>>(64);
    let (side_tx, side_rx) = crossbeam_channel::bounded::<Vec<f32>>(64);
    let mut g = AudioGate::new();
    let mut inlet = Inlet::new(cap_rx.clone());
    let mut outlet = Outlet::new(side_tx);
    let mut rec = recorder();
    rec.start("m.wav".to_string());
    for b in buffers {
        cap_tx.send(b.clone()).unwrap();
    }
    drop(cap_tx);
    while let Ok(buf) = cap_rx.recv() {
        g.on_buffer(mode, buf, &mut inlet, &mut outlet, &mut rec, 0.0, 700);
    }
    drop(outlet);
    (side_rx.iter().collect(), g.dropped(), rec.elapsed_ms())
}

#[test]
fn the_buffer_at_the_flip_goes_before_the_silence() {
    let captured = vec![vec![0.5f32; 10], vec![-0.5f32; 10]];
    let (heard, dropped, _) = run_steadily(gate::SILENCE, &captured);
    let mut expected = captured.clone();
    expected.extend(vec![vec![0.0f32; 8_000]; 3]);
    assert_eq!(heard, expected);
    assert_eq!(dropped, 0);
}

#[test]
fn open_gate_passes_everything_and_closed_gate_nothing() {
    let captured: Vec<Vec<f32>> = (0..20).map(|i| vec![i as f32; 16 + i]).collect();
    let (heard, dropped, elapsed_ms) = run_steadily(gate::REAL, &captured);
    assert_eq!(heard, captured);
    assert_eq!(dropped, 0);
    assert_eq!(elapsed_ms, (20 * 16 + 190) / 16);

    let (heard, dropped, elapsed_ms) = run_steadily(gate::NONE, &captured);
    assert!(heard.is_empty());
    assert_eq!(dropped, 0);
    assert_eq!(elapsed_ms, 0);
}

#[test]
fn gate_drains_once_then_paces_silence_then_closes() {
    let (cap_tx, cap_rx) = crossbeam_channel::bounded::<Vec<i32>>(64);
    let (side_tx, side_rx) = crossbeam_channel::bounded::<Vec<i32>>(64);
    let mut g = AudioGate::new();
    let mut inlet = Inlet::new(cap_rx);
    let mut outlet = Outlet::new(side_tx);
    let mut rec: MeetingRecorder<&str, i32> = MeetingRecorder::new();
    rec.start("m.wav");

    g.on_buffer(gate::NONE, vec![1], &mut inlet, &mut outlet, &mut rec, 0, 700);
    assert!(side_rx.is_empty(), "a closed gate lets nothing through");

    g.on_buffer(gate::REAL, vec![2, 3], &mut inlet, &mut outlet, &mut rec, 0, 700);
    assert_eq!(side_rx.try_recv(), Ok(vec![2, 3]));

    cap_tx.send(vec![5]).unwrap();
    g.on_buffer(gate::SILENCE, vec![4], &mut inlet, &mut outlet, &mut rec, 0, 700);
    assert_eq!(side_rx.try_recv(), Ok(vec![4]));
    assert_eq!(side_rx.try_recv(), Ok(vec![5]));
    for _ in 0..3 {
        assert_eq!(side_rx.try_recv(), Ok(vec![0; 8_000]));
    }
    assert!(side_rx.is_empty());

    g.on_buffer(gate::SILENCE, vec![6, 7, 8], &mut inlet, &mut outlet, &mut rec, 0, 700);
    assert_eq!(side_rx.try_recv(), Ok(vec![0, 0, 0]));

    g.on_buffer(gate::NONE, vec![9], &mut inlet, &mut outlet, &mut rec, 0, 700);
    assert!(side_rx.is_empty());
    assert_eq!(g.dropped(), 0);

    // The recording holds the audio that went through, and no silence.
    assert_eq!(rec.take_unwritten(), vec![2, 3, 4, 5]);
}

#[test]
fn recorder_keeps_the_time_of_the_meeting() {
    let mut rec: MeetingRecorder<&str, i16> = MeetingRecorder::new();
    rec.write(&[1, 2, 3]);
    assert_eq!(rec.elapsed_ms(), 0, "nothing is recorded before the start");
    rec.start("a.wav");
    rec.write(&vec![7; 16_000]);
    rec.write(&vec![7; 24]);
    assert_eq!(rec.elapsed_ms(), 1_001);
    assert_eq!(rec.take_unwritten().len(), 16_024);
    assert!(rec.take_unwritten().is_empty());
    assert_eq!(rec.stop(), Some("a.wav"));
    assert_eq!(rec.stop(), None);
    rec.write(&[1]);
    assert_eq!(rec.elapsed_ms(), 1_001);
    rec.start("b.wav");
    assert_eq!(rec.elapsed_ms(), 0);
}

#[test]
fn burst_size_is_checked() {
    assert_eq!(STEP_SAMPLES as u64 * 1000, SIDECAR_STEP_MS * TARGET_SAMPLE_RATE as u64);
    assert!(burst_fits(700));
    assert!(burst_fits(0));
    assert!(!burst_fits(u64::MAX));
    assert_eq!(drain_burst_samples(0), 8_000);
    assert_eq!(drain_burst_samples(500), 16_000);
    assert_eq!(drain_burst_samples(501), 24_000);
}

#[test]
fn demonstration_runs_without_cleanup() {
    assert_eq!(
        startup(false, false, false),
        Startup { inject: true, clean: true, demo: false }
    );
    assert_eq!(startup(true, false, true), Startup { inject: false, clean: false, demo: true });
    assert_eq!(startup(false, true, false), Startup { inject: true, clean: false, demo: false });
}
