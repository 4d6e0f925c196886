use matalu::audio::choose_device;
use matalu::audio::count_drop;
use matalu::audio::count_failure;
use matalu::audio::desired_name;
use matalu::audio::device_request;
use matalu::audio::input_device_exists;
use matalu::audio::is_fatal;
use matalu::audio::rebuild_after;
use matalu::audio::requested_name;
use matalu::audio::should_reopen;
use matalu::audio::DeviceChoice;
use matalu::audio::ErrorKind;
use matalu::audio::LinearResampler;
use matalu::audio::Rebuild;
use matalu::audio::Signal;
use matalu::audio::Tap;

/// The samples that taps stand for.
fn interpolate(taps: &[Tap<f32>], out_rate: u32) -> Vec<f32> {
    taps.iter()
        .map(|t| t.a + (t.b - t.a) * (t.num as f64 / out_rate as f64) as f32)
        .collect()
}

/// The rebuild trigger. `DeviceNotAvailable` is what a disconnecting microphone
/// reports; `DeviceChanged` comes from a stream that is still live.
#[test]
fn only_dead_streams_trigger_a_rebuild() {
    assert!(is_fatal(ErrorKind::DeviceNotAvailable));
    assert!(is_fatal(ErrorKind::StreamInvalidated));

    assert!(!is_fatal(ErrorKind::DeviceChanged));
    assert!(!is_fatal(ErrorKind::Xrun));
    assert!(!is_fatal(ErrorKind::RealtimeDenied));
}

/// Feeding a signal in two arbitrary buffers must match feeding it as one.
#[test]
fn audio_streaming_matches_one_shot() {
    let input: Vec<f32> = (0..300).map(|i| (i as f32 * 0.1).sin()).collect();

    let mut whole = LinearResampler::new(48_000, 16_000, 0.0f32);
    let a = interpolate(&whole.process(&input), 16_000);

    let mut split = LinearResampler::new(48_000, 16_000, 0.0f32);
    let mut b = interpolate(&split.process(&input[..137]), 16_000);
    b.extend(interpolate(&split.process(&input[137..]), 16_000));

    assert_eq!(a.len(), b.len(), "output length differs across split");
    for (x, y) in a.iter().zip(&b) {
        assert!((x - y).abs() < 1e-6, "sample mismatch: {x} vs {y}");
    }
}

/// When to move capture to another device. Nothing to move to must mean stay put.
#[test]
fn capture_reopens_only_when_it_is_on_the_wrong_device() {
    assert!(should_reopen(Some("MacBook Air Microphone"), "AirPods Pro"));
    assert!(should_reopen(Some("Matalu Aggregate"), "MacBook Air Microphone"));

    assert!(!should_reopen(Some("AirPods Pro"), "AirPods Pro"));
    assert!(!should_reopen(None, "AirPods Pro"));
}

/// 3:1 downsample of N input frames yields ~N/3 output frames.
#[test]
fn audio_downsample_ratio_is_correct() {
    let input = vec![0.5f32; 4800]; // 100 ms @ 48 kHz
    let mut r = LinearResampler::new(48_000, 16_000, 0.0f32);
    let out = interpolate(&r.process(&input), 16_000);
    assert!((out.len() as i64 - 1600).abs() <= 2, "got {} frames", out.len());
}

#[test]
fn resampler_places_taps_between_the_right_samples() {
    // Upsampling 1:2 over [10, 20, 30]: positions 0, 1/2, 1, 3/2.
    let mut r = LinearResampler::new(1, 2, 0i32);
    let taps = r.process(&[10, 20, 30]);
    assert_eq!(
        taps,
        vec![
            Tap { a: 10, b: 20, num: 0 },
            Tap { a: 10, b: 20, num: 1 },
            Tap { a: 20, b: 30, num: 0 },
            Tap { a: 20, b: 30, num: 1 },
        ]
    );
    // The next buffer goes on from the last sample of this one.
    assert_eq!(
        r.process(&[40]),
        vec![Tap { a: 30, b: 40, num: 0 }, Tap { a: 30, b: 40, num: 1 }]
    );
}

#[test]
fn resampler_ignores_empty_buffers() {
    let mut r = LinearResampler::new(44_100, 16_000, 0i32);
    let mut s = LinearResampler::new(44_100, 16_000, 0i32);
    let first: Vec<i32> = (0..100).collect();
    let second: Vec<i32> = (100..200).collect();
    let mut a = r.process(&first);
    a.extend(r.process(&second));
    let mut b = s.process(&first);
    assert!(s.process(&[]).is_empty());
    b.extend(s.process(&second));
    assert_eq!(a, b);
}

fn names(list: &[&str]) -> Vec<String> {
    list.iter().map(|s| s.to_string()).collect()
}

#[test]
fn absent_device_resolves_to_the_default() {
    let devices = names(&["Built-in", "AirPods"]);
    assert!(input_device_exists("AirPods", &devices));
    assert!(!input_device_exists("Aggregate", &devices));

    let request = device_request(Some("Aggregate".to_string()));
    assert_eq!(requested_name(&request).as_deref(), Some("Aggregate"));
    assert_eq!(
        desired_name(&request, &devices, Some("Built-in".to_string())).as_deref(),
        Some("Built-in")
    );
    assert_eq!(desired_name(&request, &devices, None), None);
    let present = names(&["Built-in", "Aggregate"]);
    assert_eq!(
        desired_name(&request, &present, Some("Built-in".to_string())).as_deref(),
        Some("Aggregate")
    );
    let default = device_request(None);
    assert_eq!(
        desired_name(&default, &present, Some("Built-in".to_string())).as_deref(),
        Some("Built-in")
    );
}

#[test]
fn changed_request_is_what_is_read_next() {
    let mut request = device_request(Some("AirPods".to_string()));
    let other = device_request(None);
    assert_eq!(requested_name(&request).as_deref(), Some("AirPods"));
    request.set_request(Some("Aggregate".to_string()));
    assert_eq!(requested_name(&request).as_deref(), Some("Aggregate"));
    request.set_request(None);
    assert_eq!(requested_name(&request), None);
    request.set_request(Some("AirPods".to_string()));
    assert_eq!(requested_name(&other), None, "another request is left alone");
}

#[test]
fn device_choice_falls_back_instead_of_failing() {
    let devices = names(&["Built-in", "AirPods", "AirPods"]);
    assert_eq!(choose_device(Some("AirPods"), &devices), DeviceChoice::Listed(1));
    assert_eq!(choose_device(Some("Aggregate"), &devices), DeviceChoice::Fallback);
    assert_eq!(choose_device(None, &devices), DeviceChoice::Default);
}

/// What is opened for a request is where capture belongs, so nothing is reopened.
#[test]
fn capture_settles_on_the_fallback() {
    let devices = names(&["Built-in"]);
    let request = device_request(Some("Aggregate".to_string()));
    assert_eq!(
        choose_device(requested_name(&request).as_deref(), &devices),
        DeviceChoice::Fallback
    );
    let desired = desired_name(&request, &devices, Some("Built-in".to_string()));
    assert!(!should_reopen(desired.as_deref(), "Built-in"));
}

#[test]
fn a_wait_ends_in_a_rebuild_only_for_a_reason() {
    assert_eq!(rebuild_after(Signal::Lost, None, "A"), Some(Rebuild::DeviceLost));
    assert_eq!(
        rebuild_after(Signal::Disconnected, Some("B".to_string()), "A"),
        Some(Rebuild::DeviceLost)
    );
    assert_eq!(
        rebuild_after(Signal::Timeout, Some("B".to_string()), "A"),
        Some(Rebuild::Moved("B".to_string()))
    );
    assert_eq!(rebuild_after(Signal::Timeout, Some("A".to_string()), "A"), None);
    assert_eq!(rebuild_after(Signal::Timeout, None, "A"), None);
}

#[test]
fn repeated_trouble_is_reported_sparingly() {
    let mut failures: u64 = 0;
    let reported: Vec<u64> = (0..180)
        .filter_map(|_| if count_failure(&mut failures) { Some(failures) } else { None })
        .collect();
    assert_eq!(reported, vec![1, 60, 120, 180]);

    let mut dropped: u64 = 0;
    let reported: Vec<u64> = (0..250)
        .filter_map(|_| if count_drop(&mut dropped) { Some(dropped) } else { None })
        .collect();
    assert_eq!(reported, vec![1, 101, 201]);
}
