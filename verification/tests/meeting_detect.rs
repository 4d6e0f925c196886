use matalu::meeting_detect::app_name;
use matalu::meeting_detect::capturing_bundle_ids;
use matalu::meeting_detect::conferencing_app;
use matalu::meeting_detect::AudioProcess;
use matalu::meeting_detect::Detector;

/// The allowlist is the whole reason a recording app doesn't look like a call, so
/// the negative case matters more than the positive one.
#[test]
fn only_allowlisted_conferencing_apps_count() {
    assert_eq!(conferencing_app(&["us.zoom.xos".into()]), Some("Zoom"));
    assert_eq!(
        conferencing_app(&["com.apple.VoiceMemos".into(), "com.google.Chrome".into()]),
        Some("Chrome"),
    );

    assert_eq!(conferencing_app(&["com.apple.VoiceMemos".into()]), None);
    assert_eq!(conferencing_app(&[]), None);
}

/// One sample must not move the tray, and a steady state must not re-report.
#[test]
fn a_transition_needs_two_agreeing_samples_and_reports_once() {
    let mut d = Detector::new();

    assert_eq!(d.observe(Some("Zoom")), None, "one sample is not enough");
    assert_eq!(d.observe(Some("Zoom")), Some(Some("Zoom")));
    assert_eq!(d.observe(Some("Zoom")), None, "steady state must not re-report");

    // A single blip back to nothing is not a transition.
    assert_eq!(d.observe(None), None);
    assert_eq!(d.observe(Some("Zoom")), None);
    assert_eq!(d.observe(Some("Zoom")), None, "never actually left the reported state");

    assert_eq!(d.observe(None), None);
    assert_eq!(d.observe(None), Some(None), "call ended");
}

#[test]
fn every_listed_program_has_its_name() {
    for (bundle, name) in [
        ("us.zoom.xos", "Zoom"),
        ("com.microsoft.teams", "Teams"),
        ("com.microsoft.teams2", "Teams"),
        ("com.tinyspeck.slackmacgap", "Slack"),
        ("com.hnc.Discord", "Discord"),
        ("com.cisco.webexmeetingsapp", "Webex"),
        ("Cisco-Systems.Spark", "Webex"),
        ("com.apple.FaceTime", "FaceTime"),
        ("com.google.Chrome", "Chrome"),
        ("com.apple.Safari", "Safari"),
        ("company.thebrowser.Browser", "Arc"),
        ("org.mozilla.firefox", "Firefox"),
        ("com.microsoft.edgemac", "Edge"),
        ("com.brave.Browser", "Brave"),
    ] {
        assert_eq!(app_name(bundle), Some(name));
    }
    assert_eq!(app_name("us.zoom.xos2"), None);
}

#[test]
fn long_calls_do_not_wear_the_detector_out() {
    let mut d = Detector::new();
    let reports = (0..1000).filter(|_| d.observe(Some("Teams")).is_some()).count();
    assert_eq!(reports, 1);
    assert_eq!(d.observe(None), None);
    assert_eq!(d.observe(None), Some(None));
}

fn process(running: Option<u32>, pid: Option<i32>, id: Option<&str>) -> AudioProcess {
    AudioProcess { running_input: running, pid, bundle_id: id.map(|s| s.to_string()) }
}

#[test]
fn only_other_named_capturing_programs_are_listed() {
    let processes = vec![
        process(Some(1), Some(10), Some("us.zoom.xos")),
        process(Some(0), Some(11), Some("com.apple.Safari")),
        process(None, Some(12), Some("com.apple.Safari")),
        process(Some(1), Some(7), Some("dev.matalu")),
        process(Some(1), Some(13), Some("")),
        process(Some(1), Some(14), None),
        process(Some(1), None, Some("com.hnc.Discord")),
    ];
    assert_eq!(
        capturing_bundle_ids(&processes, 7),
        vec!["us.zoom.xos".to_string(), "com.hnc.Discord".to_string()]
    );
}
