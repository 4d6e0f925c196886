//! Noticing that a video call is on, so that its transcript can be offered.
//!
//! The system knows which programs capture the microphone. A conferencing program
//! among them is taken for a call. This only ever suggests; nothing is recorded
//! unasked.

use vstd::prelude::*;

use crate::text;

verus! {

/// How often the programs that capture the microphone are looked up.
pub const POLL_MS: u64 = 5_000;

/// How many samples in a row must agree before a change is reported.
pub const CONFIRM: u8 = 2;

/// The name of the conferencing program with the given bundle identifier. It is a
/// list of known programs, not any that holds the microphone, so that a recorder is
/// not taken for a call. The browsers are on it for calls on web pages.
pub open spec fn app_named(bundle: Seq<char>) -> Option<Seq<char>> {
    if bundle == "us.zoom.xos"@ {
        Some("Zoom"@)
    } else if bundle == "com.microsoft.teams"@ || bundle == "com.microsoft.teams2"@ {
        Some("Teams"@)
    } else if bundle == "com.tinyspeck.slackmacgap"@ {
        Some("Slack"@)
    } else if bundle == "com.hnc.Discord"@ {
        Some("Discord"@)
    } else if bundle == "com.cisco.webexmeetingsapp"@ || bundle == "Cisco-Systems.Spark"@ {
        Some("Webex"@)
    } else if bundle == "com.apple.FaceTime"@ {
        Some("FaceTime"@)
    } else if bundle == "com.google.Chrome"@ {
        Some("Chrome"@)
    } else if bundle == "com.apple.Safari"@ {
        Some("Safari"@)
    } else if bundle == "company.thebrowser.Browser"@ {
        Some("Arc"@)
    } else if bundle == "org.mozilla.firefox"@ {
        Some("Firefox"@)
    } else if bundle == "com.microsoft.edgemac"@ {
        Some("Edge"@)
    } else if bundle == "com.brave.Browser"@ {
        Some("Brave"@)
    } else {
        None
    }
}

/// The name of the conferencing program with the given bundle identifier.
pub fn app_name(bundle: &str) -> (r: Option<&'static str>)
    ensures
        text::opt_str(r) == app_named(bundle@),
{
    if text::same_text(bundle, "us.zoom.xos") {
        Some("Zoom")
    } else if text::same_text(bundle, "com.microsoft.teams") || text::same_text(
        bundle,
        "com.microsoft.teams2",
    ) {
        Some("Teams")
    } else if text::same_text(bundle, "com.tinyspeck.slackmacgap") {
        Some("Slack")
    } else if text::same_text(bundle, "com.hnc.Discord") {
        Some("Discord")
    } else if text::same_text(bundle, "com.cisco.webexmeetingsapp") || text::same_text(
        bundle,
        "Cisco-Systems.Spark",
    ) {
        Some("Webex")
    } else if text::same_text(bundle, "com.apple.FaceTime") {
        Some("FaceTime")
    } else if text::same_text(bundle, "com.google.Chrome") {
        Some("Chrome")
    } else if text::same_text(bundle, "com.apple.Safari") {
        Some("Safari")
    } else if text::same_text(bundle, "company.thebrowser.Browser") {
        Some("Arc")
    } else if text::same_text(bundle, "org.mozilla.firefox") {
        Some("Firefox")
    } else if text::same_text(bundle, "com.microsoft.edgemac") {
        Some("Edge")
    } else if text::same_text(bundle, "com.brave.Browser") {
        Some("Brave")
    } else {
        None
    }
}

/// The name of the first conferencing program among bundle identifiers.
pub open spec fn first_app(bundles: Seq<Seq<char>>) -> Option<Seq<char>>
    decreases bundles.len(),
{
    if bundles.len() == 0 {
        None
    } else {
        match app_named(bundles.first()) {
            Some(name) => Some(name),
            None => first_app(bundles.drop_first()),
        }
    }
}

/// The name of the first conferencing program among those that capture the
/// microphone.
pub fn conferencing_app(bundle_ids: &[String]) -> (r: Option<&'static str>)
    ensures
        text::opt_str(r) == first_app(text::texts(bundle_ids@)),
{
    let ghost all = text::texts(bundle_ids@);
    assert(all.skip(0) =~= all);
    let mut i: usize = 0;
    while i < bundle_ids.len()
        invariant
            i <= bundle_ids@.len(),
            all == text::texts(bundle_ids@),
            first_app(all) == first_app(all.skip(i as int)),
        decreases bundle_ids@.len() - i,
    {
        assert(all.skip(i as int).first() == bundle_ids@[i as int]@);
        assert(all.skip(i as int).drop_first() =~= all.skip(i + 1));
        let name = app_name(bundle_ids[i].as_str());
        if name.is_some() {
            return name;
        }
        i += 1;
    }
    None
}

/// A program that uses audio, as far as the system tells.
pub struct AudioProcess {
    /// One if it captures input right now.
    pub running_input: Option<u32>,
    pub pid: Option<i32>,
    pub bundle_id: Option<String>,
}

/// The program captures the microphone, is not this one, and can be named. This one
/// is told by its process, which also works outside a bundle.
pub open spec fn is_capturing(process: AudioProcess, ours: i32) -> bool {
    &&& process.running_input == Some(1u32)
    &&& process.pid != Some(ours)
    &&& process.bundle_id is Some
    &&& process.bundle_id->0@.len() > 0
}

/// The bundle identifiers of the programs that capture the microphone, in order.
pub open spec fn capturing(processes: Seq<AudioProcess>, ours: i32) -> Seq<Seq<char>>
    decreases processes.len(),
{
    if processes.len() == 0 {
        Seq::empty()
    } else {
        let before = capturing(processes.drop_last(), ours);
        if is_capturing(processes.last(), ours) {
            before.push(processes.last().bundle_id->0@)
        } else {
            before
        }
    }
}

/// The bundle identifiers of the programs that capture the microphone, in order,
/// without the one with process identifier `ours`.
pub fn capturing_bundle_ids(processes: &[AudioProcess], ours: i32) -> (r: Vec<String>)
    ensures
        text::texts(r@) == capturing(processes@, ours),
{
    let mut out: Vec<String> = Vec::new();
    let mut i: usize = 0;
    assert(text::texts(out@) =~= Seq::empty());
    while i < processes.len()
        invariant
            i <= processes@.len(),
            text::texts(out@) == capturing(processes@.take(i as int), ours),
        decreases processes@.len() - i,
    {
        let process = &processes[i];
        assert(processes@.take(i + 1).drop_last() =~= processes@.take(i as int));
        let captures = match process.running_input {
            Some(flag) => flag == 1,
            None => false,
        };
        let other = match process.pid {
            Some(pid) => pid != ours,
            None => true,
        };
        let ghost before = out@;
        if captures && other {
            if let Some(id) = &process.bundle_id {
                if id.as_str().unicode_len() > 0 {
                    out.push(id.clone());
                    assert(text::texts(out@) =~= text::texts(before).push(id@));
                }
            }
        }
        i += 1;
    }
    assert(processes@.take(i as int) =~= processes@);
    out
}

/// The detector as a value.
#[verifier::ext_equal]
pub struct Sighting {
    /// The program last reported.
    pub reported: Option<Seq<char>>,
    /// The program that the latest samples agree on.
    pub pending: Option<Seq<char>>,
    /// How many of them there are, as far as it is counted.
    pub streak: u8,
}

impl Sighting {
    /// Nothing has been seen.
    pub open spec fn nothing() -> Sighting {
        Sighting { reported: None, pending: None, streak: 0 }
    }

    /// How many of the latest samples agree with `now`, with it.
    pub open spec fn agreeing(self, now: Option<Seq<char>>) -> u8 {
        if now != self.pending {
            1
        } else if self.streak == u8::MAX {
            u8::MAX
        } else {
            (self.streak + 1) as u8
        }
    }

    /// The sample `now` is a change to report.
    pub open spec fn changes(self, now: Option<Seq<char>>) -> bool {
        self.agreeing(now) >= CONFIRM && self.reported != now
    }

    /// After the sample `now`.
    pub open spec fn observed(self, now: Option<Seq<char>>) -> Sighting {
        Sighting {
            reported: if self.changes(now) {
                now
            } else {
                self.reported
            },
            pending: now,
            streak: self.agreeing(now),
        }
    }
}

/// Turns samples into changes. Programs drop and take up the microphone while a
/// call begins, so one sample is not enough.
pub struct Detector {
    reported: Option<&'static str>,
    pending: Option<&'static str>,
    streak: u8,
}

impl View for Detector {
    type V = Sighting;

    closed spec fn view(&self) -> Sighting {
        Sighting {
            reported: text::opt_str(self.reported),
            pending: text::opt_str(self.pending),
            streak: self.streak,
        }
    }
}

/// Two programs are the same, or both are none.
fn same_app(a: Option<&'static str>, b: Option<&'static str>) -> (r: bool)
    ensures
        r == (text::opt_str(a) == text::opt_str(b)),
{
    match (a, b) {
        (Some(x), Some(y)) => text::same_text(x, y),
        (None, None) => true,
        _ => false,
    }
}

impl Detector {
    /// A detector that has seen nothing.
    pub fn new() -> (r: Self)
        ensures
            r@ == Sighting::nothing(),
    {
        Detector { reported: None, pending: None, streak: 0 }
    }

    /// Takes a sample: the program that seems to hold a call, if any. Gives the new
    /// state if, and only if, it is a change to report.
    pub fn observe(&mut self, now: Option<&'static str>) -> (r: Option<Option<&'static str>>)
        ensures
            final(self)@ == old(self)@.observed(text::opt_str(now)),
            r is Some == old(self)@.changes(text::opt_str(now)),
            r is Some ==> text::opt_str(r->0) == text::opt_str(now),
    {
        if same_app(now, self.pending) {
            if self.streak < u8::MAX {
                self.streak = self.streak + 1;
            }
        } else {
            self.streak = 1;
        }
        self.pending = now;
        if self.streak >= CONFIRM && !same_app(self.reported, now) {
            self.reported = now;
            return Some(now);
        }
        None
    }
}

/// One sample never changes what is reported: the sample before has to agree.
pub proof fn law_one_sample_is_not_enough(d: Sighting, now: Option<Seq<char>>)
    requires
        d.pending != now,
    ensures
        !d.changes(now),
        d.observed(now).reported == d.reported,
{
}

/// Two agreeing samples are enough, whatever came before.
pub proof fn law_two_samples_settle(d: Sighting, now: Option<Seq<char>>)
    ensures
        d.observed(now).observed(now).reported == now,
{
}

/// What has been reported is not reported again, however often it is seen.
pub proof fn law_steady_state_is_reported_once(d: Sighting, now: Option<Seq<char>>)
    requires
        d.reported == now,
    ensures
        !d.changes(now),
        d.observed(now).reported == now,
{
}

/// A brief interruption is no change: when the reported program is seen again after
/// one sample of another, nothing is reported.
pub proof fn law_blip_is_no_change(d: Sighting, blip: Option<Seq<char>>)
    requires
        d.pending == d.reported,
        blip != d.reported,
    ensures
        !d.changes(blip),
        !d.observed(blip).changes(d.reported),
        d.observed(blip).observed(d.reported).reported == d.reported,
{
}

/// The conferencing programs are these, by bundle identifier and name, and no others.
pub proof fn law_known_programs_are_named(bundle: &str, r: Option<&'static str>)
    requires
        call_ensures(app_name, (bundle,), r),
    ensures
        ({
            let b = bundle@;
            let pairs = seq![
                ("us.zoom.xos"@, "Zoom"@),
                ("com.microsoft.teams"@, "Teams"@),
                ("com.microsoft.teams2"@, "Teams"@),
                ("com.tinyspeck.slackmacgap"@, "Slack"@),
                ("com.hnc.Discord"@, "Discord"@),
                ("com.cisco.webexmeetingsapp"@, "Webex"@),
                ("Cisco-Systems.Spark"@, "Webex"@),
                ("com.apple.FaceTime"@, "FaceTime"@),
                ("com.google.Chrome"@, "Chrome"@),
                ("com.apple.Safari"@, "Safari"@),
                ("company.thebrowser.Browser"@, "Arc"@),
                ("org.mozilla.firefox"@, "Firefox"@),
                ("com.microsoft.edgemac"@, "Edge"@),
                ("com.brave.Browser"@, "Brave"@),
            ];
            &&& r is Some <==> exists|i: int| 0 <= i < pairs.len() && (#[trigger] pairs[i]).0 == b
            &&& r is Some ==> pairs.contains((b, r->0@))
        }),
{
    let b = bundle@;
    let pairs = seq![
        ("us.zoom.xos"@, "Zoom"@),
        ("com.microsoft.teams"@, "Teams"@),
        ("com.microsoft.teams2"@, "Teams"@),
        ("com.tinyspeck.slackmacgap"@, "Slack"@),
        ("com.hnc.Discord"@, "Discord"@),
        ("com.cisco.webexmeetingsapp"@, "Webex"@),
        ("Cisco-Systems.Spark"@, "Webex"@),
        ("com.apple.FaceTime"@, "FaceTime"@),
        ("com.google.Chrome"@, "Chrome"@),
        ("com.apple.Safari"@, "Safari"@),
        ("company.thebrowser.Browser"@, "Arc"@),
        ("org.mozilla.firefox"@, "Firefox"@),
        ("com.microsoft.edgemac"@, "Edge"@),
        ("com.brave.Browser"@, "Brave"@),
    ];
    if r is Some {
        let name = r->0@;
        assert(pairs[0] == (b, name) || pairs[1] == (b, name) || pairs[2] == (b, name) || pairs[3]
            == (b, name) || pairs[4] == (b, name) || pairs[5] == (b, name) || pairs[6] == (b, name)
            || pairs[7] == (b, name) || pairs[8] == (b, name) || pairs[9] == (b, name) || pairs[10]
            == (b, name) || pairs[11] == (b, name) || pairs[12] == (b, name) || pairs[13] == (
            b,
            name,
        ));
    }
}

/// The program that a call is taken to be on is the first of those that can be one.
pub proof fn law_first_known_program_counts(
    none: &[String],
    nothing: Option<&'static str>,
    first: &str,
    named: Option<&'static str>,
    rest: &[String],
    in_rest: Option<&'static str>,
    all: &[String],
    r: Option<&'static str>,
)
    requires
        none@.len() == 0,
        call_ensures(conferencing_app, (none,), nothing),
        all@.len() > 0 && all@[0]@ == first@ && all@.skip(1) == rest@,
        call_ensures(app_name, (first,), named),
        call_ensures(conferencing_app, (rest,), in_rest),
        call_ensures(conferencing_app, (all,), r),
    ensures
        nothing is None,
        named is Some ==> r is Some && r->0@ == named->0@,
        named is None ==> (r is Some <==> in_rest is Some),
        named is None && in_rest is Some ==> r->0@ == in_rest->0@,
{
    let ids = text::texts(all@);
    assert(text::texts(none@).len() == 0);
    assert(ids.first() == first@);
    assert(ids.drop_first() =~= text::texts(rest@));
}

/// Programs are told by whether they capture the microphone right now, are not this one
/// and have a name: one more program adds its bundle identifier at the end, or nothing.
pub proof fn law_capturing_programs_are_listed(
    none: &[AudioProcess],
    nothing: Vec<String>,
    some: &[AudioProcess],
    before: Vec<String>,
    p: AudioProcess,
    more: &[AudioProcess],
    after: Vec<String>,
    ours: i32,
)
    requires
        none@.len() == 0,
        more@ == some@.push(p),
        call_ensures(capturing_bundle_ids, (none, ours), nothing),
        call_ensures(capturing_bundle_ids, (some, ours), before),
        call_ensures(capturing_bundle_ids, (more, ours), after),
    ensures
        nothing@.len() == 0,
        ({
            let captures = p.running_input == Some(1u32) && p.pid != Some(ours)
                && p.bundle_id is Some && p.bundle_id->0@.len() > 0;
            &&& captures ==> text::texts(after@) == text::texts(before@).push(p.bundle_id->0@)
            &&& !captures ==> text::texts(after@) == text::texts(before@)
        }),
{
    assert(text::texts(nothing@).len() == nothing@.len());
    assert(more@.drop_last() =~= some@);
}

/// A sample is a change exactly if the sample before it agrees and something else is
/// reported. The first of a row never is one, and the count of a row stops where it can
/// be counted no further.
pub proof fn law_second_sample_is_the_change(
    fresh: Detector,
    k: &mut Detector,
    now: Option<&'static str>,
    r: Option<Option<&'static str>>,
)
    requires
        call_ensures(Detector::new, (), fresh),
        call_ensures(Detector::observe, (k, now), r),
    ensures
        fresh@.reported is None && fresh@.pending is None && fresh@.streak == 0,
        ({
            let seen = match now {
                Some(app) => Some(app@),
                None => None,
            };
            let earlier = old(k)@;
            let later = final(k)@;
            &&& later.pending == seen
            &&& earlier.pending != seen ==> later.streak == 1
            &&& earlier.pending == seen && earlier.streak < 255 ==> later.streak == earlier.streak
                + 1
            &&& earlier.pending == seen && earlier.streak == 255 ==> later.streak == 255
            &&& r is Some <==> earlier.pending == seen && earlier.streak >= 1 && earlier.reported
                != seen
            &&& r is Some ==> later.reported == seen && match r->0 {
                Some(app) => seen == Some(app@),
                None => seen is None,
            }
            &&& r is None ==> later.reported == earlier.reported
        }),
{
}

}
