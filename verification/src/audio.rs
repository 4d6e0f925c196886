//! Microphone capture: where the resampler reads, and which device to be on.

use vstd::prelude::*;

use crate::text;

verus! {

/// One output sample: it lies between the input samples `a` and `b`, `num` parts
/// of the output rate after `a`, so its value is `a + (b - a) * num / out_rate`.
#[derive(Clone, Copy, PartialEq, Eq, Structural, Debug)]
pub struct Tap<S> {
    pub a: S,
    pub b: S,
    pub num: u32,
}

/// The state of a resampler between two buffers. Positions are counted in parts
/// of an input sample, `out_rate` parts to the sample, from the start of the next
/// buffer.
pub struct Cursor<S> {
    pub in_rate: int,
    pub out_rate: int,
    /// Where the next output sample lies.
    pub pos: int,
    /// The last sample of the previous buffer, just before the next one.
    pub last: S,
}

impl<S> Cursor<S> {
    /// Whether the next output sample lies no earlier than the sample just before
    /// the next buffer, nor later than one input step into it.
    pub open spec fn wf(self) -> bool {
        &&& 0 < self.in_rate <= u32::MAX
        &&& 0 < self.out_rate <= u32::MAX
        &&& -self.out_rate <= self.pos <= self.in_rate
    }

    /// The input sample at index `i` of a buffer, the one before it at `-1`.
    pub open spec fn sample_at(self, input: Seq<S>, i: int) -> S {
        if i < 0 {
            self.last
        } else {
            input[i]
        }
    }

    /// The output sample at position `p`.
    pub open spec fn tap(self, input: Seq<S>, p: int) -> Tap<S> {
        let i = p / self.out_rate;
        Tap {
            a: self.sample_at(input, i),
            b: self.sample_at(input, i + 1),
            num: (p % self.out_rate) as u32,
        }
    }

    /// The end of the positions that have an input sample on both sides in a
    /// buffer of `n` samples.
    pub open spec fn limit(self, n: int) -> int {
        n * self.out_rate - self.out_rate
    }

    /// The output samples from position `p` up to `limit`, one every `in_rate`
    /// parts.
    pub open spec fn taps(self, input: Seq<S>, p: int, limit: int) -> Seq<Tap<S>>
        decreases (if p < limit { limit - p } else { 0 }),
        when self.in_rate > 0
    {
        if p >= limit {
            seq![]
        } else {
            seq![self.tap(input, p)] + self.taps(input, p + self.in_rate, limit)
        }
    }

    /// The first position from `p` on, in steps of `in_rate`, that is not below
    /// `limit`.
    pub open spec fn reached(self, p: int, limit: int) -> int
        decreases (if p < limit { limit - p } else { 0 }),
        when self.in_rate > 0
    {
        if p >= limit {
            p
        } else {
            self.reached(p + self.in_rate, limit)
        }
    }

    /// What a buffer is resampled to.
    pub open spec fn output(self, input: Seq<S>) -> Seq<Tap<S>> {
        self.taps(input, self.pos, self.limit(input.len() as int))
    }

    /// The state after a buffer.
    pub open spec fn after(self, input: Seq<S>) -> Cursor<S> {
        Cursor {
            pos: self.reached(self.pos, self.limit(input.len() as int)) - input.len()
                * self.out_rate,
            last: if input.len() == 0 {
                self.last
            } else {
                input.last()
            },
            ..self
        }
    }
}

/// The position reached lies at the limit or beyond, by less than a step, unless
/// it was there from the start.
proof fn lemma_reached<S>(c: Cursor<S>, p: int, limit: int)
    requires
        c.in_rate > 0,
    ensures
        c.reached(p, limit) >= limit,
        c.reached(p, limit) >= p,
        p >= limit ==> c.reached(p, limit) == p,
        p < limit ==> c.reached(p, limit) < limit + c.in_rate,
    decreases (if p < limit { limit - p } else { 0 }),
{
    if p < limit {
        lemma_reached(c, p + c.in_rate, limit);
    }
}

/// A buffer leaves the resampler in a state in which it can go on.
pub proof fn lemma_after_wf<S>(c: Cursor<S>, input: Seq<S>)
    requires
        c.wf(),
    ensures
        c.after(input).wf(),
{
    let n = input.len() as int;
    lemma_reached(c, c.pos, c.limit(n));
    assert(n * c.out_rate >= 0) by (nonlinear_arith)
        requires
            n >= 0,
            c.out_rate > 0,
    ;
}

/// A streaming linear resampler from `in_rate` to `out_rate`.
///
/// It keeps the read position and the last input sample between calls, so that
/// successive buffers interpolate seamlessly. It decides which samples each
/// output lies between, and where; the interpolation itself is left to the
/// caller.
pub struct LinearResampler<S> {
    in_rate: u32,
    out_rate: u32,
    pos: i128,
    last: S,
}

impl<S> View for LinearResampler<S> {
    type V = Cursor<S>;

    closed spec fn view(&self) -> Cursor<S> {
        Cursor {
            in_rate: self.in_rate as int,
            out_rate: self.out_rate as int,
            pos: self.pos as int,
            last: self.last,
        }
    }
}

impl<S: Copy> LinearResampler<S> {
    /// A resampler at the start of a signal, before which there is silence.
    pub fn new(in_rate: u32, out_rate: u32, silence: S) -> (r: Self)
        requires
            in_rate > 0,
            out_rate > 0,
        ensures
            r@ == (Cursor {
                in_rate: in_rate as int,
                out_rate: out_rate as int,
                pos: 0,
                last: silence,
            }),
            r@.wf(),
    {
        LinearResampler { in_rate, out_rate, pos: 0, last: silence }
    }

    fn sample_at(&self, i: i128, input: &[S]) -> (r: S)
        requires
            i < input@.len(),
            i >= -1,
        ensures
            r == self@.sample_at(input@, i as int),
    {
        let n = input.len();
        if i < 0 {
            self.last
        } else {
            assert(i < n);
            input[i as usize]
        }
    }

    /// Resamples one buffer: the output samples that lie between samples of it, or
    /// between the previous buffer's last sample and its first.
    pub fn process(&mut self, input: &[S]) -> (out: Vec<Tap<S>>)
        requires
            old(self)@.wf(),
        ensures
            out@ == old(self)@.output(input@),
            final(self)@ == old(self)@.after(input@),
            final(self)@.wf(),
    {
        let ghost c = self@;
        let mut out: Vec<Tap<S>> = Vec::new();
        proof {
            lemma_after_wf(c, input@);
        }
        if input.len() == 0 {
            assert(input@.len() * c.out_rate == 0) by (nonlinear_arith)
                requires
                    input@.len() == 0,
            ;
            return out;
        }
        let n: i128 = input.len() as i128;
        let rate: i128 = self.out_rate as i128;
        let step: i128 = self.in_rate as i128;
        assert(0 <= n * rate <= 0xffff_ffff_ffff_ffff * 0xffff_ffff) by (nonlinear_arith)
            requires
                0 <= n <= 0xffff_ffff_ffff_ffff,
                0 <= rate <= 0xffff_ffff,
        ;
        let limit: i128 = n * rate - rate;
        let mut pos: i128 = self.pos;
        while pos < limit
            invariant
                self@ == c,
                c.wf(),
                n == input@.len(),
                0 < n <= 0xffff_ffff_ffff_ffff,
                rate == c.out_rate,
                step == c.in_rate,
                limit == c.limit(n as int),
                0 <= n * rate <= 0xffff_ffff_ffff_ffff * 0xffff_ffff,
                c.pos <= pos,
                pos <= c.in_rate || pos < limit + step,
                out@ + c.taps(input@, pos as int, limit as int) == c.output(input@),
                c.reached(pos as int, limit as int) == c.reached(c.pos, limit as int),
            decreases (if pos < limit { limit - pos } else { 0 }),
        {
            let i: i128 = if pos < 0 {
                -1
            } else {
                ((pos as u128) / (rate as u128)) as i128
            };
            let num: i128 = if pos < 0 {
                pos + rate
            } else {
                ((pos as u128) % (rate as u128)) as i128
            };
            proof {
                let p = pos as int;
                let r = rate as int;
                if p < 0 {
                    vstd::arithmetic::div_mod::lemma_fundamental_div_mod_converse(
                        p,
                        r,
                        -1,
                        p + r,
                    );
                } else {
                    vstd::arithmetic::div_mod::lemma_fundamental_div_mod(p, r);
                }
                assert(i == p / r);
                assert(num == p % r);
                assert(i + 1 < n) by (nonlinear_arith)
                    requires
                        p == r * i + num,
                        0 <= num < r,
                        p < n * r - r,
                        r > 0,
                ;
                assert(i >= -1);
            }
            let a = self.sample_at(i, input);
            let b = self.sample_at(i + 1, input);
            let t = Tap { a, b, num: num as u32 };
            assert(t == c.tap(input@, pos as int));
            out.push(t);
            assert(out@ + c.taps(input@, pos + step, limit as int) =~= c.output(input@));
            pos = pos + step;
        }
        assert(out@ + c.taps(input@, pos as int, limit as int) =~= out@);
        self.last = input[input.len() - 1];
        self.pos = pos - n * rate;
        out
    }
}

/// Stopping at an earlier limit and going on is going to the later one at once.
proof fn lemma_taps_split<S>(c: Cursor<S>, input: Seq<S>, p: int, first: int, second: int)
    requires
        c.in_rate > 0,
        first <= second,
    ensures
        c.taps(input, p, second) == c.taps(input, p, first) + c.taps(
            input,
            c.reached(p, first),
            second,
        ),
        c.reached(c.reached(p, first), second) == c.reached(p, second),
    decreases (if p < second { second - p } else { 0 }),
{
    if p < first {
        lemma_taps_split(c, input, p + c.in_rate, first, second);
        let head = seq![c.tap(input, p)];
        let next = p + c.in_rate;
        assert(head + (c.taps(input, next, first) + c.taps(input, c.reached(p, first), second))
            =~= (head + c.taps(input, next, first)) + c.taps(input, c.reached(p, first), second));
    } else {
        assert(c.taps(input, p, first) + c.taps(input, p, second) =~= c.taps(input, p, second));
    }
}

/// Where a position that has both samples in a buffer lies in it.
proof fn lemma_position(p: int, rate: int, n: int)
    requires
        rate > 0,
        p >= -rate,
        p < n * rate - rate,
    ensures
        -1 <= p / rate,
        p / rate + 1 < n,
{
    vstd::arithmetic::div_mod::lemma_fundamental_div_mod(p, rate);
    let q = p / rate;
    let m = p % rate;
    assert(q >= -1 && q + 1 < n) by (nonlinear_arith)
        requires
            p == rate * q + m,
            0 <= m < rate,
            p >= -rate,
            p < n * rate - rate,
            rate > 0,
    ;
}

/// Output samples within a buffer do not depend on what follows it.
proof fn lemma_taps_prefix<S>(c: Cursor<S>, x: Seq<S>, y: Seq<S>, p: int)
    requires
        c.wf(),
        p >= -c.out_rate,
    ensures
        c.taps(x + y, p, c.limit(x.len() as int)) == c.taps(x, p, c.limit(x.len() as int)),
    decreases
            (if p < c.limit(x.len() as int) {
                c.limit(x.len() as int) - p
            } else {
                0
            }),
{
    let limit = c.limit(x.len() as int);
    if p < limit {
        lemma_position(p, c.out_rate, x.len() as int);
        assert(c.tap(x + y, p) == c.tap(x, p));
        lemma_taps_prefix(c, x, y, p + c.in_rate);
    }
}

/// Output samples beyond a buffer are those of the next one, counted from its
/// start.
proof fn lemma_taps_shift<S>(c: Cursor<S>, x: Seq<S>, y: Seq<S>, p: int)
    requires
        c.wf(),
        x.len() > 0,
        p >= c.limit(x.len() as int),
    ensures
        ({
            let shift = x.len() * c.out_rate;
            let all = c.limit((x + y).len() as int);
            &&& c.after(x).taps(y, p - shift, c.limit(y.len() as int)) == c.taps(x + y, p, all)
            &&& c.after(x).reached(p - shift, c.limit(y.len() as int)) == c.reached(p, all) - shift
        }),
    decreases
            (if p < c.limit((x + y).len() as int) {
                c.limit((x + y).len() as int) - p
            } else {
                0
            }),
{
    let d = c.after(x);
    let rate = c.out_rate;
    let n = x.len() as int;
    let m = y.len() as int;
    let shift = n * rate;
    let all = c.limit((x + y).len() as int);
    assert((n + m) * rate == n * rate + m * rate) by (nonlinear_arith);
    assert(all == c.limit(m) + shift);
    assert(n * rate >= rate) by (nonlinear_arith)
        requires
            n >= 1,
            rate > 0,
    ;
    if p < all {
        let q = p / rate;
        lemma_position(p, rate, n + m);
        lemma_position(p - shift, rate, m);
        vstd::arithmetic::div_mod::lemma_fundamental_div_mod(p, rate);
        assert(p - shift == rate * (q - n) + p % rate) by (nonlinear_arith)
            requires
                p == rate * q + p % rate,
                shift == n * rate,
        ;
        vstd::arithmetic::div_mod::lemma_fundamental_div_mod_converse(
            p - shift,
            rate,
            q - n,
            p % rate,
        );
        assert(d.tap(y, p - shift) == c.tap(x + y, p));
        lemma_taps_shift(c, x, y, p + c.in_rate);
    }
}

/// Feeding a signal in two buffers is feeding it as one: the outputs of the two,
/// one after the other, are the outputs of the whole, and the resampler ends up in
/// the same state.
pub proof fn law_streaming_matches_one_shot<S>(c: Cursor<S>, x: Seq<S>, y: Seq<S>)
    requires
        c.wf(),
    ensures
        c.output(x + y) == c.output(x) + c.after(x).output(y),
        c.after(x + y) == c.after(x).after(y),
{
    let rate = c.out_rate;
    let n = x.len() as int;
    let m = y.len() as int;
    lemma_after_wf(c, x);
    if n == 0 {
        assert(n * rate == 0) by (nonlinear_arith)
            requires
                n == 0,
        ;
        assert(x + y =~= y);
        assert(c.output(x) + c.output(y) =~= c.output(y));
    } else {
        assert((n + m) * rate == n * rate + m * rate) by (nonlinear_arith);
        assert(m * rate >= 0) by (nonlinear_arith)
            requires
                m >= 0,
                rate > 0,
        ;
        let first = c.limit(n);
        let all = c.limit((x + y).len() as int);
        lemma_taps_split(c, x + y, c.pos, first, all);
        lemma_taps_prefix(c, x, y, c.pos);
        lemma_reached(c, c.pos, first);
        lemma_taps_shift(c, x, y, c.reached(c.pos, first));
        if m == 0 {
            assert(x + y =~= x);
        } else {
            assert((x + y).last() == y.last());
        }
    }
}

/// How many output samples come before a limit.
proof fn lemma_taps_len<S>(c: Cursor<S>, input: Seq<S>, p: int, limit: int)
    requires
        c.in_rate > 0,
    ensures
        c.reached(p, limit) == p + c.taps(input, p, limit).len() * c.in_rate,
    decreases (if p < limit { limit - p } else { 0 }),
{
    if p < limit {
        lemma_taps_len(c, input, p + c.in_rate, limit);
        let k = c.taps(input, p + c.in_rate, limit).len() as int;
        assert((k + 1) * c.in_rate == k * c.in_rate + c.in_rate) by (nonlinear_arith);
    } else {
        assert(0 * c.in_rate == 0);
    }
}

/// Resampling keeps the duration: from the start of a signal, `k` output samples
/// for `n` input samples satisfy `(n - 1) * out_rate <= k * in_rate` and
/// `k * in_rate < (n - 1) * out_rate + in_rate`.
pub proof fn law_output_length<S>(c: Cursor<S>, input: Seq<S>)
    requires
        c.wf(),
        c.pos == 0,
        input.len() > 0,
    ensures
        (input.len() - 1) * c.out_rate <= c.output(input).len() * c.in_rate,
        c.output(input).len() * c.in_rate < (input.len() - 1) * c.out_rate + c.in_rate,
{
    let n = input.len() as int;
    let limit = c.limit(n);
    assert((n - 1) * c.out_rate == n * c.out_rate - c.out_rate) by (nonlinear_arith);
    lemma_taps_len(c, input, 0, limit);
    lemma_reached(c, 0, limit);
    assert((n - 1) * c.out_rate >= 0) by (nonlinear_arith)
        requires
            n >= 1,
            c.out_rate > 0,
    ;
}

/// Delay before a lost stream is rebuilt, and between attempts when the device is
/// not there.
pub const REOPEN_DELAY_MS: u64 = 1000;

/// How often capture checks which device it should be on.
pub const DEVICE_POLL_MS: u64 = 2000;

/// How many failed attempts go by between two reports of them.
pub const FAILURES_PER_REPORT: u64 = 60;

/// How many dropped buffers go by between two reports of them.
pub const DROPS_PER_REPORT: u64 = 100;

/// Which input device capture should be on; no name means the system default.
#[derive(Clone, Debug)]
pub struct DeviceRequest {
    name: Option<String>,
}

impl View for DeviceRequest {
    type V = Option<Seq<char>>;

    closed spec fn view(&self) -> Option<Seq<char>> {
        text::opt_text(self.name)
    }
}

/// A request for the device `name`, or for the system default.
pub fn device_request(name: Option<String>) -> (r: DeviceRequest)
    ensures
        r@ == text::opt_text(name),
{
    DeviceRequest { name }
}

/// The name that is asked for, if any.
pub fn requested_name(request: &DeviceRequest) -> (r: Option<String>)
    ensures
        text::opt_text(r) == request@,
{
    match &request.name {
        Some(name) => Some(name.clone()),
        None => None,
    }
}

impl DeviceRequest {
    /// Asks for the device `name` from now on, or for the system default.
    pub fn set_request(&mut self, name: Option<String>)
        ensures
            final(self)@ == text::opt_text(name),
    {
        self.name = name;
    }
}

/// What a request was last asked for is what is read of it: the name that it was made
/// with, and once it has been changed the name that it was changed to. Another request
/// still reads as it was made.
pub proof fn law_latest_request_is_read(
    name: Option<String>,
    made: DeviceRequest,
    read: Option<String>,
    later: Option<String>,
    changed: DeviceRequest,
    read_later: Option<String>,
    other_name: Option<String>,
    other: DeviceRequest,
    read_other: Option<String>,
)
    requires
        call_ensures(device_request, (name,), made),
        call_ensures(requested_name, (&made,), read),
        changed@ == text::opt_text(later),
        call_ensures(requested_name, (&changed,), read_later),
        call_ensures(device_request, (other_name,), other),
        call_ensures(requested_name, (&other,), read_other),
    ensures
        text::opt_text(read) == text::opt_text(name),
        text::opt_text(read_later) == text::opt_text(later),
        text::opt_text(read_other) == text::opt_text(other_name),
{
}

/// Whether `i` is the first device with that name.
pub open spec fn is_first_named(devices: Seq<Seq<char>>, name: Seq<char>, i: int) -> bool {
    &&& 0 <= i < devices.len()
    &&& devices[i] == name
    &&& forall|j: int| 0 <= j < i ==> #[trigger] devices[j] != name
}

/// The first device with that name.
fn find_device(name: &str, devices: &[String]) -> (r: Option<usize>)
    ensures
        match r {
            Some(i) => is_first_named(text::texts(devices@), name@, i as int),
            None => !text::texts(devices@).contains(name@),
        },
{
    let ghost all = text::texts(devices@);
    let mut i: usize = 0;
    while i < devices.len()
        invariant
            i <= devices@.len(),
            all == text::texts(devices@),
            forall|j: int| 0 <= j < i ==> #[trigger] all[j] != name@,
        decreases devices@.len() - i,
    {
        assert(all[i as int] == devices@[i as int]@);
        if text::same_text(devices[i].as_str(), name) {
            return Some(i);
        }
        i = i + 1;
    }
    None
}

/// Whether an input device with this name is among `devices`.
pub fn input_device_exists(name: &str, devices: &[String]) -> (r: bool)
    ensures
        r == text::texts(devices@).contains(name@),
{
    let found = find_device(name, devices);
    assert(found is Some ==> text::texts(devices@)[found->0 as int] == name@);
    found.is_some()
}

/// The device that capture should be on: the one asked for if it is present, the
/// system default otherwise.
pub open spec fn desired(
    request: Option<Seq<char>>,
    devices: Seq<Seq<char>>,
    default: Option<Seq<char>>,
) -> Option<Seq<char>> {
    match request {
        Some(name) => if devices.contains(name) {
            Some(name)
        } else {
            default
        },
        None => default,
    }
}

/// The device that capture should be on right now. A request for an absent device
/// resolves to the default, which is what opening it falls back to.
pub fn desired_name(
    request: &DeviceRequest,
    devices: &[String],
    default: Option<String>,
) -> (r: Option<String>)
    ensures
        text::opt_text(r) == desired(
            request@,
            text::texts(devices@),
            text::opt_text(default),
        ),
{
    match requested_name(request) {
        Some(name) => if input_device_exists(name.as_str(), devices) {
            Some(name)
        } else {
            default
        },
        None => default,
    }
}

/// Whether an open stream belongs on another device. If there is nothing to move
/// to, it stays.
pub open spec fn misplaced(desired: Option<Seq<char>>, opened: Seq<char>) -> bool {
    desired is Some && desired->0 != opened
}

/// Whether an open stream should be torn down and reopened elsewhere.
pub fn should_reopen(desired: Option<&str>, opened: &str) -> (r: bool)
    ensures
        r == misplaced(text::opt_str(desired), opened@),
{
    match desired {
        Some(d) => !text::same_text(d, opened),
        None => false,
    }
}

/// Which device to open.
#[derive(Clone, Copy, PartialEq, Eq, Structural, Debug)]
pub enum DeviceChoice {
    /// The device at this place in the list.
    Listed(usize),
    /// The system default, because nothing else is asked for.
    Default,
    /// The system default, because what is asked for is not there.
    Fallback,
}

/// Whether `choice` is the one made for a request.
pub open spec fn chosen(
    request: Option<Seq<char>>,
    devices: Seq<Seq<char>>,
    choice: DeviceChoice,
) -> bool {
    match choice {
        DeviceChoice::Listed(i) => request is Some && is_first_named(
            devices,
            request->0,
            i as int,
        ),
        DeviceChoice::Default => request is None,
        DeviceChoice::Fallback => request is Some && !devices.contains(request->0),
    }
}

/// Which device to open for a request. A missing device falls back to the default
/// rather than failing: to retry it would capture nothing at all.
pub fn choose_device(requested: Option<&str>, devices: &[String]) -> (r: DeviceChoice)
    ensures
        chosen(text::opt_str(requested), text::texts(devices@), r),
{
    match requested {
        Some(name) => match find_device(name, devices) {
            Some(i) => DeviceChoice::Listed(i),
            None => DeviceChoice::Fallback,
        },
        None => DeviceChoice::Default,
    }
}

/// The name of the device that a choice opens.
pub open spec fn opened_name(
    choice: DeviceChoice,
    devices: Seq<Seq<char>>,
    default: Option<Seq<char>>,
) -> Option<Seq<char>> {
    match choice {
        DeviceChoice::Listed(i) => Some(devices[i as int]),
        _ => default,
    }
}

/// Capture does not move back and forth: what is opened for a request is what the
/// request asks for, so that while nothing changes nothing is reopened, even if
/// the device asked for is absent.
pub proof fn law_capture_settles(
    request: Option<Seq<char>>,
    devices: Seq<Seq<char>>,
    default: Option<Seq<char>>,
    choice: DeviceChoice,
)
    requires
        chosen(request, devices, choice),
    ensures
        opened_name(choice, devices, default) == desired(request, devices, default),
        opened_name(choice, devices, default) is Some ==> !misplaced(
            desired(request, devices, default),
            opened_name(choice, devices, default)->0,
        ),
{
    if let DeviceChoice::Listed(i) = choice {
        assert(devices[i as int] == request->0);
    }
}

/// What can go wrong with an open stream, as far as it is told apart.
#[derive(Clone, Copy, PartialEq, Eq, Structural, Debug)]
pub enum ErrorKind {
    /// The device is gone.
    DeviceNotAvailable,
    /// The stream is no longer usable, for instance after a change of rate.
    StreamInvalidated,
    /// The stream was moved to another device and goes on.
    DeviceChanged,
    /// Samples were lost.
    Xrun,
    /// Realtime priority was refused.
    RealtimeDenied,
    /// Anything else.
    Other,
}

/// Whether an error means that the stream is dead and must be rebuilt. Everything
/// else leaves a working stream, which is not torn down.
pub fn is_fatal(kind: ErrorKind) -> (r: bool)
    ensures
        r == (kind == ErrorKind::DeviceNotAvailable || kind == ErrorKind::StreamInvalidated),
{
    match kind {
        ErrorKind::DeviceNotAvailable => true,
        ErrorKind::StreamInvalidated => true,
        _ => false,
    }
}

/// What ended a wait on an open stream.
#[derive(Clone, Copy, PartialEq, Eq, Structural, Debug)]
pub enum Signal {
    /// The stream reported a fatal error.
    Lost,
    /// The stream is gone, and with it whoever would have reported.
    Disconnected,
    /// Nothing happened for as long as one waits.
    Timeout,
}

/// Why a stream is rebuilt.
#[derive(Clone, PartialEq, Eq, Debug)]
pub enum Rebuild {
    /// It is dead.
    DeviceLost,
    /// It is healthy, but capture belongs on this device now.
    Moved(String),
}

/// Whether a stream is rebuilt after a wait, and why; `desired` is the device that
/// capture should be on.
pub fn rebuild_after(signal: Signal, desired: Option<String>, opened: &str) -> (r: Option<Rebuild>)
    ensures
        signal != Signal::Timeout ==> r == Some(Rebuild::DeviceLost),
        signal == Signal::Timeout ==> match r {
            Some(Rebuild::Moved(to)) => misplaced(
                text::opt_text(desired),
                opened@,
            ) && desired->0@ == to@,
            Some(Rebuild::DeviceLost) => false,
            None => !misplaced(text::opt_text(desired), opened@),
        },
{
    match signal {
        Signal::Lost => Some(Rebuild::DeviceLost),
        Signal::Disconnected => Some(Rebuild::DeviceLost),
        Signal::Timeout => match desired {
            Some(to) => if should_reopen(Some(to.as_str()), opened) {
                Some(Rebuild::Moved(to))
            } else {
                None
            },
            None => None,
        },
    }
}

/// Counts one more failed attempt to open the microphone, and says whether it is
/// reported: the first is, and then every sixtieth, since a device can be absent
/// for long.
pub fn count_failure(failures: &mut u64) -> (report: bool)
    requires
        *old(failures) < u64::MAX,
    ensures
        *final(failures) == *old(failures) + 1,
        report == (*final(failures) == 1 || *final(failures) % FAILURES_PER_REPORT == 0),
{
    *failures = *failures + 1;
    *failures == 1 || *failures % FAILURES_PER_REPORT == 0
}

/// Counts one more dropped buffer, and says whether it is reported: the first of
/// every hundred is.
pub fn count_drop(dropped: &mut u64) -> (report: bool)
    requires
        *old(dropped) < u64::MAX,
    ensures
        *final(dropped) == *old(dropped) + 1,
        report == (*final(dropped) % DROPS_PER_REPORT == 1),
{
    *dropped = *dropped + 1;
    *dropped % DROPS_PER_REPORT == 1
}

/// Each output sample lies one step behind the one before it.
proof fn lemma_tap_at<S>(c: Cursor<S>, input: Seq<S>, p: int, limit: int, k: int)
    requires
        c.in_rate > 0,
        0 <= k < c.taps(input, p, limit).len(),
    ensures
        c.taps(input, p, limit)[k] == c.tap(input, p + k * c.in_rate),
        p + k * c.in_rate < limit,
    decreases k,
{
    if k == 0 {
        assert(0 * c.in_rate == 0);
    } else {
        lemma_tap_at(c, input, p + c.in_rate, limit, k - 1);
        assert((k - 1) * c.in_rate + c.in_rate == k * c.in_rate) by (nonlinear_arith);
        let rest = c.taps(input, p + c.in_rate, limit);
        assert((seq![c.tap(input, p)] + rest)[k] == rest[k - 1]);
    }
}

/// From the start of a signal, output sample `k` lies at `k * in_rate / out_rate` input
/// samples: between the one at the whole part of that and the next, and as many parts of
/// the output rate behind the first as remain. There is an output sample for every place
/// that has an input sample on both sides, at all rates.
pub proof fn law_outputs_lie_in_step<S: Copy>(
    k: &mut LinearResampler<S>,
    input: &[S],
    out: Vec<Tap<S>>,
    i: int,
)
    requires
        old(k)@.wf(),
        old(k)@.pos == 0,
        call_ensures(LinearResampler::<S>::process, (k, input), out),
        i >= 0,
    ensures
        i < out@.len() <==> i * old(k)@.in_rate < (input@.len() - 1) * old(k)@.out_rate,
        i < out@.len() ==> {
            let at = i * old(k)@.in_rate / old(k)@.out_rate;
            &&& 0 <= at && at + 1 < input@.len()
            &&& out@[i].a == input@[at]
            &&& out@[i].b == input@[at + 1]
            &&& out@[i].num == i * old(k)@.in_rate % old(k)@.out_rate
            &&& out@[i].num < old(k)@.out_rate
            &&& at * old(k)@.out_rate + out@[i].num == i * old(k)@.in_rate
        },
{
    lemma_outputs_lie_in_step(old(k)@, input@, i);
}

proof fn lemma_outputs_lie_in_step<S>(c: Cursor<S>, input: Seq<S>, i: int)
    requires
        c.wf(),
        c.pos == 0,
        i >= 0,
    ensures
        i < c.output(input).len() <==> i * c.in_rate < (input.len() - 1) * c.out_rate,
        i < c.output(input).len() ==> {
            let at = i * c.in_rate / c.out_rate;
            &&& 0 <= at && at + 1 < input.len()
            &&& c.output(input)[i].a == input[at]
            &&& c.output(input)[i].b == input[at + 1]
            &&& c.output(input)[i].num == i * c.in_rate % c.out_rate
            &&& c.output(input)[i].num < c.out_rate
            &&& at * c.out_rate + c.output(input)[i].num == i * c.in_rate
        },
{
    let n = input.len() as int;
    let r = c.out_rate;
    let limit = c.limit(n);
    let p = i * c.in_rate;
    assert((n - 1) * r == n * r - r) by (nonlinear_arith);
    assert(p >= 0) by (nonlinear_arith)
        requires
            p == i * c.in_rate,
            i >= 0,
            c.in_rate > 0,
    ;
    lemma_taps_len(c, input, 0, limit);
    lemma_reached(c, 0, limit);
    let m = c.output(input).len() as int;
    if i < m {
        lemma_tap_at(c, input, 0, limit, i);
        lemma_position(p, r, n);
        vstd::arithmetic::div_mod::lemma_fundamental_div_mod(p, r);
        vstd::arithmetic::div_mod::lemma_mod_bound(p, r);
        vstd::arithmetic::div_mod::lemma_div_pos_is_pos(p, r);
        assert(r * (p / r) == (p / r) * r) by (nonlinear_arith);
    } else {
        assert(i * c.in_rate >= m * c.in_rate) by (nonlinear_arith)
            requires
                i >= m,
                c.in_rate > 0,
        ;
    }
}

/// Where a resampler that is under way reads: output sample `i` lies `i` steps from where
/// it stands, before the first input sample by up to one, counted from the sample that it
/// kept. It reads on as far as it has an input sample on both sides, and keeps what it
/// owes for the next buffer: how far it went, and the last sample.
pub proof fn law_resampler_reads_on<S: Copy>(
    k: &mut LinearResampler<S>,
    input: &[S],
    out: Vec<Tap<S>>,
    i: int,
)
    requires
        old(k)@.wf(),
        call_ensures(LinearResampler::<S>::process, (k, input), out),
        0 <= i < out@.len(),
    ensures
        ({
            let c = old(k)@;
            let p = c.pos + i * c.in_rate;
            &&& p < input@.len() * c.out_rate - c.out_rate
            &&& p < 0 ==> out@[i] == (Tap {
                a: c.last,
                b: input@[0],
                num: (p + c.out_rate) as u32,
            })
            &&& p >= 0 ==> out@[i] == (Tap {
                a: input@[p / c.out_rate],
                b: input@[p / c.out_rate + 1],
                num: (p % c.out_rate) as u32,
            })
        }),
{
    let c = old(k)@;
    let n = input@.len() as int;
    let r = c.out_rate;
    let p = c.pos + i * c.in_rate;
    lemma_tap_at(c, input@, c.pos, c.limit(n), i);
    assert(i * c.in_rate >= 0) by (nonlinear_arith)
        requires
            i >= 0,
            c.in_rate > 0,
    ;
    if p < 0 {
        vstd::arithmetic::div_mod::lemma_fundamental_div_mod_converse(p, r, -1, p + r);
    } else {
        vstd::arithmetic::div_mod::lemma_div_pos_is_pos(p, r);
    }
}

/// What a resampler keeps between buffers: its rates, the last sample that it read, and
/// its place, one step behind its last output and counted from the end of the buffer.
/// That place has no input sample behind it yet.
pub proof fn law_resampler_keeps_its_place<S: Copy>(
    k: &mut LinearResampler<S>,
    input: &[S],
    out: Vec<Tap<S>>,
)
    requires
        old(k)@.wf(),
        call_ensures(LinearResampler::<S>::process, (k, input), out),
    ensures
        final(k)@.in_rate == old(k)@.in_rate && final(k)@.out_rate == old(k)@.out_rate,
        input@.len() > 0 ==> final(k)@.last == input@.last(),
        input@.len() == 0 ==> final(k)@ == old(k)@ && out@.len() == 0,
        final(k)@.pos + input@.len() * old(k)@.out_rate == old(k)@.pos + out@.len() * old(
            k,
        )@.in_rate,
        final(k)@.pos >= -old(k)@.out_rate,
{
    let c = old(k)@;
    lemma_taps_len(c, input@, c.pos, c.limit(input@.len() as int));
    lemma_reached(c, c.pos, c.limit(input@.len() as int));
    assert(0 * c.out_rate == 0 && 0 * c.in_rate == 0);
}

/// A resampler starts at the first sample, at the rates that it was made for, with
/// silence before it.
pub proof fn law_resampler_starts_at_the_first_sample<S: Copy>(
    in_rate: u32,
    out_rate: u32,
    silence: S,
    r: LinearResampler<S>,
)
    requires
        in_rate > 0,
        out_rate > 0,
        call_ensures(LinearResampler::<S>::new, (in_rate, out_rate, silence), r),
    ensures
        r@.pos == 0,
        r@.last == silence,
        r@.in_rate == in_rate && r@.out_rate == out_rate,
        r@.wf(),
{
}

/// A signal that comes in buffers, as one.
pub open spec fn run_on<S>(buffers: Seq<Seq<S>>) -> Seq<S>
    decreases buffers.len(),
{
    if buffers.len() == 0 {
        seq![]
    } else {
        run_on(buffers.drop_last()) + buffers.last()
    }
}

/// The state after a run of buffers.
pub open spec fn after_all<S>(c: Cursor<S>, buffers: Seq<Seq<S>>) -> Cursor<S>
    decreases buffers.len(),
{
    if buffers.len() == 0 {
        c
    } else {
        after_all(c, buffers.drop_last()).after(buffers.last())
    }
}

/// What a run of buffers is resampled to.
pub open spec fn output_of_all<S>(c: Cursor<S>, buffers: Seq<Seq<S>>) -> Seq<Tap<S>>
    decreases buffers.len(),
{
    if buffers.len() == 0 {
        seq![]
    } else {
        output_of_all(c, buffers.drop_last()) + after_all(c, buffers.drop_last()).output(
            buffers.last(),
        )
    }
}

proof fn lemma_buffers_run_on<S>(c: Cursor<S>, buffers: Seq<Seq<S>>)
    requires
        c.wf(),
    ensures
        output_of_all(c, buffers) == c.output(run_on(buffers)),
        after_all(c, buffers) == c.after(run_on(buffers)),
    decreases buffers.len(),
{
    if buffers.len() == 0 {
        assert(0 * c.out_rate == 0);
        assert(c.output(run_on(buffers)) =~= seq![]);
    } else {
        let front = buffers.drop_last();
        lemma_buffers_run_on(c, front);
        law_streaming_matches_one_shot(c, run_on(front), buffers.last());
    }
}

/// However a signal is cut into buffers, output sample `i` lies at `i * in_rate / out_rate`
/// input samples of the whole signal.
pub proof fn law_buffers_do_not_matter<S>(c: Cursor<S>, buffers: Seq<Seq<S>>, i: int)
    requires
        c.wf(),
        c.pos == 0,
        0 <= i < output_of_all(c, buffers).len(),
    ensures
        ({
            let whole = run_on(buffers);
            let at = i * c.in_rate / c.out_rate;
            let tap = output_of_all(c, buffers)[i];
            &&& 0 <= at && at + 1 < whole.len()
            &&& tap.a == whole[at] && tap.b == whole[at + 1]
            &&& tap.num == i * c.in_rate % c.out_rate
        }),
{
    lemma_buffers_run_on(c, buffers);
    lemma_outputs_lie_in_step(c, run_on(buffers), i);
}

/// A device is there exactly if one of the list has its name.
pub proof fn law_devices_are_found_by_name(name: &str, devices: &[String], r: bool)
    requires
        call_ensures(input_device_exists, (name, devices), r),
    ensures
        r <==> exists|i: int| 0 <= i < devices@.len() && (#[trigger] devices@[i])@ == name@,
{
    let all = text::texts(devices@);
    if r {
        let i = choose|i: int| 0 <= i < all.len() && all[i] == name@;
        assert(devices@[i]@ == name@);
    }
    if exists|i: int| 0 <= i < devices@.len() && (#[trigger] devices@[i])@ == name@ {
        let i = choose|i: int| 0 <= i < devices@.len() && (#[trigger] devices@[i])@ == name@;
        assert(all[i] == name@);
    }
}

/// What is asked for is wanted where it is there, and the default is wanted otherwise.
pub proof fn law_wanted_device_is_there_or_default(
    request: &DeviceRequest,
    devices: &[String],
    default: Option<String>,
    name: &str,
    there: bool,
    r: Option<String>,
)
    requires
        call_ensures(desired_name, (request, devices, default), r),
        call_ensures(input_device_exists, (name, devices), there),
    ensures
        request@ == Some(name@) && there ==> r is Some && r->0@ == name@,
        request@ is None || request@ == Some(name@) && !there ==> {
            &&& r is Some <==> default is Some
            &&& default is Some ==> r->0@ == default->0@
        },
{
}

/// A request reads as it was made, and as it was last changed.
pub proof fn law_requests_read_back(
    name: Option<String>,
    made: DeviceRequest,
    k: &mut DeviceRequest,
    later: Option<String>,
    now: DeviceRequest,
    read: Option<String>,
)
    requires
        call_ensures(device_request, (name,), made),
        call_ensures(DeviceRequest::set_request, (k, later), ()),
        now == *final(k),
        call_ensures(requested_name, (&now,), read),
    ensures
        made@ is Some <==> name is Some,
        name is Some ==> made@ == Some(name->0@),
        read is Some <==> later is Some,
        later is Some ==> read->0@ == later->0@,
{
}

/// A stream is moved exactly if another device than its own is wanted.
pub proof fn law_streams_move_to_what_is_wanted(wanted: &str, opened: &str, r: bool, none: bool)
    requires
        call_ensures(should_reopen, (Some(wanted), opened), r),
        call_ensures(should_reopen, (None::<&str>, opened), none),
    ensures
        r <==> wanted@ != opened@,
        !none,
{
}

/// The device that is opened is the first of that name. The default is taken where
/// nothing is asked for, and in place of what is not there.
pub proof fn law_first_of_a_name_is_opened(
    name: &str,
    devices: &[String],
    r: DeviceChoice,
    none: DeviceChoice,
)
    requires
        call_ensures(choose_device, (Some(name), devices), r),
        call_ensures(choose_device, (None::<&str>, devices), none),
    ensures
        none == DeviceChoice::Default,
        match r {
            DeviceChoice::Listed(i) => {
                &&& i < devices@.len() && devices@[i as int]@ == name@
                &&& forall|j: int| 0 <= j < i ==> (#[trigger] devices@[j])@ != name@
            },
            DeviceChoice::Fallback => forall|j: int|
                0 <= j < devices@.len() ==> (#[trigger] devices@[j])@ != name@,
            DeviceChoice::Default => false,
        },
{
    let all = text::texts(devices@);
    assert forall|j: int| 0 <= j < devices@.len() implies (#[trigger] devices@[j])@ == all[j] by {}
    if r == DeviceChoice::Fallback {
        assert forall|j: int| 0 <= j < devices@.len() implies (#[trigger] devices@[j])@
            != name@ by {
            assert(all[j] == devices@[j]@);
        }
    }
}

/// A stream is dead where its device is gone or it was invalidated, and lives through
/// everything else.
pub proof fn law_only_dead_streams_are_rebuilt(kind: ErrorKind, fatal: bool)
    requires
        call_ensures(is_fatal, (kind,), fatal),
    ensures
        fatal <==> kind is DeviceNotAvailable || kind is StreamInvalidated,
        kind is DeviceChanged || kind is Xrun || kind is RealtimeDenied || kind is Other ==> !fatal,
{
}

/// A lost stream is rebuilt, one that nothing is heard of only if another device than
/// its own is wanted, and then for that device.
pub proof fn law_streams_are_rebuilt_for_a_reason(
    signal: Signal,
    wanted: Option<String>,
    opened: &str,
    r: Option<Rebuild>,
)
    requires
        call_ensures(rebuild_after, (signal, wanted, opened), r),
    ensures
        signal is Lost || signal is Disconnected ==> r == Some(Rebuild::DeviceLost),
        signal is Timeout ==> (r is Some <==> wanted is Some && wanted->0@ != opened@),
        signal is Timeout && r is Some ==> r->0 is Moved && r->0->Moved_0@ == wanted->0@,
{
}

/// Failures are counted one by one. The first is reported, and then every sixtieth.
pub proof fn law_failures_are_counted(k: &mut u64, report: bool)
    requires
        *old(k) < u64::MAX,
        call_ensures(count_failure, (k,), report),
    ensures
        *final(k) == *old(k) + 1,
        report <==> *old(k) == 0 || (*old(k) + 1) % 60 == 0,
{
}

/// Drops are counted one by one. The first is reported, and then one in a hundred.
pub proof fn law_drops_are_counted(k: &mut u64, report: bool)
    requires
        *old(k) < u64::MAX,
        call_ensures(count_drop, (k,), report),
    ensures
        *final(k) == *old(k) + 1,
        report <==> *old(k) % 100 == 0,
{
}

}
