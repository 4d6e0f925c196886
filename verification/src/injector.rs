//! Text injection into the focused application.
//!
//! As partial transcripts grow and are revised, only the difference is typed:
//! the changed tail of what is already there is deleted, then the new tail is
//! pasted. [`DiffState`] computes that edit, [`Injector`] decides what each
//! command leads to, and [`InjectorHandle`] queues the commands.

use std::collections::VecDeque;

use vstd::prelude::*;

use crate::text;

verus! {

/// Virtual key code of `V`.
pub const KEY_V: u16 = 9;

/// Virtual key code of the key that deletes backwards.
pub const KEY_BACKSPACE: u16 = 51;

/// How long the previous clipboard waits for the paste to land.
pub const RESTORE_DELAY_MS: u64 = 120;

/// How long the pasteboard is given to settle before the paste.
pub const PRE_PASTE_DELAY_MS: u64 = 20;

/// The edit to apply to the focused application for one transcript update.
#[derive(Debug, Clone, PartialEq, Eq)]
pub struct InsertPlan {
    /// How often backspace is pressed, deleting the changed tail.
    pub backspaces: usize,
    /// What is pasted after that; may be empty.
    pub insert: String,
}

/// An edit: what is deleted at the end of a text, then what is appended.
pub struct Edit {
    pub backspaces: nat,
    pub insert: Seq<char>,
}

impl View for InsertPlan {
    type V = Edit;

    open spec fn view(&self) -> Edit {
        Edit { backspaces: self.backspaces as nat, insert: self.insert@ }
    }
}

/// The text that an edit makes of `doc`.
pub open spec fn edited(doc: Seq<char>, e: Edit) -> Seq<char> {
    doc.take(doc.len() - e.backspaces) + e.insert
}

impl InsertPlan {
    /// Whether the edit changes nothing.
    pub fn is_noop(&self) -> (r: bool)
        ensures
            r == (self@.backspaces == 0 && self@.insert.len() == 0),
    {
        self.backspaces == 0 && self.insert.as_str().is_empty()
    }
}

/// The length of the longest common prefix of two texts, in characters.
pub open spec fn common_prefix(a: Seq<char>, b: Seq<char>) -> nat
    decreases a.len(),
{
    if a.len() == 0 || b.len() == 0 || a.first() != b.first() {
        0
    } else {
        1 + common_prefix(a.drop_first(), b.drop_first())
    }
}

/// The prefixes of that length agree, and no longer ones do.
pub proof fn lemma_common_prefix(a: Seq<char>, b: Seq<char>)
    ensures
        common_prefix(a, b) <= a.len(),
        common_prefix(a, b) <= b.len(),
        forall|i: int| 0 <= i < common_prefix(a, b) ==> #[trigger] a[i] == b[i],
        common_prefix(a, b) < a.len() && common_prefix(a, b) < b.len() ==> a[common_prefix(
            a,
            b,
        ) as int] != b[common_prefix(a, b) as int],
    decreases a.len(),
{
    if a.len() > 0 && b.len() > 0 && a.first() == b.first() {
        let x = a.drop_first();
        let y = b.drop_first();
        lemma_common_prefix(x, y);
        let n = common_prefix(a, b);
        assert forall|i: int| 0 <= i < n implies #[trigger] a[i] == b[i] by {
            if i > 0 {
                assert(a[i] == x[i - 1]);
                assert(b[i] == y[i - 1]);
            }
        }
        if n < a.len() && n < b.len() {
            assert(a[n as int] == x[n - 1]);
            assert(b[n as int] == y[n - 1]);
        }
    }
}

/// The length of the longest common prefix of `a` and `b`, in characters.
pub fn common_prefix_chars(a: &str, b: &str) -> (n: usize)
    ensures
        n == common_prefix(a@, b@),
        n <= a@.len(),
        n <= b@.len(),
{
    let x = text::to_chars(a);
    let y = text::to_chars(b);
    let mut n: usize = 0;
    while n < x.len() && n < y.len() && x[n] == y[n]
        invariant
            x@ == a@,
            y@ == b@,
            n <= x@.len(),
            n <= y@.len(),
            forall|i: int| 0 <= i < n ==> #[trigger] x@[i] == y@[i],
        decreases x@.len() - n,
    {
        n = n + 1;
    }
    proof {
        lemma_common_prefix(a@, b@);
        let m = common_prefix(a@, b@);
        if m < n {
            assert(x@[m as int] == y@[m as int]);
        }
        if n < m {
            assert(a@[n as int] == b@[n as int]);
        }
    }
    n
}

/// What has been inserted for the current utterance, and whether a separator is
/// owed before the next one.
pub struct Typed {
    pub inserted: Seq<char>,
    pub pending_separator: bool,
}

/// Whether an update opens an utterance with a separating space.
pub open spec fn opens_with_separator(s: Typed, next: Seq<char>) -> bool {
    s.inserted.len() == 0 && s.pending_separator && next.len() > 0
}

/// The edit that turns what was inserted into `next`.
pub open spec fn planned(s: Typed, next: Seq<char>) -> Edit {
    let common = common_prefix(s.inserted, next);
    let tail = next.skip(common as int);
    Edit {
        backspaces: (s.inserted.len() - common) as nat,
        insert: if opens_with_separator(s, next) {
            seq![' '] + tail
        } else {
            tail
        },
    }
}

/// What is tracked after an update. A final update commits the utterance: nothing
/// of it can be edited any more, and if it had text a separator is owed.
pub open spec fn after_update(s: Typed, next: Seq<char>, is_final: bool) -> Typed {
    let pending = s.pending_separator && !opens_with_separator(s, next);
    if is_final {
        Typed { inserted: seq![], pending_separator: pending || next.len() > 0 }
    } else {
        Typed { inserted: next, pending_separator: pending }
    }
}

/// Tracks what has been inserted, to compute the least edit for each update.
pub struct DiffState {
    inserted: String,
    pending_separator: bool,
}

impl View for DiffState {
    type V = Typed;

    closed spec fn view(&self) -> Typed {
        Typed { inserted: self.inserted@, pending_separator: self.pending_separator }
    }
}

impl Default for DiffState {
    fn default() -> (r: Self)
        ensures
            r@ == (Typed { inserted: Seq::empty(), pending_separator: false }),
    {
        DiffState { inserted: String::new(), pending_separator: false }
    }
}

impl DiffState {
    /// Computes the edit that takes the target from what was inserted to `next`.
    /// A final update commits the utterance, so that a later one never deletes
    /// into committed text.
    pub fn step(&mut self, next: &str, is_final: bool) -> (plan: InsertPlan)
        ensures
            plan@ == planned(old(self)@, next@),
            final(self)@ == after_update(old(self)@, next@, is_final),
    {
        let common = common_prefix_chars(self.inserted.as_str(), next);
        let inserted_len = self.inserted.as_str().unicode_len();
        let backspaces: usize = inserted_len - common;
        let chars = text::to_chars(next);
        let tail = text::slice_text(&chars, common, chars.len());
        let mut insert = String::new();
        if self.inserted.as_str().is_empty() && self.pending_separator && !next.is_empty() {
            insert.push(' ');
            self.pending_separator = false;
        }
        insert.append(tail.as_str());
        if is_final {
            if !next.is_empty() {
                self.pending_separator = true;
            }
            self.inserted = String::new();
        } else {
            self.inserted = next.to_owned();
        }
        let plan = InsertPlan { backspaces, insert };
        assert(plan@.insert =~= planned(old(self)@, next@).insert);
        assert(self@.inserted =~= after_update(old(self)@, next@, is_final).inserted);
        plan
    }

    /// Abandons the current utterance without touching the target. An owed
    /// separator stays owed.
    pub fn reset(&mut self)
        ensures
            final(self)@ == (Typed { inserted: Seq::empty(), ..old(self)@ }),
    {
        self.inserted = String::new();
        assert(self@.inserted =~= Seq::<char>::empty());
    }
}

/// What stands before the current utterance once an update has been applied:
/// what stood there, and the separator if the update opened with one.
pub open spec fn base_after(base: Seq<char>, s: Typed, next: Seq<char>) -> Seq<char> {
    if opens_with_separator(s, next) {
        base.push(' ')
    } else {
        base
    }
}

/// An update makes the target converge: where it ended in what was inserted, it
/// ends in `next`, and everything before the utterance is kept.
pub proof fn law_update_converges(base: Seq<char>, s: Typed, next: Seq<char>)
    ensures
        edited(base + s.inserted, planned(s, next)) == base_after(base, s, next) + next,
        base.is_prefix_of(edited(base + s.inserted, planned(s, next))),
{
    lemma_common_prefix(s.inserted, next);
    let common = common_prefix(s.inserted, next);
    let doc = base + s.inserted;
    let e = planned(s, next);
    assert(doc.take(doc.len() - e.backspaces) =~= base + s.inserted.take(common as int));
    assert(s.inserted.take(common as int) =~= next.take(common as int));
    assert(edited(doc, e) =~= base_after(base, s, next) + next);
    assert(base =~= edited(doc, e).subrange(0, base.len() as int));
}

/// An update never deletes more than was inserted for the current utterance, so
/// committed text is out of its reach: a final update leaves nothing to delete.
pub proof fn law_committed_text_is_never_deleted(s: Typed, next: Seq<char>, later: Seq<char>)
    ensures
        planned(s, next).backspaces <= s.inserted.len(),
        planned(after_update(s, next, true), later).backspaces == 0,
{
    lemma_common_prefix(s.inserted, next);
    lemma_common_prefix(after_update(s, next, true).inserted, later);
}

/// What an update is to leave behind in place of what was inserted: the new text, and
/// before it the separator if the update opens with one.
pub open spec fn wanted(s: Typed, next: Seq<char>) -> Seq<char> {
    if opens_with_separator(s, next) {
        seq![' '] + next
    } else {
        next
    }
}

/// The edit is the least one: it leaves what is wanted, and whatever other edit does
/// that deletes at least as much and types at least as much.
pub proof fn law_edit_is_minimal(s: Typed, next: Seq<char>, other: Edit)
    requires
        other.backspaces <= s.inserted.len(),
        edited(s.inserted, other) == wanted(s, next),
    ensures
        edited(s.inserted, planned(s, next)) == wanted(s, next),
        planned(s, next).backspaces <= other.backspaces,
        planned(s, next).insert.len() <= other.insert.len(),
{
    lemma_common_prefix(s.inserted, next);
    let common = common_prefix(s.inserted, next);
    let kept = s.inserted.len() - other.backspaces;
    law_update_converges(Seq::empty(), s, next);
    assert(Seq::empty() + s.inserted =~= s.inserted);
    assert(base_after(Seq::empty(), s, next) + next =~= wanted(s, next));
    assert(wanted(s, next).len() == kept + other.insert.len());
    if kept > common {
        assert(next[common as int] == s.inserted.take(kept)[common as int]);
        assert(next[common as int] == s.inserted[common as int]);
    }
}

/// Whether utterances are kept apart: an utterance under way stands at the start
/// of the target or after a space, and between utterances a space is there or is
/// owed.
pub open spec fn separated(base: Seq<char>, s: Typed) -> bool {
    ||| base.len() == 0
    ||| base.last() == ' '
    ||| s.inserted.len() == 0 && s.pending_separator
}

/// What stands before the current utterance after an update: a final update moves
/// the utterance itself there.
pub open spec fn base_after_update(
    base: Seq<char>,
    s: Typed,
    next: Seq<char>,
    is_final: bool,
) -> Seq<char> {
    if is_final {
        base_after(base, s, next) + next
    } else {
        base_after(base, s, next)
    }
}

/// Consecutive utterances never run together: every update keeps them apart.
pub proof fn law_utterances_stay_separated(
    base: Seq<char>,
    s: Typed,
    next: Seq<char>,
    is_final: bool,
)
    requires
        separated(base, s),
    ensures
        separated(base_after_update(base, s, next, is_final), after_update(s, next, is_final)),
{
    if is_final && next.len() == 0 {
        assert(base_after(base, s, next) + next =~= base_after(base, s, next));
    }
}

/// One update of what has been said.
pub struct Update {
    pub text: Seq<char>,
    pub is_final: bool,
}

/// What is tracked after a run of updates.
pub open spec fn typed_after(s: Typed, us: Seq<Update>) -> Typed
    decreases us.len(),
{
    if us.len() == 0 {
        s
    } else {
        let u = us.last();
        after_update(typed_after(s, us.drop_last()), u.text, u.is_final)
    }
}

/// What stands in the target after the edits of a run of updates.
pub open spec fn field_after(doc: Seq<char>, s: Typed, us: Seq<Update>) -> Seq<char>
    decreases us.len(),
{
    if us.len() == 0 {
        doc
    } else {
        let front = us.drop_last();
        edited(field_after(doc, s, front), planned(typed_after(s, front), us.last().text))
    }
}

/// The texts that a run of updates commits.
pub open spec fn committed(us: Seq<Update>) -> Seq<Seq<char>>
    decreases us.len(),
{
    if us.len() == 0 {
        seq![]
    } else {
        let before = committed(us.drop_last());
        if us.last().is_final {
            before.push(us.last().text)
        } else {
            before
        }
    }
}

/// The text that is under way after a run of updates.
pub open spec fn under_way(us: Seq<Update>) -> Seq<char> {
    if us.len() == 0 || us.last().is_final {
        seq![]
    } else {
        us.last().text
    }
}

/// What stands before the utterance under way after a run of updates.
spec fn base_of(doc: Seq<char>, s: Typed, us: Seq<Update>) -> Seq<char>
    decreases us.len(),
{
    if us.len() == 0 {
        doc
    } else {
        let front = us.drop_last();
        base_after_update(
            base_of(doc, s, front),
            typed_after(s, front),
            us.last().text,
            us.last().is_final,
        )
    }
}

/// After a run of updates the target ends in the text under way, and what stood there
/// before is kept.
proof fn lemma_field_shape(doc: Seq<char>, s: Typed, us: Seq<Update>)
    requires
        s.inserted.len() == 0,
    ensures
        typed_after(s, us).inserted == under_way(us),
        field_after(doc, s, us) == base_of(doc, s, us) + under_way(us),
        doc.is_prefix_of(base_of(doc, s, us)),
    decreases us.len(),
{
    if us.len() == 0 {
        assert(s.inserted =~= seq![]);
        assert(doc + under_way(us) =~= doc);
    } else {
        let front = us.drop_last();
        let u = us.last();
        lemma_field_shape(doc, s, front);
        let base = base_of(doc, s, front);
        law_update_converges(base, typed_after(s, front), u.text);
        let opened = base_after(base, typed_after(s, front), u.text);
        assert(opened + u.text + seq![] =~= opened + u.text);
    }
}

/// After a run of updates utterances are kept apart, and what stands before the one under
/// way holds the words of the committed texts.
proof fn lemma_run_of_updates(doc: Seq<char>, s: Typed, us: Seq<Update>)
    requires
        s.inserted.len() == 0,
        separated(doc, s),
    ensures
        typed_after(s, us).inserted == under_way(us),
        field_after(doc, s, us) == base_of(doc, s, us) + under_way(us),
        separated(base_of(doc, s, us), typed_after(s, us)),
        text::words(base_of(doc, s, us)) == text::words(doc) + text::words(
            text::joined(committed(us)),
        ),
        doc.is_prefix_of(base_of(doc, s, us)),
    decreases us.len(),
{
    lemma_field_shape(doc, s, us);
    if us.len() == 0 {
        assert(text::words(text::joined(committed(us))) =~= seq![]);
        assert(text::words(doc) + seq![] =~= text::words(doc));
    } else {
        let front = us.drop_last();
        let u = us.last();
        lemma_run_of_updates(doc, s, front);
        let before = typed_after(s, front);
        let base = base_of(doc, s, front);
        let opened = base_after(base, before, u.text);
        law_utterances_stay_separated(base, before, u.text, u.is_final);
        assert(text::words(opened) == text::words(base)) by {
            if opens_with_separator(before, u.text) {
                assert(opened.drop_last() =~= base);
            }
        }
        if u.is_final {
            text::lemma_words_of_joined_push(committed(front), u.text);
            if u.text.len() == 0 {
                assert(opened + u.text =~= opened);
                assert(text::words(u.text) =~= seq![]);
            } else {
                text::lemma_words_concat(opened, u.text);
            }
            assert(text::words(doc) + text::words(text::joined(committed(us))) =~= text::words(doc)
                + text::words(text::joined(committed(front))) + text::words(u.text));
            assert(text::words(opened + u.text) =~= text::words(doc) + text::words(
                text::joined(committed(us)),
            ));
        }
    }
}

/// Whatever is revised on the way, the target ends up holding what was said: what
/// stood there before is kept, and after it stand, word for word, the committed
/// texts in order and then the text under way.
pub proof fn law_field_holds_what_was_said(doc: Seq<char>, s: Typed, us: Seq<Update>)
    requires
        s.inserted.len() == 0,
        separated(doc, s),
    ensures
        doc.is_prefix_of(field_after(doc, s, us)),
        text::words(field_after(doc, s, us)) == text::words(doc) + text::words(
            text::joined(committed(us)),
        ) + text::words(under_way(us)),
{
    lemma_run_of_updates(doc, s, us);
    let base = base_of(doc, s, us);
    if under_way(us).len() == 0 {
        assert(base + under_way(us) =~= base);
        assert(text::words(under_way(us)) =~= seq![]);
        assert(text::words(base) + seq![] =~= text::words(base));
    } else {
        text::lemma_words_concat(base, under_way(us));
    }
}

/// The texts among some that are not empty.
pub open spec fn nonempty(ts: Seq<Seq<char>>) -> Seq<Seq<char>>
    decreases ts.len(),
{
    if ts.len() == 0 {
        seq![]
    } else {
        let before = nonempty(ts.drop_last());
        if ts.last().len() > 0 {
            before.push(ts.last())
        } else {
            before
        }
    }
}

/// Nothing has been typed.
pub open spec fn untyped() -> Typed {
    Typed { inserted: Seq::empty(), pending_separator: false }
}

/// What stands before the utterance under way, from an empty target on: the committed
/// texts that are not empty, joined by single spaces, and behind them a space if there
/// are any and none is owed.
proof fn lemma_run_from_empty(us: Seq<Update>)
    ensures
        ({
            let base = base_of(Seq::empty(), untyped(), us);
            let said = nonempty(committed(us));
            let typed = typed_after(untyped(), us);
            &&& typed.inserted == under_way(us)
            &&& typed.pending_separator ==> typed.inserted.len() == 0 && said.len() > 0
            &&& base == if said.len() > 0 && !typed.pending_separator {
                text::joined(said).push(' ')
            } else {
                text::joined(said)
            }
        }),
    decreases us.len(),
{
    if us.len() == 0 {
        assert(base_of(Seq::empty(), untyped(), us) =~= text::joined(nonempty(committed(us))));
        assert(typed_after(untyped(), us).inserted =~= under_way(us));
    } else {
        let front = us.drop_last();
        let u = us.last();
        lemma_run_from_empty(front);
        let before = nonempty(committed(front));
        if u.is_final {
            assert(committed(us).drop_last() =~= committed(front));
            let opened = base_after(
                base_of(Seq::empty(), untyped(), front),
                typed_after(untyped(), front),
                u.text,
            );
            if u.text.len() > 0 {
                let said = before.push(u.text);
                assert(said.drop_last() =~= before);
                assert(opened + u.text =~= text::joined(said));
            } else {
                assert(opened + u.text =~= opened);
            }
        }
    }
}

/// What is typed from an empty target on is exactly what was said: after a text has been
/// committed, the target holds the committed texts that are not empty, with one space
/// between each two and nothing else.
pub proof fn law_field_is_exactly_what_was_said(us: Seq<Update>)
    requires
        us.len() > 0,
        us.last().is_final,
        us.last().text.len() > 0,
    ensures
        field_after(Seq::empty(), untyped(), us) == text::joined(nonempty(committed(us))),
{
    lemma_run_of_updates(Seq::empty(), untyped(), us);
    lemma_run_from_empty(us);
    let base = base_of(Seq::empty(), untyped(), us);
    assert(base + under_way(us) =~= base);
}

/// Nothing is deleted that was not typed: no edit of a run asks for more backspaces than
/// the target has characters behind what stood there before.
pub proof fn law_backspaces_stay_within_the_field(
    doc: Seq<char>,
    s: Typed,
    us: Seq<Update>,
    next: Seq<char>,
)
    requires
        s.inserted.len() == 0,
    ensures
        doc.len() + planned(typed_after(s, us), next).backspaces <= field_after(doc, s, us).len(),
{
    lemma_field_shape(doc, s, us);
    lemma_common_prefix(typed_after(s, us).inserted, next);
}

/// Repeating an update is a no-op until the utterance is committed.
pub proof fn law_repeated_update_is_a_noop(s: Typed, next: Seq<char>)
    ensures
        ({
            let e = planned(after_update(s, next, false), next);
            e.backspaces == 0 && e.insert.len() == 0
        }),
{
    lemma_common_prefix(next, next);
}

/// A command for the injector.
#[derive(Debug, Clone, PartialEq, Eq)]
pub enum Cmd {
    /// A transcript update; a final one commits the utterance.
    Text { text: String, is_final: bool },
    /// Drop the current utterance's tracking without editing the target.
    Reset,
}

/// A command, its text as characters.
pub enum Command {
    Text { text: Seq<char>, is_final: bool },
    Reset,
}

impl View for Cmd {
    type V = Command;

    open spec fn view(&self) -> Command {
        match *self {
            Cmd::Text { text, is_final } => Command::Text { text: text@, is_final },
            Cmd::Reset => Command::Reset,
        }
    }
}

/// The queue of commands between the session and the injector.
pub struct InjectorHandle {
    queue: VecDeque<Cmd>,
}

impl View for InjectorHandle {
    type V = Seq<Command>;

    closed spec fn view(&self) -> Seq<Command> {
        self.queue@.map_values(|c: Cmd| c@)
    }
}

impl InjectorHandle {
    /// An empty queue.
    pub fn new() -> (r: Self)
        ensures
            r@ == Seq::<Command>::empty(),
    {
        let r = InjectorHandle { queue: VecDeque::new() };
        assert(r@ =~= Seq::<Command>::empty());
        r
    }

    fn enqueue(&mut self, cmd: Cmd)
        ensures
            final(self)@ == old(self)@.push(cmd@),
    {
        self.queue.push_back(cmd);
        assert(self@ =~= old(self)@.push(cmd@));
    }

    /// Queues a live partial.
    pub fn partial(&mut self, text: String)
        ensures
            final(self)@ == old(self)@.push(Command::Text { text: text@, is_final: false }),
    {
        self.enqueue(Cmd::Text { text, is_final: false });
    }

    /// Queues a final utterance.
    pub fn commit(&mut self, text: String)
        ensures
            final(self)@ == old(self)@.push(Command::Text { text: text@, is_final: true }),
    {
        self.enqueue(Cmd::Text { text, is_final: true });
    }

    /// Queues a reset of the tracking.
    pub fn reset(&mut self)
        ensures
            final(self)@ == old(self)@.push(Command::Reset),
    {
        self.enqueue(Cmd::Reset);
    }

    /// Takes the oldest command, if there is one.
    pub fn next(&mut self) -> (r: Option<Cmd>)
        ensures
            match r {
                Some(cmd) => old(self)@.len() > 0 && cmd@ == old(self)@[0] && final(self)@
                    == old(self)@.drop_first(),
                None => old(self)@.len() == 0 && final(self)@ == old(self)@,
            },
    {
        let r = self.queue.pop_front();
        match r {
            Some(_) => {
                assert(self@ =~= old(self)@.drop_first());
            },
            None => {
                assert(self@ =~= old(self)@);
            },
        }
        r
    }
}

/// What a command leads to.
pub struct Injection {
    /// Report, once, that text is discarded for want of the permission to type.
    pub warn_untrusted: bool,
    /// The edit to apply, if there is one.
    pub plan: Option<InsertPlan>,
}

/// The injector's decisions: what it has typed, and whether it has warned.
pub struct Injector {
    diff: DiffState,
    warned: bool,
}

impl Injector {
    /// What has been typed.
    pub closed spec fn typed(&self) -> Typed {
        self.diff@
    }

    /// Whether the warning has been given.
    pub closed spec fn warned(&self) -> bool {
        self.warned
    }

    /// An injector that has typed nothing.
    pub fn new() -> (r: Self)
        ensures
            r.typed() == (Typed { inserted: Seq::empty(), pending_separator: false }),
            !r.warned(),
    {
        Injector { diff: DiffState::default(), warned: false }
    }

    /// Decides what a command leads to, `trusted` telling whether this process may
    /// type into others. The permission is asked about anew for every command; its
    /// absence is reported with the first text only. An edit that changes nothing
    /// is left out.
    pub fn handle(&mut self, cmd: Cmd, trusted: bool) -> (r: Injection)
        ensures
            r.warn_untrusted == (cmd@ is Text && !trusted && !old(self).warned()),
            final(self).warned() == (old(self).warned() || r.warn_untrusted),
            match cmd@ {
                Command::Reset => {
                    &&& r.plan is None
                    &&& final(self).typed() == (Typed {
                        inserted: Seq::empty(),
                        ..old(self).typed()
                    })
                },
                Command::Text { text, is_final } => {
                    let e = planned(old(self).typed(), text);
                    &&& final(self).typed() == after_update(old(self).typed(), text, is_final)
                    &&& match r.plan {
                        Some(plan) => plan@ == e && !(e.backspaces == 0 && e.insert.len() == 0),
                        None => e.backspaces == 0 && e.insert.len() == 0,
                    }
                },
            },
    {
        match cmd {
            Cmd::Reset => {
                self.diff.reset();
                Injection { warn_untrusted: false, plan: None }
            },
            Cmd::Text { text, is_final } => {
                let warn_untrusted = !trusted && !self.warned;
                if warn_untrusted {
                    self.warned = true;
                }
                let plan = self.diff.step(text.as_str(), is_final);
                if plan.is_noop() {
                    Injection { warn_untrusted, plan: None }
                } else {
                    Injection { warn_untrusted, plan: Some(plan) }
                }
            },
        }
    }
}

/// One thing to do on the way to an edit.
#[derive(Debug, Clone, PartialEq, Eq)]
pub enum EditStep<T> {
    /// Press and release backspace, no modifier held.
    Backspace,
    /// Remember what text the clipboard holds.
    SaveClipboard,
    /// Put a text on the clipboard.
    SetClipboard(T),
    /// Let a number of milliseconds pass.
    Wait(u64),
    /// Press and release `V` with the command key held.
    Paste,
    /// Put the remembered text back, if there was one.
    RestoreClipboard,
}

/// A step, its text as characters.
pub open spec fn step_text(s: EditStep<String>) -> EditStep<Seq<char>> {
    match s {
        EditStep::Backspace => EditStep::Backspace,
        EditStep::SaveClipboard => EditStep::SaveClipboard,
        EditStep::SetClipboard(t) => EditStep::SetClipboard(t@),
        EditStep::Wait(ms) => EditStep::Wait(ms),
        EditStep::Paste => EditStep::Paste,
        EditStep::RestoreClipboard => EditStep::RestoreClipboard,
    }
}

/// The steps of an edit: the backspaces, then, if there is something to paste, a
/// paste through the clipboard that gives the user's own text back.
pub open spec fn steps_of(e: Edit) -> Seq<EditStep<Seq<char>>> {
    let deletion = Seq::new(e.backspaces, |i: int| EditStep::<Seq<char>>::Backspace);
    if e.insert.len() == 0 {
        deletion
    } else {
        deletion + seq![
            EditStep::SaveClipboard,
            EditStep::SetClipboard(e.insert),
            EditStep::Wait(PRE_PASTE_DELAY_MS),
            EditStep::Paste,
            EditStep::Wait(RESTORE_DELAY_MS),
            EditStep::RestoreClipboard,
        ]
    }
}

/// The steps that carry out an edit, in order.
pub fn edit_steps(plan: &InsertPlan) -> (r: Vec<EditStep<String>>)
    ensures
        r@.map_values(|s: EditStep<String>| step_text(s)) == steps_of(plan@),
{
    let mut out: Vec<EditStep<String>> = Vec::new();
    let mut i: usize = 0;
    while i < plan.backspaces
        invariant
            i <= plan.backspaces,
            out@.len() == i,
            forall|j: int| 0 <= j < i ==> #[trigger] out@[j] == EditStep::<String>::Backspace,
        decreases plan.backspaces - i,
    {
        out.push(EditStep::Backspace);
        i = i + 1;
    }
    if !plan.insert.as_str().is_empty() {
        out.push(EditStep::SaveClipboard);
        out.push(EditStep::SetClipboard(plan.insert.clone()));
        out.push(EditStep::Wait(PRE_PASTE_DELAY_MS));
        out.push(EditStep::Paste);
        out.push(EditStep::Wait(RESTORE_DELAY_MS));
        out.push(EditStep::RestoreClipboard);
    }
    assert(out@.map_values(|s: EditStep<String>| step_text(s)) =~= steps_of(plan@));
    out
}

/// Whether the steps after this one are still carried out: they are not once the
/// clipboard refused the text, since pasting would then paste something else.
pub fn continues_after(step: &EditStep<String>, succeeded: bool) -> (r: bool)
    ensures
        r == (succeeded || !(step is SetClipboard)),
{
    match step {
        EditStep::SetClipboard(_) => succeeded,
        _ => true,
    }
}

/// The key that a step presses, and whether the command key is held with it.
pub fn key_of(step: &EditStep<String>) -> (r: Option<(u16, bool)>)
    ensures
        r == match *step {
            EditStep::Backspace => Some((KEY_BACKSPACE, false)),
            EditStep::Paste => Some((KEY_V, true)),
            _ => None::<(u16, bool)>,
        },
{
    match step {
        EditStep::Backspace => Some((KEY_BACKSPACE, false)),
        EditStep::Paste => Some((KEY_V, true)),
        _ => None,
    }
}

/// What the steps of an edit work on: the text before the cursor of the focused
/// application, what the clipboard holds, and what was remembered of it.
pub struct Desk {
    pub doc: Seq<char>,
    pub clipboard: Option<Seq<char>>,
    pub saved: Option<Seq<char>>,
}

/// What one step does: backspace deletes the last character, and a paste appends what the
/// clipboard holds.
pub open spec fn carried_out(d: Desk, step: EditStep<String>) -> Desk {
    match step {
        EditStep::Backspace => Desk {
            doc: if d.doc.len() == 0 {
                d.doc
            } else {
                d.doc.drop_last()
            },
            ..d
        },
        EditStep::SaveClipboard => Desk { saved: d.clipboard, ..d },
        EditStep::SetClipboard(t) => Desk { clipboard: Some(t@), ..d },
        EditStep::Wait(_) => d,
        EditStep::Paste => Desk {
            doc: match d.clipboard {
                Some(t) => d.doc + t,
                None => d.doc,
            },
            ..d
        },
        EditStep::RestoreClipboard => Desk {
            clipboard: match d.saved {
                Some(t) => Some(t),
                None => d.clipboard,
            },
            ..d
        },
    }
}

/// What steps do, one after the other.
pub open spec fn all_carried_out(d: Desk, steps: Seq<EditStep<String>>) -> Desk
    decreases steps.len(),
{
    if steps.len() == 0 {
        d
    } else {
        carried_out(all_carried_out(d, steps.drop_last()), steps.last())
    }
}

/// Backspaces delete as many characters from the end.
proof fn lemma_backspaces(d: Desk, steps: Seq<EditStep<String>>)
    requires
        steps.len() <= d.doc.len(),
        forall|i: int| 0 <= i < steps.len() ==> #[trigger] steps[i] is Backspace,
    ensures
        all_carried_out(d, steps) == (Desk { doc: d.doc.take(d.doc.len() - steps.len()), ..d }),
    decreases steps.len(),
{
    if steps.len() == 0 {
        assert(d.doc.take(d.doc.len() as int) =~= d.doc);
    } else {
        let front = steps.drop_last();
        assert forall|i: int| 0 <= i < front.len() implies #[trigger] front[i] is Backspace by {
            assert(front[i] == steps[i]);
        }
        lemma_backspaces(d, front);
        assert(steps[steps.len() - 1] is Backspace);
        assert(d.doc.take(d.doc.len() - front.len()).drop_last() =~= d.doc.take(
            d.doc.len() - steps.len(),
        ));
    }
}

/// The steps of an edit come one by one: as many backspaces as are asked for, and if
/// there is a text to insert, what gives the clipboard away for a paste and takes it back:
/// the text settles for twenty milliseconds, and is left there for another hundred and
/// twenty. There are no other steps.
pub proof fn law_steps_come_in_order(plan: &InsertPlan, r: Vec<EditStep<String>>)
    requires
        call_ensures(edit_steps, (plan,), r),
    ensures
        ({
            let b = plan.backspaces as int;
            &&& forall|i: int| 0 <= i < b ==> #[trigger] r@[i] is Backspace
            &&& plan.insert@.len() == 0 ==> r@.len() == b
            &&& plan.insert@.len() > 0 ==> {
                &&& r@.len() == b + 6
                &&& r@[b] is SaveClipboard
                &&& r@[b + 1] is SetClipboard && r@[b + 1]->SetClipboard_0@ == plan.insert@
                &&& r@[b + 2] == EditStep::<String>::Wait(20)
                &&& r@[b + 3] is Paste
                &&& r@[b + 4] == EditStep::<String>::Wait(120)
                &&& r@[b + 5] is RestoreClipboard
            }
        }),
{
    let b = plan.backspaces as int;
    let a = steps_of(plan@);
    let m = r@.map_values(|s: EditStep<String>| step_text(s));
    assert(m.len() == r@.len());
    assert forall|i: int| 0 <= i < r@.len() implies step_text(#[trigger] r@[i]) == a[i] by {
        assert(m[i] == step_text(r@[i]));
    }
}

/// Carrying out the steps of an edit makes the edit: whatever stands in the document, its
/// last characters go, as many as are asked for, and the text to insert stands in their
/// place. The clipboard holds the user's own text again, and is not touched where there is
/// nothing to insert.
pub proof fn law_steps_make_the_edit(plan: &InsertPlan, r: Vec<EditStep<String>>, d: Desk)
    requires
        call_ensures(edit_steps, (plan,), r),
        plan.backspaces <= d.doc.len(),
    ensures
        all_carried_out(d, r@).doc == d.doc.take(d.doc.len() - plan.backspaces) + plan.insert@,
        d.clipboard is Some ==> all_carried_out(d, r@).clipboard == d.clipboard,
        plan.insert@.len() == 0 ==> all_carried_out(d, r@).clipboard == d.clipboard,
{
    law_steps_come_in_order(plan, r);
    let b = plan.backspaces as int;
    let left = d.doc.take(d.doc.len() - b);
    if plan.insert@.len() == 0 {
        lemma_backspaces(d, r@);
        assert(left + plan.insert@ =~= left);
    } else {
        let s0 = r@.take(b);
        let s1 = r@.take(b + 1);
        let s2 = r@.take(b + 2);
        let s3 = r@.take(b + 3);
        let s4 = r@.take(b + 4);
        let s5 = r@.take(b + 5);
        assert forall|i: int| 0 <= i < s0.len() implies #[trigger] s0[i] is Backspace by {
            assert(s0[i] == r@[i]);
        }
        lemma_backspaces(d, s0);
        assert(s1.drop_last() =~= s0);
        assert(s2.drop_last() =~= s1);
        assert(s3.drop_last() =~= s2);
        assert(s4.drop_last() =~= s3);
        assert(s5.drop_last() =~= s4);
        assert(r@.drop_last() =~= s5);
        let d0 = all_carried_out(d, s0);
        let d1 = carried_out(d0, r@[b]);
        let d2 = carried_out(d1, r@[b + 1]);
        let d4 = carried_out(d2, r@[b + 3]);
        assert(all_carried_out(d, s1) == d1);
        assert(all_carried_out(d, s2) == d2);
        assert(all_carried_out(d, s3) == d2);
        assert(all_carried_out(d, s4) == d4);
        assert(all_carried_out(d, s5) == d4);
        assert(all_carried_out(d, r@) == carried_out(d4, r@[b + 5]));
    }
}

/// Where the clipboard refuses the text, the steps end there: nothing is pasted and the
/// clipboard is as it was. No other step ends them.
pub proof fn law_refused_text_is_not_pasted(
    plan: &InsertPlan,
    r: Vec<EditStep<String>>,
    d: Desk,
    i: int,
    succeeded: bool,
    go: bool,
)
    requires
        call_ensures(edit_steps, (plan,), r),
        plan.backspaces <= d.doc.len(),
        0 <= i < r@.len(),
        call_ensures(continues_after, (&r@[i], succeeded), go),
    ensures
        succeeded ==> go,
        !go ==> all_carried_out(d, r@.take(i)).doc == d.doc.take(d.doc.len() - plan.backspaces),
        !go ==> all_carried_out(d, r@.take(i)).clipboard == d.clipboard,
        !succeeded && r@[i] is SetClipboard ==> !go,
        !(r@[i] is SetClipboard) ==> go,
{
    law_steps_come_in_order(plan, r);
    let b = plan.backspaces as int;
    if !go {
        assert(i == b + 1);
        let s0 = r@.take(b);
        assert forall|j: int| 0 <= j < s0.len() implies #[trigger] s0[j] is Backspace by {
            assert(s0[j] == r@[j]);
        }
        lemma_backspaces(d, s0);
        assert(r@.take(b + 1).drop_last() =~= s0);
        assert(r@.take(b + 1).last() == r@[b]);
    }
}

/// Two steps press a key, backspace alone and `V` with the command key.
pub proof fn law_steps_press_their_keys(step: &EditStep<String>, r: Option<(u16, bool)>)
    requires
        call_ensures(key_of, (step,), r),
    ensures
        *step is Backspace ==> r == Some((51u16, false)),
        *step is Paste ==> r == Some((9u16, true)),
        r is Some ==> *step is Backspace || *step is Paste,
{
}

/// The common prefix is common, and the longest there is.
pub proof fn law_common_prefix_is_the_longest(a: &str, b: &str, n: usize)
    requires
        call_ensures(common_prefix_chars, (a, b), n),
    ensures
        n <= a@.len() && n <= b@.len(),
        a@.take(n as int) == b@.take(n as int),
        n < a@.len() && n < b@.len() ==> a@[n as int] != b@[n as int],
{
    lemma_common_prefix(a@, b@);
    assert(a@.take(n as int) =~= b@.take(n as int));
}

/// An update edits the tail that changed, and no more: a target that ends in what was
/// inserted ends in the new text, after a space if one was owed, and what is deleted
/// begins at the first character that is different. A final update leaves nothing to
/// edit, and a space owed if it had text.
pub proof fn law_updates_edit_what_changed(
    k: &mut DiffState,
    next: &str,
    is_final: bool,
    plan: InsertPlan,
    base: Seq<char>,
)
    requires
        call_ensures(DiffState::step, (k, next, is_final), plan),
    ensures
        ({
            let was = old(k)@.inserted;
            let spaced = was.len() == 0 && old(k)@.pending_separator && next@.len() > 0;
            let doc = base + was;
            let kept = was.len() - plan.backspaces;
            &&& 0 <= kept
            &&& doc.take(doc.len() - plan.backspaces) + plan.insert@ == (if spaced {
                base.push(' ')
            } else {
                base
            }) + next@
            &&& plan.backspaces > 0 && kept < next@.len() ==> was[kept] != next@[kept]
            &&& is_final ==> final(k)@.inserted.len() == 0
            &&& !is_final ==> final(k)@.inserted == next@
            &&& final(k)@.pending_separator == (is_final && next@.len() > 0 || old(
                k,
            )@.pending_separator && !spaced)
        }),
{
    law_update_converges(base, old(k)@, next@);
    lemma_common_prefix(old(k)@.inserted, next@);
}

/// Tracking starts from nothing, and a reset forgets the utterance but not the space that
/// is owed.
pub proof fn law_reset_forgets_the_utterance(fresh: DiffState, k: &mut DiffState)
    requires
        call_ensures(DiffState::default, (), fresh),
        call_ensures(DiffState::reset, (k,), ()),
    ensures
        fresh@.inserted.len() == 0 && !fresh@.pending_separator,
        final(k)@.inserted.len() == 0,
        final(k)@.pending_separator == old(k)@.pending_separator,
{
}

/// An edit is left out exactly if it neither deletes nor inserts.
pub proof fn law_noops_change_nothing(plan: &InsertPlan, r: bool)
    requires
        call_ensures(InsertPlan::is_noop, (plan,), r),
    ensures
        r <==> plan.backspaces == 0 && plan.insert@.len() == 0,
{
}

/// Each text that the injector is told of ends up in the target: where the target ended
/// in what was typed, it ends in the text after the edit, or is as it should be if there
/// is no edit. That typing is not permitted is reported once, with the first text.
pub proof fn law_told_text_is_typed(
    k: &mut Injector,
    text: String,
    is_final: bool,
    trusted: bool,
    r: Injection,
    base: Seq<char>,
)
    requires
        call_ensures(Injector::handle, (k, (Cmd::Text { text, is_final }), trusted), r),
    ensures
        ({
            let was = old(k).typed().inserted;
            let spaced = was.len() == 0 && old(k).typed().pending_separator && text@.len() > 0;
            let doc = base + was;
            let after = (if spaced {
                base.push(' ')
            } else {
                base
            }) + text@;
            &&& match r.plan {
                Some(plan) => {
                    &&& plan.backspaces <= was.len()
                    &&& doc.take(doc.len() - plan.backspaces) + plan.insert@ == after
                    &&& plan.backspaces > 0 || plan.insert@.len() > 0
                    &&& plan.backspaces > 0 && was.len() - plan.backspaces < text@.len()
                        ==> was[was.len() - plan.backspaces] != text@[was.len() - plan.backspaces]
                },
                None => doc == after,
            }
            &&& is_final ==> final(k).typed().inserted.len() == 0
            &&& !is_final ==> final(k).typed().inserted == text@
            &&& final(k).typed().pending_separator == (is_final && text@.len() > 0 || old(
                k,
            ).typed().pending_separator && !spaced)
            &&& r.warn_untrusted <==> !trusted && !old(k).warned()
            &&& final(k).warned() <==> old(k).warned() || !trusted
        }),
{
    law_update_converges(base, old(k).typed(), text@);
    lemma_common_prefix(old(k).typed().inserted, text@);
    if r.plan is None {
        let doc = base + old(k).typed().inserted;
        assert(doc.take(doc.len() as int) + Seq::<char>::empty() =~= doc);
        assert(edited(doc, planned(old(k).typed(), text@)) =~= doc);
    }
}

/// A reset edits and reports nothing; it forgets the utterance under way and keeps the
/// space that is owed. An injector starts with nothing typed and nothing reported.
pub proof fn law_reset_types_nothing(fresh: Injector, k: &mut Injector, trusted: bool, r: Injection)
    requires
        call_ensures(Injector::new, (), fresh),
        call_ensures(Injector::handle, (k, Cmd::Reset, trusted), r),
    ensures
        fresh.typed().inserted.len() == 0 && !fresh.typed().pending_separator && !fresh.warned(),
        r.plan is None && !r.warn_untrusted,
        final(k).typed().inserted.len() == 0,
        final(k).typed().pending_separator == old(k).typed().pending_separator,
        final(k).warned() == old(k).warned(),
{
}

/// Commands are queued behind those that wait, as what they are.
pub proof fn law_commands_queue_up(
    fresh: InjectorHandle,
    a: &mut InjectorHandle,
    live: String,
    b: &mut InjectorHandle,
    done: String,
    c: &mut InjectorHandle,
)
    requires
        call_ensures(InjectorHandle::new, (), fresh),
        call_ensures(InjectorHandle::partial, (a, live), ()),
        call_ensures(InjectorHandle::commit, (b, done), ()),
        call_ensures(InjectorHandle::reset, (c,), ()),
    ensures
        fresh@.len() == 0,
        final(a)@ == old(a)@ + seq![Command::Text { text: live@, is_final: false }],
        final(b)@ == old(b)@ + seq![Command::Text { text: done@, is_final: true }],
        final(c)@ == old(c)@ + seq![Command::Reset],
{
    assert(old(a)@.push(Command::Text { text: live@, is_final: false }) =~= old(a)@ + seq![
        Command::Text { text: live@, is_final: false },
    ]);
    assert(old(b)@.push(Command::Text { text: done@, is_final: true }) =~= old(b)@ + seq![
        Command::Text { text: done@, is_final: true },
    ]);
    assert(old(c)@.push(Command::Reset) =~= old(c)@ + seq![Command::Reset]);
}

/// Commands are taken in the order in which they were queued, each once.
pub proof fn law_commands_are_taken_in_order(k: &mut InjectorHandle, r: Option<Cmd>)
    requires
        call_ensures(InjectorHandle::next, (k,), r),
    ensures
        r is None <==> old(k)@.len() == 0,
        r is None ==> final(k)@ == old(k)@,
        r is Some ==> old(k)@ == seq![
            match r->0 {
                Cmd::Text { text, is_final } => Command::Text { text: text@, is_final },
                Cmd::Reset => Command::Reset,
            },
        ] + final(k)@,
{
    if r is Some {
        assert(old(k)@ =~= seq![r->0@] + final(k)@);
    }
}

/// What the injector is told stands in the document once the steps of its edit have been
/// carried out, behind what stood there before the utterance, and the user's clipboard is
/// as it was.
pub proof fn law_told_text_reaches_the_document(
    k: &mut Injector,
    text: String,
    is_final: bool,
    trusted: bool,
    plan: InsertPlan,
    warn_untrusted: bool,
    steps: Vec<EditStep<String>>,
    base: Seq<char>,
    clipboard: Seq<char>,
)
    requires
        call_ensures(
            Injector::handle,
            (k, (Cmd::Text { text, is_final }), trusted),
            (Injection { warn_untrusted, plan: Some(plan) }),
        ),
        call_ensures(edit_steps, (&plan,), steps),
    ensures
        ({
            let was = old(k).typed().inserted;
            let before = Desk { doc: base + was, clipboard: Some(clipboard), saved: None };
            let after = all_carried_out(before, steps@);
            let spaced = was.len() == 0 && old(k).typed().pending_separator && text@.len() > 0;
            &&& spaced ==> after.doc == base + seq![' '] + text@
            &&& !spaced ==> after.doc == base + text@
            &&& after.clipboard == Some(clipboard)
        }),
{
    let was = old(k).typed().inserted;
    let before = Desk { doc: base + was, clipboard: Some(clipboard), saved: None };
    law_told_text_is_typed(
        k,
        text,
        is_final,
        trusted,
        Injection { warn_untrusted, plan: Some(plan) },
        base,
    );
    law_steps_make_the_edit(&plan, steps, before);
    assert(base.push(' ') =~= base + seq![' ']);
}

}
