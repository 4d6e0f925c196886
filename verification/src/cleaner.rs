//! Cleanup of a finished dictation: the guards that a cleaned-up text must pass
//! before it may replace the words that were spoken, and the supervision of the
//! model that proposes it.
//!
//! Cleanup is a deletion task. A candidate is accepted only if its words are
//! overwhelmingly drawn from the dictation and its length is plausible; capitals
//! that it dropped are put back. Everything else is rejected, and the caller
//! falls back to the dictation itself.
//!
//! The model runs in a child process and answers one line with one line:
//! `{"text": "..."}` either way. Whatever goes wrong with it leaves the dictation
//! as it is.

use vstd::hash_map::StringHashMap;
use vstd::prelude::*;

use crate::config;
use crate::json;
use crate::json::FieldValue;
use crate::text;
use crate::text::Strip;

verus! {

broadcast use vstd::seq_lib::group_to_multiset_ensures;

/// The least share of a candidate's words, in percent, that the dictation must
/// supply.
pub const MIN_OVERLAP_PERCENT: u64 = 90;

/// The least length of a candidate, in percent of the dictation's.
pub const MIN_LEN_PERCENT: u64 = 50;

/// The greatest length of a candidate, in percent of the dictation's.
pub const MAX_LEN_PERCENT: u64 = 130;

/// A word without the punctuation around it.
pub open spec fn word_core(w: Seq<char>) -> Seq<char> {
    text::strip(Strip::NonAlphanumeric, w)
}

/// The form in which a word is compared: no punctuation around it, no capitals.
pub open spec fn comparable(w: Seq<char>) -> Seq<char> {
    text::lowercase(word_core(w))
}

/// The comparable forms of a list of words, leaving out the empty ones.
pub open spec fn comparables(ws: Seq<Seq<char>>) -> Seq<Seq<char>>
    decreases ws.len(),
{
    if ws.len() == 0 {
        seq![]
    } else {
        let before = comparables(ws.drop_last());
        let w = comparable(ws.last());
        if w.len() == 0 {
            before
        } else {
            before.push(w)
        }
    }
}

/// The comparable words of a text.
pub fn norm_words(s: &str) -> (r: Vec<String>)
    ensures
        text::texts(r@) == comparables(text::words(s@)),
{
    let ws = text::split_words(s);
    let mut out: Vec<String> = Vec::new();
    let mut i: usize = 0;
    assert(text::texts(out@) =~= comparables(text::texts(ws@).take(0)));
    while i < ws.len()
        invariant
            i <= ws@.len(),
            text::texts(out@) == comparables(text::texts(ws@).take(i as int)),
        decreases ws@.len() - i,
    {
        let ghost next = text::texts(ws@).take(i + 1);
        assert(next.drop_last() =~= text::texts(ws@).take(i as int));
        assert(next.last() == ws@[i as int]@);
        let stripped = text::strip_text(Strip::NonAlphanumeric, ws[i].as_str());
        let w = stripped.as_str().to_lowercase();
        if !w.as_str().is_empty() {
            let ghost prior = text::texts(out@);
            let ghost text = w@;
            out.push(w);
            assert(text::texts(out@) =~= prior.push(text));
        }
        i = i + 1;
    }
    assert(text::texts(ws@).take(ws@.len() as int) =~= text::texts(ws@));
    out
}

/// How many words of `out` have a source in `raw`, a repeated word needing as
/// many sources as it has occurrences.
pub open spec fn sourced(raw: Seq<Seq<char>>, out: Seq<Seq<char>>) -> nat {
    raw.to_multiset().intersection_with(out.to_multiset()).len()
}

/// One more word adds one to what is sourced exactly if a source is left for it.
proof fn lemma_sourced_push(raw: Seq<Seq<char>>, out: Seq<Seq<char>>, w: Seq<char>)
    ensures
        sourced(raw, out.push(w)) == sourced(raw, out) + if out.to_multiset().count(w)
            < raw.to_multiset().count(w) {
            1nat
        } else {
            0nat
        },
{
    broadcast use vstd::multiset::group_multiset_properties;

    let a = raw.to_multiset();
    let b = out.to_multiset();
    let grown = out.push(w).to_multiset();
    assert(grown =~= b.insert(w));
    if b.count(w) < a.count(w) {
        assert(a.intersection_with(grown) =~= a.intersection_with(b).insert(w));
    } else {
        assert(a.intersection_with(grown) =~= a.intersection_with(b));
    }
}

/// What a map of counts holds for a word.
spec fn counted(m: Map<Seq<char>, usize>, w: Seq<char>) -> nat {
    if m.contains_key(w) {
        m[w] as nat
    } else {
        0
    }
}

/// Counts the words of `out` that have a source in `raw`.
pub fn count_sourced(raw: &Vec<String>, out: &Vec<String>) -> (hits: usize)
    ensures
        hits == sourced(text::texts(raw@), text::texts(out@)),
        hits <= out@.len(),
{
    let ghost rw = text::texts(raw@);
    let ghost ow = text::texts(out@);
    let mut available: StringHashMap<usize> = StringHashMap::new();
    let mut i: usize = 0;
    assert(rw.take(0) =~= Seq::<Seq<char>>::empty());
    while i < raw.len()
        invariant
            i <= raw@.len(),
            rw == text::texts(raw@),
            forall|w: Seq<char>|
                #[trigger] counted(available@, w) == rw.take(i as int).to_multiset().count(w),
        decreases raw@.len() - i,
    {
        let ghost prior = rw.take(i as int);
        assert(rw.take(i + 1) =~= prior.push(rw[i as int]));
        let ghost map = available@;
        let ghost here = rw[i as int];
        assert(counted(map, here) <= i) by {
            assert(prior.to_multiset().count(here) <= prior.to_multiset().len());
        }
        let n: usize = match available.get(raw[i].as_str()) {
            Some(n) => *n,
            None => 0,
        };
        available.insert(raw[i].clone(), n + 1);
        assert forall|w: Seq<char>| #[trigger]
            counted(available@, w) == rw.take(i + 1).to_multiset().count(w) by {
            assert(counted(map, w) == prior.to_multiset().count(w));
            assert(rw.take(i + 1).to_multiset() =~= prior.to_multiset().insert(here));
        }
        i = i + 1;
    }
    assert(rw.take(raw@.len() as int) =~= rw);

    let mut hits: usize = 0;
    let mut j: usize = 0;
    assert(ow.take(0) =~= Seq::<Seq<char>>::empty());
    assert(sourced(rw, ow.take(0)) == 0) by {
        broadcast use vstd::multiset::group_multiset_properties;

        assert(rw.to_multiset().intersection_with(ow.take(0).to_multiset())
            =~= vstd::multiset::Multiset::empty());
    }
    while j < out.len()
        invariant
            j <= out@.len(),
            ow == text::texts(out@),
            hits == sourced(rw, ow.take(j as int)),
            hits <= j,
            forall|w: Seq<char>| #[trigger]
                counted(available@, w) == if rw.to_multiset().count(w) <= ow.take(
                    j as int,
                ).to_multiset().count(w) {
                    0
                } else {
                    rw.to_multiset().count(w) - ow.take(j as int).to_multiset().count(w)
                },
        decreases out@.len() - j,
    {
        let ghost prior = ow.take(j as int);
        let ghost here = ow[j as int];
        let ghost map = available@;
        assert(ow.take(j + 1) =~= prior.push(here));
        proof {
            lemma_sourced_push(rw, prior, here);
        }
        assert(counted(map, here) == counted(map, out@[j as int]@));
        let left: usize = match available.get(out[j].as_str()) {
            Some(n) => *n,
            None => 0,
        };
        if left > 0 {
            available.insert(out[j].clone(), left - 1);
            hits = hits + 1;
        }
        assert forall|w: Seq<char>| #[trigger]
            counted(available@, w) == if rw.to_multiset().count(w) <= ow.take(
                j + 1,
            ).to_multiset().count(w) {
                0
            } else {
                rw.to_multiset().count(w) - ow.take(j + 1).to_multiset().count(w)
            } by {
            assert(ow.take(j + 1).to_multiset() =~= prior.to_multiset().insert(here));
            let had = counted(map, w);
            if w == here {
                assert(ow.take(j + 1).to_multiset().count(w) == prior.to_multiset().count(w) + 1);
            } else {
                assert(ow.take(j + 1).to_multiset().count(w) == prior.to_multiset().count(w));
                assert(counted(available@, w) == had);
            }
        }
        j = j + 1;
    }
    assert(ow.take(out@.len() as int) =~= ow);
    hits
}

/// How much of a candidate is drawn from a dictation.
#[derive(Clone, Copy, PartialEq, Eq, Structural, Debug)]
pub struct Overlap {
    /// How many of its words have a source.
    pub hits: usize,
    /// How many words it has.
    pub total: usize,
}

/// How much of `out` is drawn from `raw`, both given by their comparable words.
pub open spec fn overlap_of(raw: Seq<Seq<char>>, out: Seq<Seq<char>>) -> (nat, nat) {
    (sourced(raw, out), out.len())
}

/// How many of the words of `out` are present in `raw`, compared as multisets so
/// that repeated words need repeated sources. The share `hits / total` is one for
/// pure deletion, and nothing is shared where `total` is zero.
pub fn overlap(raw: &str, out: &str) -> (r: Overlap)
    ensures
        (r.hits as nat, r.total as nat) == overlap_of(
            comparables(text::words(raw@)),
            comparables(text::words(out@)),
        ),
        r.hits <= r.total,
{
    let out_words = norm_words(out);
    let raw_words = norm_words(raw);
    let hits = count_sourced(&raw_words, &out_words);
    Overlap { hits, total: out_words.len() }
}

/// Whether a text has an upper-case character.
pub open spec fn has_upper(s: Seq<char>) -> bool {
    exists|i: int| 0 <= i < s.len() && text::is_upper(#[trigger] s[i])
}

fn any_upper(s: &str) -> (r: bool)
    ensures
        r == has_upper(s@),
{
    let chars = text::to_chars(s);
    let mut i: usize = 0;
    while i < chars.len()
        invariant
            i <= chars@.len(),
            chars@ == s@,
            forall|j: int| 0 <= j < i ==> !text::is_upper(#[trigger] s@[j]),
        decreases chars@.len() - i,
    {
        if chars[i].is_uppercase() {
            assert(text::is_upper(s@[i as int]));
            return true;
        }
        i = i + 1;
    }
    false
}

/// The first capitalized spelling, among the words `ws`, of the word whose
/// comparable form is `key`.
pub open spec fn spelling(ws: Seq<Seq<char>>, key: Seq<char>) -> Option<Seq<char>>
    decreases ws.len(),
{
    if ws.len() == 0 {
        None
    } else {
        match spelling(ws.drop_last(), key) {
            Some(first) => Some(first),
            None => {
                let c = word_core(ws.last());
                if has_upper(c) && text::lowercase(c) == key {
                    Some(c)
                } else {
                    None
                }
            },
        }
    }
}

/// A word that is not all punctuation and has no capital.
pub open spec fn is_plain(w: Seq<char>) -> bool {
    word_core(w).len() > 0 && !has_upper(word_core(w))
}

/// The occurrences, among the words `ws`, of the word whose comparable form is `key`, in
/// order: each by whether it has a capital.
pub open spec fn capitals(ws: Seq<Seq<char>>, key: Seq<char>) -> Seq<bool>
    decreases ws.len(),
{
    if ws.len() == 0 {
        seq![]
    } else {
        let before = capitals(ws.drop_last(), key);
        if word_core(ws.last()).len() > 0 && comparable(ws.last()) == key {
            before.push(has_upper(word_core(ws.last())))
        } else {
            before
        }
    }
}

/// A word with the capitals that the dictation has for it. A word that has a
/// capital, or is all punctuation, or never was capitalized, stays as it is.
pub open spec fn recased(raw: Seq<Seq<char>>, w: Seq<char>) -> Seq<char> {
    if !is_plain(w) {
        w
    } else {
        match spelling(raw, comparable(w)) {
            None => w,
            Some(original) => {
                let from = text::lead(Strip::NonAlphanumeric, w) as int;
                w.subrange(0, from) + original + w.subrange(
                    from + word_core(w).len(),
                    w.len() as int,
                )
            },
        }
    }
}

/// Whether one of the occurrences from `k` to `k + spare` has a capital.
pub open spec fn any_capital(flags: Seq<bool>, k: int, spare: int) -> bool {
    exists|j: int| k <= j <= k + spare && #[trigger] flags[j]
}

/// Whether word `i` of a candidate may have lost a capital.
///
/// A candidate is made by deletion, so its words stand in the order of the dictation: of
/// a word that occurs `r` times there and `n` times here, the occurrence with `k` before
/// it comes from one of those with `k` to `k + r - n` before them. It has lost nothing if
/// all of these lack a capital too, and else it may have. Where a word occurs more often
/// than in the dictation it has no certain source, and may have lost one as well.
pub open spec fn lost_capital(raw: Seq<Seq<char>>, out: Seq<Seq<char>>, i: int) -> bool {
    let key = comparable(out[i]);
    let there = capitals(raw, key);
    let here = capitals(out, key);
    let k = capitals(out.take(i), key).len();
    here.len() > there.len() || any_capital(there, k as int, there.len() - here.len())
}

/// The words of a candidate, those that may have lost a capital with the capitals that
/// the dictation has for them.
pub open spec fn recased_words(raw: Seq<Seq<char>>, out: Seq<Seq<char>>) -> Seq<Seq<char>> {
    Seq::new(
        out.len(),
        |i: int|
            if lost_capital(raw, out, i) {
                recased(raw, out[i])
            } else {
                out[i]
            },
    )
}

/// A candidate with the capitals that it dropped put back, its words joined by single
/// spaces.
pub open spec fn restored(raw: Seq<char>, out: Seq<char>) -> Seq<char> {
    text::joined(recased_words(text::words(raw), text::words(out)))
}

/// A word as it is compared, and whether it has a capital.
struct Form {
    /// It is not all punctuation.
    spoken: bool,
    key: String,
    capital: bool,
}

/// Whether a form is that of a word.
spec fn is_form(f: Form, w: Seq<char>) -> bool {
    &&& f.spoken == (word_core(w).len() > 0)
    &&& f.key@ == comparable(w)
    &&& f.capital == has_upper(word_core(w))
}

/// Whether forms are those of words.
spec fn are_forms(fs: Seq<Form>, ws: Seq<Seq<char>>) -> bool {
    &&& fs.len() == ws.len()
    &&& forall|i: int| 0 <= i < fs.len() ==> is_form(#[trigger] fs[i], ws[i])
}

/// The forms of words.
fn forms(ws: &Vec<String>) -> (r: Vec<Form>)
    ensures
        are_forms(r@, text::texts(ws@)),
{
    let mut r: Vec<Form> = Vec::new();
    let mut i: usize = 0;
    while i < ws.len()
        invariant
            i <= ws@.len(),
            r@.len() == i,
            forall|j: int|
                0 <= j < i ==> is_form(#[trigger] r@[j], text::texts(ws@)[j]),
        decreases ws@.len() - i,
    {
        let stripped = text::strip_text(Strip::NonAlphanumeric, ws[i].as_str());
        let spoken = !stripped.as_str().is_empty();
        let capital = any_upper(stripped.as_str());
        let key = stripped.as_str().to_lowercase();
        r.push(Form { spoken, key, capital });
        i = i + 1;
    }
    r
}

/// The occurrences of a word among the first `n` of some words, given by their forms.
fn capitals_among(fs: &Vec<Form>, n: usize, key: &String, ws: Ghost<Seq<Seq<char>>>) -> (r: Vec<
    bool,
>)
    requires
        n <= fs@.len(),
        are_forms(fs@, ws@),
    ensures
        r@ == capitals(ws@.take(n as int), key@),
        r@.len() <= n,
{
    let mut r: Vec<bool> = Vec::new();
    let mut i: usize = 0;
    while i < n
        invariant
            i <= n <= fs@.len(),
            are_forms(fs@, ws@),
            r@ == capitals(ws@.take(i as int), key@),
            r@.len() <= i,
        decreases n - i,
    {
        assert(ws@.take(i + 1).drop_last() =~= ws@.take(i as int));
        assert(is_form(fs@[i as int], ws@[i as int]));
        if fs[i].spoken && fs[i].key == *key {
            r.push(fs[i].capital);
        }
        i = i + 1;
    }
    r
}

/// Whether one of the occurrences from `k` to `k + spare` has a capital.
fn find_capital(flags: &Vec<bool>, k: usize, spare: usize) -> (r: bool)
    requires
        k + spare < flags@.len(),
    ensures
        r == any_capital(flags@, k as int, spare as int),
{
    let count = flags.len();
    let end: usize = k + spare + 1;
    let mut j: usize = k;
    while j < end
        invariant
            k <= j <= end <= count,
            count == flags@.len(),
            end == k + spare + 1,
            forall|i: int| k <= i < j ==> !#[trigger] flags@[i],
        decreases end - j,
    {
        if flags[j] {
            return true;
        }
        j = j + 1;
    }
    false
}

/// A word that stands among words behind others of its kind occurs more often among all.
proof fn lemma_capitals(ws: Seq<Seq<char>>, key: Seq<char>, n: int)
    requires
        0 <= n <= ws.len(),
    ensures
        capitals(ws.take(n), key).len() <= capitals(ws, key).len(),
        n < ws.len() && word_core(ws[n]).len() > 0 && comparable(ws[n]) == key ==> capitals(
            ws.take(n),
            key,
        ).len() < capitals(ws, key).len() && capitals(ws, key)[capitals(
            ws.take(n),
            key,
        ).len() as int] == has_upper(word_core(ws[n])),
    decreases ws.len(),
{
    if n == ws.len() {
        assert(ws.take(n) =~= ws);
    } else {
        let front = ws.drop_last();
        assert(front.take(n) =~= ws.take(n));
        lemma_capitals(front, key, n);
        if n == ws.len() - 1 {
            assert(front =~= ws.take(n));
        } else {
            assert(front[n] == ws[n]);
        }
    }
}

/// What a map of spellings holds for a word.
spec fn spelled(m: Map<Seq<char>, String>, key: Seq<char>) -> Option<Seq<char>> {
    if m.contains_key(key) {
        Some(m[key]@)
    } else {
        None
    }
}

/// The first capitalized spelling of each word of `ws`.
fn spellings(ws: &Vec<String>) -> (m: StringHashMap<String>)
    ensures
        forall|key: Seq<char>| #[trigger]
            spelled(m@, key) == spelling(text::texts(ws@), key),
{
    let mut m: StringHashMap<String> = StringHashMap::new();
    let mut i: usize = 0;
    let ghost all = text::texts(ws@);
    while i < ws.len()
        invariant
            i <= ws@.len(),
            all == text::texts(ws@),
            forall|key: Seq<char>| #[trigger]
                spelled(m@, key) == spelling(all.take(i as int), key),
        decreases ws@.len() - i,
    {
        let ghost next = all.take(i + 1);
        let ghost before = m@;
        assert(next.drop_last() =~= all.take(i as int));
        assert(next.last() == ws@[i as int]@);
        let stripped = text::strip_text(Strip::NonAlphanumeric, ws[i].as_str());
        if any_upper(stripped.as_str()) {
            let key = stripped.as_str().to_lowercase();
            if !m.contains_key(key.as_str()) {
                m.insert(key, stripped);
            }
        }
        assert forall|key: Seq<char>| #[trigger] spelled(m@, key) == spelling(next, key) by {
            assert(spelled(before, key) == spelling(all.take(i as int), key));
        }
        i = i + 1;
    }
    assert(all.take(ws@.len() as int) =~= all);
    m
}

fn recase(m: &StringHashMap<String>, w: &str, raw: Ghost<Seq<Seq<char>>>) -> (r: String)
    requires
        forall|key: Seq<char>| #[trigger] spelled(m@, key) == spelling(raw@, key),
    ensures
        r@ == recased(raw@, w@),
{
    let chars = text::to_chars(w);
    let (a, b) = text::strip_counts(Strip::NonAlphanumeric, &chars);
    if a == chars.len() {
        return w.to_owned();
    }
    let end: usize = chars.len() - b;
    let stripped = text::slice_text(&chars, a, end);
    assert(stripped@ == word_core(w@));
    if any_upper(stripped.as_str()) {
        return w.to_owned();
    }
    let key = stripped.as_str().to_lowercase();
    assert(spelled(m@, key@) == spelling(raw@, key@));
    match m.get(key.as_str()) {
        None => w.to_owned(),
        Some(original) => {
            let mut out = text::slice_text(&chars, 0, a);
            out.append(original.as_str());
            let rest = text::slice_text(&chars, end, chars.len());
            out.append(rest.as_str());
            out
        },
    }
}

/// Re-applies capitals that a candidate dropped.
///
/// Where the dictation capitalized a word and the candidate did not, the dictation wins:
/// the word gets the first capitalized spelling that the dictation has for it. A word
/// that the dictation has both ways is left alone where it can only come from an
/// occurrence without a capital. Capitals that the candidate added stay: after a deleted
/// opening filler the new first word is rightly capitalized. Runs of white space become
/// single spaces.
pub fn restore_casing(raw: &str, out: &str) -> (r: String)
    ensures
        r@ == restored(raw@, out@),
{
    let raw_words = text::split_words(raw);
    let out_words = text::split_words(out);
    let m = spellings(&raw_words);
    let raw_forms = forms(&raw_words);
    let out_forms = forms(&out_words);
    let ghost rw = text::words(raw@);
    let ghost ow = text::words(out@);
    let mut fixed: Vec<String> = Vec::new();
    let mut i: usize = 0;
    while i < out_words.len()
        invariant
            i <= out_words@.len(),
            ow == text::texts(out_words@),
            rw == text::texts(raw_words@),
            are_forms(raw_forms@, rw),
            are_forms(out_forms@, ow),
            fixed@.len() == i,
            forall|j: int|
                0 <= j < i ==> (#[trigger] fixed@[j])@ == recased_words(rw, ow)[j],
            forall|key: Seq<char>| #[trigger] spelled(m@, key) == spelling(rw, key),
        decreases out_words@.len() - i,
    {
        let form = &out_forms[i];
        assert(is_form(out_forms@[i as int], ow[i as int]));
        assert(spelled(m@, form.key@) == spelling(rw, form.key@));
        let w = if form.spoken && !form.capital && m.contains_key(form.key.as_str()) {
            let there = capitals_among(&raw_forms, raw_forms.len(), &form.key, Ghost(rw));
            let here = capitals_among(&out_forms, out_forms.len(), &form.key, Ghost(ow));
            let before = capitals_among(&out_forms, i, &form.key, Ghost(ow));
            proof {
                assert(rw.take(rw.len() as int) =~= rw);
                assert(ow.take(ow.len() as int) =~= ow);
                lemma_capitals(ow, form.key@, i as int);
            }
            let lost = here.len() > there.len() || find_capital(
                &there,
                before.len(),
                there.len() - here.len(),
            );
            if lost {
                recase(&m, out_words[i].as_str(), Ghost(rw))
            } else {
                out_words[i].clone()
            }
        } else {
            out_words[i].clone()
        };
        fixed.push(w);
        i = i + 1;
    }
    assert(text::texts(fixed@) =~= recased_words(rw, ow));
    text::join_words(&fixed)
}

/// Whether the length of a candidate is plausible for a dictation.
pub open spec fn length_plausible(raw_len: nat, len: nat) -> bool {
    MIN_LEN_PERCENT * raw_len <= 100 * len <= MAX_LEN_PERCENT * raw_len
}

/// Whether enough words of a candidate are drawn from the dictation.
pub open spec fn overlap_enough(hits: nat, total: nat) -> bool {
    total > 0 && MIN_OVERLAP_PERCENT * total <= 100 * hits
}

/// Whether the length of a candidate is plausible for a dictation.
pub fn plausible_length(raw_len: usize, len: usize) -> (r: bool)
    ensures
        r == length_plausible(raw_len as nat, len as nat),
{
    let scaled: u128 = 100 * (len as u128);
    let n: u128 = raw_len as u128;
    assert(MIN_LEN_PERCENT * n <= 1000 * n && MAX_LEN_PERCENT * n <= 1000 * n) by (nonlinear_arith)
        requires
            MIN_LEN_PERCENT <= 1000,
            MAX_LEN_PERCENT <= 1000,
    ;
    (MIN_LEN_PERCENT as u128) * n <= scaled && scaled <= (MAX_LEN_PERCENT as u128) * n
}

/// Whether enough words of a candidate are drawn from the dictation.
pub fn enough_overlap(o: Overlap) -> (r: bool)
    ensures
        r == overlap_enough(o.hits as nat, o.total as nat),
{
    let n: u128 = o.total as u128;
    assert(MIN_OVERLAP_PERCENT * n <= 1000 * n) by (nonlinear_arith)
        requires
            MIN_OVERLAP_PERCENT <= 1000,
    ;
    o.total > 0 && (MIN_OVERLAP_PERCENT as u128) * n <= 100 * (o.hits as u128)
}

/// Whether a candidate is accepted in place of a dictation.
pub open spec fn acceptable(raw: Seq<char>, candidate: Seq<char>) -> bool {
    let c = text::strip(Strip::WhiteSpace, candidate);
    let r = text::strip(Strip::WhiteSpace, raw);
    let o = overlap_of(comparables(text::words(raw)), comparables(text::words(c)));
    &&& c.len() > 0
    &&& r.len() > 0
    &&& length_plausible(r.len(), c.len())
    &&& overlap_enough(o.0, o.1)
}

/// What a candidate becomes: accepted with its capitals put back, or nothing.
pub open spec fn vetted(raw: Seq<char>, candidate: Seq<char>) -> Option<Seq<char>> {
    if acceptable(raw, candidate) {
        Some(restored(raw, text::strip(Strip::WhiteSpace, candidate)))
    } else {
        None
    }
}

/// Accepts a candidate, casing repaired, or rejects it so that the caller keeps
/// `raw`.
pub fn vet(raw: &str, candidate: &str) -> (r: Option<String>)
    ensures
        text::opt_text(r) == vetted(raw@, candidate@),
{
    let candidate = text::strip_text(Strip::WhiteSpace, candidate);
    let trimmed = text::strip_text(Strip::WhiteSpace, raw);
    let raw_len = trimmed.as_str().unicode_len();
    if candidate.as_str().is_empty() || raw_len == 0 {
        return None;
    }
    if !plausible_length(raw_len, candidate.as_str().unicode_len()) {
        return None;
    }
    if !enough_overlap(overlap(raw, candidate.as_str())) {
        return None;
    }
    Some(restore_casing(raw, candidate.as_str()))
}

/// A spelling is the core of one of the words, has a capital, and compares as
/// the word that was asked for.
proof fn lemma_spelling(ws: Seq<Seq<char>>, key: Seq<char>)
    requires
        spelling(ws, key) is Some,
    ensures
        exists|i: int|
            0 <= i < ws.len() && spelling(ws, key) == Some(word_core(#[trigger] ws[i])),
        has_upper(spelling(ws, key)->0),
        text::lowercase(spelling(ws, key)->0) == key,
    decreases ws.len(),
{
    let front = ws.drop_last();
    if spelling(front, key) is Some {
        lemma_spelling(front, key);
        let i = choose|i: int|
            0 <= i < front.len() && spelling(front, key) == Some(word_core(#[trigger] front[i]));
        assert(spelling(ws, key) == Some(word_core(ws[i])));
    } else {
        assert(spelling(ws, key) == Some(word_core(ws[ws.len() - 1])));
    }
}

/// A recased word is a word that compares as before, and one that the dictation has
/// a spelling for has a capital.
proof fn lemma_recased(raw: Seq<Seq<char>>, w: Seq<char>)
    requires
        forall|i: int| 0 <= i < raw.len() ==> text::is_word(#[trigger] raw[i]),
        text::is_word(w),
    ensures
        text::is_word(recased(raw, w)),
        comparable(recased(raw, w)) == comparable(w),
        (word_core(recased(raw, w)).len() > 0) == (word_core(w).len() > 0),
        is_plain(w) && spelling(raw, comparable(w)) is Some ==> has_upper(
            word_core(recased(raw, w)),
        ),
{
    let kind = Strip::NonAlphanumeric;
    let c = word_core(w);
    text::lemma_strip(kind, w);
    text::lemma_lead(kind, w);
    text::lemma_trail(kind, w);
    if c.len() > 0 && !has_upper(c) && spelling(raw, text::lowercase(c)) is Some {
        let key = text::lowercase(c);
        lemma_spelling(raw, key);
        let original = spelling(raw, key)->0;
        let k = choose|i: int|
            0 <= i < raw.len() && spelling(raw, key) == Some(word_core(#[trigger] raw[i]));
        let source = raw[k];
        assert(text::is_word(source));
        text::lemma_strip(kind, source);
        text::lemma_lead(kind, source);
        text::lemma_trail(kind, source);
        let a = text::lead(kind, w);
        let b = text::trail(kind, w);
        let pre = w.subrange(0, a as int);
        let post = w.subrange((a + c.len()) as int, w.len() as int);
        let r = recased(raw, w);
        assert(r == pre + original + post);
        assert(post.len() == b);
        assert(r.len() == a + original.len() + b);
        assert forall|i: int| 0 <= i < a implies text::stripped_char(kind, #[trigger] r[i]) by {
            assert(r[i] == w[i]);
        }
        assert(r[a as int] == original[0]);
        assert forall|i: int| r.len() - b <= i < r.len() implies text::stripped_char(
            kind,
            #[trigger] r[i],
        ) by {
            assert(r[i] == w[i - r.len() + w.len()]);
        }
        assert(r[r.len() - b - 1] == original[original.len() - 1]);
        text::lemma_strip_counts(kind, r, a, b);
        assert(word_core(r) =~= original);
        assert forall|i: int| 0 <= i < r.len() implies !text::is_white_space(#[trigger] r[i]) by {
            if i < a {
                assert(r[i] == w[i]);
            } else if i < a + original.len() {
                assert(r[i] == original[i - a]);
                assert(original[i - a] == source[i - a + text::lead(kind, source)]);
            } else {
                assert(r[i] == w[i - r.len() + w.len()]);
            }
        }
    }
}

/// Words that compare alike one by one compare alike as a list.
proof fn lemma_comparables_alike(a: Seq<Seq<char>>, b: Seq<Seq<char>>)
    requires
        a.len() == b.len(),
        forall|i: int| 0 <= i < a.len() ==> comparable(#[trigger] a[i]) == comparable(b[i]),
    ensures
        comparables(a) == comparables(b),
    decreases a.len(),
{
    if a.len() > 0 {
        let p = a.drop_last();
        let q = b.drop_last();
        assert forall|i: int| 0 <= i < p.len() implies comparable(#[trigger] p[i]) == comparable(
            q[i],
        ) by {
            assert(p[i] == a[i]);
        }
        lemma_comparables_alike(p, q);
        assert(comparable(a[a.len() - 1]) == comparable(b[b.len() - 1]));
    }
}

/// Recasing keeps the comparable words of a list.
proof fn lemma_recased_words(raw: Seq<Seq<char>>, out: Seq<Seq<char>>)
    requires
        forall|i: int| 0 <= i < raw.len() ==> text::is_word(#[trigger] raw[i]),
        forall|i: int| 0 <= i < out.len() ==> text::is_word(#[trigger] out[i]),
    ensures
        comparables(recased_words(raw, out)) == comparables(out),
        forall|i: int|
            0 <= i < out.len() ==> {
                &&& text::is_word(#[trigger] recased_words(raw, out)[i])
                &&& comparable(recased_words(raw, out)[i]) == comparable(out[i])
                &&& (word_core(recased_words(raw, out)[i]).len() > 0) == (word_core(out[i]).len()
                    > 0)
            },
{
    let all = recased_words(raw, out);
    assert forall|i: int| 0 <= i < out.len() implies {
        &&& text::is_word(#[trigger] all[i])
        &&& comparable(all[i]) == comparable(out[i])
        &&& (word_core(all[i]).len() > 0) == (word_core(out[i]).len() > 0)
    } by {
        assert(text::is_word(out[i]));
        lemma_recased(raw, out[i]);
    }
    lemma_comparables_alike(all, out);
}

/// Words that compare alike one by one have as many occurrences of each.
proof fn lemma_occurrences_alike(a: Seq<Seq<char>>, b: Seq<Seq<char>>, key: Seq<char>)
    requires
        a.len() == b.len(),
        forall|i: int|
            0 <= i < a.len() ==> {
                &&& comparable(#[trigger] a[i]) == comparable(b[i])
                &&& (word_core(a[i]).len() > 0) == (word_core(b[i]).len() > 0)
            },
    ensures
        capitals(a, key).len() == capitals(b, key).len(),
    decreases a.len(),
{
    if a.len() > 0 {
        let p = a.drop_last();
        let q = b.drop_last();
        assert forall|i: int| 0 <= i < p.len() implies {
            &&& comparable(#[trigger] p[i]) == comparable(q[i])
            &&& (word_core(p[i]).len() > 0) == (word_core(q[i]).len() > 0)
        } by {
            assert(p[i] == a[i]);
        }
        lemma_occurrences_alike(p, q, key);
        assert(comparable(a[a.len() - 1]) == comparable(b[b.len() - 1]));
    }
}

/// Repairing the casing leaves each word where it is among the occurrences of its kind,
/// so what may have lost a capital is the same before and after.
proof fn lemma_lost_capital_stays(raw: Seq<Seq<char>>, out: Seq<Seq<char>>, i: int)
    requires
        forall|i: int| 0 <= i < raw.len() ==> text::is_word(#[trigger] raw[i]),
        forall|i: int| 0 <= i < out.len() ==> text::is_word(#[trigger] out[i]),
        0 <= i < out.len(),
    ensures
        lost_capital(raw, recased_words(raw, out), i) == lost_capital(raw, out, i),
{
    let all = recased_words(raw, out);
    let key = comparable(out[i]);
    lemma_recased_words(raw, out);
    lemma_occurrences_alike(all, out, key);
    let a = all.take(i);
    let b = out.take(i);
    assert forall|j: int| 0 <= j < a.len() implies {
        &&& comparable(#[trigger] a[j]) == comparable(b[j])
        &&& (word_core(a[j]).len() > 0) == (word_core(b[j]).len() > 0)
    } by {
        assert(a[j] == all[j]);
    }
    lemma_occurrences_alike(a, b, key);
}

/// Casing repair works word by word: the result has as many words as the
/// candidate, each is the candidate's word with nothing but its capitals changed,
/// and only a word without a capital that may have lost one is changed.
pub proof fn law_casing_repair_is_wordwise(raw: Seq<char>, out: Seq<char>)
    ensures
        text::words(restored(raw, out)).len() == text::words(out).len(),
        forall|i: int|
            0 <= i < text::words(out).len() ==> {
                let before = text::words(out)[i];
                let after = #[trigger] text::words(restored(raw, out))[i];
                &&& comparable(after) == comparable(before)
                &&& !is_plain(before) ==> after == before
                &&& after == if lost_capital(text::words(raw), text::words(out), i) {
                    recased(text::words(raw), before)
                } else {
                    before
                }
            },
{
    let rw = text::words(raw);
    let ow = text::words(out);
    text::lemma_words(raw);
    text::lemma_words(out);
    lemma_recased_words(rw, ow);
    text::lemma_words_of_joined(recased_words(rw, ow));
}

/// Capitals that were not dropped are none to restore: a candidate that capitalizes the
/// occurrences of each word as the dictation does is kept word for word.
pub proof fn law_kept_capitals_change_nothing(raw: Seq<char>, out: Seq<char>)
    requires
        forall|key: Seq<char>| #[trigger]
            capitals(text::words(out), key) == capitals(text::words(raw), key),
    ensures
        text::words(restored(raw, out)) == text::words(out),
        restored(raw, out) == text::joined(text::words(out)),
{
    let rw = text::words(raw);
    let ow = text::words(out);
    text::lemma_words(out);
    assert forall|i: int| 0 <= i < ow.len() implies #[trigger] recased_words(rw, ow)[i]
        == ow[i] by {
        let key = comparable(ow[i]);
        assert(capitals(ow, key) == capitals(rw, key));
        if is_plain(ow[i]) {
            lemma_capitals(ow, key, i);
        }
    }
    assert(recased_words(rw, ow) =~= ow);
    text::lemma_words_of_joined(ow);
}

/// A text that is its own dictation dropped nothing, so its words stay as they are.
pub proof fn law_clean_text_is_preserved(raw: Seq<char>)
    ensures
        restored(raw, raw) == text::joined(text::words(raw)),
        text::words(restored(raw, raw)) == text::words(raw),
{
    law_kept_capitals_change_nothing(raw, raw);
}

/// Dropped capitals are restored: a word that may come from a capitalized one has a
/// capital in the repaired candidate, so one that the dictation always capitalizes has it
/// everywhere.
pub proof fn law_dropped_capitals_are_restored(raw: Seq<char>, out: Seq<char>, i: int)
    requires
        0 <= i < text::words(out).len(),
        is_plain(text::words(out)[i]),
        ({
            let key = comparable(text::words(out)[i]);
            let there = capitals(text::words(raw), key);
            ||| spelling(text::words(raw), key) is Some && lost_capital(
                text::words(raw),
                text::words(out),
                i,
            )
            ||| there.len() > 0 && forall|j: int| 0 <= j < there.len() ==> #[trigger] there[j]
        }),
    ensures
        text::words(restored(raw, out)).len() == text::words(out).len(),
        !is_plain(text::words(restored(raw, out))[i]),
        has_upper(word_core(text::words(restored(raw, out))[i])),
{
    let rw = text::words(raw);
    let ow = text::words(out);
    let key = comparable(ow[i]);
    text::lemma_words(raw);
    text::lemma_words(out);
    lemma_recased_words(rw, ow);
    text::lemma_words_of_joined(recased_words(rw, ow));
    lemma_recased(rw, ow[i]);
    lemma_capitals(ow, key, i);
    lemma_capital_is_spelled(rw, key);
    let there = capitals(rw, key);
    let k = capitals(ow.take(i), key).len() as int;
    if spelling(rw, key) is None || !lost_capital(rw, ow, i) {
        assert(there[0]);
        assert(spelling(rw, key) is Some);
        assert(capitals(ow, key).len() <= there.len() ==> there[k]);
        assert(any_capital(there, k, there.len() - capitals(ow, key).len()) || capitals(
            ow,
            key,
        ).len() > there.len());
    }
    assert(recased_words(rw, ow)[i] == recased(rw, ow[i]));
}

/// A word that occurs with a capital has a capitalized spelling.
proof fn lemma_capital_is_spelled(ws: Seq<Seq<char>>, key: Seq<char>)
    ensures
        (exists|j: int| 0 <= j < capitals(ws, key).len() && #[trigger] capitals(ws, key)[j])
            ==> spelling(ws, key) is Some,
    decreases ws.len(),
{
    if ws.len() > 0 {
        let front = ws.drop_last();
        lemma_capital_is_spelled(front, key);
        if exists|j: int| 0 <= j < capitals(ws, key).len() && #[trigger] capitals(ws, key)[j] {
            let j = choose|j: int|
                0 <= j < capitals(ws, key).len() && #[trigger] capitals(ws, key)[j];
            if j < capitals(front, key).len() {
                assert(capitals(front, key)[j]);
            }
        }
    }
}

/// Casing repair neither adds nor loses a word, so a repaired candidate overlaps
/// with the dictation exactly as the candidate did.
pub proof fn law_casing_repair_keeps_overlap(raw: Seq<char>, out: Seq<char>)
    ensures
        comparables(text::words(restored(raw, out))) == comparables(text::words(out)),
        overlap_of(
            comparables(text::words(raw)),
            comparables(text::words(restored(raw, out))),
        ) == overlap_of(comparables(text::words(raw)), comparables(text::words(out))),
{
    text::lemma_words(raw);
    text::lemma_words(out);
    lemma_recased_words(text::words(raw), text::words(out));
    text::lemma_words_of_joined(recased_words(text::words(raw), text::words(out)));
}

/// Repairing the casing twice is repairing it once.
pub proof fn law_casing_repair_is_idempotent(raw: Seq<char>, out: Seq<char>)
    ensures
        restored(raw, restored(raw, out)) == restored(raw, out),
{
    let rw = text::words(raw);
    let ow = text::words(out);
    let all = recased_words(rw, ow);
    text::lemma_words(raw);
    text::lemma_words(out);
    lemma_recased_words(rw, ow);
    text::lemma_words_of_joined(all);
    assert forall|i: int| 0 <= i < all.len() implies #[trigger] recased_words(rw, all)[i]
        == all[i] by {
        lemma_lost_capital_stays(rw, ow, i);
        lemma_recased(rw, ow[i]);
    }
    assert(recased_words(rw, all) =~= all);
}

/// Whatever passes the guards is drawn from the dictation: at least the required
/// share of its own words has a source there.
pub proof fn law_accepted_text_is_drawn_from_the_dictation(raw: Seq<char>, candidate: Seq<char>)
    requires
        vetted(raw, candidate) is Some,
    ensures
        ({
            let text = vetted(raw, candidate)->0;
            let o = overlap_of(comparables(text::words(raw)), comparables(text::words(text)));
            overlap_enough(o.0, o.1)
        }),
{
    law_casing_repair_keeps_overlap(raw, text::strip(Strip::WhiteSpace, candidate));
}

/// Where the words of a candidate are among those of the dictation, all of them
/// are sourced.
proof fn lemma_all_sourced(raw: Seq<Seq<char>>, out: Seq<Seq<char>>)
    requires
        out.to_multiset().subset_of(raw.to_multiset()),
    ensures
        sourced(raw, out) == out.len(),
{
    broadcast use vstd::multiset::group_multiset_properties;

    assert(raw.to_multiset().intersection_with(out.to_multiset()) =~= out.to_multiset());
}

/// Pure deletion passes: a candidate of plausible length that has words, all of
/// them words of the dictation, is accepted.
pub proof fn law_pure_deletion_is_accepted(raw: Seq<char>, candidate: Seq<char>)
    requires
        comparables(text::words(candidate)).len() > 0,
        comparables(text::words(candidate)).to_multiset().subset_of(
            comparables(text::words(raw)).to_multiset(),
        ),
        length_plausible(
            text::strip(Strip::WhiteSpace, raw).len(),
            text::strip(Strip::WhiteSpace, candidate).len(),
        ),
    ensures
        vetted(raw, candidate) == Some(restored(raw, candidate)),
{
    broadcast use vstd::multiset::group_multiset_properties;

    let rw = comparables(text::words(raw));
    let cw = comparables(text::words(candidate));
    lemma_all_sourced(rw, cw);
    text::lemma_words_of_trimmed(candidate);
    text::lemma_blank_has_no_words(candidate);
    text::lemma_blank_has_no_words(raw);
    assert(rw.len() > 0) by {
        assert(rw.to_multiset().count(cw[0]) >= cw.to_multiset().count(cw[0]));
        assert(cw.to_multiset().contains(cw[0]));
    }
    assert(text::words(raw).len() > 0);
    assert(text::words(candidate).len() > 0);
}

/// A dictation that has words is accepted as its own cleanup, and comes out word for
/// word as it is.
pub proof fn law_clean_dictation_is_accepted(raw: Seq<char>)
    requires
        comparables(text::words(raw)).len() > 0,
    ensures
        vetted(raw, raw) == Some(text::joined(text::words(raw))),
{
    law_pure_deletion_is_accepted(raw, raw);
    law_clean_text_is_preserved(raw);
}

/// A candidate that shares no word with the dictation is rejected, whatever it
/// says.
pub proof fn law_foreign_text_is_rejected(raw: Seq<char>, candidate: Seq<char>)
    requires
        forall|i: int|
            0 <= i < comparables(text::words(candidate)).len() ==> !comparables(
                text::words(raw),
            ).contains(#[trigger] comparables(text::words(candidate))[i]),
    ensures
        vetted(raw, candidate) is None,
{
    broadcast use vstd::multiset::group_multiset_properties;

    let rw = comparables(text::words(raw));
    let cw = comparables(text::words(candidate));
    text::lemma_words_of_trimmed(candidate);
    assert(rw.to_multiset().intersection_with(cw.to_multiset())
        =~= vstd::multiset::Multiset::empty()) by {
        assert forall|w: Seq<char>| #[trigger]
            rw.to_multiset().intersection_with(cw.to_multiset()).count(w) == 0 by {
            if cw.to_multiset().count(w) > 0 {
                assert(cw.contains(w));
                let i = choose|i: int| 0 <= i < cw.len() && cw[i] == w;
                assert(!rw.contains(cw[i]));
            }
        }
    }
}

/// How often the supervisor looks whether the child has gone cold.
pub const IDLE_POLL_MS: u64 = 30_000;

/// How long a child may take to load its model and report ready.
pub const READY_TIMEOUT_MS: u64 = 180_000;

/// What each character of a dictation adds to the time its cleanup may take.
pub const TIMEOUT_PER_CHAR_MS: u64 = 12;

/// The time that a cleanup may take before its dictation's length is added.
pub const DEFAULT_TIMEOUT_MS: u64 = 2_000;

/// How long an unused child is kept.
pub const DEFAULT_IDLE_MS: u64 = 1_800_000;

/// A number of milliseconds from a setting, or the default if the setting is
/// absent or no number.
pub fn env_ms(value: Option<&str>, default: u64) -> (r: u64)
    ensures
        r == config::number_or(text::opt_str(value), default),
{
    match value {
        Some(v) => match text::parse_u64(v) {
            Some(n) => n,
            None => default,
        },
        None => default,
    }
}

/// The settings of a cleaner, as the environment gives them.
pub struct CleanerSettings {
    pub python: Option<String>,
    pub script: Option<String>,
    pub timeout_ms: Option<String>,
    pub idle_ms: Option<String>,
}

/// The supervision of the cleanup model as a value.
#[verifier::ext_equal]
pub struct Supervision {
    /// There is a child that has reported ready; when it was last of use.
    pub live: Option<u64>,
    /// A child is being brought up.
    pub spawning: bool,
    pub python: Seq<char>,
    pub script: Seq<char>,
    pub timeout_ms: u64,
    pub idle_ms: u64,
}

impl Supervision {
    /// No child is there and none is on its way.
    pub open spec fn wants_child(self) -> bool {
        self.live is None && !self.spawning
    }

    /// Asked for a child.
    pub open spec fn warmed(self) -> Supervision {
        Supervision { spawning: self.live is None || self.spawning, ..self }
    }

    /// The attempt to bring up a child is over; `up` says how it ended.
    pub open spec fn spawned(self, up: bool, now_ms: u64) -> Supervision {
        Supervision {
            live: if up {
                Some(now_ms)
            } else {
                self.live
            },
            spawning: false,
            ..self
        }
    }

    /// A request is over; `answered` says whether the child answered it.
    pub open spec fn replied(self, answered: bool, now_ms: u64) -> Supervision {
        Supervision {
            live: if answered && self.live is Some {
                Some(now_ms)
            } else {
                None
            },
            ..self
        }
    }

    /// The child has not been used for as long as an unused child is kept.
    pub open spec fn cold(self, now_ms: u64) -> bool {
        match self.live {
            Some(last) => now_ms - last >= self.idle_ms || self.idle_ms == 0,
            None => false,
        }
    }

    /// A child that has gone cold is dropped.
    pub open spec fn polled(self, now_ms: u64) -> Supervision {
        Supervision {
            live: if self.cold(now_ms) {
                None
            } else {
                self.live
            },
            ..self
        }
    }
}

/// Whether the first line of a child reports ready.
pub open spec fn reports_ready(first_line: Option<Seq<char>>) -> bool {
    first_line is Some && text::occurs_in("\"ready\""@, first_line->0)
}

/// One request to the child: the line to send, and how long to wait for a line.
pub struct CleanRequest {
    pub line: String,
    pub budget_ms: u128,
}

/// What a request led to.
pub enum Reply {
    /// The line could not be sent.
    WriteFailed,
    /// No line came in time.
    TimedOut,
    /// The child is gone.
    Exited,
    /// The child answered.
    Line(String),
}

/// What a reply means.
pub struct CleanOutcome {
    /// The vetted text, if there is one; without it the dictation is kept.
    pub cleaned: Option<String>,
    /// The child is to be killed. After a failure it is, since a late answer would
    /// be taken for that of the next request.
    pub drop_child: bool,
}

/// The line that asks for the cleanup of a dictation.
pub open spec fn request_line(raw: Seq<char>) -> Seq<char> {
    json::object_text(map!["text"@ => json::Field::Text(raw)])
}

/// How long a cleanup may take: a base, and more for each character.
pub open spec fn clean_budget(timeout_ms: u64, chars: nat) -> nat {
    timeout_ms as nat + TIMEOUT_PER_CHAR_MS as nat * (chars % 0x1_0000_0000)
}

/// What an answer to a request for `raw` is worth, by the text it holds.
pub open spec fn answered(raw: Seq<char>, candidate: Option<Seq<char>>) -> Option<Seq<char>> {
    match candidate {
        Some(c) => vetted(raw, c),
        None => None,
    }
}

/// What an answer to a request for `raw` is worth, by the text it holds.
pub fn vet_answer(raw: &str, candidate: Option<String>) -> (r: Option<String>)
    ensures
        text::opt_text(r) == answered(raw@, text::opt_text(candidate)),
{
    match candidate {
        Some(c) => vet(raw, c.as_str()),
        None => None,
    }
}

/// Supervises the child process that cleans dictations.
pub struct Cleaner {
    live: Option<u64>,
    spawning: bool,
    python: String,
    script: String,
    timeout_ms: u64,
    idle_ms: u64,
}

impl View for Cleaner {
    type V = Supervision;

    closed spec fn view(&self) -> Supervision {
        Supervision {
            live: self.live,
            spawning: self.spawning,
            python: self.python@,
            script: self.script@,
            timeout_ms: self.timeout_ms,
            idle_ms: self.idle_ms,
        }
    }
}

impl Cleaner {
    /// A cleaner without a child. `default_script` is run where no other script is
    /// set.
    pub fn new(settings: CleanerSettings, default_script: String) -> (r: Self)
        ensures
            r@ == (Supervision {
                live: None,
                spawning: false,
                python: match settings.python {
                    Some(p) => p@,
                    None => "python3"@,
                },
                script: match settings.script {
                    Some(s) => s@,
                    None => default_script@,
                },
                timeout_ms: config::number_or(text::opt_text(settings.timeout_ms), DEFAULT_TIMEOUT_MS),
                idle_ms: config::number_or(text::opt_text(settings.idle_ms), DEFAULT_IDLE_MS),
            }),
    {
        let python = match settings.python {
            Some(p) => p,
            None => "python3".to_owned(),
        };
        let script = match settings.script {
            Some(s) => s,
            None => default_script,
        };
        let timeout_ms = match &settings.timeout_ms {
            Some(v) => env_ms(Some(v.as_str()), DEFAULT_TIMEOUT_MS),
            None => DEFAULT_TIMEOUT_MS,
        };
        let idle_ms = match &settings.idle_ms {
            Some(v) => env_ms(Some(v.as_str()), DEFAULT_IDLE_MS),
            None => DEFAULT_IDLE_MS,
        };
        Cleaner { live: None, spawning: false, python, script, timeout_ms, idle_ms }
    }

    /// The program that the child runs.
    pub fn python(&self) -> (r: &str)
        ensures
            r@ == self@.python,
    {
        self.python.as_str()
    }

    /// The script that the child runs.
    pub fn script(&self) -> (r: &str)
        ensures
            r@ == self@.script,
    {
        self.script.as_str()
    }

    /// Says whether a child is to be brought up, in the background: none is there
    /// and none is on its way.
    pub fn warm(&mut self) -> (spawn: bool)
        ensures
            spawn == old(self)@.wants_child(),
            final(self)@ == old(self)@.warmed(),
    {
        if self.live.is_some() || self.spawning {
            return false;
        }
        self.spawning = true;
        true
    }

    /// The attempt to bring up a child is over. `first_line` is the first line it
    /// sent within the time it had, if any; the child is of use only if that line
    /// reports ready.
    pub fn on_spawned(&mut self, first_line: Option<&str>, now_ms: u64) -> (up: bool)
        ensures
            up == reports_ready(text::opt_str(first_line)),
            final(self)@ == old(self)@.spawned(up, now_ms),
    {
        let up = match first_line {
            Some(line) => text::contains_text(line, "\"ready\""),
            None => false,
        };
        if up {
            self.live = Some(now_ms);
        }
        self.spawning = false;
        up
    }

    /// The request that cleans a dictation, unless there is nothing to clean or no
    /// child to clean it.
    pub fn request(&self, raw: &str) -> (r: Option<CleanRequest>)
        ensures
            match r {
                Some(request) => {
                    &&& !text::is_blank(raw@)
                    &&& self@.live is Some
                    &&& request.line@ == request_line(raw@)
                    &&& request.budget_ms == clean_budget(self@.timeout_ms, raw@.len())
                    &&& !request.line@.contains('\n')
                    &&& json::text_at(request.line@, "text"@) == Some(raw@)
                },
                None => text::is_blank(raw@) || self@.live is None,
            },
    {
        if text::blank(raw) || self.live.is_none() {
            return None;
        }
        let mut m = json::Object::new();
        m.put("text", FieldValue::Text(raw.to_owned()));
        let ghost fields = map!["text"@ => json::Field::Text(raw@)];
        assert(m@ =~= fields);
        let line = m.render();
        assert(json::text_at(line@, "text"@) == json::field_text(fields, "text"@));
        let chars: usize = raw.unicode_len();
        let counted: u64 = (chars as u64) % 0x1_0000_0000;
        let budget_ms: u128 = (self.timeout_ms as u128) + 12u128 * (counted as u128);
        Some(CleanRequest { line, budget_ms })
    }

    /// What a reply to the request for `raw` means. After a failure the child goes;
    /// [`Cleaner::warm`] brings it back.
    pub fn on_reply(&mut self, raw: &str, reply: Reply, now_ms: u64) -> (r: CleanOutcome)
        ensures
            r.drop_child == !(reply is Line),
            text::opt_text(r.cleaned) == match reply {
                Reply::Line(line) => answered(raw@, json::text_at(line@, "text"@)),
                _ => None,
            },
            final(self)@ == old(self)@.replied(reply is Line, now_ms),
    {
        match reply {
            Reply::Line(line) => {
                if self.live.is_some() {
                    self.live = Some(now_ms);
                }
                let candidate = json::read_text(line.as_str(), "text");
                CleanOutcome { cleaned: vet_answer(raw, candidate), drop_child: false }
            },
            _ => {
                self.live = None;
                CleanOutcome { cleaned: None, drop_child: true }
            },
        }
    }

    /// Says whether the child is to be killed because it has not been used for as
    /// long as an unused child is kept.
    pub fn on_idle_poll(&mut self, now_ms: u64) -> (cold: bool)
        ensures
            cold == old(self)@.cold(now_ms),
            final(self)@ == old(self)@.polled(now_ms),
    {
        let cold = match self.live {
            Some(last) => {
                let unused: u64 = if now_ms >= last {
                    now_ms - last
                } else {
                    0
                };
                unused >= self.idle_ms
            },
            None => false,
        };
        if cold {
            self.live = None;
        }
        cold
    }
}

/// The fields of a line of the cleanup log.
pub open spec fn log_fields(
    ts: u64,
    raw: Seq<char>,
    cleaned: Option<Seq<char>>,
) -> Map<Seq<char>, json::Field> {
    map![
        "ts"@ => json::Field::Number(ts),
        "raw"@ => json::Field::Text(raw),
        "cleaned"@ => match cleaned {
            Some(t) => json::Field::Text(t),
            None => json::Field::Null,
        },
    ]
}

/// The line that records a dictation and what became of it, the cleaned side null
/// if it was rejected.
pub fn log_pair(ts: u64, raw: &str, cleaned: Option<&str>) -> (r: String)
    ensures
        r@ == json::object_text(log_fields(ts, raw@, text::opt_str(cleaned))).push('\n'),
        !r@.drop_last().contains('\n'),
        json::text_at(r@.drop_last(), "raw"@) == Some(raw@),
        json::text_at(r@.drop_last(), "cleaned"@) == text::opt_str(cleaned),
{
    let mut m = json::Object::new();
    m.put("ts", FieldValue::Number(ts));
    m.put("raw", FieldValue::Text(raw.to_owned()));
    let value = match cleaned {
        Some(t) => FieldValue::Text(t.to_owned()),
        None => FieldValue::Null,
    };
    m.put("cleaned", value);
    let ghost fields = log_fields(ts, raw@, text::opt_str(cleaned));
    proof {
        reveal_strlit("ts");
        reveal_strlit("raw");
        reveal_strlit("cleaned");
        assert("raw"@ != "ts"@ && "cleaned"@ != "ts"@ && "raw"@ != "cleaned"@) by {
            assert("raw"@.len() == 3 && "ts"@.len() == 2 && "cleaned"@.len() == 7);
        }
    }
    assert(m@ =~= fields);
    let mut line = m.render();
    let ghost whole = line@;
    assert(json::text_at(whole, "raw"@) == json::field_text(fields, "raw"@));
    assert(json::text_at(whole, "cleaned"@) == json::field_text(fields, "cleaned"@));
    line.push('\n');
    assert(line@.drop_last() =~= whole);
    line
}

/// However often a child is asked for, it is brought up once: until the attempt is
/// over, and after it as long as the child is there, no other is wanted.
pub proof fn law_one_child_at_a_time(s: Supervision, now_ms: u64)
    ensures
        !s.warmed().wants_child(),
        s.warmed().warmed() == s.warmed(),
        !s.warmed().spawned(true, now_ms).wants_child(),
{
}

/// A child that fails to answer is gone, and the next time one is asked for it is
/// brought up again, unless that is already under way.
pub proof fn law_failed_child_is_replaced(s: Supervision, now_ms: u64)
    ensures
        s.replied(false, now_ms).live is None,
        !s.spawning ==> s.replied(false, now_ms).wants_child(),
{
}

/// A child that has just been of use is kept for the whole time that an unused
/// child is kept.
pub proof fn law_child_in_use_is_kept(s: Supervision, used_ms: u64, now_ms: u64)
    requires
        s.live is Some,
        s.idle_ms > 0,
        now_ms - used_ms < s.idle_ms,
    ensures
        s.replied(true, used_ms).polled(now_ms).live == Some(used_ms),
{
}

/// What a child answers to a request counts only as far as the guards accept it:
/// an answer without a text changes nothing, and a text that comes through is drawn
/// from the dictation.
pub proof fn law_answers_are_vetted(raw: Seq<char>, line: Seq<char>)
    ensures
        json::text_at(line, "text"@) is None ==> answered(
            raw,
            json::text_at(line, "text"@),
        ) is None,
        match answered(raw, json::text_at(line, "text"@)) {
            Some(t) => {
                let o = overlap_of(comparables(text::words(raw)), comparables(text::words(t)));
                overlap_enough(o.0, o.1)
            },
            None => true,
        },
{
    if answered(raw, json::text_at(line, "text"@)) is Some {
        law_accepted_text_is_drawn_from_the_dictation(raw, json::text_at(line, "text"@)->0);
    }
}

/// What vetting accepts is at least nine tenths dictation, however long it is: of the
/// comparable words of the text that comes out, a repeated word needing as many sources
/// as it has occurrences, at least ninety in a hundred are words of the dictation.
pub proof fn law_accepted_text_is_nine_tenths_dictation(
    raw: &str,
    candidate: &str,
    r: Option<String>,
    text: &str,
    raw_words: Vec<String>,
    out_words: Vec<String>,
)
    requires
        call_ensures(vet, (raw, candidate), r),
        r is Some,
        text@ == r->0@,
        call_ensures(norm_words, (raw,), raw_words),
        call_ensures(norm_words, (text,), out_words),
    ensures
        out_words@.len() > 0,
        90 * out_words@.len() <= 100 * text::texts(raw_words@).to_multiset().intersection_with(
            text::texts(out_words@).to_multiset(),
        ).len(),
{
    law_casing_repair_keeps_overlap(raw@, text::strip(Strip::WhiteSpace, candidate@));
    assert(text::texts(out_words@).len() == out_words@.len());
}

/// A candidate is accepted exactly where its words are nine tenths dictation and its
/// trimmed length is between half and thirteen tenths of the dictation's.
pub proof fn law_acceptance_is_decided_by_words_and_length(
    raw: &str,
    candidate: &str,
    r: Option<String>,
    raw_words: Vec<String>,
    words: Vec<String>,
    raw_trimmed: String,
    trimmed: String,
)
    requires
        call_ensures(vet, (raw, candidate), r),
        call_ensures(norm_words, (raw,), raw_words),
        call_ensures(norm_words, (candidate,), words),
        call_ensures(text::strip_text, (Strip::WhiteSpace, raw), raw_trimmed),
        call_ensures(text::strip_text, (Strip::WhiteSpace, candidate), trimmed),
    ensures
        r is Some <==> {
            &&& words@.len() > 0
            &&& 90 * words@.len() <= 100 * text::texts(
                raw_words@,
            ).to_multiset().intersection_with(text::texts(words@).to_multiset()).len()
            &&& 50 * raw_trimmed@.len() <= 100 * trimmed@.len()
            &&& 100 * trimmed@.len() <= 130 * raw_trimmed@.len()
        },
{
    text::lemma_words_of_trimmed(candidate@);
    text::lemma_blank_has_no_words(candidate@);
    text::lemma_strip(Strip::WhiteSpace, candidate@);
    text::lemma_strip(Strip::WhiteSpace, raw@);
    text::lemma_blank_has_no_words(raw@);
    assert(text::texts(words@).len() == words@.len());
    assert(text::texts(raw_words@).len() == raw_words@.len());
    let c = text::strip(Strip::WhiteSpace, candidate@);
    assert(text::words(c) == text::words(candidate@));
    text::lemma_blank_has_no_words(c);
    if c.len() == 0 {
        assert(text::words(c) =~= seq![]);
    }
}

/// The two guards by themselves, on every count of words and every length.
pub proof fn law_guards_are_proportional(
    o: Overlap,
    enough: bool,
    raw_len: usize,
    len: usize,
    plausible: bool,
)
    requires
        call_ensures(enough_overlap, (o,), enough),
        call_ensures(plausible_length, (raw_len, len), plausible),
    ensures
        enough <==> o.total > 0 && 90 * o.total <= 100 * o.hits,
        plausible <==> 50 * raw_len <= 100 * len && 100 * len <= 130 * raw_len,
{
}

/// How many of the words are said alike: not all punctuation, and the same in their
/// comparable form.
pub open spec fn times_said(ws: Seq<Seq<char>>, key: Seq<char>) -> int {
    ws.filter(|w: Seq<char>| word_core(w).len() > 0 && comparable(w) == key).len() as int
}

proof fn lemma_times_said(ws: Seq<Seq<char>>, key: Seq<char>)
    ensures
        times_said(ws, key) == capitals(ws, key).len(),
    decreases ws.len(),
{
    reveal(Seq::filter);
    if ws.len() > 0 {
        lemma_times_said(ws.drop_last(), key);
    }
}

/// Each occurrence is one of the words.
proof fn lemma_occurrence_is_a_word(ws: Seq<Seq<char>>, key: Seq<char>, m: int) -> (j: int)
    requires
        0 <= m < capitals(ws, key).len(),
    ensures
        0 <= j < ws.len(),
        word_core(ws[j]).len() > 0,
        comparable(ws[j]) == key,
        capitals(ws.take(j), key).len() == m,
        capitals(ws, key)[m] == has_upper(word_core(ws[j])),
    decreases ws.len(),
{
    let front = ws.drop_last();
    if m < capitals(front, key).len() {
        let j = lemma_occurrence_is_a_word(front, key, m);
        assert(front.take(j) =~= ws.take(j));
        assert(front[j] == ws[j]);
        j
    } else {
        assert(ws.take(ws.len() - 1) =~= front);
        ws.len() - 1
    }
}

/// The first of the capitalized words said alike is the spelling.
proof fn lemma_spelling_is_the_first(ws: Seq<Seq<char>>, key: Seq<char>, f: int)
    requires
        0 <= f < ws.len(),
        comparable(ws[f]) == key,
        has_upper(word_core(ws[f])),
        forall|j: int|
            0 <= j < f && comparable(#[trigger] ws[j]) == key ==> !has_upper(word_core(ws[j])),
    ensures
        spelling(ws, key) == Some(word_core(ws[f])),
    decreases ws.len(),
{
    let front = ws.drop_last();
    if f < front.len() {
        assert(front[f] == ws[f]);
        assert forall|j: int| 0 <= j < f && comparable(#[trigger] front[j]) == key implies !has_upper(
            word_core(front[j]),
        ) by {
            assert(front[j] == ws[j]);
        }
        lemma_spelling_is_the_first(front, key, f);
    } else {
        if spelling(front, key) is Some {
            lemma_spelling_source(front, key);
            let j = choose|j: int|
                0 <= j < front.len() && comparable(#[trigger] front[j]) == key && has_upper(
                    word_core(front[j]),
                );
            assert(front[j] == ws[j]);
            assert(false);
        }
    }
}

proof fn lemma_spelling_source(ws: Seq<Seq<char>>, key: Seq<char>)
    requires
        spelling(ws, key) is Some,
    ensures
        exists|j: int|
            0 <= j < ws.len() && comparable(#[trigger] ws[j]) == key && has_upper(
                word_core(ws[j]),
            ),
{
    lemma_spelling(ws, key);
    let i = choose|i: int|
        0 <= i < ws.len() && spelling(ws, key) == Some(word_core(#[trigger] ws[i]));
    assert(comparable(ws[i]) == key);
}

/// A capital that may have been dropped comes back. Where the candidate has a word
/// without a capital that may stem from word `j` of the dictation, which has one, the
/// word gets the first capitalized spelling of the dictation, word `f`, between the
/// punctuation that it had.
///
/// Deletion keeps the order, so of a word said `there` times in the dictation and `here`
/// times in the candidate, the one with `k` alike before it stems from one with `k` to
/// `k + there - here` before it; of a word said more often than in the dictation, any may
/// have lost a capital.
pub proof fn law_lost_capitals_come_back(
    raw: &str,
    out: &str,
    r: String,
    read: &str,
    rw: Vec<String>,
    ow: Vec<String>,
    fw: Vec<String>,
    i: int,
    j: int,
    f: int,
    pre: Seq<char>,
    post: Seq<char>,
)
    requires
        call_ensures(restore_casing, (raw, out), r),
        read@ == r@,
        call_ensures(text::split_words, (raw,), rw),
        call_ensures(text::split_words, (out,), ow),
        call_ensures(text::split_words, (read,), fw),
        0 <= i < ow@.len(),
        0 <= f <= j < rw@.len(),
        ({
            let w = ow@[i]@;
            let core_text = word_core(w);
            let key = text::lowercase(core_text);
            let here = times_said(text::texts(ow@), key);
            let there = times_said(text::texts(rw@), key);
            let k = times_said(text::texts(ow@).take(i), key);
            let m = times_said(text::texts(rw@).take(j), key);
            &&& core_text.len() > 0
            &&& forall|c: int|
                0 <= c < core_text.len() ==> !text::is_upper(#[trigger] core_text[c])
            &&& w == pre + core_text + post
            &&& forall|c: int| 0 <= c < pre.len() ==> !text::is_alphanumeric(#[trigger] pre[c])
            &&& text::lowercase(word_core(rw@[j]@)) == key
            &&& exists|c: int|
                0 <= c < word_core(rw@[j]@).len() && text::is_upper(
                    #[trigger] word_core(rw@[j]@)[c],
                )
            &&& here > there || k <= m <= k + there - here
            &&& text::lowercase(word_core(rw@[f]@)) == key
            &&& exists|c: int|
                0 <= c < word_core(rw@[f]@).len() && text::is_upper(
                    #[trigger] word_core(rw@[f]@)[c],
                )
            &&& forall|g: int|
                0 <= g < f && text::lowercase(word_core(#[trigger] rw@[g]@)) == key ==> forall|
                    c: int,
                |
                    0 <= c < word_core(rw@[g]@).len() ==> !text::is_upper(
                        #[trigger] word_core(rw@[g]@)[c],
                    )
        }),
    ensures
        fw@.len() == ow@.len(),
        fw@[i]@ == pre + word_core(rw@[f]@) + post,
{
    let raws = text::texts(rw@);
    let outs = text::texts(ow@);
    let w = outs[i];
    let key = comparable(w);
    text::lemma_words(raw@);
    text::lemma_words(out@);
    lemma_recased_words(raws, outs);
    text::lemma_words_of_joined(recased_words(raws, outs));
    assert(text::texts(fw@)[i] == recased_words(raws, outs)[i]);
    assert(raws[j] == rw@[j]@ && raws[f] == rw@[f]@);
    assert forall|g: int| 0 <= g < f && comparable(#[trigger] raws[g]) == key implies !has_upper(
        word_core(raws[g]),
    ) by {
        assert(raws[g] == rw@[g]@);
    }
    lemma_spelling_is_the_first(raws, key, f);
    lemma_times_said(raws, key);
    lemma_times_said(outs, key);
    lemma_times_said(outs.take(i), key);
    lemma_times_said(raws.take(j), key);
    lemma_capitals(raws, key, j);
    let flags = capitals(raws, key);
    let m = capitals(raws.take(j), key).len() as int;
    assert(flags[m]);
    assert(lost_capital(raws, outs, i));
    assert(is_plain(w));
    let kind = Strip::NonAlphanumeric;
    text::lemma_strip(kind, w);
    text::lemma_lead(kind, w);
    text::lemma_trail(kind, w);
    let a = text::lead(kind, w) as int;
    let c = word_core(w);
    assert(pre.len() == a) by {
        if pre.len() < a {
            assert(text::stripped_char(kind, w[pre.len() as int]));
            assert(w[pre.len() as int] == c[0]);
            assert(c[0] == w[a]);
        }
        if pre.len() > a {
            assert(w[a] == pre[a]);
        }
    }
    assert(w.subrange(0, a) =~= pre);
    assert(w.subrange(a + c.len(), w.len() as int) =~= post);
}

/// What lost no capital stays as it is: a word that has a capital or is all punctuation,
/// one that the dictation never capitalizes, and one that can only stem from occurrences
/// without a capital.
pub proof fn law_other_words_stay(
    raw: &str,
    out: &str,
    r: String,
    read: &str,
    rw: Vec<String>,
    ow: Vec<String>,
    fw: Vec<String>,
    i: int,
)
    requires
        call_ensures(restore_casing, (raw, out), r),
        read@ == r@,
        call_ensures(text::split_words, (raw,), rw),
        call_ensures(text::split_words, (out,), ow),
        call_ensures(text::split_words, (read,), fw),
        0 <= i < ow@.len(),
        ({
            let core_text = word_core(ow@[i]@);
            let key = text::lowercase(core_text);
            let here = times_said(text::texts(ow@), key);
            let there = times_said(text::texts(rw@), key);
            let k = times_said(text::texts(ow@).take(i), key);
            ||| core_text.len() == 0
            ||| exists|c: int|
                0 <= c < core_text.len() && text::is_upper(#[trigger] core_text[c])
            ||| forall|j: int, c: int|
                0 <= j < rw@.len() && text::lowercase(word_core(rw@[j]@)) == key && 0 <= c
                    < word_core(rw@[j]@).len() ==> !text::is_upper(
                    #[trigger] word_core(rw@[j]@)[c],
                )
            ||| here <= there && forall|j: int, c: int|
                0 <= j < rw@.len() && text::lowercase(word_core(rw@[j]@)) == key && k
                    <= times_said(text::texts(rw@).take(j), key) <= k + there - here && 0 <= c
                    < word_core(rw@[j]@).len() ==> !text::is_upper(
                    #[trigger] word_core(rw@[j]@)[c],
                )
        }),
    ensures
        fw@.len() == ow@.len(),
        fw@[i]@ == ow@[i]@,
{
    let raws = text::texts(rw@);
    let outs = text::texts(ow@);
    let w = outs[i];
    let key = comparable(w);
    text::lemma_words(raw@);
    text::lemma_words(out@);
    lemma_recased_words(raws, outs);
    text::lemma_words_of_joined(recased_words(raws, outs));
    assert(text::texts(fw@)[i] == recased_words(raws, outs)[i]);
    if is_plain(w) && spelling(raws, key) is Some {
        lemma_spelling_source(raws, key);
        let s = choose|j: int|
            0 <= j < raws.len() && comparable(#[trigger] raws[j]) == key && has_upper(
                word_core(raws[j]),
            );
        assert(raws[s] == rw@[s]@);
        lemma_times_said(raws, key);
        lemma_times_said(outs, key);
        lemma_times_said(outs.take(i), key);
        lemma_capitals(outs, key, i);
        if lost_capital(raws, outs, i) && times_said(outs, key) <= times_said(raws, key) {
            let flags = capitals(raws, key);
            let k = capitals(outs.take(i), key).len() as int;
            let spare = flags.len() - capitals(outs, key).len();
            let m = choose|m: int| k <= m <= k + spare && #[trigger] flags[m];
            let j = lemma_occurrence_is_a_word(raws, key, m);
            lemma_times_said(raws.take(j), key);
            assert(raws[j] == rw@[j]@);
            assert(has_upper(word_core(rw@[j]@)));
        }
    }
}

proof fn lemma_comparables_concat(a: Seq<Seq<char>>, b: Seq<Seq<char>>)
    ensures
        comparables(a + b) == comparables(a) + comparables(b),
    decreases b.len(),
{
    if b.len() == 0 {
        assert(a + b =~= a);
        assert(comparables(a) + comparables(b) =~= comparables(a));
    } else {
        assert((a + b).drop_last() =~= a + b.drop_last());
        lemma_comparables_concat(a, b.drop_last());
        assert(comparables(a + b) =~= comparables(a) + comparables(b));
    }
}

/// Texts with white space between them have their comparable words one after the other.
pub proof fn law_comparable_words_are_read_in_order(
    s: &str,
    c: char,
    t: &str,
    whole: &str,
    first: Vec<String>,
    second: Vec<String>,
    all: Vec<String>,
)
    requires
        text::is_white_space(c),
        whole@ == s@.push(c) + t@,
        call_ensures(norm_words, (s,), first),
        call_ensures(norm_words, (t,), second),
        call_ensures(norm_words, (whole,), all),
    ensures
        text::texts(all@) == text::texts(first@) + text::texts(second@),
{
    assert(s@.push(c).drop_last() =~= s@);
    text::lemma_words_concat(s@.push(c), t@);
    lemma_comparables_concat(text::words(s@), text::words(t@));
}

/// A word between punctuation is compared without it and in lower case, and punctuation
/// alone is no word to compare.
pub proof fn law_punctuation_and_case_do_not_count(
    s: &str,
    pre: Seq<char>,
    inner: Seq<char>,
    post: Seq<char>,
    r: Vec<String>,
)
    requires
        s@ == pre + inner + post,
        forall|i: int| 0 <= i < s@.len() ==> !text::is_white_space(#[trigger] s@[i]),
        forall|i: int| 0 <= i < pre.len() ==> !text::is_alphanumeric(#[trigger] pre[i]),
        forall|i: int| 0 <= i < post.len() ==> !text::is_alphanumeric(#[trigger] post[i]),
        inner.len() > 0 ==> text::is_alphanumeric(inner.first()) && text::is_alphanumeric(
            inner.last(),
        ),
        call_ensures(norm_words, (s,), r),
    ensures
        inner.len() == 0 ==> r@.len() == 0,
        text::lowercase(inner).len() == 0 ==> r@.len() == 0,
        text::lowercase(inner).len() > 0 ==> text::texts(r@) == seq![text::lowercase(inner)],
{
    let kind = Strip::NonAlphanumeric;
    reveal_with_fuel(comparables, 2);
    assert(text::texts(r@).len() == r@.len());
    if s@.len() == 0 {
        text::law_words_are_split_at_white_space(s@, ' ', s@, seq!['a']);
        assert(s@ =~= Seq::<char>::empty());
        assert(inner =~= Seq::<char>::empty());
        assert(text::lowercase(inner) =~= Seq::<char>::empty());
    } else {
        text::law_words_are_split_at_white_space(s@, ' ', s@, s@);
        assert(seq![s@].drop_last() =~= Seq::<Seq<char>>::empty());
        assert(seq![s@].last() == s@);
        text::lemma_strip(kind, s@);
        if inner.len() == 0 {
            assert forall|i: int| 0 <= i < s@.len() implies text::stripped_char(
                kind,
                #[trigger] s@[i],
            ) by {
                if i < pre.len() {
                    assert(s@[i] == pre[i]);
                } else {
                    assert(s@[i] == post[i - pre.len()]);
                }
            }
            assert(word_core(s@) =~= Seq::<char>::empty());
            assert(text::lowercase(word_core(s@)) =~= Seq::<char>::empty());
            assert(text::lowercase(inner) =~= Seq::<char>::empty());
        } else {
            let a = pre.len();
            let b = post.len();
            assert forall|i: int| 0 <= i < a implies text::stripped_char(
                kind,
                #[trigger] s@[i],
            ) by {
                assert(s@[i] == pre[i]);
            }
            assert forall|i: int| s@.len() - b <= i < s@.len() implies text::stripped_char(
                kind,
                #[trigger] s@[i],
            ) by {
                assert(s@[i] == post[i - (s@.len() - b)]);
            }
            assert(s@[a as int] == inner.first());
            assert(s@[s@.len() - b - 1] == inner.last());
            text::lemma_strip_counts(kind, s@, a, b);
            assert(word_core(s@) =~= inner);
            assert(comparables(seq![s@].drop_last()) =~= seq![]);
            if text::lowercase(inner).len() > 0 {
                assert(comparables(seq![s@]) =~= seq![text::lowercase(inner)]);
            }
        }
    }
}

/// The overlap counts the comparable words of a candidate, and those that it shares with
/// the dictation when repeated words need repeated sources.
pub proof fn law_overlap_counts_shared_words(
    raw: &str,
    out: &str,
    r: Overlap,
    rw: Vec<String>,
    ow: Vec<String>,
    hits: usize,
)
    requires
        call_ensures(overlap, (raw, out), r),
        call_ensures(norm_words, (raw,), rw),
        call_ensures(norm_words, (out,), ow),
        call_ensures(count_sourced, (&rw, &ow), hits),
    ensures
        r.total == ow@.len(),
        r.hits == hits,
        hits == text::texts(rw@).to_multiset().intersection_with(
            text::texts(ow@).to_multiset(),
        ).len(),
{
    assert(text::texts(ow@).len() == ow@.len());
}

/// One more word is a hit exactly if the dictation has it more often than the words so
/// far.
pub proof fn law_repeated_words_need_repeated_sources(
    raw: Vec<String>,
    out: Vec<String>,
    longer: Vec<String>,
    w: String,
    hits: usize,
    more: usize,
)
    requires
        longer@ == out@.push(w),
        call_ensures(count_sourced, (&raw, &out), hits),
        call_ensures(count_sourced, (&raw, &longer), more),
    ensures
        ({
            let had = text::texts(out@).to_multiset().count(w@);
            let there = text::texts(raw@).to_multiset().count(w@);
            more == if had < there {
                hits + 1
            } else {
                hits as int
            }
        }),
{
    assert(text::texts(longer@) =~= text::texts(out@).push(w@));
    lemma_sourced_push(text::texts(raw@), text::texts(out@), w@);
}

/// A setting that is a number is that number; one that is absent or no number is the
/// default.
pub proof fn law_settings_fall_back(v: &str, n: Option<u64>, default: u64, set: u64, unset: u64)
    requires
        call_ensures(text::parse_u64, (v,), n),
        call_ensures(env_ms, (Some(v), default), set),
        call_ensures(env_ms, (None::<&str>, default), unset),
    ensures
        unset == default,
        n is Some ==> set == n->0,
        n is None ==> set == default,
{
}

/// A cleaner starts without a child. Unless it is set otherwise, it runs `python3` on the
/// default script, gives a cleanup two seconds and keeps an unused child half an hour.
pub proof fn law_cleaner_starts_without_a_child(
    settings: CleanerSettings,
    default_script: String,
    r: Cleaner,
)
    requires
        call_ensures(Cleaner::new, (settings, default_script), r),
    ensures
        r@.live is None && !r@.spawning,
        settings.python is None ==> r@.python == "python3"@,
        settings.python is Some ==> r@.python == settings.python->0@,
        settings.script is None ==> r@.script == default_script@,
        settings.script is Some ==> r@.script == settings.script->0@,
        settings.timeout_ms is None ==> r@.timeout_ms == 2000,
        settings.idle_ms is None ==> r@.idle_ms == 1_800_000,
        settings.timeout_ms is Some ==> r@.timeout_ms == match text::parsed_u64(
            settings.timeout_ms->0@,
        ) {
            Some(n) => n,
            None => 2000,
        },
        settings.idle_ms is Some ==> r@.idle_ms == match text::parsed_u64(settings.idle_ms->0@) {
            Some(n) => n,
            None => 1_800_000,
        },
{
}

/// Asking for a child brings one up exactly if none is there and none is on its way, and
/// from then on one is there or on its way.
pub proof fn law_asking_brings_up_what_is_missing(k: &mut Cleaner, spawn: bool)
    requires
        call_ensures(Cleaner::warm, (k,), spawn),
    ensures
        spawn <==> old(k)@.live is None && !old(k)@.spawning,
        spawn ==> final(k)@.spawning,
        final(k)@.live is Some || final(k)@.spawning,
        final(k)@.live == old(k)@.live,
        !spawn ==> final(k)@.spawning == old(k)@.spawning,
        final(k)@.python == old(k)@.python,
        final(k)@.script == old(k)@.script,
        final(k)@.timeout_ms == old(k)@.timeout_ms,
        final(k)@.idle_ms == old(k)@.idle_ms,
{
}

/// A child is of use, from that moment, exactly if its first line holds the word ready in
/// quotes; either way the attempt is over.
pub proof fn law_child_is_up_when_it_says_so(
    k: &mut Cleaner,
    line: Option<&str>,
    now_ms: u64,
    up: bool,
)
    requires
        call_ensures(Cleaner::on_spawned, (k, line, now_ms), up),
    ensures
        up <==> line is Some && exists|a: Seq<char>, b: Seq<char>|
            line->0@ == #[trigger] (a + "\"ready\""@ + b),
        !final(k)@.spawning,
        up ==> final(k)@.live == Some(now_ms),
        !up ==> final(k)@.live == old(k)@.live,
        final(k)@.python == old(k)@.python,
        final(k)@.script == old(k)@.script,
        final(k)@.timeout_ms == old(k)@.timeout_ms,
        final(k)@.idle_ms == old(k)@.idle_ms,
{
    let part = "\"ready\""@;
    if up {
        let s = line->0@;
        let i = choose|i: int|
            0 <= i && i + part.len() <= s.len() && #[trigger] s.subrange(i, i + part.len()) == part;
        let a = s.subrange(0, i);
        let b = s.subrange(i + part.len(), s.len() as int);
        assert(s =~= a + part + b);
    }
    if line is Some && exists|a: Seq<char>, b: Seq<char>| line->0@ == #[trigger] (a + part + b) {
        let s = line->0@;
        let (a, b) = choose|a: Seq<char>, b: Seq<char>| line->0@ == #[trigger] (a + part + b);
        assert(s.subrange(a.len() as int, (a.len() + part.len()) as int) =~= part);
    }
}

/// A dictation with words is sent to a child that is there: one line, from which the
/// dictation can be read back, with twelve milliseconds per character on top of the base
/// time, as far as thirty-two bits count the characters. Nothing else is sent.
pub proof fn law_dictations_are_sent_whole(k: &Cleaner, raw: &str, r: Option<CleanRequest>)
    requires
        call_ensures(Cleaner::request, (k, raw), r),
    ensures
        r is Some <==> k@.live is Some && exists|i: int|
            0 <= i < raw@.len() && !text::is_white_space(#[trigger] raw@[i]),
        r is Some ==> r->0.line@ == json::object_text(map!["text"@ => json::Field::Text(raw@)]),
        r is Some ==> json::text_at(r->0.line@, "text"@) == Some(raw@),
        r is Some ==> !r->0.line@.contains('\n'),
        r is Some && raw@.len() <= u32::MAX ==> r->0.budget_ms == k@.timeout_ms + 12 * raw@.len(),
        r is Some ==> r->0.budget_ms == k@.timeout_ms + 12 * (raw@.len() % 0x1_0000_0000),
{
}

/// An answer keeps the child and counts as far as vetting accepts the text in it; any
/// failure drops the child, and with it whatever it may still say.
pub proof fn law_only_answers_count(
    k: &mut Cleaner,
    raw: &str,
    reply: Reply,
    now_ms: u64,
    r: CleanOutcome,
    candidate: &str,
    accepted: Option<String>,
)
    requires
        call_ensures(Cleaner::on_reply, (k, raw, reply, now_ms), r),
        call_ensures(vet, (raw, candidate), accepted),
    ensures
        r.drop_child <==> !(reply is Line),
        !(reply is Line) ==> r.cleaned is None && final(k)@.live is None,
        reply is Line && old(k)@.live is Some ==> final(k)@.live == Some(now_ms),
        reply is Line && old(k)@.live is None ==> final(k)@.live is None,
        reply is Line && json::text_at(reply->Line_0@, "text"@) is None ==> r.cleaned is None,
        reply is Line && json::text_at(reply->Line_0@, "text"@) == Some(candidate@) ==> {
            &&& r.cleaned is Some <==> accepted is Some
            &&& accepted is Some ==> r.cleaned->0@ == accepted->0@
        },
        final(k)@.spawning == old(k)@.spawning,
        final(k)@.python == old(k)@.python,
        final(k)@.script == old(k)@.script,
        final(k)@.timeout_ms == old(k)@.timeout_ms,
        final(k)@.idle_ms == old(k)@.idle_ms,
{
}

/// A child goes cold exactly when it has been idle for the whole time that an unused
/// child is kept, and nothing but a cold child is dropped.
pub proof fn law_idle_children_go(k: &mut Cleaner, now_ms: u64, cold: bool)
    requires
        call_ensures(Cleaner::on_idle_poll, (k, now_ms), cold),
    ensures
        cold ==> old(k)@.live is Some && final(k)@.live is None,
        !cold ==> final(k)@.live == old(k)@.live,
        old(k)@.live is Some && now_ms >= old(k)@.live->0 ==> (cold <==> now_ms >= old(k)@.live->0
            + old(k)@.idle_ms),
        old(k)@.live is Some && now_ms < old(k)@.live->0 ==> (cold <==> old(k)@.idle_ms == 0),
        final(k)@.spawning == old(k)@.spawning,
        final(k)@.python == old(k)@.python,
        final(k)@.script == old(k)@.script,
        final(k)@.timeout_ms == old(k)@.timeout_ms,
        final(k)@.idle_ms == old(k)@.idle_ms,
{
}

/// What a cleaner says it runs is what it was given.
pub proof fn law_cleaner_runs_what_it_was_given(
    settings: CleanerSettings,
    default_script: String,
    k: &Cleaner,
    python: &str,
    script: &str,
)
    requires
        call_ensures(Cleaner::new, (settings, default_script), *k),
        call_ensures(Cleaner::python, (k,), python),
        call_ensures(Cleaner::script, (k,), script),
    ensures
        python@ == match settings.python {
            Some(p) => p@,
            None => "python3"@,
        },
        script@ == match settings.script {
            Some(s) => s@,
            None => default_script@,
        },
{
}

/// A line without a text is worth nothing, and one with a text what vetting makes of it.
pub proof fn law_answers_are_worth_what_vetting_says(
    raw: &str,
    c: String,
    read: &str,
    none: Option<String>,
    some: Option<String>,
    accepted: Option<String>,
)
    requires
        read@ == c@,
        call_ensures(vet_answer, (raw, None::<String>), none),
        call_ensures(vet_answer, (raw, Some(c)), some),
        call_ensures(vet, (raw, read), accepted),
    ensures
        none is None,
        some is Some <==> accepted is Some,
        accepted is Some ==> some->0@ == accepted->0@,
{
}

/// A line of the log is one line that gives back the dictation and what became of it,
/// null where that was nothing.
pub proof fn law_log_lines_read_back(ts: u64, raw: &str, cleaned: Option<&str>, r: String)
    requires
        call_ensures(log_pair, (ts, raw, cleaned), r),
    ensures
        r@.len() > 0 && r@.last() == '\n',
        !r@.drop_last().contains('\n'),
        json::text_at(r@.drop_last(), "raw"@) == Some(raw@),
        cleaned is Some ==> json::text_at(r@.drop_last(), "cleaned"@) == Some(cleaned->0@),
        cleaned is None ==> json::text_at(r@.drop_last(), "cleaned"@) is None,
        r@.drop_last() == json::object_text(
            map![
                "ts"@ => json::Field::Number(ts),
                "raw"@ => json::Field::Text(raw@),
                "cleaned"@ => if cleaned is Some {
                    json::Field::Text(cleaned->0@)
                } else {
                    json::Field::Null
                },
            ],
        ),
{
    let fields = map![
        "ts"@ => json::Field::Number(ts),
        "raw"@ => json::Field::Text(raw@),
        "cleaned"@ => if cleaned is Some {
            json::Field::Text(cleaned->0@)
        } else {
            json::Field::Null
        },
    ];
    assert(log_fields(ts, raw@, text::opt_str(cleaned)) =~= fields);
    assert(json::object_text(fields).push('\n').drop_last() =~= json::object_text(fields));
}

/// A repaired candidate is its words with one space between each two, and nothing else.
pub proof fn law_repaired_text_is_its_words(
    raw: &str,
    out: &str,
    r: String,
    read: &str,
    fw: Vec<String>,
    joined: String,
)
    requires
        call_ensures(restore_casing, (raw, out), r),
        read@ == r@,
        call_ensures(text::split_words, (read,), fw),
        call_ensures(text::join_words, (&fw,), joined),
    ensures
        r@ == joined@,
{
    let rw = text::words(raw@);
    let ow = text::words(out@);
    text::lemma_words(raw@);
    text::lemma_words(out@);
    lemma_recased_words(rw, ow);
    text::lemma_words_of_joined(recased_words(rw, ow));
}

/// What vetting gives is the candidate with its casing repaired; white space around it
/// makes no difference.
pub proof fn law_accepted_text_is_the_repaired_candidate(
    raw: &str,
    candidate: &str,
    r: Option<String>,
    repaired: String,
)
    requires
        call_ensures(vet, (raw, candidate), r),
        call_ensures(restore_casing, (raw, candidate), repaired),
        r is Some,
    ensures
        r->0@ == repaired@,
{
    text::lemma_words_of_trimmed(candidate@);
}

}
