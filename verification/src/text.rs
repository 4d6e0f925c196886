//! Text as sequences of characters: words, trimming, joining, searching.
//!
//! The character classes are those of the standard library. On ASCII they are
//! spelled out; beyond ASCII all but white space follow the Unicode tables and are only
//! named.

use vstd::prelude::*;

verus! {

/// Whether a character lies in the ASCII range.
pub open spec fn is_ascii_char(c: char) -> bool {
    (c as u32) < 128
}

/// Whether every character of a text is ASCII.
pub open spec fn is_ascii_text(s: Seq<char>) -> bool {
    forall|i: int| 0 <= i < s.len() ==> is_ascii_char(#[trigger] s[i])
}

/// ASCII white space: the space and the controls from tab to carriage return.
pub open spec fn is_ascii_white_space(c: char) -> bool {
    c == ' ' || '\t' <= c <= '\r'
}

pub open spec fn is_ascii_upper(c: char) -> bool {
    'A' <= c <= 'Z'
}

/// ASCII letters and digits.
pub open spec fn is_ascii_letter_or_digit(c: char) -> bool {
    is_ascii_upper(c) || 'a' <= c <= 'z' || '0' <= c <= '9'
}

/// The lower-case form of an ASCII character.
pub open spec fn ascii_lower(c: char) -> char {
    if is_ascii_upper(c) {
        ((c as u32) + 32) as char
    } else {
        c
    }
}

/// White space beyond ASCII, as the Unicode `White_Space` property lists it: the next
/// line and no-break spaces, the Ogham space mark, the spaces of the general punctuation
/// block with its line and paragraph separators, and the ideographic space.
pub open spec fn unicode_white_space(c: char) -> bool {
    let n = c as u32;
    ||| n == 0x85 || n == 0xa0 || n == 0x1680
    ||| 0x2000 <= n <= 0x200a
    ||| n == 0x2028 || n == 0x2029 || n == 0x202f || n == 0x205f || n == 0x3000
}

/// `char::is_alphanumeric` beyond ASCII.
pub uninterp spec fn unicode_alphanumeric(c: char) -> bool;

/// `char::is_uppercase` beyond ASCII.
pub uninterp spec fn unicode_upper(c: char) -> bool;

/// `str::to_lowercase` of a text that is not all ASCII.
pub uninterp spec fn unicode_lowercase(s: Seq<char>) -> Seq<char>;

/// White space.
pub open spec fn is_white_space(c: char) -> bool {
    if is_ascii_char(c) {
        is_ascii_white_space(c)
    } else {
        unicode_white_space(c)
    }
}

/// Letters and digits.
pub open spec fn is_alphanumeric(c: char) -> bool {
    if is_ascii_char(c) {
        is_ascii_letter_or_digit(c)
    } else {
        unicode_alphanumeric(c)
    }
}

/// Upper-case characters.
pub open spec fn is_upper(c: char) -> bool {
    if is_ascii_char(c) {
        is_ascii_upper(c)
    } else {
        unicode_upper(c)
    }
}

/// The lower-case form of a text.
pub open spec fn lowercase(s: Seq<char>) -> Seq<char> {
    if is_ascii_text(s) {
        s.map_values(|c: char| ascii_lower(c))
    } else {
        unicode_lowercase(s)
    }
}

/// `char::is_whitespace`: the characters with the Unicode `White_Space` property. On
/// ASCII these are the space and the controls U+0009 to U+000D, beyond it a short list.
pub assume_specification[ char::is_whitespace ](c: char) -> (r: bool)
    ensures
        is_ascii_char(c) ==> r == is_ascii_white_space(c),
        !is_ascii_char(c) ==> r == unicode_white_space(c),
;

/// `char::is_alphanumeric`: on ASCII the letters and the digits, beyond it
/// whatever the Unicode alphabetic and numeric properties say.
pub assume_specification[ char::is_alphanumeric ](c: char) -> (r: bool)
    ensures
        is_ascii_char(c) ==> r == is_ascii_letter_or_digit(c),
        !is_ascii_char(c) ==> r == unicode_alphanumeric(c),
;

/// `char::is_uppercase`: on ASCII `A` to `Z`, beyond it whatever the Unicode
/// `Uppercase` property says.
pub assume_specification[ char::is_uppercase ](c: char) -> (r: bool)
    ensures
        is_ascii_char(c) ==> r == is_ascii_upper(c),
        !is_ascii_char(c) ==> r == unicode_upper(c),
;

/// `str::to_lowercase`: an all-ASCII text has its letters `A` to `Z` mapped one
/// for one; any other text follows the Unicode tables.
pub assume_specification[ str::to_lowercase ](s: &str) -> (r: String)
    ensures
        is_ascii_text(s@) ==> r@ == s@.map_values(|c: char| ascii_lower(c)),
        !is_ascii_text(s@) ==> r@ == unicode_lowercase(s@),
;

/// `String::push`: appends one character.
pub assume_specification[ String::push ](s: &mut String, c: char)
    ensures
        final(s)@ == old(s)@.push(c),
;

/// The texts of a list of strings.
pub open spec fn texts(v: Seq<String>) -> Seq<Seq<char>> {
    v.map_values(|s: String| s@)
}

/// The text of an optional string.
pub open spec fn opt_text(s: Option<String>) -> Option<Seq<char>> {
    match s {
        Some(t) => Some(t@),
        None => None,
    }
}

/// The text of an optional string slice.
pub open spec fn opt_str(s: Option<&str>) -> Option<Seq<char>> {
    match s {
        Some(t) => Some(t@),
        None => None,
    }
}

/// The characters of `s`.
pub fn to_chars(s: &str) -> (r: Vec<char>)
    ensures
        r@ == s@,
{
    let mut out: Vec<char> = Vec::new();
    for c in it: s.chars()
        invariant
            out@ == it.seq().take(it.index() as int),
            it.seq() == s@,
    {
        out.push(c);
        assert(it.seq().take(it.index() + 1) =~= it.seq().take(it.index() as int).push(c));
    }
    assert(s@.take(s@.len() as int) =~= s@);
    out
}

/// The text from `from` up to `to`.
pub fn slice_text(chars: &Vec<char>, from: usize, to: usize) -> (r: String)
    requires
        from <= to <= chars@.len(),
    ensures
        r@ == chars@.subrange(from as int, to as int),
{
    let mut out = String::new();
    let mut i: usize = from;
    assert(chars@.subrange(from as int, from as int) =~= Seq::<char>::empty());
    while i < to
        invariant
            from <= i <= to <= chars@.len(),
            out@ == chars@.subrange(from as int, i as int),
        decreases to - i,
    {
        out.push(chars[i]);
        assert(chars@.subrange(from as int, i + 1) =~= chars@.subrange(from as int, i as int).push(
            chars@[i as int],
        ));
        i = i + 1;
    }
    out
}


/// The words of a text: its longest runs without white space, in order.
pub open spec fn words(s: Seq<char>) -> Seq<Seq<char>>
    decreases s.len(),
{
    if s.len() == 0 {
        seq![]
    } else {
        let before = words(s.drop_last());
        let c = s.last();
        if is_white_space(c) {
            before
        } else if s.len() >= 2 && !is_white_space(s[s.len() - 2]) {
            before.drop_last().push(before.last().push(c))
        } else {
            before.push(seq![c])
        }
    }
}

/// Whether a text can be one word: it has characters, and none is white space.
pub open spec fn is_word(w: Seq<char>) -> bool {
    &&& w.len() > 0
    &&& forall|i: int| 0 <= i < w.len() ==> !is_white_space(#[trigger] w[i])
}

/// Every word of a text is a word; a text that does not end in white space ends
/// in its last word.
pub proof fn lemma_words(s: Seq<char>)
    ensures
        forall|i: int| 0 <= i < words(s).len() ==> is_word(#[trigger] words(s)[i]),
        s.len() > 0 && !is_white_space(s.last()) ==> words(s).len() > 0 && words(
            s,
        ).last().last() == s.last(),
    decreases s.len(),
{
    if s.len() > 0 {
        let p = s.drop_last();
        lemma_words(p);
        let c = s.last();
        if !is_white_space(c) {
            if s.len() >= 2 && !is_white_space(s[s.len() - 2]) {
                assert(p.last() == s[s.len() - 2]);
                let w = words(p).last();
                assert(is_word(words(p)[words(p).len() - 1]));
                assert(is_word(w.push(c)));
            } else {
                assert(is_word(seq![c]));
            }
        }
    }
}

/// Splits a text at its white space, as `str::split_whitespace` does.
pub fn split_words(s: &str) -> (r: Vec<String>)
    ensures
        texts(r@) == words(s@),
{
    let chars = to_chars(s);
    let mut out: Vec<String> = Vec::new();
    let mut cur = String::new();
    let mut started: bool = false;
    let mut i: usize = 0;
    assert(texts(out@) =~= words(s@.take(0)));
    while i < chars.len()
        invariant
            chars@ == s@,
            i <= chars@.len(),
            started == (i > 0 && !is_white_space(chars@[i - 1])),
            !started ==> texts(out@) == words(s@.take(i as int)) && cur@.len() == 0,
            started ==> texts(out@).push(cur@) == words(s@.take(i as int)),
        decreases chars@.len() - i,
    {
        let c = chars[i];
        let ghost before = s@.take(i as int);
        let ghost after = s@.take(i + 1);
        assert(after.drop_last() =~= before);
        assert(after.last() == c);
        assert(i > 0 ==> after[after.len() - 2] == chars@[i - 1]);
        if c.is_whitespace() {
            if started {
                let ghost prior = texts(out@);
                let ghost w = cur@;
                out.push(cur);
                assert(texts(out@) =~= prior.push(w));
                cur = String::new();
                started = false;
            }
        } else {
            let ghost w = cur@;
            cur.push(c);
            if started {
                assert(words(before).drop_last() =~= texts(out@));
                assert(words(before).last() == w);
            } else {
                assert(cur@ =~= seq![c]);
            }
            started = true;
        }
        i = i + 1;
    }
    assert(s@.take(s@.len() as int) =~= s@);
    if started {
        let ghost prior = texts(out@);
        let ghost w = cur@;
        out.push(cur);
        assert(texts(out@) =~= prior.push(w));
    }
    out
}

/// Words joined by single spaces.
pub open spec fn joined(ws: Seq<Seq<char>>) -> Seq<char>
    decreases ws.len(),
{
    if ws.len() == 0 {
        seq![]
    } else if ws.len() == 1 {
        ws[0]
    } else {
        joined(ws.drop_last()).push(' ') + ws.last()
    }
}

/// Joins texts with single spaces.
pub fn join_words(ws: &Vec<String>) -> (r: String)
    ensures
        r@ == joined(texts(ws@)),
{
    let mut out = String::new();
    let mut i: usize = 0;
    assert(texts(ws@).take(0) =~= Seq::<Seq<char>>::empty());
    while i < ws.len()
        invariant
            i <= ws@.len(),
            out@ == joined(texts(ws@).take(i as int)),
        decreases ws@.len() - i,
    {
        let ghost prior = texts(ws@).take(i as int);
        let ghost next = texts(ws@).take(i + 1);
        assert(next.drop_last() =~= prior);
        assert(next.last() == ws@[i as int]@);
        if i > 0 {
            out.push(' ');
        }
        out.append(ws[i].as_str());
        proof {
            if i == 0 {
                assert(out@ =~= next[0]);
            }
        }
        i = i + 1;
    }
    assert(texts(ws@).take(ws@.len() as int) =~= texts(ws@));
    out
}

/// What is stripped from the ends of a text.
#[derive(Clone, Copy, PartialEq, Eq, Structural, Debug)]
pub enum Strip {
    WhiteSpace,
    NonAlphanumeric,
}

/// Whether a character is stripped.
pub open spec fn stripped_char(kind: Strip, c: char) -> bool {
    match kind {
        Strip::WhiteSpace => is_white_space(c),
        Strip::NonAlphanumeric => !is_alphanumeric(c),
    }
}

/// How many characters are stripped from the front.
pub open spec fn lead(kind: Strip, s: Seq<char>) -> nat
    decreases s.len(),
{
    if s.len() == 0 || !stripped_char(kind, s.first()) {
        0
    } else {
        1 + lead(kind, s.drop_first())
    }
}

/// How many characters are stripped from the back.
pub open spec fn trail(kind: Strip, s: Seq<char>) -> nat
    decreases s.len(),
{
    if s.len() == 0 || !stripped_char(kind, s.last()) {
        0
    } else {
        1 + trail(kind, s.drop_last())
    }
}

/// A text without the stripped characters at its ends.
pub open spec fn strip(kind: Strip, s: Seq<char>) -> Seq<char> {
    if lead(kind, s) == s.len() {
        seq![]
    } else {
        s.subrange(lead(kind, s) as int, s.len() - trail(kind, s))
    }
}

/// `lead` counts stripped characters and stops at the first that stays.
pub proof fn lemma_lead(kind: Strip, s: Seq<char>)
    ensures
        lead(kind, s) <= s.len(),
        forall|i: int| 0 <= i < lead(kind, s) ==> stripped_char(kind, #[trigger] s[i]),
        lead(kind, s) < s.len() ==> !stripped_char(kind, s[lead(kind, s) as int]),
    decreases s.len(),
{
    if s.len() > 0 && stripped_char(kind, s.first()) {
        let t = s.drop_first();
        lemma_lead(kind, t);
        assert forall|i: int| 0 <= i < lead(kind, s) implies stripped_char(
            kind,
            #[trigger] s[i],
        ) by {
            if i > 0 {
                assert(s[i] == t[i - 1]);
            }
        }
        if lead(kind, s) < s.len() {
            assert(s[lead(kind, s) as int] == t[lead(kind, t) as int]);
        }
    }
}

/// `trail` counts stripped characters and stops at the last that stays.
pub proof fn lemma_trail(kind: Strip, s: Seq<char>)
    ensures
        trail(kind, s) <= s.len(),
        forall|i: int|
            s.len() - trail(kind, s) <= i < s.len() ==> stripped_char(kind, #[trigger] s[i]),
        trail(kind, s) < s.len() ==> !stripped_char(kind, s[s.len() - trail(kind, s) - 1]),
    decreases s.len(),
{
    if s.len() > 0 && stripped_char(kind, s.last()) {
        let t = s.drop_last();
        lemma_trail(kind, t);
        assert forall|i: int|
            s.len() - trail(kind, s) <= i < s.len() implies stripped_char(
            kind,
            #[trigger] s[i],
        ) by {
            if i < s.len() - 1 {
                assert(s[i] == t[i]);
            }
        }
        if trail(kind, s) < s.len() {
            assert(s[s.len() - trail(kind, s) - 1] == t[t.len() - trail(kind, t) - 1]);
        }
    }
}

/// Where the counts end is where a text keeps its first and last character.
pub proof fn lemma_strip_counts(kind: Strip, s: Seq<char>, a: nat, b: nat)
    requires
        a + b < s.len(),
        forall|i: int| 0 <= i < a ==> stripped_char(kind, #[trigger] s[i]),
        !stripped_char(kind, s[a as int]),
        forall|i: int| s.len() - b <= i < s.len() ==> stripped_char(kind, #[trigger] s[i]),
        !stripped_char(kind, s[s.len() - b - 1]),
    ensures
        lead(kind, s) == a,
        trail(kind, s) == b,
        strip(kind, s) == s.subrange(a as int, s.len() - b),
{
    lemma_lead(kind, s);
    lemma_trail(kind, s);
    let l = lead(kind, s);
    let t = trail(kind, s);
    if l < a {
        assert(stripped_char(kind, s[l as int]));
    }
    if a < l {
        assert(stripped_char(kind, s[a as int]));
    }
    if t < b {
        assert(stripped_char(kind, s[s.len() - t - 1]));
    }
    if b < t {
        assert(stripped_char(kind, s[s.len() - b - 1]));
    }
}

/// A stripped text is empty, or begins and ends with characters that stay; the
/// counts never cross.
pub proof fn lemma_strip(kind: Strip, s: Seq<char>)
    ensures
        lead(kind, s) < s.len() ==> lead(kind, s) + trail(kind, s) < s.len(),
        strip(kind, s).len() > 0 <==> lead(kind, s) < s.len(),
        strip(kind, s).len() > 0 ==> {
            &&& !stripped_char(kind, strip(kind, s).first())
            &&& !stripped_char(kind, strip(kind, s).last())
        },
        strip(kind, s).len() <= s.len(),
        (strip(kind, s).len() == 0) == (forall|i: int|
            0 <= i < s.len() ==> stripped_char(kind, #[trigger] s[i])),
{
    lemma_lead(kind, s);
    lemma_trail(kind, s);
    let l = lead(kind, s);
    if l < s.len() {
        if l + trail(kind, s) >= s.len() {
            assert(stripped_char(kind, s[l as int]));
        }
        assert(!stripped_char(kind, s[l as int]));
    }
}

fn strips(kind: Strip, c: char) -> (r: bool)
    ensures
        r == stripped_char(kind, c),
{
    match kind {
        Strip::WhiteSpace => c.is_whitespace(),
        Strip::NonAlphanumeric => !c.is_alphanumeric(),
    }
}

/// How many characters are stripped from the front and from the back of a text.
pub fn strip_counts(kind: Strip, s: &Vec<char>) -> (r: (usize, usize))
    ensures
        r.0 == lead(kind, s@),
        r.0 <= s@.len(),
        r.0 < s@.len() ==> r.1 == trail(kind, s@) && r.0 + r.1 < s@.len(),
        r.0 == s@.len() ==> r.1 == 0,
{
    let mut a: usize = 0;
    while a < s.len() && strips(kind, s[a])
        invariant
            a <= s@.len(),
            forall|i: int| 0 <= i < a ==> stripped_char(kind, #[trigger] s@[i]),
        decreases s@.len() - a,
    {
        a = a + 1;
    }
    proof {
        lemma_lead(kind, s@);
        let l = lead(kind, s@);
        if l < a {
            assert(stripped_char(kind, s@[l as int]));
        }
        if a < l {
            assert(stripped_char(kind, s@[a as int]));
        }
    }
    if a == s.len() {
        return (a, 0);
    }
    let mut b: usize = 0;
    proof {
        assert(!stripped_char(kind, s@[a as int]));
    }
    while strips(kind, s[s.len() - 1 - b])
        invariant
            a < s@.len(),
            !stripped_char(kind, s@[a as int]),
            a + b < s@.len(),
            forall|i: int| s@.len() - b <= i < s@.len() ==> stripped_char(kind, #[trigger] s@[i]),
        decreases s@.len() - b,
    {
        b = b + 1;
    }
    proof {
        lemma_strip_counts(kind, s@, a as nat, b as nat);
    }
    (a, b)
}

/// Strips the ends of a text: white space as `str::trim` does, or everything but
/// letters and digits.
pub fn strip_text(kind: Strip, s: &str) -> (r: String)
    ensures
        r@ == strip(kind, s@),
{
    let chars = to_chars(s);
    let (a, b) = strip_counts(kind, &chars);
    if a == chars.len() {
        String::new()
    } else {
        slice_text(&chars, a, chars.len() - b)
    }
}

/// Whether a text has nothing but white space.
pub open spec fn is_blank(s: Seq<char>) -> bool {
    forall|i: int| 0 <= i < s.len() ==> is_white_space(#[trigger] s[i])
}

/// Whether a text has nothing but white space.
pub fn blank(s: &str) -> (r: bool)
    ensures
        r == is_blank(s@),
{
    let chars = to_chars(s);
    let mut i: usize = 0;
    while i < chars.len()
        invariant
            i <= chars@.len(),
            chars@ == s@,
            forall|j: int| 0 <= j < i ==> is_white_space(#[trigger] chars@[j]),
        decreases chars@.len() - i,
    {
        if !chars[i].is_whitespace() {
            return false;
        }
        i = i + 1;
    }
    true
}

/// Whether two texts are equal.
pub fn same_text(a: &str, b: &str) -> (r: bool)
    ensures
        r == (a@ == b@),
{
    a.to_owned() == b.to_owned()
}

/// A word after a text that is empty or ends in white space is one more word.
pub proof fn lemma_words_append(s: Seq<char>, w: Seq<char>)
    requires
        s.len() == 0 || is_white_space(s.last()),
        is_word(w),
    ensures
        words(s + w) == words(s).push(w),
    decreases w.len(),
{
    let all = s + w;
    let c = w.last();
    assert(all.last() == c);
    assert(!is_white_space(w[w.len() - 1]));
    if w.len() == 1 {
        assert(all.drop_last() =~= s);
        assert(w =~= seq![c]);
        if all.len() >= 2 {
            assert(all[all.len() - 2] == s.last());
        }
    } else {
        let v = w.drop_last();
        assert forall|i: int| 0 <= i < v.len() implies !is_white_space(#[trigger] v[i]) by {
            assert(v[i] == w[i]);
        }
        assert(all.drop_last() =~= s + v);
        lemma_words_append(s, v);
        assert(all[all.len() - 2] == w[w.len() - 2]);
        assert(words(s).push(v).drop_last() =~= words(s));
        assert(v.push(c) =~= w);
    }
}

/// Splitting joined words gives the words back.
pub proof fn lemma_words_of_joined(ws: Seq<Seq<char>>)
    requires
        forall|i: int| 0 <= i < ws.len() ==> is_word(#[trigger] ws[i]),
    ensures
        words(joined(ws)) == ws,
    decreases ws.len(),
{
    if ws.len() == 1 {
        let e = Seq::<char>::empty();
        assert(is_word(ws[0]));
        lemma_words_append(e, ws[0]);
        assert(e + ws[0] =~= ws[0]);
        assert(words(e) =~= seq![]);
        assert(ws =~= words(e).push(ws[0]));
    } else if ws.len() > 1 {
        let front = ws.drop_last();
        assert forall|i: int| 0 <= i < front.len() implies is_word(#[trigger] front[i]) by {
            assert(front[i] == ws[i]);
        }
        lemma_words_of_joined(front);
        let s = joined(front).push(' ');
        assert(s.drop_last() =~= joined(front));
        assert(words(s) == front);
        assert(is_word(ws[ws.len() - 1]));
        lemma_words_append(s, ws.last());
        assert(front.push(ws.last()) =~= ws);
    }
}

/// The words of two texts that white space keeps apart are those of the one and
/// then those of the other.
pub proof fn lemma_words_concat(s: Seq<char>, t: Seq<char>)
    requires
        s.len() == 0 || is_white_space(s.last()),
    ensures
        words(s + t) == words(s) + words(t),
    decreases t.len(),
{
    let all = s + t;
    if t.len() == 0 {
        assert(all =~= s);
        assert(words(s) + words(t) =~= words(s));
    } else {
        let p = t.drop_last();
        let c = t.last();
        lemma_words_concat(s, p);
        lemma_words(p);
        assert(all.drop_last() =~= s + p);
        assert(all.last() == c);
        if all.len() >= 2 {
            assert(all[all.len() - 2] == if t.len() >= 2 {
                t[t.len() - 2]
            } else {
                s.last()
            });
        }
        if t.len() >= 2 {
            assert(p.last() == t[t.len() - 2]);
        }
        assert(words(all) =~= words(s) + words(t));
    }
}

/// The words of joined texts are the words of each, one after the other.
pub proof fn lemma_words_of_joined_push(ws: Seq<Seq<char>>, t: Seq<char>)
    ensures
        words(joined(ws.push(t))) == words(joined(ws)) + words(t),
{
    let all = ws.push(t);
    assert(all.drop_last() =~= ws);
    if ws.len() == 0 {
        assert(words(joined(ws)) =~= seq![]);
        assert(words(joined(ws)) + words(t) =~= words(t));
    } else {
        let s = joined(ws).push(' ');
        assert(s.drop_last() =~= joined(ws));
        assert(words(s) == words(joined(ws)));
        lemma_words_concat(s, t);
    }
}

/// White space in front adds no word.
proof fn lemma_words_leading(c: char, s: Seq<char>)
    requires
        is_white_space(c),
    ensures
        words(seq![c] + s) == words(s),
    decreases s.len(),
{
    let all = seq![c] + s;
    if s.len() == 0 {
        assert(all.drop_last() =~= s);
    } else {
        let p = s.drop_last();
        lemma_words_leading(c, p);
        assert(all.drop_last() =~= seq![c] + p);
        if s.len() >= 2 {
            assert(all[all.len() - 2] == s[s.len() - 2]);
        }
    }
}

/// The part after the leading white space has the same words.
proof fn lemma_words_skip_lead(s: Seq<char>)
    ensures
        words(s.skip(lead(Strip::WhiteSpace, s) as int)) == words(s),
    decreases s.len(),
{
    let kind = Strip::WhiteSpace;
    lemma_lead(kind, s);
    if s.len() > 0 && stripped_char(kind, s.first()) {
        let t = s.drop_first();
        lemma_words_skip_lead(t);
        lemma_lead(kind, t);
        assert(s =~= seq![s.first()] + t);
        lemma_words_leading(s.first(), t);
        assert(s.skip(lead(kind, s) as int) =~= t.skip(lead(kind, t) as int));
    } else {
        assert(s.skip(0) =~= s);
    }
}

/// The part before the trailing white space has the same words.
proof fn lemma_words_drop_trail(s: Seq<char>)
    ensures
        words(s.take(s.len() - trail(Strip::WhiteSpace, s))) == words(s),
    decreases s.len(),
{
    let kind = Strip::WhiteSpace;
    lemma_trail(kind, s);
    if s.len() > 0 && stripped_char(kind, s.last()) {
        let t = s.drop_last();
        lemma_words_drop_trail(t);
        lemma_trail(kind, t);
        assert(s.take(s.len() - trail(kind, s)) =~= t.take(t.len() - trail(kind, t)));
    } else {
        assert(s.take(s.len() as int) =~= s);
    }
}

/// Trimming a text keeps its words.
pub proof fn lemma_words_of_trimmed(s: Seq<char>)
    ensures
        words(strip(Strip::WhiteSpace, s)) == words(s),
{
    let kind = Strip::WhiteSpace;
    lemma_strip(kind, s);
    lemma_lead(kind, s);
    lemma_words_skip_lead(s);
    let l = lead(kind, s);
    let rest = s.skip(l as int);
    if l < s.len() {
        lemma_words_drop_trail(rest);
        lemma_trail(kind, s);
        lemma_trail(kind, rest);
        let t = trail(kind, s);
        assert(rest.len() == s.len() - l);
        assert(!stripped_char(kind, rest[0]));
        assert forall|i: int| rest.len() - t <= i < rest.len() implies stripped_char(
            kind,
            #[trigger] rest[i],
        ) by {
            assert(rest[i] == s[i + l]);
        }
        assert(rest[rest.len() - t - 1] == s[s.len() - t - 1]);
        lemma_strip_counts(kind, rest, 0, t);
        assert(rest.take(rest.len() - t) =~= strip(kind, s));
    } else {
        assert(rest =~= Seq::<char>::empty());
    }
}

/// A text has no words exactly if it is blank.
pub proof fn lemma_blank_has_no_words(s: Seq<char>)
    ensures
        is_blank(s) <==> words(s).len() == 0,
        is_blank(s) <==> strip(Strip::WhiteSpace, s).len() == 0,
    decreases s.len(),
{
    lemma_strip(Strip::WhiteSpace, s);
    if s.len() > 0 {
        let p = s.drop_last();
        lemma_blank_has_no_words(p);
        lemma_words(s);
        if is_blank(s) {
            assert forall|i: int| 0 <= i < p.len() implies is_white_space(#[trigger] p[i]) by {
                assert(p[i] == s[i]);
            }
            assert(is_white_space(s[s.len() - 1]));
        }
        if words(s).len() == 0 {
            assert(is_white_space(s.last()));
            assert forall|i: int| 0 <= i < s.len() implies is_white_space(#[trigger] s[i]) by {
                if i < p.len() {
                    assert(s[i] == p[i]);
                }
            }
        }
    }
}

/// The decimal digit for a value below ten.
pub open spec fn digit(d: nat) -> char {
    (48 + d) as char
}

/// A number in decimal, without leading zeros.
pub open spec fn decimal(n: nat) -> Seq<char>
    decreases n,
{
    if n < 10 {
        seq![digit(n)]
    } else {
        decimal(n / 10).push(digit(n % 10))
    }
}

fn digit_char(d: u64) -> (c: char)
    requires
        d < 10,
    ensures
        c == digit(d as nat),
{
    match d {
        0 => '0',
        1 => '1',
        2 => '2',
        3 => '3',
        4 => '4',
        5 => '5',
        6 => '6',
        7 => '7',
        8 => '8',
        _ => '9',
    }
}

/// Writes a number in decimal.
pub fn to_decimal(n: u64) -> (r: String)
    ensures
        r@ == decimal(n as nat),
    decreases n,
{
    if n < 10 {
        let mut out = String::new();
        out.push(digit_char(n));
        assert(out@ =~= decimal(n as nat));
        out
    } else {
        let mut out = to_decimal(n / 10);
        out.push(digit_char(n % 10));
        out
    }
}

/// Whether a text is made of decimal digits, at least one.
pub open spec fn is_digits(s: Seq<char>) -> bool {
    s.len() > 0 && forall|i: int| 0 <= i < s.len() ==> '0' <= #[trigger] s[i] <= '9'
}

/// The value of a text of decimal digits.
pub open spec fn digits_value(s: Seq<char>) -> nat
    decreases s.len(),
{
    if s.len() == 0 {
        0
    } else {
        digits_value(s.drop_last()) * 10 + (s.last() as nat - 48) as nat
    }
}

/// The number that a text stands for: an optional plus sign, then digits only,
/// the value not above `u64::MAX`.
pub open spec fn parsed_u64(s: Seq<char>) -> Option<u64> {
    let digits = if s.len() > 0 && s.first() == '+' {
        s.drop_first()
    } else {
        s
    };
    if is_digits(digits) && digits_value(digits) <= u64::MAX {
        Some(digits_value(digits) as u64)
    } else {
        None
    }
}

/// The value of a prefix is no greater than the value of the whole.
proof fn lemma_digits_value_grows(s: Seq<char>, n: int)
    requires
        0 <= n <= s.len(),
        is_digits(s),
    ensures
        digits_value(s.take(n)) <= digits_value(s),
    decreases s.len(),
{
    if n == s.len() {
        assert(s.take(n) =~= s);
    } else if s.len() == 1 {
        assert(s.take(n) =~= Seq::<char>::empty());
    } else {
        let p = s.drop_last();
        assert(p.take(n) =~= s.take(n));
        assert forall|i: int| 0 <= i < p.len() implies '0' <= #[trigger] p[i] <= '9' by {
            assert(p[i] == s[i]);
        }
        lemma_digits_value_grows(p, n);
    }
}

/// Reads a number as `str::parse` does for `u64`.
pub fn parse_u64(s: &str) -> (r: Option<u64>)
    ensures
        r == parsed_u64(s@),
{
    let chars = to_chars(s);
    let start: usize = if chars.len() > 0 && chars[0] == '+' {
        1
    } else {
        0
    };
    let ghost digits = s@.skip(start as int);
    assert(start == 0 ==> digits =~= s@);
    assert(start == 1 ==> digits =~= s@.drop_first());
    if start == chars.len() {
        return None;
    }
    let mut value: u64 = 0;
    let mut i: usize = start;
    assert(digits.take(0) =~= Seq::<char>::empty());
    while i < chars.len()
        invariant
            start <= 1,
            start < chars@.len(),
            start <= i <= chars@.len(),
            chars@ == s@,
            digits == s@.skip(start as int),
            start == 0 ==> digits == s@ && !(s@.len() > 0 && s@.first() == '+'),
            start == 1 ==> digits == s@.drop_first() && s@.first() == '+',
            forall|j: int| start <= j < i ==> '0' <= #[trigger] chars@[j] <= '9',
            value == digits_value(digits.take(i - start)),
        decreases chars@.len() - i,
    {
        let c = chars[i];
        assert(digits[i - start] == c);
        if !('0' <= c && c <= '9') {
            assert(!is_digits(digits));
            return None;
        }
        let d: u64 = (c as u32 - 48) as u64;
        let ghost next = digits.take(i - start + 1);
        assert(next.drop_last() =~= digits.take(i - start));
        assert(next.last() == c);
        assert(digits_value(next) == value * 10 + d);
        if value > (u64::MAX - d) / 10 {
            assert(value * 10 + d > u64::MAX);
            proof {
                if is_digits(digits) {
                    lemma_digits_value_grows(digits, i - start + 1);
                }
            }
            return None;
        }
        value = value * 10 + d;
        i = i + 1;
    }
    assert(digits.take(chars@.len() - start) =~= digits);
    assert forall|j: int| 0 <= j < digits.len() implies '0' <= #[trigger] digits[j] <= '9' by {
        assert(digits[j] == chars@[j + start]);
    }
    Some(value)
}

proof fn lemma_decimal(n: nat)
    ensures
        is_digits(decimal(n)),
        digits_value(decimal(n)) == n,
    decreases n,
{
    assert(digit(n % 10) as nat == 48 + n % 10);
    if n < 10 {
        assert(decimal(n).drop_last() =~= Seq::<char>::empty());
        assert(digits_value(decimal(n).drop_last()) == 0);
    } else {
        lemma_decimal(n / 10);
        assert(decimal(n).drop_last() =~= decimal(n / 10));
    }
}

/// A number that is written in decimal is read back as it was.
pub proof fn law_number_reads_back(n: u64)
    ensures
        parsed_u64(decimal(n as nat)) == Some(n),
{
    lemma_decimal(n as nat);
    assert('0' <= decimal(n as nat)[0] <= '9');
}

/// Whether `part` occurs in `s`.
pub open spec fn occurs_in(part: Seq<char>, s: Seq<char>) -> bool {
    exists|i: int|
        0 <= i && i + part.len() <= s.len() && #[trigger] s.subrange(i, i + part.len()) == part
}

/// Whether `part` occurs in `s`.
pub fn contains_text(s: &str, part: &str) -> (r: bool)
    ensures
        r == occurs_in(part@, s@),
{
    let a = to_chars(s);
    let b = to_chars(part);
    if b.len() > a.len() {
        return false;
    }
    let last: usize = a.len() - b.len();
    let mut i: usize = 0;
    loop
        invariant
            a@ == s@,
            b@ == part@,
            last == a@.len() - b@.len(),
            i <= last,
            a@.len() <= usize::MAX,
            forall|k: int|
                0 <= k < i ==> #[trigger] s@.subrange(k, k + part@.len()) != part@,
        decreases last - i,
    {
        let mut j: usize = 0;
        while j < b.len() && a[i + j] == b[j]
            invariant
                a@ == s@,
                b@ == part@,
                last == a@.len() - b@.len(),
                i <= last,
                a@.len() <= usize::MAX,
                j <= b@.len(),
                forall|k: int| 0 <= k < j ==> #[trigger] a@[i + k] == b@[k],
            decreases b@.len() - j,
        {
            j = j + 1;
        }
        let ghost here = s@.subrange(i as int, i + part@.len());
        if j == b.len() {
            assert(here =~= part@) by {
                assert forall|k: int| 0 <= k < part@.len() implies here[k] == part@[k] by {
                    assert(a@[i + k] == b@[k]);
                }
            }
            return true;
        }
        assert(here[j as int] != part@[j as int]);
        if i == last {
            return false;
        }
        i = i + 1;
    }
}

/// Words are split at white space and nowhere else: texts with white space between them
/// have their words one after the other, and a run without any is one word.
pub proof fn law_words_are_split_at_white_space(
    s: Seq<char>,
    c: char,
    t: Seq<char>,
    w: Seq<char>,
)
    requires
        is_white_space(c),
        w.len() > 0,
        forall|i: int| 0 <= i < w.len() ==> !is_white_space(#[trigger] w[i]),
    ensures
        words(Seq::empty()) == Seq::<Seq<char>>::empty(),
        words(w) == seq![w],
        words(s.push(c) + t) == words(s) + words(t),
{
    let e = Seq::<char>::empty();
    assert(words(e) =~= seq![]);
    lemma_words_append(e, w);
    assert(e + w =~= w);
    assert(words(e).push(w) =~= seq![w]);
    assert(s.push(c).drop_last() =~= s);
    lemma_words_concat(s.push(c), t);
}

/// Splitting joined words gives the words back, each as it was.
pub proof fn law_splitting_undoes_joining(
    ws: Vec<String>,
    text: String,
    read: &str,
    again: Vec<String>,
)
    requires
        forall|j: int| 0 <= j < ws@.len() ==> (#[trigger] ws@[j])@.len() > 0,
        forall|j: int, k: int|
            0 <= j < ws@.len() && 0 <= k < ws@[j]@.len() ==> !is_white_space(
                #[trigger] ws@[j]@[k],
            ),
        call_ensures(join_words, (&ws,), text),
        read@ == text@,
        call_ensures(split_words, (read,), again),
    ensures
        again@.len() == ws@.len(),
        forall|i: int| 0 <= i < ws@.len() ==> (#[trigger] again@[i])@ == ws@[i]@,
{
    let all = texts(ws@);
    assert forall|i: int| 0 <= i < all.len() implies is_word(#[trigger] all[i]) by {
        assert(ws@[i]@.len() > 0);
        assert forall|k: int| 0 <= k < all[i].len() implies !is_white_space(
            #[trigger] all[i][k],
        ) by {
            assert(!is_white_space(ws@[i]@[k]));
        }
    }
    lemma_words_of_joined(all);
    assert forall|i: int| 0 <= i < ws@.len() implies (#[trigger] again@[i])@ == ws@[i]@ by {
        assert(texts(again@)[i] == all[i]);
    }
}

/// Joining puts one space between each two texts and nothing else: one more text adds a
/// space and itself, or only itself if it is the first.
pub proof fn law_joining_puts_one_space_between(
    some: Vec<String>,
    one_more: Vec<String>,
    last: String,
    before: String,
    after: String,
)
    requires
        one_more@ == some@.push(last),
        call_ensures(join_words, (&some,), before),
        call_ensures(join_words, (&one_more,), after),
    ensures
        some@.len() == 0 ==> before@.len() == 0 && after@ == last@,
        some@.len() > 0 ==> after@ == before@ + seq![' '] + last@,
{
    assert(texts(one_more@).drop_last() =~= texts(some@));
    assert(texts(one_more@).last() == last@);
    if some@.len() > 0 {
        assert(before@.push(' ') + last@ =~= before@ + seq![' '] + last@);
    }
}

/// The words that splitting gives are those of the text: what is not white space is kept
/// in order, and each word is a run of it.
pub proof fn law_splitting_keeps_every_character(s: &str, r: Vec<String>)
    requires
        call_ensures(split_words, (s,), r),
    ensures
        run_together(texts(r@)) == s@.filter(|c: char| !is_white_space(c)),
        forall|i: int|
            0 <= i < r@.len() ==> (#[trigger] r@[i])@.len() > 0 && forall|k: int|
                0 <= k < r@[i]@.len() ==> !is_white_space(#[trigger] r@[i]@[k]),
{
    lemma_words(s@);
    lemma_words_hold_the_rest(s@);
    assert forall|i: int| 0 <= i < r@.len() implies (#[trigger] r@[i])@.len() > 0 && forall|k: int|
        0 <= k < r@[i]@.len() ==> !is_white_space(#[trigger] r@[i]@[k]) by {
        assert(texts(r@)[i] == words(s@)[i]);
        assert(is_word(words(s@)[i]));
    }
}

/// Texts one after the other.
pub open spec fn run_together(ws: Seq<Seq<char>>) -> Seq<char>
    decreases ws.len(),
{
    if ws.len() == 0 {
        seq![]
    } else {
        run_together(ws.drop_last()) + ws.last()
    }
}

proof fn lemma_words_hold_the_rest(s: Seq<char>)
    ensures
        run_together(words(s)) == s.filter(|c: char| !is_white_space(c)),
    decreases s.len(),
{
    let kept = |c: char| !is_white_space(c);
    reveal(Seq::filter);
    if s.len() > 0 {
        let p = s.drop_last();
        let c = s.last();
        lemma_words_hold_the_rest(p);
        lemma_words(p);
        if !is_white_space(c) {
            if s.len() >= 2 && !is_white_space(s[s.len() - 2]) {
                assert(p.last() == s[s.len() - 2]);
                let before = words(p);
                let grown = before.drop_last().push(before.last().push(c));
                assert(grown.drop_last() =~= before.drop_last());
                assert(run_together(grown) =~= run_together(before).push(c));
            } else {
                assert(words(p).push(seq![c]).drop_last() =~= words(p));
                assert(run_together(words(p).push(seq![c])) =~= run_together(words(p)).push(c));
            }
        }
    }
}

/// Stripping takes what is to be stripped from both ends, all of it, and nothing else.
pub proof fn law_stripping_takes_both_ends(kind: Strip, s: &str, r: String) -> (ends: (
    Seq<char>,
    Seq<char>,
))
    requires
        call_ensures(strip_text, (kind, s), r),
    ensures
        s@ == ends.0 + r@ + ends.1,
        forall|i: int| 0 <= i < ends.0.len() ==> goes(kind, #[trigger] ends.0[i]),
        forall|i: int| 0 <= i < ends.1.len() ==> goes(kind, #[trigger] ends.1[i]),
        r@.len() > 0 ==> !goes(kind, r@.first()) && !goes(kind, r@.last()),
{
    lemma_lead(kind, s@);
    lemma_trail(kind, s@);
    lemma_strip(kind, s@);
    if r@.len() == 0 {
        assert(s@ =~= s@ + r@ + seq![]);
        (s@, Seq::empty())
    } else {
        let a = lead(kind, s@) as int;
        let b = s@.len() - trail(kind, s@);
        let pre = s@.subrange(0, a);
        let post = s@.subrange(b, s@.len() as int);
        assert(s@ =~= pre + r@ + post);
        assert forall|i: int| 0 <= i < post.len() implies goes(kind, #[trigger] post[i]) by {
            assert(stripped_char(kind, s@[i + b]));
        }
        (pre, post)
    }
}

/// Whether a character is one to strip.
pub open spec fn goes(kind: Strip, c: char) -> bool {
    if kind == Strip::WhiteSpace {
        is_white_space(c)
    } else {
        !is_alphanumeric(c)
    }
}

/// A text is blank if, and only if, splitting it gives no words.
pub proof fn law_blank_texts_have_no_words(s: &str, r: bool, ws: Vec<String>)
    requires
        call_ensures(blank, (s,), r),
        call_ensures(split_words, (s,), ws),
    ensures
        r == (ws@.len() == 0),
        r == forall|i: int| 0 <= i < s@.len() ==> is_white_space(#[trigger] s@[i]),
{
    lemma_blank_has_no_words(s@);
    assert(texts(ws@).len() == ws@.len());
}

/// Two texts are the same if they hold the same characters.
pub proof fn law_same_texts_hold_the_same_characters(a: &str, b: &str, r: bool)
    requires
        call_ensures(same_text, (a, b), r),
    ensures
        r <==> a@.len() == b@.len() && forall|i: int|
            0 <= i < a@.len() ==> #[trigger] a@[i] == b@[i],
{
    if a@.len() == b@.len() && forall|i: int| 0 <= i < a@.len() ==> #[trigger] a@[i] == b@[i] {
        assert(a@ =~= b@);
    }
}

/// A part is found if, and only if, the text can be taken apart around it.
pub proof fn law_parts_are_found(s: &str, part: &str, r: bool)
    requires
        call_ensures(contains_text, (s, part), r),
    ensures
        r <==> exists|a: Seq<char>, b: Seq<char>| s@ == #[trigger] (a + part@ + b),
{
    if r {
        let i = choose|i: int|
            0 <= i && i + part@.len() <= s@.len() && #[trigger] s@.subrange(i, i + part@.len())
                == part@;
        let a = s@.subrange(0, i);
        let b = s@.subrange(i + part@.len(), s@.len() as int);
        assert(s@ =~= a + part@ + b);
    }
    if exists|a: Seq<char>, b: Seq<char>| s@ == #[trigger] (a + part@ + b) {
        let (a, b) = choose|a: Seq<char>, b: Seq<char>| s@ == #[trigger] (a + part@ + b);
        assert(s@.subrange(a.len() as int, (a.len() + part@.len()) as int) =~= part@);
    }
}

/// Numbers are read by place value: a digit is its value, one more digit makes ten times
/// as much and the digit, a plus sign in front changes nothing, and what is too large, or
/// is nothing but a sign, or has any other character, is no number.
pub proof fn law_numbers_are_read_by_place_value(s: Seq<char>, d: char, v: u64)
    ensures
        '0' <= d <= '9' ==> parsed_u64(seq![d]) == Some((d as int - 48) as u64),
        parsed_u64(s) == Some(v) && '0' <= d <= '9' ==> parsed_u64(s.push(d)) == (if 10 * v + (
        d as int - 48) <= u64::MAX {
            Some((10 * v + (d as int - 48)) as u64)
        } else {
            None
        }),
        s.len() > 0 && s.first() != '+' ==> parsed_u64(seq!['+'] + s) == parsed_u64(s),
        parsed_u64(Seq::empty()) is None,
        parsed_u64(seq!['+']) is None,
        s.len() > 0 && !('0' <= d <= '9') ==> parsed_u64(s.push(d)) is None,
        !('0' <= d <= '9') && d != '+' ==> parsed_u64(seq![d] + s) is None,
        s.len() > 0 && parsed_u64(s) is None && s != seq!['+'] ==> parsed_u64(s.push(d)) is None,
{
    reveal_with_fuel(digits_value, 2);
    let one = seq![d];
    assert(one[0] == d);
    assert(one.drop_last() =~= Seq::<char>::empty());
    let plus = seq!['+'] + s;
    assert(plus.drop_first() =~= s);
    assert(seq!['+'].drop_first() =~= Seq::<char>::empty());
    let grown = s.push(d);
    if s.len() > 0 {
        assert(grown.first() == s.first());
        let a = if s.first() == '+' {
            s.drop_first()
        } else {
            s
        };
        let b = if s.first() == '+' {
            grown.drop_first()
        } else {
            grown
        };
        assert(b =~= a.push(d));
        assert(b.drop_last() =~= a);
        assert(b[b.len() - 1] == d);
        assert forall|i: int| 0 <= i < a.len() implies a[i] == #[trigger] b[i] by {}
        if is_digits(b) && a.len() > 0 {
            assert forall|i: int| 0 <= i < a.len() implies '0' <= #[trigger] a[i] <= '9' by {
                assert(b[i] == a[i]);
            }
        }
        if is_digits(a) && '0' <= d <= '9' {
            assert forall|i: int| 0 <= i < b.len() implies '0' <= #[trigger] b[i] <= '9' by {
                if i < a.len() {
                    assert(b[i] == a[i]);
                }
            }
        }
        if a.len() == 0 {
            assert(s =~= seq!['+']);
        }
    }
    if !('0' <= d <= '9') && d != '+' {
        let t = seq![d] + s;
        assert(t[0] == d);
    }
}

/// Reading and writing numbers is reading and writing those texts.
pub proof fn law_numbers_are_read_and_written(n: u64, text: String, s: &str, r: Option<u64>)
    requires
        call_ensures(to_decimal, (n,), text),
        call_ensures(parse_u64, (s,), r),
    ensures
        parsed_u64(text@) == Some(n),
        text@.first() != '+',
        text@.len() > 1 ==> text@.first() != '0',
        s@ == text@ ==> r == Some(n),
        r == parsed_u64(s@),
{
    law_number_reads_back(n);
    lemma_decimal(n as nat);
    lemma_no_leading_zero(n as nat);
    assert('0' <= text@[0] <= '9');
}

proof fn lemma_no_leading_zero(n: nat)
    ensures
        decimal(n).len() > 0,
        n > 0 ==> decimal(n).first() != '0',
        n == 0 ==> decimal(n).len() == 1,
        decimal(n).len() > 1 ==> n > 0,
    decreases n,
{
    if n >= 10 {
        lemma_no_leading_zero(n / 10);
        assert(decimal(n).first() == decimal(n / 10).first());
    } else {
        assert(digit(n) as nat == 48 + n);
    }
}

/// The characters of a text are those that it has, in order, and a slice of them is the
/// text between its two ends.
pub proof fn law_slices_hold_their_characters(
    s: &str,
    chars: Vec<char>,
    from: usize,
    to: usize,
    r: String,
)
    requires
        call_ensures(to_chars, (s,), chars),
        from <= to <= chars@.len(),
        call_ensures(slice_text, (&chars, from, to), r),
    ensures
        chars@.len() == s@.len(),
        forall|i: int| 0 <= i < s@.len() ==> #[trigger] chars@[i] == s@[i],
        r@.len() == to - from,
        forall|i: int| 0 <= i < r@.len() ==> #[trigger] r@[i] == s@[from + i],
{
}

/// Stripping counts what it takes: all that is to go up to the first character that
/// stays, and from the end back to the last one.
pub proof fn law_stripped_characters_are_counted(kind: Strip, s: &Vec<char>, r: (usize, usize))
    requires
        call_ensures(strip_counts, (kind, s), r),
    ensures
        r.0 + r.1 <= s@.len(),
        forall|i: int| 0 <= i < r.0 ==> goes(kind, #[trigger] s@[i]),
        forall|i: int| s@.len() - r.1 <= i < s@.len() ==> goes(kind, #[trigger] s@[i]),
        r.0 < s@.len() ==> !goes(kind, s@[r.0 as int]) && !goes(kind, s@[s@.len() - r.1 - 1]),
{
    lemma_lead(kind, s@);
    lemma_trail(kind, s@);
    assert forall|i: int| 0 <= i < r.0 implies goes(kind, #[trigger] s@[i]) by {
        assert(stripped_char(kind, s@[i]));
    }
    assert forall|i: int| s@.len() - r.1 <= i < s@.len() implies goes(kind, #[trigger] s@[i]) by {
        assert(stripped_char(kind, s@[i]));
    }
}

}
