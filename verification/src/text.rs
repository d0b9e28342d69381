//! Text as a sequence of characters.
//!
//! The contracts of this crate speak of strings through their view, a
//! `Seq<char>`. This module holds the vocabulary they use (prefixes, trimming,
//! lines, decimal numerals, ...) and the executable functions for it.

use vstd::prelude::*;
use vstd::string::*;

verus! {

// ─── Standard library items ──────────────────────────────────────────────

/// `String::push` appends the given character to the end of the string.
pub assume_specification[ String::push ](s: &mut String, c: char)
    ensures
        final(s)@ == old(s)@.push(c),
;

/// Whether the standard library counts a character beyond ASCII as alphanumeric,
/// which it decides from Unicode's tables for `Alphabetic`, `Nd`, `Nl` and `No`.
pub uninterp spec fn alphanumeric(c: char) -> bool;

/// `char::is_alphanumeric`. Of ASCII it counts the letters and the digits, for
/// nothing else there is `Alphabetic` or a number; beyond ASCII its answer is
/// given the name [`alphanumeric`].
#[verifier::external_body]
pub(crate) fn is_alphanumeric(c: char) -> (r: bool)
    ensures
        (c as u32) < 128 ==> r == ascii_alphanumeric(c),
        (c as u32) >= 128 ==> r == alphanumeric(c),
{
    c.is_alphanumeric()
}

/// The lowercase equivalent by Unicode's rules of a text that is not all ASCII, as
/// the standard library computes it.
pub uninterp spec fn lowercase(s: Seq<char>) -> Seq<char>;

/// `str::to_lowercase`. An ASCII text has its capitals lowered; of any other the
/// result is given the name [`lowercase`]. One thing more is claimed: ASCII
/// characters that stand side by side in `s` come out side by side, each as its
/// ASCII lowercase (the one mapping that looks at the neighbours, that of the
/// Greek capital sigma, touches no ASCII character).
#[verifier::external_body]
pub(crate) fn to_lowercase(s: &str) -> (r: String)
    ensures
        all_ascii(s@) ==> r@ == ascii_lowercase(s@),
        !all_ascii(s@) ==> r@ == lowercase(s@),
        forall|t: Seq<char>|
            all_ascii(t) && #[trigger] occurs(s@, t) ==> occurs(r@, ascii_lowercase(t)),
{
    s.to_lowercase()
}

// ─── Characters ──────────────────────────────────────────────────────────

/// Unicode's `White_Space` property.
pub open spec fn is_space(c: char) -> bool {
    let u = c as u32;
    ||| 0x9 <= u <= 0xd
    ||| u == 0x20
    ||| u == 0x85
    ||| u == 0xa0
    ||| u == 0x1680
    ||| 0x2000 <= u <= 0x200a
    ||| u == 0x2028
    ||| u == 0x2029
    ||| u == 0x202f
    ||| u == 0x205f
    ||| u == 0x3000
}

/// Whether `c` is white space.
pub fn is_whitespace(c: char) -> (r: bool)
    ensures
        r == is_space(c),
{
    let u: u32 = c as u32;
    (0x9 <= u && u <= 0xd) || u == 0x20 || u == 0x85 || u == 0xa0 || u == 0x1680 || (0x2000 <= u
        && u <= 0x200a) || u == 0x2028 || u == 0x2029 || u == 0x202f || u == 0x205f || u == 0x3000
}

/// The ASCII letters and digits.
pub open spec fn ascii_alphanumeric(c: char) -> bool {
    ('a' <= c && c <= 'z') || ('A' <= c && c <= 'Z') || ('0' <= c && c <= '9')
}

/// Whether `c` is a letter or a digit.
pub open spec fn letter_or_digit(c: char) -> bool {
    if (c as u32) < 128 {
        ascii_alphanumeric(c)
    } else {
        alphanumeric(c)
    }
}

/// Whether every character of `s` is ASCII.
pub open spec fn all_ascii(s: Seq<char>) -> bool {
    forall|i: int| 0 <= i < s.len() ==> (#[trigger] s[i] as u32) < 128
}

/// The lowercase letter of an ASCII capital; any other character as it is.
pub open spec fn ascii_lower(c: char) -> char {
    if 65 <= c as u32 <= 90 {
        (c as u32 + 32) as char
    } else {
        c
    }
}

/// `s` with its ASCII capitals lowered.
pub open spec fn ascii_lowercase(s: Seq<char>) -> Seq<char> {
    Seq::new(s.len(), |i: int| ascii_lower(s[i]))
}

/// The lowercase equivalent of `s`.
pub open spec fn lower(s: Seq<char>) -> Seq<char> {
    if all_ascii(s) {
        ascii_lowercase(s)
    } else {
        lowercase(s)
    }
}

// ─── Conversion ──────────────────────────────────────────────────────────

/// The views of a sequence of strings.
pub open spec fn texts(v: Seq<String>) -> Seq<Seq<char>> {
    Seq::new(v.len(), |i: int| v[i]@)
}

/// The view of an optional string.
pub open spec fn text_opt(o: Option<String>) -> Option<Seq<char>> {
    match o {
        Some(s) => Some(s@),
        None => None,
    }
}

/// A copy of an optional string.
pub fn clone_opt(o: &Option<String>) -> (r: Option<String>)
    ensures
        text_opt(r) == text_opt(*o),
{
    match o {
        Some(s) => Some(s.clone()),
        None => None,
    }
}

/// A copy of a list of strings.
pub fn clone_strings(v: &Vec<String>) -> (r: Vec<String>)
    ensures
        texts(r@) == texts(v@),
{
    let mut out: Vec<String> = Vec::new();
    let mut i: usize = 0;
    while i < v.len()
        invariant
            i <= v.len(),
            texts(out@) == texts(v@).take(i as int),
        decreases v.len() - i,
    {
        let ghost before = texts(out@);
        out.push(v[i].clone());
        assert(texts(out@) =~= before.push(v@[i as int]@));
        i = i + 1;
    }
    out
}

/// A copy of the strings `from..to`.
pub fn clone_range(v: &[String], from: usize, to: usize) -> (r: Vec<String>)
    requires
        from <= to <= v@.len(),
    ensures
        texts(r@) == texts(v@).subrange(from as int, to as int),
{
    let mut out: Vec<String> = Vec::new();
    let mut i: usize = from;
    while i < to
        invariant
            from <= i <= to <= v@.len(),
            texts(out@) == texts(v@).subrange(from as int, i as int),
        decreases to - i,
    {
        let ghost before = texts(out@);
        out.push(v[i].clone());
        assert(texts(out@) =~= before.push(v@[i as int]@));
        assert(texts(out@) =~= texts(v@).subrange(from as int, i + 1));
        i = i + 1;
    }
    out
}

/// The characters of `s`, one element each.
pub fn to_chars(s: &str) -> (r: Vec<char>)
    ensures
        r@ == s@,
{
    let mut out: Vec<char> = Vec::new();
    for c in it: s.chars()
        invariant
            it.seq() == s@,
            out@ == s@.take(it.index() as int),
    {
        out.push(c);
    }
    out
}

/// The text held by `chars[from..to]`.
pub fn from_chars(chars: &Vec<char>, from: usize, to: usize) -> (r: String)
    requires
        from <= to <= chars.len(),
    ensures
        r@ == chars@.subrange(from as int, to as int),
{
    let mut out = String::new();
    let mut i: usize = from;
    while i < to
        invariant
            from <= i <= to <= chars.len(),
            out@ == chars@.subrange(from as int, i as int),
        decreases to - i,
    {
        out.push(chars[i]);
        i = i + 1;
    }
    out
}

/// Whether two texts are equal.
pub fn same_text(a: &str, b: &str) -> (r: bool)
    ensures
        r == (a@ == b@),
{
    let x = a.to_owned();
    let y = b.to_owned();
    x == y
}

// ─── Searching ───────────────────────────────────────────────────────────

/// Whether `t` stands in `s` at position `i`.
pub open spec fn stands_at(s: Seq<char>, t: Seq<char>, i: int) -> bool {
    0 <= i && i + t.len() <= s.len() && s.subrange(i, i + t.len()) == t
}

/// Whether `t` occurs somewhere in `s`.
pub open spec fn occurs(s: Seq<char>, t: Seq<char>) -> bool {
    exists|i: int| stands_at(s, t, i)
}

/// Whether `s` starts with `t`.
pub open spec fn has_prefix(s: Seq<char>, t: Seq<char>) -> bool {
    stands_at(s, t, 0)
}

/// Whether `s` ends with `t`.
pub open spec fn has_suffix(s: Seq<char>, t: Seq<char>) -> bool {
    stands_at(s, t, s.len() - t.len())
}

/// Whether `t` stands in `s` at position `i`.
pub fn matches_at(s: &Vec<char>, t: &Vec<char>, i: usize) -> (r: bool)
    ensures
        r == stands_at(s@, t@, i as int),
{
    if i > s.len() || t.len() > s.len() - i {
        return false;
    }
    let mut k: usize = 0;
    while k < t.len()
        invariant
            k <= t.len(),
            i + t.len() <= s.len(),
            forall|j: int| 0 <= j < k ==> s@[i + j] == #[trigger] t@[j],
        decreases t.len() - k,
    {
        if s[i + k] != t[k] {
            assert(s@.subrange(i as int, i + t.len())[k as int] != t@[k as int]);
            return false;
        }
        k = k + 1;
    }
    assert(s@.subrange(i as int, i + t.len()) =~= t@);
    true
}

/// Whether `t` occurs in `s`.
pub fn contains(s: &str, t: &str) -> (r: bool)
    ensures
        r == occurs(s@, t@),
{
    let sv = to_chars(s);
    let tv = to_chars(t);
    let mut i: usize = 0;
    while i < sv.len()
        invariant
            i <= sv.len(),
            sv@ == s@,
            tv@ == t@,
            forall|j: int| 0 <= j < i ==> !stands_at(s@, t@, j),
        decreases sv.len() - i,
    {
        if matches_at(&sv, &tv, i) {
            return true;
        }
        i = i + 1;
    }
    let last = matches_at(&sv, &tv, i);
    proof {
        if !last {
            assert forall|j: int| !stands_at(s@, t@, j) by {}
        }
    }
    last
}

/// Whether `s` ends with `t`.
pub fn ends_with(s: &str, t: &str) -> (r: bool)
    ensures
        r == has_suffix(s@, t@),
{
    let sv = to_chars(s);
    let tv = to_chars(t);
    if tv.len() > sv.len() {
        return false;
    }
    matches_at(&sv, &tv, sv.len() - tv.len())
}

/// `s` occurs in any text of which it is a middle part.
pub proof fn lemma_occurs_in_middle(a: Seq<char>, s: Seq<char>, b: Seq<char>)
    ensures
        occurs(a + s + b, s),
{
    let w = a + s + b;
    assert(w.subrange(a.len() as int, (a.len() + s.len()) as int) =~= s);
    assert(stands_at(w, s, a.len() as int));
}

/// A text still starts as it did when something is put behind it.
pub proof fn lemma_prefix_stays(s: Seq<char>, t: Seq<char>, more: Seq<char>)
    requires
        has_prefix(s, t),
    ensures
        has_prefix(s + more, t),
{
    assert((s + more).subrange(0, t.len() as int) =~= s.subrange(0, t.len() as int));
}

/// Two texts in a row start with the one and end with the other.
pub proof fn lemma_ends_of_sum(a: Seq<char>, b: Seq<char>)
    ensures
        has_prefix(a + b, a),
        has_suffix(a + b, b),
{
    assert((a + b).subrange(0, a.len() as int) =~= a);
    assert((a + b).subrange(a.len() as int, (a + b).len() as int) =~= b);
}

// ─── Trimming ────────────────────────────────────────────────────────────

/// `s` without the white space it starts with.
pub open spec fn trim_start(s: Seq<char>) -> Seq<char>
    decreases s.len(),
{
    if s.len() > 0 && is_space(s[0]) {
        trim_start(s.drop_first())
    } else {
        s
    }
}

/// `s` without the white space it ends with.
pub open spec fn trim_end(s: Seq<char>) -> Seq<char>
    decreases s.len(),
{
    if s.len() > 0 && is_space(s.last()) {
        trim_end(s.drop_last())
    } else {
        s
    }
}

/// `s` without the white space at either end.
pub open spec fn trimmed(s: Seq<char>) -> Seq<char> {
    trim_end(trim_start(s))
}

/// `s` without the run of `c` it starts with.
pub open spec fn drop_front(s: Seq<char>, c: char) -> Seq<char>
    decreases s.len(),
{
    if s.len() > 0 && s[0] == c {
        drop_front(s.drop_first(), c)
    } else {
        s
    }
}

/// `s` without the run of `c` it ends with.
pub open spec fn drop_back(s: Seq<char>, c: char) -> Seq<char>
    decreases s.len(),
{
    if s.len() > 0 && s.last() == c {
        drop_back(s.drop_last(), c)
    } else {
        s
    }
}

/// `s` holds nothing but white space.
pub open spec fn blank(s: Seq<char>) -> bool {
    forall|i: int| 0 <= i < s.len() ==> is_space(#[trigger] s[i])
}

/// A text is blank exactly when trimming leaves nothing of it.
pub proof fn lemma_blank_is_trimmed_empty(s: Seq<char>)
    ensures
        blank(s) <==> trimmed(s).len() == 0,
    decreases s.len(),
{
    if s.len() > 0 {
        if is_space(s[0]) {
            lemma_blank_is_trimmed_empty(s.drop_first());
            if blank(s.drop_first()) {
                assert forall|i: int| 0 <= i < s.len() implies is_space(#[trigger] s[i]) by {
                    if i > 0 {
                        assert(s[i] == s.drop_first()[i - 1]);
                    }
                }
            }
            if blank(s) {
                assert forall|i: int| 0 <= i < s.drop_first().len() implies is_space(
                    #[trigger] s.drop_first()[i],
                ) by {
                    assert(s.drop_first()[i] == s[i + 1]);
                }
            }
        } else {
            lemma_trim_end_keeps_front(s);
        }
    }
}

/// Trimming the end keeps a first character that is no white space.
pub proof fn lemma_trim_end_keeps_front(s: Seq<char>)
    requires
        s.len() > 0,
        !is_space(s[0]),
    ensures
        trim_end(s).len() > 0,
        trim_end(s)[0] == s[0],
    decreases s.len(),
{
    if is_space(s.last()) {
        lemma_trim_end_keeps_front(s.drop_last());
    }
}

/// Nothing but a run of `c` is dropped at the end, and all of it.
pub proof fn lemma_drop_back(s: Seq<char>, c: char)
    ensures
        drop_back(s, c).len() > 0 ==> drop_back(s, c).last() != c,
        drop_back(s, c).len() <= s.len(),
        drop_back(s, c) == s.take(drop_back(s, c).len() as int),
        forall|i: int| drop_back(s, c).len() <= i < s.len() ==> #[trigger] s[i] == c,
    decreases s.len(),
{
    if s.len() > 0 && s.last() == c {
        lemma_drop_back(s.drop_last(), c);
        let t = drop_back(s, c);
        assert(s.drop_last().take(t.len() as int) =~= s.take(t.len() as int));
        assert forall|i: int| t.len() <= i < s.len() implies #[trigger] s[i] == c by {
            if i < s.len() - 1 {
                assert(s.drop_last()[i] == s[i]);
            }
        }
    } else {
        assert(s.take(s.len() as int) =~= s);
    }
}

/// Nothing but a run of `c` is dropped at the front, and all of it.
pub proof fn lemma_drop_front(s: Seq<char>, c: char)
    ensures
        drop_front(s, c).len() > 0 ==> drop_front(s, c)[0] != c,
        drop_front(s, c).len() <= s.len(),
        drop_front(s, c) == s.skip(s.len() - drop_front(s, c).len()),
        forall|i: int| 0 <= i < s.len() - drop_front(s, c).len() ==> #[trigger] s[i] == c,
    decreases s.len(),
{
    if s.len() > 0 && s[0] == c {
        lemma_drop_front(s.drop_first(), c);
        let t = drop_front(s, c);
        assert(s.drop_first().skip(s.len() - 1 - t.len()) =~= s.skip(s.len() - t.len()));
        assert forall|i: int| 0 <= i < s.len() - t.len() implies #[trigger] s[i] == c by {
            if i > 0 {
                assert(s.drop_first()[i - 1] == s[i]);
            }
        }
    } else {
        assert(s.skip(0) =~= s);
    }
}

/// `s` without the white space at either end.
pub fn trim(s: &str) -> (r: String)
    ensures
        r@ == trimmed(s@),
{
    let v = to_chars(s);
    let mut from: usize = 0;
    assert(v@.subrange(0, v@.len() as int) =~= s@);
    while from < v.len() && is_whitespace(v[from])
        invariant
            from <= v.len(),
            trim_start(v@.subrange(from as int, v@.len() as int)) == trim_start(s@),
        decreases v.len() - from,
    {
        assert(v@.subrange(from as int, v@.len() as int).drop_first() =~= v@.subrange(
            from + 1,
            v@.len() as int,
        ));
        from = from + 1;
    }
    let mut to: usize = v.len();
    while from < to && is_whitespace(v[to - 1])
        invariant
            from <= to <= v.len(),
            trim_end(v@.subrange(from as int, to as int)) == trimmed(s@),
        decreases to,
    {
        assert(v@.subrange(from as int, to as int).drop_last() =~= v@.subrange(
            from as int,
            to - 1,
        ));
        to = to - 1;
    }
    from_chars(&v, from, to)
}

/// `s` without the run of `c` it ends with.
pub fn trim_end_char(s: &str, c: char) -> (r: String)
    ensures
        r@ == drop_back(s@, c),
{
    let v = to_chars(s);
    let mut to: usize = v.len();
    assert(v@.subrange(0, v@.len() as int) =~= s@);
    while 0 < to && v[to - 1] == c
        invariant
            to <= v.len(),
            drop_back(v@.subrange(0, to as int), c) == drop_back(s@, c),
        decreases to,
    {
        assert(v@.subrange(0, to as int).drop_last() =~= v@.subrange(0, to - 1));
        to = to - 1;
    }
    from_chars(&v, 0, to)
}

/// `s` without the run of `c` it starts with.
pub fn trim_start_char(s: &str, c: char) -> (r: String)
    ensures
        r@ == drop_front(s@, c),
{
    let v = to_chars(s);
    let mut from: usize = 0;
    assert(v@.subrange(0, v@.len() as int) =~= s@);
    while from < v.len() && v[from] == c
        invariant
            from <= v.len(),
            drop_front(v@.subrange(from as int, v@.len() as int), c) == drop_front(s@, c),
        decreases v.len() - from,
    {
        assert(v@.subrange(from as int, v@.len() as int).drop_first() =~= v@.subrange(
            from + 1,
            v@.len() as int,
        ));
        from = from + 1;
    }
    from_chars(&v, from, v.len())
}

/// Whether `s` holds nothing but white space.
pub fn is_blank(s: &str) -> (r: bool)
    ensures
        r == blank(s@),
{
    for c in it: s.chars()
        invariant
            it.seq() == s@,
            forall|i: int| 0 <= i < it.index() ==> is_space(#[trigger] s@[i]),
    {
        if !is_whitespace(c) {
            assert(!is_space(s@[it.index() as int]));
            return false;
        }
    }
    true
}

// ─── Joining and splitting ───────────────────────────────────────────────

/// The parts one after the other, with `sep` between any two neighbours.
pub open spec fn join(parts: Seq<Seq<char>>, sep: Seq<char>) -> Seq<char>
    decreases parts.len(),
{
    if parts.len() == 0 {
        seq![]
    } else if parts.len() == 1 {
        parts[0]
    } else {
        join(parts.drop_last(), sep) + sep + parts.last()
    }
}

/// `parts[from..to]` joined by `sep`.
pub fn join_range(parts: &Vec<String>, from: usize, to: usize, sep: &str) -> (r: String)
    requires
        from <= to <= parts.len(),
    ensures
        r@ == join(texts(parts@).subrange(from as int, to as int), sep@),
{
    let mut out = String::new();
    let mut i: usize = from;
    while i < to
        invariant
            from <= i <= to <= parts.len(),
            out@ == join(texts(parts@).subrange(from as int, i as int), sep@),
        decreases to - i,
    {
        let ghost before = texts(parts@).subrange(from as int, i as int);
        let ghost after = texts(parts@).subrange(from as int, i + 1);
        assert(after.drop_last() =~= before);
        assert(after.last() == parts@[i as int]@);
        if i > from {
            out.append(sep);
            out.append(parts[i].as_str());
        } else {
            out.append(parts[i].as_str());
            assert(out@ =~= parts@[i as int]@);
        }
        i = i + 1;
    }
    out
}

/// The position of the first `c` in `s`, or the length of `s` if it has none.
pub open spec fn first_index(s: Seq<char>, c: char) -> int
    decreases s.len(),
{
    if s.len() == 0 || s[0] == c {
        0
    } else {
        1 + first_index(s.drop_first(), c)
    }
}

/// `s` without one carriage return at its end, if it has one.
pub open spec fn strip_cr(s: Seq<char>) -> Seq<char> {
    if s.len() > 0 && s.last() == '\r' {
        s.drop_last()
    } else {
        s
    }
}

/// The lines of `s`. A line ends with a line feed, or a carriage return and a
/// line feed, neither of which is part of it; the last line needs no ending.
pub open spec fn lines(s: Seq<char>) -> Seq<Seq<char>>
    decreases s.len(),
    via lines_decreases
{
    if s.len() == 0 {
        seq![]
    } else {
        let k = first_index(s, '\n');
        if k >= s.len() {
            seq![s]
        } else {
            seq![strip_cr(s.take(k))] + lines(s.skip(k + 1))
        }
    }
}

#[via_fn]
proof fn lines_decreases(s: Seq<char>) {
    lemma_first_index(s, '\n');
}

/// What `first_index` finds.
pub proof fn lemma_first_index(s: Seq<char>, c: char)
    ensures
        0 <= first_index(s, c) <= s.len(),
        first_index(s, c) < s.len() ==> s[first_index(s, c)] == c,
        forall|i: int| 0 <= i < first_index(s, c) ==> s[i] != c,
    decreases s.len(),
{
    if s.len() > 0 && s[0] != c {
        lemma_first_index(s.drop_first(), c);
        assert forall|i: int| 0 <= i < first_index(s, c) implies s[i] != c by {
            if i > 0 {
                assert(s[i] == s.drop_first()[i - 1]);
            }
        }
    }
}

/// A position that holds `c`, with none before it, is the first.
pub proof fn lemma_first_index_is(s: Seq<char>, c: char, k: int)
    requires
        0 <= k <= s.len(),
        k < s.len() ==> s[k] == c,
        forall|i: int| 0 <= i < k ==> s[i] != c,
    ensures
        first_index(s, c) == k,
{
    lemma_first_index(s, c);
    let f = first_index(s, c);
    if f < k {
        assert(s[f] != c);
    } else if k < f {
        assert(s[k] != c);
    }
}

/// The lines of `s`.
pub fn split_lines(s: &str) -> (r: Vec<String>)
    ensures
        texts(r@) == lines(s@),
{
    let v = to_chars(s);
    let mut out: Vec<String> = Vec::new();
    let mut pos: usize = 0;
    assert(v@.skip(0) =~= s@);
    assert(texts(out@) + lines(s@) =~= lines(s@));
    while pos < v.len()
        invariant
            pos <= v.len(),
            texts(out@) + lines(v@.skip(pos as int)) == lines(s@),
        decreases v.len() - pos,
    {
        let ghost rest = v@.skip(pos as int);
        let mut k: usize = pos;
        while k < v.len() && v[k] != '\n'
            invariant
                pos <= k <= v.len(),
                forall|i: int| pos <= i < k ==> v@[i] != '\n',
            decreases v.len() - k,
        {
            k = k + 1;
        }
        proof {
            lemma_first_index_is(rest, '\n', k - pos);
        }
        let ghost before = texts(out@);
        if k < v.len() {
            let mut end: usize = k;
            if pos < k && v[k - 1] == '\r' {
                end = k - 1;
            }
            assert(v@.subrange(pos as int, end as int) =~= strip_cr(rest.take(k - pos)));
            out.push(from_chars(&v, pos, end));
            assert(rest.skip(k - pos + 1) =~= v@.skip(k + 1));
            assert(texts(out@) =~= before.push(strip_cr(rest.take(k - pos))));
            assert(texts(out@) + lines(v@.skip(k + 1)) =~= before + (seq![
                strip_cr(rest.take(k - pos)),
            ] + lines(v@.skip(k + 1))));
            pos = k + 1;
        } else {
            out.push(from_chars(&v, pos, v.len()));
            assert(v@.subrange(pos as int, v@.len() as int) =~= rest);
            assert(texts(out@) =~= before.push(rest));
            assert(lines(v@.skip(v@.len() as int)) =~= seq![]);
            assert(texts(out@) + lines(v@.skip(v@.len() as int)) =~= before + seq![rest]);
            pos = v.len();
        }
    }
    assert(lines(v@.skip(pos as int)) =~= seq![]);
    assert(texts(out@) + lines(v@.skip(pos as int)) =~= texts(out@));
    out
}

// ─── Numerals ────────────────────────────────────────────────────────────

/// The decimal digit for `d`, which is below ten.
pub open spec fn digit(d: nat) -> char {
    (48 + d) as char
}

/// The decimal numeral of `n`.
pub open spec fn decimal(n: nat) -> Seq<char>
    decreases n,
{
    if n < 10 {
        seq![digit(n)]
    } else {
        decimal(n / 10).push(digit(n % 10))
    }
}

/// The decimal numeral of `n`, with a minus sign before it if `n` is negative.
pub open spec fn signed_decimal(n: int) -> Seq<char> {
    if n < 0 {
        seq!['-'] + decimal((-n) as nat)
    } else {
        decimal(n as nat)
    }
}

/// Appends the decimal numeral of `n` to `s`.
pub fn push_decimal(s: &mut String, n: u64)
    ensures
        final(s)@ == old(s)@ + decimal(n as nat),
    decreases n,
{
    if n >= 10 {
        push_decimal(s, n / 10);
    }
    s.push((48u8 + (n % 10) as u8) as char);
}

/// Appends the decimal numeral of `n`, with its sign, to `s`.
pub fn push_signed(s: &mut String, n: i64)
    ensures
        final(s)@ == old(s)@ + signed_decimal(n as int),
{
    if n < 0 {
        let m: u64 = (-(n as i128)) as u64;
        s.push('-');
        push_decimal(s, m);
        assert(s@ =~= old(s)@ + signed_decimal(n as int));
    } else {
        push_decimal(s, n as u64);
    }
}

// ─── Bytes ───────────────────────────────────────────────────────────────

/// The number of bytes that `c` takes in UTF-8.
pub open spec fn utf8_width(c: char) -> nat {
    let u = c as u32;
    if u < 0x80 {
        1
    } else if u < 0x800 {
        2
    } else if u < 0x10000 {
        3
    } else {
        4
    }
}

/// The number of bytes that `s` takes in UTF-8.
pub open spec fn utf8_len(s: Seq<char>) -> nat
    decreases s.len(),
{
    if s.len() == 0 {
        0
    } else {
        utf8_width(s[0]) + utf8_len(s.drop_first())
    }
}

/// The longest part of `s` up to its end that takes no more than `n` bytes in
/// UTF-8.
pub open spec fn tail(s: Seq<char>, n: nat) -> Seq<char>
    decreases s.len(),
{
    if s.len() == 0 || utf8_len(s) <= n {
        s
    } else {
        tail(s.drop_first(), n)
    }
}

/// The number of bytes that `c` takes in UTF-8.
pub fn width(c: char) -> (r: usize)
    ensures
        r == utf8_width(c),
{
    let u: u32 = c as u32;
    if u < 0x80 {
        1
    } else if u < 0x800 {
        2
    } else if u < 0x10000 {
        3
    } else {
        4
    }
}

/// A text has no more characters than bytes.
pub proof fn lemma_chars_fit_in_bytes(s: Seq<char>)
    ensures
        s.len() <= utf8_len(s),
    decreases s.len(),
{
    if s.len() > 0 {
        lemma_chars_fit_in_bytes(s.drop_first());
    }
}

/// A tail ends the text, fits, and would not fit with one character more.
pub proof fn lemma_tail(s: Seq<char>, n: nat)
    ensures
        tail(s, n).len() <= s.len(),
        tail(s, n) == s.skip(s.len() - tail(s, n).len()),
        utf8_len(tail(s, n)) <= n,
        tail(s, n).len() < s.len() ==> utf8_len(s.skip(s.len() - tail(s, n).len() - 1)) > n,
    decreases s.len(),
{
    assert(s.skip(0) =~= s);
    if s.len() > 0 && utf8_len(s) > n {
        let rest = s.drop_first();
        lemma_tail(rest, n);
        let k = tail(rest, n).len();
        assert(rest.skip(rest.len() - k) =~= s.skip(s.len() - k));
        if k < rest.len() {
            assert(rest.skip(rest.len() - k - 1) =~= s.skip(s.len() - k - 1));
        } else {
            assert(s.skip(s.len() - k - 1) =~= s);
        }
    }
}

/// Where too much is left, the tail is found further on.
proof fn lemma_tail_from(s: Seq<char>, n: nat, k: int)
    requires
        0 <= k <= s.len(),
        utf8_len(s.skip(k)) <= n,
        k > 0 ==> utf8_len(s.skip(k - 1)) > n,
    ensures
        tail(s, n) == s.skip(k),
    decreases k,
{
    assert(s.skip(0) =~= s);
    if k > 0 {
        let rest = s.drop_first();
        assert(rest.skip(k - 1) =~= s.skip(k));
        if k > 1 {
            assert(rest.skip(k - 2) =~= s.skip(k - 1));
            lemma_skip_is_shorter(s, 0, k - 1);
        }
        lemma_tail_from(rest, n, k - 1);
    }
}

/// A later part of a text is shorter.
proof fn lemma_skip_is_shorter(s: Seq<char>, a: int, b: int)
    requires
        0 <= a < b <= s.len(),
    ensures
        utf8_len(s.skip(b)) < utf8_len(s.skip(a)),
    decreases b - a,
{
    assert(s.skip(a).drop_first() =~= s.skip(a + 1));
    if a + 1 < b {
        lemma_skip_is_shorter(s, a + 1, b);
    }
}

/// Where the tail of at most `n` bytes starts, in characters.
pub fn tail_start(s: &Vec<char>, n: usize) -> (r: usize)
    ensures
        r <= s@.len(),
        s@.skip(r as int) == tail(s@, n as nat),
{
    let mut from: usize = s.len();
    let mut total: usize = 0;
    assert(s@.skip(from as int) =~= seq![]);
    while 0 < from && width(s[from - 1]) <= n - total
        invariant
            from <= s.len(),
            total <= n,
            total == utf8_len(s@.skip(from as int)),
        decreases from,
    {
        total = total + width(s[from - 1]);
        from = from - 1;
        assert(s@.skip(from as int).drop_first() =~= s@.skip(from + 1));
    }
    proof {
        if from > 0 {
            assert(s@.skip(from - 1).drop_first() =~= s@.skip(from as int));
        }
        lemma_tail_from(s@, n as nat, from as int);
    }
    from
}

// ─── Laws ────────────────────────────────────────────────────────────────

/// White space of ASCII is the blank and the controls from tab to carriage return;
/// no other ASCII character is.
pub proof fn law_ascii_space(c: char)
    requires
        (c as u32) < 128,
    ensures
        is_space(c) <==> c == ' ' || c == '\t' || c == '\n' || c == '\r' || c as u32 == 0xb
            || c as u32 == 0xc,
{
}

/// Of ASCII the letters and digits are those with the codes of `0` to `9`, `A` to
/// `Z` and `a` to `z`.
pub proof fn law_ascii_letters_and_digits(c: char)
    requires
        (c as u32) < 128,
    ensures
        letter_or_digit(c) <==> 48 <= c as u32 <= 57 || 65 <= c as u32 <= 90 || 97 <= c as u32
            <= 122,
{
}

/// Trimming takes white space off both ends and nothing else: what is left is a
/// middle part of the text that neither starts nor ends with white space, and what
/// was around it is white space.
pub proof fn law_trimming_is_exact(s: Seq<char>) -> (from: int)
    ensures
        0 <= from <= from + trimmed(s).len() <= s.len(),
        trimmed(s) == s.subrange(from, from + trimmed(s).len()),
        forall|i: int| 0 <= i < from ==> is_space(#[trigger] s[i]),
        forall|i: int| from + trimmed(s).len() <= i < s.len() ==> is_space(#[trigger] s[i]),
        trimmed(s).len() > 0 ==> !is_space(trimmed(s)[0]) && !is_space(trimmed(s).last()),
{
    let from = lemma_trim_start(s);
    let mid = trim_start(s);
    let n = lemma_trim_end(mid);
    assert(trimmed(s) =~= s.subrange(from, from + trimmed(s).len()));
    assert forall|i: int| from + trimmed(s).len() <= i < s.len() implies is_space(
        #[trigger] s[i],
    ) by {
        assert(mid[i - from] == s[i]);
    }
    from
}

proof fn lemma_trim_start(s: Seq<char>) -> (from: int)
    ensures
        0 <= from <= s.len(),
        trim_start(s) == s.skip(from),
        forall|i: int| 0 <= i < from ==> is_space(#[trigger] s[i]),
        from < s.len() ==> !is_space(s[from]),
    decreases s.len(),
{
    if s.len() > 0 && is_space(s[0]) {
        let n = lemma_trim_start(s.drop_first());
        assert(s.drop_first().skip(n) =~= s.skip(n + 1));
        assert forall|i: int| 0 <= i < n + 1 implies is_space(#[trigger] s[i]) by {
            if i > 0 {
                assert(s[i] == s.drop_first()[i - 1]);
            }
        }
        if n + 1 < s.len() {
            assert(s[n + 1] == s.drop_first()[n]);
        }
        n + 1
    } else {
        assert(s.skip(0) =~= s);
        0
    }
}

proof fn lemma_trim_end(s: Seq<char>) -> (to: int)
    ensures
        0 <= to <= s.len(),
        trim_end(s) == s.take(to),
        forall|i: int| to <= i < s.len() ==> is_space(#[trigger] s[i]),
        to > 0 ==> !is_space(s[to - 1]),
    decreases s.len(),
{
    if s.len() > 0 && is_space(s.last()) {
        let n = lemma_trim_end(s.drop_last());
        assert(s.drop_last().take(n) =~= s.take(n));
        assert forall|i: int| n <= i < s.len() implies is_space(#[trigger] s[i]) by {
            if i < s.len() - 1 {
                assert(s[i] == s.drop_last()[i]);
            }
        }
        n
    } else {
        assert(s.take(s.len() as int) =~= s);
        s.len() as int
    }
}

/// Joining puts the separator between any two neighbours and nowhere else: one part
/// is joined to itself, and two lists of parts may be joined one by one.
pub proof fn law_join_separates_neighbours(a: Seq<Seq<char>>, b: Seq<Seq<char>>, sep: Seq<char>)
    ensures
        join(seq![], sep) == Seq::<char>::empty(),
        a.len() == 1 ==> join(a, sep) == a[0],
        a.len() > 0 && b.len() > 0 ==> join(a + b, sep) == join(a, sep) + sep + join(b, sep),
    decreases b.len(),
{
    if a.len() > 0 && b.len() > 0 {
        let front = b.drop_last();
        assert((a + b).drop_last() =~= a + front);
        assert((a + b).last() == b.last());
        if b.len() == 1 {
            assert(a + front =~= a);
        } else {
            law_join_separates_neighbours(a, front, sep);
            assert(join(a + b, sep) =~= join(a, sep) + sep + join(b, sep));
        }
    }
}

/// A line ends at its line feed, which is no part of it, nor is a carriage return
/// right before that; what follows are further lines. Without a line feed all of a
/// text is one line, and no text has no line.
pub proof fn law_lines_end_at_line_feeds(line: Seq<char>, rest: Seq<char>)
    requires
        forall|i: int| 0 <= i < line.len() ==> #[trigger] line[i] != '\n',
    ensures
        lines(seq![]) == Seq::<Seq<char>>::empty(),
        line.len() > 0 ==> lines(line) == seq![line],
        (line.len() == 0 || line.last() != '\r') ==> lines(line + seq!['\n'] + rest) == seq![line]
            + lines(rest),
        lines(line + seq!['\r', '\n'] + rest) == seq![line] + lines(rest),
{
    lemma_first_index_is(line, '\n', line.len() as int);
    let s = line + seq!['\n'] + rest;
    let n = line.len() as int;
    lemma_first_index_is(s, '\n', n);
    assert(s.take(n) =~= line);
    assert(s.skip(n + 1) =~= rest);
    let t = line + seq!['\r', '\n'] + rest;
    lemma_first_index_is(t, '\n', n + 1);
    assert(t.take(n + 1) =~= line.push('\r'));
    assert(line.push('\r').drop_last() =~= line);
    assert(t.skip(n + 2) =~= rest);
}

/// The number that decimal digits stand for.
pub open spec fn number_of(digits: Seq<char>) -> int
    decreases digits.len(),
{
    if digits.len() == 0 {
        0
    } else {
        10 * number_of(digits.drop_last()) + (digits.last() as u32 - '0' as u32)
    }
}

/// A decimal numeral consists of digits, reads back as its number, and starts with
/// a zero only where it is that digit alone; a negative number has a minus sign
/// before the numeral.
pub proof fn law_numerals_read_back(n: nat)
    ensures
        decimal(n).len() > 0,
        forall|i: int| 0 <= i < decimal(n).len() ==> '0' <= #[trigger] decimal(n)[i] <= '9',
        number_of(decimal(n)) == n,
        decimal(n)[0] == '0' ==> decimal(n).len() == 1,
        signed_decimal(n as int) == decimal(n),
        n > 0 ==> signed_decimal(-n) == seq!['-'] + decimal(n),
    decreases n,
{
    if n < 10 {
        assert(decimal(n).drop_last() =~= seq![]);
        assert(number_of(decimal(n).drop_last()) == 0);
    } else {
        law_numerals_read_back(n / 10);
        let front = decimal(n / 10);
        assert(decimal(n).drop_last() =~= front);
        assert(decimal(n)[0] == front[0]);
        if front[0] == '0' {
            assert(front =~= seq!['0']);
            assert(front.drop_last() =~= seq![]);
            assert(number_of(front.drop_last()) == 0);
            assert(number_of(front) == 0);
        }
    }
}

/// The bytes of a text are counted as UTF-8 encodes it.
pub proof fn law_bytes_are_those_of_utf8(s: Seq<char>)
    ensures
        utf8_len(s) == vstd::utf8::encode_utf8(s).len(),
    decreases s.len(),
{
    if s.len() > 0 {
        law_bytes_are_those_of_utf8(s.drop_first());
        vstd::utf8::char_is_scalar(s[0]);
    }
}

/// Of a text that takes more bytes than allowed, the longest end that fits is kept;
/// one that fits is kept whole.
pub proof fn law_tail_is_the_longest_that_fits(s: Seq<char>, n: nat, k: int)
    requires
        0 <= k <= s.len(),
    ensures
        has_suffix(s, tail(s, n)),
        utf8_len(tail(s, n)) <= n,
        utf8_len(s.skip(k)) <= n ==> s.len() - k <= tail(s, n).len(),
{
    lemma_tail(s, n);
    let at = s.len() - tail(s, n).len();
    assert(s.subrange(at, s.len() as int) =~= s.skip(at));
    if utf8_len(s.skip(k)) <= n && k < at {
        if k < at - 1 {
            lemma_skip_is_shorter(s, k, at - 1);
        }
    }
}


/// White space beyond ASCII: next line, the no-break and ideographic spaces, the
/// spaces from U+2000 to U+200A, and the line and paragraph separators with their
/// like.
pub proof fn law_space_beyond_ascii(c: char)
    requires
        c as u32 >= 128,
    ensures
        is_space(c) <==> seq![
            0x85u32, 0xa0, 0x1680, 0x2000, 0x2001, 0x2002, 0x2003, 0x2004, 0x2005, 0x2006, 0x2007,
            0x2008, 0x2009, 0x200a, 0x2028, 0x2029, 0x202f, 0x205f, 0x3000,
        ].contains(c as u32),
{
    let spaces = seq![
        0x85u32, 0xa0, 0x1680, 0x2000, 0x2001, 0x2002, 0x2003, 0x2004, 0x2005, 0x2006, 0x2007,
        0x2008, 0x2009, 0x200a, 0x2028, 0x2029, 0x202f, 0x205f, 0x3000,
    ];
    let u = c as u32;
    if is_space(c) {
        let i: int = if u == 0x85 {
            0
        } else if u == 0xa0 {
            1
        } else if u == 0x1680 {
            2
        } else if u <= 0x200a {
            3 + (u - 0x2000)
        } else if u == 0x2028 {
            14
        } else if u == 0x2029 {
            15
        } else if u == 0x202f {
            16
        } else if u == 0x205f {
            17
        } else {
            18
        };
        assert(spaces[i] == u);
    }
}

/// A text stands in another where it agrees with it character by character; it starts
/// that text where it stands at its start, ends it where it stands at its end, and
/// occurs in it where it stands anywhere.
pub proof fn law_standing_in_a_text(s: Seq<char>, t: Seq<char>, i: int)
    ensures
        stands_at(s, t, i) <==> 0 <= i && i + t.len() <= s.len() && forall|j: int|
            0 <= j < t.len() ==> s[i + j] == #[trigger] t[j],
        stands_at(s, t, i) ==> occurs(s, t),
        has_prefix(s, t) <==> t.len() <= s.len() && s.take(t.len() as int) == t,
        has_suffix(s, t) <==> t.len() <= s.len() && s.skip(s.len() - t.len()) == t,
        occurs(s, t) ==> t.len() <= s.len(),
{
    if stands_at(s, t, i) {
        assert forall|j: int| 0 <= j < t.len() implies s[i + j] == #[trigger] t[j] by {
            assert(s.subrange(i, i + t.len())[j] == s[i + j]);
        }
    }
    if 0 <= i && i + t.len() <= s.len() && forall|j: int|
        0 <= j < t.len() ==> s[i + j] == #[trigger] t[j] {
        assert(s.subrange(i, i + t.len()) =~= t);
    }
    if t.len() <= s.len() {
        assert(s.subrange(0, t.len() as int) =~= s.take(t.len() as int));
        assert(s.subrange(s.len() - t.len(), s.len() as int) =~= s.skip(s.len() - t.len()));
    }
}

/// An ASCII text in lowercase is as long, has the small letter for every capital, and
/// any other character as it is.
pub proof fn law_lowercase_of_ascii(s: Seq<char>, i: int)
    requires
        all_ascii(s),
        0 <= i < s.len(),
    ensures
        lower(s).len() == s.len(),
        65 <= s[i] as u32 <= 90 ==> lower(s)[i] as u32 == s[i] as u32 + 32,
        !(65 <= s[i] as u32 <= 90) ==> lower(s)[i] == s[i],
{
}

/// The model of a list of strings has each of them at its place; that of an optional
/// one is there where it is.
pub proof fn law_text_models(list: Seq<String>, o: Option<String>, i: int)
    ensures
        texts(list).len() == list.len(),
        0 <= i < list.len() ==> texts(list)[i] == list[i]@,
        text_opt(o) is Some <==> o is Some,
        o matches Some(s) ==> text_opt(o) == Some(s@),
{
}

} // verus!
