//! Text as sequences of characters.
//!
//! Every rule of this library that reads text is stated over `Seq<char>`. This module holds
//! the vocabulary for those statements (trimming, words, lines, searching, ASCII case, decimal
//! numbers) and the functions that compute it.

use vstd::prelude::*;
use vstd::slice::slice_subrange;

verus! {

/// The standard library's `String::push`: the character is added at the end.
pub assume_specification[ String::push ](s: &mut String, ch: char)
    ensures
        final(s)@ == old(s)@.push(ch),
;

/// The standard library's `String::push_str`: the text is added at the end.
pub assume_specification[ String::push_str ](s: &mut String, string: &str)
    ensures
        final(s)@ == old(s)@ + string@,
;

/// The standard library's `==` on string slices: true exactly for the same characters in the
/// same order.
#[verifier::external_body]
pub(crate) fn same(a: &str, b: &str) -> (r: bool)
    ensures
        r == (a@ == b@),
{
    a == b
}

// ---------------------------------------------------------------------------------------------
// Characters
// ---------------------------------------------------------------------------------------------

/// The characters with Unicode's `White_Space` property.
pub open spec fn is_ws(c: char) -> bool {
    ||| '\t' <= c <= '\r'
    ||| c == ' '
    ||| c == '\u{85}'
    ||| c == '\u{a0}'
    ||| c == '\u{1680}'
    ||| '\u{2000}' <= c <= '\u{200a}'
    ||| c == '\u{2028}'
    ||| c == '\u{2029}'
    ||| c == '\u{202f}'
    ||| c == '\u{205f}'
    ||| c == '\u{3000}'
}

/// Whether `c` is white space.
pub fn whitespace(c: char) -> (r: bool)
    ensures
        r == is_ws(c),
{
    ('\t' <= c && c <= '\r') || c == ' ' || c == '\u{85}' || c == '\u{a0}' || c == '\u{1680}'
        || ('\u{2000}' <= c && c <= '\u{200a}') || c == '\u{2028}' || c == '\u{2029}'
        || c == '\u{202f}' || c == '\u{205f}' || c == '\u{3000}'
}

/// `c` with an ASCII capital turned into its small letter.
pub open spec fn lower_char(c: char) -> char {
    if 'A' <= c <= 'Z' {
        ((c as u8) + 32) as char
    } else {
        c
    }
}

/// `c` with an ASCII small letter turned into its capital.
pub open spec fn upper_char(c: char) -> char {
    if 'a' <= c <= 'z' {
        ((c as u8) - 32) as char
    } else {
        c
    }
}

fn lower(c: char) -> (r: char)
    ensures
        r == lower_char(c),
{
    if 'A' <= c && c <= 'Z' {
        ((c as u8) + 32) as char
    } else {
        c
    }
}

fn upper(c: char) -> (r: char)
    ensures
        r == upper_char(c),
{
    if 'a' <= c && c <= 'z' {
        ((c as u8) - 32) as char
    } else {
        c
    }
}

/// How many bytes UTF-8 spends on `c`.
pub open spec fn char_width(c: char) -> nat {
    if c <= '\u{7f}' {
        1
    } else if c <= '\u{7ff}' {
        2
    } else if c <= '\u{ffff}' {
        3
    } else {
        4
    }
}

/// The number of UTF-8 bytes of `c`.
pub fn width(c: char) -> (n: usize)
    ensures
        n == char_width(c),
        1 <= n <= 4,
{
    if c <= '\u{7f}' {
        1
    } else if c <= '\u{7ff}' {
        2
    } else if c <= '\u{ffff}' {
        3
    } else {
        4
    }
}

// ---------------------------------------------------------------------------------------------
// Strings and vectors of characters
// ---------------------------------------------------------------------------------------------

/// The characters of `s`.
pub fn to_chars(s: &str) -> (v: Vec<char>)
    ensures
        v@ == s@,
{
    let mut v: Vec<char> = Vec::new();
    for c in it: s.chars()
        invariant
            v@ == it.seq().take(it.index() as int),
            it.seq() == s@,
    {
        v.push(c);
    }
    v
}

/// The string with the characters of `v`.
pub fn from_chars(v: &[char]) -> (s: String)
    ensures
        s@ == v@,
{
    let mut s = String::new();
    for i in 0..v.len()
        invariant
            s@ == v@.take(i as int),
    {
        s.push(v[i]);
    }
    assert(v@.take(v@.len() as int) =~= v@);
    s
}

/// Adds the characters of `v` to the end of `out`.
pub fn extend_chars(out: &mut Vec<char>, v: &[char])
    ensures
        final(out)@ == old(out)@ + v@,
{
    let ghost start = out@;
    for i in 0..v.len()
        invariant
            out@ == start + v@.take(i as int),
    {
        out.push(v[i]);
    }
}

/// A copy of `v`.
pub fn copy(v: &[char]) -> (r: Vec<char>)
    ensures
        r@ == v@,
{
    let mut r: Vec<char> = Vec::new();
    extend_chars(&mut r, v);
    r
}

/// The lists of characters as sequences.
pub open spec fn texts(v: Seq<Vec<char>>) -> Seq<Seq<char>> {
    Seq::new(v.len(), |i: int| v[i]@)
}

/// The optional text as characters.
pub open spec fn opt(o: Option<&str>) -> Option<Seq<char>> {
    match o {
        Some(s) => Some(s@),
        None => None,
    }
}

/// A copy of an optional string.
pub fn copy_opt(o: &Option<String>) -> (r: Option<String>)
    ensures
        r.deep_view() == o.deep_view(),
{
    match o {
        Some(s) => Some(s.clone()),
        None => None,
    }
}

// ---------------------------------------------------------------------------------------------
// Trimming
// ---------------------------------------------------------------------------------------------

/// `s` without the white space at its end.
pub open spec fn trimmed_end(s: Seq<char>) -> Seq<char>
    decreases s.len(),
{
    if s.len() > 0 && is_ws(s.last()) {
        trimmed_end(s.drop_last())
    } else {
        s
    }
}

/// `s` without the white space at its start.
pub open spec fn trimmed_start(s: Seq<char>) -> Seq<char>
    decreases s.len(),
{
    if s.len() > 0 && is_ws(s[0]) {
        trimmed_start(s.drop_first())
    } else {
        s
    }
}

/// `s` without the white space at both ends.
pub open spec fn trimmed(s: Seq<char>) -> Seq<char> {
    trimmed_end(trimmed_start(s))
}

/// `s` without the white space at its end.
pub fn trim_end(s: &[char]) -> (r: &[char])
    ensures
        r@ == trimmed_end(s@),
{
    let mut n: usize = s.len();
    assert(s@.take(n as int) == s@);
    while n > 0 && whitespace(s[n - 1])
        invariant
            n <= s@.len(),
            trimmed_end(s@.take(n as int)) == trimmed_end(s@),
        decreases n,
    {
        assert(s@.take(n as int).drop_last() == s@.take(n - 1));
        n = n - 1;
    }
    let r = slice_subrange(s, 0, n);
    assert(r@ == s@.take(n as int));
    r
}

/// `s` without the white space at its start.
pub fn trim_start(s: &[char]) -> (r: &[char])
    ensures
        r@ == trimmed_start(s@),
{
    let mut n: usize = 0;
    assert(s@.skip(0) == s@);
    while n < s.len() && whitespace(s[n])
        invariant
            n <= s@.len(),
            trimmed_start(s@.skip(n as int)) == trimmed_start(s@),
        decreases s@.len() - n,
    {
        assert(s@.skip(n as int).drop_first() == s@.skip(n + 1));
        n = n + 1;
    }
    let r = slice_subrange(s, n, s.len());
    assert(r@ == s@.skip(n as int));
    r
}

/// `s` without the white space at both ends.
pub fn trim(s: &[char]) -> (r: &[char])
    ensures
        r@ == trimmed(s@),
{
    trim_end(trim_start(s))
}

/// `s` without the white space at both ends, as a string.
pub fn trim_str(s: &str) -> (r: String)
    ensures
        r@ == trimmed(s@),
{
    from_chars(trim(to_chars(s).as_slice()))
}

/// Whether `s` holds nothing but white space.
pub fn is_blank(s: &str) -> (r: bool)
    ensures
        r == (trimmed(s@).len() == 0),
{
    trim(to_chars(s).as_slice()).len() == 0
}

/// What trimming at the end leaves is a prefix that does not end in white space.
pub proof fn lemma_trimmed_end(s: Seq<char>)
    ensures
        trimmed_end(s).len() <= s.len(),
        trimmed_end(s) == s.take(trimmed_end(s).len() as int),
        trimmed_end(s).len() > 0 ==> !is_ws(trimmed_end(s).last()),
        forall|i: int| trimmed_end(s).len() <= i < s.len() ==> is_ws(#[trigger] s[i]),
    decreases s.len(),
{
    if s.len() > 0 && is_ws(s.last()) {
        lemma_trimmed_end(s.drop_last());
        let n = trimmed_end(s).len() as int;
        assert(s.drop_last().take(n) == s.take(n));
        assert forall|i: int| n <= i < s.len() implies is_ws(#[trigger] s[i]) by {
            if i < s.len() - 1 {
                assert(s.drop_last()[i] == s[i]);
            }
        }
    } else {
        assert(s.take(s.len() as int) == s);
    }
}

/// What trimming at the start leaves is a suffix that does not start with white space.
pub proof fn lemma_trimmed_start(s: Seq<char>)
    ensures
        trimmed_start(s).len() <= s.len(),
        trimmed_start(s) == s.skip(s.len() - trimmed_start(s).len()),
        trimmed_start(s).len() > 0 ==> !is_ws(trimmed_start(s)[0]),
        forall|i: int| 0 <= i < s.len() - trimmed_start(s).len() ==> is_ws(#[trigger] s[i]),
    decreases s.len(),
{
    if s.len() > 0 && is_ws(s[0]) {
        lemma_trimmed_start(s.drop_first());
        let n = trimmed_start(s).len();
        assert(s.drop_first().skip(s.drop_first().len() - n) == s.skip(s.len() - n));
        assert forall|i: int| 0 <= i < s.len() - n implies is_ws(#[trigger] s[i]) by {
            if i > 0 {
                assert(s.drop_first()[i - 1] == s[i]);
            }
        }
    } else {
        assert(s.skip(0) == s);
    }
}

/// `s` without the `c`s at its end.
pub open spec fn without_end(s: Seq<char>, c: char) -> Seq<char>
    decreases s.len(),
{
    if s.len() > 0 && s.last() == c {
        without_end(s.drop_last(), c)
    } else {
        s
    }
}

/// `s` without the `c`s at its start.
pub open spec fn without_start(s: Seq<char>, c: char) -> Seq<char>
    decreases s.len(),
{
    if s.len() > 0 && s[0] == c {
        without_start(s.drop_first(), c)
    } else {
        s
    }
}

/// `s` without the `c`s at both ends.
pub open spec fn without_ends(s: Seq<char>, c: char) -> Seq<char> {
    without_end(without_start(s, c), c)
}

/// `s` without the `c`s at its end.
pub fn strip_end(s: &[char], c: char) -> (r: &[char])
    ensures
        r@ == without_end(s@, c),
{
    let mut n: usize = s.len();
    assert(s@.take(n as int) == s@);
    while n > 0 && s[n - 1] == c
        invariant
            n <= s@.len(),
            without_end(s@.take(n as int), c) == without_end(s@, c),
        decreases n,
    {
        assert(s@.take(n as int).drop_last() == s@.take(n - 1));
        n = n - 1;
    }
    let r = slice_subrange(s, 0, n);
    assert(r@ == s@.take(n as int));
    r
}

/// `s` without the `c`s at its start.
pub fn strip_start(s: &[char], c: char) -> (r: &[char])
    ensures
        r@ == without_start(s@, c),
{
    let mut n: usize = 0;
    assert(s@.skip(0) == s@);
    while n < s.len() && s[n] == c
        invariant
            n <= s@.len(),
            without_start(s@.skip(n as int), c) == without_start(s@, c),
        decreases s@.len() - n,
    {
        assert(s@.skip(n as int).drop_first() == s@.skip(n + 1));
        n = n + 1;
    }
    let r = slice_subrange(s, n, s.len());
    assert(r@ == s@.skip(n as int));
    r
}

/// `s` without the `c`s at both ends.
pub fn strip_ends(s: &[char], c: char) -> (r: &[char])
    ensures
        r@ == without_ends(s@, c),
{
    strip_end(strip_start(s, c), c)
}

// ---------------------------------------------------------------------------------------------
// Words
// ---------------------------------------------------------------------------------------------

/// How many characters stand before the first white space of `s`.
pub open spec fn word_len(s: Seq<char>) -> nat
    decreases s.len(),
{
    if s.len() > 0 && !is_ws(s[0]) {
        1 + word_len(s.drop_first())
    } else {
        0
    }
}

/// The maximal runs of characters that are not white space, in order.
pub open spec fn words(s: Seq<char>) -> Seq<Seq<char>>
    decreases s.len(),
{
    if s.len() == 0 {
        seq![]
    } else if is_ws(s[0]) {
        words(s.drop_first())
    } else {
        let n = word_len(s) as int;
        if 0 < n <= s.len() {
            seq![s.take(n)] + words(s.skip(n))
        } else {
            seq![]
        }
    }
}

/// The parts with `sep` between each two neighbours.
pub open spec fn joined(parts: Seq<Seq<char>>, sep: Seq<char>) -> Seq<char>
    decreases parts.len(),
{
    if parts.len() == 0 {
        seq![]
    } else if parts.len() == 1 {
        parts[0]
    } else {
        joined(parts.drop_last(), sep) + sep + parts.last()
    }
}

/// `s` with every run of white space turned into one space, and none at the ends.
pub open spec fn collapsed(s: Seq<char>) -> Seq<char> {
    joined(words(s), seq![' '])
}

pub proof fn lemma_word_len(s: Seq<char>)
    ensures
        word_len(s) <= s.len(),
        s.len() > 0 && !is_ws(s[0]) ==> word_len(s) > 0,
        word_len(s) < s.len() ==> is_ws(s[word_len(s) as int]),
        forall|i: int| 0 <= i < word_len(s) ==> !is_ws(#[trigger] s[i]),
    decreases s.len(),
{
    if s.len() > 0 && !is_ws(s[0]) {
        lemma_word_len(s.drop_first());
        assert forall|i: int| 0 <= i < word_len(s) implies !is_ws(#[trigger] s[i]) by {
            if i > 0 {
                assert(s.drop_first()[i - 1] == s[i]);
            }
        }
    }
}

proof fn lemma_word_len_is(s: Seq<char>, n: nat)
    requires
        n <= s.len(),
        forall|i: int| 0 <= i < n ==> !is_ws(#[trigger] s[i]),
        n < s.len() ==> is_ws(s[n as int]),
    ensures
        word_len(s) == n,
    decreases s.len(),
{
    if n > 0 {
        assert forall|i: int| 0 <= i < n - 1 implies !is_ws(#[trigger] s.drop_first()[i]) by {
            assert(!is_ws(s[i + 1]));
        }
        assert(!is_ws(s[0]));
        lemma_word_len_is(s.drop_first(), (n - 1) as nat);
    }
}

pub proof fn lemma_joined_push(parts: Seq<Seq<char>>, sep: Seq<char>, w: Seq<char>)
    ensures
        joined(parts.push(w), sep) == if parts.len() == 0 {
            w
        } else {
            joined(parts, sep) + sep + w
        },
{
    assert(parts.push(w).drop_last() == parts);
    assert(parts.push(w).last() == w);
}

/// Collapses all runs of white space into single spaces and drops them at the ends.
pub fn collapse(s: &[char]) -> (r: Vec<char>)
    ensures
        r@ == collapsed(s@),
{
    let mut out: Vec<char> = Vec::new();
    let mut i: usize = 0;
    let mut first: bool = true;
    let ghost mut done: Seq<Seq<char>> = seq![];
    assert(s@.skip(0) == s@);
    assert(done + words(s@) == words(s@));
    while i < s.len()
        invariant
            i <= s@.len(),
            words(s@) == done + words(s@.skip(i as int)),
            out@ == joined(done, seq![' ']),
            first == (done.len() == 0),
        decreases s@.len() - i,
    {
        let ghost rest = s@.skip(i as int);
        assert(rest[0] == s@[i as int]);
        if whitespace(s[i]) {
            assert(rest.drop_first() == s@.skip(i + 1));
            i = i + 1;
        } else {
            let mut j: usize = i;
            while j < s.len() && !whitespace(s[j])
                invariant
                    i <= j <= s@.len(),
                    i < j || !is_ws(s@[i as int]),
                    forall|k: int| i <= k < j ==> !is_ws(#[trigger] s@[k]),
                decreases s@.len() - j,
            {
                j = j + 1;
            }
            let word = slice_subrange(s, i, j);
            if !first {
                out.push(' ');
            }
            extend_chars(&mut out, word);
            proof {
                let n = (j - i) as nat;
                assert forall|k: int| 0 <= k < n implies !is_ws(#[trigger] rest[k]) by {
                    assert(rest[k] == s@[i + k]);
                }
                lemma_word_len_is(rest, n);
                assert(rest.take(n as int) == word@);
                assert(rest.skip(n as int) == s@.skip(j as int));
                assert(done + (seq![word@] + words(s@.skip(j as int))) == done.push(word@)
                    + words(s@.skip(j as int)));
                lemma_joined_push(done, seq![' '], word@);
                done = done.push(word@);
            }
            first = false;
            i = j;
        }
    }
    proof {
        assert(words(s@.skip(i as int)) == Seq::<Seq<char>>::empty());
        assert(done + Seq::<Seq<char>>::empty() == done);
    }
    out
}

/// Collapses all runs of white space into single spaces and drops them at the ends.
pub fn collapse_str(s: &str) -> (r: String)
    ensures
        r@ == collapsed(s@),
{
    from_chars(collapse(to_chars(s).as_slice()).as_slice())
}

// ---------------------------------------------------------------------------------------------
// Searching
// ---------------------------------------------------------------------------------------------

/// `pat` stands in `s` at position `i`.
pub open spec fn occurs_at(s: Seq<char>, pat: Seq<char>, i: int) -> bool {
    &&& 0 <= i
    &&& i + pat.len() <= s.len()
    &&& s.subrange(i, i + pat.len()) == pat
}

/// The first position at or after `from` at which `pat` stands in `s`.
pub open spec fn next_at(s: Seq<char>, pat: Seq<char>, from: int) -> Option<int>
    decreases s.len() + 1 - from,
{
    if from < 0 || from + pat.len() > s.len() {
        None
    } else if occurs_at(s, pat, from) {
        Some(from)
    } else {
        next_at(s, pat, from + 1)
    }
}

/// `pat` stands somewhere in `s`.
pub open spec fn has(s: Seq<char>, pat: Seq<char>) -> bool {
    exists|i: int| occurs_at(s, pat, i)
}

/// `s` begins with `pat`.
pub open spec fn begins(s: Seq<char>, pat: Seq<char>) -> bool {
    occurs_at(s, pat, 0)
}

/// `s` ends with `pat`.
pub open spec fn ends(s: Seq<char>, pat: Seq<char>) -> bool {
    occurs_at(s, pat, s.len() - pat.len())
}

pub proof fn lemma_next_at(s: Seq<char>, pat: Seq<char>, from: int)
    requires
        0 <= from,
    ensures
        match next_at(s, pat, from) {
            Some(i) => from <= i && occurs_at(s, pat, i) && forall|j: int|
                from <= j < i ==> !#[trigger] occurs_at(s, pat, j),
            None => forall|j: int| from <= j ==> !#[trigger] occurs_at(s, pat, j),
        },
    decreases s.len() + 1 - from,
{
    if from + pat.len() > s.len() {
    } else if occurs_at(s, pat, from) {
    } else {
        lemma_next_at(s, pat, from + 1);
    }
}

/// Whether `pat` stands in `s` at position `i`.
pub fn matches_at(s: &[char], pat: &[char], i: usize) -> (r: bool)
    ensures
        r == occurs_at(s@, pat@, i as int),
{
    if i > s.len() || s.len() - i < pat.len() {
        return false;
    }
    let n: usize = s.len();
    let mut k: usize = 0;
    while k < pat.len()
        invariant
            k <= pat@.len(),
            n == s@.len(),
            i + pat@.len() <= s@.len(),
            forall|j: int| 0 <= j < k ==> s@[i + j] == pat@[j],
        decreases pat@.len() - k,
    {
        if s[i + k] != pat[k] {
            assert(s@.subrange(i as int, i + pat@.len())[k as int] == s@[i + k]);
            return false;
        }
        k = k + 1;
    }
    assert(s@.subrange(i as int, i + pat@.len()) =~= pat@);
    true
}

/// The first position at or after `from` at which `pat` stands in `s`.
pub fn find(s: &[char], pat: &[char], from: usize) -> (r: Option<usize>)
    ensures
        r matches Some(i) ==> next_at(s@, pat@, from as int) == Some(i as int) && from <= i
            && i + pat@.len() <= s@.len(),
        r is None ==> next_at(s@, pat@, from as int) is None,
{
    if from > s.len() {
        return None;
    }
    let mut i: usize = from;
    while s.len() - i >= pat.len()
        invariant
            from <= i <= s@.len(),
            next_at(s@, pat@, i as int) == next_at(s@, pat@, from as int),
        decreases s@.len() - i,
    {
        if matches_at(s, pat, i) {
            return Some(i);
        }
        if i == s.len() {
            assert(next_at(s@, pat@, i + 1) is None);
            return None;
        }
        i = i + 1;
    }
    None
}

/// Whether `pat` stands somewhere in `s`.
pub fn contains(s: &[char], pat: &str) -> (r: bool)
    ensures
        r == has(s@, pat@),
{
    let p = to_chars(pat);
    let r = find(s, p.as_slice(), 0);
    proof {
        lemma_next_at(s@, pat@, 0);
        if has(s@, pat@) {
            let i = choose|i: int| occurs_at(s@, pat@, i);
            assert(occurs_at(s@, pat@, i));
        }
    }
    r.is_some()
}

/// Whether `s` begins with `pat`.
pub fn starts_with(s: &[char], pat: &str) -> (r: bool)
    ensures
        r == begins(s@, pat@),
{
    matches_at(s, to_chars(pat).as_slice(), 0)
}

/// Whether `s` ends with `pat`.
pub fn ends_with(s: &[char], pat: &str) -> (r: bool)
    ensures
        r == ends(s@, pat@),
{
    let p = to_chars(pat);
    if p.len() > s.len() {
        return false;
    }
    matches_at(s, p.as_slice(), s.len() - p.len())
}

/// How often `pat` stands in `s` from `from` on, each occurrence searched for behind the one
/// before it.
pub open spec fn occurrences(s: Seq<char>, pat: Seq<char>, from: int) -> nat
    decreases s.len() - from,
{
    match next_at(s, pat, from) {
        Some(i) => if from <= i && i + pat.len() <= s.len() && pat.len() > 0 {
            1 + occurrences(s, pat, i + pat.len())
        } else {
            0
        },
        None => 0,
    }
}

// ---------------------------------------------------------------------------------------------
// ASCII case
// ---------------------------------------------------------------------------------------------

/// `s` with its ASCII capitals turned into small letters.
pub open spec fn lowered(s: Seq<char>) -> Seq<char> {
    Seq::new(s.len(), |i: int| lower_char(s[i]))
}

/// `s` with its ASCII small letters turned into capitals.
pub open spec fn uppered(s: Seq<char>) -> Seq<char> {
    Seq::new(s.len(), |i: int| upper_char(s[i]))
}

/// `a` and `b` differ at most in the case of ASCII letters.
pub open spec fn same_letters(a: Seq<char>, b: Seq<char>) -> bool {
    lowered(a) == lowered(b)
}

/// `s` with its ASCII capitals turned into small letters.
pub fn to_lower(s: &[char]) -> (r: Vec<char>)
    ensures
        r@ == lowered(s@),
{
    let mut r: Vec<char> = Vec::new();
    for i in 0..s.len()
        invariant
            r@ == lowered(s@).take(i as int),
    {
        r.push(lower(s[i]));
    }
    r
}

/// `s` with its ASCII capitals turned into small letters.
pub fn lower_str(s: &str) -> (r: String)
    ensures
        r@ == lowered(s@),
{
    from_chars(to_lower(to_chars(s).as_slice()).as_slice())
}

/// `s` with its ASCII small letters turned into capitals.
pub fn upper_chars(s: &[char]) -> (r: Vec<char>)
    ensures
        r@ == uppered(s@),
{
    let mut r: Vec<char> = Vec::new();
    for i in 0..s.len()
        invariant
            r@ == uppered(s@).take(i as int),
    {
        r.push(upper(s[i]));
    }
    r
}

/// Whether `a` and `b` differ at most in the case of ASCII letters.
pub fn eq_ignore_case(a: &str, b: &str) -> (r: bool)
    ensures
        r == same_letters(a@, b@),
{
    same(lower_str(a).as_str(), lower_str(b).as_str())
}

// ---------------------------------------------------------------------------------------------
// Splitting
// ---------------------------------------------------------------------------------------------

/// How many characters stand before the first `c` of `s`; all of them where it has none.
pub open spec fn until(s: Seq<char>, c: char) -> nat
    decreases s.len(),
{
    if s.len() == 0 || s[0] == c {
        0
    } else {
        1 + until(s.drop_first(), c)
    }
}

pub proof fn lemma_until(s: Seq<char>, c: char)
    ensures
        until(s, c) <= s.len(),
        until(s, c) < s.len() ==> s[until(s, c) as int] == c,
        forall|i: int| 0 <= i < until(s, c) ==> #[trigger] s[i] != c,
    decreases s.len(),
{
    if s.len() > 0 && s[0] != c {
        lemma_until(s.drop_first(), c);
        assert forall|i: int| 0 <= i < until(s, c) implies #[trigger] s[i] != c by {
            if i > 0 {
                assert(s.drop_first()[i - 1] == s[i]);
            }
        }
    }
}

pub proof fn lemma_until_is(s: Seq<char>, c: char, n: nat)
    requires
        n <= s.len(),
        forall|i: int| 0 <= i < n ==> #[trigger] s[i] != c,
        n < s.len() ==> s[n as int] == c,
    ensures
        until(s, c) == n,
    decreases s.len(),
{
    if n > 0 {
        assert forall|i: int| 0 <= i < n - 1 implies #[trigger] s.drop_first()[i] != c by {
            assert(s[i + 1] != c);
        }
        assert(s[0] != c);
        lemma_until_is(s.drop_first(), c, (n - 1) as nat);
    }
}

/// The first position at or after `from` that holds `c`; the length of `s` where none does.
pub fn position(s: &[char], c: char, from: usize) -> (r: usize)
    requires
        from <= s@.len(),
    ensures
        from <= r <= s@.len(),
        r == from + until(s@.skip(from as int), c),
        r < s@.len() ==> s@[r as int] == c,
{
    let mut i: usize = from;
    while i < s.len() && s[i] != c
        invariant
            from <= i <= s@.len(),
            forall|k: int| from <= k < i ==> #[trigger] s@[k] != c,
        decreases s@.len() - i,
    {
        i = i + 1;
    }
    proof {
        let rest = s@.skip(from as int);
        assert forall|k: int| 0 <= k < i - from implies #[trigger] rest[k] != c by {
            assert(rest[k] == s@[from + k]);
        }
        lemma_until_is(rest, c, (i - from) as nat);
    }
    i
}

/// The stretches between the occurrences of `c` in `s`, the first before and the last behind
/// them all.
pub open spec fn pieces(s: Seq<char>, c: char) -> Seq<Seq<char>>
    decreases s.len(),
{
    let n = until(s, c) as int;
    if 0 <= n < s.len() {
        seq![s.take(n)] + pieces(s.skip(n + 1), c)
    } else {
        seq![s]
    }
}

/// The stretches of `s` between the occurrences of `pat`, each occurrence searched for behind
/// the one before it.
pub open spec fn parts(s: Seq<char>, pat: Seq<char>) -> Seq<Seq<char>>
    decreases s.len(),
{
    match next_at(s, pat, 0) {
        Some(i) => if 0 <= i && i + pat.len() <= s.len() && pat.len() > 0 {
            seq![s.take(i)] + parts(s.skip(i + pat.len()), pat)
        } else {
            seq![s]
        },
        None => seq![s],
    }
}

/// Splits `s` at every `c`.
pub fn split_char(s: &[char], c: char) -> (r: Vec<Vec<char>>)
    ensures
        texts(r@) == pieces(s@, c),
{
    let mut out: Vec<Vec<char>> = Vec::new();
    let mut i: usize = 0;
    assert(s@.skip(0) == s@);
    assert(texts(out@) + pieces(s@, c) =~= pieces(s@, c));
    loop
        invariant
            i <= s@.len(),
            texts(out@) + pieces(s@.skip(i as int), c) == pieces(s@, c),
        decreases s@.len() - i,
    {
        let ghost rest = s@.skip(i as int);
        let ghost before = texts(out@);
        let j = position(s, c, i);
        let piece = copy(slice_subrange(s, i, j));
        if j < s.len() {
            proof {
                assert(rest.take(j - i) == piece@);
                assert(rest.skip(j - i + 1) == s@.skip(j + 1));
                assert(before + (seq![piece@] + pieces(s@.skip(j + 1), c)) =~= before.push(piece@)
                    + pieces(s@.skip(j + 1), c));
            }
            out.push(piece);
            assert(texts(out@) =~= before.push(piece@));
            i = j + 1;
        } else {
            proof {
                assert(rest == piece@);
            }
            out.push(piece);
            assert(texts(out@) =~= before + seq![piece@]);
            return out;
        }
    }
}

/// Splits `s` at every occurrence of `pat`.
pub fn split_parts(s: &[char], pat: &[char]) -> (r: Vec<Vec<char>>)
    requires
        pat@.len() > 0,
    ensures
        texts(r@) == parts(s@, pat@),
{
    let mut out: Vec<Vec<char>> = Vec::new();
    let mut i: usize = 0;
    assert(s@.skip(0) == s@);
    assert(texts(out@) + parts(s@, pat@) =~= parts(s@, pat@));
    let total: usize = s.len();
    loop
        invariant
            i <= s@.len(),
            total == s@.len(),
            pat@.len() > 0,
            texts(out@) + parts(s@.skip(i as int), pat@) == parts(s@, pat@),
        decreases s@.len() - i,
    {
        let ghost rest = s@.skip(i as int);
        match find(s, pat, i) {
            Some(j) => {
                let piece = copy(slice_subrange(s, i, j));
                proof {
                    lemma_next_at_skip(s@, pat@, i as int, i as int);
                    assert(rest.take(j - i) == piece@);
                    assert(rest.skip(j - i + pat@.len()) == s@.skip(j + pat@.len()));
                    assert(texts(out@) + (seq![piece@] + parts(
                        s@.skip(j + pat@.len()),
                        pat@,
                    )) =~= texts(out@).push(piece@) + parts(s@.skip(j + pat@.len()), pat@));
                }
                let ghost before = texts(out@);
                out.push(piece);
                assert(texts(out@) =~= before.push(piece@));
                i = j + pat.len();
            },
            None => {
                let piece = copy(slice_subrange(s, i, s.len()));
                proof {
                    lemma_next_at_skip(s@, pat@, i as int, i as int);
                    assert(rest == piece@);
                }
                let ghost before = texts(out@);
                out.push(piece);
                assert(texts(out@) =~= before + seq![piece@]);
                return out;
            },
        }
    }
}

/// Searching in a suffix finds what searching from its start finds in the whole.
pub proof fn lemma_next_at_skip(s: Seq<char>, pat: Seq<char>, k: int, from: int)
    requires
        0 <= k <= from,
        k <= s.len(),
    ensures
        next_at(s.skip(k), pat, from - k) == match next_at(s, pat, from) {
            Some(i) => Some(i - k),
            None => None,
        },
    decreases s.len() + 1 - from,
{
    if from + pat.len() <= s.len() {
        assert(s.skip(k).subrange(from - k, from - k + pat.len()) == s.subrange(
            from,
            from + pat.len(),
        ));
        lemma_next_at_skip(s, pat, k, from + 1);
    }
}

/// `s` without one carriage return at its end.
pub open spec fn without_return(s: Seq<char>) -> Seq<char> {
    if s.len() > 0 && s.last() == '\r' {
        s.drop_last()
    } else {
        s
    }
}

/// The lines of `s`. A line ends at a line feed, which is no part of it, nor is a carriage
/// return right before the line feed; a last line without a line feed counts as well.
pub open spec fn lines_of(s: Seq<char>) -> Seq<Seq<char>>
    decreases s.len(),
{
    if s.len() == 0 {
        seq![]
    } else {
        let n = until(s, '\n') as int;
        if 0 <= n < s.len() {
            seq![without_return(s.take(n))] + lines_of(s.skip(n + 1))
        } else {
            seq![s]
        }
    }
}

/// Splits `s` into its lines.
pub fn lines(s: &[char]) -> (r: Vec<Vec<char>>)
    ensures
        texts(r@) == lines_of(s@),
{
    let mut out: Vec<Vec<char>> = Vec::new();
    let mut i: usize = 0;
    assert(s@.skip(0) == s@);
    assert(texts(out@) + lines_of(s@) =~= lines_of(s@));
    while i < s.len()
        invariant
            i <= s@.len(),
            texts(out@) + lines_of(s@.skip(i as int)) == lines_of(s@),
        decreases s@.len() - i,
    {
        let ghost rest = s@.skip(i as int);
        let ghost before = texts(out@);
        let j = position(s, '\n', i);
        if j < s.len() {
            let stop: usize = if i < j && s[j - 1] == '\r' {
                j - 1
            } else {
                j
            };
            let line = copy(slice_subrange(s, i, stop));
            proof {
                assert(rest.take(j - i) == s@.subrange(i as int, j as int));
                assert(without_return(rest.take(j - i)) == line@);
                assert(rest.skip(j - i + 1) == s@.skip(j + 1));
                assert(before + (seq![line@] + lines_of(s@.skip(j + 1))) =~= before.push(line@)
                    + lines_of(s@.skip(j + 1)));
            }
            out.push(line);
            assert(texts(out@) =~= before.push(line@));
            i = j + 1;
        } else {
            let line = copy(slice_subrange(s, i, s.len()));
            proof {
                assert(rest == line@);
                assert(before + seq![line@] =~= before.push(line@));
            }
            out.push(line);
            assert(texts(out@) =~= before.push(line@));
            assert(texts(out@) + lines_of(s@.skip(s@.len() as int)) =~= texts(out@));
            i = s.len();
        }
    }
    assert(texts(out@) + lines_of(s@.skip(i as int)) =~= texts(out@));
    out
}

/// How many characters stand before the first `a` or `b` of `s`; all of them where it has none.
pub open spec fn until_either(s: Seq<char>, a: char, b: char) -> nat
    decreases s.len(),
{
    if s.len() == 0 || s[0] == a || s[0] == b {
        0
    } else {
        1 + until_either(s.drop_first(), a, b)
    }
}

/// What stands before the first `a` or `b` of `s`.
pub open spec fn before_either(s: Seq<char>, a: char, b: char) -> Seq<char> {
    s.take(until_either(s, a, b) as int)
}

/// What stands before the first `a` or `b` of `s`.
pub fn cut_before(s: &[char], a: char, b: char) -> (r: &[char])
    ensures
        r@ == before_either(s@, a, b),
{
    let mut n: usize = 0;
    assert(s@.skip(0) == s@);
    while n < s.len() && s[n] != a && s[n] != b
        invariant
            n <= s@.len(),
            until_either(s@, a, b) == n + until_either(s@.skip(n as int), a, b),
        decreases s@.len() - n,
    {
        assert(s@.skip(n as int).drop_first() == s@.skip(n + 1));
        n = n + 1;
    }
    let r = slice_subrange(s, 0, n);
    assert(r@ == s@.take(n as int));
    r
}

/// What stands behind the last `c` of `s`; all of it where it has none.
pub open spec fn after_last(s: Seq<char>, c: char) -> Seq<char>
    decreases s.len(),
{
    if s.len() == 0 || s.last() == c {
        seq![]
    } else {
        after_last(s.drop_last(), c).push(s.last())
    }
}

/// What stands behind the last `c` of `s`.
pub fn cut_after_last(s: &[char], c: char) -> (r: &[char])
    ensures
        r@ == after_last(s@, c),
{
    let mut n: usize = s.len();
    assert(s@.take(n as int) == s@);
    assert(after_last(s@, c) =~= after_last(s@.take(n as int), c) + s@.skip(n as int));
    while n > 0 && s[n - 1] != c
        invariant
            n <= s@.len(),
            after_last(s@, c) == after_last(s@.take(n as int), c) + s@.skip(n as int),
        decreases n,
    {
        proof {
            assert(s@.take(n as int).drop_last() == s@.take(n - 1));
            assert(after_last(s@.take(n - 1), c).push(s@[n - 1]) + s@.skip(n as int) =~= after_last(
                s@.take(n - 1),
                c,
            ) + s@.skip(n - 1));
        }
        n = n - 1;
    }
    let r = slice_subrange(s, n, s.len());
    assert(r@ =~= seq![] + s@.skip(n as int));
    r
}

// ---------------------------------------------------------------------------------------------
// Sizes
// ---------------------------------------------------------------------------------------------

/// The number of bytes of the text in UTF-8.
pub open spec fn byte_len(s: Seq<char>) -> nat {
    vstd::utf8::encode_utf8(s).len()
}

/// The number of bytes of `s`.
pub fn bytes(s: &str) -> (n: usize)
    ensures
        n == byte_len(s@),
{
    s.as_bytes().len()
}

/// The sum of the widths of the characters.
pub open spec fn width_sum(s: Seq<char>) -> nat
    decreases s.len(),
{
    if s.len() == 0 {
        0
    } else {
        char_width(s[0]) + width_sum(s.drop_first())
    }
}

/// The bytes of a text are those of its characters.
pub proof fn lemma_byte_len(s: Seq<char>)
    ensures
        byte_len(s) == width_sum(s),
    decreases s.len(),
{
    if s.len() > 0 {
        lemma_byte_len(s.drop_first());
        lemma_char_width(s[0]);
        let first = vstd::utf8::encode_scalar(s[0] as u32);
        assert(vstd::utf8::encode_utf8(s) == first + vstd::utf8::encode_utf8(s.drop_first()));
    }
}

proof fn lemma_char_width(c: char)
    ensures
        vstd::utf8::encode_scalar(c as u32).len() == char_width(c),
{
}

/// The number of characters of `s`.
pub fn length(s: &str) -> (n: usize)
    ensures
        n == s@.len(),
{
    to_chars(s).len()
}

/// `s` cut down to `max` characters, the last of which is an ellipsis where something was cut.
pub open spec fn shortened(s: Seq<char>, max: usize) -> Seq<char> {
    if s.len() <= max {
        s
    } else {
        s.take(if max == 0 {
            0
        } else {
            max - 1
        }).push('…')
    }
}

/// Cuts `s` down to `max` characters.
pub fn shorten(s: &str, max: usize) -> (r: String)
    ensures
        r@ == shortened(s@, max),
{
    let chars = to_chars(s);
    if chars.len() <= max {
        return from_chars(chars.as_slice());
    }
    let keep: usize = max.saturating_sub(1);
    let head = slice_subrange(chars.as_slice(), 0, keep);
    assert(head@ == chars@.take(keep as int));
    let mut out = from_chars(head);
    out.push('…');
    out
}

/// `a` followed by `b`.
pub fn concat(a: &str, b: &str) -> (r: String)
    ensures
        r@ == a@ + b@,
{
    let mut r = a.to_string();
    r.push_str(b);
    r
}

// ---------------------------------------------------------------------------------------------
// Numbers
// ---------------------------------------------------------------------------------------------

/// The character for the digit `d`.
pub open spec fn digit(d: nat) -> char {
    (48 + d) as char
}

/// `n` in decimal digits, without leading zeros.
pub open spec fn decimal(n: nat) -> Seq<char>
    decreases n,
{
    if n < 10 {
        seq![digit(n)]
    } else {
        decimal(n / 10).push(digit(n % 10))
    }
}

/// A decimal number is not empty and holds nothing but digits.
pub proof fn lemma_decimal(n: nat)
    ensures
        decimal(n).len() > 0,
        forall|i: int| 0 <= i < decimal(n).len() ==> is_digit(#[trigger] decimal(n)[i]),
    decreases n,
{
    if n >= 10 {
        lemma_decimal(n / 10);
    }
}

/// Two numbers with the same digits are the same.
pub proof fn lemma_decimal_injective(m: nat, n: nat)
    requires
        decimal(m) == decimal(n),
    ensures
        m == n,
    decreases m,
{
    lemma_decimal(m / 10);
    lemma_decimal(n / 10);
    assert(decimal(m).last() == digit(m % 10));
    assert(decimal(n).last() == digit(n % 10));
    if m >= 10 && n >= 10 {
        assert(decimal(m).drop_last() =~= decimal(m / 10));
        assert(decimal(n).drop_last() =~= decimal(n / 10));
        lemma_decimal_injective(m / 10, n / 10);
    }
}

/// `n` in decimal digits.
pub fn to_decimal(n: u128) -> (r: String)
    ensures
        r@ == decimal(n as nat),
    decreases n,
{
    let d = (n % 10) as u8;
    let c = (48u8 + d) as char;
    assert(c == digit((n % 10) as nat));
    let mut r = if n < 10 {
        String::new()
    } else {
        to_decimal(n / 10)
    };
    r.push(c);
    r
}

/// `c` is one of the ten ASCII digits.
pub open spec fn is_digit(c: char) -> bool {
    '0' <= c <= '9'
}

/// The number that the digits of `s` write; nothing where `s` is empty or holds another
/// character.
pub open spec fn digits_value(s: Seq<char>) -> Option<nat>
    decreases s.len(),
{
    if s.len() == 0 {
        None
    } else if !is_digit(s.last()) {
        None
    } else if s.len() == 1 {
        Some((s[0] as nat - 48) as nat)
    } else {
        match digits_value(s.drop_last()) {
            Some(v) => Some(v * 10 + (s.last() as nat - 48) as nat),
            None => None,
        }
    }
}

/// The number that `s` writes: decimal digits, with one `+` before them allowed.
pub open spec fn number_value(s: Seq<char>) -> Option<nat> {
    if s.len() > 0 && s[0] == '+' {
        digits_value(s.drop_first())
    } else {
        digits_value(s)
    }
}

proof fn lemma_digits_value_grows(s: Seq<char>, n: int)
    requires
        0 < n <= s.len(),
        digits_value(s) is Some,
    ensures
        digits_value(s.take(n)) is Some,
        digits_value(s.take(n))->0 <= digits_value(s)->0,
    decreases s.len(),
{
    if n < s.len() {
        lemma_digits_value_grows(s.drop_last(), n);
        assert(s.drop_last().take(n) == s.take(n));
    } else {
        assert(s.take(n) == s);
    }
}

/// The number that `s` writes, where it fits in 64 bits.
pub fn parse_number(s: &[char]) -> (r: Option<u64>)
    ensures
        r == match number_value(s@) {
            Some(v) => if v <= u64::MAX {
                Some(v as u64)
            } else {
                None
            },
            None => None,
        },
{
    let start: usize = if s.len() > 0 && s[0] == '+' {
        1
    } else {
        0
    };
    let ghost body = if s@.len() > 0 && s@[0] == '+' {
        s@.drop_first()
    } else {
        s@
    };
    assert(body == s@.skip(start as int));
    if start == s.len() {
        return None;
    }
    let mut value: u64 = 0;
    let mut i: usize = start;
    while i < s.len()
        invariant
            start <= i <= s@.len(),
            start < s@.len(),
            body == s@.skip(start as int),
            number_value(s@) == digits_value(body),
            i == start ==> value == 0,
            i > start ==> digits_value(body.take(i - start)) == Some(value as nat),
        decreases s@.len() - i,
    {
        let c = s[i];
        let ghost upto = body.take(i - start + 1);
        proof {
            assert(upto.drop_last() == body.take(i - start));
            assert(upto.last() == s@[i as int]);
            assert(body.take(body.len() as int) == body);
            if digits_value(body) is Some {
                lemma_digits_value_grows(body, i - start + 1);
            }
        }
        if !('0' <= c && c <= '9') {
            return None;
        }
        let d = (c as u64) - 48;
        assert(digits_value(upto) == Some((value * 10 + d) as nat)) by {
            if i == start {
                assert(upto.len() == 1);
            }
        }
        if value > (u64::MAX - d) / 10 {
            return None;
        }
        value = value * 10 + d;
        i = i + 1;
    }
    assert(body.take(body.len() as int) == body);
    Some(value)
}

/// The digits of a number write that number.
pub proof fn lemma_decimal_value(n: nat)
    ensures
        digits_value(decimal(n)) == Some(n),
        number_value(decimal(n)) == Some(n),
    decreases n,
{
    lemma_decimal(n);
    assert(is_digit(decimal(n)[0]));
    if n >= 10 {
        lemma_decimal_value(n / 10);
        lemma_decimal(n / 10);
        assert(decimal(n).drop_last() =~= decimal(n / 10));
        assert(decimal(n).last() == digit(n % 10));
    }
}

/// Digits have no white space at their ends.
pub proof fn lemma_digits_trimmed(s: Seq<char>)
    requires
        forall|i: int| 0 <= i < s.len() ==> is_digit(#[trigger] s[i]),
    ensures
        trimmed(s) == s,
{
    if s.len() > 0 {
        assert(is_digit(s[0]));
        assert(is_digit(s[s.len() - 1]));
    }
}

/// A text that is empty or holds something else than digits writes no number.
pub proof fn lemma_no_digits(s: Seq<char>)
    ensures
        s.len() == 0 ==> digits_value(s) is None,
        (exists|i: int| 0 <= i < s.len() && !is_digit(#[trigger] s[i])) ==> digits_value(s) is None,
    decreases s.len(),
{
    if s.len() > 0 {
        lemma_no_digits(s.drop_last());
        if exists|i: int| 0 <= i < s.len() && !is_digit(#[trigger] s[i]) {
            let i = choose|i: int| 0 <= i < s.len() && !is_digit(#[trigger] s[i]);
            if i < s.len() - 1 {
                assert(s.drop_last()[i] == s[i]);
            }
        }
    }
}

// ---------------------------------------------------------------------------------------------
// Laws
// ---------------------------------------------------------------------------------------------

/// White space is what Unicode calls so: twenty-five characters, by their numbers.
pub proof fn law_white_space_is_that_of_unicode(c: char)
    ensures
        ({
            let n = c as u32;
            is_ws(c) <==> (9 <= n <= 13 || n == 32 || n == 133 || n == 160 || n == 5760 || 8192 <= n
                <= 8202 || n == 8232 || n == 8233 || n == 8239 || n == 8287 || n == 12288)
        }),
{
}

/// Trimming takes the white space off both ends and nothing else: what is left stands in the text
/// with white space alone around it, and has none at its own ends.
pub proof fn law_trimming_leaves_the_middle(s: Seq<char>)
    ensures
        exists|a: int, b: int|
            #![trigger s.subrange(a, b)]
            {
                &&& 0 <= a <= b <= s.len()
                &&& trimmed(s) == s.subrange(a, b)
                &&& forall|i: int| 0 <= i < a || b <= i < s.len() ==> is_ws(#[trigger] s[i])
                &&& a < b ==> !is_ws(s[a]) && !is_ws(s[b - 1])
            },
{
    let t = trimmed_start(s);
    let r = trimmed(s);
    lemma_trimmed_start(s);
    lemma_trimmed_end(t);
    let a = s.len() - t.len();
    let b = a + r.len();
    assert(r =~= s.subrange(a, b));
    assert forall|i: int| 0 <= i < a || b <= i < s.len() implies is_ws(#[trigger] s[i]) by {
        if b <= i {
            assert(t[i - a] == s[i]);
        }
    }
    if a < b {
        assert(r.last() == s[b - 1]);
        assert(t[0] == s[a]);
    }
}

/// Trimming at one end leaves the other as it is.
pub proof fn law_trimming_one_end_leaves_the_other(body: Seq<char>, blank: Seq<char>)
    requires
        forall|i: int| 0 <= i < blank.len() ==> is_ws(#[trigger] blank[i]),
    ensures
        body.len() == 0 || !is_ws(body.last()) ==> trimmed_end(body + blank) == body,
        body.len() == 0 || !is_ws(body[0]) ==> trimmed_start(blank + body) == body,
    decreases blank.len(),
{
    if blank.len() == 0 {
        assert(body + blank =~= body);
        assert(blank + body =~= body);
    } else {
        let all = body + blank;
        assert(all.last() == blank[blank.len() - 1]);
        assert(all.drop_last() =~= body + blank.drop_last());
        assert forall|i: int| 0 <= i < blank.drop_last().len() implies is_ws(
            #[trigger] blank.drop_last()[i],
        ) by {
            assert(blank.drop_last()[i] == blank[i]);
        }
        law_trimming_one_end_leaves_the_other(body, blank.drop_last());
        lemma_trim_front(body, blank);
    }
}

proof fn lemma_trim_front(body: Seq<char>, blank: Seq<char>)
    requires
        forall|i: int| 0 <= i < blank.len() ==> is_ws(#[trigger] blank[i]),
    ensures
        body.len() == 0 || !is_ws(body[0]) ==> trimmed_start(blank + body) == body,
    decreases blank.len(),
{
    if blank.len() == 0 {
        assert(blank + body =~= body);
    } else {
        let all = blank + body;
        assert(all[0] == blank[0]);
        assert(all.drop_first() =~= blank.drop_first() + body);
        assert forall|i: int| 0 <= i < blank.drop_first().len() implies is_ws(
            #[trigger] blank.drop_first()[i],
        ) by {
            assert(blank.drop_first()[i] == blank[i + 1]);
        }
        lemma_trim_front(body, blank.drop_first());
    }
}

/// Stripping a character takes all of it off an end and nothing else.
pub proof fn law_stripping_takes_one_character_off(s: Seq<char>, c: char)
    ensures
        without_end(s, c).len() <= s.len(),
        without_end(s, c) == s.take(without_end(s, c).len() as int),
        without_end(s, c).len() > 0 ==> without_end(s, c).last() != c,
        forall|i: int| without_end(s, c).len() <= i < s.len() ==> #[trigger] s[i] == c,
        without_start(s, c).len() <= s.len(),
        without_start(s, c) == s.skip(s.len() - without_start(s, c).len()),
        without_start(s, c).len() > 0 ==> without_start(s, c)[0] != c,
        forall|i: int| 0 <= i < s.len() - without_start(s, c).len() ==> #[trigger] s[i] == c,
        without_ends(s, c) == without_end(without_start(s, c), c),
    decreases s.len(),
{
    lemma_without_start(s, c);
    if s.len() > 0 && s.last() == c {
        law_stripping_takes_one_character_off(s.drop_last(), c);
        let n = without_end(s, c).len() as int;
        assert(s.drop_last().take(n) =~= s.take(n));
        assert forall|i: int| n <= i < s.len() implies #[trigger] s[i] == c by {
            if i < s.len() - 1 {
                assert(s.drop_last()[i] == s[i]);
            }
        }
    } else {
        assert(s.take(s.len() as int) =~= s);
    }
}

proof fn lemma_without_start(s: Seq<char>, c: char)
    ensures
        without_start(s, c).len() <= s.len(),
        without_start(s, c) == s.skip(s.len() - without_start(s, c).len()),
        without_start(s, c).len() > 0 ==> without_start(s, c)[0] != c,
        forall|i: int| 0 <= i < s.len() - without_start(s, c).len() ==> #[trigger] s[i] == c,
    decreases s.len(),
{
    if s.len() > 0 && s[0] == c {
        lemma_without_start(s.drop_first(), c);
        let n = without_start(s, c).len();
        assert(s.drop_first().skip(s.drop_first().len() - n) =~= s.skip(s.len() - n));
        assert forall|i: int| 0 <= i < s.len() - n implies #[trigger] s[i] == c by {
            if i > 0 {
                assert(s.drop_first()[i - 1] == s[i]);
            }
        }
    } else {
        assert(s.skip(0) =~= s);
    }
}

/// A text without white space is a word, and collapsing leaves it alone. White space between two
/// texts that hold something collapses into one space, and at the end of one into nothing.
pub proof fn law_collapsing_leaves_single_spaces(front: Seq<char>, c: char, back: Seq<char>)
    requires
        is_ws(c),
    ensures
        (forall|i: int| 0 <= i < front.len() ==> !is_ws(#[trigger] front[i])) ==> collapsed(front)
            == front,
        collapsed(front).len() > 0 && collapsed(back).len() > 0 ==> collapsed(
            front + seq![c] + back,
        ) == collapsed(front) + seq![' '] + collapsed(back),
        collapsed(back).len() == 0 ==> collapsed(front + seq![c] + back) == collapsed(front),
        collapsed(front).len() == 0 ==> collapsed(front + seq![c] + back) == collapsed(back),
        collapsed(seq![]).len() == 0,
{
    let sep = seq![' '];
    assert(words(seq![]) =~= seq![]);
    assert(front + seq![c] + back =~= front + (seq![c] + back));
    lemma_words_split(front, c, back);
    lemma_words_full(front);
    lemma_words_full(back);
    lemma_joined_parts(words(front), words(back), sep);
    lemma_joined_filled(words(front), sep);
    lemma_joined_filled(words(back), sep);
    if words(front).len() == 0 {
        assert(words(front) + words(back) =~= words(back));
    }
    if words(back).len() == 0 {
        assert(words(front) + words(back) =~= words(front));
    }
    if forall|i: int| 0 <= i < front.len() ==> !is_ws(#[trigger] front[i]) {
        if front.len() > 0 {
            lemma_word_len_is(front, front.len());
            assert(front.take(front.len() as int) =~= front);
            assert(front.skip(front.len() as int) =~= seq![]);
            assert(words(front) =~= seq![front]);
        } else {
            assert(words(front) =~= seq![]);
            assert(collapsed(front) =~= front);
        }
    }
}

proof fn lemma_words_full(s: Seq<char>)
    ensures
        forall|i: int| 0 <= i < words(s).len() ==> (#[trigger] words(s)[i]).len() > 0,
    decreases s.len(),
{
    if s.len() > 0 {
        if is_ws(s[0]) {
            lemma_words_full(s.drop_first());
            assert(words(s) == words(s.drop_first()));
        } else {
            lemma_word_len(s);
            let n = word_len(s) as int;
            lemma_words_full(s.skip(n));
            assert(words(s) == seq![s.take(n)] + words(s.skip(n)));
            assert forall|i: int| 0 <= i < words(s).len() implies (#[trigger] words(s)[i]).len()
                > 0 by {
                if i > 0 {
                    assert(words(s)[i] == words(s.skip(n))[i - 1]);
                }
            }
        }
    }
}

proof fn lemma_words_split(front: Seq<char>, c: char, back: Seq<char>)
    requires
        is_ws(c),
    ensures
        words(front + (seq![c] + back)) == words(front) + words(back),
    decreases front.len(),
{
    let tail = seq![c] + back;
    let all = front + tail;
    if front.len() == 0 {
        assert(all =~= tail);
        assert(tail.drop_first() =~= back);
        assert(words(front) + words(back) =~= words(back));
    } else if is_ws(front[0]) {
        assert(all.drop_first() =~= front.drop_first() + tail);
        lemma_words_split(front.drop_first(), c, back);
    } else {
        lemma_word_len(front);
        let n = word_len(front) as int;
        assert forall|i: int| 0 <= i < n implies !is_ws(#[trigger] all[i]) by {
            assert(all[i] == front[i]);
        }
        if n < front.len() {
            assert(all[n] == front[n]);
        } else {
            assert(all[n] == c);
        }
        lemma_word_len_is(all, n as nat);
        assert(all.take(n) =~= front.take(n));
        assert(all.skip(n) =~= front.skip(n) + tail);
        lemma_words_split(front.skip(n), c, back);
        assert(seq![front.take(n)] + (words(front.skip(n)) + words(back)) =~= (seq![front.take(n)]
            + words(front.skip(n))) + words(back));
    }
}

/// Joining two lists is joining each, with the separator between.
pub proof fn lemma_joined_parts(a: Seq<Seq<char>>, b: Seq<Seq<char>>, sep: Seq<char>)
    ensures
        a.len() > 0 && b.len() > 0 ==> joined(a + b, sep) == joined(a, sep) + sep + joined(b, sep),
    decreases b.len(),
{
    if a.len() > 0 && b.len() > 0 {
        let all = a + b;
        assert(all.drop_last() =~= a + b.drop_last());
        assert(all.last() == b.last());
        if b.len() == 1 {
            assert(a + b.drop_last() =~= a);
        } else {
            lemma_joined_parts(a, b.drop_last(), sep);
            assert(joined(all, sep) =~= joined(a, sep) + sep + joined(b, sep));
        }
    }
}

proof fn lemma_joined_filled(parts: Seq<Seq<char>>, sep: Seq<char>)
    requires
        forall|i: int| 0 <= i < parts.len() ==> (#[trigger] parts[i]).len() > 0,
    ensures
        joined(parts, sep).len() == 0 <==> parts.len() == 0,
{
    if parts.len() > 0 {
        assert(parts[parts.len() - 1].len() > 0);
    }
}

/// Joining puts the separator between each two parts, and nowhere else.
pub proof fn law_joining_separates_the_parts(
    a: Seq<Seq<char>>,
    b: Seq<Seq<char>>,
    part: Seq<char>,
    sep: Seq<char>,
)
    ensures
        joined(seq![], sep).len() == 0,
        joined(seq![part], sep) == part,
        a.len() > 0 && b.len() > 0 ==> joined(a + b, sep) == joined(a, sep) + sep + joined(b, sep),
{
    lemma_joined_parts(a, b, sep);
}

/// Splitting at a character and joining with it gives the text back, and no piece holds the
/// character.
pub proof fn law_pieces_make_the_whole(s: Seq<char>, c: char)
    ensures
        pieces(s, c).len() > 0,
        joined(pieces(s, c), seq![c]) == s,
        forall|k: int, i: int|
            0 <= k < pieces(s, c).len() && 0 <= i < pieces(s, c)[k].len() ==> #[trigger] pieces(
                s,
                c,
            )[k][i] != c,
    decreases s.len(),
{
    lemma_until(s, c);
    let n = until(s, c) as int;
    if n < s.len() {
        let rest = s.skip(n + 1);
        law_pieces_make_the_whole(rest, c);
        let first = seq![s.take(n)];
        lemma_joined_parts(first, pieces(rest, c), seq![c]);
        assert(joined(first, seq![c]) == s.take(n));
        assert(s.take(n) + seq![c] + rest =~= s);
        assert forall|k: int, i: int|
            0 <= k < pieces(s, c).len() && 0 <= i < pieces(s, c)[k].len() implies #[trigger] pieces(
            s,
            c,
        )[k][i] != c by {
            if k == 0 {
                assert(pieces(s, c)[0] == s.take(n));
                assert(s.take(n)[i] == s[i]);
            } else {
                assert(pieces(s, c)[k] == pieces(rest, c)[k - 1]);
            }
        }
    } else {
        assert(pieces(s, c)[0] == s);
    }
}

/// Splitting at a pattern and joining with it gives the text back, and no part holds the pattern.
pub proof fn law_parts_make_the_whole(s: Seq<char>, pat: Seq<char>)
    requires
        pat.len() > 0,
    ensures
        parts(s, pat).len() > 0,
        joined(parts(s, pat), pat) == s,
        forall|k: int| 0 <= k < parts(s, pat).len() ==> !self::has(#[trigger] parts(s, pat)[k], pat),
    decreases s.len(),
{
    lemma_next_at(s, pat, 0);
    match next_at(s, pat, 0) {
        Some(i) => {
            let rest = s.skip(i + pat.len());
            law_parts_make_the_whole(rest, pat);
            let head = s.take(i);
            lemma_joined_parts(seq![head], parts(rest, pat), pat);
            assert(joined(seq![head], pat) == head);
            assert(s.subrange(i, i + pat.len()) == pat);
            assert(head + pat + rest =~= s) by {
                assert(s =~= s.take(i) + s.subrange(i, i + pat.len()) + s.skip(i + pat.len()));
            }
            assert(!self::has(head, pat)) by {
                if has(head, pat) {
                    let j = choose|j: int| occurs_at(head, pat, j);
                    assert(s.subrange(j, j + pat.len()) =~= head.subrange(j, j + pat.len()));
                    assert(occurs_at(s, pat, j));
                }
            }
            assert forall|k: int| 0 <= k < parts(s, pat).len() implies !self::has(
                #[trigger] parts(s, pat)[k],
                pat,
            ) by {
                if k > 0 {
                    assert(parts(s, pat)[k] == parts(rest, pat)[k - 1]);
                }
            }
        },
        None => {
            assert(parts(s, pat) =~= seq![s]);
            assert(!self::has(s, pat)) by {
                if has(s, pat) {
                    let j = choose|j: int| occurs_at(s, pat, j);
                    assert(occurs_at(s, pat, j));
                }
            }
        },
    }
}

/// A line ends at the first line feed, and a carriage return before that is no part of it. What
/// follows is split in the same way, and a last line needs no line feed.
pub proof fn law_lines_end_at_line_feeds(line: Seq<char>, rest: Seq<char>)
    requires
        forall|i: int| 0 <= i < line.len() ==> #[trigger] line[i] != '\n',
    ensures
        line.len() > 0 ==> lines_of(line) == seq![line],
        line.len() == 0 || line.last() != '\r' ==> lines_of(line + seq!['\n'] + rest) == seq![line]
            + lines_of(rest),
        lines_of(line.push('\r') + seq!['\n'] + rest) == seq![line] + lines_of(rest),
        lines_of(seq![]).len() == 0,
{
    lemma_until_is(line, '\n', line.len());
    let a = line + seq!['\n'] + rest;
    let n = line.len();
    assert forall|i: int| 0 <= i < n implies #[trigger] a[i] != '\n' by {
        assert(a[i] == line[i]);
    }
    assert(a[n as int] == '\n');
    lemma_until_is(a, '\n', n);
    assert(a.take(n as int) =~= line);
    assert(a.skip(n as int + 1) =~= rest);
    let long = line.push('\r');
    let b = long + seq!['\n'] + rest;
    let m = long.len();
    assert forall|i: int| 0 <= i < m implies #[trigger] b[i] != '\n' by {
        assert(b[i] == long[i]);
    }
    assert(b[m as int] == '\n');
    lemma_until_is(b, '\n', m);
    assert(b.take(m as int) =~= long);
    assert(b.skip(m as int + 1) =~= rest);
    assert(without_return(long) =~= line);
}

/// Changing the case of a text goes letter by letter: the twenty-six letters of ASCII change, and
/// everything else stays.
pub proof fn law_case_is_that_of_ascii(s: Seq<char>, i: int)
    requires
        0 <= i < s.len(),
    ensures
        lowered(s).len() == s.len(),
        uppered(s).len() == s.len(),
        'A' <= s[i] <= 'Z' ==> lowered(s)[i] as u32 == s[i] as u32 + 32,
        !('A' <= s[i] <= 'Z') ==> lowered(s)[i] == s[i],
        'a' <= s[i] <= 'z' ==> uppered(s)[i] as u32 == s[i] as u32 - 32,
        !('a' <= s[i] <= 'z') ==> uppered(s)[i] == s[i],
{
}

/// A text that is too long is cut, and an ellipsis takes the place of its last character.
pub proof fn law_shortening_keeps_the_start(s: Seq<char>, max: usize)
    ensures
        s.len() <= max ==> shortened(s, max) == s,
        0 < max < s.len() ==> {
            &&& shortened(s, max).len() == max
            &&& shortened(s, max).last() == '…'
            &&& forall|i: int| 0 <= i < max - 1 ==> #[trigger] shortened(s, max)[i] == s[i]
        },
        max == 0 && s.len() > 0 ==> shortened(s, max) == seq!['…'],
{
    if max == 0 && s.len() > 0 {
        assert(shortened(s, max) =~= seq!['…']);
    }
}

/// What stands before the first of two characters is the longest start of a text without them.
pub proof fn law_cutting_before_stops_at_the_first(s: Seq<char>, a: char, b: char)
    ensures
        ({
            let n = before_either(s, a, b).len() as int;
            &&& n <= s.len()
            &&& before_either(s, a, b) == s.take(n)
            &&& forall|i: int| 0 <= i < n ==> #[trigger] s[i] != a && s[i] != b
            &&& n < s.len() ==> s[n] == a || s[n] == b
        }),
    decreases s.len(),
{
    if s.len() == 0 || s[0] == a || s[0] == b {
        assert(before_either(s, a, b) =~= s.take(0));
    } else {
        let rest = s.drop_first();
        law_cutting_before_stops_at_the_first(rest, a, b);
        let m = before_either(rest, a, b).len() as int;
        lemma_until_either(rest, a, b);
        assert(until_either(s, a, b) == 1 + until_either(rest, a, b));
        assert(before_either(s, a, b).len() == m + 1);
        assert forall|i: int| 0 <= i < m + 1 implies #[trigger] s[i] != a && s[i] != b by {
            if i > 0 {
                assert(rest[i - 1] == s[i]);
            }
        }
        if m + 1 < s.len() {
            assert(rest[m] == s[m + 1]);
        }
    }
}

proof fn lemma_until_either(s: Seq<char>, a: char, b: char)
    ensures
        until_either(s, a, b) <= s.len(),
    decreases s.len(),
{
    if s.len() > 0 && s[0] != a && s[0] != b {
        lemma_until_either(s.drop_first(), a, b);
    }
}

/// What stands behind the last of a character is the longest end of a text without it.
pub proof fn law_cutting_behind_starts_at_the_last(s: Seq<char>, c: char)
    ensures
        ({
            let n = s.len() - after_last(s, c).len();
            &&& 0 <= n
            &&& after_last(s, c) == s.skip(n)
            &&& forall|i: int| n <= i < s.len() ==> #[trigger] s[i] != c
            &&& n > 0 ==> s[n - 1] == c
        }),
    decreases s.len(),
{
    if s.len() == 0 || s.last() == c {
        assert(after_last(s, c) =~= s.skip(s.len() as int));
    } else {
        let prior = s.drop_last();
        law_cutting_behind_starts_at_the_last(prior, c);
        let n = prior.len() - after_last(prior, c).len();
        assert(prior.skip(n).push(s.last()) =~= s.skip(n));
        assert forall|i: int| n <= i < s.len() implies #[trigger] s[i] != c by {
            if i < prior.len() {
                assert(prior[i] == s[i]);
            }
        }
        if n > 0 {
            assert(prior[n - 1] == s[n - 1]);
        }
    }
}

/// A number is written with the digits that write it, without zeros before them, and is read back.
pub proof fn law_numbers_are_written_in_decimal(n: nat)
    ensures
        number_value(decimal(n)) == Some(n),
        n > 0 ==> decimal(n)[0] != '0',
        n == 0 ==> decimal(n) == seq!['0'],
        forall|i: int| 0 <= i < decimal(n).len() ==> '0' <= #[trigger] decimal(n)[i] <= '9',
    decreases n,
{
    lemma_decimal_value(n);
    lemma_decimal(n);
    assert forall|i: int| 0 <= i < decimal(n).len() implies '0' <= #[trigger] decimal(n)[i] <= '9' by {
        assert(is_digit(decimal(n)[i]));
    }
    if n >= 10 {
        law_numbers_are_written_in_decimal(n / 10);
        lemma_decimal(n / 10);
        assert(decimal(n)[0] == decimal(n / 10)[0]);
    } else if n == 0 {
        assert(decimal(n) =~= seq!['0']);
    }
}

/// The digits of a number count by tens, from the last on.
pub proof fn law_digits_count_by_tens(s: Seq<char>, d: char)
    ensures
        is_digit(d) ==> digits_value(seq![d]) == Some((d as nat - 48) as nat),
        is_digit(d) && s.len() > 0 ==> match digits_value(s) {
            Some(v) => digits_value(s.push(d)) == Some(v * 10 + (d as nat - 48) as nat),
            None => digits_value(s.push(d)) is None,
        },
        !is_digit(d) ==> digits_value(s.push(d)) is None,
        is_digit(d) <==> 48 <= d as u32 <= 57,
{
    assert(s.push(d).drop_last() =~= s);
}

/// A text is split at the first occurrence of a pattern first, and what stands behind it in the same
/// way.
pub proof fn law_splitting_starts_at_the_first(front: Seq<char>, pat: Seq<char>, back: Seq<char>)
    requires
        pat.len() > 0,
        forall|i: int|
            0 <= i < front.len() ==> !#[trigger] occurs_at(front + pat + back, pat, i),
    ensures
        parts(front + pat + back, pat) == seq![front] + parts(back, pat),
{
    let s = front + pat + back;
    let n = front.len() as int;
    assert(s.subrange(n, n + pat.len()) =~= pat);
    assert(occurs_at(s, pat, n));
    lemma_next_at(s, pat, 0);
    assert(next_at(s, pat, 0) == Some(n));
    assert(s.take(n) =~= front);
    assert(s.skip(n + pat.len()) =~= back);
}

} // verus!
