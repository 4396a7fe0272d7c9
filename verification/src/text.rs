//! Sequences of characters: white space, trimming, prefixes and suffixes, words.
//!
//! The functions work on slices of `char`, so that an index is a count of
//! characters, and each says what it computes over the sequence of characters that
//! a slice or a string holds.

use vstd::prelude::*;
use vstd::slice::slice_subrange;

verus! {

/// `String::push` appends the character to the end of the string: the string is
/// afterwards what it was before, followed by `c`.
pub assume_specification[ String::push ](s: &mut String, c: char)
    ensures
        final(s)@ == old(s)@.push(c),
;

/// Unicode white space: the code points that carry the `White_Space` property.
pub open spec fn is_space(c: char) -> bool {
    let u = c as u32;
    ||| 0x09 <= u <= 0x0D
    ||| u == 0x20
    ||| u == 0x85
    ||| u == 0xA0
    ||| u == 0x1680
    ||| 0x2000 <= u <= 0x200A
    ||| u == 0x2028
    ||| u == 0x2029
    ||| u == 0x202F
    ||| u == 0x205F
    ||| u == 0x3000
}

/// Whether `c` is white space.
pub fn is_whitespace(c: char) -> (b: bool)
    ensures
        b == is_space(c),
{
    let u: u32 = c as u32;
    (0x09 <= u && u <= 0x0D) || u == 0x20 || u == 0x85 || u == 0xA0 || u == 0x1680 || (0x2000 <= u
        && u <= 0x200A) || u == 0x2028 || u == 0x2029 || u == 0x202F || u == 0x205F || u == 0x3000
}

/// The characters of `s`, in order.
pub fn chars_of(s: &str) -> (v: Vec<char>)
    ensures
        v@ == s@,
{
    let mut v: Vec<char> = Vec::new();
    for c in it: s.chars()
        invariant
            v@ == it.seq().take(it.index()),
    {
        v.push(c);
    }
    v
}

/// Appends `chars` to `out`.
pub fn push_chars(out: &mut String, chars: &[char])
    ensures
        final(out)@ == old(out)@ + chars@,
{
    let mut k: usize = 0;
    while k < chars.len()
        invariant
            k <= chars.len(),
            out@ == old(out)@ + chars@.take(k as int),
        decreases chars.len() - k,
    {
        out.push(chars[k]);
        k += 1;
    }
}

/// A string holding exactly `chars`.
pub fn string_of(chars: &[char]) -> (s: String)
    ensures
        s@ == chars@,
{
    let mut s = String::new();
    push_chars(&mut s, chars);
    s
}

/// Whether the whole of `lit` stands in `s` from index `at` on.
pub open spec fn occurs_at(s: Seq<char>, at: int, lit: Seq<char>) -> bool {
    0 <= at && at + lit.len() <= s.len() && s.subrange(at, at + lit.len()) == lit
}

/// Whether the characters of `s` stand in `chars` from index `i` on.
pub fn starts_with(chars: &[char], i: usize, s: &str) -> (b: bool)
    ensures
        b == occurs_at(chars@, i as int, s@),
{
    if i > chars.len() {
        return false;
    }
    let mut k: usize = i;
    for c in it: s.chars()
        invariant
            it.seq() == s@,
            k == i + it.index(),
            k <= chars.len(),
            chars@.subrange(i as int, k as int) == s@.take(it.index()),
    {
        if k >= chars.len() || chars[k] != c {
            return false;
        }
        k += 1;
    }
    assert(s@.take(s@.len() as int) =~= s@);
    true
}

/// Whether `s` is exactly the characters of `lit`.
pub fn equals(s: &[char], lit: &str) -> (b: bool)
    ensures
        b == (s@ == lit@),
{
    let at_start = starts_with(s, 0, lit);
    if !at_start {
        assert(s@ == lit@ ==> s@.subrange(0, lit@.len() as int) == lit@);
        return false;
    }
    let n = lit.unicode_len();
    assert(s@.len() == n ==> s@.subrange(0, n as int) == s@);
    s.len() == n
}

/// What is left of `s` behind the prefix `lit`, if `s` begins with it.
pub open spec fn without_prefix(s: Seq<char>, lit: Seq<char>) -> Option<Seq<char>> {
    if occurs_at(s, 0, lit) {
        Some(s.skip(lit.len() as int))
    } else {
        None
    }
}

/// Takes the prefix `lit` off `s`, if `s` begins with it.
pub fn strip_prefix<'a>(s: &'a [char], lit: &str) -> (r: Option<&'a [char]>)
    ensures
        match r {
            Some(rest) => without_prefix(s@, lit@) == Some(rest@),
            None => without_prefix(s@, lit@) is None,
        },
{
    if starts_with(s, 0, lit) {
        let n = lit.unicode_len();
        Some(slice_subrange(s, n, s.len()))
    } else {
        None
    }
}

/// What is left of `s` before the suffix `lit`, if `s` ends with it.
pub open spec fn without_suffix(s: Seq<char>, lit: Seq<char>) -> Option<Seq<char>> {
    if occurs_at(s, s.len() - lit.len(), lit) {
        Some(s.take(s.len() - lit.len()))
    } else {
        None
    }
}

/// Takes the suffix `lit` off `s`, if `s` ends with it.
pub fn strip_suffix<'a>(s: &'a [char], lit: &str) -> (r: Option<&'a [char]>)
    ensures
        match r {
            Some(rest) => without_suffix(s@, lit@) == Some(rest@),
            None => without_suffix(s@, lit@) is None,
        },
{
    let n = lit.unicode_len();
    if n <= s.len() && starts_with(s, s.len() - n, lit) {
        Some(slice_subrange(s, 0, s.len() - n))
    } else {
        None
    }
}

/// The first index at or after `from` that holds no white space; the length of `s`
/// if there is none.
pub open spec fn skip_spaces(s: Seq<char>, from: int) -> int
    decreases s.len() - from,
{
    if 0 <= from < s.len() && is_space(s[from]) {
        skip_spaces(s, from + 1)
    } else {
        from
    }
}

/// The end of `s[lo..hi]` once its trailing white space is dropped.
pub open spec fn drop_spaces(s: Seq<char>, lo: int, hi: int) -> int
    decreases hi - lo,
{
    if lo < hi <= s.len() && is_space(s[hi - 1]) {
        drop_spaces(s, lo, hi - 1)
    } else {
        hi
    }
}

/// `s` without its leading and trailing white space.
pub open spec fn trimmed(s: Seq<char>) -> Seq<char> {
    let a = skip_spaces(s, 0);
    let b = drop_spaces(s, a, s.len() as int);
    s.subrange(a, b)
}

/// Where `skip_spaces` stops: inside `s`, behind white space only, and on a
/// character that is none.
pub proof fn lemma_skip_spaces(s: Seq<char>, from: int)
    requires
        0 <= from <= s.len(),
    ensures
        from <= skip_spaces(s, from) <= s.len(),
        forall|k: int| from <= k < skip_spaces(s, from) ==> is_space(#[trigger] s[k]),
        skip_spaces(s, from) < s.len() ==> !is_space(s[skip_spaces(s, from)]),
    decreases s.len() - from,
{
    if from < s.len() && is_space(s[from]) {
        lemma_skip_spaces(s, from + 1);
    }
}

/// Where `drop_spaces` stops: between `lo` and `hi`, before white space only, and
/// behind a character that is none.
pub proof fn lemma_drop_spaces(s: Seq<char>, lo: int, hi: int)
    requires
        0 <= lo <= hi <= s.len(),
    ensures
        lo <= drop_spaces(s, lo, hi) <= hi,
        forall|k: int| drop_spaces(s, lo, hi) <= k < hi ==> is_space(#[trigger] s[k]),
        lo < drop_spaces(s, lo, hi) ==> !is_space(s[drop_spaces(s, lo, hi) - 1]),
    decreases hi - lo,
{
    if lo < hi && is_space(s[hi - 1]) {
        lemma_drop_spaces(s, lo, hi - 1);
    }
}

/// Whether white space neither begins nor ends `s`.
pub open spec fn is_trimmed(s: Seq<char>) -> bool {
    s.len() > 0 ==> !is_space(s.first()) && !is_space(s.last())
}

/// Trimming leaves a piece of the sequence that white space neither begins nor
/// ends, and that is empty only where the sequence holds nothing but white space.
pub proof fn lemma_trimmed(s: Seq<char>)
    ensures
        is_trimmed(trimmed(s)),
        trimmed(s).len() == 0 <==> forall|k: int| 0 <= k < s.len() ==> is_space(#[trigger] s[k]),
{
    let a = skip_spaces(s, 0);
    lemma_skip_spaces(s, 0);
    lemma_drop_spaces(s, a, s.len() as int);
    let b = drop_spaces(s, a, s.len() as int);
    if a < s.len() {
        assert(a < b) by {
            if a == b {
                assert(is_space(s[a]));
            }
        }
        assert(trimmed(s).first() == s[a]);
        assert(trimmed(s).last() == s[b - 1]);
    }
}

/// Trimming twice is trimming once.
pub proof fn lemma_trimmed_twice(s: Seq<char>)
    ensures
        trimmed(trimmed(s)) == trimmed(s),
{
    lemma_trimmed(s);
    let t = trimmed(s);
    if t.len() > 0 {
        assert(skip_spaces(t, 0) == 0);
        assert(drop_spaces(t, 0, t.len() as int) == t.len());
    }
    assert(trimmed(t) =~= t);
}

/// The part of `s` between its leading and its trailing white space.
pub fn trim<'a>(s: &'a [char]) -> (r: &'a [char])
    ensures
        r@ == trimmed(s@),
{
    let mut a: usize = 0;
    while a < s.len() && is_whitespace(s[a])
        invariant
            a <= s.len(),
            skip_spaces(s@, a as int) == skip_spaces(s@, 0),
        decreases s.len() - a,
    {
        a += 1;
    }
    let mut b: usize = s.len();
    while b > a && is_whitespace(s[b - 1])
        invariant
            a <= b <= s.len(),
            drop_spaces(s@, a as int, b as int) == drop_spaces(s@, a as int, s@.len() as int),
        decreases b - a,
    {
        b -= 1;
    }
    slice_subrange(s, a, b)
}

/// The length of `s` once every trailing `c` is dropped.
pub open spec fn drop_trailing(s: Seq<char>, c: char, hi: int) -> int
    decreases hi,
{
    if 0 < hi <= s.len() && s[hi - 1] == c {
        drop_trailing(s, c, hi - 1)
    } else {
        hi
    }
}

/// `s` without the run of `c` at its end.
pub open spec fn without_trailing(s: Seq<char>, c: char) -> Seq<char> {
    s.take(drop_trailing(s, c, s.len() as int))
}

/// The part of `s` before the run of `c` at its end.
pub fn trim_end_matches<'a>(s: &'a [char], c: char) -> (r: &'a [char])
    ensures
        r@ == without_trailing(s@, c),
{
    let mut b: usize = s.len();
    while b > 0 && s[b - 1] == c
        invariant
            b <= s.len(),
            drop_trailing(s@, c, b as int) == drop_trailing(s@, c, s@.len() as int),
        decreases b,
    {
        b -= 1;
    }
    slice_subrange(s, 0, b)
}

/// The end of the word that begins at `from`: the first index at or after `from`
/// that holds white space; the length of `s` if there is none.
pub open spec fn word_end(s: Seq<char>, from: int) -> int
    decreases s.len() - from,
{
    if 0 <= from < s.len() && !is_space(s[from]) {
        word_end(s, from + 1)
    } else {
        from
    }
}

/// Where `word_end` stops: inside `s`, behind no white space, and on white space.
pub proof fn lemma_word_end(s: Seq<char>, from: int)
    requires
        0 <= from <= s.len(),
    ensures
        from <= word_end(s, from) <= s.len(),
        forall|k: int| from <= k < word_end(s, from) ==> !is_space(#[trigger] s[k]),
        word_end(s, from) < s.len() ==> is_space(s[word_end(s, from)]),
    decreases s.len() - from,
{
    if from < s.len() && !is_space(s[from]) {
        lemma_word_end(s, from + 1);
    }
}

/// The words of `s` from index `from` on, in order: the maximal runs of characters
/// that are no white space.
pub open spec fn words_from(s: Seq<char>, from: int) -> Seq<Seq<char>>
    decreases s.len() - from,
{
    if 0 <= from < s.len() {
        if is_space(s[from]) {
            words_from(s, from + 1)
        } else {
            proof {
                lemma_word_end(s, from + 1);
            }
            seq![s.subrange(from, word_end(s, from))] + words_from(s, word_end(s, from))
        }
    } else {
        seq![]
    }
}

/// The words of `s`.
pub open spec fn words(s: Seq<char>) -> Seq<Seq<char>> {
    words_from(s, 0)
}

/// The views of the strings in `v`.
pub open spec fn views(v: Seq<String>) -> Seq<Seq<char>> {
    Seq::new(v.len(), |k: int| v[k]@)
}

/// Appends the words of `s` to `out`.
pub fn push_words(out: &mut Vec<String>, s: &[char])
    ensures
        views(final(out)@) == views(old(out)@) + words(s@),
{
    let mut i: usize = 0;
    while i < s.len()
        invariant
            i <= s.len(),
            views(out@) + words_from(s@, i as int) == views(old(out)@) + words(s@),
        decreases s.len() - i,
    {
        if is_whitespace(s[i]) {
            i += 1;
        } else {
            let start = i;
            while i < s.len() && !is_whitespace(s[i])
                invariant
                    start <= i <= s.len(),
                    word_end(s@, i as int) == word_end(s@, start as int),
                decreases s.len() - i,
            {
                i += 1;
            }
            let ghost before = views(out@);
            let word = string_of(slice_subrange(s, start, i));
            out.push(word);
            assert(views(out@) =~= before + seq![s@.subrange(start as int, i as int)]);
            assert(views(out@) + words_from(s@, i as int) =~= before + words_from(
                s@,
                start as int,
            ));
        }
    }
    assert(views(out@) + words_from(s@, s@.len() as int) =~= views(out@));
}

} // verus!
