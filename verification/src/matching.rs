//! Substring containment and the simple lowercase mapping used for
//! case-insensitive matching.

use vstd::prelude::*;

verus! {

/// Locale-independent simple lowercase mapping: ASCII uppercase letters map
/// to their lowercase counterparts, every other character is unchanged.
pub open spec fn lower_char(c: char) -> char {
    if 'A' as u32 <= c as u32 && c as u32 <= 'Z' as u32 {
        ((c as u32) + 32) as char
    } else {
        c
    }
}

/// The lowercase form of a whole sequence of characters, character by
/// character.
pub open spec fn lower_seq(s: Seq<char>) -> Seq<char> {
    s.map_values(|c: char| lower_char(c))
}

/// The sequence as it takes part in a containment test: lowercased when the
/// test ignores case, unchanged otherwise.
pub open spec fn normalize(s: Seq<char>, ignore_case: bool) -> Seq<char> {
    if ignore_case {
        lower_seq(s)
    } else {
        s
    }
}

/// `pattern` occurs contiguously somewhere in `text` (the empty pattern
/// occurs in every text).
pub open spec fn contains_seq(text: Seq<char>, pattern: Seq<char>) -> bool {
    exists|i: int|
        0 <= i && i + pattern.len() <= text.len() && #[trigger] text.subrange(
            i,
            i + pattern.len() as int,
        ) == pattern
}

/// An occurrence at a known position witnesses containment.
pub proof fn lemma_contains_at(text: Seq<char>, pattern: Seq<char>, i: int)
    requires
        0 <= i,
        i + pattern.len() <= text.len(),
        text.subrange(i, i + pattern.len() as int) == pattern,
    ensures
        contains_seq(text, pattern),
{
}

/// The simple lowercase mapping of a character, executable form.
fn to_lower_char(c: char) -> (r: char)
    ensures
        r == lower_char(c),
{
    let u: u32 = c as u32;
    if 65 <= u && u <= 90 {
        ((u + 32) as u8) as char
    } else {
        c
    }
}

/// Whether `pattern` (normalized) occurs in `line` (normalized) starting at
/// character position `at`.
fn match_at(line: &str, pattern: &str, at: usize, ignore_case: bool) -> (b: bool)
    requires
        at + pattern@.len() <= line@.len(),
    ensures
        b == (normalize(line@, ignore_case).subrange(
            at as int,
            at + pattern@.len() as int,
        ) == normalize(pattern@, ignore_case)),
{
    let m = pattern.unicode_len();
    let n = line.unicode_len();
    let ghost nline = normalize(line@, ignore_case);
    let ghost npat = normalize(pattern@, ignore_case);
    let mut k: usize = 0;
    while k < m
        invariant
            k <= m,
            m == pattern@.len(),
            n == line@.len(),
            at + m <= n,
            nline == normalize(line@, ignore_case),
            npat == normalize(pattern@, ignore_case),
            forall|j: int| 0 <= j < k ==> nline[at + j] == npat[j],
        decreases m - k,
    {
        let mut a = line.get_char(at + k);
        let mut b = pattern.get_char(k);
        if ignore_case {
            a = to_lower_char(a);
            b = to_lower_char(b);
        }
        if a != b {
            assert(nline.subrange(at as int, at + m as int)[k as int] != npat[k as int]);
            return false;
        }
        k += 1;
    }
    assert(nline.subrange(at as int, at + m as int) =~= npat);
    true
}

/// Whether `pattern` occurs in `line` as a substring; with `ignore_case`
/// both sides are lowercased first.
pub fn contains_substring(line: &str, pattern: &str, ignore_case: bool) -> (b: bool)
    ensures
        b == contains_seq(normalize(line@, ignore_case), normalize(pattern@, ignore_case)),
{
    let n = line.unicode_len();
    let m = pattern.unicode_len();
    let ghost nline = normalize(line@, ignore_case);
    let ghost npat = normalize(pattern@, ignore_case);
    proof {
        assert(nline.len() == line@.len());
        assert(npat.len() == pattern@.len());
    }
    if m > n {
        assert(!contains_seq(nline, npat));
        return false;
    }
    let bound = n - m;
    let mut i: usize = 0;
    while i < bound
        invariant
            i <= bound,
            bound == n - m,
            m <= n,
            m == pattern@.len(),
            n == line@.len(),
            nline == normalize(line@, ignore_case),
            npat == normalize(pattern@, ignore_case),
            forall|j: int|
                0 <= j < i ==> #[trigger] nline.subrange(j, j + npat.len() as int) != npat,
        decreases bound - i,
    {
        if match_at(line, pattern, i, ignore_case) {
            assert(nline.subrange(i as int, i + npat.len() as int) == npat);
            assert(contains_seq(nline, npat));
            return true;
        }
        i += 1;
    }
    if match_at(line, pattern, bound, ignore_case) {
        assert(nline.subrange(bound as int, bound + npat.len() as int) == npat);
        assert(contains_seq(nline, npat));
        return true;
    }
    assert(!contains_seq(nline, npat));
    false
}

} // verus!
