//! The search engine: every line of a text that contains a pattern, in
//! original order, matched exactly or after lowercasing both sides.

use vstd::prelude::*;
use crate::lines::lines_spec;
use crate::lines::split_lines;
use crate::matching::contains_seq;
use crate::matching::contains_substring;
use crate::matching::lower_seq;
use crate::matching::normalize;

verus! {

/// The lines of `text` that contain `pattern` as an exact-case substring, in
/// original order.
pub open spec fn search_spec(pattern: Seq<char>, text: Seq<char>) -> Seq<Seq<char>> {
    lines_spec(text).filter(|line: Seq<char>| contains_seq(line, pattern))
}

/// The lines of `text` whose lowercase form contains the lowercase form of
/// `pattern`, in original order; the lines themselves are returned verbatim.
pub open spec fn search_ci_spec(pattern: Seq<char>, text: Seq<char>) -> Seq<Seq<char>> {
    lines_spec(text).filter(|line: Seq<char>| contains_seq(lower_seq(line), lower_seq(pattern)))
}

/// Filtering one element at a time: a pushed element stays exactly when the
/// predicate holds of it.
proof fn lemma_filter_push<A>(s: Seq<A>, x: A, pred: spec_fn(A) -> bool)
    ensures
        s.push(x).filter(pred) == if pred(x) {
            s.filter(pred).push(x)
        } else {
            s.filter(pred)
        },
{
    reveal(Seq::filter);
    assert(s.push(x).drop_last() =~= s);
    assert(s.push(x).last() == x);
}

/// Two pointwise-equal predicates filter a sequence to the same result.
proof fn lemma_filter_equiv<A>(s: Seq<A>, p1: spec_fn(A) -> bool, p2: spec_fn(A) -> bool)
    requires
        forall|x: A| #[trigger] p1(x) == p2(x),
    ensures
        s.filter(p1) == s.filter(p2),
    decreases s.len(),
{
    reveal(Seq::filter);
    if s.len() > 0 {
        lemma_filter_equiv(s.drop_last(), p1, p2);
    }
}

/// A filter keeps only elements of the sequence it filters.
proof fn lemma_filter_is_subset<A>(s: Seq<A>, pred: spec_fn(A) -> bool)
    ensures
        forall|x: A| #[trigger] s.filter(pred).contains(x) ==> s.contains(x),
    decreases s.len(),
{
    reveal(Seq::filter);
    if s.len() > 0 {
        let sub = s.drop_last();
        lemma_filter_is_subset(sub, pred);
        assert forall|x: A| #[trigger] s.filter(pred).contains(x) implies s.contains(x) by {
            let f = s.filter(pred);
            let j0 = choose|j: int| 0 <= j < f.len() && f[j] == x;
            if pred(s.last()) && j0 == f.len() - 1 {
                assert(s[s.len() - 1] == x);
            } else {
                assert(sub.filter(pred)[j0] == x);
                assert(sub.filter(pred).contains(x));
                assert(sub.contains(x));
                let j = choose|j: int| 0 <= j < sub.len() && sub[j] == x;
                assert(s[j] == x);
            }
        }
    }
}

/// A filter keeps a sequence whose every element satisfies the predicate
/// unchanged.
proof fn lemma_filter_all_true<A>(s: Seq<A>, pred: spec_fn(A) -> bool)
    requires
        forall|i: int| 0 <= i < s.len() ==> pred(#[trigger] s[i]),
    ensures
        s.filter(pred) == s,
    decreases s.len(),
{
    reveal(Seq::filter);
    if s.len() > 0 {
        lemma_filter_all_true(s.drop_last(), pred);
        assert(s.drop_last().push(s.last()) =~= s);
    }
}

/// Keeps, in order, the lines that contain the pattern under the given case
/// rule.
fn filter_lines(all_lines: Vec<String>, pattern: &str, ignore_case: bool) -> (matches: Vec<
    String,
>)
    ensures
        matches.deep_view() == all_lines.deep_view().filter(
            |line: Seq<char>|
                contains_seq(normalize(line, ignore_case), normalize(pattern@, ignore_case)),
        ),
{
    let ghost pred = |line: Seq<char>|
        contains_seq(normalize(line, ignore_case), normalize(pattern@, ignore_case));
    let mut matches: Vec<String> = Vec::new();
    let mut i: usize = 0;
    proof {
        assert(all_lines.deep_view().subrange(0, 0) =~= Seq::<Seq<char>>::empty());
        assert(matches.deep_view() =~= Seq::<Seq<char>>::empty());
        reveal(Seq::filter);
    }
    while i < all_lines.len()
        invariant
            i <= all_lines@.len(),
            pred == (|line: Seq<char>|
                contains_seq(normalize(line, ignore_case), normalize(pattern@, ignore_case))),
            matches.deep_view() == all_lines.deep_view().subrange(0, i as int).filter(pred),
        decreases all_lines@.len() - i,
    {
        let ghost prev = matches.deep_view();
        let ghost prefix = all_lines.deep_view().subrange(0, i as int);
        if contains_substring(all_lines[i].as_str(), pattern, ignore_case) {
            matches.push(all_lines[i].clone());
            proof {
                assert(matches.deep_view() =~= prev.push(all_lines.deep_view()[i as int]));
            }
        }
        proof {
            assert(all_lines.deep_view()[i as int] == all_lines@[i as int]@);
            assert(pred(all_lines.deep_view()[i as int]) == contains_seq(
                normalize(all_lines@[i as int]@, ignore_case),
                normalize(pattern@, ignore_case),
            ));
            lemma_filter_push(prefix, all_lines.deep_view()[i as int], pred);
            assert(all_lines.deep_view().subrange(0, i + 1) =~= prefix.push(
                all_lines.deep_view()[i as int],
            ));
        }
        i += 1;
    }
    proof {
        assert(all_lines.deep_view().subrange(0, all_lines@.len() as int) =~= all_lines.deep_view());
    }
    matches
}

/// Returns, in original order, every line of `content` that contains
/// `pattern` as an exact-case substring.
pub fn search(pattern: &str, content: &str) -> (matches: Vec<String>)
    ensures
        matches.deep_view() == search_spec(pattern@, content@),
{
    let all_lines = split_lines(content);
    let matches = filter_lines(all_lines, pattern, false);
    proof {
        lemma_filter_equiv(
            lines_spec(content@),
            |line: Seq<char>| contains_seq(normalize(line, false), normalize(pattern@, false)),
            |line: Seq<char>| contains_seq(line, pattern@),
        );
    }
    matches
}

/// Returns, in original order, every line of `content` whose lowercase form
/// contains the lowercase form of `pattern`; the lines come back verbatim,
/// not lowercased.
pub fn search_case_insensitive(pattern: &str, content: &str) -> (matches: Vec<String>)
    ensures
        matches.deep_view() == search_ci_spec(pattern@, content@),
{
    let all_lines = split_lines(content);
    let matches = filter_lines(all_lines, pattern, true);
    proof {
        lemma_filter_equiv(
            lines_spec(content@),
            |line: Seq<char>| contains_seq(normalize(line, true), normalize(pattern@, true)),
            |line: Seq<char>| contains_seq(lower_seq(line), lower_seq(pattern@)),
        );
    }
    matches
}

/// The search result never has more lines than the text itself.
pub proof fn lemma_search_len(pattern: Seq<char>, text: Seq<char>)
    ensures
        search_spec(pattern, text).len() <= lines_spec(text).len(),
        search_ci_spec(pattern, text).len() <= lines_spec(text).len(),
{
    lines_spec(text).lemma_filter_len(|line: Seq<char>| contains_seq(line, pattern));
    lines_spec(text).lemma_filter_len(
        |line: Seq<char>| contains_seq(lower_seq(line), lower_seq(pattern)),
    );
}

/// The empty pattern matches every line: searching for it returns the whole
/// text, line by line, under either case rule.
pub proof fn lemma_empty_pattern(text: Seq<char>)
    ensures
        search_spec(Seq::<char>::empty(), text) == lines_spec(text),
        search_ci_spec(Seq::<char>::empty(), text) == lines_spec(text),
{
    let empty = Seq::<char>::empty();
    assert forall|line: Seq<char>| #[trigger] contains_seq(line, empty) by {
        assert(line.subrange(0, 0 + empty.len() as int) =~= empty);
        crate::matching::lemma_contains_at(line, empty, 0);
    }
    assert(lower_seq(empty) =~= empty);
    lemma_filter_all_true(lines_spec(text), |line: Seq<char>| contains_seq(line, empty));
    lemma_filter_all_true(
        lines_spec(text),
        |line: Seq<char>| contains_seq(lower_seq(line), lower_seq(empty)),
    );
}

/// An exact-case occurrence survives lowercasing both sides.
proof fn lemma_contains_lower(line: Seq<char>, pattern: Seq<char>)
    requires
        contains_seq(line, pattern),
    ensures
        contains_seq(lower_seq(line), lower_seq(pattern)),
{
    let i = choose|i: int|
        0 <= i && i + pattern.len() <= line.len() && #[trigger] line.subrange(
            i,
            i + pattern.len() as int,
        ) == pattern;
    assert forall|k: int| 0 <= k < pattern.len() implies lower_seq(line)[i + k] == lower_seq(
        pattern,
    )[k] by {
        assert(line.subrange(i, i + pattern.len() as int)[k] == line[i + k]);
    }
    assert(lower_seq(line).subrange(i, i + lower_seq(pattern).len() as int) =~= lower_seq(
        pattern,
    ));
    crate::matching::lemma_contains_at(lower_seq(line), lower_seq(pattern), i);
}

/// Case-insensitive search returns a superset, by line identity, of the
/// case-sensitive result for the same pattern and text.
pub proof fn lemma_case_insensitive_superset(pattern: Seq<char>, text: Seq<char>)
    ensures
        forall|line: Seq<char>|
            search_spec(pattern, text).contains(line) ==> #[trigger] search_ci_spec(
                pattern,
                text,
            ).contains(line),
{
    let cs_pred = |line: Seq<char>| contains_seq(line, pattern);
    let ci_pred = |line: Seq<char>| contains_seq(lower_seq(line), lower_seq(pattern));
    let all = lines_spec(text);
    lemma_filter_is_subset(all, cs_pred);
    assert forall|line: Seq<char>|
        search_spec(pattern, text).contains(line) implies #[trigger] search_ci_spec(
        pattern,
        text,
    ).contains(line) by {
        let j = choose|j: int|
            0 <= j < all.filter(cs_pred).len() && all.filter(cs_pred)[j] == line;
        all.lemma_filter_pred(cs_pred, j);
        assert(contains_seq(line, pattern));
        lemma_contains_lower(line, pattern);
        assert(all.contains(line));
        let k = choose|k: int| 0 <= k < all.len() && all[k] == line;
        all.lemma_filter_contains(ci_pred, k);
    }
}

} // verus!
