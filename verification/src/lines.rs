//! Splitting a text into lines.
//!
//! A line break is a line feed or a carriage return directly followed by a
//! line feed; the break itself is not part of any line. A final line without
//! a trailing break is kept; an empty text has no lines.

use vstd::prelude::*;

verus! {

/// Position of the first line feed in `text`, or `text.len()` when there is
/// none.
pub open spec fn first_newline(text: Seq<char>) -> nat
    decreases text.len(),
{
    if text.len() == 0 {
        0
    } else if text[0] == '\n' {
        0
    } else {
        1 + first_newline(text.subrange(1, text.len() as int))
    }
}

/// A line as it came before a line feed: a carriage return directly before
/// the line feed belongs to the break and is stripped.
pub open spec fn strip_cr(line: Seq<char>) -> Seq<char> {
    if line.len() > 0 && line[line.len() - 1] == '\r' {
        line.subrange(0, line.len() - 1)
    } else {
        line
    }
}

/// The lines of `text`, in order, with line breaks stripped.
pub open spec fn lines_spec(text: Seq<char>) -> Seq<Seq<char>>
    decreases text.len(),
{
    if text.len() == 0 {
        Seq::empty()
    } else {
        let j = first_newline(text) as int;
        if j >= text.len() {
            seq![text]
        } else {
            seq![strip_cr(text.subrange(0, j))] + lines_spec(
                text.subrange(j + 1, text.len() as int),
            )
        }
    }
}

/// `first_newline` is pinned down by its two properties: no line feed before
/// it, and a line feed (or the end of the text) at it.
proof fn lemma_first_newline_at(text: Seq<char>, m: int)
    requires
        0 <= m <= text.len(),
        forall|k: int| 0 <= k < m ==> text[k] != '\n',
        m < text.len() ==> text[m] == '\n',
    ensures
        first_newline(text) == m,
    decreases text.len(),
{
    if text.len() == 0 {
    } else if text[0] == '\n' {
        assert(m == 0);
    } else {
        let rest = text.subrange(1, text.len() as int);
        assert(m >= 1);
        assert(forall|k: int| 0 <= k < m - 1 ==> rest[k] == text[k + 1] && text[k + 1] != '\n');
        lemma_first_newline_at(rest, m - 1);
    }
}

/// Splits `text` into its lines, each returned verbatim as its own string.
pub fn split_lines(text: &str) -> (lines: Vec<String>)
    ensures
        lines.deep_view() == lines_spec(text@),
{
    let n = text.unicode_len();
    let mut lines: Vec<String> = Vec::new();
    let mut pos: usize = 0;
    proof {
        assert(lines.deep_view() =~= Seq::<Seq<char>>::empty());
        assert(text@.subrange(0, n as int) =~= text@);
        assert(Seq::<Seq<char>>::empty() + lines_spec(text@) =~= lines_spec(text@));
    }
    while pos < n
        invariant
            pos <= n,
            n == text@.len(),
            lines_spec(text@) == lines.deep_view() + lines_spec(
                text@.subrange(pos as int, n as int),
            ),
        decreases n - pos,
    {
        let ghost prev = lines.deep_view();
        let ghost sub = text@.subrange(pos as int, n as int);
        let mut j: usize = pos;
        while j < n && text.get_char(j) != '\n'
            invariant
                pos <= j <= n,
                n == text@.len(),
                forall|k: int| pos <= k < j ==> text@[k] != '\n',
            decreases n - j,
        {
            j += 1;
        }
        proof {
            assert(forall|k: int| 0 <= k < j - pos ==> sub[k] == text@[k + pos] && text@[k + pos]
                != '\n');
            lemma_first_newline_at(sub, j - pos);
        }
        if j < n {
            let line_end = if j > pos && text.get_char(j - 1) == '\r' {
                j - 1
            } else {
                j
            };
            let line = text.substring_char(pos, line_end).to_owned();
            proof {
                assert(sub.subrange(0, j - pos) =~= text@.subrange(pos as int, j as int));
                if j > pos && text@[j - 1] == '\r' {
                    assert(strip_cr(sub.subrange(0, j - pos)) =~= text@.subrange(
                        pos as int,
                        j - 1,
                    ));
                } else {
                    assert(strip_cr(sub.subrange(0, j - pos)) =~= text@.subrange(
                        pos as int,
                        j as int,
                    ));
                }
                assert(line@ == strip_cr(sub.subrange(0, j - pos)));
                assert(sub.subrange(j - pos + 1, sub.len() as int) =~= text@.subrange(
                    j + 1,
                    n as int,
                ));
                assert(lines_spec(sub) == seq![line@] + lines_spec(
                    text@.subrange(j + 1, n as int),
                ));
            }
            lines.push(line);
            proof {
                assert(lines.deep_view() =~= prev.push(line@));
                assert(prev.push(line@) =~= prev + seq![line@]);
                assert(prev + (seq![line@] + lines_spec(text@.subrange(j + 1, n as int)))
                    =~= (prev + seq![line@]) + lines_spec(text@.subrange(j + 1, n as int)));
            }
            pos = j + 1;
        } else {
            let line = text.substring_char(pos, n).to_owned();
            proof {
                assert(line@ == sub);
                assert(lines_spec(sub) == seq![sub]);
            }
            lines.push(line);
            proof {
                assert(lines.deep_view() =~= prev.push(line@));
                assert(prev.push(line@) =~= prev + seq![line@]);
                assert(text@.subrange(n as int, n as int) =~= Seq::<char>::empty());
                assert(prev + seq![sub] =~= (prev + seq![sub]) + lines_spec(
                    text@.subrange(n as int, n as int),
                ));
            }
            pos = n;
        }
    }
    proof {
        assert(text@.subrange(pos as int, n as int) =~= Seq::<char>::empty());
        assert(lines.deep_view() + Seq::<Seq<char>>::empty() =~= lines.deep_view());
    }
    lines
}

} // verus!
