//! The mathematical model of a document: its division into lines, substring
//! containment, and the simple ASCII lowercase transform.
//!
//! A document is split into lines on `'\n'`; a trailing `'\r'` is stripped
//! from every line, so texts with `"\r\n"` endings yield the same lines as
//! texts with `"\n"` endings.  A final unterminated line is still a line; a
//! trailing newline does not produce a spurious empty final line.

use vstd::prelude::*;

verus! {

/// A line with a trailing carriage return removed.
pub open spec fn strip_cr(line: Seq<char>) -> Seq<char> {
    if line.len() > 0 && line.last() == '\r' {
        line.drop_last()
    } else {
        line
    }
}

/// The lines contributed by the unread suffix `rest` of a document, where
/// `cur` holds the characters of the current line read so far.  An empty
/// `cur` at the end of the text yields no final line, so a trailing newline
/// adds nothing.
pub open spec fn lines_from(rest: Seq<char>, cur: Seq<char>) -> Seq<Seq<char>>
    decreases rest.len(),
{
    if rest.len() == 0 {
        if cur.len() == 0 {
            Seq::empty()
        } else {
            seq![strip_cr(cur)]
        }
    } else if rest.first() == '\n' {
        seq![strip_cr(cur)] + lines_from(rest.drop_first(), Seq::empty())
    } else {
        lines_from(rest.drop_first(), cur.push(rest.first()))
    }
}

/// The document as an ordered sequence of lines.
pub open spec fn spec_lines(text: Seq<char>) -> Seq<Seq<char>> {
    lines_from(text, Seq::empty())
}

/// `needle` occurs in `hay` starting at position `i`.
pub open spec fn is_match_at(hay: Seq<char>, needle: Seq<char>, i: int) -> bool {
    0 <= i && i + needle.len() <= hay.len() && hay.subrange(i, i + needle.len()) == needle
}

/// Substring containment.  The empty needle occurs in every haystack, at
/// position 0.
pub open spec fn contains_seq(hay: Seq<char>, needle: Seq<char>) -> bool {
    exists|i: int| is_match_at(hay, needle, i)
}

/// Simple, locale-independent lowercasing of one character: the ASCII
/// letters `'A'..='Z'` map to their lowercase forms, every other character
/// is left alone.
pub open spec fn lower_char(c: char) -> char {
    if 'A' <= c && c <= 'Z' {
        ((c as u8) + 32) as char
    } else {
        c
    }
}

/// Simple, locale-independent uppercasing of one character, the inverse
/// transform on the ASCII letters.
pub open spec fn upper_char(c: char) -> char {
    if 'a' <= c && c <= 'z' {
        ((c as u8) - 32) as char
    } else {
        c
    }
}

/// A text lowercased character by character.
pub open spec fn lower(s: Seq<char>) -> Seq<char> {
    s.map_values(|c: char| lower_char(c))
}

/// A text uppercased character by character.
pub open spec fn upper(s: Seq<char>) -> Seq<char> {
    s.map_values(|c: char| upper_char(c))
}

/// The lowercase transform is idempotent: lowercasing a text twice gives
/// the same result as lowercasing it once.
pub proof fn lemma_lower_idempotent(s: Seq<char>)
    ensures
        lower(lower(s)) == lower(s),
{
    assert forall|i: int| 0 <= i < s.len() implies lower_char(lower_char(s[i])) == lower_char(
        s[i],
    ) by {
        let c = s[i];
        if 'A' <= c && c <= 'Z' {
            assert(lower_char(c) == ((c as u8) + 32) as char);
        }
    }
    assert(lower(lower(s)) =~= lower(s));
}

/// Lowercasing an uppercased text gives the same result as lowercasing the
/// text itself: the two transforms agree on every character.
pub proof fn lemma_lower_of_upper(s: Seq<char>)
    ensures
        lower(upper(s)) == lower(s),
{
    assert forall|i: int| 0 <= i < s.len() implies lower_char(upper_char(s[i])) == lower_char(
        s[i],
    ) by {
        let c = s[i];
        if 'a' <= c && c <= 'z' {
            assert(upper_char(c) == ((c as u8) - 32) as char);
        }
    }
    assert(lower(upper(s)) =~= lower(s));
}

/// The induction behind `lemma_trailing_newline`, generalized over the part
/// of the current line already read.
proof fn lemma_lines_from_trailing_newline(rest: Seq<char>, cur: Seq<char>)
    requires
        rest.len() > 0 ==> rest.last() != '\n',
        rest.len() == 0 ==> cur.len() > 0,
    ensures
        lines_from(rest.push('\n'), cur) == lines_from(rest, cur),
    decreases rest.len(),
{
    let s = rest.push('\n');
    if rest.len() == 0 {
        assert(s.first() == '\n');
        assert(s.drop_first() =~= Seq::<char>::empty());
        assert(seq![strip_cr(cur)] + lines_from(Seq::empty(), Seq::empty()) =~= seq![
            strip_cr(cur),
        ]);
    } else {
        assert(s.first() == rest.first());
        assert(s.drop_first() =~= rest.drop_first().push('\n'));
        if rest.first() == '\n' {
            assert(rest.drop_first().len() > 0);
            assert(rest.drop_first().last() == rest.last());
            lemma_lines_from_trailing_newline(rest.drop_first(), Seq::empty());
        } else {
            if rest.drop_first().len() > 0 {
                assert(rest.drop_first().last() == rest.last());
            }
            lemma_lines_from_trailing_newline(rest.drop_first(), cur.push(rest.first()));
        }
    }
}

/// A nonempty document with no trailing newline and the same document with
/// one produce the same lines: the trailing newline creates no spurious
/// empty final line.
pub proof fn lemma_trailing_newline(text: Seq<char>)
    requires
        text.len() > 0,
        text.last() != '\n',
    ensures
        spec_lines(text.push('\n')) == spec_lines(text),
{
    lemma_lines_from_trailing_newline(text, Seq::empty());
}

/// Splits a document into its lines, each borrowed from the document.
pub fn split_lines<'a>(contents: &'a str) -> (lines: Vec<&'a str>)
    ensures
        lines.deep_view() == spec_lines(contents@),
{
    let n = contents.unicode_len();
    let mut lines: Vec<&'a str> = Vec::new();
    let mut start: usize = 0;
    let mut i: usize = 0;
    proof {
        assert(lines.deep_view() =~= Seq::<Seq<char>>::empty());
        assert(contents@.subrange(0, n as int) =~= contents@);
        assert(contents@.subrange(0, 0) =~= Seq::<char>::empty());
        assert(lines.deep_view() + lines_from(contents@, Seq::empty()) =~= lines_from(
            contents@,
            Seq::empty(),
        ));
    }
    while i < n
        invariant
            n == contents@.len(),
            start <= i <= n,
            lines.deep_view() + lines_from(
                contents@.subrange(i as int, n as int),
                contents@.subrange(start as int, i as int),
            ) == spec_lines(contents@),
        decreases n - i,
    {
        let ghost text = contents@;
        let ghost rest = text.subrange(i as int, n as int);
        let ghost cur = text.subrange(start as int, i as int);
        let c = contents.get_char(i);
        proof {
            assert(rest.first() == c);
            assert(rest.drop_first() =~= text.subrange(i + 1, n as int));
        }
        if c == '\n' {
            let line_end = if i > start && contents.get_char(i - 1) == '\r' {
                i - 1
            } else {
                i
            };
            let line = contents.substring_char(start, line_end);
            proof {
                if i > start && text[i - 1] == '\r' {
                    assert(cur.len() > 0 && cur.last() == '\r');
                    assert(line@ =~= cur.drop_last());
                } else {
                    assert(line@ =~= cur);
                }
                assert(line@ == strip_cr(cur));
            }
            let ghost emitted = lines.deep_view();
            lines.push(line);
            proof {
                assert(lines.deep_view() =~= emitted.push(strip_cr(cur)));
                assert(text.subrange(i + 1, i + 1) =~= Seq::<char>::empty());
                assert(emitted.push(strip_cr(cur)) + lines_from(
                    text.subrange(i + 1, n as int),
                    Seq::empty(),
                ) =~= emitted + lines_from(rest, cur));
            }
            start = i + 1;
        } else {
            proof {
                assert(cur.push(c) =~= text.subrange(start as int, i + 1));
            }
        }
        i = i + 1;
    }
    let ghost text = contents@;
    proof {
        assert(text.subrange(n as int, n as int) =~= Seq::<char>::empty());
    }
    if start < n {
        let ghost cur = text.subrange(start as int, n as int);
        let line_end = if contents.get_char(n - 1) == '\r' {
            n - 1
        } else {
            n
        };
        let line = contents.substring_char(start, line_end);
        proof {
            if text[n - 1] == '\r' {
                assert(cur.len() > 0 && cur.last() == '\r');
                assert(line@ =~= cur.drop_last());
            } else {
                assert(line@ =~= cur);
            }
            assert(line@ == strip_cr(cur));
        }
        let ghost emitted = lines.deep_view();
        lines.push(line);
        proof {
            assert(lines.deep_view() =~= emitted.push(strip_cr(cur)));
            assert(emitted.push(strip_cr(cur)) =~= emitted + lines_from(Seq::empty(), cur));
        }
    } else {
        proof {
            assert(lines.deep_view() + lines_from(Seq::<char>::empty(), Seq::<char>::empty())
                =~= lines.deep_view());
        }
    }
    lines
}

} // verus!


