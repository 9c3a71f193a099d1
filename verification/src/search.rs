//! The line search itself: which lines of a document contain a query.

use vstd::prelude::*;

use crate::text::contains_seq;
use crate::text::is_match_at;
use crate::text::lower;
use crate::text::lower_char;
use crate::text::spec_lines;
use crate::text::split_lines;
use crate::text::upper;

verus! {

/// Whether matching compares characters exactly or after lowercasing both
/// query and line.
#[derive(Clone, Copy, PartialEq, Eq, Structural)]
pub enum CasePolicy {
    Sensitive,
    Insensitive,
}

/// A line matches a query when it contains it as a substring, under the
/// chosen case policy after the simple ASCII lowercase transform.
pub open spec fn line_matches(query: Seq<char>, line: Seq<char>, policy: CasePolicy) -> bool {
    match policy {
        CasePolicy::Sensitive => contains_seq(line, query),
        CasePolicy::Insensitive => contains_seq(lower(line), lower(query)),
    }
}

/// The matching lines of a document as a predicate on one line, with the
/// query and the policy fixed.
pub open spec fn match_pred(query: Seq<char>, policy: CasePolicy) -> spec_fn(Seq<char>) -> bool {
    |line: Seq<char>| line_matches(query, line, policy)
}

/// The matching lines of a document, in document order, each kept in its
/// original casing.
pub open spec fn spec_search(query: Seq<char>, contents: Seq<char>, policy: CasePolicy) -> Seq<
    Seq<char>,
> {
    spec_lines(contents).filter(match_pred(query, policy))
}

/// One filtering step: pushing a line onto a sequence extends its filtered
/// form by that line exactly when the line satisfies the predicate.
proof fn lemma_filter_push(s: Seq<Seq<char>>, pred: spec_fn(Seq<char>) -> bool, x: Seq<char>)
    ensures
        s.push(x).filter(pred) == if pred(x) {
            s.filter(pred).push(x)
        } else {
            s.filter(pred)
        },
{
    reveal(Seq::filter);
    assert(s.push(x).drop_last() =~= s);
    assert(s.push(x).last() == x);
}

/// Filtering keeps a sequence whole when the predicate holds of every
/// element.
proof fn lemma_filter_all_true(s: Seq<Seq<char>>, pred: spec_fn(Seq<char>) -> bool)
    requires
        forall|i: int| 0 <= i < s.len() ==> pred(s[i]),
    ensures
        s.filter(pred) == s,
    decreases s.len(),
{
    reveal(Seq::filter);
    if s.len() != 0 {
        assert forall|i: int| 0 <= i < s.drop_last().len() implies pred(s.drop_last()[i]) by {
            assert(s.drop_last()[i] == s[i]);
        }
        lemma_filter_all_true(s.drop_last(), pred);
        assert(pred(s.last()));
        assert(s.drop_last().push(s.last()) =~= s);
    }
}

/// Two predicates that agree on every element of a sequence filter it to
/// the same subsequence.
proof fn lemma_filter_congruent(
    s: Seq<Seq<char>>,
    p: spec_fn(Seq<char>) -> bool,
    q: spec_fn(Seq<char>) -> bool,
)
    requires
        forall|i: int| 0 <= i < s.len() ==> p(s[i]) == q(s[i]),
    ensures
        s.filter(p) == s.filter(q),
    decreases s.len(),
{
    reveal(Seq::filter);
    if s.len() != 0 {
        assert forall|i: int| 0 <= i < s.drop_last().len() implies p(s.drop_last()[i]) == q(
            s.drop_last()[i],
        ) by {
            assert(s.drop_last()[i] == s[i]);
        }
        lemma_filter_congruent(s.drop_last(), p, q);
        assert(p(s.last()) == q(s.last()));
    }
}

/// A search selects exactly the matching lines: every line it returns
/// matches the query under the chosen policy, and every line of the
/// document that matches is returned.  (That the selection also keeps
/// document order is part of the contract of `search_with_policy` itself,
/// whose result is the document's lines filtered in place.)
pub proof fn lemma_search_selects_exactly_the_matches(
    query: Seq<char>,
    contents: Seq<char>,
    policy: CasePolicy,
)
    ensures
        forall|i: int|
            0 <= i < spec_search(query, contents, policy).len() ==> line_matches(
                query,
                #[trigger] spec_search(query, contents, policy)[i],
                policy,
            ),
        forall|i: int|
            0 <= i < spec_lines(contents).len() && line_matches(
                query,
                #[trigger] spec_lines(contents)[i],
                policy,
            ) ==> spec_search(query, contents, policy).contains(spec_lines(contents)[i]),
{
    let pred = match_pred(query, policy);
    let all_lines = spec_lines(contents);
    let selected = spec_search(query, contents, policy);
    assert forall|i: int| 0 <= i < selected.len() implies line_matches(
        query,
        selected[i],
        policy,
    ) by {
        all_lines.lemma_filter_pred(pred, i);
    }
    assert forall|i: int|
        0 <= i < all_lines.len() && line_matches(query, all_lines[i], policy) implies selected
        .contains(all_lines[i]) by {
        all_lines.lemma_filter_contains(pred, i);
    }
}

/// Searching is deterministic and memoryless: two results of a search with
/// identical inputs are identical, as the searched-for value is a function
/// of the query, the document and the policy alone.
pub proof fn lemma_search_deterministic(
    first: Seq<Seq<char>>,
    second: Seq<Seq<char>>,
    query: Seq<char>,
    contents: Seq<char>,
    policy: CasePolicy,
)
    requires
        first == spec_search(query, contents, policy),
        second == spec_search(query, contents, policy),
    ensures
        first == second,
{
}

/// The empty query matches every line: searching for it returns all lines
/// of the document unchanged and in order, under either case policy.
pub proof fn lemma_empty_query_matches_all(contents: Seq<char>, policy: CasePolicy)
    ensures
        spec_search(Seq::empty(), contents, policy) == spec_lines(contents),
{
    let pred = match_pred(Seq::empty(), policy);
    let all_lines = spec_lines(contents);
    assert forall|i: int| 0 <= i < all_lines.len() implies pred(all_lines[i]) by {
        let line = all_lines[i];
        assert(line.subrange(0, 0) =~= Seq::<char>::empty());
        assert(is_match_at(line, Seq::empty(), 0));
        assert(lower(Seq::<char>::empty()) =~= Seq::<char>::empty());
        assert(lower(line).subrange(0, 0) =~= Seq::<char>::empty());
        assert(is_match_at(lower(line), lower(Seq::<char>::empty()), 0));
    }
    lemma_filter_all_true(all_lines, pred);
}

/// Case-insensitive search does not change when the case of the query's
/// letters is permuted: lowercasing or uppercasing the query beforehand
/// selects the same lines.
pub proof fn lemma_case_permutation(query: Seq<char>, contents: Seq<char>)
    ensures
        spec_search(lower(query), contents, CasePolicy::Insensitive) == spec_search(
            query,
            contents,
            CasePolicy::Insensitive,
        ),
        spec_search(upper(query), contents, CasePolicy::Insensitive) == spec_search(
            query,
            contents,
            CasePolicy::Insensitive,
        ),
{
    crate::text::lemma_lower_idempotent(query);
    crate::text::lemma_lower_of_upper(query);
    let p = match_pred(query, CasePolicy::Insensitive);
    let p_low = match_pred(lower(query), CasePolicy::Insensitive);
    let p_up = match_pred(upper(query), CasePolicy::Insensitive);
    let all_lines = spec_lines(contents);
    assert(forall|i: int| 0 <= i < all_lines.len() ==> p_low(all_lines[i]) == p(all_lines[i]));
    assert(forall|i: int| 0 <= i < all_lines.len() ==> p_up(all_lines[i]) == p(all_lines[i]));
    lemma_filter_congruent(all_lines, p_low, p);
    lemma_filter_congruent(all_lines, p_up, p);
}

/// The characters of a string slice, as a vector.
fn chars_of(s: &str) -> (chars: Vec<char>)
    ensures
        chars@ == s@,
{
    let n = s.unicode_len();
    let mut chars: Vec<char> = Vec::new();
    let mut i: usize = 0;
    while i < n
        invariant
            n == s@.len(),
            i <= n,
            chars@ == s@.subrange(0, i as int),
        decreases n - i,
    {
        chars.push(s.get_char(i));
        i = i + 1;
        proof {
            assert(chars@ =~= s@.subrange(0, i as int));
        }
    }
    proof {
        assert(chars@ =~= s@);
    }
    chars
}

/// Whether `needle` occurs in `hay` starting at position `at`.
fn match_at(hay: &Vec<char>, needle: &Vec<char>, at: usize) -> (found: bool)
    requires
        at + needle@.len() <= hay@.len(),
    ensures
        found == is_match_at(hay@, needle@, at as int),
{
    let hay_len = hay.len();
    let mut j: usize = 0;
    while j < needle.len()
        invariant
            at + needle@.len() <= hay@.len(),
            hay@.len() == hay_len,
            j <= needle@.len(),
            forall|k: int| 0 <= k < j ==> hay@[at + k] == needle@[k],
        decreases needle@.len() - j,
    {
        if hay[at + j] != needle[j] {
            proof {
                let occ = hay@.subrange(at as int, at + needle@.len());
                assert(occ == needle@ ==> occ[j as int] == needle@[j as int]);
            }
            return false;
        }
        j = j + 1;
    }
    proof {
        assert(hay@.subrange(at as int, at + needle@.len()) =~= needle@);
    }
    true
}

/// Whether `needle` occurs anywhere in `hay`; an empty needle always does.
fn contains_chars(hay: &Vec<char>, needle: &Vec<char>) -> (found: bool)
    ensures
        found == contains_seq(hay@, needle@),
{
    if needle.len() > hay.len() {
        return false;
    }
    let last_start = hay.len() - needle.len();
    let mut i: usize = 0;
    loop
        invariant
            needle@.len() <= hay@.len(),
            last_start == hay@.len() - needle@.len(),
            i <= last_start,
            forall|k: int| 0 <= k < i ==> !is_match_at(hay@, needle@, k),
        decreases last_start - i,
    {
        if match_at(hay, needle, i) {
            return true;
        }
        if i == last_start {
            proof {
                assert(forall|k: int| !is_match_at(hay@, needle@, k));
            }
            return false;
        }
        i = i + 1;
    }
}

/// A vector of characters lowercased character by character.
fn lower_chars(chars: &Vec<char>) -> (lowered: Vec<char>)
    ensures
        lowered@ == lower(chars@),
{
    let mut lowered: Vec<char> = Vec::new();
    let mut i: usize = 0;
    while i < chars.len()
        invariant
            i <= chars@.len(),
            lowered@ == lower(chars@.subrange(0, i as int)),
        decreases chars@.len() - i,
    {
        let c = chars[i];
        let low: char = if c >= 'A' && c <= 'Z' {
            ((c as u8) + 32) as char
        } else {
            c
        };
        proof {
            assert(low == lower_char(c));
        }
        lowered.push(low);
        i = i + 1;
        proof {
            assert(lowered@ =~= lower(chars@.subrange(0, i as int)));
        }
    }
    proof {
        assert(chars@.subrange(0, chars@.len() as int) =~= chars@);
    }
    lowered
}

/// Searches a document for the lines containing a query, under the given
/// case policy.  The result is the ordered subsequence of the document's
/// lines whose content (lowercased first, under the insensitive policy)
/// contains the query as a substring; each matching line is returned in its
/// original casing, borrowed from the document.  The result depends on the
/// three arguments alone: the search reads no other state and never fails.
pub fn search_with_policy<'a>(query: &str, contents: &'a str, policy: CasePolicy) -> (matches: Vec<
    &'a str,
>)
    ensures
        matches.deep_view() == spec_search(query@, contents@, policy),
{
    let lines = split_lines(contents);
    let query_chars = chars_of(query);
    let needle: Vec<char> = match policy {
        CasePolicy::Sensitive => query_chars,
        CasePolicy::Insensitive => lower_chars(&query_chars),
    };
    let ghost pred = match_pred(query@, policy);
    let ghost all_lines = spec_lines(contents@);
    let mut matches: Vec<&'a str> = Vec::new();
    let line_count = lines.len();
    proof {
        reveal(Seq::filter);
        assert(all_lines.subrange(0, 0) =~= Seq::<Seq<char>>::empty());
        assert(matches.deep_view() =~= Seq::<Seq<char>>::empty());
    }
    let mut i: usize = 0;
    while i < line_count
        invariant
            line_count == lines@.len(),
            lines.deep_view() == all_lines,
            all_lines == spec_lines(contents@),
            pred == match_pred(query@, policy),
            needle@ == (match policy {
                CasePolicy::Sensitive => query@,
                CasePolicy::Insensitive => lower(query@),
            }),
            i <= line_count,
            matches.deep_view() == all_lines.subrange(0, i as int).filter(pred),
        decreases line_count - i,
    {
        let line: &'a str = lines[i];
        proof {
            assert(line@ == all_lines[i as int]);
        }
        let line_chars = chars_of(line);
        let found = match policy {
            CasePolicy::Sensitive => contains_chars(&line_chars, &needle),
            CasePolicy::Insensitive => {
                let lowered = lower_chars(&line_chars);
                contains_chars(&lowered, &needle)
            },
        };
        proof {
            assert(found == pred(all_lines[i as int]));
        }
        let ghost kept = matches.deep_view();
        if found {
            matches.push(line);
            proof {
                assert(matches.deep_view() =~= kept.push(line@));
            }
        }
        proof {
            let prefix = all_lines.subrange(0, i as int);
            assert(all_lines.subrange(0, i + 1) =~= prefix.push(all_lines[i as int]));
            lemma_filter_push(prefix, pred, all_lines[i as int]);
        }
        i = i + 1;
    }
    proof {
        assert(all_lines.subrange(0, line_count as int) =~= all_lines);
    }
    matches
}

/// Searches a document case-sensitively: returns, in document order, the
/// lines that contain `query` as an exact substring.
pub fn search<'a>(query: &str, contents: &'a str) -> (matches: Vec<&'a str>)
    ensures
        matches.deep_view() == spec_search(query@, contents@, CasePolicy::Sensitive),
{
    search_with_policy(query, contents, CasePolicy::Sensitive)
}

/// Searches a document case-insensitively: returns, in document order and
/// in their original casing, the lines that contain `query` as a substring
/// once both are lowercased by the simple ASCII transform.
pub fn search_case_insensitive<'a>(query: &str, contents: &'a str) -> (matches: Vec<&'a str>)
    ensures
        matches.deep_view() == spec_search(query@, contents@, CasePolicy::Insensitive),
{
    search_with_policy(query, contents, CasePolicy::Insensitive)
}

} // verus!
