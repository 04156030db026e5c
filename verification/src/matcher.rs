//! The matcher: greedy, case-insensitive ordered-subsequence matching of a
//! query against a line, and the tightness score of the resulting hit
//! positions.

use vstd::prelude::*;
use vstd::std_specs::iter::IteratorSpec;

verus! {

broadcast use vstd::string::group_string_axioms;

/// The code point of `c` with an ASCII upper-case letter folded to lower case.
pub open spec fn lower_code(c: char) -> int {
    if 65 <= c as int && c as int <= 90 {
        c as int + 32
    } else {
        c as int
    }
}

/// Two characters are equal up to ASCII case.
pub open spec fn chars_eq_ci(a: char, b: char) -> bool {
    lower_code(a) == lower_code(b)
}

/// Exec mirror of [`chars_eq_ci`].
pub fn char_eq_ci(a: char, b: char) -> (r: bool)
    ensures
        r == chars_eq_ci(a, b),
{
    let ca = a as u32;
    let cb = b as u32;
    let la = if 65 <= ca && ca <= 90 {
        ca + 32
    } else {
        ca
    };
    let lb = if 65 <= cb && cb <= 90 {
        cb + 32
    } else {
        cb
    };
    la == lb
}

/// The hit positions that the greedy left-to-right scan produces when it
/// matches `q[qi..]` against `l[li..]`: for each query character in turn it
/// consumes the first compatible line character. `None` when the query cannot
/// be exhausted.
pub open spec fn greedy_from(q: Seq<char>, l: Seq<char>, qi: int, li: int) -> Option<Seq<int>>
    decreases l.len() - li,
{
    if qi >= q.len() {
        Some(Seq::empty())
    } else if li < 0 || li >= l.len() {
        None
    } else if chars_eq_ci(l[li], q[qi]) {
        match greedy_from(q, l, qi + 1, li + 1) {
            Some(rest) => Some(seq![li] + rest),
            None => None,
        }
    } else {
        greedy_from(q, l, qi, li + 1)
    }
}

/// The hit positions of the greedy case-insensitive subsequence match of `q`
/// in `l`, or `None` when `q` is not an ordered subsequence of `l` up to case.
/// The empty query always matches with no hits.
pub open spec fn fuzzy_hits_spec(q: Seq<char>, l: Seq<char>) -> Option<Seq<int>> {
    greedy_from(q, l, 0, 0)
}

/// `pos` lists positions that embed `q[qi..]` into `l` in order: strictly
/// increasing, all at least `li`, and each position carrying the matching
/// query character up to case.
pub open spec fn embeds_from(q: Seq<char>, l: Seq<char>, qi: int, li: int, pos: Seq<int>) -> bool {
    &&& pos.len() == q.len() - qi
    &&& forall|i: int| 0 <= i < pos.len() ==> li <= #[trigger] pos[i] < l.len()
    &&& forall|i: int, j: int|
        0 <= i < j < pos.len() ==> #[trigger] pos[i] < #[trigger] pos[j]
    &&& forall|i: int| 0 <= i < pos.len() ==> chars_eq_ci(l[#[trigger] pos[i]], q[qi + i])
}

/// `q` occurs as an ordered subsequence of `l`, up to ASCII case.
pub open spec fn has_match(q: Seq<char>, l: Seq<char>) -> bool {
    exists|pos: Seq<int>| embeds_from(q, l, 0, 0, pos)
}

/// Soundness of the greedy scan: whatever it returns embeds the query.
proof fn lemma_greedy_sound(q: Seq<char>, l: Seq<char>, qi: int, li: int)
    requires
        0 <= qi <= q.len(),
        0 <= li,
    ensures
        greedy_from(q, l, qi, li) matches Some(pos) ==> embeds_from(q, l, qi, li, pos),
    decreases l.len() - li,
{
    if qi >= q.len() {
        assert(greedy_from(q, l, qi, li) == Some(Seq::<int>::empty()));
    } else if li >= l.len() {
    } else if chars_eq_ci(l[li], q[qi]) {
        lemma_greedy_sound(q, l, qi + 1, li + 1);
        if let Some(rest) = greedy_from(q, l, qi + 1, li + 1) {
            let pos = seq![li] + rest;
            assert(embeds_from(q, l, qi + 1, li + 1, rest));
            assert(pos.len() == q.len() - qi);
            assert(pos[0] == li);
            assert(forall|i: int| 0 < i < pos.len() ==> #[trigger] pos[i] == rest[i - 1]);
            assert forall|i: int| 0 <= i < pos.len() implies li <= #[trigger] pos[i] < l.len() by {
                if i > 0 {
                    assert(pos[i] == rest[i - 1] && li + 1 <= rest[i - 1] < l.len());
                }
            }
            assert forall|i: int, j: int|
                0 <= i < j < pos.len() implies #[trigger] pos[i] < #[trigger] pos[j] by {
                if i == 0 {
                    assert(pos[j] == rest[j - 1] && rest[j - 1] >= li + 1);
                } else {
                    assert(pos[i] == rest[i - 1] && pos[j] == rest[j - 1]);
                }
            }
            assert forall|i: int| 0 <= i < pos.len() implies chars_eq_ci(
                l[#[trigger] pos[i]],
                q[qi + i],
            ) by {
                if i > 0 {
                    assert(pos[i] == rest[i - 1]);
                    assert(chars_eq_ci(l[rest[i - 1]], q[(qi + 1) + (i - 1)]));
                }
            }
            assert(embeds_from(q, l, qi, li, pos));
        }
    } else {
        lemma_greedy_sound(q, l, qi, li + 1);
    }
}

/// Completeness of the greedy scan: if any embedding exists, the scan finds
/// one.
proof fn lemma_greedy_complete(q: Seq<char>, l: Seq<char>, qi: int, li: int, pos: Seq<int>)
    requires
        0 <= qi,
        0 <= li,
        embeds_from(q, l, qi, li, pos),
    ensures
        greedy_from(q, l, qi, li) is Some,
    decreases l.len() - li,
{
    if qi >= q.len() {
    } else {
        assert(pos.len() > 0);
        assert(li <= pos[0] < l.len());
        if chars_eq_ci(l[li], q[qi]) {
            // The tail of the embedding embeds the rest of the query above li.
            let rest = pos.drop_first();
            assert(forall|i: int| 0 <= i < rest.len() ==> #[trigger] rest[i] == pos[i + 1]);
            assert(embeds_from(q, l, qi + 1, li + 1, rest)) by {
                assert forall|i: int| 0 <= i < rest.len() implies li + 1 <= #[trigger] rest[i]
                    < l.len() by {
                    assert(pos[0] < pos[i + 1]);
                }
                assert forall|i: int| 0 <= i < rest.len() implies chars_eq_ci(
                    l[#[trigger] rest[i]],
                    q[(qi + 1) + i],
                ) by {
                    assert(chars_eq_ci(l[pos[i + 1]], q[qi + (i + 1)]));
                }
            }
            lemma_greedy_complete(q, l, qi + 1, li + 1, rest);
        } else {
            // The embedding cannot start at li, so it also lives above li + 1.
            assert(pos[0] != li);
            assert(embeds_from(q, l, qi, li + 1, pos)) by {
                assert forall|i: int| 0 <= i < pos.len() implies li + 1 <= #[trigger] pos[i]
                    < l.len() by {
                    if i > 0 {
                        assert(pos[0] < pos[i]);
                    }
                }
            }
            lemma_greedy_complete(q, l, qi, li + 1, pos);
        }
    }
}

/// The matcher returns hits exactly when the query occurs as an ordered
/// subsequence of the line, up to ASCII case; the hits are the greedy ones,
/// they are strictly increasing positions into the line, and the line's
/// characters at those positions equal the query's in order, up to case. The
/// empty query matches everything with no hits.
pub proof fn lemma_match_characterized(q: Seq<char>, l: Seq<char>)
    ensures
        fuzzy_hits_spec(q, l) is Some <==> has_match(q, l),
        fuzzy_hits_spec(q, l) matches Some(hits) ==> {
            &&& hits.len() == q.len()
            &&& forall|i: int| 0 <= i < hits.len() ==> 0 <= #[trigger] hits[i] < l.len()
            &&& forall|i: int, j: int|
                0 <= i < j < hits.len() ==> #[trigger] hits[i] < #[trigger] hits[j]
            &&& forall|i: int| 0 <= i < hits.len() ==> chars_eq_ci(l[#[trigger] hits[i]], q[i])
        },
        q.len() == 0 ==> fuzzy_hits_spec(q, l) == Some(Seq::<int>::empty()),
{
    lemma_greedy_sound(q, l, 0, 0);
    if has_match(q, l) {
        let pos = choose|pos: Seq<int>| embeds_from(q, l, 0, 0, pos);
        lemma_greedy_complete(q, l, 0, 0, pos);
    }
    if fuzzy_hits_spec(q, l) is Some {
        let hits = fuzzy_hits_spec(q, l)->Some_0;
        assert(embeds_from(q, l, 0, 0, hits));
    }
}

/// The hit positions as mathematical integers.
pub open spec fn hits_ints(h: Seq<usize>) -> Seq<int> {
    h.map_values(|x: usize| x as int)
}

/// Glues an already-produced prefix of hits onto the outcome of the remaining
/// scan.
spec fn glue(prefix: Seq<usize>, rest: Option<Seq<int>>) -> Option<Seq<int>> {
    match rest {
        Some(r) => Some(hits_ints(prefix) + r),
        None => None,
    }
}

/// Greedy case-insensitive subsequence match of `input` against `line`:
/// scans `line` left to right, consuming for each query character in turn the
/// first line character equal to it up to ASCII case. Returns the hit
/// positions, or `None` when the query is not an ordered subsequence of the
/// line up to case. The empty query matches with no hits.
pub fn fuzzy_search(input: &str, line: &str) -> (r: Option<Vec<usize>>)
    ensures
        match r {
            Some(hits) => fuzzy_hits_spec(input@, line@) == Some(hits_ints(hits@)),
            None => fuzzy_hits_spec(input@, line@) is None,
        },
        line@.len() <= usize::MAX,
{
    let qchars = str_chars(input);
    let lchars = str_chars(line);
    let mut hits: Vec<usize> = Vec::new();
    let mut qi: usize = 0;
    let mut li: usize = 0;
    while li < lchars.len() && qi < qchars.len()
        invariant
            qchars@ == input@,
            lchars@ == line@,
            qi <= qchars.len(),
            li <= lchars.len(),
            glue(hits@, greedy_from(input@, line@, qi as int, li as int)) == fuzzy_hits_spec(
                input@,
                line@,
            ),
        decreases lchars.len() - li,
    {
        if char_eq_ci(lchars[li], qchars[qi]) {
            proof {
                let rest = greedy_from(input@, line@, qi + 1int, li + 1int);
                assert(greedy_from(input@, line@, qi as int, li as int) == match rest {
                    Some(r) => Some(seq![li as int] + r),
                    None => None,
                });
                if let Some(r) = rest {
                    assert(hits_ints(hits@.push(li)) =~= hits_ints(hits@).push(li as int));
                    assert(hits_ints(hits@.push(li)) + r =~= hits_ints(hits@) + (seq![li as int]
                        + r));
                }
            }
            hits.push(li);
            qi = qi + 1;
        }
        li = li + 1;
    }
    if qi == qchars.len() {
        proof {
            assert(greedy_from(input@, line@, qi as int, li as int) == Some(Seq::<int>::empty()));
            assert(hits_ints(hits@) + Seq::<int>::empty() =~= hits_ints(hits@));
        }
        Some(hits)
    } else {
        proof {
            assert(greedy_from(input@, line@, qi as int, li as int) is None);
        }
        None
    }
}

/// The tightness score of a sequence of hit positions: the sum of the gaps
/// between consecutive positions; zero when there are fewer than two.
pub open spec fn spec_delta(h: Seq<int>) -> int
    decreases h.len(),
{
    if h.len() < 2 {
        0
    } else {
        spec_delta(h.drop_last()) + (h[h.len() - 1] - h[h.len() - 2])
    }
}

/// The positions do not decrease from left to right.
pub open spec fn non_decreasing(h: Seq<usize>) -> bool {
    forall|i: int, j: int| 0 <= i <= j < h.len() ==> #[trigger] h[i] <= #[trigger] h[j]
}

/// The gap sum telescopes: for two or more positions it is the distance from
/// the first to the last.
pub proof fn lemma_delta_telescopes(h: Seq<int>)
    ensures
        h.len() >= 2 ==> spec_delta(h) == h[h.len() - 1] - h[0],
        h.len() < 2 ==> spec_delta(h) == 0,
    decreases h.len(),
{
    if h.len() >= 2 {
        lemma_delta_telescopes(h.drop_last());
    }
}

/// The tightness score of `input`: the sum of the gaps between consecutive
/// positions. Zero for fewer than two positions.
pub fn get_delta(input: &Vec<usize>) -> (r: usize)
    requires
        non_decreasing(input@),
    ensures
        r as int == spec_delta(hits_ints(input@)),
        input@.len() < 2 ==> r == 0,
{
    let mut delta: usize = 0;
    if input.len() > 1 {
        let mut i: usize = 1;
        while i < input.len()
            invariant
                non_decreasing(input@),
                1 <= i <= input@.len(),
                2 <= input@.len(),
                delta as int == spec_delta(hits_ints(input@.take(i as int))),
                i >= 2 ==> delta as int == input@[i - 1] - input@[0],
                i == 1 ==> delta == 0,
            decreases input@.len() - i,
        {
            proof {
                let pre = hits_ints(input@.take(i as int));
                let cur = hits_ints(input@.take(i + 1int));
                assert(cur.drop_last() =~= pre);
                assert(cur[cur.len() - 1] == input@[i as int] as int);
                assert(cur[cur.len() - 2] == input@[i - 1int] as int);
                assert(spec_delta(cur) == spec_delta(pre) + (input@[i as int] - input@[i - 1int]));
            }
            delta = delta + (input[i] - input[i - 1]);
            i = i + 1;
        }
        proof {
            assert(input@.take(input@.len() as int) =~= input@);
        }
    }
    delta
}

/// Collects the characters of a string slice, in order.
pub fn str_chars(s: &str) -> (v: Vec<char>)
    ensures
        v@ == s@,
{
    let mut it = s.chars();
    let mut v: Vec<char> = Vec::new();
    loop
        invariant
            v@ + it.remaining() == s@,
            it.decrease() is Some,
        ensures
            v@ == s@,
        decreases it.decrease()->0,
    {
        let ghost prev = it;
        match it.next() {
            Some(c) => {
                proof {
                    assert(prev.remaining().len() > 0);
                    assert(it.remaining() == prev.remaining().drop_first());
                    assert(v@.push(c) + it.remaining() =~= s@);
                }
                v.push(c);
            },
            None => {
                proof {
                    assert(it.remaining().len() == 0);
                    assert(v@ =~= s@);
                }
                break ;
            },
        }
    }
    v
}

} // verus!
