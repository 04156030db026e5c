//! The bucket index: matched lines grouped by clamped tightness score. Bucket
//! `b` holds, in arrival order, the lines whose clamped score is `b`; ranking
//! walks the buckets from the tightest upward.

use vstd::prelude::*;
use vstd::math::min;
use vstd::pervasive::VecAdditionalExecFns;
use crate::matcher::fuzzy_hits_spec;
use crate::matcher::fuzzy_search;
use crate::matcher::get_delta;
use crate::matcher::hits_ints;
use crate::matcher::lemma_delta_telescopes;
use crate::matcher::lemma_match_characterized;
use crate::matcher::spec_delta;

verus! {

/// A stored match: the line together with its hit positions.
pub type MatchEntry = (String, Vec<usize>);

/// The mathematical image of a stored match.
pub type EntryView = (Seq<char>, Seq<int>);

/// The view of one stored match.
pub open spec fn entry_view(m: MatchEntry) -> EntryView {
    (m.0@, hits_ints(m.1@))
}

/// The raw contents of slot `i` of a bucket array; an absent or out-of-range
/// slot is empty.
pub open spec fn slot_items<T>(v: Seq<Option<Vec<T>>>, i: int) -> Seq<T> {
    if 0 <= i < v.len() {
        match v[i] {
            Some(b) => b@,
            None => Seq::empty(),
        }
    } else {
        Seq::empty()
    }
}

/// The views of the matches in bucket `b` of the index, in arrival order.
pub open spec fn bucket_at(idx: Seq<Option<Vec<MatchEntry>>>, b: int) -> Seq<EntryView> {
    slot_items(idx, b).map_values(|m: MatchEntry| entry_view(m))
}

/// Appends `value` to the list at `vec[index]`, growing the outer vector with
/// empty slots as needed.
pub fn vec_insert_expand<T>(vec: &mut Vec<Option<Vec<T>>>, index: usize, value: T)
    requires
        index < usize::MAX,
    ensures
        final(vec)@.len() == if old(vec)@.len() > index {
            old(vec)@.len() as int
        } else {
            index + 1
        },
        slot_items(final(vec)@, index as int) == slot_items(old(vec)@, index as int).push(value),
        forall|j: int|
            j != index ==> #[trigger] slot_items(final(vec)@, j) == slot_items(old(vec)@, j),
{
    while vec.len() <= index
        invariant
            index < usize::MAX,
            vec@.len() >= old(vec)@.len(),
            vec@.len() <= index + 1 || vec@.len() == old(vec)@.len(),
            forall|j: int| 0 <= j < old(vec)@.len() ==> #[trigger] vec@[j] == old(vec)@[j],
            forall|j: int| old(vec)@.len() <= j < vec@.len() ==> #[trigger] vec@[j] is None,
        decreases index + 1 - vec@.len(),
    {
        vec.push(None);
    }
    let ghost mid = vec@;
    let mut tmp: Option<Vec<T>> = None;
    vec.set_and_swap(index, &mut tmp);
    let mut b = match tmp {
        Some(bb) => bb,
        None => Vec::new(),
    };
    b.push(value);
    vec.set(index, Some(b));
    proof {
        assert(slot_items(mid, index as int) == slot_items(old(vec)@, index as int));
        assert(slot_items(vec@, index as int) =~= slot_items(mid, index as int).push(value));
        assert(forall|j: int|
            j != index ==> #[trigger] slot_items(vec@, j) == slot_items(mid, j));
        assert(forall|j: int|
            j != index ==> #[trigger] slot_items(mid, j) == slot_items(old(vec)@, j));
    }
}

/// The clamped tightness score of `l` under query `q`: the gap sum of the
/// greedy hits, capped at `clamp`; `None` when the line does not match.
pub open spec fn clamped_score(q: Seq<char>, l: Seq<char>, clamp: usize) -> Option<int> {
    match fuzzy_hits_spec(q, l) {
        Some(h) => Some(min(spec_delta(h), clamp as int)),
        None => None,
    }
}

/// The index seen as a fixed family of `clamp + 1` buckets.
pub open spec fn model_of(idx: Seq<Option<Vec<MatchEntry>>>, clamp: usize) -> Seq<Seq<EntryView>> {
    Seq::new((clamp + 1) as nat, |b: int| bucket_at(idx, b))
}

/// What inserting one line under query `q` does to the bucket family: a
/// matching line is appended, with its hits, to the bucket of its clamped
/// score; a non-matching line leaves the index unchanged.
pub open spec fn model_insert(
    m: Seq<Seq<EntryView>>,
    q: Seq<char>,
    line: Seq<char>,
    clamp: usize,
) -> Seq<Seq<EntryView>> {
    match fuzzy_hits_spec(q, line) {
        Some(h) => {
            let b = min(spec_delta(h), clamp as int);
            m.update(b, m[b].push((line, h)))
        },
        None => m,
    }
}

/// Matches `line` against the query `ni` and, on a match, appends it to the
/// bucket of its clamped tightness score. A line that does not match is not
/// retained.
pub fn index_items(
    new_index: &mut Vec<Option<Vec<MatchEntry>>>,
    line: String,
    ni: &str,
    score_clamp: usize,
)
    ensures
        final(new_index)@.len() <= vstd::math::max(
            old(new_index)@.len() as int,
            score_clamp + 1,
        ),
        old(new_index)@.len() <= final(new_index)@.len(),
        model_of(final(new_index)@, score_clamp) == model_insert(
            model_of(old(new_index)@, score_clamp),
            ni@,
            line@,
            score_clamp,
        ),
{
    let search_res = fuzzy_search(ni, &line);
    match search_res {
        Some(hits) => {
            proof {
                lemma_match_characterized(ni@, line@);
                lemma_delta_telescopes(hits_ints(hits@));
                assert forall|i: int, j: int|
                    0 <= i <= j < hits@.len() implies #[trigger] hits@[i] <= #[trigger] hits@[j] by {
                    if i < j {
                        assert(hits_ints(hits@)[i] < hits_ints(hits@)[j]);
                    }
                }
                assert(crate::matcher::non_decreasing(hits@));
                if hits@.len() >= 2 {
                    assert(hits_ints(hits@)[hits@.len() - 1] == hits@[hits@.len() - 1] as int);
                    assert((hits@[hits@.len() - 1] as int) < line@.len());
                }
            }
            let d = get_delta(&hits);
            let delta = if d < score_clamp {
                d
            } else {
                score_clamp
            };
            let ghost b = min(spec_delta(hits_ints(hits@)), score_clamp as int);
            let ghost m0 = model_of(new_index@, score_clamp);
            vec_insert_expand(new_index, delta, (line, hits));
            proof {
                assert(delta as int == b);
                assert(bucket_at(new_index@, b) =~= bucket_at(old(new_index)@, b).push(
                    entry_view((line, hits)),
                ));
                assert(model_of(new_index@, score_clamp) =~= model_insert(
                    m0,
                    ni@,
                    line@,
                    score_clamp,
                ));
            }
        },
        None => {
            proof {
                assert(model_of(new_index@, score_clamp) =~= model_insert(
                    model_of(new_index@, score_clamp),
                    ni@,
                    line@,
                    score_clamp,
                ));
            }
        },
    }
}

/// The views of all matches in buckets `0 .. b`, tightest bucket first, each
/// bucket in arrival order.
pub open spec fn flatten_upto(idx: Seq<Option<Vec<MatchEntry>>>, b: int) -> Seq<EntryView>
    decreases b,
{
    if b <= 0 {
        Seq::empty()
    } else {
        flatten_upto(idx, b - 1) + bucket_at(idx, b - 1)
    }
}

/// The views of all matches the index holds, in ranking order.
pub open spec fn index_entries(idx: Seq<Option<Vec<MatchEntry>>>) -> Seq<EntryView> {
    flatten_upto(idx, idx.len() as int)
}

/// The lines of a sequence of match views.
pub open spec fn entry_lines(s: Seq<EntryView>) -> Seq<Seq<char>> {
    s.map_values(|e: EntryView| e.0)
}

/// The views of a sequence of owned lines.
pub open spec fn lines_view(s: Seq<String>) -> Seq<Seq<char>> {
    s.map_values(|x: String| x@)
}

/// Growing the bucket range only appends: the earlier flattening is a
/// pointwise prefix of the later one.
pub proof fn lemma_flatten_upto_prefix(idx: Seq<Option<Vec<MatchEntry>>>, b1: int, b2: int)
    requires
        b1 <= b2,
    ensures
        flatten_upto(idx, b1).len() <= flatten_upto(idx, b2).len(),
        forall|k: int|
            0 <= k < flatten_upto(idx, b1).len() ==> #[trigger] flatten_upto(idx, b2)[k]
                == flatten_upto(idx, b1)[k],
    decreases b2 - b1,
{
    if b1 < b2 {
        lemma_flatten_upto_prefix(idx, b1, b2 - 1);
    }
}

/// Extracts every line the index holds, tightest bucket first and in arrival
/// order within a bucket, and empties the index.
pub fn drain_all(index: &mut Vec<Option<Vec<MatchEntry>>>) -> (lines: Vec<String>)
    ensures
        lines_view(lines@) == entry_lines(index_entries(old(index)@)),
        final(index)@.len() == 0,
{
    let mut lines: Vec<String> = Vec::new();
    let mut b: usize = 0;
    while b < index.len()
        invariant
            b <= index@.len(),
            index@ == old(index)@,
            lines_view(lines@) == entry_lines(flatten_upto(index@, b as int)),
        decreases index@.len() - b,
    {
        let ghost pre = flatten_upto(index@, b as int);
        match &index[b] {
            Some(v) => {
                let mut i: usize = 0;
                while i < v.len()
                    invariant
                        i <= v@.len(),
                        v@ == slot_items(index@, b as int),
                        b < index@.len(),
                        lines_view(lines@) == entry_lines(pre + bucket_at(index@, b as int).take(
                            i as int,
                        )),
                        pre == flatten_upto(index@, b as int),
                    decreases v@.len() - i,
                {
                    let line = v[i].0.clone();
                    proof {
                        let bk = bucket_at(index@, b as int);
                        assert(bk[i as int] == entry_view(v@[i as int]));
                        assert(lines_view(lines@.push(v@[i as int].0)) =~= lines_view(lines@).push(
                            v@[i as int].0@,
                        ));
                        assert(entry_lines(pre + bk.take(i + 1int)) =~= entry_lines(
                            pre + bk.take(i as int),
                        ).push(bk[i as int].0));
                    }
                    lines.push(line);
                    i = i + 1;
                }
                proof {
                    assert(bucket_at(index@, b as int).take(
                        slot_items(index@, b as int).len() as int,
                    ) =~= bucket_at(index@, b as int));
                }
            },
            None => {
                proof {
                    assert(bucket_at(index@, b as int) =~= Seq::<EntryView>::empty());
                    assert(pre + bucket_at(index@, b as int) =~= pre);
                }
            },
        }
        b = b + 1;
    }
    index.clear();
    lines
}

/// At most `limit` of the index's matches, walking the buckets from the
/// tightest upward and keeping arrival order within a bucket.
pub fn ranked(index: &Vec<Option<Vec<MatchEntry>>>, limit: usize) -> (r: Vec<MatchEntry>)
    ensures
        r@.map_values(|m: MatchEntry| entry_view(m)) == index_entries(index@).take(
            min(limit as int, index_entries(index@).len() as int),
        ),
        r@.len() <= limit,
{
    let ghost idx = index@;
    let mut out: Vec<MatchEntry> = Vec::new();
    let mut b: usize = 0;
    while b < index.len() && out.len() < limit
        invariant
            b <= idx.len(),
            idx == index@,
            out@.len() <= limit,
            out@.map_values(|m: MatchEntry| entry_view(m)) == flatten_upto(idx, b as int).take(
                min(limit as int, flatten_upto(idx, b as int).len() as int),
            ),
        decreases idx.len() - b,
    {
        let ghost pre = flatten_upto(idx, b as int);
        match &index[b] {
            Some(v) => {
                let mut i: usize = 0;
                while i < v.len() && out.len() < limit
                    invariant
                        i <= v@.len(),
                        idx == index@,
                        b < idx.len(),
                        v@ == slot_items(idx, b as int),
                        pre == flatten_upto(idx, b as int),
                        out@.len() <= limit,
                        out@.map_values(|m: MatchEntry| entry_view(m)) == (pre + bucket_at(
                            idx,
                            b as int,
                        ).take(i as int)).take(
                            min(
                                limit as int,
                                (pre + bucket_at(idx, b as int).take(i as int)).len() as int,
                            ),
                        ),
                    decreases v@.len() - i,
                {
                    let entry = (v[i].0.clone(), v[i].1.clone());
                    proof {
                        let bk = bucket_at(idx, b as int);
                        let comb = pre + bk.take(i as int);
                        let comb2 = pre + bk.take(i + 1int);
                        assert(out@.map_values(|m: MatchEntry| entry_view(m)).len()
                            == out@.len());
                        assert(comb.take(min(limit as int, comb.len() as int)).len() == min(
                            limit as int,
                            comb.len() as int,
                        ));
                        assert(out@.len() == min(limit as int, comb.len() as int));
                        assert(out@.len() == comb.len());
                        assert(comb2 =~= comb.push(bk[i as int]));
                        assert(entry_view(entry) == entry_view(v@[i as int])) by {
                            assert(entry.0@ == v@[i as int].0@);
                            assert(entry.1@ =~= v@[i as int].1@) by {
                                assert(forall|k: int|
                                    0 <= k < entry.1@.len() ==> #[trigger] entry.1@[k] == v@[
                                        i as int
                                    ].1@[k]);
                            }
                        }
                        assert(bk[i as int] == entry_view(v@[i as int]));
                        assert(out@.push(entry).map_values(|m: MatchEntry| entry_view(m))
                            =~= out@.map_values(|m: MatchEntry| entry_view(m)).push(
                            entry_view(entry),
                        ));
                        assert(comb2.take(min(limit as int, comb2.len() as int)) =~= comb.take(
                            min(limit as int, comb.len() as int),
                        ).push(bk[i as int]));
                    }
                    out.push(entry);
                    i = i + 1;
                }
                proof {
                    let bk = bucket_at(idx, b as int);
                    let comb = pre + bk.take(i as int);
                    let full = pre + bk;
                    assert(full == flatten_upto(idx, b + 1int));
                    if i == v@.len() {
                        assert(bk.take(i as int) =~= bk);
                        assert(comb =~= full);
                    } else {
                        // stopped because the limit was reached
                        assert(out@.len() == limit);
                        assert(out@.len() == min(limit as int, comb.len() as int));
                        assert(comb.len() >= limit);
                        assert(full.take(min(limit as int, full.len() as int)) =~= comb.take(
                            min(limit as int, comb.len() as int),
                        ));
                    }
                }
            },
            None => {
                proof {
                    assert(bucket_at(idx, b as int) =~= Seq::<EntryView>::empty());
                    assert(pre + bucket_at(idx, b as int) =~= pre);
                    assert(flatten_upto(idx, b + 1int) == pre + bucket_at(idx, b as int));
                }
            },
        }
        b = b + 1;
    }
    proof {
        if b < idx.len() {
            // stopped early at the limit; the rest of the index adds nothing
            lemma_flatten_upto_prefix(idx, b as int, idx.len() as int);
            let fb = flatten_upto(idx, b as int);
            let fl = index_entries(idx);
            assert(out@.len() == limit);
            assert(out@.len() == min(limit as int, fb.len() as int));
            assert(fb.len() >= limit);
            assert(fl.take(min(limit as int, fl.len() as int)) =~= fb.take(
                min(limit as int, fb.len() as int),
            ));
        }
    }
    out
}

/// How many matches the index currently holds, saturating at the machine
/// limit.
pub fn total_count(index: &Vec<Option<Vec<MatchEntry>>>) -> (n: usize)
    ensures
        n as int == min(index_entries(index@).len() as int, usize::MAX as int),
{
    let mut n: usize = 0;
    let mut b: usize = 0;
    while b < index.len()
        invariant
            b <= index@.len(),
            n as int == min(flatten_upto(index@, b as int).len() as int, usize::MAX as int),
        decreases index@.len() - b,
    {
        match &index[b] {
            Some(v) => {
                if n <= usize::MAX - v.len() {
                    n = n + v.len();
                } else {
                    n = usize::MAX;
                }
            },
            None => {
                proof {
                    assert(bucket_at(index@, b as int) =~= Seq::<EntryView>::empty());
                }
            },
        }
        b = b + 1;
    }
    n
}

/// The bucket family with every bucket empty.
pub open spec fn empty_model(clamp: usize) -> Seq<Seq<EntryView>> {
    Seq::new((clamp + 1) as nat, |b: int| Seq::<EntryView>::empty())
}

/// The entry that reinserting `l` under `q` produces.
pub open spec fn line_entry(q: Seq<char>, l: Seq<char>) -> EntryView {
    (l, fuzzy_hits_spec(q, l)->Some_0)
}

/// Inserting a sequence of lines, first to last.
pub open spec fn model_insert_all(
    m: Seq<Seq<EntryView>>,
    q: Seq<char>,
    lines: Seq<Seq<char>>,
    clamp: usize,
) -> Seq<Seq<EntryView>>
    decreases lines.len(),
{
    if lines.len() == 0 {
        m
    } else {
        model_insert_all(model_insert(m, q, lines.first(), clamp), q, lines.drop_first(), clamp)
    }
}

/// A well-formed bucket family under query `q`: `clamp + 1` buckets, and every
/// entry of bucket `b` is a line that matches `q` with the greedy hits stored
/// beside it and with clamped score exactly `b`.
pub open spec fn model_wf(m: Seq<Seq<EntryView>>, q: Seq<char>, clamp: usize) -> bool {
    &&& m.len() == clamp + 1
    &&& forall|b: int, i: int|
        0 <= b < m.len() && 0 <= i < m[b].len() ==> {
            &&& fuzzy_hits_spec(q, (#[trigger] m[b][i]).0) == Some(m[b][i].1)
            &&& clamped_score(q, m[b][i].0, clamp) == Some(b)
        }
}

/// The views of all matches in buckets `b ..`, tightest first.
pub open spec fn model_flatten_from(m: Seq<Seq<EntryView>>, b: int) -> Seq<EntryView>
    decreases m.len() - b,
{
    if b < 0 || b >= m.len() {
        Seq::empty()
    } else {
        m[b] + model_flatten_from(m, b + 1)
    }
}

/// The views of all matches of the bucket family, in ranking order.
pub open spec fn model_entries(m: Seq<Seq<EntryView>>) -> Seq<EntryView> {
    model_flatten_from(m, 0)
}

/// The score of a matching line is never negative, so a clamped score always
/// names a bucket.
proof fn lemma_clamped_score_in_range(q: Seq<char>, l: Seq<char>, clamp: usize)
    ensures
        clamped_score(q, l, clamp) matches Some(b) ==> 0 <= b <= clamp,
{
    lemma_match_characterized(q, l);
    if let Some(h) = fuzzy_hits_spec(q, l) {
        lemma_delta_telescopes(h);
        if h.len() >= 2 {
            assert(h[0] < h[h.len() - 1]);
        }
    }
}

/// Inserting keeps a bucket family well formed.
pub proof fn lemma_model_insert_wf(m: Seq<Seq<EntryView>>, q: Seq<char>, line: Seq<char>, clamp: usize)
    requires
        model_wf(m, q, clamp),
    ensures
        model_wf(model_insert(m, q, line, clamp), q, clamp),
{
    lemma_clamped_score_in_range(q, line, clamp);
    let r = model_insert(m, q, line, clamp);
    if let Some(h) = fuzzy_hits_spec(q, line) {
        let b = min(spec_delta(h), clamp as int);
        assert forall|b2: int, i: int|
            0 <= b2 < r.len() && 0 <= i < r[b2].len() implies {
            &&& fuzzy_hits_spec(q, (#[trigger] r[b2][i]).0) == Some(r[b2][i].1)
            &&& clamped_score(q, r[b2][i].0, clamp) == Some(b2)
        } by {
            if b2 == b && i == m[b].len() {
                assert(r[b][i] == (line, h));
            } else {
                assert(r[b2][i] == m[b2][i]);
            }
        }
    }
}

/// Scores never decrease along the flattened ranking order, and every entry
/// from bucket `b` onward scores at least `b`.
proof fn lemma_flatten_from_sorted(m: Seq<Seq<EntryView>>, q: Seq<char>, clamp: usize, b: int)
    requires
        model_wf(m, q, clamp),
        0 <= b,
    ensures
        forall|k: int|
            0 <= k < model_flatten_from(m, b).len() ==> {
                &&& clamped_score(q, (#[trigger] model_flatten_from(m, b)[k]).0, clamp) is Some
                &&& clamped_score(q, model_flatten_from(m, b)[k].0, clamp)->Some_0 >= b
            },
        forall|k1: int, k2: int|
            0 <= k1 <= k2 < model_flatten_from(m, b).len() ==> clamped_score(
                q,
                (#[trigger] model_flatten_from(m, b)[k1]).0,
                clamp,
            )->Some_0 <= clamped_score(
                q,
                (#[trigger] model_flatten_from(m, b)[k2]).0,
                clamp,
            )->Some_0,
    decreases m.len() - b,
{
    if b < m.len() {
        lemma_flatten_from_sorted(m, q, clamp, b + 1);
        let cur = model_flatten_from(m, b);
        let rest = model_flatten_from(m, b + 1);
        assert forall|k: int| 0 <= k < cur.len() implies {
            &&& clamped_score(q, (#[trigger] cur[k]).0, clamp) is Some
            &&& clamped_score(q, cur[k].0, clamp)->Some_0 >= b
        } by {
            if k < m[b].len() {
                assert(cur[k] == m[b][k]);
            } else {
                assert(cur[k] == rest[k - m[b].len()]);
            }
        }
        assert forall|k1: int, k2: int|
            0 <= k1 <= k2 < cur.len() implies clamped_score(
            q,
            (#[trigger] cur[k1]).0,
            clamp,
        )->Some_0 <= clamped_score(q, (#[trigger] cur[k2]).0, clamp)->Some_0 by {
            if k1 < m[b].len() {
                assert(cur[k1] == m[b][k1]);
            } else {
                assert(cur[k1] == rest[k1 - m[b].len()]);
            }
            if k2 < m[b].len() {
                assert(cur[k2] == m[b][k2]);
            } else {
                assert(cur[k2] == rest[k2 - m[b].len()]);
            }
        }
    }
}

/// Ranking order law: in a well-formed index the flattened entries carry
/// non-decreasing clamped scores, so any `ranked` prefix is ordered from the
/// tightest match upward; entries of equal score keep their bucket's arrival
/// order because flattening keeps each bucket contiguous and in order.
pub proof fn lemma_entries_sorted(m: Seq<Seq<EntryView>>, q: Seq<char>, clamp: usize)
    requires
        model_wf(m, q, clamp),
    ensures
        forall|k1: int, k2: int|
            0 <= k1 <= k2 < model_entries(m).len() ==> clamped_score(
                q,
                (#[trigger] model_entries(m)[k1]).0,
                clamp,
            )->Some_0 <= clamped_score(q, (#[trigger] model_entries(m)[k2]).0, clamp)->Some_0,
        forall|k: int|
            0 <= k < model_entries(m).len() ==> clamped_score(
                q,
                (#[trigger] model_entries(m)[k]).0,
                clamp,
            ) is Some,
{
    lemma_flatten_from_sorted(m, q, clamp, 0);
}

/// The flattening of the index array agrees with the flattening of its bucket
/// family, as long as the array does not outgrow the family.
pub proof fn lemma_entries_agree(idx: Seq<Option<Vec<MatchEntry>>>, clamp: usize)
    requires
        idx.len() <= clamp + 1,
    ensures
        model_entries(model_of(idx, clamp)) == index_entries(idx),
{
    lemma_upto_meets_from(idx, clamp, (clamp + 1) as int);
    lemma_upto_pad(idx, (clamp + 1) as int);
    let mo = model_of(idx, clamp);
    assert(model_flatten_from(mo, (clamp + 1) as int) =~= Seq::<EntryView>::empty());
    assert(flatten_upto(idx, (clamp + 1) as int) + model_flatten_from(mo, (clamp + 1) as int)
        =~= flatten_upto(idx, (clamp + 1) as int));
}

/// Walking the first `b` buckets of the array and the rest of the family
/// together covers the whole family.
proof fn lemma_upto_meets_from(idx: Seq<Option<Vec<MatchEntry>>>, clamp: usize, b: int)
    requires
        0 <= b <= clamp + 1,
    ensures
        flatten_upto(idx, b) + model_flatten_from(model_of(idx, clamp), b) == model_entries(
            model_of(idx, clamp),
        ),
    decreases b,
{
    let mo = model_of(idx, clamp);
    if b == 0 {
        assert(flatten_upto(idx, 0) + model_flatten_from(mo, 0) =~= model_flatten_from(mo, 0));
    } else {
        lemma_upto_meets_from(idx, clamp, b - 1);
        assert(mo[b - 1] == bucket_at(idx, b - 1));
        assert(model_flatten_from(mo, b - 1) == mo[b - 1] + model_flatten_from(mo, b));
        assert(flatten_upto(idx, b) + model_flatten_from(mo, b) =~= flatten_upto(idx, b - 1)
            + model_flatten_from(mo, b - 1));
    }
}

/// Buckets past the end of the array are empty, so flattening further adds
/// nothing.
proof fn lemma_upto_pad(idx: Seq<Option<Vec<MatchEntry>>>, b: int)
    requires
        b >= idx.len(),
    ensures
        flatten_upto(idx, b) == index_entries(idx),
    decreases b - idx.len(),
{
    if b > idx.len() {
        lemma_upto_pad(idx, b - 1);
        assert(bucket_at(idx, b - 1) =~= Seq::<EntryView>::empty());
        assert(flatten_upto(idx, b - 1) + bucket_at(idx, b - 1) =~= flatten_upto(idx, b - 1));
    }
}

/// Inserting a concatenation is inserting the parts in turn.
proof fn lemma_insert_all_append(
    m: Seq<Seq<EntryView>>,
    q: Seq<char>,
    s1: Seq<Seq<char>>,
    s2: Seq<Seq<char>>,
    clamp: usize,
)
    ensures
        model_insert_all(m, q, s1 + s2, clamp) == model_insert_all(
            model_insert_all(m, q, s1, clamp),
            q,
            s2,
            clamp,
        ),
    decreases s1.len(),
{
    if s1.len() == 0 {
        assert(s1 + s2 =~= s2);
    } else {
        assert((s1 + s2).first() == s1.first());
        assert((s1 + s2).drop_first() =~= s1.drop_first() + s2);
        lemma_insert_all_append(model_insert(m, q, s1.first(), clamp), q, s1.drop_first(), s2, clamp);
    }
}

/// Inserting lines that all score `b` appends their entries to bucket `b`, in
/// order, and touches nothing else.
proof fn lemma_insert_scored(
    m: Seq<Seq<EntryView>>,
    q: Seq<char>,
    s: Seq<Seq<char>>,
    clamp: usize,
    b: int,
)
    requires
        m.len() == clamp + 1,
        0 <= b <= clamp,
        forall|k: int| 0 <= k < s.len() ==> clamped_score(q, #[trigger] s[k], clamp) == Some(b),
    ensures
        model_insert_all(m, q, s, clamp).len() == clamp + 1,
        model_insert_all(m, q, s, clamp)[b] == m[b] + s.map_values(|l: Seq<char>| line_entry(q, l)),
        forall|j: int|
            0 <= j < m.len() && j != b ==> #[trigger] model_insert_all(m, q, s, clamp)[j] == m[j],
    decreases s.len(),
{
    let mapped = s.map_values(|l: Seq<char>| line_entry(q, l));
    if s.len() == 0 {
        assert(m[b] + mapped =~= m[b]);
    } else {
        let l0 = s.first();
        assert(clamped_score(q, l0, clamp) == Some(b));
        let m1 = model_insert(m, q, l0, clamp);
        assert(m1[b] == m[b].push(line_entry(q, l0)));
        assert(forall|k: int|
            0 <= k < s.drop_first().len() ==> clamped_score(
                q,
                #[trigger] s.drop_first()[k],
                clamp,
            ) == Some(b));
        lemma_insert_scored(m1, q, s.drop_first(), clamp, b);
        let rest_mapped = s.drop_first().map_values(|l: Seq<char>| line_entry(q, l));
        assert(m1[b] + rest_mapped =~= m[b] + mapped);
    }
}

/// Reinserting the drained suffix of a well-formed family on top of a family
/// that is empty from bucket `b` onward restores exactly the suffix.
proof fn lemma_reindex_from(
    m: Seq<Seq<EntryView>>,
    m0: Seq<Seq<EntryView>>,
    q: Seq<char>,
    clamp: usize,
    b: int,
)
    requires
        model_wf(m, q, clamp),
        m0.len() == clamp + 1,
        0 <= b <= clamp + 1,
        forall|j: int| b <= j < m0.len() ==> #[trigger] m0[j] == Seq::<EntryView>::empty(),
    ensures
        model_insert_all(m0, q, entry_lines(model_flatten_from(m, b)), clamp).len() == clamp + 1,
        forall|j: int|
            0 <= j < clamp + 1 ==> #[trigger] model_insert_all(
                m0,
                q,
                entry_lines(model_flatten_from(m, b)),
                clamp,
            )[j] == if j < b {
                m0[j]
            } else {
                m[j]
            },
    decreases clamp + 1 - b,
{
    if b == clamp + 1 {
        assert(model_flatten_from(m, b) =~= Seq::<EntryView>::empty());
        assert(entry_lines(model_flatten_from(m, b)) =~= Seq::<Seq<char>>::empty());
    } else {
        let s1 = entry_lines(m[b]);
        let s2 = entry_lines(model_flatten_from(m, b + 1));
        assert(entry_lines(model_flatten_from(m, b)) =~= s1 + s2);
        lemma_insert_all_append(m0, q, s1, s2, clamp);
        assert forall|k: int| 0 <= k < s1.len() implies clamped_score(
            q,
            #[trigger] s1[k],
            clamp,
        ) == Some(b) by {
            assert(s1[k] == m[b][k].0);
        }
        lemma_insert_scored(m0, q, s1, clamp, b);
        let m1 = model_insert_all(m0, q, s1, clamp);
        assert(m1[b] =~= m[b]) by {
            assert(m0[b] + s1.map_values(|l: Seq<char>| line_entry(q, l)) =~= s1.map_values(
                |l: Seq<char>| line_entry(q, l),
            ));
            assert forall|k: int| 0 <= k < m[b].len() implies s1.map_values(
                |l: Seq<char>| line_entry(q, l),
            )[k] == m[b][k] by {
                assert(s1[k] == m[b][k].0);
                assert(fuzzy_hits_spec(q, m[b][k].0) == Some(m[b][k].1));
            }
        }
        lemma_reindex_from(m, m1, q, clamp, b + 1);
    }
}

/// Reindex idempotence: draining a well-formed bucket family in ranking order
/// and reinserting the same lines under the same query rebuilds exactly the
/// same bucket distribution.
pub proof fn lemma_reindex_idempotent(m: Seq<Seq<EntryView>>, q: Seq<char>, clamp: usize)
    requires
        model_wf(m, q, clamp),
    ensures
        model_insert_all(empty_model(clamp), q, entry_lines(model_entries(m)), clamp) == m,
{
    lemma_reindex_from(m, empty_model(clamp), q, clamp, 0);
    assert(model_insert_all(empty_model(clamp), q, entry_lines(model_entries(m)), clamp) =~= m);
}

/// The lines of `lines` whose clamped score under `q` is `b`, in their
/// original order.
pub open spec fn scored_lines(q: Seq<char>, lines: Seq<Seq<char>>, clamp: usize, b: int) -> Seq<
    Seq<char>,
>
    decreases lines.len(),
{
    if lines.len() == 0 {
        Seq::empty()
    } else {
        (if clamped_score(q, lines.first(), clamp) == Some(b) {
            seq![lines.first()]
        } else {
            Seq::empty()
        }) + scored_lines(q, lines.drop_first(), clamp, b)
    }
}

/// After inserting `lines` in order, bucket `b` holds exactly the matching
/// lines whose clamped score is `b`, in insertion order: ties within a bucket
/// preserve arrival order.
pub proof fn lemma_bucket_arrival_order(
    m0: Seq<Seq<EntryView>>,
    q: Seq<char>,
    lines: Seq<Seq<char>>,
    clamp: usize,
    b: int,
)
    requires
        m0.len() == clamp + 1,
        0 <= b <= clamp,
    ensures
        entry_lines(model_insert_all(m0, q, lines, clamp)[b]) == entry_lines(m0[b]) + scored_lines(
            q,
            lines,
            clamp,
            b,
        ),
    decreases lines.len(),
{
    if lines.len() == 0 {
        assert(entry_lines(m0[b]) + scored_lines(q, lines, clamp, b) =~= entry_lines(m0[b]));
    } else {
        let l0 = lines.first();
        let m1 = model_insert(m0, q, l0, clamp);
        lemma_clamped_score_in_range(q, l0, clamp);
        lemma_bucket_arrival_order(m1, q, lines.drop_first(), clamp, b);
        if clamped_score(q, l0, clamp) == Some(b) {
            assert(m1[b] == m0[b].push(line_entry(q, l0)));
            assert(entry_lines(m0[b].push(line_entry(q, l0))) =~= entry_lines(m0[b]).push(l0));
            assert(entry_lines(m0[b]).push(l0) + scored_lines(q, lines.drop_first(), clamp, b)
                =~= entry_lines(m0[b]) + scored_lines(q, lines, clamp, b));
        } else {
            assert(m1[b] == m0[b]);
            assert(entry_lines(m0[b]) + scored_lines(q, lines.drop_first(), clamp, b)
                =~= entry_lines(m0[b]) + scored_lines(q, lines, clamp, b));
        }
    }
}

} // verus!
