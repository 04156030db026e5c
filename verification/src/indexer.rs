//! The indexer: owns the bucket index and the current query, ingests line
//! batches under the current query, rebuilds the index when the query
//! changes by re-injecting every held line as if freshly read, and publishes
//! a ranked result buffer after every step. The line batcher that groups an
//! unbounded line stream into fixed-size batches lives here too.

use vstd::prelude::*;
use vstd::math::max;
use vstd::math::min;
use crate::index::MatchEntry;
use crate::index::drain_all;
use crate::index::entry_lines;
use crate::index::index_entries;
use crate::index::index_items;
use crate::index::lines_view;
use crate::index::model_insert_all;
use crate::index::model_of;
use crate::index::model_wf;
use crate::index::ranked;
use crate::index::total_count;
use crate::matcher::lemma_match_characterized;

verus! {

/// Groups a stream of lines into batches: a batch is emitted as soon as it
/// reaches the configured size, and the non-empty remainder is emitted when
/// the stream ends. No line is dropped and order is kept.
pub struct Batcher {
    pub buf: Vec<String>,
    pub batch_size: usize,
}

/// The effective batch size: a configured size of zero still emits one line
/// per batch.
pub open spec fn effective_batch(batch_size: usize) -> int {
    max(batch_size as int, 1)
}

impl Batcher {
    /// A batch in the making never reaches the effective size.
    pub open spec fn wf(self) -> bool {
        self.buf@.len() < effective_batch(self.batch_size)
    }

    /// A fresh batcher with an empty batch in the making.
    pub fn new(batch_size: usize) -> (b: Self)
        ensures
            b.wf(),
            b.buf@.len() == 0,
            b.batch_size == batch_size,
    {
        Batcher { buf: Vec::new(), batch_size }
    }

    /// Accepts one line; hands back the full batch the moment the configured
    /// size is reached, else keeps accumulating.
    pub fn push_line(&mut self, line: String) -> (out: Option<Vec<String>>)
        requires
            old(self).wf(),
        ensures
            final(self).wf(),
            final(self).batch_size == old(self).batch_size,
            match out {
                Some(batch) => {
                    &&& batch@ == old(self).buf@.push(line)
                    &&& batch@.len() == effective_batch(old(self).batch_size)
                    &&& final(self).buf@.len() == 0
                },
                None => {
                    &&& final(self).buf@ == old(self).buf@.push(line)
                    &&& final(self).buf@.len() < effective_batch(old(self).batch_size)
                },
            },
    {
        self.buf.push(line);
        if self.buf.len() >= self.batch_size {
            let mut out: Vec<String> = Vec::new();
            core::mem::swap(&mut out, &mut self.buf);
            Some(out)
        } else {
            None
        }
    }

    /// Hands back the non-empty remainder once the stream ends; an empty
    /// remainder is not emitted.
    pub fn finish(&mut self) -> (out: Option<Vec<String>>)
        ensures
            final(self).buf@.len() == 0,
            final(self).batch_size == old(self).batch_size,
            final(self).wf(),
            match out {
                Some(batch) => batch@ == old(self).buf@ && batch@.len() > 0,
                None => old(self).buf@.len() == 0,
            },
    {
        if self.buf.len() > 0 {
            let mut out: Vec<String> = Vec::new();
            core::mem::swap(&mut out, &mut self.buf);
            Some(out)
        } else {
            None
        }
    }
}

/// The lines of a sequence of batches, in delivery order.
pub open spec fn batches_flat(bs: Seq<Vec<String>>) -> Seq<Seq<char>>
    decreases bs.len(),
{
    if bs.len() == 0 {
        Seq::empty()
    } else {
        lines_view(bs.first()@) + batches_flat(bs.drop_first())
    }
}

/// Appending a batch appends its lines.
proof fn lemma_batches_flat_push(bs: Seq<Vec<String>>, b: Vec<String>)
    ensures
        batches_flat(bs.push(b)) == batches_flat(bs) + lines_view(b@),
    decreases bs.len(),
{
    if bs.len() == 0 {
        assert(bs.push(b).drop_first() =~= Seq::<Vec<String>>::empty());
        assert(bs.push(b).first() == b);
        assert(lines_view(b@) + batches_flat(Seq::<Vec<String>>::empty()) =~= lines_view(b@));
        assert(batches_flat(bs) + lines_view(b@) =~= lines_view(b@));
    } else {
        assert(bs.push(b).first() == bs.first());
        assert(bs.push(b).drop_first() =~= bs.drop_first().push(b));
        lemma_batches_flat_push(bs.drop_first(), b);
        assert(lines_view(bs.first()@) + (batches_flat(bs.drop_first()) + lines_view(b@))
            =~= (lines_view(bs.first()@) + batches_flat(bs.drop_first())) + lines_view(b@));
    }
}

/// An event the indexer reacts to: a query change (`None` keeps the current
/// query text) or a freshly delivered batch of lines.
pub enum IndexerEvent {
    Query(Option<String>),
    Lines(Vec<String>),
}

/// What one indexer step produces: batches of drained lines to re-inject
/// into the line stream (only on a query change), and the fresh result
/// buffer: the current total of indexed matches and the ranked results.
pub struct IndexerOut {
    pub reinject: Vec<Vec<String>>,
    pub total: usize,
    pub results: Vec<MatchEntry>,
}

/// The indexer's state: the bucket index, the query it was built under, and
/// the configuration.
pub struct Indexer {
    pub buckets: Vec<Option<Vec<MatchEntry>>>,
    pub query: String,
    pub score_clamp: usize,
    pub buff_size: usize,
    pub batch_size: usize,
}

impl Indexer {
    /// The index never outgrows the clamp and holds exactly the greedy
    /// matches of its lines under the current query, each in the bucket of
    /// its clamped score.
    pub open spec fn wf(self) -> bool {
        &&& self.buckets@.len() <= self.score_clamp + 1
        &&& model_wf(model_of(self.buckets@, self.score_clamp), self.query@, self.score_clamp)
    }

    /// The bucket family the indexer currently holds.
    pub open spec fn model(self) -> Seq<Seq<crate::index::EntryView>> {
        model_of(self.buckets@, self.score_clamp)
    }

    /// A fresh indexer: empty index, empty query.
    pub fn new(score_clamp: usize, buff_size: usize, batch_size: usize) -> (ix: Self)
        ensures
            ix.wf(),
            ix.buckets@.len() == 0,
            ix.query@ == Seq::<char>::empty(),
            ix.score_clamp == score_clamp,
            ix.buff_size == buff_size,
            ix.batch_size == batch_size,
    {
        Indexer {
            buckets: Vec::new(),
            query: String::new(),
            score_clamp,
            buff_size,
            batch_size,
        }
    }

    /// Ingests one batch of lines under the current query, in order.
    fn ingest(&mut self, lines: &Vec<String>)
        requires
            old(self).wf(),
        ensures
            final(self).wf(),
            final(self).query == old(self).query,
            final(self).score_clamp == old(self).score_clamp,
            final(self).buff_size == old(self).buff_size,
            final(self).batch_size == old(self).batch_size,
            final(self).model() == model_insert_all(
                old(self).model(),
                old(self).query@,
                lines_view(lines@),
                old(self).score_clamp,
            ),
    {
        let ghost m0 = self.model();
        let ghost q = self.query@;
        let ghost clamp = self.score_clamp;
        let mut i: usize = 0;
        while i < lines.len()
            invariant
                i <= lines@.len(),
                self.wf(),
                self.query@ == q,
                self.query == old(self).query,
                self.score_clamp == clamp,
                self.buff_size == old(self).buff_size,
                self.batch_size == old(self).batch_size,
                self.model() == model_insert_all(m0, q, lines_view(lines@).take(i as int), clamp),
            decreases lines@.len() - i,
        {
            let ghost mcur = self.model();
            let line = clone_string(&lines[i]);
            proof {
                crate::index::lemma_model_insert_wf(mcur, q, line@, clamp);
                lemma_insert_all_snoc(m0, q, lines_view(lines@).take(i as int), line@, clamp);
                assert(lines_view(lines@).take(i as int).push(line@) =~= lines_view(lines@).take(
                    i + 1int,
                ));
            }
            index_items(&mut self.buckets, line, self.query.as_str(), self.score_clamp);
            i = i + 1;
        }
        proof {
            assert(lines_view(lines@).take(lines@.len() as int) =~= lines_view(lines@));
        }
    }

    /// One step of the indexer.
    ///
    /// On a query change: every line the index holds is drained, in ranking
    /// order, and handed back as batches to re-inject into the line stream;
    /// the index is emptied and the new query adopted (`None` keeps the
    /// current text). On a line batch: each line is matched and indexed under
    /// the current query. Either way the fresh result buffer is produced.
    pub fn step(&mut self, ev: IndexerEvent) -> (out: IndexerOut)
        requires
            old(self).wf(),
        ensures
            final(self).wf(),
            final(self).score_clamp == old(self).score_clamp,
            final(self).buff_size == old(self).buff_size,
            final(self).batch_size == old(self).batch_size,
            out.total as int == min(
                index_entries(final(self).buckets@).len() as int,
                usize::MAX as int,
            ),
            out.results@.map_values(|m: MatchEntry| crate::index::entry_view(m)) == index_entries(
                final(self).buckets@,
            ).take(
                min(
                    old(self).buff_size as int,
                    index_entries(final(self).buckets@).len() as int,
                ),
            ),
            out.results@.len() <= old(self).buff_size,
            match ev {
                IndexerEvent::Query(opt) => {
                    &&& final(self).query@ == match opt {
                        Some(s) => s@,
                        None => old(self).query@,
                    }
                    &&& final(self).buckets@.len() == 0
                    &&& batches_flat(out.reinject@) == entry_lines(
                        index_entries(old(self).buckets@),
                    )
                    &&& forall|k: int|
                        0 <= k < out.reinject@.len() ==> 0 < (#[trigger] out.reinject@[k])@.len()
                            <= effective_batch(old(self).batch_size)
                    &&& forall|k: int|
                        0 <= k < out.reinject@.len() - 1 ==> (#[trigger] out.reinject@[k])@.len()
                            == effective_batch(old(self).batch_size)
                },
                IndexerEvent::Lines(ls) => {
                    &&& final(self).query == old(self).query
                    &&& out.reinject@.len() == 0
                    &&& final(self).model() == model_insert_all(
                        old(self).model(),
                        old(self).query@,
                        lines_view(ls@),
                        old(self).score_clamp,
                    )
                },
            },
    {
        let mut reinject: Vec<Vec<String>> = Vec::new();
        match ev {
            IndexerEvent::Query(opt) => {
                let lines = drain_all(&mut self.buckets);
                let mut batcher = Batcher::new(self.batch_size);
                let mut i: usize = 0;
                while i < lines.len()
                    invariant
                        i <= lines@.len(),
                        batcher.wf(),
                        batcher.batch_size == self.batch_size,
                        batches_flat(reinject@) + lines_view(batcher.buf@) == lines_view(
                            lines@.take(i as int),
                        ),
                        forall|k: int|
                            0 <= k < reinject@.len() ==> (#[trigger] reinject@[k])@.len()
                                == effective_batch(self.batch_size),
                    decreases lines@.len() - i,
                {
                    let line = clone_string(&lines[i]);
                    let ghost buf0 = batcher.buf@;
                    let emitted = batcher.push_line(line);
                    proof {
                        assert(lines_view(buf0.push(lines@[i as int])) =~= lines_view(buf0).push(
                            lines@[i as int]@,
                        ));
                        assert(lines_view(lines@.take(i + 1int)) =~= lines_view(
                            lines@.take(i as int),
                        ).push(lines@[i as int]@));
                    }
                    match emitted {
                        Some(batch) => {
                            proof {
                                lemma_batches_flat_push(reinject@, batch);
                                assert(batches_flat(reinject@.push(batch)) + lines_view(
                                    Seq::<String>::empty(),
                                ) =~= batches_flat(reinject@) + lines_view(buf0.push(
                                    lines@[i as int],
                                )));
                            }
                            reinject.push(batch);
                        },
                        None => {
                            proof {
                                assert(batches_flat(reinject@) + lines_view(buf0.push(
                                    lines@[i as int],
                                )) =~= (batches_flat(reinject@) + lines_view(buf0)).push(
                                    lines@[i as int]@,
                                ));
                            }
                        },
                    }
                    i = i + 1;
                }
                match batcher.finish() {
                    Some(batch) => {
                        proof {
                            lemma_batches_flat_push(reinject@, batch);
                        }
                        reinject.push(batch);
                    },
                    None => {
                        proof {
                            assert(batches_flat(reinject@) + lines_view(Seq::<String>::empty())
                                =~= batches_flat(reinject@));
                        }
                    },
                }
                proof {
                    assert(lines_view(lines@.take(lines@.len() as int)) =~= lines_view(lines@));
                }
                match opt {
                    Some(s) => {
                        self.query = s;
                    },
                    None => {},
                }
            },
            IndexerEvent::Lines(ls) => {
                self.ingest(&ls);
            },
        }
        let total = total_count(&self.buckets);
        let results = ranked(&self.buckets, self.buff_size);
        IndexerOut { reinject, total, results }
    }
}

/// Inserting one more line after a run of insertions is one more insertion.
proof fn lemma_insert_all_snoc(
    m: Seq<Seq<crate::index::EntryView>>,
    q: Seq<char>,
    s: Seq<Seq<char>>,
    l: Seq<char>,
    clamp: usize,
)
    ensures
        model_insert_all(m, q, s.push(l), clamp) == crate::index::model_insert(
            model_insert_all(m, q, s, clamp),
            q,
            l,
            clamp,
        ),
    decreases s.len(),
{
    if s.len() == 0 {
        assert(s.push(l).first() == l);
        assert(s.push(l).drop_first() =~= Seq::<Seq<char>>::empty());
        let m1 = crate::index::model_insert(m, q, l, clamp);
        assert(model_insert_all(m, q, s.push(l), clamp) == model_insert_all(
            m1,
            q,
            Seq::<Seq<char>>::empty(),
            clamp,
        ));
        assert(model_insert_all(m1, q, Seq::<Seq<char>>::empty(), clamp) == m1);
        assert(model_insert_all(m, q, s, clamp) == m);
    } else {
        assert(s.push(l).first() == s.first());
        assert(s.push(l).drop_first() =~= s.drop_first().push(l));
        let m1 = crate::index::model_insert(m, q, s.first(), clamp);
        lemma_insert_all_snoc(m1, q, s.drop_first(), l, clamp);
        assert(model_insert_all(m, q, s.push(l), clamp) == model_insert_all(
            m1,
            q,
            s.drop_first().push(l),
            clamp,
        ));
        assert(model_insert_all(m, q, s, clamp) == model_insert_all(m1, q, s.drop_first(), clamp));
    }
}

/// Copies an owned line.
fn clone_string(s: &String) -> (r: String)
    ensures
        r@ == s@,
{
    s.clone()
}

} // verus!
