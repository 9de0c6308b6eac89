use vstd::prelude::*;

verus! {

/// Buffered bytes of one output file are handed to its writer once they
/// reach this many.
pub const FLUSH_THRESHOLD: usize = 65536;

/// A chunk of bytes to append to the output file of dump number `dump`.
pub struct Flush {
    pub dump: usize,
    pub bytes: Vec<u8>,
}

/// A flush as (dump number, bytes).
pub type FlushView = (int, Seq<u8>);

pub open spec fn flushes_view(v: Seq<Flush>) -> Seq<FlushView> {
    Seq::new(v.len(), |j: int| (v[j].dump as int, v[j].bytes@))
}

pub open spec fn bytes_view(v: Seq<Vec<u8>>) -> Seq<Seq<u8>> {
    Seq::new(v.len(), |j: int| v[j]@)
}

/// What a buffer holds once `result` is appended to it: nothing if that
/// reached the threshold (it was flushed), else the grown buffer.
pub open spec fn kept(buf: Seq<u8>, result: Seq<u8>, threshold: nat) -> Seq<u8> {
    if buf.len() + result.len() >= threshold {
        Seq::empty()
    } else {
        buf + result
    }
}

/// The flushes made while the first `k` results of one batch are appended
/// to their buffers, in order of dump number.
pub open spec fn batch_flushes(
    bufs: Seq<Seq<u8>>,
    results: Seq<Seq<u8>>,
    threshold: nat,
    k: nat,
) -> Seq<FlushView>
    decreases k,
{
    if k == 0 {
        Seq::empty()
    } else {
        let prev = batch_flushes(bufs, results, threshold, (k - 1) as nat);
        let grown = bufs[k - 1] + results[k - 1];
        if grown.len() >= threshold {
            prev.push((k - 1, grown))
        } else {
            prev
        }
    }
}

/// The buffers after one batch of results: buffer `i` took `results[i]` if
/// there is one.
pub open spec fn batch_buffers(bufs: Seq<Seq<u8>>, results: Seq<Seq<u8>>, threshold: nat) -> Seq<
    Seq<u8>,
> {
    Seq::new(
        bufs.len(),
        |i: int|
            if i < results.len() {
                kept(bufs[i], results[i], threshold)
            } else {
                bufs[i]
            },
    )
}

/// The flushes made at the end: every buffer `i < k` that holds anything.
pub open spec fn final_flushes(bufs: Seq<Seq<u8>>, k: nat) -> Seq<FlushView>
    decreases k,
{
    if k == 0 {
        Seq::empty()
    } else {
        let prev = final_flushes(bufs, (k - 1) as nat);
        if bufs[k - 1].len() > 0 {
            prev.push((k - 1, bufs[k - 1]))
        } else {
            prev
        }
    }
}

/// Buffers each dump's records and decides when they go to the dump's
/// writer: a buffer is flushed as soon as it holds `threshold` bytes or
/// more, and whatever is left is flushed at the end.
pub struct Dispatcher {
    buffers: Vec<Vec<u8>>,
    flush_threshold: usize,
}

impl Dispatcher {
    /// The buffers, one per dump.
    pub closed spec fn buffers(&self) -> Seq<Seq<u8>> {
        bytes_view(self.buffers@)
    }

    pub closed spec fn threshold(&self) -> usize {
        self.flush_threshold
    }

    /// A dispatcher for `n_dumps` dumps with empty buffers.
    pub fn new(n_dumps: usize, flush_threshold: usize) -> (res: Dispatcher)
        ensures
            res.buffers() == Seq::new(n_dumps as nat, |i: int| Seq::<u8>::empty()),
            res.threshold() == flush_threshold,
    {
        let mut buffers: Vec<Vec<u8>> = Vec::new();
        let mut i: usize = 0;
        while i < n_dumps
            invariant
                i <= n_dumps,
                buffers.len() == i,
                bytes_view(buffers@) == Seq::new(i as nat, |j: int| Seq::<u8>::empty()),
            decreases n_dumps - i,
        {
            let ghost before = buffers@;
            let fresh: Vec<u8> = Vec::new();
            buffers.push(fresh);
            assert forall|j: int| 0 <= j < i implies #[trigger] buffers@[j]@ == Seq::<u8>::empty() by {
                assert(before[j]@ == bytes_view(before)[j]);
            }
            i = i + 1;
            assert(bytes_view(buffers@) =~= Seq::new(i as nat, |j: int| Seq::<u8>::empty()));
        }
        Dispatcher { buffers, flush_threshold }
    }

    /// Appends `results[i]`, the record of one source for dump `i`, to
    /// buffer `i`, for every `i`, and flushes each buffer that reaches the
    /// threshold, in order of dump number.
    pub fn dispatch(&mut self, results: Vec<Vec<u8>>) -> (flushed: Vec<Flush>)
        requires
            results.len() <= old(self).buffers().len(),
        ensures
            final(self).threshold() == old(self).threshold(),
            final(self).buffers() == batch_buffers(
                old(self).buffers(),
                bytes_view(results@),
                old(self).threshold() as nat,
            ),
            flushes_view(flushed@) == batch_flushes(
                old(self).buffers(),
                bytes_view(results@),
                old(self).threshold() as nat,
                results.len() as nat,
            ),
            forall|i: int|
                0 <= i < results.len() ==> #[trigger] final(self).buffers()[i] == if (old(
                    self,
                ).buffers()[i] + results@[i]@).len() >= old(self).threshold() {
                    Seq::<u8>::empty()
                } else {
                    old(self).buffers()[i] + results@[i]@
                },
            forall|j: int|
                0 <= j < flushed.len() ==> (#[trigger] flushed@[j]).bytes@ == old(self).buffers()[
                    flushed@[j].dump as int] + results@[flushed@[j].dump as int]@ && flushed@[j].bytes@.len()
                    >= old(self).threshold(),
    {
        let ghost bufs0 = self.buffers();
        let ghost res0 = bytes_view(results@);
        let ghost results0 = results@;
        let ghost t = self.flush_threshold as nat;
        let mut results = results;
        let mut flushed: Vec<Flush> = Vec::new();
        let n = results.len();
        let mut i: usize = 0;
        while i < n
            invariant
                i <= n,
                n == results.len(),
                n == res0.len(),
                n <= bufs0.len(),
                t == self.flush_threshold,
                forall|j: int| i <= j < n ==> #[trigger] results@[j]@ == res0[j],
                self.buffers@.len() == bufs0.len(),
                forall|j: int|
                    0 <= j < bufs0.len() ==> #[trigger] self.buffers@[j]@ == if j < i {
                        kept(bufs0[j], res0[j], t)
                    } else {
                        bufs0[j]
                    },
                flushes_view(flushed@) == batch_flushes(bufs0, res0, t, i as nat),
            decreases n - i,
        {
            let mut result: Vec<u8> = Vec::new();
            std::mem::swap(&mut result, &mut results[i]);
            let mut buf: Vec<u8> = Vec::new();
            std::mem::swap(&mut buf, &mut self.buffers[i]);
            buf.append(&mut result);
            let ghost before = flushed@;
            if buf.len() >= self.flush_threshold {
                flushed.push(Flush { dump: i, bytes: buf });
                assert(flushes_view(flushed@) =~= flushes_view(before).push((i as int, bufs0[i as int] + res0[i as int])));
            } else {
                std::mem::swap(&mut buf, &mut self.buffers[i]);
            }
            i = i + 1;
        }
        proof {
            assert(self.buffers() =~= batch_buffers(bufs0, res0, t));
            lemma_dispatch_flushes_full_buffers(bufs0, res0, t);
            assert forall|j: int| 0 <= j < flushed.len() implies (#[trigger] flushed@[j]).bytes@
                == bufs0[flushed@[j].dump as int] + results0[flushed@[j].dump as int]@
                && flushed@[j].bytes@.len() >= t by {
                assert(flushes_view(flushed@)[j] == (flushed@[j].dump as int, flushed@[j].bytes@));
            }
        }
        flushed
    }

    /// Flushes every buffer that holds anything, in order of dump number.
    pub fn finish(self) -> (flushed: Vec<Flush>)
        ensures
            flushes_view(flushed@) == final_flushes(self.buffers(), self.buffers().len()),
    {
        let ghost bufs0 = self.buffers();
        let mut buffers = self.buffers;
        let mut flushed: Vec<Flush> = Vec::new();
        let n = buffers.len();
        let mut i: usize = 0;
        while i < n
            invariant
                i <= n,
                n == buffers.len(),
                n == bufs0.len(),
                forall|j: int| i <= j < n ==> #[trigger] buffers@[j]@ == bufs0[j],
                flushes_view(flushed@) == final_flushes(bufs0, i as nat),
            decreases n - i,
        {
            let mut buf: Vec<u8> = Vec::new();
            std::mem::swap(&mut buf, &mut buffers[i]);
            let ghost before = flushed@;
            if buf.len() > 0 {
                flushed.push(Flush { dump: i, bytes: buf });
                assert(flushes_view(flushed@) =~= flushes_view(before).push((i as int, bufs0[i as int])));
            }
            i = i + 1;
        }
        flushed
    }
}

/// Everything that the flushes hand to the writer of dump `i`, in order.
pub open spec fn bytes_for(flushes: Seq<FlushView>, i: int) -> Seq<u8>
    decreases flushes.len(),
{
    if flushes.len() == 0 {
        Seq::empty()
    } else {
        bytes_for(flushes.drop_last(), i) + if flushes.last().0 == i {
            flushes.last().1
        } else {
            Seq::empty()
        }
    }
}

/// The records of dump `i` over a run of batches, one batch per source, in
/// the order the batches came.
pub open spec fn column(batches: Seq<Seq<Seq<u8>>>, i: int) -> Seq<u8>
    decreases batches.len(),
{
    if batches.len() == 0 {
        Seq::empty()
    } else {
        column(batches.drop_last(), i) + if i < batches.last().len() {
            batches.last()[i]
        } else {
            Seq::empty()
        }
    }
}

/// A run of `dispatch` calls on `batches`, starting from `bufs`: the flushes
/// made, in order, and the buffers afterwards.
pub open spec fn run(bufs: Seq<Seq<u8>>, batches: Seq<Seq<Seq<u8>>>, threshold: nat) -> (
    Seq<FlushView>,
    Seq<Seq<u8>>,
)
    decreases batches.len(),
{
    if batches.len() == 0 {
        (Seq::empty(), bufs)
    } else {
        let (f, b) = run(bufs, batches.drop_last(), threshold);
        let last = batches.last();
        (f + batch_flushes(b, last, threshold, last.len()), batch_buffers(b, last, threshold))
    }
}

/// Every batch has at most `n` records.
pub open spec fn batches_fit(batches: Seq<Seq<Seq<u8>>>, n: nat) -> bool {
    forall|k: int| 0 <= k < batches.len() ==> #[trigger] batches[k].len() <= n
}

proof fn lemma_bytes_for_push(s: Seq<FlushView>, x: FlushView, i: int)
    ensures
        bytes_for(s.push(x), i) == bytes_for(s, i) + if x.0 == i {
            x.1
        } else {
            Seq::empty()
        },
{
    assert(s.push(x).drop_last() =~= s);
}

proof fn lemma_bytes_for_concat(a: Seq<FlushView>, b: Seq<FlushView>, i: int)
    ensures
        bytes_for(a + b, i) == bytes_for(a, i) + bytes_for(b, i),
    decreases b.len(),
{
    if b.len() == 0 {
        assert(a + b =~= a);
        assert(bytes_for(a, i) + bytes_for(b, i) =~= bytes_for(a, i));
    } else {
        lemma_bytes_for_concat(a, b.drop_last(), i);
        assert((a + b).drop_last() =~= a + b.drop_last());
        assert((a + b).last() == b.last());
        let tail = if b.last().0 == i {
            b.last().1
        } else {
            Seq::<u8>::empty()
        };
        assert(bytes_for(a, i) + bytes_for(b.drop_last(), i) + tail =~= bytes_for(a, i) + (
        bytes_for(b.drop_last(), i) + tail));
    }
}

proof fn lemma_batch_prefix(bufs: Seq<Seq<u8>>, results: Seq<Seq<u8>>, t: nat, k: nat)
    requires
        k <= results.len() <= bufs.len(),
    ensures
        forall|i: int|
            0 <= i < bufs.len() ==> #[trigger] bytes_for(batch_flushes(bufs, results, t, k), i) + (
            if i < k {
                kept(bufs[i], results[i], t)
            } else {
                bufs[i]
            }) == bufs[i] + (if i < k {
                results[i]
            } else {
                Seq::empty()
            }),
        forall|j: int|
            0 <= j < batch_flushes(bufs, results, t, k).len() ==> {
                &&& (#[trigger] batch_flushes(bufs, results, t, k)[j]).0 < k
                &&& batch_flushes(bufs, results, t, k)[j].1.len() >= t
            },
    decreases k,
{
    if k == 0 {
        assert forall|i: int| 0 <= i < bufs.len() implies #[trigger] bytes_for(
            batch_flushes(bufs, results, t, k),
            i,
        ) + bufs[i] == bufs[i] + Seq::<u8>::empty() by {
            assert(bytes_for(batch_flushes(bufs, results, t, k), i) + bufs[i] =~= bufs[i]
                + Seq::<u8>::empty());
        }
    } else {
        let km = (k - 1) as nat;
        lemma_batch_prefix(bufs, results, t, km);
        let prev = batch_flushes(bufs, results, t, km);
        let grown = bufs[km as int] + results[km as int];
        let cur = batch_flushes(bufs, results, t, k);
        assert forall|i: int| 0 <= i < bufs.len() implies #[trigger] bytes_for(cur, i) + (if i < k {
            kept(bufs[i], results[i], t)
        } else {
            bufs[i]
        }) == bufs[i] + (if i < k {
            results[i]
        } else {
            Seq::empty()
        }) by {
            let before = bytes_for(prev, i);
            assert(before + (if i < km {
                kept(bufs[i], results[i], t)
            } else {
                bufs[i]
            }) == bufs[i] + (if i < km {
                results[i]
            } else {
                Seq::empty()
            }));
            if grown.len() >= t {
                lemma_bytes_for_push(prev, (km as int, grown), i);
            }
            if i == km {
                assert(before.len() == 0);
                assert(before =~= Seq::<u8>::empty());
                if grown.len() >= t {
                    assert(bytes_for(cur, i) =~= grown);
                    assert(bytes_for(cur, i) + kept(bufs[i], results[i], t) =~= bufs[i]
                        + results[i]);
                } else {
                    assert(bytes_for(cur, i) =~= Seq::<u8>::empty());
                    assert(bytes_for(cur, i) + kept(bufs[i], results[i], t) =~= bufs[i]
                        + results[i]);
                }
            } else {
                assert(bytes_for(cur, i) =~= before);
            }
        }
    }
}

proof fn lemma_final_flushes(bufs: Seq<Seq<u8>>, k: nat)
    requires
        k <= bufs.len(),
    ensures
        forall|i: int|
            0 <= i < bufs.len() ==> #[trigger] bytes_for(final_flushes(bufs, k), i) == if i < k {
                bufs[i]
            } else {
                Seq::empty()
            },
        forall|j: int|
            0 <= j < final_flushes(bufs, k).len() ==> {
                &&& (#[trigger] final_flushes(bufs, k)[j]).0 < k
                &&& final_flushes(bufs, k)[j].1.len() > 0
            },
    decreases k,
{
    if k == 0 {
    } else {
        let km = (k - 1) as nat;
        lemma_final_flushes(bufs, km);
        let prev = final_flushes(bufs, km);
        assert forall|i: int| 0 <= i < bufs.len() implies #[trigger] bytes_for(
            final_flushes(bufs, k),
            i,
        ) == if i < k {
            bufs[i]
        } else {
            Seq::empty()
        } by {
            if bufs[km as int].len() > 0 {
                lemma_bytes_for_push(prev, (km as int, bufs[km as int]), i);
            }
            if i == km {
                if bufs[km as int].len() > 0 {
                    assert(bytes_for(final_flushes(bufs, k), i) =~= bufs[i]);
                } else {
                    assert(bufs[i] =~= Seq::<u8>::empty());
                }
            } else {
                assert(bytes_for(final_flushes(bufs, k), i) =~= bytes_for(prev, i));
            }
        }
    }
}

/// A run keeps the number of buffers, and for every dump `i` what it
/// flushed followed by what its buffer still holds is what the buffer held
/// at the start followed by all of the dump's records, in order. Every
/// flushed chunk held at least `threshold` bytes and names a dump that exists.
pub proof fn lemma_run_conserves(bufs: Seq<Seq<u8>>, batches: Seq<Seq<Seq<u8>>>, threshold: nat)
    requires
        batches_fit(batches, bufs.len()),
    ensures
        run(bufs, batches, threshold).1.len() == bufs.len(),
        forall|i: int|
            0 <= i < bufs.len() ==> #[trigger] bytes_for(run(bufs, batches, threshold).0, i)
                + run(bufs, batches, threshold).1[i] == bufs[i] + column(batches, i),
        forall|j: int|
            0 <= j < run(bufs, batches, threshold).0.len() ==> {
                &&& (#[trigger] run(bufs, batches, threshold).0[j]).0 < bufs.len()
                &&& run(bufs, batches, threshold).0[j].1.len() >= threshold
            },
    decreases batches.len(),
{
    if batches.len() == 0 {
        assert forall|i: int| 0 <= i < bufs.len() implies #[trigger] bytes_for(
            run(bufs, batches, threshold).0,
            i,
        ) + run(bufs, batches, threshold).1[i] == bufs[i] + column(batches, i) by {
            assert(bytes_for(Seq::<FlushView>::empty(), i) + bufs[i] =~= bufs[i] + Seq::<
                u8,
            >::empty());
        }
    } else {
        let init = batches.drop_last();
        assert(batches_fit(init, bufs.len())) by {
            assert forall|k: int| 0 <= k < init.len() implies #[trigger] init[k].len()
                <= bufs.len() by {
                assert(init[k] == batches[k]);
            }
        }
        lemma_run_conserves(bufs, init, threshold);
        let (f, b) = run(bufs, init, threshold);
        let last = batches.last();
        assert(last == batches[batches.len() - 1]);
        lemma_batch_prefix(b, last, threshold, last.len());
        let bf = batch_flushes(b, last, threshold, last.len());
        let (f2, b2) = run(bufs, batches, threshold);
        assert(f2 == f + bf);
        assert(b2 =~= batch_buffers(b, last, threshold));
        assert forall|i: int| 0 <= i < bufs.len() implies #[trigger] bytes_for(f2, i) + b2[i]
            == bufs[i] + column(batches, i) by {
            lemma_bytes_for_concat(f, bf, i);
            let rest = if i < last.len() {
                last[i]
            } else {
                Seq::<u8>::empty()
            };
            assert(bytes_for(bf, i) + b2[i] == b[i] + rest);
            assert(bytes_for(f, i) + b[i] == bufs[i] + column(init, i));
            assert(column(batches, i) == column(init, i) + rest);
            assert(bytes_for(f2, i) + b2[i] =~= bytes_for(f, i) + (bytes_for(bf, i) + b2[i]));
            assert(bufs[i] + column(batches, i) =~= (bufs[i] + column(init, i)) + rest);
            assert(bytes_for(f, i) + (b[i] + rest) =~= (bytes_for(f, i) + b[i]) + rest);
        }
        assert forall|j: int| 0 <= j < f2.len() implies {
            &&& (#[trigger] f2[j]).0 < bufs.len()
            &&& f2[j].1.len() >= threshold
        } by {
            if j >= f.len() {
                assert(f2[j] == bf[j - f.len()]);
            } else {
                assert(f2[j] == f[j]);
            }
        }
    }
}

/// What each output file receives over a whole dump: starting from empty
/// buffers, the chunks flushed while the batches come in, followed by the
/// chunks flushed at the end, hand to the writer of dump `i` exactly the
/// records of dump `i`, batch after batch, with nothing lost, repeated or
/// reordered. Chunks flushed on the way hold at least `threshold` bytes;
/// chunks flushed at the end are not empty.
pub proof fn lemma_dump_output_is_column(n: nat, batches: Seq<Seq<Seq<u8>>>, threshold: nat)
    requires
        batches_fit(batches, n),
    ensures
        ({
            let empty_bufs = Seq::new(n, |i: int| Seq::<u8>::empty());
            let (f, b) = run(empty_bufs, batches, threshold);
            &&& forall|i: int|
                0 <= i < n ==> #[trigger] bytes_for(f + final_flushes(b, n), i) == column(
                    batches,
                    i,
                )
            &&& forall|j: int| 0 <= j < f.len() ==> (#[trigger] f[j]).1.len() >= threshold
            &&& forall|j: int|
                0 <= j < final_flushes(b, n).len() ==> (#[trigger] final_flushes(b, n)[j]).1.len()
                    > 0
        }),
{
    let empty_bufs = Seq::new(n, |i: int| Seq::<u8>::empty());
    lemma_run_conserves(empty_bufs, batches, threshold);
    let (f, b) = run(empty_bufs, batches, threshold);
    lemma_final_flushes(b, n);
    assert forall|i: int| 0 <= i < n implies #[trigger] bytes_for(f + final_flushes(b, n), i)
        == column(batches, i) by {
        lemma_bytes_for_concat(f, final_flushes(b, n), i);
        assert(empty_bufs[i] + column(batches, i) =~= column(batches, i));
    }
}

proof fn lemma_batch_flushes_shape(bufs: Seq<Seq<u8>>, results: Seq<Seq<u8>>, t: nat, k: nat)
    requires
        k <= results.len() <= bufs.len(),
    ensures
        forall|j: int|
            0 <= j < batch_flushes(bufs, results, t, k).len() ==> {
                let fl = #[trigger] batch_flushes(bufs, results, t, k)[j];
                &&& 0 <= fl.0 < k
                &&& fl.1 == bufs[fl.0] + results[fl.0]
                &&& fl.1.len() >= t
            },
        forall|j1: int, j2: int|
            0 <= j1 < j2 < batch_flushes(bufs, results, t, k).len() ==> (#[trigger] batch_flushes(
                bufs,
                results,
                t,
                k,
            )[j1]).0 < (#[trigger] batch_flushes(bufs, results, t, k)[j2]).0,
        forall|i: int|
            0 <= i < k && (#[trigger] (bufs[i] + results[i])).len() >= t ==> exists|j: int|
                0 <= j < batch_flushes(bufs, results, t, k).len() && (#[trigger] batch_flushes(
                    bufs,
                    results,
                    t,
                    k,
                )[j]).0 == i,
    decreases k,
{
    if k > 0 {
        let km = (k - 1) as nat;
        lemma_batch_flushes_shape(bufs, results, t, km);
        let prev = batch_flushes(bufs, results, t, km);
        let cur = batch_flushes(bufs, results, t, k);
        let grown = bufs[km as int] + results[km as int];
        assert forall|i: int| 0 <= i < k && (#[trigger] (bufs[i] + results[i])).len() >= t implies exists|j: int|
            0 <= j < cur.len() && (#[trigger] cur[j]).0 == i by {
            if i == km {
                assert(cur[prev.len() as int].0 == i);
            } else {
                let j = choose|j: int| 0 <= j < prev.len() && (#[trigger] prev[j]).0 == i;
                assert(cur[j] == prev[j]);
            }
        }
    }
}

/// One batch, over all inputs: a buffer that the batch brings to the
/// threshold or beyond is flushed whole (its old bytes followed by the new
/// record) and left empty; any other buffer keeps its old bytes followed by
/// the new record and is not flushed; buffers without a record are left as
/// they were. Flushes come in order of dump number, one per flushed dump,
/// and when the threshold is positive a buffer below it stays below it.
pub proof fn lemma_dispatch_flushes_full_buffers(bufs: Seq<Seq<u8>>, results: Seq<Seq<u8>>, t: nat)
    requires
        results.len() <= bufs.len(),
    ensures
        batch_buffers(bufs, results, t).len() == bufs.len(),
        forall|i: int|
            0 <= i < results.len() && (#[trigger] (bufs[i] + results[i])).len() >= t ==> {
                &&& batch_buffers(bufs, results, t)[i].len() == 0
                &&& exists|j: int|
                    0 <= j < batch_flushes(bufs, results, t, results.len()).len() && #[trigger] batch_flushes(
                        bufs,
                        results,
                        t,
                        results.len(),
                    )[j] == (i, bufs[i] + results[i])
            },
        forall|i: int|
            0 <= i < results.len() && (#[trigger] (bufs[i] + results[i])).len() < t ==> {
                &&& batch_buffers(bufs, results, t)[i] == bufs[i] + results[i]
                &&& forall|j: int|
                    0 <= j < batch_flushes(bufs, results, t, results.len()).len() ==> (
                    #[trigger] batch_flushes(bufs, results, t, results.len())[j]).0 != i
            },
        forall|i: int|
            results.len() <= i < bufs.len() ==> #[trigger] batch_buffers(bufs, results, t)[i]
                == bufs[i],
        forall|j: int|
            0 <= j < batch_flushes(bufs, results, t, results.len()).len() ==> {
                let fl = #[trigger] batch_flushes(bufs, results, t, results.len())[j];
                &&& 0 <= fl.0 < results.len()
                &&& fl.1 == bufs[fl.0] + results[fl.0]
                &&& fl.1.len() >= t
            },
        forall|j1: int, j2: int|
            0 <= j1 < j2 < batch_flushes(bufs, results, t, results.len()).len() ==> (
            #[trigger] batch_flushes(bufs, results, t, results.len())[j1]).0 < (
            #[trigger] batch_flushes(bufs, results, t, results.len())[j2]).0,
        t > 0 ==> forall|i: int|
            0 <= i < bufs.len() && bufs[i].len() < t ==> (#[trigger] batch_buffers(
                bufs,
                results,
                t,
            )[i]).len() < t,
{
    let n = results.len();
    lemma_batch_flushes_shape(bufs, results, t, n);
    let f = batch_flushes(bufs, results, t, n);
    let nb = batch_buffers(bufs, results, t);
    assert forall|i: int| 0 <= i < n && (#[trigger] (bufs[i] + results[i])).len() >= t implies {
        &&& nb[i].len() == 0
        &&& exists|j: int| 0 <= j < f.len() && #[trigger] f[j] == (i, bufs[i] + results[i])
    } by {
        let j = choose|j: int| 0 <= j < f.len() && (#[trigger] f[j]).0 == i;
        assert(f[j] == (i, bufs[i] + results[i]));
    }
    assert forall|i: int| 0 <= i < n && (#[trigger] (bufs[i] + results[i])).len() < t implies {
        &&& nb[i] == bufs[i] + results[i]
        &&& forall|j: int| 0 <= j < f.len() ==> (#[trigger] f[j]).0 != i
    } by {
        assert forall|j: int| 0 <= j < f.len() implies (#[trigger] f[j]).0 != i by {
            if f[j].0 == i {
                assert(f[j].1.len() >= t);
            }
        }
    }
}

proof fn lemma_final_flushes_shape(bufs: Seq<Seq<u8>>, k: nat)
    requires
        k <= bufs.len(),
    ensures
        forall|j: int|
            0 <= j < final_flushes(bufs, k).len() ==> {
                let fl = #[trigger] final_flushes(bufs, k)[j];
                &&& 0 <= fl.0 < k
                &&& fl.1 == bufs[fl.0]
                &&& fl.1.len() > 0
            },
        forall|j1: int, j2: int|
            0 <= j1 < j2 < final_flushes(bufs, k).len() ==> (#[trigger] final_flushes(bufs, k)[j1]).0
                < (#[trigger] final_flushes(bufs, k)[j2]).0,
        forall|i: int|
            0 <= i < k && (#[trigger] bufs[i]).len() > 0 ==> exists|j: int|
                0 <= j < final_flushes(bufs, k).len() && (#[trigger] final_flushes(bufs, k)[j]).0 == i,
    decreases k,
{
    if k > 0 {
        let km = (k - 1) as nat;
        lemma_final_flushes_shape(bufs, km);
        let prev = final_flushes(bufs, km);
        let cur = final_flushes(bufs, k);
        assert forall|i: int| 0 <= i < k && (#[trigger] bufs[i]).len() > 0 implies exists|j: int|
            0 <= j < cur.len() && (#[trigger] cur[j]).0 == i by {
            if i == km {
                assert(cur[prev.len() as int].0 == i);
            } else {
                let j = choose|j: int| 0 <= j < prev.len() && (#[trigger] prev[j]).0 == i;
                assert(cur[j] == prev[j]);
            }
        }
    }
}

/// The end of a run, over all inputs: every buffer that holds anything is
/// flushed whole, in order of dump number, and no other flush is made.
pub proof fn lemma_finish_flushes_what_is_left(bufs: Seq<Seq<u8>>)
    ensures
        forall|j: int|
            0 <= j < final_flushes(bufs, bufs.len()).len() ==> {
                let fl = #[trigger] final_flushes(bufs, bufs.len())[j];
                &&& 0 <= fl.0 < bufs.len()
                &&& fl.1 == bufs[fl.0]
                &&& fl.1.len() > 0
            },
        forall|j1: int, j2: int|
            0 <= j1 < j2 < final_flushes(bufs, bufs.len()).len() ==> (#[trigger] final_flushes(
                bufs,
                bufs.len(),
            )[j1]).0 < (#[trigger] final_flushes(bufs, bufs.len())[j2]).0,
        forall|i: int|
            0 <= i < bufs.len() && (#[trigger] bufs[i]).len() > 0 ==> exists|j: int|
                0 <= j < final_flushes(bufs, bufs.len()).len() && #[trigger] final_flushes(
                    bufs,
                    bufs.len(),
                )[j] == (i, bufs[i]),
{
    lemma_final_flushes_shape(bufs, bufs.len());
    let f = final_flushes(bufs, bufs.len());
    assert forall|i: int| 0 <= i < bufs.len() && (#[trigger] bufs[i]).len() > 0 implies exists|j: int|
        0 <= j < f.len() && #[trigger] f[j] == (i, bufs[i]) by {
        let j = choose|j: int| 0 <= j < f.len() && (#[trigger] f[j]).0 == i;
        assert(f[j] == (i, bufs[i]));
    }
}

} // verus!
