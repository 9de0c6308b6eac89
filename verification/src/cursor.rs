use vstd::prelude::*;

verus! {

/// The block of query results being read: how many rows it holds and how
/// many of them have been handed out.
pub struct CurrentBlock {
    size: usize,
    idx: usize,
}

impl CurrentBlock {
    #[verifier::type_invariant]
    spec fn inv(self) -> bool {
        self.idx <= self.size
    }

    /// The block as (rows in it, rows handed out).
    pub closed spec fn spec_pos(self) -> (usize, usize) {
        (self.size, self.idx)
    }

    /// A block of `size` rows of which none has been handed out yet.
    pub fn new(size: usize) -> (res: CurrentBlock)
        ensures
            res.spec_pos() == (size, 0usize),
    {
        CurrentBlock { size, idx: 0 }
    }
}

/// What the reader of a query has to do next.
#[derive(Clone, Copy, Debug, PartialEq, Eq, Structural)]
pub enum Step {
    /// The current block is used up (or there is none): fetch the next one.
    NeedBlock,
    /// Hand out the row with this index of the current block.
    Row(usize),
}

/// Decides, row by row, what a query reader hands out: every row of every
/// block once, in order, fetching a new block whenever the current one is
/// used up.
pub struct RowCursor {
    block: Option<CurrentBlock>,
}

/// The state of a cursor: the current block as (size, rows handed out), if any.
pub type CursorState = Option<(usize, usize)>;

/// One decision of the reader: the state after it and the step taken.
pub open spec fn spec_next(state: CursorState) -> (CursorState, Step) {
    match state {
        None => (state, Step::NeedBlock),
        Some((size, idx)) => if size == idx {
            (state, Step::NeedBlock)
        } else {
            (Some((size, (idx + 1) as usize)), Step::Row(idx))
        },
    }
}

/// `k` decisions in a row: the state after them and the steps taken.
pub open spec fn spec_run(state: CursorState, k: nat) -> (CursorState, Seq<Step>)
    decreases k,
{
    if k == 0 {
        (state, Seq::empty())
    } else {
        let (mid, steps) = spec_run(state, (k - 1) as nat);
        let (last, step) = spec_next(mid);
        (last, steps.push(step))
    }
}

impl View for RowCursor {
    type V = CursorState;

    closed spec fn view(&self) -> CursorState {
        match self.block {
            None => None,
            Some(b) => Some(b.spec_pos()),
        }
    }
}

impl RowCursor {
    /// A valid state: a block never hands out more rows than it holds.
    pub open spec fn state_ok(state: CursorState) -> bool {
        state matches Some((size, idx)) ==> idx <= size
    }

    /// A cursor with no block yet.
    pub fn new() -> (res: RowCursor)
        ensures
            res@ == None::<(usize, usize)>,
    {
        RowCursor { block: None }
    }

    /// Takes the next decision: hand out the next row of the current block,
    /// or ask for a new block when there is none or it is used up.
    pub fn next_step(&mut self) -> (step: Step)
        ensures
            (final(self)@, step) == spec_next(old(self)@),
            Self::state_ok(final(self)@),
    {
        match self.block.take() {
            None => Step::NeedBlock,
            Some(cur) => {
                proof {
                    use_type_invariant(&cur);
                }
                if cur.size == cur.idx {
                    self.block = Some(cur);
                    Step::NeedBlock
                } else {
                    let row = cur.idx;
                    self.block = Some(CurrentBlock { size: cur.size, idx: cur.idx + 1 });
                    Step::Row(row)
                }
            },
        }
    }

    /// A new block of `size` rows has arrived; it replaces the current one.
    pub fn block_arrived(&mut self, size: usize)
        ensures
            final(self)@ == Some((size, 0usize)),
    {
        self.block = Some(CurrentBlock::new(size));
    }
}

/// A block of `n` rows yields its rows `0, 1, ..., k - 1` in order on the
/// first `k <= n` decisions, and after all `n` of them the reader asks for
/// the next block (so an empty block is skipped at once).
pub proof fn lemma_block_rows_in_order(n: usize, k: nat)
    requires
        k <= n,
    ensures
        spec_run(Some((n, 0usize)), k).0 == Some((n, k as usize)),
        spec_run(Some((n, 0usize)), k).1 == Seq::new(k, |j: int| Step::Row(j as usize)),
        k == n ==> spec_next(spec_run(Some((n, 0usize)), k).0).1 == Step::NeedBlock,
    decreases k,
{
    if k > 0 {
        lemma_block_rows_in_order(n, (k - 1) as nat);
        assert(spec_run(Some((n, 0usize)), k).1 =~= Seq::new(k, |j: int| Step::Row(j as usize)));
    }
}

/// Asking for a block changes nothing: until a block arrives the reader keeps
/// asking for one.
pub proof fn lemma_need_block_is_stable(state: CursorState)
    requires
        spec_next(state).1 == Step::NeedBlock,
    ensures
        spec_next(state).0 == state,
{
}

/// How many rows of the current block are still to be handed out.
pub open spec fn rows_left(state: CursorState) -> nat {
    match state {
        Some((size, idx)) => if idx <= size {
            (size - idx) as nat
        } else {
            0
        },
        None => 0,
    }
}

/// What a reader hands out, as (block number, row number) pairs, when it
/// takes the cursor's decisions from `state` on, answers every request for
/// a block with the next of `blocks` (by its row count) and stops when a
/// block is asked for and none is left. `current` numbers the block that
/// `state` is reading.
pub open spec fn read_rows(state: CursorState, blocks: Seq<usize>, current: int) -> Seq<(int, int)>
    decreases blocks.len(), rows_left(state),
{
    if !RowCursor::state_ok(state) {
        Seq::empty()
    } else {
        match spec_next(state) {
            (next, Step::Row(r)) => seq![(current, r as int)] + read_rows(next, blocks, current),
            (_, Step::NeedBlock) => if blocks.len() == 0 {
                Seq::empty()
            } else {
                read_rows(Some((blocks[0], 0usize)), blocks.drop_first(), current + 1)
            },
        }
    }
}

/// Every row of every block, block after block: the rows `0 .. blocks[k]`
/// of block number `first + k`, in order.
pub open spec fn rows_from(blocks: Seq<usize>, first: int) -> Seq<(int, int)>
    decreases blocks.len(),
{
    if blocks.len() == 0 {
        Seq::empty()
    } else {
        Seq::new(blocks[0] as nat, |r: int| (first, r)) + rows_from(blocks.drop_first(), first + 1)
    }
}

proof fn lemma_read_rows_from(size: usize, idx: usize, rest: Seq<usize>, current: int)
    requires
        idx <= size,
    ensures
        read_rows(Some((size, idx)), rest, current) == Seq::new(
            (size - idx) as nat,
            |k: int| (current, idx + k),
        ) + rows_from(rest, current + 1),
    decreases rest.len(), size - idx,
{
    let here = Seq::new((size - idx) as nat, |k: int| (current, idx + k));
    if idx == size {
        assert(here =~= Seq::<(int, int)>::empty());
        if rest.len() == 0 {
            assert(read_rows(Some((size, idx)), rest, current) =~= here + rows_from(rest, current + 1));
        } else {
            lemma_read_rows_from(rest[0], 0, rest.drop_first(), current + 1);
            let first = Seq::new((rest[0] - 0) as nat, |k: int| (current + 1, 0 + k));
            assert(first =~= Seq::new(rest[0] as nat, |r: int| (current + 1, r)));
            assert(read_rows(Some((size, idx)), rest, current) =~= here + rows_from(rest, current + 1));
        }
    } else {
        let next_idx = (idx + 1) as usize;
        lemma_read_rows_from(size, next_idx, rest, current);
        let tail = Seq::new((size - next_idx) as nat, |k: int| (current, next_idx + k));
        assert(seq![(current, idx as int)] + tail =~= here);
        assert(read_rows(Some((size, idx)), rest, current) == seq![(current, idx as int)] + (tail
            + rows_from(rest, current + 1)));
        assert(read_rows(Some((size, idx)), rest, current) =~= here + rows_from(rest, current + 1));
    }
}

/// Over a whole query: a reader that starts with a fresh cursor and answers
/// each request for a block with the next block of the stream hands out
/// every row of every block exactly once, block after block and row after
/// row in each block (blocks with no rows give nothing), and stops when the
/// stream has no block left.
pub proof fn lemma_reads_every_row_once(blocks: Seq<usize>)
    ensures
        read_rows(None, blocks, -1) == rows_from(blocks, 0),
{
    if blocks.len() > 0 {
        lemma_read_rows_from(blocks[0], 0, blocks.drop_first(), 0);
        let first = Seq::new((blocks[0] - 0) as nat, |k: int| (0int, 0 + k));
        assert(first =~= Seq::new(blocks[0] as nat, |r: int| (0int, r)));
        assert(read_rows(None, blocks, -1) =~= rows_from(blocks, 0));
    } else {
        assert(read_rows(None, blocks, -1) =~= rows_from(blocks, 0));
    }
}

} // verus!
