//! Blocks of a source file that are read or passed over.
//!
//! `#RANDOM` and `#SETRANDOM` open a block and give it a number; `#IF`,
//! `#ELSEIF` and `#ELSE` inside it choose, by that number, which lines are
//! read. Blocks nest. The directives that open, close and choose are always
//! obeyed; every other line is read only while the innermost block is
//! active.

use vstd::prelude::*;
use crate::directive::Directive;
use crate::rng::Rng;

verus! {

/// Where a block stands with respect to its `#IF` clauses.
#[derive(Clone, Copy, Debug, PartialEq, Eq, Structural)]
pub enum BlockState {
    /// Not in an `#IF` clause.
    Outside,
    /// In the clause that was chosen.
    Process,
    /// In a clause that was not chosen, while a later one still may be.
    Ignore,
    /// Behind the clause that was chosen: no later one will be.
    NoFurther,
}

impl BlockState {
    /// Whether lines are passed over in this state.
    pub open spec fn is_inactive(self) -> bool {
        self == BlockState::Ignore || self == BlockState::NoFurther
    }

    /// Whether lines are passed over in this state.
    pub fn inactive(&self) -> (r: bool)
        ensures
            r == self.is_inactive(),
    {
        match self {
            BlockState::Outside | BlockState::Process => false,
            BlockState::Ignore | BlockState::NoFurther => true,
        }
    }
}

/// A block.
#[derive(Clone, Copy, Debug, PartialEq, Eq, Structural)]
pub struct Block {
    /// The number of the block. The outermost block has none, and neither
    /// has one whose directive gave no number above zero or was passed over.
    pub val: Option<i64>,
    /// The state of the block.
    pub state: BlockState,
    /// Whether the block was opened where lines were passed over.
    pub skip: bool,
}

impl Block {
    /// Whether lines are passed over in this block.
    pub open spec fn is_inactive(self) -> bool {
        self.skip || self.state.is_inactive()
    }

    /// Whether lines are passed over in this block.
    pub fn inactive(&self) -> (r: bool)
        ensures
            r == self.is_inactive(),
    {
        self.skip || self.state.inactive()
    }
}

/// The outermost block alone.
pub open spec fn initial_blocks() -> Seq<Block> {
    seq![Block { val: None, state: BlockState::Outside, skip: false }]
}

/// Whether lines are passed over under the blocks `blk`.
pub open spec fn blocks_inactive(blk: Seq<Block>) -> bool {
    blk.last().is_inactive()
}

/// Whether the directive opens, closes or chooses among blocks.
pub open spec fn is_control(d: Directive) -> bool {
    d is Random || d is SetRandom || d is EndRandom || d is If || d is ElseIf || d is Else
        || d is End
}

/// Whether the directive `d`, met under the blocks `blk`, draws a number.
pub open spec fn draws_number(blk: Seq<Block>, d: Directive) -> bool {
    d matches Directive::Random(n) && n > 0 && !blocks_inactive(blk)
}

/// Whether `draw` may be drawn for the directive `d`.
pub open spec fn draw_in_range(d: Directive, draw: int) -> bool {
    d matches Directive::Random(n) ==> n > 0 ==> 1 <= draw <= n
}

/// The number of a clause: none unless it is above zero.
pub open spec fn clause_number(n: i64) -> Option<i64> {
    if n <= 0 {
        None
    } else {
        Some(n)
    }
}

/// The state that `#IF` or `#ELSEIF` with the number `n` leaves a block in.
pub open spec fn state_after_if(block: Block, is_if: bool, n: i64) -> BlockState {
    if (is_if && !block.state.is_inactive()) || block.state == BlockState::Ignore {
        if clause_number(n) is None || clause_number(n) != block.val {
            BlockState::Ignore
        } else {
            BlockState::Process
        }
    } else {
        BlockState::NoFurther
    }
}

/// The index of the innermost of the first `n` blocks that is in an `#IF`
/// clause, or -1.
pub open spec fn clause_below(blk: Seq<Block>, n: int) -> int
    decreases n,
{
    if n <= 0 {
        -1
    } else if blk[n - 1].state != BlockState::Outside {
        n - 1
    } else {
        clause_below(blk, n - 1)
    }
}

/// The index of the innermost block that is in an `#IF` clause, or -1.
pub open spec fn innermost_clause(blk: Seq<Block>) -> int {
    clause_below(blk, blk.len() as int)
}

/// The blocks with the state of the innermost one replaced.
pub open spec fn with_state(blk: Seq<Block>, state: BlockState) -> Seq<Block> {
    blk.update(blk.len() - 1, Block { state, ..blk.last() })
}

/// The blocks after the directive `d`, where `draw` is the number that is
/// drawn if one is.
pub open spec fn blocks_after(blk: Seq<Block>, d: Directive, draw: int) -> Seq<Block> {
    match d {
        Directive::Random(n) => blk.push(
            Block {
                val: if n > 0 && !blocks_inactive(blk) {
                    Some(draw as i64)
                } else {
                    None
                },
                state: BlockState::Outside,
                skip: blocks_inactive(blk),
            },
        ),
        Directive::SetRandom(n) => blk.push(
            Block { val: clause_number(n), state: BlockState::Outside, skip: blocks_inactive(blk) },
        ),
        Directive::EndRandom => if blk.len() > 1 {
            blk.drop_last()
        } else {
            blk
        },
        Directive::If(n) => with_state(blk, state_after_if(blk.last(), true, n)),
        Directive::ElseIf(n) => with_state(blk, state_after_if(blk.last(), false, n)),
        Directive::Else => with_state(
            blk,
            if blk.last().state == BlockState::Ignore {
                BlockState::Process
            } else {
                BlockState::NoFurther
            },
        ),
        Directive::End => {
            let idx = innermost_clause(blk);
            let kept = if idx > 0 {
                blk.take(idx + 1)
            } else {
                blk
            };
            with_state(kept, BlockState::Outside)
        },
        _ => blk,
    }
}

/// There is always a block.
pub proof fn lemma_blocks_after_nonempty(blk: Seq<Block>, d: Directive, draw: int)
    requires
        blk.len() > 0,
    ensures
        blocks_after(blk, d, draw).len() > 0,
{
    lemma_clause_below_bounds(blk, blk.len() as int);
}

/// The innermost clause lies among the blocks, and every block above it is
/// in no clause.
pub proof fn lemma_clause_below_bounds(blk: Seq<Block>, n: int)
    requires
        0 <= n <= blk.len(),
    ensures
        -1 <= clause_below(blk, n) < n,
        clause_below(blk, n) >= 0 ==> blk[clause_below(blk, n)].state != BlockState::Outside,
        forall|i: int|
            clause_below(blk, n) < i < n ==> (#[trigger] blk[i]).state == BlockState::Outside,
    decreases n,
{
    if n > 0 && blk[n - 1].state == BlockState::Outside {
        lemma_clause_below_bounds(blk, n - 1);
    }
}

/// The number that `#RANDOM` with the number `n` draws from the source
/// `r`: one from 1 up to `n`. The source is asked for a number from 1 up to
/// `n + 1`, or from 0 up to `n` where `n + 1` is out of range.
pub open spec fn draw_from<R: Rng>(n: i64, r: R) -> int {
    if n == i64::MAX {
        r.upcoming(0, n) + 1
    } else {
        r.upcoming(1, (n + 1) as i64) as int
    }
}

/// The source after `#RANDOM` with the number `n` has drawn from it.
pub open spec fn source_after<R: Rng>(n: i64, r: R) -> R {
    if n == i64::MAX {
        r.advanced(0, n)
    } else {
        r.advanced(1, (n + 1) as i64)
    }
}

/// The number that the directive `d` draws from the source `r` where the
/// blocks are `blk`, and the source after it. A directive that draws
/// nothing leaves the source as it is; the number is then 1, and does not
/// matter.
pub open spec fn drawn_at<R: Rng>(blk: Seq<Block>, d: Directive, r: R) -> (int, R) {
    match d {
        Directive::Random(n) => if draws_number(blk, d) {
            (draw_from(n, r), source_after(n, r))
        } else {
            (1, r)
        },
        _ => (1, r),
    }
}

/// Obeys a directive that opens, closes or chooses among blocks, and
/// returns the number that was drawn, if one was. A number is drawn from
/// the source only by a `#RANDOM` that is not skipped; otherwise the
/// source is not asked.
pub fn process_block<R: Rng>(blk: &mut Vec<Block>, d: Directive, r: &mut R) -> (drawn: Option<i64>)
    requires
        old(blk)@.len() > 0,
    ensures
        drawn is Some <==> draws_number(old(blk)@, d),
        drawn matches Some(v) ==> draw_in_range(d, v as int) && v == drawn_at(old(blk)@, d, *old(r)).0,
        *final(r) == drawn_at(old(blk)@, d, *old(r)).1,
        final(blk)@ == blocks_after(old(blk)@, d, drawn_at(old(blk)@, d, *old(r)).0),
        drawn is None ==> forall|any: int| final(blk)@ == blocks_after(old(blk)@, d, any),
        final(blk)@.len() > 0,
{
    let top = blk.len() - 1;
    let inactive = blk[top].inactive();
    match d {
        Directive::Random(n) => {
            if n > 0 && !inactive {
                let v = if n == i64::MAX {
                    r.gen_range(0, n) + 1
                } else {
                    r.gen_range(1, n + 1)
                };
                blk.push(Block { val: Some(v), state: BlockState::Outside, skip: inactive });
                Some(v)
            } else {
                blk.push(Block { val: None, state: BlockState::Outside, skip: inactive });
                None
            }
        },
        Directive::SetRandom(n) => {
            let val = if n <= 0 {
                None
            } else {
                Some(n)
            };
            blk.push(Block { val, state: BlockState::Outside, skip: inactive });
            None
        },
        Directive::EndRandom => {
            if blk.len() > 1 {
                blk.pop();
            }
            None
        },
        Directive::If(n) => {
            set_state(blk, next_state(blk[top], true, n));
            None
        },
        Directive::ElseIf(n) => {
            set_state(blk, next_state(blk[top], false, n));
            None
        },
        Directive::Else => {
            let state = match blk[top].state {
                BlockState::Ignore => BlockState::Process,
                _ => BlockState::NoFurther,
            };
            set_state(blk, state);
            None
        },
        Directive::End => {
            let mut idx = blk.len();
            while idx > 0 && matches!(blk[idx - 1].state, BlockState::Outside)
                invariant
                    idx <= blk@.len(),
                    innermost_clause(blk@) == clause_below(blk@, idx as int),
                decreases idx,
            {
                idx -= 1;
            }
            if idx > 1 {
                blk.truncate(idx);
            }
            set_state(blk, BlockState::Outside);
            None
        },
        _ => None,
    }
}

/// The state that `#IF` or `#ELSEIF` with the number `n` leaves a block in.
fn next_state(block: Block, is_if: bool, n: i64) -> (r: BlockState)
    ensures
        r == state_after_if(block, is_if, n),
{
    let ignored = matches!(block.state, BlockState::Ignore);
    if (is_if && !block.state.inactive()) || ignored {
        let chosen = n > 0 && match block.val {
            Some(v) => v == n,
            None => false,
        };
        if chosen {
            BlockState::Process
        } else {
            BlockState::Ignore
        }
    } else {
        BlockState::NoFurther
    }
}

/// Replaces the state of the innermost block.
fn set_state(blk: &mut Vec<Block>, state: BlockState)
    requires
        old(blk)@.len() > 0,
    ensures
        final(blk)@ == with_state(old(blk)@, state),
{
    let top = blk.len() - 1;
    let block = blk[top];
    blk[top] = Block { val: block.val, state, skip: block.skip };
}

} // verus!
