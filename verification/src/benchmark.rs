//! Counting the positions that can be reached in a number of moves.

use crate::board::{Board, Position};
use crate::error::Error;
use crate::fen::parse_fen;
use crate::move_gen::defs::Move;
use crate::move_gen::{all_moves, MoveGenerator};
use vstd::prelude::*;

verus! {

/// A board and a move generator, for counting the positions within reach.
pub struct Benchmark {
    /// The position from which the counting starts.
    pub board: Board,
    /// The move generator.
    pub move_gen: MoveGenerator,
}

/// The number of ways to play `depth` moves from a position: one for no
/// move, else the sum over its legal moves of the ways to play one move
/// less from the position after the move.
pub open spec fn perft_nodes(position: Position, depth: nat) -> nat
    decreases depth, 1nat, 0nat,
{
    if depth == 0 {
        1
    } else {
        nodes_from(position, all_moves(position), depth, 0)
    }
}

/// The number of ways to play `depth` moves from a position that begin
/// with one of `moves` from place `from` up.
pub open spec fn nodes_from(position: Position, moves: Seq<Move>, depth: nat, from: nat) -> nat
    decreases depth, 0nat, moves.len() - from,
{
    if depth == 0 || from >= moves.len() {
        0
    } else {
        perft_nodes(position.make(moves[from as int]), (depth - 1) as nat) + nodes_from(
            position,
            moves,
            depth,
            from + 1,
        )
    }
}

/// A count as far as the machine can hold it.
pub open spec fn capped(nodes: nat) -> usize {
    if nodes <= usize::MAX {
        nodes as usize
    } else {
        usize::MAX
    }
}

impl Default for Benchmark {
    /// A benchmark on the position at the start of a game.
    fn default() -> (benchmark: Benchmark)
        ensures
            benchmark.wf(),
            benchmark.board@ == crate::board::start_position(),
    {
        Benchmark::new()
    }
}

impl Benchmark {
    /// Whether the benchmark can run: the generator's tables are built and
    /// the position is sound.
    pub open spec fn wf(&self) -> bool {
        self.move_gen.wf() && self.board@.wf()
    }

    /// A benchmark on the position at the start of a game.
    pub fn new() -> (benchmark: Benchmark)
        ensures
            benchmark.wf(),
            benchmark.board@ == crate::board::start_position(),
    {
        Benchmark { board: Board::default(), move_gen: MoveGenerator::new() }
    }

    /// Replaces the position by the one that a text describes. A text that
    /// describes no position is reported, and the position stays as it is:
    /// one with fewer than four fields, with a character that does not
    /// belong in its placement or its castling field, with a placement that
    /// goes off the board, or with a side to move that is neither `w` nor
    /// `b` in either case. The new position need not be sound.
    pub fn set_fen(&mut self, fen: &str) -> (set: Result<(), Error>)
        ensures
            set is Ok == parse_fen(fen@) is Some,
            set is Ok ==> final(self).board@ == parse_fen(fen@)->0,
            set is Err ==> final(self).board@ == old(self).board@,
            set is Err ==> (set->Err_0 matches Error::InvalidFen { fen: text } && text@ == fen@),
            final(self).move_gen == old(self).move_gen,
    {
        match Board::from_str(fen) {
            Ok(board) => {
                self.board = board;
                Ok(())
            },
            Err(error) => Err(error),
        }
    }

    /// The number of ways to play `depth` moves from the position, as far
    /// as a `usize` can hold it. The position is the same afterwards.
    pub fn perft(&mut self, depth: usize) -> (nodes: usize)
        requires
            old(self).wf(),
            depth >= 1,
        ensures
            nodes == capped(perft_nodes(old(self).board@, depth as nat)),
            final(self).board@ == old(self).board@,
            final(self).wf(),
    {
        self._perft(depth)
    }

    /// The number of ways to play `depth` moves from the position, as far
    /// as a `usize` can hold it. The position is the same afterwards.
    pub fn _perft(&mut self, depth: usize) -> (nodes: usize)
        requires
            old(self).wf(),
        ensures
            nodes == capped(perft_nodes(old(self).board@, depth as nat)),
            final(self).board@ == old(self).board@,
            final(self).wf(),
        decreases depth,
    {
        if depth == 0 {
            return 1;
        }
        let mut nodes: usize = 0;

        let move_list: Vec<Move> = self.move_gen.all_possible(&self.board);
        let ghost position = self.board@;
        let ghost moves = move_list@;
        let mut next: usize = 0;

        while next < move_list.len()
            invariant
                next <= move_list@.len(),
                depth > 0,
                self.wf(),
                self.board@ == position,
                moves == move_list@,
                moves == all_moves(position),
                crate::move_gen::legal::all_admitted(position, moves),
                nodes == capped(
                    (nodes_from(position, moves, depth as nat, 0) - nodes_from(
                        position,
                        moves,
                        depth as nat,
                        next as nat,
                    )) as nat,
                ),
                nodes_from(position, moves, depth as nat, next as nat) <= nodes_from(
                    position,
                    moves,
                    depth as nat,
                    0,
                ),
            decreases move_list@.len() - next,
        {
            let to_move: Move = move_list[next];
            self.board.make_move(to_move);
            let move_nodes: usize = self._perft(depth - 1);
            self.board.undo_move();

            nodes = match nodes.checked_add(move_nodes) {
                Some(sum) => sum,
                None => usize::MAX,
            };
            next += 1;
        }
        nodes
    }
}

} // verus!
