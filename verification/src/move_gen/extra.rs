//! The check and pin state of a position: which squares the side not to
//! move attacks, whether the side to move is in check, where a check can be
//! answered, and along which line each pinned piece may move.

use super::attack::{king_attacks, knight_attacks, pawn_attacks, slider_attacks, xray};
use super::MoveGenerator;
use crate::bitboard::{bit, get_lsb_index, group_has_bit, has_bit, lemma_lsb, lsb, pop_lsb};
use crate::bitboard::{pop_lsb_to_bitboard, Bitboard};
use crate::board::{Board, Position};
use crate::color::Color;
use crate::piece::Piece;
use core::ops::Not;
use vstd::prelude::*;

verus! {

/// The check and pin state of a position.
pub struct CheckState {
    /// Whether the side to move is in check.
    pub check: bool,
    /// Whether a second check was found.
    pub double_check: bool,
    /// For each square, the line on which a piece pinned there may move.
    pub pin_rays: Seq<Bitboard>,
    /// The squares on which a piece other than the king answers a check.
    pub check_ray: Bitboard,
    /// The squares that the side not to move attacks.
    pub attacked: Bitboard,
}

/// The state before anything is found: no check, no pin, no attack.
pub open spec fn clear_state() -> CheckState {
    CheckState {
        check: false,
        double_check: false,
        pin_rays: Seq::new(64, |i: int| 0u64),
        check_ray: 0,
        attacked: 0,
    }
}

/// The state after one more check is found that can be answered on `ray`:
/// a check that follows another is a double check.
pub open spec fn note_check(state: CheckState, ray: Bitboard) -> CheckState {
    CheckState {
        double_check: state.check,
        check: true,
        check_ray: state.check_ray | ray,
        ..state
    }
}

/// The state after the sliders among `attackers` from square `from` up are
/// counted as checks, lowest square first, until a double check is found.
/// Each check can be answered between the king and the slider, or on the
/// slider's square.
pub open spec fn slider_checks(
    state: CheckState,
    piece: Piece,
    attack: Bitboard,
    occupancy: Bitboard,
    attackers: Bitboard,
    from: int,
) -> CheckState
    decreases 64 - from,
{
    if from < 0 || from >= 64 || state.double_check {
        state
    } else if has_bit(attackers, from) {
        slider_checks(
            note_check(state, (attack & slider_attacks(piece, from, occupancy)) | bit(from)),
            piece,
            attack,
            occupancy,
            attackers,
            from + 1,
        )
    } else {
        slider_checks(state, piece, attack, occupancy, attackers, from + 1)
    }
}

/// The line on which a piece may move that is pinned by the slider on
/// `pinner`: from the king to the slider, the slider's square included.
pub open spec fn pin_ray(
    piece: Piece,
    king_xray: Bitboard,
    attack: Bitboard,
    allies: Bitboard,
    occupancy: Bitboard,
    pinner: int,
) -> Bitboard {
    let seen = xray(piece, pinner, allies, occupancy);
    ((king_xray | seen.0) & (attack | seen.1)) | bit(pinner)
}

/// The piece that the slider on `pinner` pins: the one that both the king
/// and the slider see.
pub open spec fn pinned_by(
    piece: Piece,
    attack: Bitboard,
    blockers: Bitboard,
    occupancy: Bitboard,
    pinner: int,
) -> Bitboard {
    (attack & slider_attacks(piece, pinner, occupancy)) & blockers
}

/// The pin lines after the sliders among `pinners` from square `from` up
/// have each pinned the piece between them and the king.
pub open spec fn slider_pins(
    pins: Seq<Bitboard>,
    piece: Piece,
    king_xray: Bitboard,
    attack: Bitboard,
    allies: Bitboard,
    blockers: Bitboard,
    occupancy: Bitboard,
    pinners: Bitboard,
    from: int,
) -> Seq<Bitboard>
    decreases 64 - from,
{
    if from < 0 || from >= 64 {
        pins
    } else if has_bit(pinners, from) {
        let pinned = pinned_by(piece, attack, blockers, occupancy, from);
        let line = pin_ray(piece, king_xray, attack, allies, occupancy, from);
        let next = if pinned != 0 {
            pins.update(lsb(pinned), pins[lsb(pinned)] | line)
        } else {
            pins
        };
        slider_pins(
            next,
            piece,
            king_xray,
            attack,
            allies,
            blockers,
            occupancy,
            pinners,
            from + 1,
        )
    } else {
        slider_pins(
            pins,
            piece,
            king_xray,
            attack,
            allies,
            blockers,
            occupancy,
            pinners,
            from + 1,
        )
    }
}

/// The state after the checks and pins along the lines of `piece`, a rook
/// or a bishop, are found: the enemy queens and pieces of that kind that
/// the king sees give check, and those that it sees once its own pieces
/// next to it on the lines are taken away pin the piece between. A side
/// without a king is neither checked nor pinned.
pub open spec fn pins_checks(state: CheckState, position: Position, piece: Piece) -> CheckState {
    let color = position.color;
    let king = position.bitboard(Piece::King, color);
    if king == 0 {
        state
    } else {
        let occupancy = position.occupancy();
        let allies = position.allies(color);
        let attackers = position.bitboard(Piece::Queen, color.opposite()) | position.bitboard(
            piece,
            color.opposite(),
        );
        let attack = slider_attacks(piece, lsb(king), occupancy);
        let checked = if attackers > 0 {
            slider_checks(state, piece, attack, occupancy, attack & attackers, 0)
        } else {
            state
        };
        let blockers = allies & attack;
        if blockers > 0 {
            let king_xray = attack ^ slider_attacks(piece, lsb(king), occupancy ^ blockers);
            CheckState {
                pin_rays: slider_pins(
                    checked.pin_rays,
                    piece,
                    king_xray,
                    attack,
                    allies,
                    blockers,
                    occupancy,
                    king_xray & attackers,
                    0,
                ),
                ..checked
            }
        } else {
            checked
        }
    }
}

/// The squares that a pawn of `color`, a king, or else a knight, attacks
/// from `square`.
pub open spec fn leaper_attacks(piece: Piece, color: Color, square: int) -> Bitboard {
    if piece == Piece::Pawn {
        pawn_attacks(color, square)
    } else if piece == Piece::King {
        king_attacks(square)
    } else {
        knight_attacks(square)
    }
}

/// The state after the kings, pawns or knights among `attackers` from
/// square `from` up have added what they attack. Each of them that attacks
/// every square of `king` gives a check of its own, which can be answered
/// on its square only.
pub open spec fn leaper_scan(
    state: CheckState,
    piece: Piece,
    color: Color,
    king: Bitboard,
    attackers: Bitboard,
    from: int,
) -> CheckState
    decreases 64 - from,
{
    if from < 0 || from >= 64 {
        state
    } else if has_bit(attackers, from) {
        let mask = leaper_attacks(piece, color, from);
        let seen = CheckState { attacked: state.attacked | mask, ..state };
        if king != 0 && mask & king == king {
            leaper_scan(note_check(seen, bit(from)), piece, color, king, attackers, from + 1)
        } else {
            leaper_scan(seen, piece, color, king, attackers, from + 1)
        }
    } else {
        leaper_scan(state, piece, color, king, attackers, from + 1)
    }
}

/// `attacked`, and what the sliders among `attackers` from square `from`
/// up attack.
pub open spec fn slider_scan(
    attacked: Bitboard,
    piece: Piece,
    occupancy: Bitboard,
    attackers: Bitboard,
    from: int,
) -> Bitboard
    decreases 64 - from,
{
    if from < 0 || from >= 64 {
        attacked
    } else if has_bit(attackers, from) {
        slider_scan(
            attacked | slider_attacks(piece, from, occupancy),
            piece,
            occupancy,
            attackers,
            from + 1,
        )
    } else {
        slider_scan(attacked, piece, occupancy, attackers, from + 1)
    }
}

/// The check and pin state of a position: the checks and pins along the
/// straight lines, then along the diagonals; what the enemy kings, pawns
/// and knights attack, with a check for each of them that attacks the king;
/// and what the enemy sliders attack when the king of the side to move is
/// taken off the board, so that it cannot hide behind itself. Every piece
/// that attacks the king is a check of its own, so that two of them, of
/// whatever kind, are a double check.
pub open spec fn check_state(position: Position) -> CheckState {
    let color = position.color;
    let other = color.opposite();
    let king = position.bitboard(Piece::King, color);
    let enemy_king = position.bitboard(Piece::King, other);
    let lined = pins_checks(
        pins_checks(clear_state(), position, Piece::Rook),
        position,
        Piece::Bishop,
    );
    let crowned = leaper_scan(lined, Piece::King, other, king, enemy_king, 0);
    let pawned = leaper_scan(
        crowned,
        Piece::Pawn,
        other,
        king,
        position.bitboard(Piece::Pawn, other),
        0,
    );
    let knighted = leaper_scan(
        pawned,
        Piece::Knight,
        other,
        king,
        position.bitboard(Piece::Knight, other),
        0,
    );
    let bare = position.occupancy() & !king;
    let queens = position.bitboard(Piece::Queen, other);
    let straight = slider_scan(
        knighted.attacked,
        Piece::Rook,
        bare,
        queens | position.bitboard(Piece::Rook, other),
        0,
    );
    let all = slider_scan(
        straight,
        Piece::Bishop,
        bare,
        queens | position.bitboard(Piece::Bishop, other),
        0,
    );
    CheckState { attacked: all, ..knighted }
}

/// The targets that are left to a piece on `square` other than the king:
/// in check, those that answer the check; for a pinned piece, those on the
/// line of its pin.
pub open spec fn restricted(state: CheckState, targets: Bitboard, square: int) -> Bitboard {
    let answering = if state.check {
        targets & state.check_ray
    } else {
        targets
    };
    if state.pin_rays[square] != 0 {
        answering & state.pin_rays[square]
    } else {
        answering
    }
}

/// Squares that hold no checking slider change nothing.
proof fn lemma_slider_checks_skip(
    state: CheckState,
    piece: Piece,
    attack: Bitboard,
    occupancy: Bitboard,
    attackers: Bitboard,
    from: int,
    to: int,
)
    requires
        0 <= from <= to <= 64,
        forall|j: int| from <= j < to ==> !has_bit(attackers, j),
    ensures
        slider_checks(state, piece, attack, occupancy, attackers, from) == slider_checks(
            state,
            piece,
            attack,
            occupancy,
            attackers,
            to,
        ),
    decreases to - from,
{
    if from < to {
        lemma_slider_checks_skip(state, piece, attack, occupancy, attackers, from + 1, to);
    }
}

/// Squares that hold no pinning slider change nothing.
proof fn lemma_slider_pins_skip(
    pins: Seq<Bitboard>,
    piece: Piece,
    king_xray: Bitboard,
    attack: Bitboard,
    allies: Bitboard,
    blockers: Bitboard,
    occupancy: Bitboard,
    pinners: Bitboard,
    from: int,
    to: int,
)
    requires
        0 <= from <= to <= 64,
        forall|j: int| from <= j < to ==> !has_bit(pinners, j),
    ensures
        slider_pins(pins, piece, king_xray, attack, allies, blockers, occupancy, pinners, from)
            == slider_pins(
            pins,
            piece,
            king_xray,
            attack,
            allies,
            blockers,
            occupancy,
            pinners,
            to,
        ),
    decreases to - from,
{
    if from < to {
        lemma_slider_pins_skip(
            pins,
            piece,
            king_xray,
            attack,
            allies,
            blockers,
            occupancy,
            pinners,
            from + 1,
            to,
        );
    }
}

/// Squares that hold no pawn or knight change nothing.
proof fn lemma_leaper_scan_skip(
    state: CheckState,
    piece: Piece,
    color: Color,
    king: Bitboard,
    attackers: Bitboard,
    from: int,
    to: int,
)
    requires
        0 <= from <= to <= 64,
        forall|j: int| from <= j < to ==> !has_bit(attackers, j),
    ensures
        leaper_scan(state, piece, color, king, attackers, from) == leaper_scan(
            state,
            piece,
            color,
            king,
            attackers,
            to,
        ),
    decreases to - from,
{
    if from < to {
        lemma_leaper_scan_skip(state, piece, color, king, attackers, from + 1, to);
    }
}

/// Squares that hold no slider add no attack.
proof fn lemma_slider_scan_skip(
    attacked: Bitboard,
    piece: Piece,
    occupancy: Bitboard,
    attackers: Bitboard,
    from: int,
    to: int,
)
    requires
        0 <= from <= to <= 64,
        forall|j: int| from <= j < to ==> !has_bit(attackers, j),
    ensures
        slider_scan(attacked, piece, occupancy, attackers, from) == slider_scan(
            attacked,
            piece,
            occupancy,
            attackers,
            to,
        ),
    decreases to - from,
{
    if from < to {
        lemma_slider_scan_skip(attacked, piece, occupancy, attackers, from + 1, to);
    }
}

impl MoveGenerator {
    /// The check and pin state that the generator holds.
    pub open spec fn state(&self) -> CheckState {
        CheckState {
            check: self.check,
            double_check: self.double_check,
            pin_rays: self.pin_rays@,
            check_ray: self.check_ray,
            attacked: self.bb_attack,
        }
    }

    /// Whether two generators hold the same tables.
    pub open spec fn same_tables(&self, other: &MoveGenerator) -> bool {
        &&& self.king == other.king
        &&& self.pawn == other.pawn
        &&& self.knight == other.knight
        &&& self.rook == other.rook
        &&& self.bishop == other.bishop
        &&& self.rook_magics == other.rook_magics
        &&& self.bishop_magics == other.bishop_magics
        &&& self.square_bit == other.square_bit
    }

    /// Finds the check and pin state of a position and keeps it for the
    /// generation of its moves.
    pub fn calculate_attack_mask(&mut self, board: &Board)
        requires
            old(self).wf(),
        ensures
            final(self).state() == check_state(board@),
            final(self).same_tables(old(self)),
            final(self).wf(),
    {
        self.reset();

        self.find_pins_checks(board, Piece::Rook);
        self.find_pins_checks(board, Piece::Bishop);

        let color: Color = board.get_color();
        let inactive: Color = color.not();

        let bb_ally_king: Bitboard = board.get_bitboard(Piece::King, color);

        self.scan_leapers(
            Piece::King,
            inactive,
            bb_ally_king,
            board.get_bitboard(Piece::King, inactive),
        );
        self.scan_leapers(Piece::Pawn, inactive, bb_ally_king, board.get_bitboard(Piece::Pawn, inactive));
        self.scan_leapers(
            Piece::Knight,
            inactive,
            bb_ally_king,
            board.get_bitboard(Piece::Knight, inactive),
        );

        let bb_no_king_occ: Bitboard = board.get_occupancy() & !bb_ally_king;
        let bb_opp_queens: Bitboard = board.get_bitboard(Piece::Queen, inactive);

        let bb_opp_rook: Bitboard = board.get_bitboard(Piece::Rook, inactive);
        self.scan_sliders(Piece::Rook, bb_no_king_occ, bb_opp_queens | bb_opp_rook);

        let bb_opp_bishop: Bitboard = board.get_bitboard(Piece::Bishop, inactive);
        self.scan_sliders(Piece::Bishop, bb_no_king_occ, bb_opp_queens | bb_opp_bishop);
    }

    /// Adds what the kings, pawns or knights on `attackers` attack, and a
    /// check for each of them that attacks the king.
    fn scan_leapers(&mut self, piece: Piece, color: Color, bb_ally_king: Bitboard, attackers: Bitboard)
        requires
            old(self).wf(),
            piece == Piece::King || piece == Piece::Pawn || piece == Piece::Knight,
        ensures
            final(self).state() == leaper_scan(
                old(self).state(),
                piece,
                color,
                bb_ally_king,
                attackers,
                0,
            ),
            final(self).same_tables(old(self)),
            final(self).wf(),
    {
        let mut bb_attackers: Bitboard = attackers;
        let ghost mut from: int = 0;

        while bb_attackers > 0
            invariant
                self.wf(),
                self.same_tables(old(self)),
                piece == Piece::King || piece == Piece::Pawn || piece == Piece::Knight,
                0 <= from <= 64,
                forall|j: int| has_bit(bb_attackers, j) == (has_bit(attackers, j) && j >= from),
                leaper_scan(old(self).state(), piece, color, bb_ally_king, attackers, 0)
                    == leaper_scan(
                    self.state(),
                    piece,
                    color,
                    bb_ally_king,
                    attackers,
                    from,
                ),
            decreases 64 - from,
        {
            proof {
                lemma_lsb(bb_attackers);
                lemma_leaper_scan_skip(
                    self.state(),
                    piece,
                    color,
                    bb_ally_king,
                    attackers,
                    from,
                    lsb(bb_attackers),
                );
            }
            let square_bit: Bitboard = pop_lsb_to_bitboard(&mut bb_attackers);
            let square_index: usize = get_lsb_index(square_bit) as usize;
            let mask: Bitboard = match piece {
                Piece::Pawn => self.get_pawn_attacks(square_index, color),
                _ => self.get_non_slider_attacks(piece, square_index),
            };

            self.bb_attack |= mask;

            let in_check: bool = bb_ally_king != 0 && mask & bb_ally_king == bb_ally_king;

            if in_check {
                self.double_check = self.check;
                self.check = true;
                self.check_ray |= square_bit;
            }
            proof {
                from = square_index + 1;
            }
        }
        proof {
            broadcast use group_has_bit;

            lemma_leaper_scan_skip(
                self.state(),
                piece,
                color,
                bb_ally_king,
                attackers,
                from,
                64,
            );
        }
    }

    /// Adds what the sliders on `attackers` attack.
    fn scan_sliders(&mut self, piece: Piece, occupancy: Bitboard, attackers: Bitboard)
        requires
            old(self).wf(),
            piece == Piece::Rook || piece == Piece::Bishop,
        ensures
            final(self).state() == (CheckState {
                attacked: slider_scan(old(self).bb_attack, piece, occupancy, attackers, 0),
                ..old(self).state()
            }),
            final(self).same_tables(old(self)),
            final(self).wf(),
    {
        let mut bb_attackers: Bitboard = attackers;
        let ghost mut from: int = 0;

        while bb_attackers > 0
            invariant
                self.wf(),
                self.same_tables(old(self)),
                piece == Piece::Rook || piece == Piece::Bishop,
                0 <= from <= 64,
                forall|j: int| has_bit(bb_attackers, j) == (has_bit(attackers, j) && j >= from),
                self.state() == (CheckState { attacked: self.bb_attack, ..old(self).state() }),
                slider_scan(old(self).bb_attack, piece, occupancy, attackers, 0) == slider_scan(
                    self.bb_attack,
                    piece,
                    occupancy,
                    attackers,
                    from,
                ),
            decreases 64 - from,
        {
            proof {
                lemma_lsb(bb_attackers);
                lemma_slider_scan_skip(
                    self.bb_attack,
                    piece,
                    occupancy,
                    attackers,
                    from,
                    lsb(bb_attackers),
                );
            }
            let square_index: usize = pop_lsb(&mut bb_attackers) as usize;
            let attack: Bitboard = self.get_slider_attacks(piece, square_index, occupancy);

            self.bb_attack |= attack;
            proof {
                from = square_index + 1;
            }
        }
        proof {
            broadcast use group_has_bit;

            lemma_slider_scan_skip(self.bb_attack, piece, occupancy, attackers, from, 64);
        }
    }

    /// Forgets what was found for the last position.
    fn reset(&mut self)
        ensures
            final(self).state() == clear_state(),
            final(self).same_tables(old(self)),
    {
        self.check = false;
        self.double_check = false;
        self.pin_rays = [0;64];
        self.check_ray = 0;
        self.bb_attack = 0;
        assert(self.pin_rays@ =~= Seq::new(64, |i: int| 0u64));
    }

    /// Finds the checks and pins along the lines of `piece`, a rook or a
    /// bishop.
    fn find_pins_checks(&mut self, board: &Board, piece: Piece)
        requires
            old(self).wf(),
            piece == Piece::Rook || piece == Piece::Bishop,
        ensures
            final(self).state() == pins_checks(old(self).state(), board@, piece),
            final(self).same_tables(old(self)),
            final(self).wf(),
    {
        let color: Color = board.get_color();
        let inactive: Color = color.not();

        let bb_ally_king: Bitboard = board.get_bitboard(Piece::King, color);
        if bb_ally_king == 0 {
            return ;
        }
        let king_square: usize = get_lsb_index(bb_ally_king) as usize;

        let bb_occupancy: Bitboard = board.get_occupancy();
        let bb_ally_pieces: Bitboard = board.get_allys(color);

        let bb_opp_queens: Bitboard = board.get_bitboard(Piece::Queen, inactive);
        let bb_opp_pieces: Bitboard = board.get_bitboard(piece, inactive);
        let bb_attacking_pieces: Bitboard = bb_opp_queens | bb_opp_pieces;

        let attack: Bitboard = self.get_slider_attacks(piece, king_square, bb_occupancy);

        if bb_attacking_pieces > 0 {
            let checkers: Bitboard = attack & bb_attacking_pieces;
            let mut bb_attackers: Bitboard = checkers;
            let ghost mut from: int = 0;

            while bb_attackers > 0 && !self.double_check
                invariant
                    self.wf(),
                    self.same_tables(old(self)),
                    piece == Piece::Rook || piece == Piece::Bishop,
                    0 <= from <= 64,
                    forall|j: int| has_bit(bb_attackers, j) == (has_bit(checkers, j) && j >= from),
                    slider_checks(old(self).state(), piece, attack, bb_occupancy, checkers, 0)
                        == slider_checks(
                        self.state(),
                        piece,
                        attack,
                        bb_occupancy,
                        checkers,
                        from,
                    ),
                decreases 64 - from,
            {
                proof {
                    lemma_lsb(bb_attackers);
                    lemma_slider_checks_skip(
                        self.state(),
                        piece,
                        attack,
                        bb_occupancy,
                        checkers,
                        from,
                        lsb(bb_attackers),
                    );
                }
                self.double_check = self.check;
                self.check = true;

                let square_index: usize = pop_lsb(&mut bb_attackers) as usize;
                let bb_square: Bitboard = self.square_bit[square_index];

                let attack_back: Bitboard = self.get_slider_attacks(
                    piece,
                    square_index,
                    bb_occupancy,
                );

                self.check_ray |= attack & attack_back | bb_square;
                proof {
                    from = square_index + 1;
                }
            }
            proof {
                broadcast use group_has_bit;

                if !self.double_check {
                    lemma_slider_checks_skip(
                        self.state(),
                        piece,
                        attack,
                        bb_occupancy,
                        checkers,
                        from,
                        64,
                    );
                }
            }
        }
        let bb_blockers: Bitboard = bb_ally_pieces & attack;

        if bb_blockers > 0 {
            let king_xray: Bitboard = attack ^ self.get_slider_attacks(
                piece,
                king_square,
                bb_occupancy ^ bb_blockers,
            );
            let pinners: Bitboard = king_xray & bb_attacking_pieces;
            let mut bb_attackers: Bitboard = pinners;
            let ghost mut from: int = 0;
            let ghost checked = self.state();

            while bb_attackers > 0
                invariant
                    self.wf(),
                    self.same_tables(old(self)),
                    piece == Piece::Rook || piece == Piece::Bishop,
                    0 <= from <= 64,
                    forall|j: int| has_bit(bb_attackers, j) == (has_bit(pinners, j) && j >= from),
                    self.state() == (CheckState { pin_rays: self.pin_rays@, ..checked }),
                    slider_pins(
                        checked.pin_rays,
                        piece,
                        king_xray,
                        attack,
                        bb_ally_pieces,
                        bb_blockers,
                        bb_occupancy,
                        pinners,
                        0,
                    ) == slider_pins(
                        self.pin_rays@,
                        piece,
                        king_xray,
                        attack,
                        bb_ally_pieces,
                        bb_blockers,
                        bb_occupancy,
                        pinners,
                        from,
                    ),
                decreases 64 - from,
            {
                proof {
                    lemma_lsb(bb_attackers);
                    lemma_slider_pins_skip(
                        self.pin_rays@,
                        piece,
                        king_xray,
                        attack,
                        bb_ally_pieces,
                        bb_blockers,
                        bb_occupancy,
                        pinners,
                        from,
                        lsb(bb_attackers),
                    );
                }
                let square_index: usize = pop_lsb(&mut bb_attackers) as usize;
                let bb_square: Bitboard = self.square_bit[square_index];

                let (pinner_xray, pinner_attack) = self.xray_attack(
                    piece,
                    square_index,
                    bb_ally_pieces,
                    bb_occupancy,
                );

                let pin_ray: Bitboard = (king_xray | pinner_xray) & (attack | pinner_attack)
                    | bb_square;
                let pinned: Bitboard = (attack & pinner_attack) & bb_blockers;
                if pinned != 0 {
                    let pinned_square: usize = get_lsb_index(pinned) as usize;
                    let line: Bitboard = self.pin_rays[pinned_square] | pin_ray;
                    self.pin_rays[pinned_square] = line;
                }
                proof {
                    from = square_index + 1;
                }
            }
            proof {
                broadcast use group_has_bit;

                lemma_slider_pins_skip(
                    self.pin_rays@,
                    piece,
                    king_xray,
                    attack,
                    bb_ally_pieces,
                    bb_blockers,
                    bb_occupancy,
                    pinners,
                    from,
                    64,
                );
            }
        }
    }

    /// Restricts the targets of a piece other than the king: in check to
    /// the squares that answer the check, and for a pinned piece to the line
    /// of its pin.
    pub fn isolate_attack_pin_checks(&self, attack: &mut Bitboard, square_index: usize)
        requires
            square_index < 64,
        ensures
            *final(attack) == restricted(self.state(), *old(attack), square_index as int),
    {
        if self.check {
            *attack &= self.check_ray;
        }
        let pin_ray: Bitboard = self.pin_rays[square_index];

        if pin_ray != 0 {
            *attack &= pin_ray;
        }
    }
}

} // verus!
