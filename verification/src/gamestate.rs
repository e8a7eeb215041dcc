use vstd::prelude::*;

verus! {

/// Information about the state of the game at a moment in time that can't be derived easily.
/// Because of that, it is held in a stack in the `ChessGame` struct.
///
/// The low four bits hold the en passant column (8 meaning that there is none);
/// the high four bits hold the castling rights.
#[derive(Clone, Copy, Debug, PartialEq, Eq)]
pub struct GameState {
    bitfield: u8,
}

pub open spec fn bit(b: u8, n: u8) -> bool {
    b & (1u8 << n) != 0
}

impl GameState {
    /// The raw bits of the state.
    pub closed spec fn bits(self) -> u8 {
        self.bitfield
    }

    pub closed spec fn from_bits(b: u8) -> GameState {
        GameState { bitfield: b }
    }

    pub proof fn lemma_bits(b: u8, s: GameState, t: GameState)
        ensures
            GameState::from_bits(b).bits() == b,
            s.bits() == t.bits() ==> s == t,
    {
    }

    pub open spec fn spec_en_passant(self) -> i8 {
        (self.bits() & 15u8) as i8
    }

    pub open spec fn spec_white_king_castling(self) -> bool {
        bit(self.bits(), 4)
    }

    pub open spec fn spec_white_queen_castling(self) -> bool {
        bit(self.bits(), 5)
    }

    pub open spec fn spec_black_king_castling(self) -> bool {
        bit(self.bits(), 6)
    }

    pub open spec fn spec_black_queen_castling(self) -> bool {
        bit(self.bits(), 7)
    }

    /// The state with its en passant column replaced by `value`.
    pub open spec fn with_en_passant(self, value: i8) -> GameState {
        GameState::from_bits(((self.bits() & 0xF0u8) + value as u8) as u8)
    }

    /// The state with castling right bit `n` (4 to 7) cleared.
    pub open spec fn without_right(self, n: u8) -> GameState {
        GameState::from_bits(self.bits() & !(1u8 << n))
    }

    /// The state with castling right bit `n` (4 to 7) set.
    pub open spec fn with_right(self, n: u8) -> GameState {
        GameState::from_bits(self.bits() | (1u8 << n))
    }

    #[verifier::when_used_as_spec(spec_en_passant)]
    pub fn en_passant(self) -> (r: i8)
        ensures
            r == self.spec_en_passant(),
            0 <= r < 16,
    {
        let b = self.bitfield;
        assert(b & 15u8 < 16) by (bit_vector);
        (self.bitfield & 0b1111) as i8
    }

    /// Whether `value`, taken as a byte, can be added to the castling bits without overflow.
    pub open spec fn en_passant_fits(self, value: i8) -> bool {
        (self.bits() & 0xF0u8) + (value as u8) <= 255
    }

    /// Whether `value` can be stored as the en passant column without overflow.
    pub fn en_passant_fits_exec(self, value: i8) -> (r: bool)
        ensures
            r == self.en_passant_fits(value),
    {
        (self.bitfield & 0b11110000) as u16 + (value as u8) as u16 <= 255
    }

    /// A column in `0..16` always fits.
    pub proof fn lemma_en_passant_fits(s: GameState, value: i8)
        requires
            0 <= value < 16,
        ensures
            s.en_passant_fits(value),
    {
        let b = s.bits();
        assert((b & 0xF0u8) + (value as u8) <= 255) by (bit_vector)
            requires
                0 <= value < 16,
        ;
    }

    /// Stores `value` (taken as a byte) in place of the en passant column.
    pub fn set_en_passant(&mut self, value: i8)
        requires
            old(self).en_passant_fits(value),
        ensures
            *final(self) == old(self).with_en_passant(value),
    {
        self.bitfield = (self.bitfield & 0b11110000) + (value as u8);
    }

    #[verifier::when_used_as_spec(spec_white_king_castling)]
    pub fn white_king_castling(self) -> (r: bool)
        ensures
            r == self.spec_white_king_castling(),
    {
        (self.bitfield & (1 << 4)) != 0
    }

    pub fn set_white_king_castling_false(&mut self)
        ensures
            *final(self) == old(self).without_right(4),
    {
        self.bitfield &= !(1u8 << 4);
    }

    pub fn set_white_king_castling_true(&mut self)
        ensures
            *final(self) == old(self).with_right(4),
    {
        self.bitfield |= 1u8 << 4;
    }

    #[verifier::when_used_as_spec(spec_white_queen_castling)]
    pub fn white_queen_castling(self) -> (r: bool)
        ensures
            r == self.spec_white_queen_castling(),
    {
        (self.bitfield & (1 << 5)) != 0
    }

    pub fn set_white_queen_castling_false(&mut self)
        ensures
            *final(self) == old(self).without_right(5),
    {
        self.bitfield &= !(1u8 << 5);
    }

    pub fn set_white_queen_castling_true(&mut self)
        ensures
            *final(self) == old(self).with_right(5),
    {
        self.bitfield |= 1u8 << 5;
    }

    #[verifier::when_used_as_spec(spec_black_king_castling)]
    pub fn black_king_castling(self) -> (r: bool)
        ensures
            r == self.spec_black_king_castling(),
    {
        (self.bitfield & (1 << 6)) != 0
    }

    pub fn set_black_king_castling_false(&mut self)
        ensures
            *final(self) == old(self).without_right(6),
    {
        self.bitfield &= !(1u8 << 6);
    }

    pub fn set_black_king_castling_true(&mut self)
        ensures
            *final(self) == old(self).with_right(6),
    {
        self.bitfield |= 1u8 << 6;
    }

    #[verifier::when_used_as_spec(spec_black_queen_castling)]
    pub fn black_queen_castling(self) -> (r: bool)
        ensures
            r == self.spec_black_queen_castling(),
    {
        (self.bitfield & (1 << 7)) != 0
    }

    pub fn set_black_queen_castling_false(&mut self)
        ensures
            *final(self) == old(self).without_right(7),
    {
        self.bitfield &= !(1u8 << 7);
    }

    pub fn set_black_queen_castling_true(&mut self)
        ensures
            *final(self) == old(self).with_right(7),
    {
        self.bitfield |= 1u8 << 7;
    }

    pub proof fn lemma_en_passant_range(s: GameState)
        ensures
            0 <= s.spec_en_passant() < 16,
    {
        let b = s.bits();
        assert(b & 15u8 < 16) by (bit_vector);
    }

    /// Setting the en passant column to `v` reads back as `v` and leaves the castling rights.
    pub proof fn lemma_with_en_passant(s: GameState, v: i8)
        requires
            0 <= v < 16,
        ensures
            s.with_en_passant(v).spec_en_passant() == v,
            s.with_en_passant(v).spec_white_king_castling() == s.spec_white_king_castling(),
            s.with_en_passant(v).spec_white_queen_castling() == s.spec_white_queen_castling(),
            s.with_en_passant(v).spec_black_king_castling() == s.spec_black_king_castling(),
            s.with_en_passant(v).spec_black_queen_castling() == s.spec_black_queen_castling(),
    {
        let b = s.bits();
        let u = v as u8;
        GameState::lemma_bits(((b & 0xF0u8) + u) as u8, s, s);
        assert(((((b & 0xF0u8) + u) as u8) & 15u8) == u
            && bit(((b & 0xF0u8) + u) as u8, 4) == bit(b, 4)
            && bit(((b & 0xF0u8) + u) as u8, 5) == bit(b, 5)
            && bit(((b & 0xF0u8) + u) as u8, 6) == bit(b, 6)
            && bit(((b & 0xF0u8) + u) as u8, 7) == bit(b, 7)) by (bit_vector)
            requires
                u < 16,
        ;
    }

    /// Clearing or setting castling right `n` changes that right alone.
    pub proof fn lemma_rights(s: GameState, n: u8)
        requires
            4 <= n <= 7,
        ensures
            s.without_right(n).spec_en_passant() == s.spec_en_passant(),
            s.with_right(n).spec_en_passant() == s.spec_en_passant(),
            forall|k: u8|
                4 <= k <= 7 ==> #[trigger] bit(s.without_right(n).bits(), k) == (k != n && bit(
                    s.bits(),
                    k,
                )),
            forall|k: u8|
                4 <= k <= 7 ==> #[trigger] bit(s.with_right(n).bits(), k) == (k == n || bit(
                    s.bits(),
                    k,
                )),
    {
        let b = s.bits();
        GameState::lemma_bits(b & !(1u8 << n), s, s);
        GameState::lemma_bits(b | (1u8 << n), s, s);
        assert((b & !(1u8 << n)) & 15u8 == b & 15u8 && (b | (1u8 << n)) & 15u8 == b & 15u8)
            by (bit_vector)
            requires
                4 <= n <= 7,
        ;
        assert forall|k: u8| 4 <= k <= 7 implies #[trigger] bit(s.without_right(n).bits(), k) == (
        k != n && bit(s.bits(), k)) by {
            assert(((b & !(1u8 << n)) & (1u8 << k) != 0) == (k != n && b & (1u8 << k) != 0))
                by (bit_vector)
                requires
                    4 <= n <= 7,
                    4 <= k <= 7,
            ;
        }
        assert forall|k: u8| 4 <= k <= 7 implies #[trigger] bit(s.with_right(n).bits(), k) == (k
            == n || bit(s.bits(), k)) by {
            assert(((b | (1u8 << n)) & (1u8 << k) != 0) == (k == n || b & (1u8 << k) != 0))
                by (bit_vector)
                requires
                    4 <= n <= 7,
                    4 <= k <= 7,
            ;
        }
    }
}

impl Default for GameState {
    /// Default state is no en passant square, and no castling rights
    fn default() -> (r: Self)
        ensures
            r == GameState::from_bits(8),
            r.spec_en_passant() == 8,
            !r.spec_white_king_castling(),
            !r.spec_white_queen_castling(),
            !r.spec_black_king_castling(),
            !r.spec_black_queen_castling(),
    {
        let r = GameState { bitfield: 8 };
        assert(8u8 & 15u8 == 8 && 8u8 & (1u8 << 4u8) == 0 && 8u8 & (1u8 << 5u8) == 0 && 8u8 & (1u8
            << 6u8) == 0 && 8u8 & (1u8 << 7u8) == 0) by (bit_vector);
        r
    }
}

} // verus!
