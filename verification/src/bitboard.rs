use vstd::prelude::*;
use vstd::std_specs::bits::{axiom_u64_trailing_zeros, u64_trailing_zeros};
use crate::square::Square;

verus! {

/// A set of at most 64 squares, backed by a 64-bit mask.
/// Bit `i` is set exactly when square `i` is a member.
#[derive(Debug, Clone, Copy, PartialEq, Eq, Structural)]
pub struct BitBoard(u64);

/// True when bit `i` of the mask `b` is set, i.e. square `i` is a member.
pub open spec fn bb_has(b: u64, i: int) -> bool {
    0 <= i < 64 && ((b >> (i as u64)) & 1u64) == 1u64
}

impl View for BitBoard {
    type V = u64;

    closed spec fn view(&self) -> u64 {
        self.0
    }
}

/// A mask is zero exactly when it has no members.
pub proof fn lemma_bb_empty(b: u64)
    ensures
        (b == 0) <==> (forall|i: int| !bb_has(b, i)),
{
    if b == 0 {
        assert forall|i: int| !bb_has(0u64, i) by {
            if 0 <= i < 64 {
                let iu = i as u64;
                assert((0u64 >> iu) & 1u64 == 0u64) by (bit_vector);
            }
        }
    } else {
        axiom_u64_trailing_zeros(b);
        let tz = u64_trailing_zeros(b) as int;
        assert(bb_has(b, tz));
    }
}

/// The lowest-index member of the mask, or `None` when it is empty.
pub open spec fn lowest_sq(b: u64) -> Option<Square> {
    if b == 0 {
        None
    } else {
        Some(Square(u64_trailing_zeros(b) as u8))
    }
}

/// The lowest member, when there is one, is a board square.
pub proof fn lemma_lowest_sq_valid(b: u64)
    ensures
        lowest_sq(b) matches Some(s) ==> s.valid() && bb_has(b, s.0 as int),
{
    if b != 0 {
        axiom_u64_trailing_zeros(b);
    }
}

/// A mask whose members all lie at `d` or above, with `d` a member,
/// has `d` as its lowest member.
pub proof fn lemma_lowest_sq_is(b: u64, d: int)
    requires
        0 <= d < 64,
        bb_has(b, d),
        forall|j: int| j < d ==> !bb_has(b, j),
    ensures
        lowest_sq(b) == Some(Square(d as u8)),
{
    lemma_bb_empty(b);
    assert(b != 0);
    axiom_u64_trailing_zeros(b);
    let tz = u64_trailing_zeros(b) as int;
    assert(bb_has(b, tz));
    if tz > d {
        assert((b >> (d as u64)) & 1u64 == 0u64);
        assert(!bb_has(b, d));
    }
}

/// The mask `b` with bit `i` set.
pub open spec fn set_bit(b: u64, i: int) -> u64 {
    b | (1u64 << (i as u64))
}

/// The mask `b` with bit `i` cleared.
pub open spec fn clear_bit(b: u64, i: int) -> u64 {
    b & !(1u64 << (i as u64))
}

/// Membership in a mask with one bit set or cleared.
pub proof fn lemma_bb_set_clear(b: u64, i: int)
    requires
        0 <= i < 64,
    ensures
        forall|j: int| #[trigger] bb_has(set_bit(b, i), j) == (j == i || bb_has(b, j)),
        forall|j: int| #[trigger] bb_has(clear_bit(b, i), j) == (j != i && bb_has(b, j)),
{
    let s = i as u64;
    assert forall|j: int| #[trigger] bb_has(b | (1u64 << s), j) == (j == i || bb_has(b, j)) by {
        if 0 <= j < 64 {
            let ju = j as u64;
            assert(((b | (1u64 << s)) >> ju) & 1u64 == if ju == s {
                1u64
            } else {
                (b >> ju) & 1u64
            }) by (bit_vector)
                requires
                    s < 64,
                    ju < 64,
            ;
        }
    }
    assert forall|j: int| #[trigger] bb_has(b & !(1u64 << s), j) == (j != i && bb_has(b, j)) by {
        if 0 <= j < 64 {
            let ju = j as u64;
            assert(((b & !(1u64 << s)) >> ju) & 1u64 == if ju == s {
                0u64
            } else {
                (b >> ju) & 1u64
            }) by (bit_vector)
                requires
                    s < 64,
                    ju < 64,
            ;
        }
    }
}

/// Two masks with the same members are the same mask.
pub proof fn lemma_bb_ext(a: u64, b: u64)
    requires
        forall|j: int| bb_has(a, j) == bb_has(b, j),
    ensures
        a == b,
{
    if a != b {
        let d = a ^ b;
        assert(d != 0) by (bit_vector)
            requires
                d == a ^ b,
                a != b,
        ;
        axiom_u64_trailing_zeros(d);
        let tz = u64_trailing_zeros(d) as u64;
        assert(((a >> tz) & 1u64 == 1u64) != ((b >> tz) & 1u64 == 1u64)) by (bit_vector)
            requires
                d == a ^ b,
                tz < 64,
                (d >> tz) & 1u64 == 1u64,
        ;
        assert(bb_has(a, tz as int) != bb_has(b, tz as int));
    }
}

/// Membership distributes over the bitwise operations.
pub proof fn lemma_bb_ops(a: u64, b: u64)
    ensures
        forall|j: int| #[trigger] bb_has(a & b, j) <==> bb_has(a, j) && bb_has(b, j),
        forall|j: int| #[trigger] bb_has(a | b, j) <==> bb_has(a, j) || bb_has(b, j),
        forall|j: int| #[trigger] bb_has(!a, j) <==> 0 <= j < 64 && !bb_has(a, j),
{
    assert forall|j: int| #[trigger] bb_has(a & b, j) <==> bb_has(a, j) && bb_has(b, j) by {
        if 0 <= j < 64 {
            let ju = j as u64;
            assert(((a & b) >> ju) & 1u64 == if (a >> ju) & 1u64 == 1u64 && (b >> ju) & 1u64
                == 1u64 {
                1u64
            } else {
                0u64
            }) by (bit_vector);
        }
    }
    assert forall|j: int| #[trigger] bb_has(a | b, j) <==> bb_has(a, j) || bb_has(b, j) by {
        if 0 <= j < 64 {
            let ju = j as u64;
            assert(((a | b) >> ju) & 1u64 == if (a >> ju) & 1u64 == 1u64 || (b >> ju) & 1u64
                == 1u64 {
                1u64
            } else {
                0u64
            }) by (bit_vector);
        }
    }
    assert forall|j: int| #[trigger] bb_has(!a, j) <==> 0 <= j < 64 && !bb_has(a, j) by {
        if 0 <= j < 64 {
            let ju = j as u64;
            assert(((!a) >> ju) & 1u64 == if (a >> ju) & 1u64 == 1u64 {
                0u64
            } else {
                1u64
            }) by (bit_vector)
                requires
                    ju < 64,
            ;
        }
    }
}

impl BitBoard {
    /// The empty set.
    pub fn empty() -> (r: BitBoard)
        ensures
            r@ == 0u64,
    {
        BitBoard(0)
    }

    /// True when no square is a member.
    pub fn is_empty(&self) -> (r: bool)
        ensures
            r == (self@ == 0),
    {
        self.0 == 0
    }

    /// Removes every member.
    pub fn clear(&mut self)
        ensures
            final(self)@ == 0u64,
    {
        self.0 = 0
    }

    /// Adds square `sq` when `set` is true, else removes it; all other
    /// members are kept.
    pub fn set(&mut self, sq: Square, set: bool)
        requires
            sq.valid(),
        ensures
            forall|j: int| #[trigger] bb_has(final(self)@, j) == (if j == sq.0 as int {
                set
            } else {
                bb_has(old(self)@, j)
            }),
    {
        let s = sq.0 as u64;
        let o = self.0;
        if set {
            self.0 = self.0 | (1u64 << s);
            proof {
                assert forall|j: int| #[trigger] bb_has(o | (1u64 << s), j) == (if j == s as int {
                    true
                } else {
                    bb_has(o, j)
                }) by {
                    if 0 <= j < 64 {
                        let ju = j as u64;
                        assert(((o | (1u64 << s)) >> ju) & 1u64 == if ju == s {
                            1u64
                        } else {
                            (o >> ju) & 1u64
                        }) by (bit_vector)
                            requires
                                s < 64,
                                ju < 64,
                        ;
                    }
                }
            }
        } else {
            self.0 = self.0 & !(1u64 << s);
            proof {
                assert forall|j: int| #[trigger] bb_has(o & !(1u64 << s), j) == (if j == s as int {
                    false
                } else {
                    bb_has(o, j)
                }) by {
                    if 0 <= j < 64 {
                        let ju = j as u64;
                        assert(((o & !(1u64 << s)) >> ju) & 1u64 == if ju == s {
                            0u64
                        } else {
                            (o >> ju) & 1u64
                        }) by (bit_vector)
                            requires
                                s < 64,
                                ju < 64,
                        ;
                    }
                }
            }
        }
    }

    /// True when square `sq` is a member.
    pub fn get(&self, sq: Square) -> (r: bool)
        requires
            sq.valid(),
        ensures
            r == bb_has(self@, sq.0 as int),
    {
        let s = sq.0 as u64;
        let o = self.0;
        proof {
            assert((o & (1u64 << s) != 0) == ((o >> s) & 1u64 == 1u64)) by (bit_vector)
                requires
                    s < 64,
            ;
        }
        (self.0 & (1u64 << s)) != 0
    }

    /// The lowest-index member, or `None` when the set is empty.
    pub fn to_square(&self) -> (r: Option<Square>)
        ensures
            r == lowest_sq(self@),
            (r is None) <==> self@ == 0,
            r matches Some(s) ==> s.valid() && bb_has(self@, s.0 as int) && (forall|j: int|
                j < s.0 as int ==> !bb_has(self@, j)),
    {
        if self.0 == 0 {
            None
        } else {
            proof {
                axiom_u64_trailing_zeros(self.0);
            }
            Some(Square(self.0.trailing_zeros() as u8))
        }
    }

    /// The set holding exactly square `sq`.
    pub fn from_square(sq: Square) -> (r: BitBoard)
        requires
            sq.valid(),
        ensures
            r@ == (1u64 << (sq.0 as u64)),
            forall|j: int| #[trigger] bb_has(r@, j) == (j == sq.0 as int),
            r@ != 0,
    {
        let s = sq.0 as u64;
        proof {
            assert forall|j: int| #[trigger] bb_has(1u64 << s, j) == (j == s as int) by {
                if 0 <= j < 64 {
                    let ju = j as u64;
                    assert(((1u64 << s) >> ju) & 1u64 == if ju == s {
                        1u64
                    } else {
                        0u64
                    }) by (bit_vector)
                        requires
                            s < 64,
                            ju < 64,
                    ;
                }
            }
            assert((1u64 << s) != 0) by (bit_vector)
                requires
                    s < 64,
            ;
        }
        BitBoard(1u64 << s)
    }

    /// The intersection of the two sets.
    pub fn bitand(self, rhs: BitBoard) -> (r: BitBoard)
        ensures
            r@ == self@ & rhs@,
            forall|j: int| #[trigger] bb_has(r@, j) <==> bb_has(self@, j) && bb_has(rhs@, j),
    {
        proof {
            lemma_bb_ops(self.0, rhs.0);
        }
        BitBoard(self.0 & rhs.0)
    }

    /// The complement of the set within the 64 squares.
    pub fn bitnot(self) -> (r: BitBoard)
        ensures
            r@ == !self@,
            forall|j: int| #[trigger] bb_has(r@, j) <==> 0 <= j < 64 && !bb_has(self@, j),
    {
        proof {
            lemma_bb_ops(self.0, self.0);
        }
        BitBoard(!self.0)
    }

    /// Intersects `self` with `other` in place.
    pub fn bitand_assign(&mut self, other: BitBoard)
        ensures
            final(self)@ == old(self)@ & other@,
            forall|j: int| #[trigger] bb_has(final(self)@, j) <==> bb_has(old(self)@, j) && bb_has(
                other@,
                j,
            ),
    {
        proof {
            lemma_bb_ops(self.0, other.0);
        }
        self.0 = self.0 & other.0;
    }

    /// Toggles in place every member of `other`.
    pub fn bitxor_assign(&mut self, other: BitBoard)
        ensures
            forall|j: int| #[trigger] bb_has(final(self)@, j) == (bb_has(old(self)@, j) != bb_has(
                other@,
                j,
            ) && 0 <= j < 64),
    {
        let a = self.0;
        let b = other.0;
        proof {
            assert forall|j: int| #[trigger] bb_has(a ^ b, j) == (bb_has(a, j) != bb_has(b, j) && 0
                <= j < 64) by {
                if 0 <= j < 64 {
                    let ju = j as u64;
                    assert(((a ^ b) >> ju) & 1u64 == if (a >> ju) & 1u64 == 1u64 && (b >> ju) & 1u64
                        == 1u64 {
                        0u64
                    } else if (a >> ju) & 1u64 == 1u64 || (b >> ju) & 1u64 == 1u64 {
                        1u64
                    } else {
                        0u64
                    }) by (bit_vector)
                        requires
                            ju < 64,
                    ;
                }
            }
        }
        self.0 = self.0 ^ other.0;
    }

    /// Starts a pass over the members in increasing square order,
    /// consuming the set.
    pub fn into_iter(self) -> (r: BitBoardIter)
        ensures
            r.board == self,
    {
        BitBoardIter { board: self }
    }
}

impl Default for BitBoard {
    /// The empty set.
    fn default() -> (r: BitBoard)
        ensures
            r@ == 0u64,
    {
        BitBoard(0)
    }
}

/// A single pass over the members of a `BitBoard` in increasing
/// square-index order; each step removes the square it yields.
pub struct BitBoardIter {
    pub board: BitBoard,
}

impl BitBoardIter {
    /// The lowest remaining member, or `None` once the set is exhausted.
    pub fn next(&mut self) -> (r: Option<Square>)
        ensures
            (r is None) <==> old(self).board@ == 0,
            r is None ==> *final(self) == *old(self),
            r matches Some(s) ==> {
                &&& s.valid()
                &&& bb_has(old(self).board@, s.0 as int)
                &&& forall|j: int| j < s.0 as int ==> !bb_has(old(self).board@, j)
                &&& forall|j: int| #[trigger] bb_has(final(self).board@, j) == (bb_has(
                    old(self).board@,
                    j,
                ) && j != s.0 as int)
            },
    {
        if self.board.0 == 0 {
            None
        } else {
            let result = match self.board.to_square() {
                Some(s) => s,
                None => {
                    return None;  // unreachable: the set is not empty
                },
            };
            let mask = BitBoard::from_square(result);
            let before = self.board;
            self.board.bitxor_assign(mask);
            proof {
                assert forall|j: int| #[trigger] bb_has(final(self).board@, j) == (bb_has(
                    before@,
                    j,
                ) && j != result.0 as int) by {}
            }
            Some(result)
        }
    }
}

} // verus!
