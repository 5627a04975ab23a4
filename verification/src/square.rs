use vstd::prelude::*;
use crate::direction::Direction;
use crate::side::Side;

verus! {

/// A rank (row) of the board, counted 1 through 8 from White's side.
/// Arithmetic is saturating: stepping off the board yields `None`.
#[derive(Debug, Clone, Copy, PartialEq, Eq, Structural)]
pub struct Rank(pub u8);

/// A square, numbered 0 through 63; file = index mod 8, rank = index / 8 + 1.
#[derive(Debug, Clone, Copy, PartialEq, Eq, Structural)]
pub struct Square(pub u8);

/// A file (column) of the board, `A` through `H` from White's left.
#[derive(Debug, Clone, Copy, PartialEq, Eq, Structural)]
pub enum File {
    A,
    B,
    C,
    D,
    E,
    F,
    G,
    H,
}

impl Rank {
    pub open spec fn valid(self) -> bool {
        1 <= self.0 <= 8
    }

    /// The rank below, or `None` from rank 1.
    pub fn prev(self) -> (r: Option<Rank>)
        requires
            self.valid(),
        ensures
            r == (if self.0 == 1 { Option::<Rank>::None } else { Some(Rank((self.0 - 1) as u8)) }),
    {
        if self.0 == 1 {
            None
        } else {
            Some(Rank(self.0 - 1))
        }
    }

    /// The rank above, or `None` from rank 8.
    pub fn next(self) -> (r: Option<Rank>)
        requires
            self.valid(),
        ensures
            r == (if self.0 == 8 { Option::<Rank>::None } else { Some(Rank((self.0 + 1) as u8)) }),
    {
        if self.0 == 8 {
            None
        } else {
            Some(Rank(self.0 + 1))
        }
    }

    /// Builds a rank from its number, 1 through 8.
    pub fn new(x: u8) -> (r: Rank)
        requires
            1 <= x <= 8,
        ensures
            r == Rank(x),
    {
        Rank(x)
    }

    /// True on the rank from which `side`'s pawns may double-push.
    pub fn allow_double_move(&self, side: Side) -> (r: bool)
        ensures
            r == self.spec_allow_double_move(side),
    {
        match side {
            Side::White => self.0 == 2,
            Side::Black => self.0 == 7,
        }
    }

    pub open spec fn spec_allow_double_move(self, side: Side) -> bool {
        match side {
            Side::White => self.0 == 2,
            Side::Black => self.0 == 7,
        }
    }

    /// True on the rank where `side`'s pawns promote.
    pub fn is_promo_rank(&self, side: Side) -> (r: bool)
        ensures
            r == self.spec_is_promo_rank(side),
    {
        match side {
            Side::White => self.0 == 8,
            Side::Black => self.0 == 1,
        }
    }

    pub open spec fn spec_is_promo_rank(self, side: Side) -> bool {
        match side {
            Side::White => self.0 == 8,
            Side::Black => self.0 == 1,
        }
    }
}

impl File {
    /// Index of this file in board order: `A` is 0, `H` is 7.
    pub open spec fn spec_index(self) -> int {
        match self {
            File::A => 0,
            File::B => 1,
            File::C => 2,
            File::D => 3,
            File::E => 4,
            File::F => 5,
            File::G => 6,
            File::H => 7,
        }
    }

    /// Index of this file in board order: `A` is 0, `H` is 7.
    pub fn index(self) -> (r: u8)
        ensures
            r == self.spec_index(),
    {
        match self {
            File::A => 0,
            File::B => 1,
            File::C => 2,
            File::D => 3,
            File::E => 4,
            File::F => 5,
            File::G => 6,
            File::H => 7,
        }
    }

    /// The file with the given board-order index.
    pub fn from_index(x: u8) -> (r: File)
        requires
            x < 8,
        ensures
            r.spec_index() == x,
    {
        match x {
            0 => File::A,
            1 => File::B,
            2 => File::C,
            3 => File::D,
            4 => File::E,
            5 => File::F,
            6 => File::G,
            _ => File::H,
        }
    }

    /// The file to the left, or `None` from file `A`.
    pub fn prev(self) -> (r: Option<File>)
        ensures
            r == (if self == File::A { Option::<File>::None } else {
                Some(File::spec_from_index(self.spec_index() - 1))
            }),
    {
        match self {
            File::A => None,
            File::B => Some(File::A),
            File::C => Some(File::B),
            File::D => Some(File::C),
            File::E => Some(File::D),
            File::F => Some(File::E),
            File::G => Some(File::F),
            File::H => Some(File::G),
        }
    }

    /// The file to the right, or `None` from file `H`.
    pub fn next(self) -> (r: Option<File>)
        ensures
            r == (if self == File::H { Option::<File>::None } else {
                Some(File::spec_from_index(self.spec_index() + 1))
            }),
    {
        match self {
            File::A => Some(File::B),
            File::B => Some(File::C),
            File::C => Some(File::D),
            File::D => Some(File::E),
            File::E => Some(File::F),
            File::F => Some(File::G),
            File::G => Some(File::H),
            File::H => None,
        }
    }

    pub open spec fn spec_from_index(x: int) -> File {
        if x == 0 {
            File::A
        } else if x == 1 {
            File::B
        } else if x == 2 {
            File::C
        } else if x == 3 {
            File::D
        } else if x == 4 {
            File::E
        } else if x == 5 {
            File::F
        } else if x == 6 {
            File::G
        } else {
            File::H
        }
    }

    /// The lower-case letter naming this file, `a` through `h`.
    pub fn to_char(self) -> (r: char)
        ensures
            r == self.spec_to_char(),
    {
        match self {
            File::A => 'a',
            File::B => 'b',
            File::C => 'c',
            File::D => 'd',
            File::E => 'e',
            File::F => 'f',
            File::G => 'g',
            File::H => 'h',
        }
    }

    pub open spec fn spec_to_char(self) -> char {
        match self {
            File::A => 'a',
            File::B => 'b',
            File::C => 'c',
            File::D => 'd',
            File::E => 'e',
            File::F => 'f',
            File::G => 'g',
            File::H => 'h',
        }
    }
}

impl Square {
    pub open spec fn valid(self) -> bool {
        self.0 < 64
    }

    /// The square on `rank` and `file`.
    pub fn from_rank_and_file(rank: Rank, file: File) -> (r: Square)
        requires
            rank.valid(),
        ensures
            r.0 == file.spec_index() + (rank.0 - 1) * 8,
            r.valid(),
    {
        Square(file.index() + (rank.0 - 1) * 8)
    }

    /// The rank this square stands on.
    pub open spec fn spec_rank(self) -> Rank {
        Rank((self.0 / 8 + 1) as u8)
    }

    /// The file index (0 through 7) this square stands on.
    pub open spec fn spec_file_index(self) -> int {
        self.0 as int % 8
    }

    /// The rank this square stands on.
    pub fn rank(&self) -> (r: Rank)
        requires
            self.valid(),
        ensures
            r.0 == self.0 / 8 + 1,
            r.valid(),
    {
        Rank((self.0 / 8) + 1)
    }

    /// The file this square stands on.
    pub fn file(&self) -> (r: File)
        ensures
            r.spec_index() == self.0 % 8,
    {
        File::from_index(self.0 % 8)
    }

    /// True on the dark-colored squares of the usual checkering.
    pub fn is_dark(&self) -> (b: bool)
        requires
            self.valid(),
        ensures
            b == (((self.0 + (self.0 / 8 + 1) % 2) % 2) != 0),
    {
        let r = self.rank().0 % 2;
        (self.0 + r) % 2 != 0
    }

    /// The neighbouring square one king step along `dir`, or `None` at the edge.
    pub open spec fn spec_next(self, dir: Direction) -> Option<Square> {
        let s = self.0 as int;
        match dir {
            Direction::Up => if s / 8 < 7 {
                Some(Square((s + 8) as u8))
            } else {
                None
            },
            Direction::UpRight => if s / 8 < 7 && s % 8 < 7 {
                Some(Square((s + 9) as u8))
            } else {
                None
            },
            Direction::Right => if s % 8 < 7 {
                Some(Square((s + 1) as u8))
            } else {
                None
            },
            Direction::DownRight => if s / 8 >= 1 && s % 8 < 7 {
                Some(Square((s - 7) as u8))
            } else {
                None
            },
            Direction::Down => if s / 8 >= 1 {
                Some(Square((s - 8) as u8))
            } else {
                None
            },
            Direction::DownLeft => if s / 8 >= 1 && s % 8 >= 1 {
                Some(Square((s - 9) as u8))
            } else {
                None
            },
            Direction::Left => if s % 8 >= 1 {
                Some(Square((s - 1) as u8))
            } else {
                None
            },
            Direction::UpLeft => if s / 8 < 7 && s % 8 >= 1 {
                Some(Square((s + 7) as u8))
            } else {
                None
            },
        }
    }

    /// The square one knight jump along `dir`, or `None` off the board.
    pub open spec fn spec_next_knight(self, dir: Direction) -> Option<Square> {
        let s = self.0 as int;
        match dir {
            Direction::Up => if s / 8 < 6 && s % 8 < 7 {
                Some(Square((s + 17) as u8))
            } else {
                None
            },
            Direction::UpRight => if s / 8 < 7 && s % 8 < 6 {
                Some(Square((s + 10) as u8))
            } else {
                None
            },
            Direction::Right => if s / 8 >= 1 && s % 8 < 6 {
                Some(Square((s - 6) as u8))
            } else {
                None
            },
            Direction::DownRight => if s / 8 >= 2 && s % 8 < 7 {
                Some(Square((s - 15) as u8))
            } else {
                None
            },
            Direction::Down => if s / 8 >= 2 && s % 8 >= 1 {
                Some(Square((s - 17) as u8))
            } else {
                None
            },
            Direction::DownLeft => if s / 8 >= 1 && s % 8 >= 2 {
                Some(Square((s - 10) as u8))
            } else {
                None
            },
            Direction::Left => if s / 8 < 7 && s % 8 >= 2 {
                Some(Square((s + 6) as u8))
            } else {
                None
            },
            Direction::UpLeft => if s / 8 < 6 && s % 8 >= 1 {
                Some(Square((s + 15) as u8))
            } else {
                None
            },
        }
    }

    /// True when `other` is one king step away from `self` in some direction.
    pub open spec fn spec_is_kingmove_away(self, other: Square) -> bool {
        exists|d: Direction| self.spec_next(d) == Some(other)
    }

    pub fn is_kingmove_away(&self, other: Square) -> (r: bool)
        requires
            self.valid(),
        ensures
            r == self.spec_is_kingmove_away(other),
    {
        let mut i: usize = 0;
        while i < 8
            invariant
                i <= 8,
                self.valid(),
                forall|d: Direction| d.spec_index() < i ==> self.spec_next(d) != Some(other),
            decreases 8 - i,
        {
            let dir = Direction::from_usize(i);
            if let Some(x) = self.next_sq(dir) {
                if x == other {
                    return true;
                }
            }
            i = i + 1;
        }
        proof {
            assert forall|d: Direction| self.spec_next(d) != Some(other) by {
                lemma_direction_index_covers(d);
            }
        }
        false
    }

    /// One knight jump along `dir`, or `None` off the board.
    pub fn next_sq_knight(self, dir: Direction) -> (r: Option<Square>)
        requires
            self.valid(),
        ensures
            r == self.spec_next_knight(dir),
            r matches Some(s) ==> s.valid(),
    {
        do_next_sq_knight(self, dir)
    }

    /// One king step along `dir`, or `None` at the edge of the board.
    pub fn next_sq(self, dir: Direction) -> (r: Option<Square>)
        requires
            self.valid(),
        ensures
            r == self.spec_next(dir),
            r matches Some(s) ==> s.valid(),
    {
        do_next_sq(self, dir)
    }
}

proof fn lemma_direction_index_covers(d: Direction)
    ensures
        0 <= d.spec_index() < 8,
{
}

/// Steps `sq` one square along the ray direction `dir` by rank/file
/// arithmetic, yielding `None` at the edge of the board.
pub fn do_next_sq(sq: Square, dir: Direction) -> (r: Option<Square>)
    requires
        sq.valid(),
    ensures
        r == sq.spec_next(dir),
        r matches Some(s) ==> s.valid(),
{
    let rank = sq.rank();
    let file = sq.file();
    let next: (Option<Rank>, Option<File>) = match dir {
        Direction::Up => (rank.next(), Some(file)),
        Direction::UpRight => (rank.next(), file.next()),
        Direction::Right => (Some(rank), file.next()),
        Direction::DownRight => (rank.prev(), file.next()),
        Direction::Down => (rank.prev(), Some(file)),
        Direction::DownLeft => (rank.prev(), file.prev()),
        Direction::Left => (Some(rank), file.prev()),
        Direction::UpLeft => (rank.next(), file.prev()),
    };
    if let (Some(rank), Some(file)) = next {
        Some(Square::from_rank_and_file(rank, file))
    } else {
        None
    }
}

/// Jumps `sq` one knight move along `dir` by rank/file arithmetic,
/// yielding `None` off the board.
pub fn do_next_sq_knight(sq: Square, dir: Direction) -> (r: Option<Square>)
    requires
        sq.valid(),
    ensures
        r == sq.spec_next_knight(dir),
        r matches Some(s) ==> s.valid(),
{
    let rank = sq.rank();
    let file = sq.file();
    let next: (Option<Rank>, Option<File>) = match dir {
        Direction::Up => (two_up(rank), file.next()),
        Direction::UpRight => (rank.next(), two_right(file)),
        Direction::Right => (rank.prev(), two_right(file)),
        Direction::DownRight => (two_down(rank), file.next()),
        Direction::Down => (two_down(rank), file.prev()),
        Direction::DownLeft => (rank.prev(), two_left(file)),
        Direction::Left => (rank.next(), two_left(file)),
        Direction::UpLeft => (two_up(rank), file.prev()),
    };
    if let (Some(rank), Some(file)) = next {
        Some(Square::from_rank_and_file(rank, file))
    } else {
        None
    }
}

fn two_up(rank: Rank) -> (r: Option<Rank>)
    requires
        rank.valid(),
    ensures
        r == (if rank.0 <= 6 { Some(Rank((rank.0 + 2) as u8)) } else { Option::<Rank>::None }),
{
    match rank.next() {
        Some(x) => x.next(),
        None => None,
    }
}

fn two_down(rank: Rank) -> (r: Option<Rank>)
    requires
        rank.valid(),
    ensures
        r == (if rank.0 >= 3 { Some(Rank((rank.0 - 2) as u8)) } else { Option::<Rank>::None }),
{
    match rank.prev() {
        Some(x) => x.prev(),
        None => None,
    }
}

fn two_right(file: File) -> (r: Option<File>)
    ensures
        r == (if file.spec_index() <= 5 {
            Some(File::spec_from_index(file.spec_index() + 2))
        } else {
            Option::<File>::None
        }),
{
    match file.next() {
        Some(x) => x.next(),
        None => None,
    }
}

fn two_left(file: File) -> (r: Option<File>)
    ensures
        r == (if file.spec_index() >= 2 {
            Some(File::spec_from_index(file.spec_index() - 2))
        } else {
            Option::<File>::None
        }),
{
    match file.prev() {
        Some(x) => x.prev(),
        None => None,
    }
}

} // verus!
