use crate::dir::Dir;
use vstd::prelude::*;

verus! {

/// A square of the board; `A1` has index 0, `H1` index 7 and `H8` index 63.
#[derive(Copy, Clone, Debug, PartialEq, Eq, Structural, Hash)]
pub enum Sq {
    A1,
    B1,
    C1,
    D1,
    E1,
    F1,
    G1,
    H1,
    A2,
    B2,
    C2,
    D2,
    E2,
    F2,
    G2,
    H2,
    A3,
    B3,
    C3,
    D3,
    E3,
    F3,
    G3,
    H3,
    A4,
    B4,
    C4,
    D4,
    E4,
    F4,
    G4,
    H4,
    A5,
    B5,
    C5,
    D5,
    E5,
    F5,
    G5,
    H5,
    A6,
    B6,
    C6,
    D6,
    E6,
    F6,
    G6,
    H6,
    A7,
    B7,
    C7,
    D7,
    E7,
    F7,
    G7,
    H7,
    A8,
    B8,
    C8,
    D8,
    E8,
    F8,
    G8,
    H8
}

/// Number of squares.
pub const SQ_NB: usize = 64;

/// File (0 = A) of square index `i`.
pub open spec fn file_of(i: int) -> int {
    i % 8
}

/// Rank (0 = rank 1) of square index `i`.
pub open spec fn rank_of(i: int) -> int {
    i / 8
}

/// Whether file `f` and rank `r` lie on the board.
pub open spec fn on_board(f: int, r: int) -> bool {
    0 <= f < 8 && 0 <= r < 8
}

/// Index of the square on file `f` and rank `r`.
pub open spec fn sq_at(f: int, r: int) -> int {
    r * 8 + f
}

/// Absolute value.
pub open spec fn abs(x: int) -> int {
    if x < 0 { -x } else { x }
}

/// Distance between the files of two square indices.
pub open spec fn file_dist(a: int, b: int) -> int {
    abs(file_of(a) - file_of(b))
}

/// Distance between the ranks of two square indices.
pub open spec fn rank_dist(a: int, b: int) -> int {
    abs(rank_of(a) - rank_of(b))
}

/// The square, if any, that a coordinate-like text names: a file letter `a`..`h`
/// followed by a rank digit `1`..`8`; anything after those two characters is ignored.
pub open spec fn spec_parse_sq(s: Seq<char>) -> Option<int> {
    if s.len() < 2 {
        None
    } else {
        let f = s[0] as int - 'a' as int;
        let r = s[1] as int - '1' as int;
        if 0 <= f < 8 && 0 <= r < 8 {
            Some(sq_at(f, r))
        } else {
            None
        }
    }
}

impl Sq {
    /// Index of this square.
    pub open spec fn idx(self) -> int {
        self as u8 as int
    }

    /// The square with index `val`, if `val < 64`.
    pub fn from_raw(val: u8) -> (r: Option<Sq>)
        ensures
            r is Some <==> val < 64,
            r matches Some(s) ==> s as u8 == val,
    {
        match val {
            0 => Some(Sq::A1),
            1 => Some(Sq::B1),
            2 => Some(Sq::C1),
            3 => Some(Sq::D1),
            4 => Some(Sq::E1),
            5 => Some(Sq::F1),
            6 => Some(Sq::G1),
            7 => Some(Sq::H1),
            8 => Some(Sq::A2),
            9 => Some(Sq::B2),
            10 => Some(Sq::C2),
            11 => Some(Sq::D2),
            12 => Some(Sq::E2),
            13 => Some(Sq::F2),
            14 => Some(Sq::G2),
            15 => Some(Sq::H2),
            16 => Some(Sq::A3),
            17 => Some(Sq::B3),
            18 => Some(Sq::C3),
            19 => Some(Sq::D3),
            20 => Some(Sq::E3),
            21 => Some(Sq::F3),
            22 => Some(Sq::G3),
            23 => Some(Sq::H3),
            24 => Some(Sq::A4),
            25 => Some(Sq::B4),
            26 => Some(Sq::C4),
            27 => Some(Sq::D4),
            28 => Some(Sq::E4),
            29 => Some(Sq::F4),
            30 => Some(Sq::G4),
            31 => Some(Sq::H4),
            32 => Some(Sq::A5),
            33 => Some(Sq::B5),
            34 => Some(Sq::C5),
            35 => Some(Sq::D5),
            36 => Some(Sq::E5),
            37 => Some(Sq::F5),
            38 => Some(Sq::G5),
            39 => Some(Sq::H5),
            40 => Some(Sq::A6),
            41 => Some(Sq::B6),
            42 => Some(Sq::C6),
            43 => Some(Sq::D6),
            44 => Some(Sq::E6),
            45 => Some(Sq::F6),
            46 => Some(Sq::G6),
            47 => Some(Sq::H6),
            48 => Some(Sq::A7),
            49 => Some(Sq::B7),
            50 => Some(Sq::C7),
            51 => Some(Sq::D7),
            52 => Some(Sq::E7),
            53 => Some(Sq::F7),
            54 => Some(Sq::G7),
            55 => Some(Sq::H7),
            56 => Some(Sq::A8),
            57 => Some(Sq::B8),
            58 => Some(Sq::C8),
            59 => Some(Sq::D8),
            60 => Some(Sq::E8),
            61 => Some(Sq::F8),
            62 => Some(Sq::G8),
            63 => Some(Sq::H8),
            _ => None,
        }
    }

    /// The square on file `file` and rank `rank`, if both are below 8.
    pub fn new(file: u8, rank: u8) -> (r: Option<Sq>)
        ensures
            r is Some <==> (file < 8 && rank < 8),
            r matches Some(s) ==> s.idx() == sq_at(file as int, rank as int),
    {
        if file < 8 && rank < 8 {
            Self::from_raw(rank * 8 + file)
        } else {
            None
        }
    }

    /// The square with index `val`; `val` must be below 64.
    pub fn from_index(val: u8) -> (r: Sq)
        requires
            val < 64,
        ensures
            r as u8 == val,
    {
        match Self::from_raw(val) {
            Some(s) => s,
            None => Sq::A1,
        }
    }

    /// File of this square (0 = file A).
    pub fn file(self) -> (r: u8)
        ensures
            r as int == file_of(self.idx()),
            r < 8,
    {
        self as u8 % 8
    }

    /// Rank of this square (0 = rank 1).
    pub fn rank(self) -> (r: u8)
        ensures
            r as int == rank_of(self.idx()),
            r < 8,
    {
        self as u8 / 8
    }

    /// The square one step away in direction `dir`; that square must exist.
    pub fn shift(self, dir: Dir) -> (r: Sq)
        requires
            on_board(file_of(self.idx()) + dir.df(), rank_of(self.idx()) + dir.dr()),
        ensures
            r.idx() == self.idx() + dir.offset(),
            file_of(r.idx()) == file_of(self.idx()) + dir.df(),
            rank_of(r.idx()) == rank_of(self.idx()) + dir.dr(),
    {
        let v = self as u8;
        let val: u8 = match dir {
            Dir::North => v + 8,
            Dir::South => v - 8,
            Dir::East => v + 1,
            Dir::West => v - 1,
            Dir::NorthEast => v + 9,
            Dir::NorthWest => v + 7,
            Dir::SouthEast => v - 7,
            Dir::SouthWest => v - 9,
        };
        Self::from_index(val)
    }

    /// The single-square bitboard of this square (bit 0 is A1, bit 63 is H8).
    pub fn bitboard(self) -> (r: u64)
        ensures
            r == 1u64 << (self as u8),
    {
        1u64 << (self as u8)
    }

    /// The same square seen from the other side of the board (rank mirrored).
    pub fn flip_vertical(self) -> (r: Sq)
        ensures
            file_of(r.idx()) == file_of(self.idx()),
            rank_of(r.idx()) == 7 - rank_of(self.idx()),
    {
        Self::from_index((7 - self.rank()) * 8 + self.file())
    }

    /// How many files separate this square from the nearest side edge.
    pub fn distance_to_file_edge(self) -> (r: u8)
        ensures
            r as int == (if file_of(self.idx()) <= 7 - file_of(self.idx()) {
                file_of(self.idx())
            } else {
                7 - file_of(self.idx())
            }),
    {
        let file = self.file();
        if file <= 7 - file {
            file
        } else {
            7 - file
        }
    }

    /// How many ranks separate this square from the nearest back edge.
    pub fn distance_to_rank_edge(self) -> (r: u8)
        ensures
            r as int == (if rank_of(self.idx()) <= 7 - rank_of(self.idx()) {
                rank_of(self.idx())
            } else {
                7 - rank_of(self.idx())
            }),
    {
        let rank = self.rank();
        if rank <= 7 - rank {
            rank
        } else {
            7 - rank
        }
    }

    /// King-move distance between two squares.
    pub fn distance_to(self, other: Self) -> (r: u8)
        ensures
            r as int == (if rank_dist(self.idx(), other.idx()) > file_dist(self.idx(), other.idx()) {
                rank_dist(self.idx(), other.idx())
            } else {
                file_dist(self.idx(), other.idx())
            }),
    {
        let rank_dist = abs_diff(self.rank(), other.rank());
        let file_dist = abs_diff(self.file(), other.file());
        if rank_dist > file_dist {
            rank_dist
        } else {
            file_dist
        }
    }

    /// Whether the two squares share a diagonal (a square shares one with itself).
    pub fn on_diagonal_with(self, other: Self) -> (r: bool)
        ensures
            r == (rank_dist(self.idx(), other.idx()) == file_dist(self.idx(), other.idx())),
    {
        abs_diff(self.rank(), other.rank()) == abs_diff(self.file(), other.file())
    }

    /// Rook-path (taxicab) distance between two squares.
    pub fn manhattan_distance_to(self, other: Self) -> (r: u8)
        ensures
            r as int == rank_dist(self.idx(), other.idx()) + file_dist(self.idx(), other.idx()),
    {
        abs_diff(self.rank(), other.rank()) + abs_diff(self.file(), other.file())
    }

    /// Reads a square name such as `e4`.
    pub fn parse(val: &str) -> (r: Option<Self>)
        ensures
            r is Some <==> spec_parse_sq(val@) is Some,
            r matches Some(s) ==> spec_parse_sq(val@) == Some(s.idx()),
    {
        let n = val.unicode_len();
        if n < 2 {
            return None;
        }
        let file = val.get_char(0);
        let rank = val.get_char(1);
        let f: u8 = match file {
            'a' => 0,
            'b' => 1,
            'c' => 2,
            'd' => 3,
            'e' => 4,
            'f' => 5,
            'g' => 6,
            'h' => 7,
            _ => return None,
        };
        let r: u8 = match rank {
            '1' => 0,
            '2' => 1,
            '3' => 2,
            '4' => 3,
            '5' => 4,
            '6' => 5,
            '7' => 6,
            '8' => 7,
            _ => return None,
        };
        Sq::new(f, r)
    }

    /// The file letter and rank digit that name this square.
    pub fn name_chars(self) -> (r: (char, char))
        ensures
            r.0 as int == 'a' as int + file_of(self.idx()),
            r.1 as int == '1' as int + rank_of(self.idx()),
    {
        let f = self.file();
        let rk = self.rank();
        let fc = match f {
            0 => 'a',
            1 => 'b',
            2 => 'c',
            3 => 'd',
            4 => 'e',
            5 => 'f',
            6 => 'g',
            _ => 'h',
        };
        let rc = match rk {
            0 => '1',
            1 => '2',
            2 => '3',
            3 => '4',
            4 => '5',
            5 => '6',
            6 => '7',
            _ => '8',
        };
        (fc, rc)
    }
}

/// Absolute difference of two bytes.
pub fn abs_diff(a: u8, b: u8) -> (r: u8)
    ensures
        r as int == abs(a - b),
{
    if a >= b {
        a - b
    } else {
        b - a
    }
}

/// Mirroring a square twice gives it back.
pub proof fn lemma_flip_involutive(s: int)
    requires
        0 <= s < 64,
    ensures
        sq_at(file_of(s), 7 - (7 - rank_of(s))) == s,
{
}

/// The square that a spec `choose` picks by index is the square with that index.
pub proof fn lemma_choose_sq(s: Sq, i: int)
    requires
        s.idx() == i,
    ensures
        (choose|t: Sq| t.idx() == i) == s,
{
    assert(exists|t: Sq| t.idx() == i) by {
        assert(s.idx() == i);
    }
    let t = choose|t: Sq| t.idx() == i;
    assert(t.idx() == i);
}

} // verus!
