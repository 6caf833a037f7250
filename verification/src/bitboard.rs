use crate::dir::Dir;
use crate::square::{file_of, on_board, rank_of, sq_at, Sq};
use vstd::prelude::*;
use vstd::std_specs::bits::{
    axiom_u64_leading_zeros, axiom_u64_trailing_zeros, u64_leading_zeros, u64_trailing_zeros,
};

verus! {

// File masks
pub const FILE_A: u64 = 0x0101_0101_0101_0101;
pub const FILE_B: u64 = 0x0202_0202_0202_0202;
pub const FILE_C: u64 = 0x0404_0404_0404_0404;
pub const FILE_D: u64 = 0x0808_0808_0808_0808;
pub const FILE_E: u64 = 0x1010_1010_1010_1010;
pub const FILE_F: u64 = 0x2020_2020_2020_2020;
pub const FILE_G: u64 = 0x4040_4040_4040_4040;
pub const FILE_H: u64 = 0x8080_8080_8080_8080;

/// Every square except those on file A.
pub const NOT_FILE_A: u64 = 0xfefe_fefe_fefe_fefe;
/// Every square except those on file H.
pub const NOT_FILE_H: u64 = 0x7f7f_7f7f_7f7f_7f7f;

// Rank masks
pub const RANK_1: u64 = 0x0000_0000_0000_00FF;
pub const RANK_2: u64 = 0x0000_0000_0000_FF00;
pub const RANK_3: u64 = 0x0000_0000_00FF_0000;
pub const RANK_4: u64 = 0x0000_0000_FF00_0000;
pub const RANK_5: u64 = 0x0000_00FF_0000_0000;
pub const RANK_6: u64 = 0x0000_FF00_0000_0000;
pub const RANK_7: u64 = 0x00FF_0000_0000_0000;
pub const RANK_8: u64 = 0xFF00_0000_0000_0000;

/// The squares on the outer ring of the board.
pub const EDGES: u64 = 0xFF81_8181_8181_81FF;
/// The light squares.
pub const LIGHT_SQUARES: u64 = 0x55AA_55AA_55AA_55AA;
/// The dark squares.
pub const DARK_SQUARES: u64 = 0xAA55_AA55_AA55_AA55;

/// Whether square `i` is in the set `bb`.
pub open spec fn bit(bb: u64, i: int) -> bool {
    (bb >> (i as u64)) & 1u64 == 1u64
}

/// Whether square `t` is in `bb` moved one step in direction `d`: the square it came from
/// must be on the board and in `bb`; squares pushed off the board are lost.
pub open spec fn shifted_bit(bb: u64, d: Dir, t: int) -> bool {
    on_board(file_of(t) - d.df(), rank_of(t) - d.dr()) && bit(bb, t - d.offset())
}

/// Number of squares in `bb`.
pub open spec fn popcount(bb: u64) -> nat
    decreases bb,
{
    if bb == 0 {
        0
    } else {
        (bb % 2) as nat + popcount(bb / 2)
    }
}

proof fn lemma_north_bv(bb: u64)
    by (bit_vector)
    ensures
        forall|t: u64|
            t < 64 ==> ((((bb << 8u64) >> t) & 1u64 == 1u64) <==> (t >= 8 && ((bb >> ((t
                - 8) as u64)) & 1u64) == 1u64)),
{
}

proof fn lemma_north_north_bv(bb: u64)
    by (bit_vector)
    ensures
        forall|t: u64|
            t < 64 ==> ((((bb << 16u64) >> t) & 1u64 == 1u64) <==> (t >= 16 && ((bb >> ((t
                - 16) as u64)) & 1u64) == 1u64)),
{
}

proof fn lemma_south_bv(bb: u64)
    by (bit_vector)
    ensures
        forall|t: u64|
            t < 64 ==> ((((bb >> 8u64) >> t) & 1u64 == 1u64) <==> (t < 56 && ((bb >> ((t
                + 8) as u64)) & 1u64) == 1u64)),
{
}

proof fn lemma_south_south_bv(bb: u64)
    by (bit_vector)
    ensures
        forall|t: u64|
            t < 64 ==> ((((bb >> 16u64) >> t) & 1u64 == 1u64) <==> (t < 48 && ((bb >> ((t
                + 16) as u64)) & 1u64) == 1u64)),
{
}

proof fn lemma_east_bv(bb: u64)
    by (bit_vector)
    ensures
        forall|t: u64|
            t < 64 ==> (((((bb & 0x7f7f7f7f7f7f7f7fu64) << 1u64) >> t) & 1u64 == 1u64) <==> (t
                % 8 != 0 && ((bb >> ((t - 1) as u64)) & 1u64) == 1u64)),
{
}

proof fn lemma_west_bv(bb: u64)
    by (bit_vector)
    ensures
        forall|t: u64|
            t < 64 ==> (((((bb & 0xfefefefefefefefeu64) >> 1u64) >> t) & 1u64 == 1u64) <==> (t
                % 8 != 7 && ((bb >> ((t + 1) as u64)) & 1u64) == 1u64)),
{
}

proof fn lemma_north_east_bv(bb: u64)
    by (bit_vector)
    ensures
        forall|t: u64|
            t < 64 ==> (((((bb & 0x7f7f7f7f7f7f7f7fu64) << 9u64) >> t) & 1u64 == 1u64) <==> (t
                >= 8 && t % 8 != 0 && ((bb >> ((t - 9) as u64)) & 1u64) == 1u64)),
{
}

proof fn lemma_north_west_bv(bb: u64)
    by (bit_vector)
    ensures
        forall|t: u64|
            t < 64 ==> (((((bb & 0xfefefefefefefefeu64) << 7u64) >> t) & 1u64 == 1u64) <==> (t
                >= 8 && t % 8 != 7 && ((bb >> ((t - 7) as u64)) & 1u64) == 1u64)),
{
}

proof fn lemma_south_east_bv(bb: u64)
    by (bit_vector)
    ensures
        forall|t: u64|
            t < 64 ==> (((((bb & 0x7f7f7f7f7f7f7f7fu64) >> 7u64) >> t) & 1u64 == 1u64) <==> (t
                < 56 && t % 8 != 0 && ((bb >> ((t + 7) as u64)) & 1u64) == 1u64)),
{
}

proof fn lemma_south_west_bv(bb: u64)
    by (bit_vector)
    ensures
        forall|t: u64|
            t < 64 ==> (((((bb & 0xfefefefefefefefeu64) >> 9u64) >> t) & 1u64 == 1u64) <==> (t
                < 56 && t % 8 != 7 && ((bb >> ((t + 9) as u64)) & 1u64) == 1u64)),
{
}

/// `bb` moved one step in direction `d`, as the bit operations compute it.
pub open spec fn shift_expr(bb: u64, d: Dir) -> u64 {
    match d {
        Dir::North => bb << 8u64,
        Dir::South => bb >> 8u64,
        Dir::East => (bb & NOT_FILE_H) << 1u64,
        Dir::West => (bb & NOT_FILE_A) >> 1u64,
        Dir::NorthEast => (bb & NOT_FILE_H) << 9u64,
        Dir::NorthWest => (bb & NOT_FILE_A) << 7u64,
        Dir::SouthEast => (bb & NOT_FILE_H) >> 7u64,
        Dir::SouthWest => (bb & NOT_FILE_A) >> 9u64,
    }
}

/// The bit operations of [`shift_expr`] move every square one step in the direction and drop
/// the squares that would leave the board.
pub proof fn lemma_shift_bits(bb: u64, d: Dir)
    ensures
        forall|t: int| 0 <= t < 64 ==> (bit(#[trigger] shift_expr(bb, d), t) <==> shifted_bit(bb, d, t)),
{
    match d {
        Dir::North => lemma_north_bv(bb),
        Dir::South => lemma_south_bv(bb),
        Dir::East => lemma_east_bv(bb),
        Dir::West => lemma_west_bv(bb),
        Dir::NorthEast => lemma_north_east_bv(bb),
        Dir::NorthWest => lemma_north_west_bv(bb),
        Dir::SouthEast => lemma_south_east_bv(bb),
        Dir::SouthWest => lemma_south_west_bv(bb),
    }
    assert forall|t: int| 0 <= t < 64 implies (bit(#[trigger] shift_expr(bb, d), t) <==> shifted_bit(bb, d, t)) by {
        let tt = t as u64;
        assert(tt as int == t);
    }
}

/// Moves every square of `bb` one step in direction `dir`, dropping squares that leave the board.
pub fn sh_dir(dir: Dir, bb: u64) -> (r: u64)
    ensures
        r == shift_expr(bb, dir),
        forall|t: int| 0 <= t < 64 ==> (bit(r, t) <==> shifted_bit(bb, dir, t)),
{
    proof {
        lemma_shift_bits(bb, dir);
    }
    match dir {
        Dir::North => sh_north(bb),
        Dir::South => sh_south(bb),
        Dir::East => sh_east(bb),
        Dir::West => sh_west(bb),
        Dir::NorthEast => sh_north_east(bb),
        Dir::NorthWest => sh_north_west(bb),
        Dir::SouthEast => sh_south_east(bb),
        Dir::SouthWest => sh_south_west(bb),
    }
}

/// Moves every square one rank up.
pub fn sh_north(bb: u64) -> (r: u64)
    ensures
        r == shift_expr(bb, Dir::North),
        forall|t: int| 0 <= t < 64 ==> (bit(r, t) <==> shifted_bit(bb, Dir::North, t)),
{
    proof {
        lemma_shift_bits(bb, Dir::North);
    }
    bb << 8
}

/// Moves every square one rank down.
pub fn sh_south(bb: u64) -> (r: u64)
    ensures
        r == shift_expr(bb, Dir::South),
        forall|t: int| 0 <= t < 64 ==> (bit(r, t) <==> shifted_bit(bb, Dir::South, t)),
{
    proof {
        lemma_shift_bits(bb, Dir::South);
    }
    bb >> 8
}

/// Moves every square one file towards H; squares on file H vanish.
pub fn sh_east(bb: u64) -> (r: u64)
    ensures
        r == shift_expr(bb, Dir::East),
        forall|t: int| 0 <= t < 64 ==> (bit(r, t) <==> shifted_bit(bb, Dir::East, t)),
{
    proof {
        lemma_shift_bits(bb, Dir::East);
    }
    (bb & NOT_FILE_H) << 1
}

/// Moves every square one file towards A; squares on file A vanish.
pub fn sh_west(bb: u64) -> (r: u64)
    ensures
        r == shift_expr(bb, Dir::West),
        forall|t: int| 0 <= t < 64 ==> (bit(r, t) <==> shifted_bit(bb, Dir::West, t)),
{
    proof {
        lemma_shift_bits(bb, Dir::West);
    }
    (bb & NOT_FILE_A) >> 1
}

/// Moves every square one step diagonally up and towards file H.
pub fn sh_north_east(bb: u64) -> (r: u64)
    ensures
        r == shift_expr(bb, Dir::NorthEast),
        forall|t: int| 0 <= t < 64 ==> (bit(r, t) <==> shifted_bit(bb, Dir::NorthEast, t)),
{
    proof {
        lemma_shift_bits(bb, Dir::NorthEast);
    }
    (bb & NOT_FILE_H) << 9
}

/// Moves every square one step diagonally up and towards file A.
pub fn sh_north_west(bb: u64) -> (r: u64)
    ensures
        r == shift_expr(bb, Dir::NorthWest),
        forall|t: int| 0 <= t < 64 ==> (bit(r, t) <==> shifted_bit(bb, Dir::NorthWest, t)),
{
    proof {
        lemma_shift_bits(bb, Dir::NorthWest);
    }
    (bb & NOT_FILE_A) << 7
}

/// Moves every square one step diagonally down and towards file H.
pub fn sh_south_east(bb: u64) -> (r: u64)
    ensures
        r == shift_expr(bb, Dir::SouthEast),
        forall|t: int| 0 <= t < 64 ==> (bit(r, t) <==> shifted_bit(bb, Dir::SouthEast, t)),
{
    proof {
        lemma_shift_bits(bb, Dir::SouthEast);
    }
    (bb & NOT_FILE_H) >> 7
}

/// Moves every square one step diagonally down and towards file A.
pub fn sh_south_west(bb: u64) -> (r: u64)
    ensures
        r == shift_expr(bb, Dir::SouthWest),
        forall|t: int| 0 <= t < 64 ==> (bit(r, t) <==> shifted_bit(bb, Dir::SouthWest, t)),
{
    proof {
        lemma_shift_bits(bb, Dir::SouthWest);
    }
    (bb & NOT_FILE_A) >> 9
}

/// Moves every square two ranks up.
pub fn sh_north_north(bb: u64) -> (r: u64)
    ensures
        r == bb << 16u64,
        forall|t: int| 0 <= t < 64 ==> (bit(r, t) <==> (t >= 16 && bit(bb, t - 16))),
{
    proof {
        lemma_north_north_bv(bb);
        assert forall|t: int| 0 <= t < 64 implies (bit(bb << 16u64, t) <==> (t >= 16 && bit(bb, t - 16))) by {
            let tt = t as u64;
            assert(tt as int == t);
        }
    }
    bb << 16
}

/// Moves every square two ranks down.
pub fn sh_south_south(bb: u64) -> (r: u64)
    ensures
        r == bb >> 16u64,
        forall|t: int| 0 <= t < 64 ==> (bit(r, t) <==> (t < 48 && bit(bb, t + 16))),
{
    proof {
        lemma_south_south_bv(bb);
        assert forall|t: int| 0 <= t < 64 implies (bit(bb >> 16u64, t) <==> (t < 48 && bit(bb, t + 16))) by {
            let tt = t as u64;
            assert(tt as int == t);
        }
    }
    bb >> 16
}


proof fn lemma_rank_bv(rank: u64)
    by (bit_vector)
    requires
        rank < 8,
    ensures
        forall|t: u64| t < 64 ==> ((#[trigger] ((0xffu64 << (rank * 8)) >> t) & 1u64 == 1u64) <==> t / 8 == rank),
{
}

proof fn lemma_file_bv(file: u64)
    by (bit_vector)
    requires
        file < 8,
    ensures
        forall|t: u64|
            t < 64 ==> ((#[trigger] ((0x0101010101010101u64 << file) >> t) & 1u64 == 1u64) <==> t % 8 == file),
{
}

/// All squares of rank `rank` (0 = rank 1).
pub fn bb_rank(rank: u8) -> (r: u64)
    requires
        rank < 8,
    ensures
        r == RANK_1 << (rank * 8) as u64,
        forall|t: int| 0 <= t < 64 ==> (bit(r, t) <==> rank_of(t) == rank),
{
    proof {
        lemma_rank_bv(rank as u64);
        assert forall|t: int| 0 <= t < 64 implies (bit(RANK_1 << (rank * 8) as u64, t) <==> rank_of(t) == rank) by {
            let tt = t as u64;
            assert(tt as int == t);
        }
    }
    RANK_1 << (rank * 8)
}

/// All squares of file `file` (0 = file A).
pub fn bb_file(file: u8) -> (r: u64)
    requires
        file < 8,
    ensures
        r == FILE_A << file as u64,
        forall|t: int| 0 <= t < 64 ==> (bit(r, t) <==> file_of(t) == file),
{
    proof {
        lemma_file_bv(file as u64);
        assert forall|t: int| 0 <= t < 64 implies (bit(FILE_A << file as u64, t) <==> file_of(t) == file) by {
            let tt = t as u64;
            assert(tt as int == t);
        }
    }
    FILE_A << file
}

proof fn lemma_clear_lowest_bv(x: u64)
    by (bit_vector)
    requires
        x != 0,
    ensures
        x % 2 == 1 ==> (x & ((x - 1) as u64)) == ((x - 1) as u64),
        x % 2 == 1 ==> ((x - 1) as u64) / 2 == x / 2,
        x % 2 == 1 ==> ((x - 1) as u64) % 2 == 0,
        x % 2 == 0 ==> (x & ((x - 1) as u64)) / 2 == ((x / 2) & ((x / 2 - 1) as u64)),
        x % 2 == 0 ==> (x & ((x - 1) as u64)) % 2 == 0,
        x % 2 == 0 ==> x / 2 != 0,
{
}

/// Clearing the lowest square of a non-empty set removes exactly one square.
pub proof fn lemma_popcount_clear_lowest(x: u64)
    requires
        x != 0,
    ensures
        popcount(x & ((x - 1) as u64)) + 1 == popcount(x),
    decreases x,
{
    lemma_clear_lowest_bv(x);
    let y = x & ((x - 1) as u64);
    if x % 2 == 1 {
        assert(y == (x - 1) as u64);
        if y != 0 {
            assert(popcount(y) == (y % 2) as nat + popcount(y / 2));
        }
    } else {
        lemma_popcount_clear_lowest(x / 2);
        if y != 0 {
            assert(popcount(y) == (y % 2) as nat + popcount(y / 2));
        } else {
            assert(y / 2 == 0);
        }
    }
}

/// Only the empty set has no squares.
pub proof fn lemma_popcount_zero(x: u64)
    ensures
        popcount(x) == 0 <==> x == 0,
    decreases x,
{
    if x != 0 {
        if x % 2 == 0 {
            lemma_popcount_zero(x / 2);
        }
    }
}

/// A set never has more squares than its numeric value, nor more than 64.
pub proof fn lemma_popcount_bound(x: u64, n: nat)
    requires
        x < vstd::arithmetic::power2::pow2(n),
    ensures
        popcount(x) <= n,
        popcount(x) <= x,
    decreases n,
{
    if x != 0 {
        if n > 0 {
            vstd::arithmetic::power2::lemma_pow2_unfold(n);
            lemma_popcount_bound(x / 2, (n - 1) as nat);
        } else {
            vstd::arithmetic::power2::lemma2_to64();
        }
    }
}

/// Number of squares in `bb`.
pub fn bb_count(bb: u64) -> (r: u32)
    ensures
        r == popcount(bb),
        r <= 64,
{
    proof {
        vstd::arithmetic::power2::lemma2_to64();
        lemma_popcount_bound(bb, 64);
    }
    let mut x = bb;
    let mut c: u32 = 0;
    while x != 0
        invariant
            c + popcount(x) == popcount(bb),
            popcount(bb) <= 64,
        decreases x,
    {
        assert(popcount(x) == (x % 2) as nat + popcount(x / 2));
        c = c + (x % 2) as u32;
        x = x / 2;
    }
    c
}

/// Whether `bb` holds two squares or more.
pub fn bb_several(bb: u64) -> (r: bool)
    ensures
        r == (popcount(bb) >= 2),
{
    proof {
        if bb != 0 {
            lemma_popcount_clear_lowest(bb);
            lemma_popcount_zero(bb & ((bb - 1) as u64));
        } else {
            lemma_popcount_zero(bb);
            assert(bb & 0xffff_ffff_ffff_ffffu64 == 0) by (bit_vector)
                requires
                    bb == 0,
            ;
        }
    }
    bb & (bb.wrapping_sub(1)) != 0
}

/// Whether `bb` holds exactly one square.
pub fn bb_only_one(bb: u64) -> (r: bool)
    ensures
        r == (popcount(bb) == 1),
{
    proof {
        lemma_popcount_zero(bb);
    }
    bb != 0 && !bb_several(bb)
}

/// The lowest square of a non-empty set.
pub fn bb_lsb(bb: u64) -> (r: Sq)
    requires
        bb != 0,
    ensures
        r.idx() == u64_trailing_zeros(bb),
        bit(bb, r.idx()),
        forall|j: int| 0 <= j < r.idx() ==> !bit(bb, j),
{
    proof {
        axiom_u64_trailing_zeros(bb);
        assert forall|j: int| 0 <= j < u64_trailing_zeros(bb) implies !bit(bb, j) by {
            let jj = j as u64;
            assert((bb >> jj) & 1u64 == 0u64);
        }
    }
    Sq::from_index(bb.trailing_zeros() as u8)
}

/// The lowest square of `bb`, or `None` for the empty set.
pub fn bb_lsb_opt(bb: u64) -> (r: Option<Sq>)
    ensures
        r is None <==> bb == 0,
        r matches Some(s) ==> s.idx() == u64_trailing_zeros(bb) && bit(bb, s.idx()) && forall|
            j: int,
        | 0 <= j < s.idx() ==> !bit(bb, j),
{
    if bb != 0 {
        Some(bb_lsb(bb))
    } else {
        None
    }
}

/// The highest square of a non-empty set.
pub fn bb_msb(bb: u64) -> (r: Sq)
    requires
        bb != 0,
    ensures
        r.idx() == 63 - u64_leading_zeros(bb),
        bit(bb, r.idx()),
        forall|j: int| r.idx() < j < 64 ==> !bit(bb, j),
{
    proof {
        axiom_u64_leading_zeros(bb);
        let lz = u64_leading_zeros(bb) as u64;
        assert((bb >> ((63 - lz) as u64)) & 1u64 != 0u64 ==> (bb >> ((63 - lz) as u64)) & 1u64
            == 1u64) by (bit_vector);
        assert forall|j: int| 63 - u64_leading_zeros(bb) < j < 64 implies !bit(bb, j) by {
            let jj = j as u64;
            assert((bb >> jj) & 1u64 == 0u64);
        }
    }
    let lz = bb.leading_zeros();
    Sq::from_index((63 - lz) as u8)
}

/// The highest square of `bb`, or `None` for the empty set.
pub fn bb_msb_opt(bb: u64) -> (r: Option<Sq>)
    ensures
        r is None <==> bb == 0,
        r matches Some(s) ==> s.idx() == 63 - u64_leading_zeros(bb) && bit(bb, s.idx()),
{
    if bb != 0 {
        Some(bb_msb(bb))
    } else {
        None
    }
}

proof fn lemma_pop_lowest_bv(x: u64, t: u64)
    by (bit_vector)
    requires
        t < 64,
        (x >> t) & 1u64 == 1u64,
        x << ((64 - t) as u64) == 0,
    ensures
        x & ((x - 1) as u64) == x ^ (1u64 << t),
        forall|j: u64| j < 64 ==> ((((x ^ (1u64 << t)) >> j) & 1u64 == 1u64) <==> (j != t && (x >> j) & 1u64 == 1u64)),
{
}

/// Removes the lowest square from a non-empty set and returns it.
pub fn bb_pop_lsb(bb: &mut u64) -> (r: Sq)
    requires
        *old(bb) != 0,
    ensures
        r.idx() == u64_trailing_zeros(*old(bb)),
        bit(*old(bb), r.idx()),
        forall|j: int| 0 <= j < r.idx() ==> !bit(*old(bb), j),
        *final(bb) == *old(bb) ^ (1u64 << (r as u8)),
        forall|j: int| 0 <= j < 64 ==> (bit(*final(bb), j) <==> (j != r.idx() && bit(*old(bb), j))),
        popcount(*final(bb)) + 1 == popcount(*old(bb)),
{
    let x = *bb;
    proof {
        axiom_u64_trailing_zeros(x);
        let t = u64_trailing_zeros(x) as u64;
        lemma_pop_lowest_bv(x, t);
        lemma_popcount_clear_lowest(x);
        assert forall|j: int| 0 <= j < 64 implies (bit(x ^ (1u64 << t), j) <==> (j != t && bit(x, j))) by {
            let jj = j as u64;
            assert(jj as int == j);
        }
    }
    let sq = bb_lsb(x);
    *bb = x & x.wrapping_sub(1);
    sq
}

/// Removes the lowest square from `bb` and returns it, or returns `None` when `bb` is empty.
pub fn bb_pop_lsb_opt(bb: &mut u64) -> (r: Option<Sq>)
    ensures
        r is None <==> *old(bb) == 0,
        *old(bb) == 0 ==> *final(bb) == 0,
        r matches Some(s) ==> s.idx() == u64_trailing_zeros(*old(bb)) && *final(bb) == *old(bb) ^ (1u64 << (s as u8)),
{
    if *bb == 0 {
        None
    } else {
        Some(bb_pop_lsb(bb))
    }
}

/// `bb` with its ranks mirrored (rank 1 swapped with rank 8, and so on).
pub open spec fn flip_bits(bb: u64) -> u64 {
    (bb << 56u64) | ((bb & 0xff00u64) << 40u64) | ((bb & 0xff0000u64) << 24u64) | ((bb
        & 0xff000000u64) << 8u64) | ((bb >> 8u64) & 0xff000000u64) | ((bb >> 24u64) & 0xff0000u64)
        | ((bb >> 40u64) & 0xff00u64) | (bb >> 56u64)
}

proof fn lemma_flip_bv(bb: u64)
    by (bit_vector)
    ensures
        forall|t: u64| t < 64 ==> ((#[trigger] ((flip_bits(bb)) >> t) & 1u64 == 1u64) <==> ((bb >> (t ^ 56u64)) & 1u64 == 1u64)),
        flip_bits(flip_bits(bb)) == bb,
{
}

/// Mirrors the ranks of a set: a square on rank `k` moves to rank `7 - k` of the same file.
pub fn bb_flip_vertically(bb: u64) -> (r: u64)
    ensures
        r == flip_bits(bb),
        forall|t: u64| t < 64 ==> (bit(r, t as int) <==> bit(bb, (t ^ 56u64) as int)),
{
    proof {
        lemma_flip_bv(bb);
    }
    (bb << 56) | ((bb & 0xff00) << 40) | ((bb & 0xff0000) << 24) | ((bb & 0xff000000) << 8) | ((
    bb >> 8) & 0xff000000) | ((bb >> 24) & 0xff0000) | ((bb >> 40) & 0xff00) | (bb >> 56)
}

/// Mirroring the ranks twice gives back the same set.
pub proof fn lemma_flip_involutive(bb: u64)
    ensures
        flip_bits(flip_bits(bb)) == bb,
{
    lemma_flip_bv(bb);
}


/// The squares met when walking from file `f`, rank `r` in direction `d`, for at most `n`
/// steps, stopping on the board's edge or on the first square of `occ` (which is included).
pub open spec fn ray_from(f: int, r: int, d: Dir, occ: u64, n: nat) -> u64
    decreases n,
{
    if n == 0 {
        0
    } else {
        let nf = f + d.df();
        let nr = r + d.dr();
        if !on_board(nf, nr) {
            0
        } else {
            let b = 1u64 << (sq_at(nf, nr) as u64);
            if occ & b != 0 {
                b
            } else {
                b | ray_from(nf, nr, d, occ, (n - 1) as nat)
            }
        }
    }
}

/// The squares a slider on square `s` attacks in direction `d` when `occ` holds the occupied
/// squares: every square up to and including the first occupied one.
pub open spec fn ray_attacks(s: int, d: Dir, occ: u64) -> u64 {
    ray_from(file_of(s), rank_of(s), d, occ, 7)
}

/// The direction at position `i` of the fixed order North, South, East, West, NorthEast,
/// NorthWest, SouthEast, SouthWest.
pub open spec fn dir_at(i: int) -> Dir {
    if i == 0 {
        Dir::North
    } else if i == 1 {
        Dir::South
    } else if i == 2 {
        Dir::East
    } else if i == 3 {
        Dir::West
    } else if i == 4 {
        Dir::NorthEast
    } else if i == 5 {
        Dir::NorthWest
    } else if i == 6 {
        Dir::SouthEast
    } else {
        Dir::SouthWest
    }
}

/// The squares strictly between `s1` and `s2`, looking at the directions from position `i`
/// on; empty when no such direction leads from `s1` to `s2`.
pub open spec fn between_from(s1: int, s2: int, i: int) -> u64
    decreases 8 - i,
{
    if i >= 8 || i < 0 {
        0
    } else {
        let d = dir_at(i);
        if ray_attacks(s1, d, 0) & (1u64 << (s2 as u64)) != 0 {
            ray_attacks(s1, d, 0) & ray_attacks(s2, d.spec_opposite(), 0)
        } else {
            between_from(s1, s2, i + 1)
        }
    }
}

/// The squares strictly between two squares that share a line; empty otherwise.
pub open spec fn between(s1: int, s2: int) -> u64 {
    between_from(s1, s2, 0)
}

/// The whole line through `s1` and `s2`, looking at the directions from position `i` on;
/// empty when the squares share no line.
pub open spec fn line_from(s1: int, s2: int, i: int) -> u64
    decreases 8 - i,
{
    if i >= 8 || i < 0 {
        0
    } else {
        let d = dir_at(i);
        if ray_attacks(s1, d, 0) & (1u64 << (s2 as u64)) != 0 {
            ray_attacks(s1, d, 0) | ray_attacks(s1, d.spec_opposite(), 0) | (1u64 << (s1 as u64))
        } else {
            line_from(s1, s2, i + 1)
        }
    }
}

/// The full board line (rank, file or diagonal) through two squares; empty if there is none.
pub open spec fn line(s1: int, s2: int) -> u64 {
    line_from(s1, s2, 0)
}

proof fn lemma_or_bv(a: u64, b: u64, c: u64)
    by (bit_vector)
    ensures
        a | 0u64 == a,
        0u64 | a == a,
        a | (b | c) == (a | b) | c,
{
}

/// File change of one step in direction `d`.
pub fn dir_df(d: Dir) -> (r: i8)
    ensures
        r as int == d.df(),
{
    match d {
        Dir::North | Dir::South => 0,
        Dir::East | Dir::NorthEast | Dir::SouthEast => 1,
        Dir::West | Dir::NorthWest | Dir::SouthWest => -1,
    }
}

/// Rank change of one step in direction `d`.
pub fn dir_dr(d: Dir) -> (r: i8)
    ensures
        r as int == d.dr(),
{
    match d {
        Dir::East | Dir::West => 0,
        Dir::North | Dir::NorthEast | Dir::NorthWest => 1,
        Dir::South | Dir::SouthEast | Dir::SouthWest => -1,
    }
}

/// The direction at position `i` of the fixed order used by [`between`] and [`line`].
pub fn dir_from_index(i: usize) -> (r: Dir)
    ensures
        r == dir_at(i as int),
{
    match i {
        0 => Dir::North,
        1 => Dir::South,
        2 => Dir::East,
        3 => Dir::West,
        4 => Dir::NorthEast,
        5 => Dir::NorthWest,
        6 => Dir::SouthEast,
        _ => Dir::SouthWest,
    }
}

/// The squares a slider on `sq` attacks in direction `dir`: walking from `sq`, every square
/// up to and including the first one of `occupied`.
pub fn bb_generate_ray_attacks(sq: Sq, occupied: u64, dir: Dir) -> (res: u64)
    ensures
        res == ray_attacks(sq.idx(), dir, occupied),
{
    let df = dir_df(dir);
    let dr = dir_dr(dir);
    let mut f: i8 = sq.file() as i8;
    let mut r: i8 = sq.rank() as i8;
    let mut acc: u64 = 0;
    let mut n: u8 = 7;
    let ghost target = ray_attacks(sq.idx(), dir, occupied);
    proof {
        lemma_or_bv(target, 0, 0);
    }
    loop
        invariant_except_break
            acc | ray_from(f as int, r as int, dir, occupied, n as nat) == target,
        invariant
            0 <= f < 8,
            0 <= r < 8,
            n <= 7,
            df as int == dir.df(),
            dr as int == dir.dr(),
            target == ray_attacks(sq.idx(), dir, occupied),
        ensures
            acc == target,
        decreases n,
    {
        if n == 0 {
            proof {
                lemma_or_bv(acc, 0, 0);
            }
            break;
        }
        let nf = f + df;
        let nr = r + dr;
        if nf < 0 || nf >= 8 || nr < 0 || nr >= 8 {
            proof {
                lemma_or_bv(acc, 0, 0);
            }
            break;
        }
        let b = 1u64 << ((nr * 8 + nf) as u64);
        let ghost rest = ray_from(nf as int, nr as int, dir, occupied, (n - 1) as nat);
        assert(sq_at(nf as int, nr as int) == (nr * 8 + nf) as u64);
        if occupied & b != 0 {
            acc = acc | b;
            break;
        }
        proof {
            lemma_or_bv(acc, b, rest);
        }
        acc = acc | b;
        f = nf;
        r = nr;
        n = n - 1;
    }
    acc
}

/// The squares reached from `sq` in direction `dir` on an empty board.
pub fn bb_from_dir(dir: Dir, sq: Sq) -> (r: u64)
    ensures
        r == ray_attacks(sq.idx(), dir, 0),
{
    bb_generate_ray_attacks(sq, 0, dir)
}

/// The squares strictly between `sq1` and `sq2` when they share a line; empty otherwise.
pub fn bb_between(sq1: Sq, sq2: Sq) -> (r: u64)
    ensures
        r == between(sq1.idx(), sq2.idx()),
{
    let bb2 = sq2.bitboard();
    let mut i: usize = 0;
    while i < 8
        invariant
            i <= 8,
            bb2 == 1u64 << (sq2.idx() as u64),
            between_from(sq1.idx(), sq2.idx(), i as int) == between(sq1.idx(), sq2.idx()),
        decreases 8 - i,
    {
        let dir = dir_from_index(i);
        let ray1 = bb_from_dir(dir, sq1);
        if ray1 & bb2 != 0 {
            let ray2 = bb_from_dir(dir.opposite(), sq2);
            return ray1 & ray2;
        }
        i += 1;
    }
    0
}

/// The full line (rank, file or diagonal) through `sq1` and `sq2`; empty if there is none.
pub fn bb_line(sq1: Sq, sq2: Sq) -> (r: u64)
    ensures
        r == line(sq1.idx(), sq2.idx()),
{
    let bb2 = sq2.bitboard();
    let mut i: usize = 0;
    while i < 8
        invariant
            i <= 8,
            bb2 == 1u64 << (sq2.idx() as u64),
            line_from(sq1.idx(), sq2.idx(), i as int) == line(sq1.idx(), sq2.idx()),
        decreases 8 - i,
    {
        let dir = dir_from_index(i);
        let ray1 = bb_from_dir(dir, sq1);
        if ray1 & bb2 != 0 {
            let ray_opp = bb_from_dir(dir.opposite(), sq1);
            return ray1 | ray_opp | sq1.bitboard();
        }
        i += 1;
    }
    0
}

/// The edge squares that do not lie on `sq`'s own rank or file: the squares a slider's
/// relevant-occupancy mask leaves out.
pub fn bb_get_edge_filter(sq: Sq) -> (r: u64)
    ensures
        r == ((RANK_1 | RANK_8) & !(RANK_1 << (rank_of(sq.idx()) * 8) as u64)) | ((FILE_A | FILE_H)
            & !(FILE_A << file_of(sq.idx()) as u64)),
{
    ((RANK_1 | RANK_8) & !bb_rank(sq.rank())) | ((FILE_A | FILE_H) & !bb_file(sq.file()))
}

/// The squares a bishop on `sq` attacks given the occupied squares `blockers`.
pub fn bb_bishop_attacks(sq: Sq, blockers: u64) -> (r: u64)
    ensures
        r == bishop_rays(sq.idx(), blockers),
{
    bb_generate_ray_attacks(sq, blockers, Dir::NorthWest) | bb_generate_ray_attacks(
        sq,
        blockers,
        Dir::NorthEast,
    ) | bb_generate_ray_attacks(sq, blockers, Dir::SouthWest) | bb_generate_ray_attacks(
        sq,
        blockers,
        Dir::SouthEast,
    )
}

/// The squares a rook on `sq` attacks given the occupied squares `blockers`.
pub fn bb_rook_attacks(sq: Sq, blockers: u64) -> (r: u64)
    ensures
        r == rook_rays(sq.idx(), blockers),
{
    bb_generate_ray_attacks(sq, blockers, Dir::North) | bb_generate_ray_attacks(
        sq,
        blockers,
        Dir::West,
    ) | bb_generate_ray_attacks(sq, blockers, Dir::East) | bb_generate_ray_attacks(
        sq,
        blockers,
        Dir::South,
    )
}

/// The squares a bishop on `s` attacks when `occ` holds the occupied squares.
pub open spec fn bishop_rays(s: int, occ: u64) -> u64 {
    ray_attacks(s, Dir::NorthWest, occ) | ray_attacks(s, Dir::NorthEast, occ) | ray_attacks(
        s,
        Dir::SouthWest,
        occ,
    ) | ray_attacks(s, Dir::SouthEast, occ)
}

/// The squares a rook on `s` attacks when `occ` holds the occupied squares.
pub open spec fn rook_rays(s: int, occ: u64) -> u64 {
    ray_attacks(s, Dir::North, occ) | ray_attacks(s, Dir::West, occ) | ray_attacks(
        s,
        Dir::East,
        occ,
    ) | ray_attacks(s, Dir::South, occ)
}


proof fn lemma_bits_bv(a: u64, b: u64, k: u64)
    by (bit_vector)
    requires
        k < 64,
    ensures
        forall|t: u64| t < 64 ==> (((#[trigger] ((a | b) >> t)) & 1u64 == 1u64) <==> ((a >> t) & 1u64 == 1u64 || (b >> t) & 1u64 == 1u64)),
        forall|t: u64| t < 64 ==> (((#[trigger] ((a & b) >> t)) & 1u64 == 1u64) <==> ((a >> t) & 1u64 == 1u64 && (b >> t) & 1u64 == 1u64)),
        forall|t: u64| t < 64 ==> (((#[trigger] ((a ^ b) >> t)) & 1u64 == 1u64) <==> ((a >> t) & 1u64 == 1u64) != ((b >> t) & 1u64 == 1u64)),
        forall|t: u64| t < 64 ==> (((#[trigger] ((!a) >> t)) & 1u64 == 1u64) <==> !((a >> t) & 1u64 == 1u64)),
        forall|t: u64| t < 64 ==> (((#[trigger] ((1u64 << k) >> t)) & 1u64 == 1u64) <==> t == k),
        forall|t: u64| t < 64 ==> !(((#[trigger] (0u64 >> t)) & 1u64) == 1u64),
{
}

/// How the bit operations act on single squares: union, intersection, symmetric difference,
/// complement, a one-square set and the empty set.
pub proof fn lemma_bit_ops(a: u64, b: u64, k: int)
    requires
        0 <= k < 64,
    ensures
        forall|t: int| 0 <= t < 64 ==> (#[trigger] bit(a | b, t) <==> (bit(a, t) || bit(b, t))),
        forall|t: int| 0 <= t < 64 ==> (#[trigger] bit(a & b, t) <==> (bit(a, t) && bit(b, t))),
        forall|t: int| 0 <= t < 64 ==> (#[trigger] bit(a ^ b, t) <==> (bit(a, t) != bit(b, t))),
        forall|t: int| 0 <= t < 64 ==> (#[trigger] bit(!a, t) <==> !bit(a, t)),
        forall|t: int| 0 <= t < 64 ==> (#[trigger] bit(1u64 << (k as u64), t) <==> t == k),
        forall|t: int| 0 <= t < 64 ==> !#[trigger] bit(0u64, t),
{
    lemma_bits_bv(a, b, k as u64);
    assert forall|t: int| 0 <= t < 64 implies (#[trigger] bit(a | b, t) <==> (bit(a, t) || bit(b, t))) by {
        let tt = t as u64;
        assert(tt as int == t);
    }
    assert forall|t: int| 0 <= t < 64 implies (#[trigger] bit(a & b, t) <==> (bit(a, t) && bit(b, t))) by {
        let tt = t as u64;
        assert(tt as int == t);
    }
    assert forall|t: int| 0 <= t < 64 implies (#[trigger] bit(a ^ b, t) <==> (bit(a, t) != bit(b, t))) by {
        let tt = t as u64;
        assert(tt as int == t);
    }
    assert forall|t: int| 0 <= t < 64 implies (#[trigger] bit(!a, t) <==> !bit(a, t)) by {
        let tt = t as u64;
        assert(tt as int == t);
    }
    assert forall|t: int| 0 <= t < 64 implies (#[trigger] bit(1u64 << (k as u64), t) <==> t == k) by {
        let tt = t as u64;
        assert(tt as int == t);
    }
    assert forall|t: int| 0 <= t < 64 implies !#[trigger] bit(0u64, t) by {
        let tt = t as u64;
        assert(tt as int == t);
    }
}

/// The squares reached from file `f`, rank `r` by the jumps in `offs` that stay on the board.
pub open spec fn leap_bb(f: int, r: int, offs: Seq<(i8, i8)>) -> u64
    decreases offs.len(),
{
    if offs.len() == 0 {
        0
    } else {
        let o = offs.last();
        let rest = leap_bb(f, r, offs.drop_last());
        if on_board(f + o.0, r + o.1) {
            rest | (1u64 << (sq_at(f + o.0, r + o.1) as u64))
        } else {
            rest
        }
    }
}

/// Whether jump `o` from file `f`, rank `r` stays on the board and lands on square `t`.
pub open spec fn lands(f: int, r: int, o: (i8, i8), t: int) -> bool {
    on_board(f + o.0, r + o.1) && t == sq_at(f + o.0, r + o.1)
}

/// Square `t` is in [`leap_bb`] exactly when one of the jumps lands on it.
pub proof fn lemma_leap_bits(f: int, r: int, offs: Seq<(i8, i8)>, t: int)
    requires
        0 <= t < 64,
    ensures
        bit(leap_bb(f, r, offs), t) <==> exists|i: int| 0 <= i < offs.len() && #[trigger] lands(f, r, offs[i], t),
    decreases offs.len(),
{
    if offs.len() == 0 {
        lemma_bit_ops(0, 0, 0);
    } else {
        let o = offs.last();
        let init = offs.drop_last();
        lemma_leap_bits(f, r, init, t);
        let rest = leap_bb(f, r, init);
        if on_board(f + o.0, r + o.1) {
            let k = sq_at(f + o.0, r + o.1);
            lemma_bit_ops(rest, 1u64 << (k as u64), k);
            assert(bit(leap_bb(f, r, offs), t) <==> (bit(rest, t) || t == k));
        }
        if bit(leap_bb(f, r, offs), t) {
            if bit(rest, t) {
                let i = choose|i: int| 0 <= i < init.len() && #[trigger] lands(f, r, init[i], t);
                assert(offs[i] == init[i]);
                assert(lands(f, r, offs[i], t));
            } else {
                assert(offs[offs.len() - 1] == o);
                assert(lands(f, r, offs[offs.len() - 1], t));
            }
        }
        if exists|i: int| 0 <= i < offs.len() && #[trigger] lands(f, r, offs[i], t) {
            let i = choose|i: int| 0 <= i < offs.len() && #[trigger] lands(f, r, offs[i], t);
            if i < offs.len() - 1 {
                assert(init[i] == offs[i]);
                assert(lands(f, r, init[i], t));
            } else {
                assert(offs[i] == o);
            }
        }
    }
}

/// The squares reached from `sq` by the jumps in `offs` that stay on the board.
pub fn leaper_attacks(sq: Sq, offs: &[(i8, i8)]) -> (res: u64)
    ensures
        res == leap_bb(file_of(sq.idx()), rank_of(sq.idx()), offs@),
{
    let f = sq.file() as i8;
    let r = sq.rank() as i8;
    let mut acc: u64 = 0;
    let mut i: usize = 0;
    while i < offs.len()
        invariant
            i <= offs@.len(),
            f as int == file_of(sq.idx()),
            r as int == rank_of(sq.idx()),
            0 <= f < 8,
            0 <= r < 8,
            acc == leap_bb(f as int, r as int, offs@.take(i as int)),
        decreases offs@.len() - i,
    {
        let o = offs[i];
        assert(offs@.take(i as int + 1).drop_last() == offs@.take(i as int));
        assert(offs@.take(i as int + 1).last() == o);
        let nf: i16 = f as i16 + o.0 as i16;
        let nr: i16 = r as i16 + o.1 as i16;
        if nf >= 0 && nf < 8 && nr >= 0 && nr < 8 {
            acc = acc | (1u64 << ((nr * 8 + nf) as u64));
        }
        i += 1;
    }
    assert(offs@.take(offs@.len() as int) == offs@);
    acc
}

/// `|` has `0` as unit and is associative.
pub proof fn lemma_or_bv_pub(a: u64, b: u64, c: u64)
    ensures
        a | 0u64 == a,
        0u64 | a == a,
        a | (b | c) == (a | b) | c,
{
    lemma_or_bv(a, b, c);
}

/// Removing the lowest square with `^` is clearing it with `x & (x - 1)`.
pub proof fn lemma_pop_is_clear_lowest(x: u64, t: int)
    requires
        x != 0,
        t == u64_trailing_zeros(x),
    ensures
        x ^ (1u64 << (t as u8)) == x & ((x - 1) as u64),
{
    axiom_u64_trailing_zeros(x);
    let tt = t as u64;
    lemma_pop_lowest_bv(x, tt);
    assert((1u64 << (t as u8)) == (1u64 << tt));
}

/// The square on the same file and the opposite rank.
pub open spec fn mirror_sq(s: int) -> int {
    (7 - s / 8) * 8 + s % 8
}

/// Flipping bit 3 to 5 of a square index mirrors its rank.
pub proof fn lemma_mirror_xor(s: u64)
    by (bit_vector)
    requires
        s < 64,
    ensures
        s ^ 56 == (7 - s / 8) * 8 + s % 8,
        s ^ 56 < 64,
{
}

/// `g` summed over the squares below `n`.
pub open spec fn square_total(g: spec_fn(int) -> int, n: int) -> int
    decreases n,
{
    if n <= 0 {
        0
    } else {
        square_total(g, n - 1) + g(n - 1)
    }
}

/// `g` summed over the squares from `i` to the last.
pub open spec fn squares_from(g: spec_fn(int) -> int, i: int) -> int
    decreases 64 - i,
{
    if i >= 64 {
        0
    } else {
        g(i) + squares_from(g, i + 1)
    }
}

proof fn lemma_total_from(g: spec_fn(int) -> int, n: int)
    requires
        0 <= n <= 64,
    ensures
        square_total(g, n) + squares_from(g, n) == squares_from(g, 0),
    decreases n,
{
    if n > 0 {
        lemma_total_from(g, n - 1);
    }
}

/// The values of `g` on the eight squares of rank `r`.
pub open spec fn rank_total(g: spec_fn(int) -> int, r: int) -> int {
    g(8 * r) + g(8 * r + 1) + g(8 * r + 2) + g(8 * r + 3) + g(8 * r + 4) + g(8 * r + 5) + g(8 * r
        + 6) + g(8 * r + 7)
}

proof fn lemma_total_rank(g: spec_fn(int) -> int, r: int)
    requires
        0 <= r < 8,
    ensures
        square_total(g, 8 * r + 8) == square_total(g, 8 * r) + rank_total(g, r),
{
    reveal_with_fuel(square_total, 9);
}

proof fn lemma_rank_mirror(g: spec_fn(int) -> int, h: spec_fn(int) -> int, r: int)
    requires
        0 <= r < 8,
        forall|s: int| 0 <= s < 64 ==> #[trigger] g(s) == h(mirror_sq(s)),
    ensures
        rank_total(g, r) == rank_total(h, 7 - r),
{
    assert forall|f: int| 0 <= f < 8 implies #[trigger] mirror_sq(8 * r + f) == 8 * (7 - r) + f by {
        assert((8 * r + f) / 8 == r);
        assert((8 * r + f) % 8 == f);
    }
    assert(g(8 * r) == h(mirror_sq(8 * r + 0)));
    assert(g(8 * r + 1) == h(mirror_sq(8 * r + 1)));
    assert(g(8 * r + 2) == h(mirror_sq(8 * r + 2)));
    assert(g(8 * r + 3) == h(mirror_sq(8 * r + 3)));
    assert(g(8 * r + 4) == h(mirror_sq(8 * r + 4)));
    assert(g(8 * r + 5) == h(mirror_sq(8 * r + 5)));
    assert(g(8 * r + 6) == h(mirror_sq(8 * r + 6)));
    assert(g(8 * r + 7) == h(mirror_sq(8 * r + 7)));
}

/// The total of `g` over the board, rank by rank.
proof fn lemma_total_by_ranks(g: spec_fn(int) -> int)
    ensures
        square_total(g, 64) == rank_total(g, 0) + rank_total(g, 1) + rank_total(g, 2)
            + rank_total(g, 3) + rank_total(g, 4) + rank_total(g, 5) + rank_total(g, 6)
            + rank_total(g, 7),
{
    assert(square_total(g, 0) == 0);
    lemma_total_rank(g, 0);
    lemma_total_rank(g, 1);
    lemma_total_rank(g, 2);
    lemma_total_rank(g, 3);
    lemma_total_rank(g, 4);
    lemma_total_rank(g, 5);
    lemma_total_rank(g, 6);
    lemma_total_rank(g, 7);
}

/// Summing over the squares in rank-mirrored order gives the same total.
pub proof fn lemma_mirror_total(g: spec_fn(int) -> int, h: spec_fn(int) -> int)
    requires
        forall|s: int| 0 <= s < 64 ==> #[trigger] g(s) == h(mirror_sq(s)),
    ensures
        square_total(g, 64) == square_total(h, 64),
{
    lemma_total_by_ranks(g);
    lemma_total_by_ranks(h);
    lemma_rank_mirror(g, h, 0);
    lemma_rank_mirror(g, h, 1);
    lemma_rank_mirror(g, h, 2);
    lemma_rank_mirror(g, h, 3);
    lemma_rank_mirror(g, h, 4);
    lemma_rank_mirror(g, h, 5);
    lemma_rank_mirror(g, h, 6);
    lemma_rank_mirror(g, h, 7);
}

/// One for a square of `bb`, zero for any other square.
pub open spec fn bit_count_at(bb: u64) -> spec_fn(int) -> int {
    |s: int| if bit(bb, s) { 1int } else { 0int }
}

proof fn lemma_shift_step_bv(x: u64, i: u64, j: u64)
    by (bit_vector)
    requires
        i < 64,
        j == i + 1,
    ensures
        ((x >> i) % 2 == 1) == ((x >> i) & 1 == 1),
        (x >> i) % 2 <= 1,
        i < 63 ==> (x >> i) / 2 == x >> j,
        i == 63 ==> (x >> i) / 2 == 0,
        x >> 0u64 == x,
{
}

proof fn lemma_popcount_from(x: u64, i: int)
    requires
        0 <= i < 64,
    ensures
        popcount(x >> (i as u64)) == squares_from(bit_count_at(x), i),
    decreases 64 - i,
{
    lemma_shift_step_bv(x, i as u64, (i + 1) as u64);
    let y = x >> (i as u64);
    assert(popcount(y) == (y % 2) as nat + popcount(y / 2));
    assert(bit_count_at(x)(i) == (y % 2) as int);
    assert(squares_from(bit_count_at(x), i) == bit_count_at(x)(i) + squares_from(bit_count_at(x), i + 1));
    if i < 63 {
        lemma_popcount_from(x, i + 1);
        assert(y / 2 == x >> ((i + 1) as u64));
    } else {
        assert(y / 2 == 0);
        assert(popcount(0) == 0);
    }
}

/// The number of squares of a set is the number of squares it holds, counted one by one.
pub proof fn lemma_popcount_total(x: u64)
    ensures
        popcount(x) == square_total(bit_count_at(x), 64),
{
    lemma_popcount_from(x, 0);
    lemma_shift_step_bv(x, 0, 1);
    lemma_total_from(bit_count_at(x), 64);
}

/// Mirroring the ranks of a set keeps its number of squares.
pub proof fn lemma_popcount_flip(x: u64)
    ensures
        popcount(flip_bits(x)) == popcount(x),
{
    let fx = flip_bits(x);
    lemma_popcount_total(x);
    lemma_popcount_total(fx);
    lemma_flip_bv(x);
    assert forall|s: int| 0 <= s < 64 implies #[trigger] bit_count_at(fx)(s) == bit_count_at(x)(
        mirror_sq(s),
    ) by {
        lemma_mirror_xor(s as u64);
        assert(((fx >> (s as u64)) & 1u64 == 1u64) <==> ((x >> ((s as u64) ^ 56u64)) & 1u64
            == 1u64));
    }
    lemma_mirror_total(bit_count_at(fx), bit_count_at(x));
}

/// Mirroring commutes with intersection.
pub proof fn lemma_flip_and(a: u64, b: u64)
    by (bit_vector)
    ensures
        flip_bits(a) & flip_bits(b) == flip_bits(a & b),
{
}

/// A square of a mirrored set is the mirror of a square of the set.
pub proof fn lemma_flip_bit(x: u64, s: int)
    requires
        0 <= s < 64,
    ensures
        bit(flip_bits(x), s) == bit(x, mirror_sq(s)),
{
    lemma_flip_bv(x);
    lemma_mirror_xor(s as u64);
    assert(((flip_bits(x) >> (s as u64)) & 1u64 == 1u64) <==> ((x >> ((s as u64) ^ 56u64))
        & 1u64 == 1u64));
}

} // verus!
