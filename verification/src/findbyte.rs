//! Word-parallel byte search: scanning for the first byte satisfying a
//! comparison, eight bytes at a time.
//!
//! A [`ByteFinder`] describes a per-byte condition (`==`, `!=`, `<`, `>`, or
//! an or-combination of these) together with a branch-free formula that
//! computes, for a whole little-endian word, an intermediate value whose
//! high lane bits flag the condition. The formulas borrow across lanes, so
//! a lane bit is guaranteed to be exact only when no lane below it matches,
//! and for some finders only under a side condition ([`ByteFinder::faithful_for`]);
//! the search's own contract is stated against the word-stepping model
//! [`spec_swar_find`], and [`lemma_swar_find_exact`] shows that on faithful
//! words the model agrees with a byte-at-a-time scan.

use vstd::prelude::*;

use crate::charlike::lemma_vec_deep_view_id;
use crate::engine::Parser;
use vstd::slice::{slice_subrange, slice_to_vec};

verus! {

/// The lowest bit of every byte lane.
pub const LOW_BITS: u64 = 0x0101010101010101;

/// The highest bit of every byte lane.
pub const HIGH_BITS: u64 = 0x8080808080808080;

/// The byte `c` replicated into every lane of a word.
pub open spec fn repeat8(c: u64) -> u64 {
    c | c << 8 | c << 16 | c << 24 | c << 32 | c << 40 | c << 48 | c << 56
}

/// Wrapping subtraction on words.
pub open spec fn spec_wsub(x: u64, y: u64) -> u64 {
    (x - y) as u64
}

/// Wrapping subtraction on words.
pub fn wsub(x: u64, y: u64) -> (r: u64)
    ensures
        r == spec_wsub(x, y),
{
    if x >= y {
        proof {
            r_eq_direct(x, y);
        }
        x - y
    } else {
        proof {
            r_eq_wrapped(x, y);
        }
        (x + (u64::MAX - y)) + 1
    }
}

/// In-range wrapping subtraction is plain subtraction.
proof fn r_eq_direct(x: u64, y: u64)
    requires
        x >= y,
    ensures
        spec_wsub(x, y) == x - y,
{
}

/// Out-of-range wrapping subtraction comes back around.
proof fn r_eq_wrapped(x: u64, y: u64)
    requires
        x < y,
    ensures
        spec_wsub(x, y) == x + (u64::MAX - y) + 1,
{
    assert(((x - y) as u64) == x + (0xffffffffffffffffu64 - y) + 1) by (bit_vector)
        requires
            x < y,
    ;
}

/// The byte in lane `j` of the word `w`.
pub open spec fn lane_byte(w: u64, j: u64) -> u8 {
    if j == 0 {
        (w & 0xff) as u8
    } else if j == 1 {
        ((w >> 8) & 0xff) as u8
    } else if j == 2 {
        ((w >> 16) & 0xff) as u8
    } else if j == 3 {
        ((w >> 24) & 0xff) as u8
    } else if j == 4 {
        ((w >> 32) & 0xff) as u8
    } else if j == 5 {
        ((w >> 40) & 0xff) as u8
    } else if j == 6 {
        ((w >> 48) & 0xff) as u8
    } else {
        ((w >> 56) & 0xff) as u8
    }
}

/// Whether the high bit of lane `j` is set in `h`.
pub open spec fn hit_at(h: u64, j: u64) -> bool {
    if j == 0 {
        (h >> 7) & 1 == 1
    } else if j == 1 {
        (h >> 15) & 1 == 1
    } else if j == 2 {
        (h >> 23) & 1 == 1
    } else if j == 3 {
        (h >> 31) & 1 == 1
    } else if j == 4 {
        (h >> 39) & 1 == 1
    } else if j == 5 {
        (h >> 47) & 1 == 1
    } else if j == 6 {
        (h >> 55) & 1 == 1
    } else {
        (h >> 63) & 1 == 1
    }
}

/// Eight bytes assembled into a little-endian word.
pub open spec fn word_of(
    b0: u8,
    b1: u8,
    b2: u8,
    b3: u8,
    b4: u8,
    b5: u8,
    b6: u8,
    b7: u8,
) -> u64 {
    (b0 as u64) | (b1 as u64) << 8 | (b2 as u64) << 16 | (b3 as u64) << 24 | (b4 as u64) << 32 | (
    b5 as u64) << 40 | (b6 as u64) << 48 | (b7 as u64) << 56
}

/// The lanes of an assembled word are the bytes it was assembled from.
proof fn lemma_word_lanes(b0: u8, b1: u8, b2: u8, b3: u8, b4: u8, b5: u8, b6: u8, b7: u8)
    by (bit_vector)
    ensures
        lane_byte(word_of(b0, b1, b2, b3, b4, b5, b6, b7), 0) == b0,
        lane_byte(word_of(b0, b1, b2, b3, b4, b5, b6, b7), 1) == b1,
        lane_byte(word_of(b0, b1, b2, b3, b4, b5, b6, b7), 2) == b2,
        lane_byte(word_of(b0, b1, b2, b3, b4, b5, b6, b7), 3) == b3,
        lane_byte(word_of(b0, b1, b2, b3, b4, b5, b6, b7), 4) == b4,
        lane_byte(word_of(b0, b1, b2, b3, b4, b5, b6, b7), 5) == b5,
        lane_byte(word_of(b0, b1, b2, b3, b4, b5, b6, b7), 6) == b6,
        lane_byte(word_of(b0, b1, b2, b3, b4, b5, b6, b7), 7) == b7,
{
}

/// The word whose lanes are `input[p..p + 8]`.
pub open spec fn word_at(input: Seq<u8>, p: int) -> u64 {
    word_of(
        input[p],
        input[p + 1],
        input[p + 2],
        input[p + 3],
        input[p + 4],
        input[p + 5],
        input[p + 6],
        input[p + 7],
    )
}

/// A masked word other than zero has a set lane bit.
proof fn lemma_masked_nonzero_has_hit(h: u64)
    by (bit_vector)
    requires
        h & HIGH_BITS == h,
        h != 0,
    ensures
        hit_at(h, 0) || hit_at(h, 1) || hit_at(h, 2) || hit_at(h, 3) || hit_at(h, 4) || hit_at(
            h,
            5,
        ) || hit_at(h, 6) || hit_at(h, 7),
{
}

/// The lane of the lowest set lane bit of `h`; meaningful when some lane bit
/// is set.
pub open spec fn first_hit_lane(h: u64) -> u64 {
    if hit_at(h, 0) {
        0
    } else if hit_at(h, 1) {
        1
    } else if hit_at(h, 2) {
        2
    } else if hit_at(h, 3) {
        3
    } else if hit_at(h, 4) {
        4
    } else if hit_at(h, 5) {
        5
    } else if hit_at(h, 6) {
        6
    } else {
        7
    }
}

/// A condition on bytes, together with a word-parallel formula for it.
///
/// `spec_intermediate` models the branch-free formula; after masking with
/// [`HIGH_BITS`], the high bit of a lane flags the condition there. The
/// formulas borrow across lanes: `lemma_exact` states that a lane bit is
/// exact provided no lane below it satisfies the condition, and, for the
/// finders whose formula has further blind spots, provided the word
/// satisfies `faithful_for`.
pub trait ByteFinder: Copy + Sized {
    /// The byte condition this finder decides.
    spec fn matches(self, b: u8) -> bool;

    /// The model of the word-parallel formula, before masking.
    spec fn spec_intermediate(self, w: u64) -> u64;

    /// The words on which the masked formula is lane-exact below the first
    /// match.
    spec fn faithful_for(self, w: u64) -> bool;

    /// Compute the word-parallel formula.
    fn intermediate(self, haystack: u64) -> (r: u64)
        ensures
            r == self.spec_intermediate(haystack),
    ;

    /// Decide the condition on one byte.
    fn slow_cmp(self, other: u8) -> (r: bool)
        ensures
            r == self.matches(other),
    ;

    /// On a faithful word, the lane bit of the first lane not preceded by a
    /// match flags exactly whether that lane matches.
    proof fn lemma_exact(self, w: u64, j: u64)
        requires
            self.faithful_for(w),
            j < 8,
            forall|k: u64| k < j ==> !self.matches(lane_byte(w, k)),
        ensures
            hit_at(self.spec_intermediate(w) & HIGH_BITS, j) <==> self.matches(lane_byte(w, j)),
    ;
}

/// The equality formula: in `x = w ^ repeat8(c)` a matching lane is zero,
/// and `(x - LOW_BITS) & !x` raises its high bit.
pub open spec fn eq_intermediate(w: u64, c: u8) -> u64 {
    let x = w ^ repeat8(c as u64);
    spec_wsub(x, LOW_BITS) & !x
}

/// Lane-exactness of the equality formula: a lane bit whose lower lanes do
/// not match is set exactly when its lane equals `c`.
proof fn lemma_eq_lanes(w: u64, c: u8)
    by (bit_vector)
    ensures
        hit_at(eq_intermediate(w, c) & HIGH_BITS, 0) <==> lane_byte(w, 0) == c,
        lane_byte(w, 0) != c ==> (hit_at(eq_intermediate(w, c) & HIGH_BITS, 1) <==> lane_byte(w, 1)
            == c),
        lane_byte(w, 0) != c && lane_byte(w, 1) != c ==> (hit_at(
            eq_intermediate(w, c) & HIGH_BITS,
            2,
        ) <==> lane_byte(w, 2) == c),
        lane_byte(w, 0) != c && lane_byte(w, 1) != c && lane_byte(w, 2) != c ==> (hit_at(
            eq_intermediate(w, c) & HIGH_BITS,
            3,
        ) <==> lane_byte(w, 3) == c),
        lane_byte(w, 0) != c && lane_byte(w, 1) != c && lane_byte(w, 2) != c && lane_byte(w, 3)
            != c ==> (hit_at(eq_intermediate(w, c) & HIGH_BITS, 4) <==> lane_byte(w, 4) == c),
        lane_byte(w, 0) != c && lane_byte(w, 1) != c && lane_byte(w, 2) != c && lane_byte(w, 3)
            != c && lane_byte(w, 4) != c ==> (hit_at(eq_intermediate(w, c) & HIGH_BITS, 5)
            <==> lane_byte(w, 5) == c),
        lane_byte(w, 0) != c && lane_byte(w, 1) != c && lane_byte(w, 2) != c && lane_byte(w, 3)
            != c && lane_byte(w, 4) != c && lane_byte(w, 5) != c ==> (hit_at(
            eq_intermediate(w, c) & HIGH_BITS,
            6,
        ) <==> lane_byte(w, 6) == c),
        lane_byte(w, 0) != c && lane_byte(w, 1) != c && lane_byte(w, 2) != c && lane_byte(w, 3)
            != c && lane_byte(w, 4) != c && lane_byte(w, 5) != c && lane_byte(w, 6) != c ==> (
        hit_at(eq_intermediate(w, c) & HIGH_BITS, 7) <==> lane_byte(w, 7) == c),
{
}

/// A finder for bytes equal to `b`.
#[derive(Clone, Copy)]
pub struct EqByte {
    /// The byte to compare with.
    pub b: u8,
}

/// Return a byte finder representing `== b`.
pub fn eq(b: u8) -> (r: EqByte)
    ensures
        r == (EqByte { b }),
{
    EqByte { b }
}

impl ByteFinder for EqByte {
    open spec fn matches(self, b: u8) -> bool {
        b == self.b
    }

    open spec fn spec_intermediate(self, w: u64) -> u64 {
        eq_intermediate(w, self.b)
    }

    open spec fn faithful_for(self, w: u64) -> bool {
        true
    }

    fn intermediate(self, haystack: u64) -> (r: u64) {
        let c = self.b as u64;
        let rep = c | c << 8 | c << 16 | c << 24 | c << 32 | c << 40 | c << 48 | c << 56;
        let x = haystack ^ rep;
        wsub(x, LOW_BITS) & !x
    }

    fn slow_cmp(self, other: u8) -> (r: bool) {
        other == self.b
    }

    proof fn lemma_exact(self, w: u64, j: u64) {
        lemma_eq_lanes(w, self.b);
        if j == 1 {
            assert(!self.matches(lane_byte(w, 0)));
        } else if j == 2 {
            assert(!self.matches(lane_byte(w, 0)));
            assert(!self.matches(lane_byte(w, 1)));
        } else if j == 3 {
            assert(!self.matches(lane_byte(w, 0)));
            assert(!self.matches(lane_byte(w, 1)));
            assert(!self.matches(lane_byte(w, 2)));
        } else if j == 4 {
            assert(!self.matches(lane_byte(w, 0)));
            assert(!self.matches(lane_byte(w, 1)));
            assert(!self.matches(lane_byte(w, 2)));
            assert(!self.matches(lane_byte(w, 3)));
        } else if j == 5 {
            assert(!self.matches(lane_byte(w, 0)));
            assert(!self.matches(lane_byte(w, 1)));
            assert(!self.matches(lane_byte(w, 2)));
            assert(!self.matches(lane_byte(w, 3)));
            assert(!self.matches(lane_byte(w, 4)));
        } else if j == 6 {
            assert(!self.matches(lane_byte(w, 0)));
            assert(!self.matches(lane_byte(w, 1)));
            assert(!self.matches(lane_byte(w, 2)));
            assert(!self.matches(lane_byte(w, 3)));
            assert(!self.matches(lane_byte(w, 4)));
            assert(!self.matches(lane_byte(w, 5)));
        } else if j == 7 {
            assert(!self.matches(lane_byte(w, 0)));
            assert(!self.matches(lane_byte(w, 1)));
            assert(!self.matches(lane_byte(w, 2)));
            assert(!self.matches(lane_byte(w, 3)));
            assert(!self.matches(lane_byte(w, 4)));
            assert(!self.matches(lane_byte(w, 5)));
            assert(!self.matches(lane_byte(w, 6)));
        }
    }
}

/// The inequality formula: the equality formula with every lane bit
/// toggled. Since the equality formula can raise a spurious lane bit just
/// above a run of matches when that lane holds `c ^ 1`, the toggled form
/// misses such a lane; `faithful_for` therefore rules the byte `c ^ 1` out.
pub open spec fn ne_intermediate(w: u64, c: u8) -> u64 {
    eq_intermediate(w, c) ^ HIGH_BITS
}

/// Lane-exactness of the inequality formula on words without the blind-spot
/// byte `c ^ 1`.
proof fn lemma_ne_lanes(w: u64, c: u8)
    by (bit_vector)
    requires
        lane_byte(w, 0) != (c ^ 1) && lane_byte(w, 1) != (c ^ 1) && lane_byte(w, 2) != (c ^ 1)
            && lane_byte(w, 3) != (c ^ 1) && lane_byte(w, 4) != (c ^ 1) && lane_byte(w, 5) != (c
            ^ 1) && lane_byte(w, 6) != (c ^ 1) && lane_byte(w, 7) != (c ^ 1),
    ensures
        hit_at(ne_intermediate(w, c) & HIGH_BITS, 0) <==> lane_byte(w, 0) != c,
        lane_byte(w, 0) == c ==> (hit_at(ne_intermediate(w, c) & HIGH_BITS, 1) <==> lane_byte(w, 1)
            != c),
        lane_byte(w, 0) == c && lane_byte(w, 1) == c ==> (hit_at(
            ne_intermediate(w, c) & HIGH_BITS,
            2,
        ) <==> lane_byte(w, 2) != c),
        lane_byte(w, 0) == c && lane_byte(w, 1) == c && lane_byte(w, 2) == c ==> (hit_at(
            ne_intermediate(w, c) & HIGH_BITS,
            3,
        ) <==> lane_byte(w, 3) != c),
        lane_byte(w, 0) == c && lane_byte(w, 1) == c && lane_byte(w, 2) == c && lane_byte(w, 3)
            == c ==> (hit_at(ne_intermediate(w, c) & HIGH_BITS, 4) <==> lane_byte(w, 4) != c),
        lane_byte(w, 0) == c && lane_byte(w, 1) == c && lane_byte(w, 2) == c && lane_byte(w, 3)
            == c && lane_byte(w, 4) == c ==> (hit_at(ne_intermediate(w, c) & HIGH_BITS, 5)
            <==> lane_byte(w, 5) != c),
        lane_byte(w, 0) == c && lane_byte(w, 1) == c && lane_byte(w, 2) == c && lane_byte(w, 3)
            == c && lane_byte(w, 4) == c && lane_byte(w, 5) == c ==> (hit_at(
            ne_intermediate(w, c) & HIGH_BITS,
            6,
        ) <==> lane_byte(w, 6) != c),
        lane_byte(w, 0) == c && lane_byte(w, 1) == c && lane_byte(w, 2) == c && lane_byte(w, 3)
            == c && lane_byte(w, 4) == c && lane_byte(w, 5) == c && lane_byte(w, 6) == c ==> (
        hit_at(ne_intermediate(w, c) & HIGH_BITS, 7) <==> lane_byte(w, 7) != c),
{
}

/// A finder for bytes other than `b`. Its word formula has a blind spot: a
/// lane holding `b ^ 1` directly above a run of `b` lanes is missed, so the
/// fast path is exact only on words without the byte `b ^ 1`.
#[derive(Clone, Copy)]
pub struct NeByte {
    /// The byte to compare with.
    pub b: u8,
}

/// Return a byte finder representing `!= b`.
pub fn ne(b: u8) -> (r: NeByte)
    ensures
        r == (NeByte { b }),
{
    NeByte { b }
}

impl ByteFinder for NeByte {
    open spec fn matches(self, b: u8) -> bool {
        b != self.b
    }

    open spec fn spec_intermediate(self, w: u64) -> u64 {
        ne_intermediate(w, self.b)
    }

    open spec fn faithful_for(self, w: u64) -> bool {
        forall|k: u64| k < 8 ==> lane_byte(w, k) != (self.b ^ 1)
    }

    fn intermediate(self, haystack: u64) -> (r: u64) {
        let c = self.b as u64;
        let rep = c | c << 8 | c << 16 | c << 24 | c << 32 | c << 40 | c << 48 | c << 56;
        let x = haystack ^ rep;
        (wsub(x, LOW_BITS) & !x) ^ HIGH_BITS
    }

    fn slow_cmp(self, other: u8) -> (r: bool) {
        other != self.b
    }

    proof fn lemma_exact(self, w: u64, j: u64) {
        assert forall|k: u64| k < 8 implies lane_byte(w, k) != (self.b ^ 1) by {
        }
        lemma_ne_lanes(w, self.b);
        if j == 1 {
            assert(!self.matches(lane_byte(w, 0)));
        } else if j == 2 {
            assert(!self.matches(lane_byte(w, 0)));
            assert(!self.matches(lane_byte(w, 1)));
        } else if j == 3 {
            assert(!self.matches(lane_byte(w, 0)));
            assert(!self.matches(lane_byte(w, 1)));
            assert(!self.matches(lane_byte(w, 2)));
        } else if j == 4 {
            assert(!self.matches(lane_byte(w, 0)));
            assert(!self.matches(lane_byte(w, 1)));
            assert(!self.matches(lane_byte(w, 2)));
            assert(!self.matches(lane_byte(w, 3)));
        } else if j == 5 {
            assert(!self.matches(lane_byte(w, 0)));
            assert(!self.matches(lane_byte(w, 1)));
            assert(!self.matches(lane_byte(w, 2)));
            assert(!self.matches(lane_byte(w, 3)));
            assert(!self.matches(lane_byte(w, 4)));
        } else if j == 6 {
            assert(!self.matches(lane_byte(w, 0)));
            assert(!self.matches(lane_byte(w, 1)));
            assert(!self.matches(lane_byte(w, 2)));
            assert(!self.matches(lane_byte(w, 3)));
            assert(!self.matches(lane_byte(w, 4)));
            assert(!self.matches(lane_byte(w, 5)));
        } else if j == 7 {
            assert(!self.matches(lane_byte(w, 0)));
            assert(!self.matches(lane_byte(w, 1)));
            assert(!self.matches(lane_byte(w, 2)));
            assert(!self.matches(lane_byte(w, 3)));
            assert(!self.matches(lane_byte(w, 4)));
            assert(!self.matches(lane_byte(w, 5)));
            assert(!self.matches(lane_byte(w, 6)));
        }
    }
}

/// The less-than formula: subtracting the word from itself lane-by-lane
/// against `repeat8(c)` borrows exactly in the lanes below `c`, provided
/// `c` is at most 128.
pub open spec fn lt_intermediate(w: u64, c: u8) -> u64 {
    spec_wsub(w, repeat8(c as u64)) & !w
}

/// Lane-exactness of the less-than formula for `c` at most 128.
proof fn lemma_lt_lanes(w: u64, c: u8)
    by (bit_vector)
    requires
        c <= 128,
    ensures
        hit_at(lt_intermediate(w, c) & HIGH_BITS, 0) <==> lane_byte(w, 0) < c,
        lane_byte(w, 0) >= c ==> (hit_at(lt_intermediate(w, c) & HIGH_BITS, 1) <==> lane_byte(w, 1)
            < c),
        lane_byte(w, 0) >= c && lane_byte(w, 1) >= c ==> (hit_at(
            lt_intermediate(w, c) & HIGH_BITS,
            2,
        ) <==> lane_byte(w, 2) < c),
        lane_byte(w, 0) >= c && lane_byte(w, 1) >= c && lane_byte(w, 2) >= c ==> (hit_at(
            lt_intermediate(w, c) & HIGH_BITS,
            3,
        ) <==> lane_byte(w, 3) < c),
        lane_byte(w, 0) >= c && lane_byte(w, 1) >= c && lane_byte(w, 2) >= c && lane_byte(w, 3)
            >= c ==> (hit_at(lt_intermediate(w, c) & HIGH_BITS, 4) <==> lane_byte(w, 4) < c),
        lane_byte(w, 0) >= c && lane_byte(w, 1) >= c && lane_byte(w, 2) >= c && lane_byte(w, 3)
            >= c && lane_byte(w, 4) >= c ==> (hit_at(lt_intermediate(w, c) & HIGH_BITS, 5)
            <==> lane_byte(w, 5) < c),
        lane_byte(w, 0) >= c && lane_byte(w, 1) >= c && lane_byte(w, 2) >= c && lane_byte(w, 3)
            >= c && lane_byte(w, 4) >= c && lane_byte(w, 5) >= c ==> (hit_at(
            lt_intermediate(w, c) & HIGH_BITS,
            6,
        ) <==> lane_byte(w, 6) < c),
        lane_byte(w, 0) >= c && lane_byte(w, 1) >= c && lane_byte(w, 2) >= c && lane_byte(w, 3)
            >= c && lane_byte(w, 4) >= c && lane_byte(w, 5) >= c && lane_byte(w, 6) >= c ==> (
        hit_at(lt_intermediate(w, c) & HIGH_BITS, 7) <==> lane_byte(w, 7) < c),
{
}

/// A finder for bytes smaller than `b`. Its word formula is exact only for
/// `b` at most 128.
#[derive(Clone, Copy)]
pub struct LtByte {
    /// The byte to compare with.
    pub b: u8,
}

/// Return a byte finder representing `< b`.
pub fn lt(b: u8) -> (r: LtByte)
    ensures
        r == (LtByte { b }),
{
    LtByte { b }
}

impl ByteFinder for LtByte {
    open spec fn matches(self, b: u8) -> bool {
        b < self.b
    }

    open spec fn spec_intermediate(self, w: u64) -> u64 {
        lt_intermediate(w, self.b)
    }

    open spec fn faithful_for(self, w: u64) -> bool {
        self.b <= 128
    }

    fn intermediate(self, haystack: u64) -> (r: u64) {
        let c = self.b as u64;
        let rep = c | c << 8 | c << 16 | c << 24 | c << 32 | c << 40 | c << 48 | c << 56;
        wsub(haystack, rep) & !haystack
    }

    fn slow_cmp(self, other: u8) -> (r: bool) {
        other < self.b
    }

    proof fn lemma_exact(self, w: u64, j: u64) {
        lemma_lt_lanes(w, self.b);
        if j == 1 {
            assert(!self.matches(lane_byte(w, 0)));
        } else if j == 2 {
            assert(!self.matches(lane_byte(w, 0)));
            assert(!self.matches(lane_byte(w, 1)));
        } else if j == 3 {
            assert(!self.matches(lane_byte(w, 0)));
            assert(!self.matches(lane_byte(w, 1)));
            assert(!self.matches(lane_byte(w, 2)));
        } else if j == 4 {
            assert(!self.matches(lane_byte(w, 0)));
            assert(!self.matches(lane_byte(w, 1)));
            assert(!self.matches(lane_byte(w, 2)));
            assert(!self.matches(lane_byte(w, 3)));
        } else if j == 5 {
            assert(!self.matches(lane_byte(w, 0)));
            assert(!self.matches(lane_byte(w, 1)));
            assert(!self.matches(lane_byte(w, 2)));
            assert(!self.matches(lane_byte(w, 3)));
            assert(!self.matches(lane_byte(w, 4)));
        } else if j == 6 {
            assert(!self.matches(lane_byte(w, 0)));
            assert(!self.matches(lane_byte(w, 1)));
            assert(!self.matches(lane_byte(w, 2)));
            assert(!self.matches(lane_byte(w, 3)));
            assert(!self.matches(lane_byte(w, 4)));
            assert(!self.matches(lane_byte(w, 5)));
        } else if j == 7 {
            assert(!self.matches(lane_byte(w, 0)));
            assert(!self.matches(lane_byte(w, 1)));
            assert(!self.matches(lane_byte(w, 2)));
            assert(!self.matches(lane_byte(w, 3)));
            assert(!self.matches(lane_byte(w, 4)));
            assert(!self.matches(lane_byte(w, 5)));
            assert(!self.matches(lane_byte(w, 6)));
        }
    }
}

/// The greater-than formula: subtracting the word lane-by-lane from
/// `repeat8(c)` borrows exactly in the lanes above `c`, provided `c` is at
/// most 127 and no matching lane exceeds `c` by more than 128.
pub open spec fn gt_intermediate(w: u64, c: u8) -> u64 {
    let rep = repeat8(c as u64);
    spec_wsub(rep, w) & !rep
}

/// Lane-exactness of the greater-than formula for small `c` and lanes not
/// too far above it.
proof fn lemma_gt_lanes(w: u64, c: u8)
    by (bit_vector)
    requires
        c <= 127,
        lane_byte(w, 0) > c ==> lane_byte(w, 0) <= c + 128,
        lane_byte(w, 1) > c ==> lane_byte(w, 1) <= c + 128,
        lane_byte(w, 2) > c ==> lane_byte(w, 2) <= c + 128,
        lane_byte(w, 3) > c ==> lane_byte(w, 3) <= c + 128,
        lane_byte(w, 4) > c ==> lane_byte(w, 4) <= c + 128,
        lane_byte(w, 5) > c ==> lane_byte(w, 5) <= c + 128,
        lane_byte(w, 6) > c ==> lane_byte(w, 6) <= c + 128,
        lane_byte(w, 7) > c ==> lane_byte(w, 7) <= c + 128,
    ensures
        hit_at(gt_intermediate(w, c) & HIGH_BITS, 0) <==> lane_byte(w, 0) > c,
        lane_byte(w, 0) <= c ==> (hit_at(gt_intermediate(w, c) & HIGH_BITS, 1) <==> lane_byte(w, 1)
            > c),
        lane_byte(w, 0) <= c && lane_byte(w, 1) <= c ==> (hit_at(
            gt_intermediate(w, c) & HIGH_BITS,
            2,
        ) <==> lane_byte(w, 2) > c),
        lane_byte(w, 0) <= c && lane_byte(w, 1) <= c && lane_byte(w, 2) <= c ==> (hit_at(
            gt_intermediate(w, c) & HIGH_BITS,
            3,
        ) <==> lane_byte(w, 3) > c),
        lane_byte(w, 0) <= c && lane_byte(w, 1) <= c && lane_byte(w, 2) <= c && lane_byte(w, 3)
            <= c ==> (hit_at(gt_intermediate(w, c) & HIGH_BITS, 4) <==> lane_byte(w, 4) > c),
        lane_byte(w, 0) <= c && lane_byte(w, 1) <= c && lane_byte(w, 2) <= c && lane_byte(w, 3)
            <= c && lane_byte(w, 4) <= c ==> (hit_at(gt_intermediate(w, c) & HIGH_BITS, 5)
            <==> lane_byte(w, 5) > c),
        lane_byte(w, 0) <= c && lane_byte(w, 1) <= c && lane_byte(w, 2) <= c && lane_byte(w, 3)
            <= c && lane_byte(w, 4) <= c && lane_byte(w, 5) <= c ==> (hit_at(
            gt_intermediate(w, c) & HIGH_BITS,
            6,
        ) <==> lane_byte(w, 6) > c),
        lane_byte(w, 0) <= c && lane_byte(w, 1) <= c && lane_byte(w, 2) <= c && lane_byte(w, 3)
            <= c && lane_byte(w, 4) <= c && lane_byte(w, 5) <= c && lane_byte(w, 6) <= c ==> (
        hit_at(gt_intermediate(w, c) & HIGH_BITS, 7) <==> lane_byte(w, 7) > c),
{
}

/// A finder for bytes greater than `b`. Its word formula is exact only for
/// `b` at most 127, on words whose matching bytes exceed `b` by at most 128.
#[derive(Clone, Copy)]
pub struct GtByte {
    /// The byte to compare with.
    pub b: u8,
}

/// Return a byte finder representing `> b`.
pub fn gt(b: u8) -> (r: GtByte)
    ensures
        r == (GtByte { b }),
{
    GtByte { b }
}

impl ByteFinder for GtByte {
    open spec fn matches(self, b: u8) -> bool {
        b > self.b
    }

    open spec fn spec_intermediate(self, w: u64) -> u64 {
        gt_intermediate(w, self.b)
    }

    open spec fn faithful_for(self, w: u64) -> bool {
        self.b <= 127 && (forall|k: u64|
            k < 8 && lane_byte(w, k) > self.b ==> lane_byte(w, k) <= self.b + 128)
    }

    fn intermediate(self, haystack: u64) -> (r: u64) {
        let c = self.b as u64;
        let rep = c | c << 8 | c << 16 | c << 24 | c << 32 | c << 40 | c << 48 | c << 56;
        wsub(rep, haystack) & !rep
    }

    fn slow_cmp(self, other: u8) -> (r: bool) {
        other > self.b
    }

    proof fn lemma_exact(self, w: u64, j: u64) {
        assert forall|k: u64| k < 8 && lane_byte(w, k) > self.b implies lane_byte(w, k) <= self.b
            + 128 by {
        }
        lemma_gt_lanes(w, self.b);
        if j == 1 {
            assert(!self.matches(lane_byte(w, 0)));
        } else if j == 2 {
            assert(!self.matches(lane_byte(w, 0)));
            assert(!self.matches(lane_byte(w, 1)));
        } else if j == 3 {
            assert(!self.matches(lane_byte(w, 0)));
            assert(!self.matches(lane_byte(w, 1)));
            assert(!self.matches(lane_byte(w, 2)));
        } else if j == 4 {
            assert(!self.matches(lane_byte(w, 0)));
            assert(!self.matches(lane_byte(w, 1)));
            assert(!self.matches(lane_byte(w, 2)));
            assert(!self.matches(lane_byte(w, 3)));
        } else if j == 5 {
            assert(!self.matches(lane_byte(w, 0)));
            assert(!self.matches(lane_byte(w, 1)));
            assert(!self.matches(lane_byte(w, 2)));
            assert(!self.matches(lane_byte(w, 3)));
            assert(!self.matches(lane_byte(w, 4)));
        } else if j == 6 {
            assert(!self.matches(lane_byte(w, 0)));
            assert(!self.matches(lane_byte(w, 1)));
            assert(!self.matches(lane_byte(w, 2)));
            assert(!self.matches(lane_byte(w, 3)));
            assert(!self.matches(lane_byte(w, 4)));
            assert(!self.matches(lane_byte(w, 5)));
        } else if j == 7 {
            assert(!self.matches(lane_byte(w, 0)));
            assert(!self.matches(lane_byte(w, 1)));
            assert(!self.matches(lane_byte(w, 2)));
            assert(!self.matches(lane_byte(w, 3)));
            assert(!self.matches(lane_byte(w, 4)));
            assert(!self.matches(lane_byte(w, 5)));
            assert(!self.matches(lane_byte(w, 6)));
        }
    }
}

/// Lane bits of a union of intermediates are the union of the lane bits.
proof fn lemma_hit_or(x: u64, y: u64, j: u64)
    by (bit_vector)
    requires
        j < 8,
    ensures
        hit_at((x | y) & HIGH_BITS, j) == (hit_at(x & HIGH_BITS, j) || hit_at(y & HIGH_BITS, j)),
{
}

/// Two finders combined with a logical or: a byte matches when either side
/// matches, and the intermediates are combined before the final mask.
#[derive(Clone, Copy)]
pub struct OrByte<A, B> {
    /// The first finder.
    pub a: A,
    /// The second finder.
    pub b: B,
}

/// Combine two byte finders into one matching what either of them matches.
pub fn or_byte<A, B>(a: A, b: B) -> (r: OrByte<A, B>)
    ensures
        r == (OrByte { a, b }),
{
    OrByte { a, b }
}

impl<A: ByteFinder, B: ByteFinder> ByteFinder for OrByte<A, B> {
    open spec fn matches(self, b: u8) -> bool {
        self.a.matches(b) || self.b.matches(b)
    }

    open spec fn spec_intermediate(self, w: u64) -> u64 {
        self.a.spec_intermediate(w) | self.b.spec_intermediate(w)
    }

    open spec fn faithful_for(self, w: u64) -> bool {
        self.a.faithful_for(w) && self.b.faithful_for(w)
    }

    fn intermediate(self, haystack: u64) -> (r: u64) {
        self.a.intermediate(haystack) | self.b.intermediate(haystack)
    }

    fn slow_cmp(self, other: u8) -> (r: bool) {
        self.a.slow_cmp(other) || self.b.slow_cmp(other)
    }

    proof fn lemma_exact(self, w: u64, j: u64) {
        assert forall|k: u64| k < j implies !self.a.matches(lane_byte(w, k)) && !self.b.matches(
            lane_byte(w, k),
        ) by {
            assert(!self.matches(lane_byte(w, k)));
        }
        self.a.lemma_exact(w, j);
        self.b.lemma_exact(w, j);
        lemma_hit_or(self.a.spec_intermediate(w), self.b.spec_intermediate(w), j);
    }
}

/// No lane bit is set in the zero word.
proof fn lemma_no_hits_zero(h: u64, j: u64)
    by (bit_vector)
    requires
        h == 0,
        j < 8,
    ensures
        !hit_at(h, j),
{
}

/// Masking twice is masking once.
proof fn lemma_mask_idem(x: u64)
    by (bit_vector)
    ensures
        (x & HIGH_BITS) & HIGH_BITS == x & HIGH_BITS,
{
}

/// On a faithful word, a zero masked intermediate means no lane matches,
/// and a non-zero one flags the first matching lane.
proof fn lemma_word_exactness<F: ByteFinder>(f: F, w: u64)
    requires
        f.faithful_for(w),
    ensures
        ({
            let h = f.spec_intermediate(w) & HIGH_BITS;
            &&& (h == 0 ==> forall|k: u64| k < 8 ==> !f.matches(lane_byte(w, k)))
            &&& (h != 0 ==> {
                let j = first_hit_lane(h);
                &&& j < 8
                &&& f.matches(lane_byte(w, j))
                &&& (forall|k: u64| k < j ==> !f.matches(lane_byte(w, k)))
            })
        }),
{
    let h = f.spec_intermediate(w) & HIGH_BITS;
    if h == 0 {
        lemma_no_hits_zero(h, 0);
        f.lemma_exact(w, 0);
        lemma_no_hits_zero(h, 1);
        f.lemma_exact(w, 1);
        lemma_no_hits_zero(h, 2);
        f.lemma_exact(w, 2);
        lemma_no_hits_zero(h, 3);
        f.lemma_exact(w, 3);
        lemma_no_hits_zero(h, 4);
        f.lemma_exact(w, 4);
        lemma_no_hits_zero(h, 5);
        f.lemma_exact(w, 5);
        lemma_no_hits_zero(h, 6);
        f.lemma_exact(w, 6);
        lemma_no_hits_zero(h, 7);
        f.lemma_exact(w, 7);
        assert forall|k: u64| k < 8 implies !f.matches(lane_byte(w, k)) by {
            assert(k == 0 || k == 1 || k == 2 || k == 3 || k == 4 || k == 5 || k == 6 || k == 7);
        }
    } else {
        lemma_mask_idem(f.spec_intermediate(w));
        lemma_masked_nonzero_has_hit(h);
        f.lemma_exact(w, 0);
        if !hit_at(h, 0) {
            f.lemma_exact(w, 1);
            if !hit_at(h, 1) {
                f.lemma_exact(w, 2);
                if !hit_at(h, 2) {
                    f.lemma_exact(w, 3);
                    if !hit_at(h, 3) {
                        f.lemma_exact(w, 4);
                        if !hit_at(h, 4) {
                            f.lemma_exact(w, 5);
                            if !hit_at(h, 5) {
                                f.lemma_exact(w, 6);
                                if !hit_at(h, 6) {
                                    f.lemma_exact(w, 7);
                                }
                            }
                        }
                    }
                }
            }
        }
        let j = first_hit_lane(h);
        assert(f.matches(lane_byte(w, j)));
        assert forall|k: u64| k < j implies !f.matches(lane_byte(w, k)) by {
            assert(k == 0 || k == 1 || k == 2 || k == 3 || k == 4 || k == 5 || k == 6);
        }
    }
}

/// The first position at or after `pos` whose byte satisfies the finder,
/// found one byte at a time.
pub open spec fn spec_scalar_find<F: ByteFinder>(f: F, input: Seq<u8>, pos: int) -> Option<int>
    decreases input.len() - pos when 0 <= pos <= input.len()
{
    if pos >= input.len() {
        None
    } else if f.matches(input[pos]) {
        Some(pos)
    } else {
        spec_scalar_find(f, input, pos + 1)
    }
}

/// What the byte-at-a-time search yields is the first match.
pub proof fn lemma_scalar_find<F: ByteFinder>(f: F, input: Seq<u8>, pos: int)
    requires
        0 <= pos <= input.len(),
    ensures
        (match spec_scalar_find(f, input, pos) {
            Some(at) => {
                &&& pos <= at < input.len()
                &&& f.matches(input[at])
                &&& (forall|i: int| pos <= i < at ==> !f.matches(input[i]))
            },
            None => forall|i: int| pos <= i < input.len() ==> !f.matches(input[i]),
        }),
    decreases input.len() - pos,
{
    if pos < input.len() && !f.matches(input[pos]) {
        lemma_scalar_find(f, input, pos + 1);
    }
}

/// A byte-at-a-time search skips positions without a match.
proof fn lemma_scalar_skip<F: ByteFinder>(f: F, input: Seq<u8>, pos: int, to: int)
    requires
        0 <= pos <= to <= input.len(),
        forall|i: int| pos <= i < to ==> !f.matches(input[i]),
    ensures
        spec_scalar_find(f, input, pos) == spec_scalar_find(f, input, to),
    decreases to - pos,
{
    if pos < to {
        lemma_scalar_skip(f, input, pos + 1, to);
    }
}

/// A byte-at-a-time search finds a match not preceded by one.
proof fn lemma_scalar_find_at<F: ByteFinder>(f: F, input: Seq<u8>, pos: int, at: int)
    requires
        0 <= pos <= at < input.len(),
        f.matches(input[at]),
        forall|i: int| pos <= i < at ==> !f.matches(input[i]),
    ensures
        spec_scalar_find(f, input, pos) == Some(at),
    decreases at - pos,
{
    if pos < at {
        lemma_scalar_find_at(f, input, pos + 1, at);
    }
}

/// The word-stepping search: from `pos`, whole words are tested with the
/// finder's word formula and skipped while their masked intermediate is
/// zero; a non-zero intermediate yields the position of its first flagged
/// lane, and fewer than eight remaining bytes are searched one at a time.
pub open spec fn spec_swar_find<F: ByteFinder>(f: F, input: Seq<u8>, pos: int) -> Option<int>
    decreases input.len() - pos when 0 <= pos <= input.len()
{
    if pos + 8 <= input.len() {
        let h = f.spec_intermediate(word_at(input, pos)) & HIGH_BITS;
        if h == 0 {
            spec_swar_find(f, input, pos + 8)
        } else {
            Some(pos + first_hit_lane(h))
        }
    } else {
        spec_scalar_find(f, input, pos)
    }
}

/// What the word-stepping search yields lies between `pos` and the end of
/// the input.
pub proof fn lemma_swar_find_bounds<F: ByteFinder>(f: F, input: Seq<u8>, pos: int)
    requires
        0 <= pos <= input.len(),
    ensures
        (match spec_swar_find(f, input, pos) {
            Some(at) => pos <= at < input.len(),
            None => true,
        }),
    decreases input.len() - pos,
{
    if pos + 8 <= input.len() {
        let h = f.spec_intermediate(word_at(input, pos)) & HIGH_BITS;
        if h == 0 {
            lemma_swar_find_bounds(f, input, pos + 8);
        }
    } else {
        lemma_scalar_find(f, input, pos);
    }
}

/// The lanes of the word at `p` are the bytes at `p..p + 8`.
proof fn lemma_word_at_lanes(input: Seq<u8>, p: int)
    requires
        0 <= p && p + 8 <= input.len(),
    ensures
        forall|k: u64| k < 8 ==> lane_byte(word_at(input, p), k) == input[p + k],
{
    lemma_word_lanes(
        input[p],
        input[p + 1],
        input[p + 2],
        input[p + 3],
        input[p + 4],
        input[p + 5],
        input[p + 6],
        input[p + 7],
    );
    assert forall|k: u64| k < 8 implies lane_byte(word_at(input, p), k) == input[p + k] by {
        assert(k == 0 || k == 1 || k == 2 || k == 3 || k == 4 || k == 5 || k == 6 || k == 7);
    }
}

/// On inputs whose every in-range word is faithful for the finder, the
/// word-stepping search agrees exactly with the byte-at-a-time search.
/// For an equality finder, and for or-combinations of equality finders,
/// every word is faithful, so the two searches always agree.
pub proof fn lemma_swar_find_exact<F: ByteFinder>(f: F, input: Seq<u8>, pos: int)
    requires
        0 <= pos <= input.len(),
        forall|p: int|
            pos <= p && p + 8 <= input.len() ==> f.faithful_for(#[trigger] word_at(input, p)),
    ensures
        spec_swar_find(f, input, pos) == spec_scalar_find(f, input, pos),
    decreases input.len() - pos,
{
    if pos + 8 <= input.len() {
        let w = word_at(input, pos);
        let h = f.spec_intermediate(w) & HIGH_BITS;
        lemma_word_exactness(f, w);
        lemma_word_at_lanes(input, pos);
        if h == 0 {
            assert forall|i: int| pos <= i < pos + 8 implies !f.matches(input[i]) by {
                let k = (i - pos) as u64;
                assert(!f.matches(lane_byte(w, k)));
            }
            lemma_scalar_skip(f, input, pos, pos + 8);
            lemma_swar_find_exact(f, input, pos + 8);
        } else {
            let j = first_hit_lane(h);
            assert(f.matches(input[pos + j]));
            assert forall|i: int| pos <= i < pos + j implies !f.matches(input[i]) by {
                let k = (i - pos) as u64;
                assert(!f.matches(lane_byte(w, k)));
            }
            lemma_scalar_find_at(f, input, pos, pos + j);
        }
    }
}

/// Search for the first byte at or after `pos` that the finder matches,
/// taking the input a word at a time; the byte found and its position are
/// returned, exactly as the word-stepping model describes.
pub fn get_byte_pos<F: ByteFinder>(f: F, input: &[u8], pos: usize) -> (r: Option<(u8, usize)>)
    requires
        pos <= input.len(),
    ensures
        (match r {
            Some((b, at)) => {
                &&& spec_swar_find(f, input@, pos as int) == Some(at as int)
                &&& pos <= at < input@.len()
                &&& b == input@[at as int]
            },
            None => spec_swar_find(f, input@, pos as int) is None,
        }),
{
    let ilen = input.len();
    let mut p = pos;
    while ilen - p >= 8
        invariant
            pos <= p <= ilen == input@.len(),
            spec_swar_find(f, input@, pos as int) == spec_swar_find(f, input@, p as int),
        decreases ilen - p,
    {
        let b0 = *vstd::slice::slice_index_get(input, p);
        let b1 = *vstd::slice::slice_index_get(input, p + 1);
        let b2 = *vstd::slice::slice_index_get(input, p + 2);
        let b3 = *vstd::slice::slice_index_get(input, p + 3);
        let b4 = *vstd::slice::slice_index_get(input, p + 4);
        let b5 = *vstd::slice::slice_index_get(input, p + 5);
        let b6 = *vstd::slice::slice_index_get(input, p + 6);
        let b7 = *vstd::slice::slice_index_get(input, p + 7);
        let w = (b0 as u64) | ((b1 as u64) << 8) | ((b2 as u64) << 16) | ((b3 as u64) << 24) | ((
        b4 as u64) << 32) | ((b5 as u64) << 40) | ((b6 as u64) << 48) | ((b7 as u64) << 56);
        proof {
            assert(w == word_at(input@, p as int));
        }
        let inter = f.intermediate(w);
        let h = inter & HIGH_BITS;
        if h != 0 {
            let j: usize = if (h >> 7) & 1 == 1 {
                0
            } else if (h >> 15) & 1 == 1 {
                1
            } else if (h >> 23) & 1 == 1 {
                2
            } else if (h >> 31) & 1 == 1 {
                3
            } else if (h >> 39) & 1 == 1 {
                4
            } else if (h >> 47) & 1 == 1 {
                5
            } else if (h >> 55) & 1 == 1 {
                6
            } else {
                7
            };
            proof {
                assert(j as u64 == first_hit_lane(h));
            }
            let at = p + j;
            let b = *vstd::slice::slice_index_get(input, at);
            return Some((b, at));
        }
        p = p + 8;
    }
    while p < ilen
        invariant
            pos <= p <= ilen == input@.len(),
            spec_swar_find(f, input@, pos as int) == spec_scalar_find(f, input@, p as int),
        decreases ilen - p,
    {
        let b = *vstd::slice::slice_index_get(input, p);
        if f.slow_cmp(b) {
            return Some((b, p));
        }
        p = p + 1;
    }
    None
}

/// The forward-progress law of the byte search: a search that found a match
/// and consumed it leaves a cursor strictly past the match, so running the
/// same search again from there can only report a strictly later position.
pub proof fn lemma_until_byte_progress<F: ByteFinder>(f: F, input: Seq<u8>, pos: int)
    requires
        0 <= pos <= input.len(),
        spec_swar_find(f, input, pos) is Some,
    ensures
        ({
            let at = spec_swar_find(f, input, pos)->0;
            &&& pos <= at < input.len()
            &&& (match spec_swar_find(f, input, at + 1) {
                Some(at2) => at2 > at,
                None => true,
            })
        }),
{
    lemma_swar_find_bounds(f, input, pos);
    let at = spec_swar_find(f, input, pos)->0;
    lemma_swar_find_bounds(f, input, at + 1);
}

/// A parser that searches for a byte the finder matches. On success the
/// matching byte is the result, and the cursor moves past it when
/// `consume` is set, or right onto it otherwise; the search failing leaves
/// the cursor alone. The search takes the input a word at a time, exactly
/// as [`spec_swar_find`] describes.
#[derive(Clone, Copy)]
pub struct FindByte<F> {
    /// The byte condition searched for.
    pub finder: F,
    /// Whether the matching byte itself is consumed.
    pub consume: bool,
}

/// Find a single byte in the input, processing a word at a time. With
/// `consume_result` the matching byte itself is consumed as well.
pub fn find_byte<F>(finder: F, consume_result: bool) -> (r: FindByte<F>)
    ensures
        r == (FindByte { finder, consume: consume_result }),
{
    FindByte { finder, consume: consume_result }
}

impl<F: ByteFinder> Parser<u8> for FindByte<F> {
    type Out = u8;

    open spec fn spec_run(&self, input: Seq<u8>, pos: int) -> (int, Option<u8>) {
        match spec_swar_find(self.finder, input, pos) {
            Some(at) => (at + (if self.consume {
                1int
            } else {
                0int
            }), Some(input[at])),
            None => (pos, None),
        }
    }

    proof fn lemma_run_bounds(&self, input: Seq<u8>, pos: int) {
        lemma_swar_find_bounds(self.finder, input, pos);
    }

    fn run(&self, input: &[u8], pos: usize) -> (r: (usize, Option<u8>)) {
        proof {
            lemma_swar_find_bounds(self.finder, input@, pos as int);
        }
        match get_byte_pos(self.finder, input, pos) {
            Some((b, at)) => (
                if self.consume {
                    at + 1
                } else {
                    at
                },
                Some(b),
            ),
            None => (pos, None),
        }
    }
}

/// A parser that consumes up to a byte the finder matches and yields the
/// bytes before it. `keep` puts the matching byte into the result as
/// well; `consume` moves the cursor past it. The search failing leaves the
/// cursor alone.
#[derive(Clone, Copy)]
pub struct UntilByte<F> {
    /// The byte condition searched for.
    pub finder: F,
    /// Whether the matching byte is part of the result.
    pub keep: bool,
    /// Whether the matching byte is consumed.
    pub consume: bool,
}

/// Parse until one byte matches, processing a word at a time. The result is
/// the span before the match, the match itself counted with `keep_result`;
/// `consume_result` consumes the matching byte as well.
pub fn until_byte<F>(finder: F, keep_result: bool, consume_result: bool) -> (r: UntilByte<F>)
    ensures
        r == (UntilByte { finder, keep: keep_result, consume: consume_result }),
{
    UntilByte { finder, keep: keep_result, consume: consume_result }
}

impl<F: ByteFinder> Parser<u8> for UntilByte<F> {
    type Out = Vec<u8>;

    open spec fn spec_run(&self, input: Seq<u8>, pos: int) -> (int, Option<Seq<u8>>) {
        match spec_swar_find(self.finder, input, pos) {
            Some(at) => (
                at + (if self.consume {
                    1int
                } else {
                    0int
                }),
                Some(
                    input.subrange(
                        pos,
                        at + (if self.keep {
                            1int
                        } else {
                            0int
                        }),
                    ),
                ),
            ),
            None => (pos, None),
        }
    }

    proof fn lemma_run_bounds(&self, input: Seq<u8>, pos: int) {
        lemma_swar_find_bounds(self.finder, input, pos);
    }

    fn run(&self, input: &[u8], pos: usize) -> (r: (usize, Option<Vec<u8>>)) {
        proof {
            lemma_swar_find_bounds(self.finder, input@, pos as int);
        }
        match get_byte_pos(self.finder, input, pos) {
            Some((_, at)) => {
                let endr = if self.keep {
                    at + 1
                } else {
                    at
                };
                let span = slice_to_vec(slice_subrange(input, pos, endr));
                proof {
                    lemma_vec_deep_view_id(&span);
                }
                (
                    if self.consume {
                        at + 1
                    } else {
                        at
                    },
                    Some(span),
                )
            },
            None => (pos, None),
        }
    }
}

} // verus!
