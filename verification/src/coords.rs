//! World tile coordinates and their hierarchical quadkey encoding.
//!
//! A tile in the global tile pyramid is addressed by `(x, y, zoom)`. For
//! storage and ordering the coordinate is encoded as a quadkey: the sequence
//! of quadrant digits (0..=3) along the path from the root tile down to the
//! tile. An ancestor's quadkey is a strict prefix of every descendant's
//! quadkey.

use vstd::prelude::*;
use crate::MAX_ZOOM_LEVEL;
use crate::ZoomLevel;

verus! {

/// Integer coordinate of a tile in the global tile pyramid.
#[derive(Clone, Copy, Debug, PartialEq, Eq, Structural)]
pub struct WorldTileCoords {
    pub x: i32,
    pub y: i32,
    pub z: ZoomLevel,
}

/// How `(x, y)` pairs are addressed by a tile server.
#[derive(Clone, Copy, Debug, PartialEq, Eq, Structural)]
pub enum TileAddressingScheme {
    /// Origin at the top-left corner; y grows southward.
    XYZ,
    /// Origin at the bottom-left corner; y grows northward.
    TMS,
}

/// Tile coordinate in the addressing scheme requested from a server.
#[derive(Clone, Copy, Debug, PartialEq, Eq, Structural)]
pub struct TileCoords {
    pub x: u32,
    pub y: u32,
    pub z: ZoomLevel,
}

impl WorldTileCoords {
    /// True when this coordinate addresses an actual tile of the pyramid:
    /// the zoom is encodable and `x`, `y` lie inside the `2^z * 2^z` grid.
    pub open spec fn is_valid(self) -> bool {
        &&& self.z <= MAX_ZOOM_LEVEL
        &&& 0 <= self.x < (1u64 << self.z as u64)
        &&& 0 <= self.y < (1u64 << self.z as u64)
    }

    /// The quadrant digit at pyramid level `i` (0-based from the root): bit
    /// `z - 1 - i` of `y` and of `x`, combined as `2 * y_bit + x_bit`.
    pub open spec fn digit_at(self, i: int) -> u8
        recommends
            self.is_valid(),
            0 <= i < self.z,
    {
        let s = (self.z - 1 - i) as u32;
        (2 * (((self.y as u32) >> s) & 1) + (((self.x as u32) >> s) & 1)) as u8
    }

    /// The digit sequence of this coordinate's quadkey.
    pub open spec fn quadkey_digits(self) -> Seq<u8> {
        Seq::new(self.z as nat, |i: int| self.digit_at(i))
    }

    /// Derives the canonical quadkey, or `None` when the coordinate is out
    /// of range.
    pub fn build_quad_key(&self) -> (r: Option<Quadkey>)
        ensures
            match r {
                Some(k) => self.is_valid() && k.digits@ == self.quadkey_digits(),
                None => !self.is_valid(),
            },
    {
        if !(self.z <= MAX_ZOOM_LEVEL) {
            return None;
        }
        let side: u64 = 1u64 << (self.z as u64);
        if !(0 <= self.x && (self.x as u64) < side && 0 <= self.y && (self.y as u64) < side) {
            return None;
        }
        let xu = self.x as u32;
        let yu = self.y as u32;
        let mut digits: Vec<u8> = Vec::new();
        let mut i: u8 = 0;
        while i < self.z
            invariant
                self.is_valid(),
                i <= self.z,
                xu == self.x as u32,
                yu == self.y as u32,
                digits@ == self.quadkey_digits().take(i as int),
            decreases self.z - i,
        {
            let s: u32 = (self.z - 1 - i) as u32;
            let xbit: u32 = (xu >> s) & 1;
            let ybit: u32 = (yu >> s) & 1;
            assert(xbit <= 1 && ybit <= 1) by (bit_vector)
                requires xbit == (xu >> s) & 1 && ybit == (yu >> s) & 1;
            let d: u8 = (2 * ybit + xbit) as u8;
            digits.push(d);
            assert(digits@ == self.quadkey_digits().take(i + 1)) by {
                assert(self.quadkey_digits().take(i + 1)
                    =~= self.quadkey_digits().take(i as int).push(self.digit_at(i as int)));
            }
            i = i + 1;
        }
        assert(digits@ == self.quadkey_digits()) by {
            assert(self.quadkey_digits().take(self.z as int) =~= self.quadkey_digits());
        }
        Some(Quadkey { digits })
    }

    /// The tile coordinate in the XYZ addressing scheme.
    pub open spec fn xyz_tile(self) -> TileCoords {
        TileCoords { x: self.x as u32, y: self.y as u32, z: self.z }
    }

    /// Converts to the coordinate a tile server expects under `scheme`, or
    /// `None` when the coordinate is out of range.
    pub fn into_tile(&self, scheme: TileAddressingScheme) -> (r: Option<TileCoords>)
        ensures
            match r {
                Some(t) => {
                    &&& self.is_valid()
                    &&& t.z == self.z
                    &&& t.x == self.x as u32
                    &&& match scheme {
                        TileAddressingScheme::XYZ => t.y == self.y as u32,
                        TileAddressingScheme::TMS => t.y as u64
                            == (1u64 << self.z as u64) - 1 - self.y as u64,
                    }
                },
                None => !self.is_valid(),
            },
    {
        if !(self.z <= MAX_ZOOM_LEVEL) {
            return None;
        }
        let side: u64 = 1u64 << (self.z as u64);
        if !(0 <= self.x && (self.x as u64) < side && 0 <= self.y && (self.y as u64) < side) {
            return None;
        }
        let z64: u64 = self.z as u64;
        assert(side <= 0x4000_0000u64) by (bit_vector)
            requires side == 1u64 << z64 && z64 <= 30;
        let y: u32 = match scheme {
            TileAddressingScheme::XYZ => self.y as u32,
            TileAddressingScheme::TMS => ((side - 1) - (self.y as u64)) as u32,
        };
        Some(TileCoords { x: self.x as u32, y, z: self.z })
    }

    /// True when `self` addresses a proper ancestor of `other`: `other` lies
    /// in the subtree below `self`.
    pub open spec fn is_ancestor_of(self, other: WorldTileCoords) -> bool {
        &&& self.z < other.z
        &&& self.x as u32 == (other.x as u32) >> ((other.z - self.z) as u32)
        &&& self.y as u32 == (other.y as u32) >> ((other.z - self.z) as u32)
    }
}

/// Canonical hierarchical storage key of a tile: the quadrant digits along
/// the path from the root, one per zoom level.
#[derive(Clone, Debug)]
pub struct Quadkey {
    pub digits: Vec<u8>,
}

impl Quadkey {
    /// A quadkey is well-formed when each digit names one of four quadrants
    /// and its length is an encodable zoom.
    pub open spec fn is_valid(self) -> bool {
        &&& self.digits@.len() <= MAX_ZOOM_LEVEL
        &&& forall|i: int| 0 <= i < self.digits@.len() ==> self.digits@[i] < 4
    }

    /// Compares two quadkeys for equality.
    pub fn key_eq(&self, other: &Quadkey) -> (r: bool)
        ensures
            r == (self.digits@ == other.digits@),
    {
        if self.digits.len() != other.digits.len() {
            assert(self.digits@ != other.digits@);
            return false;
        }
        let n = self.digits.len();
        let mut i: usize = 0;
        while i < n
            invariant
                n == self.digits@.len() == other.digits@.len(),
                i <= n,
                forall|j: int| 0 <= j < i ==> self.digits@[j] == other.digits@[j],
            decreases n - i,
        {
            if self.digits[i] != other.digits[i] {
                return false;
            }
            i = i + 1;
        }
        assert(self.digits@ =~= other.digits@);
        true
    }
}

/// Every quadkey that `build_quad_key` derives is well-formed.
pub proof fn lemma_quad_key_valid(c: WorldTileCoords, k: Quadkey)
    requires
        c.is_valid(),
        k.digits@ == c.quadkey_digits(),
    ensures
        k.is_valid(),
{
    assert forall|i: int| 0 <= i < k.digits@.len() implies k.digits@[i] < 4 by {
        let s = (c.z - 1 - i) as u32;
        let xu = c.x as u32;
        let yu = c.y as u32;
        assert(2 * ((yu >> s) & 1) + ((xu >> s) & 1) < 4) by (bit_vector);
    }
}

/// Quadkey ordering law: when tile `b` lies in the subtree below tile `a`,
/// the quadkey of `a` is a strict prefix of the quadkey of `b`.
pub proof fn lemma_ancestor_quadkey_prefix(a: WorldTileCoords, b: WorldTileCoords)
    requires
        a.is_valid(),
        b.is_valid(),
        a.is_ancestor_of(b),
    ensures
        a.quadkey_digits().len() < b.quadkey_digits().len(),
        a.quadkey_digits() == b.quadkey_digits().take(a.z as int),
{
    let dz = (b.z - a.z) as u32;
    assert forall|i: int| 0 <= i < a.z implies a.digit_at(i) == b.digit_at(i) by {
        let s = (a.z - 1 - i) as u32;
        let xb = b.x as u32;
        let yb = b.y as u32;
        assert(((xb >> dz) >> s) & 1 == (xb >> (dz + s)) & 1) by (bit_vector)
            requires dz + s < 32;
        assert(((yb >> dz) >> s) & 1 == (yb >> (dz + s)) & 1) by (bit_vector)
            requires dz + s < 32;
        assert(dz + s == (b.z - 1 - i) as u32);
    }
    assert(a.quadkey_digits() =~= b.quadkey_digits().take(a.z as int));
}

} // verus!
