//! Descriptions of the servers vector and raster tiles are fetched from,
//! and the URL each one expects for a given tile coordinate.

use vstd::prelude::*;
use crate::ZoomLevel;
use crate::coords::TileAddressingScheme;
use crate::coords::TileCoords;
use crate::coords::WorldTileCoords;
use crate::strutil::dec_digits;
use crate::strutil::append_u64;

verus! {

/// A source from which vector tiles are fetched.
#[derive(Clone, Debug)]
pub struct TessellateSource {
    pub url: String,
    pub filetype: String,
    pub max_zoom: ZoomLevel,
}

impl TessellateSource {
    /// The request URL for `coords`: `{url}/{z}/{x}/{y}.{filetype}`.
    pub open spec fn formatted(self, t: TileCoords) -> Seq<char> {
        self.url@ + seq!['/'] + dec_digits(t.z as nat) + seq!['/'] + dec_digits(t.x as nat)
            + seq!['/'] + dec_digits(t.y as nat) + seq!['.'] + self.filetype@
    }

    pub fn new(url: &str, filetype: &str, max_zoom: ZoomLevel) -> (r: Self)
        ensures
            r.url@ == url@,
            r.filetype@ == filetype@,
            r.max_zoom == max_zoom,
    {
        Self { url: String::from_str(url), filetype: String::from_str(filetype), max_zoom }
    }

    pub fn format(&self, coords: &WorldTileCoords) -> (r: String)
        requires
            coords.is_valid(),
        ensures
            r@ == self.formatted(coords.xyz_tile()),
    {
        let t = coords.into_tile(TileAddressingScheme::XYZ).unwrap();
        let mut s = self.url.clone();
        proof {
            reveal_strlit("/");
            reveal_strlit(".");
        }
        s.append("/");
        append_u64(&mut s, t.z as u64);
        s.append("/");
        append_u64(&mut s, t.x as u64);
        s.append("/");
        append_u64(&mut s, t.y as u64);
        s.append(".");
        s.append(self.filetype.as_str());
        assert(s@ =~= self.formatted(t));
        s
    }
}

/// A source from which raster tiles are fetched.
#[derive(Clone, Debug)]
pub struct RasterSource {
    pub url: String,
    pub filetype: String,
    pub key: String,
}

impl RasterSource {
    /// The request URL for `coords`: `{url}/{z}/{x}/{y}.{filetype}?key={key}`.
    pub open spec fn formatted(self, t: TileCoords) -> Seq<char> {
        self.url@ + seq!['/'] + dec_digits(t.z as nat) + seq!['/'] + dec_digits(t.x as nat)
            + seq!['/'] + dec_digits(t.y as nat) + seq!['.'] + self.filetype@
            + seq!['?', 'k', 'e', 'y', '='] + self.key@
    }

    pub fn new(url: &str, filetype: &str, key: &str) -> (r: Self)
        ensures
            r.url@ == url@,
            r.filetype@ == filetype@,
            r.key@ == key@,
    {
        Self {
            url: String::from_str(url),
            filetype: String::from_str(filetype),
            key: String::from_str(key),
        }
    }

    pub fn format(&self, coords: &WorldTileCoords) -> (r: String)
        requires
            coords.is_valid(),
        ensures
            r@ == self.formatted(coords.xyz_tile()),
    {
        let t = coords.into_tile(TileAddressingScheme::XYZ).unwrap();
        let mut s = self.url.clone();
        proof {
            reveal_strlit("/");
            reveal_strlit(".");
            reveal_strlit("?key=");
        }
        s.append("/");
        append_u64(&mut s, t.z as u64);
        s.append("/");
        append_u64(&mut s, t.x as u64);
        s.append("/");
        append_u64(&mut s, t.y as u64);
        s.append(".");
        s.append(self.filetype.as_str());
        s.append("?key=");
        s.append(self.key.as_str());
        assert(s@ =~= self.formatted(t));
        s
    }
}

/// The different kinds of tile source.
#[derive(Clone, Debug)]
pub enum SourceType {
    Raster(RasterSource),
    Tessellate(TessellateSource),
}

impl SourceType {
    pub fn format(&self, coords: &WorldTileCoords) -> (r: String)
        requires
            coords.is_valid(),
        ensures
            match self {
                SourceType::Raster(s) => r@ == s.formatted(coords.xyz_tile()),
                SourceType::Tessellate(s) => r@ == s.formatted(coords.xyz_tile()),
            },
    {
        match self {
            SourceType::Raster(raster_source) => raster_source.format(coords),
            SourceType::Tessellate(tessellate_source) => tessellate_source.format(coords),
        }
    }
}

} // verus!
