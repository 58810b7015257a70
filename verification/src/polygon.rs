//! One GSHHG polygon record: its data model, the bit-packed classification
//! flags, and the decoder for a single record.

use vstd::prelude::*;

use crate::stream::{
    be_i32, be_u32, opt_id, opt_view, read_i32, read_id_option, read_u32, ByteSource, DecodeError,
};

verus! {

/// A polygon's identity: its 0-based position in the decoded stream.
pub type PolygonId = usize;

/// Hierarchical classification of a shoreline feature (bits 0-7 of the flag
/// word).  Unrecognized bytes are preserved verbatim, never rejected.
#[derive(Clone, Copy, Debug, PartialEq, Eq, Structural)]
pub enum Level {
    Land,
    Lake,
    IslandInLake,
    PondInIslandInLake,
    Other(u8),
}

/// Data source of a feature (bits 24-31 of the flag word).  The byte's low
/// bit doubles as the river flag, so it carries no source information:
/// bytes 0 and 1 both decode to `CiaWdbii`, and higher bytes are preserved
/// verbatim.
#[derive(Clone, Copy, Debug, PartialEq, Eq, Structural)]
pub enum Source {
    CiaWdbii,
    Wvs,
    Other(u8),
}

/// One coordinate pair, longitude (`x`) and latitude (`y`) in micro-degrees.
#[derive(Clone, Copy, Debug, PartialEq, Eq, Structural)]
pub struct Point {
    pub x: i32,
    pub y: i32,
}

/// One decoded shoreline polygon.
#[derive(Debug, Clone, PartialEq)]
pub struct Polygon {
    /// Unique polygon id number, starting at 0.
    pub id: PolygonId,
    /// Number of points in this polygon.
    pub n: usize,
    /// The next five fields unpack one 32-bit flag word: level in bits
    /// 0-7, version in bits 8-15, greenwich in bit 16, the source byte in
    /// bits 24-31, and river in bit 24, aliasing the source byte's low bit.
    pub level: Level,
    pub version: u8,
    pub greenwich_crossed: bool,
    pub source: Source,
    pub river: bool,
    /// Min/max extent in micro-degrees.
    pub west: i32,
    pub east: i32,
    pub south: i32,
    pub north: i32,
    /// Area of polygon in 1/10 km^2.
    pub area: u32,
    /// Area of original full-resolution polygon in 1/10 km^2.
    pub area_full: u32,
    /// Id of container polygon that encloses this polygon.
    pub container: Option<PolygonId>,
    /// Id of ancestor polygon in the full resolution set that was the source
    /// of this polygon.
    pub ancestor: Option<PolygonId>,
    /// Points of the polygon.
    pub points: Vec<Point>,
    /// Ids of contained polygons.
    pub children: Vec<PolygonId>,
}

/// The mathematical value of one polygon, over unbounded integers and
/// sequences.  Contracts speak of this model rather than of the exec struct.
#[verifier::ext_equal]
pub ghost struct PolygonModel {
    pub id: int,
    pub n: int,
    pub level: Level,
    pub version: u8,
    pub greenwich_crossed: bool,
    pub source: Source,
    pub river: bool,
    pub west: i32,
    pub east: i32,
    pub south: i32,
    pub north: i32,
    pub area: u32,
    pub area_full: u32,
    pub container: Option<int>,
    pub ancestor: Option<int>,
    pub points: Seq<Point>,
    pub children: Seq<int>,
}

impl View for Polygon {
    type V = PolygonModel;

    open spec fn view(&self) -> PolygonModel {
        PolygonModel {
            id: self.id as int,
            n: self.n as int,
            level: self.level,
            version: self.version,
            greenwich_crossed: self.greenwich_crossed,
            source: self.source,
            river: self.river,
            west: self.west,
            east: self.east,
            south: self.south,
            north: self.north,
            area: self.area,
            area_full: self.area_full,
            container: opt_view(self.container),
            ancestor: opt_view(self.ancestor),
            points: self.points@,
            children: self.children@.map_values(|c: PolygonId| c as int),
        }
    }
}

/// The level byte: bits 0-7 of the flag word.
pub open spec fn flag_level(f: u32) -> u8 {
    (f & 255) as u8
}

/// The version byte: bits 8-15 of the flag word.
pub open spec fn flag_version(f: u32) -> u8 {
    ((f >> 8) & 255) as u8
}

/// The greenwich bit: bit 16 of the flag word.
pub open spec fn flag_greenwich(f: u32) -> bool {
    (f >> 16) & 1 != 0
}

/// The source byte: bits 24-31 of the flag word.
pub open spec fn flag_source(f: u32) -> u8 {
    ((f >> 24) & 255) as u8
}

/// The river bit: bit 24 of the flag word, aliasing the low bit of the
/// source byte.  This aliasing is a documented quirk of the on-disk format
/// and is preserved exactly.
pub open spec fn flag_river(f: u32) -> bool {
    (f >> 24) & 1 != 0
}

/// Which `Level` a level byte decodes to.
pub open spec fn level_of(x: u8) -> Level {
    if x == 1 {
        Level::Land
    } else if x == 2 {
        Level::Lake
    } else if x == 3 {
        Level::IslandInLake
    } else if x == 4 {
        Level::PondInIslandInLake
    } else {
        Level::Other(x)
    }
}

/// Which `Source` a source byte decodes to.  The low bit aliases the river
/// flag, so bytes 0 and 1 are the same source.
pub open spec fn source_of(x: u8) -> Source {
    if x == 0 || x == 1 {
        Source::CiaWdbii
    } else {
        Source::Other(x)
    }
}

impl From<u8> for Level {
    fn from(x: u8) -> (r: Self) {
        match x {
            1 => Self::Land,
            2 => Self::Lake,
            3 => Self::IslandInLake,
            4 => Self::PondInIslandInLake,
            _ => Self::Other(x),
        }
    }
}

impl vstd::std_specs::convert::FromSpecImpl<u8> for Level {
    open spec fn obeys_from_spec() -> bool {
        true
    }

    open spec fn from_spec(v: u8) -> Level {
        level_of(v)
    }
}

impl From<u8> for Source {
    fn from(x: u8) -> (r: Self) {
        match x {
            0 | 1 => Self::CiaWdbii,
            _ => Self::Other(x),
        }
    }
}

impl vstd::std_specs::convert::FromSpecImpl<u8> for Source {
    open spec fn obeys_from_spec() -> bool {
        true
    }

    open spec fn from_spec(v: u8) -> Source {
        source_of(v)
    }
}

/// The point whose two coordinates are stored at byte offset `o`.
pub open spec fn spec_point_at(s: Seq<u8>, o: int) -> Point {
    Point { x: be_i32(s.subrange(o, o + 4)), y: be_i32(s.subrange(o + 4, o + 8)) }
}

/// The polygon whose record is stored at byte offset `i`, assuming the
/// record is complete.  The header is 44 bytes (eleven big-endian 32-bit
/// words), followed by one 8-byte coordinate pair per point.
pub open spec fn spec_poly_at(s: Seq<u8>, i: int) -> PolygonModel {
    let f = be_u32(s.subrange(i + 8, i + 12));
    let n = be_u32(s.subrange(i + 4, i + 8)) as int;
    PolygonModel {
        id: be_i32(s.subrange(i, i + 4)) as int,
        n: n,
        level: level_of(flag_level(f)),
        version: flag_version(f),
        greenwich_crossed: flag_greenwich(f),
        source: source_of(flag_source(f)),
        river: flag_river(f),
        west: be_i32(s.subrange(i + 12, i + 16)),
        east: be_i32(s.subrange(i + 16, i + 20)),
        south: be_i32(s.subrange(i + 20, i + 24)),
        north: be_i32(s.subrange(i + 24, i + 28)),
        area: be_u32(s.subrange(i + 28, i + 32)),
        area_full: be_u32(s.subrange(i + 32, i + 36)),
        container: opt_id(be_i32(s.subrange(i + 36, i + 40))),
        ancestor: opt_id(be_i32(s.subrange(i + 40, i + 44))),
        points: Seq::new(n as nat, |j: int| spec_point_at(s, i + 44 + 8 * j)),
        children: Seq::empty(),
    }
}

/// What decoding one record at byte offset `i` yields.
pub ghost enum RecordOutcome {
    /// Fewer than four bytes remain at the record boundary: the clean end of
    /// the stream.
    EndOfInput,
    /// The record began but the source ran out before it was complete.
    Truncated,
    /// The record's own identity word is negative.
    NegativeId,
    /// A complete record: its polygon, and the offset just after it.
    Record { poly: PolygonModel, next: int },
}

/// Decoding one record at byte offset `i`: the fields are read strictly in
/// order, so the identity word is checked before anything after it, and a
/// short read at any later field truncates the record.
pub open spec fn spec_record_at(s: Seq<u8>, i: int) -> RecordOutcome {
    if s.len() - i < 4 {
        RecordOutcome::EndOfInput
    } else if be_i32(s.subrange(i, i + 4)) < 0 {
        RecordOutcome::NegativeId
    } else if s.len() - i < 44 {
        RecordOutcome::Truncated
    } else {
        let n = be_u32(s.subrange(i + 4, i + 8)) as int;
        if s.len() - i < 44 + 8 * n {
            RecordOutcome::Truncated
        } else {
            RecordOutcome::Record { poly: spec_poly_at(s, i), next: i + 44 + 8 * n }
        }
    }
}

impl Point {
    /// Reads one coordinate pair from the source.
    pub fn from_reader(r: &mut ByteSource) -> (res: Result<Self, DecodeError>)
        requires
            old(r).wf(),
        ensures
            final(r).wf(),
            final(r).bytes() == old(r).bytes(),
            old(r).remaining() >= 8 ==> {
                &&& res == Ok::<Point, DecodeError>(spec_point_at(old(r).bytes(), old(r).pos()))
                &&& final(r).pos() == old(r).pos() + 8
            },
            old(r).remaining() < 8 ==> res == Err::<Point, DecodeError>(DecodeError::UnexpectedEof),
    {
        let x = match read_i32(r) {
            Ok(v) => v,
            Err(e) => {
                return Err(e);
            },
        };
        let y = match read_i32(r) {
            Ok(v) => v,
            Err(e) => {
                return Err(e);
            },
        };
        Ok(Point { x, y })
    }
}

impl Polygon {
    /// Reads one polygon record from the source.
    ///
    /// A short read before any byte of the record has been consumed reports
    /// `UnexpectedEof` and leaves the source untouched; a short read after
    /// that reports `Truncated`; a negative identity word reports
    /// `NegativeId`.  On success the record's `children` list is empty: it
    /// is filled only by the collection builder's second pass.
    #[verifier::loop_isolation(false)]
    pub fn from_reader(r: &mut ByteSource) -> (res: Result<Self, DecodeError>)
        requires
            old(r).wf(),
        ensures
            final(r).wf(),
            final(r).bytes() == old(r).bytes(),
            match spec_record_at(old(r).bytes(), old(r).pos()) {
                RecordOutcome::EndOfInput => {
                    &&& res == Err::<Polygon, DecodeError>(DecodeError::UnexpectedEof)
                    &&& *final(r) == *old(r)
                },
                RecordOutcome::NegativeId => res == Err::<Polygon, DecodeError>(
                    DecodeError::NegativeId,
                ),
                RecordOutcome::Truncated => res == Err::<Polygon, DecodeError>(
                    DecodeError::Truncated,
                ),
                RecordOutcome::Record { poly, next } => {
                    &&& res matches Ok(p) && p@ == poly
                    &&& final(r).pos() == next
                },
            },
    {
        let ghost s: Seq<u8> = r.bytes();
        let ghost start: int = r.pos();
        let id: usize = match read_id_option(r) {
            Ok(Some(v)) => v,
            Ok(None) => {
                return Err(DecodeError::NegativeId);
            },
            Err(_) => {
                return Err(DecodeError::UnexpectedEof);
            },
        };
        let n: u32 = match read_u32(r) {
            Ok(v) => v,
            Err(_) => {
                return Err(DecodeError::Truncated);
            },
        };
        let flag: u32 = match read_u32(r) {
            Ok(v) => v,
            Err(_) => {
                return Err(DecodeError::Truncated);
            },
        };

        proof {
            assert(flag & 255 < 256) by (bit_vector);
            assert((flag >> 8) & 255 < 256) by (bit_vector);
            assert((flag >> 24) & 255 < 256) by (bit_vector);
        }
        let level = Level::from((flag & 255) as u8);
        let version: u8 = ((flag >> 8) & 255) as u8;
        let greenwich_crossed: bool = ((flag >> 16) & 1) != 0;
        let source = Source::from(((flag >> 24) & 255) as u8);
        let river: bool = ((flag >> 24) & 1) != 0;

        let west: i32 = match read_i32(r) {
            Ok(v) => v,
            Err(_) => {
                return Err(DecodeError::Truncated);
            },
        };
        let east: i32 = match read_i32(r) {
            Ok(v) => v,
            Err(_) => {
                return Err(DecodeError::Truncated);
            },
        };
        let south: i32 = match read_i32(r) {
            Ok(v) => v,
            Err(_) => {
                return Err(DecodeError::Truncated);
            },
        };
        let north: i32 = match read_i32(r) {
            Ok(v) => v,
            Err(_) => {
                return Err(DecodeError::Truncated);
            },
        };
        let area: u32 = match read_u32(r) {
            Ok(v) => v,
            Err(_) => {
                return Err(DecodeError::Truncated);
            },
        };
        let area_full: u32 = match read_u32(r) {
            Ok(v) => v,
            Err(_) => {
                return Err(DecodeError::Truncated);
            },
        };
        let container: Option<PolygonId> = match read_id_option(r) {
            Ok(o) => o,
            Err(_) => {
                return Err(DecodeError::Truncated);
            },
        };
        let ancestor: Option<PolygonId> = match read_id_option(r) {
            Ok(o) => o,
            Err(_) => {
                return Err(DecodeError::Truncated);
            },
        };

        let n_us: usize = n as usize;
        let mut points: Vec<Point> = Vec::new();
        let mut j: usize = 0;
        while j < n_us
            invariant
                j <= n_us,
                r.wf(),
                r.bytes() == s,
                s.len() >= start + 44,
                be_i32(s.subrange(start, start + 4)) >= 0,
                n_us as int == be_u32(s.subrange(start + 4, start + 8)) as int,
                r.pos() == start + 44 + 8 * (j as int),
                points@.len() == j as int,
                forall|k: int| 0 <= k < j as int ==> points@[k] == spec_point_at(
                    s,
                    start + 44 + 8 * k,
                ),
            decreases n_us - j,
        {
            let p = match Point::from_reader(r) {
                Ok(p) => p,
                Err(_) => {
                    return Err(DecodeError::Truncated);
                },
            };
            points.push(p);
            j = j + 1;
        }

        let poly = Polygon {
            id,
            n: n_us,
            level,
            version,
            greenwich_crossed,
            source,
            river,
            west,
            east,
            south,
            north,
            area,
            area_full,
            container,
            ancestor,
            points,
            children: Vec::new(),
        };
        proof {
            let m = spec_poly_at(s, start);
            assert(poly@.points =~= m.points);
            assert(poly@.children =~= m.children);
            assert(poly@ =~= m);
        }
        Ok(poly)
    }
}

} // verus!
