//! A synthetic record encoder: the exact inverse of the record decoder on
//! canonical polygon values, used to state and prove the round-trip law.

use vstd::prelude::*;

use crate::polygon::{
    flag_greenwich, flag_level, flag_river, flag_source, flag_version, level_of, source_of,
    spec_point_at, spec_poly_at, spec_record_at, Level, Point, Polygon, PolygonModel,
    RecordOutcome, Source,
};
use crate::stream::{be_i32, be_u32, opt_id};

verus! {

/// The four bytes of one word, in big-endian order.
pub open spec fn spec_be_of_u32(v: u32) -> Seq<u8> {
    seq![(v >> 24) as u8, ((v >> 16) & 255) as u8, ((v >> 8) & 255) as u8, (v & 255) as u8]
}

/// The four bytes of one signed word, in big-endian order.
pub open spec fn spec_be_of_i32(x: i32) -> Seq<u8> {
    spec_be_of_u32(x as u32)
}

/// The byte a `Level` encodes to.
pub open spec fn level_byte(l: Level) -> u8 {
    match l {
        Level::Land => 1,
        Level::Lake => 2,
        Level::IslandInLake => 3,
        Level::PondInIslandInLake => 4,
        Level::Other(x) => x,
    }
}

/// The byte a `Source` encodes to.  Its low bit is the river flag the byte
/// aliases on disk, so `CiaWdbii` has two byte images, picked by `river`;
/// `Wvs` keeps its historical byte, which no longer decodes back to it.
pub open spec fn source_byte(src: Source, river: bool) -> u8 {
    match src {
        Source::CiaWdbii => if river {
            1
        } else {
            0
        },
        Source::Wvs => 1,
        Source::Other(x) => x,
    }
}

/// A `Level` is canonical when it is the one its own byte decodes to:
/// `Other` never shadows a named variant.
pub open spec fn level_canonical(l: Level) -> bool {
    match l {
        Level::Other(x) => !(1 <= x && x <= 4),
        _ => true,
    }
}

/// A `Source` is canonical when it is the one its own byte decodes to:
/// bytes 0 and 1 decode to `CiaWdbii`, so `Wvs` and `Other` below 2 have
/// no byte of their own.
pub open spec fn source_canonical(src: Source) -> bool {
    match src {
        Source::CiaWdbii => true,
        Source::Wvs => false,
        Source::Other(x) => x >= 2,
    }
}

/// The flag word a polygon's classification fields pack into.  The river
/// bit is not written separately: it aliases the low bit of the source
/// byte, exactly as on disk.
pub open spec fn flag_word(m: PolygonModel) -> u32 {
    (level_byte(m.level) as u32) | ((m.version as u32) << 8) | ((if m.greenwich_crossed {
        1u32
    } else {
        0u32
    }) << 16) | ((source_byte(m.source, m.river) as u32) << 24)
}

/// The word an optional reference encodes to: `None` becomes the sentinel
/// `-1`, `Some` the identity itself.
pub open spec fn spec_opt_word(o: Option<int>) -> i32 {
    match o {
        Some(c) => c as i32,
        None => -1i32,
    }
}

/// The 44 header bytes of one record.
pub open spec fn spec_encode_header(m: PolygonModel) -> Seq<u8> {
    spec_be_of_u32(m.id as u32) + spec_be_of_u32(m.n as u32) + spec_be_of_u32(flag_word(m))
        + spec_be_of_i32(m.west) + spec_be_of_i32(m.east) + spec_be_of_i32(m.south)
        + spec_be_of_i32(m.north) + spec_be_of_u32(m.area) + spec_be_of_u32(m.area_full)
        + spec_be_of_i32(spec_opt_word(m.container)) + spec_be_of_i32(spec_opt_word(m.ancestor))
}

/// The eight bytes of one coordinate pair.
pub open spec fn spec_encode_point(p: Point) -> Seq<u8> {
    spec_be_of_i32(p.x) + spec_be_of_i32(p.y)
}

/// The bytes of a run of coordinate pairs, in order.
pub open spec fn spec_encode_points(ps: Seq<Point>) -> Seq<u8>
    decreases ps.len(),
{
    if ps.len() == 0 {
        Seq::empty()
    } else {
        spec_encode_points(ps.drop_last()) + spec_encode_point(ps.last())
    }
}

/// The full byte image of one record.
pub open spec fn spec_encode_polygon(m: PolygonModel) -> Seq<u8> {
    spec_encode_header(m) + spec_encode_points(m.points)
}

/// The polygon values the encoder is the decoder's inverse on: the point
/// count is the number of points and fits its 32-bit field, the identity
/// and the references fit their signed fields, the classification is
/// canonical, and the river bit agrees with the source byte it aliases on
/// disk.
pub open spec fn encodable(m: PolygonModel) -> bool {
    &&& 0 <= m.id <= i32::MAX
    &&& 0 <= m.n <= u32::MAX
    &&& m.n == m.points.len()
    &&& level_canonical(m.level)
    &&& source_canonical(m.source)
    &&& m.river == ((source_byte(m.source, m.river) & 1) != 0)
    &&& match m.container {
        Some(c) => 0 <= c <= i32::MAX,
        None => true,
    }
    &&& match m.ancestor {
        Some(c) => 0 <= c <= i32::MAX,
        None => true,
    }
}

/// Reading back the four bytes of a word gives the word.
proof fn lemma_be_u32_round(v: u32)
    ensures
        be_u32(spec_be_of_u32(v)) == v,
{
    assert((((v >> 24) as u8 as u32) << 24) | ((((v >> 16) & 255) as u8 as u32) << 16) | ((((v
        >> 8) & 255) as u8 as u32) << 8) | ((v & 255) as u8 as u32) == v) by (bit_vector);
}

/// Reading back the four bytes of a signed word gives the signed word.
proof fn lemma_be_i32_round(x: i32)
    ensures
        be_i32(spec_be_of_i32(x)) == x,
{
    lemma_be_u32_round(x as u32);
    assert(((x as u32) as i32) == x) by (bit_vector);
}

/// Every classification field reads back from the packed flag word.
proof fn lemma_flag_bits(lb: u8, ver: u8, gw: u32, sb: u8)
    by (bit_vector)
    requires
        gw == 0 || gw == 1,
    ensures
        (((lb as u32) | ((ver as u32) << 8) | (gw << 16) | ((sb as u32) << 24)) & 255) == (
        lb as u32),
        ((((lb as u32) | ((ver as u32) << 8) | (gw << 16) | ((sb as u32) << 24)) >> 8) & 255) == (
        ver as u32),
        ((((lb as u32) | ((ver as u32) << 8) | (gw << 16) | ((sb as u32) << 24)) >> 16) & 1) == gw,
        ((((lb as u32) | ((ver as u32) << 8) | (gw << 16) | ((sb as u32) << 24)) >> 24) & 255) == (
        sb as u32),
        ((((lb as u32) | ((ver as u32) << 8) | (gw << 16) | ((sb as u32) << 24)) >> 24) & 1) == ((
        sb & 1) as u32),
{
}

/// Masking the low bit commutes with widening a byte to a word.
proof fn lemma_low_bit(sb: u8)
    ensures
        ((sb & 1) as u32) == ((sb as u32) & 1),
{
    assert(((sb & 1) as u32) == ((sb as u32) & 1)) by (bit_vector);
}

/// The bytes of a run of points are eight per point.
proof fn lemma_points_len(ps: Seq<Point>)
    ensures
        spec_encode_points(ps).len() == 8 * ps.len(),
    decreases ps.len(),
{
    if ps.len() > 0 {
        lemma_points_len(ps.drop_last());
    }
}

/// Each point's eight bytes sit at their own offset in the run.
proof fn lemma_points_segment(ps: Seq<Point>, j: int)
    requires
        0 <= j < ps.len(),
    ensures
        spec_encode_points(ps).subrange(8 * j, 8 * j + 8) == spec_encode_point(ps[j]),
    decreases ps.len(),
{
    lemma_points_len(ps);
    let pre = ps.drop_last();
    lemma_points_len(pre);
    if j == ps.len() - 1 {
        assert(spec_encode_points(ps).subrange(8 * j, 8 * j + 8) =~= spec_encode_point(ps[j]));
    } else {
        lemma_points_segment(pre, j);
        assert(spec_encode_points(ps).subrange(8 * j, 8 * j + 8) =~= spec_encode_points(
            pre,
        ).subrange(8 * j, 8 * j + 8));
        assert(pre[j] == ps[j]);
    }
}

/// Appends the four big-endian bytes of one word.
fn push_u32(out: &mut Vec<u8>, v: u32)
    ensures
        final(out)@ == old(out)@ + spec_be_of_u32(v),
{
    proof {
        assert(v >> 24 < 256) by (bit_vector);
        assert((v >> 16) & 255 < 256) by (bit_vector);
        assert((v >> 8) & 255 < 256) by (bit_vector);
        assert(v & 255 < 256) by (bit_vector);
    }
    out.push((v >> 24) as u8);
    out.push(((v >> 16) & 255) as u8);
    out.push(((v >> 8) & 255) as u8);
    out.push((v & 255) as u8);
    proof {
        assert(out@ =~= old(out)@ + spec_be_of_u32(v));
    }
}

/// Appends the four big-endian bytes of one signed word.
fn push_i32(out: &mut Vec<u8>, x: i32)
    ensures
        final(out)@ == old(out)@ + spec_be_of_i32(x),
{
    push_u32(out, #[verifier::truncate] (x as u32));
}

impl Level {
    /// The byte this level encodes to.
    pub fn to_byte(&self) -> (b: u8)
        ensures
            b == level_byte(*self),
    {
        match self {
            Level::Land => 1,
            Level::Lake => 2,
            Level::IslandInLake => 3,
            Level::PondInIslandInLake => 4,
            Level::Other(x) => *x,
        }
    }
}

impl Source {
    /// The byte this source encodes to; the byte's low bit carries the
    /// river flag it aliases on disk.
    pub fn to_byte(&self, river: bool) -> (b: u8)
        ensures
            b == source_byte(*self, river),
    {
        match self {
            Source::CiaWdbii => {
                if river {
                    1
                } else {
                    0
                }
            },
            Source::Wvs => 1,
            Source::Other(x) => *x,
        }
    }
}

impl Polygon {
    /// Encodes this polygon as one on-disk record.  The child list is not
    /// part of the record: the collection builder's second pass derives it.
    #[verifier::loop_isolation(false)]
    pub fn to_bytes(&self) -> (out: Vec<u8>)
        requires
            encodable(self@),
            44 + 8 * self@.n <= usize::MAX,
        ensures
            out@ == spec_encode_polygon(self@),
    {
        let mut out: Vec<u8> = Vec::new();
        push_u32(&mut out, self.id as u32);
        push_u32(&mut out, self.n as u32);
        let gw: u32 = if self.greenwich_crossed {
            1
        } else {
            0
        };
        let flag: u32 = (self.level.to_byte() as u32) | ((self.version as u32) << 8) | (gw << 16)
            | ((self.source.to_byte(self.river) as u32) << 24);
        push_u32(&mut out, flag);
        push_i32(&mut out, self.west);
        push_i32(&mut out, self.east);
        push_i32(&mut out, self.south);
        push_i32(&mut out, self.north);
        push_u32(&mut out, self.area);
        push_u32(&mut out, self.area_full);
        match self.container {
            Some(c) => push_i32(&mut out, c as i32),
            None => push_i32(&mut out, -1),
        }
        match self.ancestor {
            Some(c) => push_i32(&mut out, c as i32),
            None => push_i32(&mut out, -1),
        }
        proof {
            assert(out@ =~= spec_encode_header(self@));
        }
        let ghost hdr: Seq<u8> = out@;
        let npts: usize = self.points.len();
        let mut j: usize = 0;
        while j < npts
            invariant
                j <= npts,
                out@ == hdr + spec_encode_points(self.points@.take(j as int)),
            decreases npts - j,
        {
            let p = self.points[j];
            push_i32(&mut out, p.x);
            push_i32(&mut out, p.y);
            proof {
                let taken = self.points@.take(j as int + 1);
                assert(taken.drop_last() =~= self.points@.take(j as int));
                assert(taken.last() == self.points@[j as int]);
                assert(spec_encode_points(taken) == spec_encode_points(
                    self.points@.take(j as int),
                ) + spec_encode_point(self.points@[j as int]));
                assert(out@ =~= hdr + spec_encode_points(taken));
            }
            j = j + 1;
        }
        proof {
            assert(self.points@.take(npts as int) =~= self.points@);
        }
        out
    }
}

/// Encoding a canonical polygon and decoding the bytes gives the polygon
/// back, except for its child list, which only the collection builder's
/// second pass derives.
pub proof fn lemma_record_round_trip(m: PolygonModel)
    requires
        encodable(m),
    ensures
        spec_encode_polygon(m).len() == 44 + 8 * m.n,
        spec_record_at(spec_encode_polygon(m), 0) == (RecordOutcome::Record {
            poly: PolygonModel { children: Seq::empty(), ..m },
            next: 44 + 8 * m.n,
        }),
{
    let enc = spec_encode_polygon(m);
    let hdr = spec_encode_header(m);
    let pts = spec_encode_points(m.points);
    lemma_points_len(m.points);
    assert(hdr.len() == 44);
    assert(enc.len() == 44 + 8 * m.n);

    let w = flag_word(m);
    let gw: u32 = if m.greenwich_crossed {
        1u32
    } else {
        0u32
    };
    lemma_flag_bits(level_byte(m.level), m.version, gw, source_byte(m.source, m.river));

    assert(enc.subrange(0, 4) =~= spec_be_of_u32(m.id as u32));
    assert(enc.subrange(4, 8) =~= spec_be_of_u32(m.n as u32));
    assert(enc.subrange(8, 12) =~= spec_be_of_u32(w));
    assert(enc.subrange(12, 16) =~= spec_be_of_i32(m.west));
    assert(enc.subrange(16, 20) =~= spec_be_of_i32(m.east));
    assert(enc.subrange(20, 24) =~= spec_be_of_i32(m.south));
    assert(enc.subrange(24, 28) =~= spec_be_of_i32(m.north));
    assert(enc.subrange(28, 32) =~= spec_be_of_u32(m.area));
    assert(enc.subrange(32, 36) =~= spec_be_of_u32(m.area_full));
    assert(enc.subrange(36, 40) =~= spec_be_of_i32(spec_opt_word(m.container)));
    assert(enc.subrange(40, 44) =~= spec_be_of_i32(spec_opt_word(m.ancestor)));

    lemma_be_u32_round(m.id as u32);
    lemma_be_u32_round(m.n as u32);
    lemma_be_u32_round(w);
    lemma_be_u32_round(m.area);
    lemma_be_u32_round(m.area_full);
    lemma_be_i32_round(m.west);
    lemma_be_i32_round(m.east);
    lemma_be_i32_round(m.south);
    lemma_be_i32_round(m.north);
    lemma_be_i32_round(spec_opt_word(m.container));
    lemma_be_i32_round(spec_opt_word(m.ancestor));

    // The identity word reads back as the non-negative identity.
    assert(be_i32(enc.subrange(0, 4)) == (m.id as u32) as i32);
    assert(((m.id as u32) as i32) == m.id as i32);
    assert(be_i32(enc.subrange(0, 4)) >= 0);

    // The point count reads back exactly.
    assert(be_u32(enc.subrange(4, 8)) as int == m.n);

    // The classification fields read back through the packed word.
    assert(flag_level(w) == level_byte(m.level));
    assert(flag_version(w) == m.version);
    assert(flag_greenwich(w) == m.greenwich_crossed);
    assert(flag_source(w) == source_byte(m.source, m.river));
    lemma_low_bit(source_byte(m.source, m.river));
    assert(flag_river(w) == ((source_byte(m.source, m.river) & 1) != 0));
    assert(level_of(level_byte(m.level)) == m.level);
    assert(source_of(source_byte(m.source, m.river)) == m.source);

    // The optional references read back through the sentinel convention.
    assert(opt_id(spec_opt_word(m.container)) == m.container);
    assert(opt_id(spec_opt_word(m.ancestor)) == m.ancestor);

    // Each point reads back from its own eight bytes.
    let n = m.n;
    let dec_points = Seq::new(n as nat, |j: int| spec_point_at(enc, 44 + 8 * j));
    assert forall|j: int| 0 <= j < n implies dec_points[j] == m.points[j] by {
        lemma_points_segment(m.points, j);
        let encp = spec_encode_point(m.points[j]);
        assert(enc.subrange(44 + 8 * j, 44 + 8 * j + 4) =~= encp.subrange(0, 4));
        assert(enc.subrange(44 + 8 * j + 4, 44 + 8 * j + 8) =~= encp.subrange(4, 8));
        assert(encp.subrange(0, 4) =~= spec_be_of_i32(m.points[j].x));
        assert(encp.subrange(4, 8) =~= spec_be_of_i32(m.points[j].y));
        lemma_be_i32_round(m.points[j].x);
        lemma_be_i32_round(m.points[j].y);
    }

    assert(spec_poly_at(enc, 0).points =~= dec_points);
    assert(dec_points =~= m.points);
    assert(spec_poly_at(enc, 0) =~= PolygonModel { children: Seq::empty(), ..m });
    assert(spec_record_at(enc, 0) == (RecordOutcome::Record {
        poly: PolygonModel { children: Seq::empty(), ..m },
        next: 44 + 8 * m.n,
    }));
}

} // verus!
