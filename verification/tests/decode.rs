use gshhg::{ByteSource, DecodeError, Gshhg, Level, Point, Polygon, Source};

fn push_u32(out: &mut Vec<u8>, v: u32) {
    out.extend_from_slice(&v.to_be_bytes());
}

fn push_i32(out: &mut Vec<u8>, v: i32) {
    out.extend_from_slice(&v.to_be_bytes());
}

/// One record's bytes: the eleven header words, then the points.
fn record_bytes(
    id: i32,
    flag: u32,
    bbox: [i32; 4],
    areas: [u32; 2],
    container: i32,
    ancestor: i32,
    points: &[(i32, i32)],
) -> Vec<u8> {
    let mut out = Vec::new();
    push_i32(&mut out, id);
    push_u32(&mut out, points.len() as u32);
    push_u32(&mut out, flag);
    for v in bbox {
        push_i32(&mut out, v);
    }
    for v in areas {
        push_u32(&mut out, v);
    }
    push_i32(&mut out, container);
    push_i32(&mut out, ancestor);
    for (x, y) in points {
        push_i32(&mut out, *x);
        push_i32(&mut out, *y);
    }
    out
}

fn simple_record(id: i32, container: i32, points: &[(i32, i32)]) -> Vec<u8> {
    record_bytes(id, 0x01000001, [1, 2, 3, 4], [10, 20], container, -1, points)
}

fn decode(bytes: Vec<u8>) -> Result<Gshhg, DecodeError> {
    let mut src = ByteSource::new(bytes);
    Gshhg::from_reader(&mut src)
}

#[test]
fn empty_source_decodes_to_empty_collection() {
    let g = decode(Vec::new()).unwrap();
    assert_eq!(g.polygons.len(), 0);
}

#[test]
fn zero_point_count_decodes_to_empty_point_sequence() {
    let g = decode(simple_record(0, -1, &[])).unwrap();
    assert_eq!(g.polygons.len(), 1);
    assert_eq!(g.polygons[0].n, 0);
    assert!(g.polygons[0].points.is_empty());
}

#[test]
fn flag_word_literal_decodes_each_field() {
    // 0x01000001: level byte 1, version 0, greenwich clear, source byte 1
    // (bit 24 is set, so river, aliasing it, is true; the aliased low bit
    // carries no source information, so the source stays CiaWdbii).
    let g = decode(simple_record(0, -1, &[(7, -7)])).unwrap();
    let p = &g.polygons[0];
    assert_eq!(p.level, Level::Land);
    assert_eq!(p.version, 0);
    assert!(!p.greenwich_crossed);
    assert_eq!(p.source, Source::CiaWdbii);
    assert!(p.river);
}

#[test]
fn source_byte_zero_decodes_to_cia_wdbii_without_river() {
    let bytes = record_bytes(0, 0x01, [0, 0, 0, 0], [0, 0], -1, -1, &[]);
    let g = decode(bytes).unwrap();
    let p = &g.polygons[0];
    assert_eq!(p.source, Source::CiaWdbii);
    assert!(!p.river);
}

#[test]
fn flag_word_fields_unpack_from_their_bits() {
    let flag: u32 = 2 | (9 << 8) | (1 << 16) | (0x83 << 24);
    let bytes = record_bytes(0, flag, [0, 0, 0, 0], [0, 0], -1, -1, &[]);
    let g = decode(bytes).unwrap();
    let p = &g.polygons[0];
    assert_eq!(p.level, Level::Lake);
    assert_eq!(p.version, 9);
    assert!(p.greenwich_crossed);
    assert_eq!(p.source, Source::Other(0x83));
    assert!(p.river);
}

#[test]
fn header_fields_decode_verbatim() {
    let bytes = record_bytes(
        0,
        0x01000001,
        [-180_000_000, 180_000_000, -65_000_000, 83_000_000],
        [123, 456],
        -1,
        5,
        &[(1_000_000, -2_000_000)],
    );
    let g = decode(bytes).unwrap();
    let p = &g.polygons[0];
    assert_eq!(p.id, 0);
    assert_eq!(p.west, -180_000_000);
    assert_eq!(p.east, 180_000_000);
    assert_eq!(p.south, -65_000_000);
    assert_eq!(p.north, 83_000_000);
    assert_eq!(p.area, 123);
    assert_eq!(p.area_full, 456);
    assert_eq!(p.ancestor, Some(5));
    assert_eq!(p.points, vec![Point { x: 1_000_000, y: -2_000_000 }]);
}

#[test]
fn container_sentinel_negative_is_none_and_zero_is_some_zero() {
    let mut bytes = simple_record(0, -1, &[]);
    bytes.extend(simple_record(1, 0, &[]));
    let g = decode(bytes).unwrap();
    assert_eq!(g.polygons[0].container, None);
    assert_eq!(g.polygons[1].container, Some(0));
}

#[test]
fn any_negative_container_word_is_none() {
    let g = decode(simple_record(0, -123456, &[])).unwrap();
    assert_eq!(g.polygons[0].container, None);
}

#[test]
fn children_invert_containers_in_ascending_order() {
    // 0 contains 1 and 3; 1 contains 2; 4 stands alone.
    let mut bytes = Vec::new();
    bytes.extend(simple_record(0, -1, &[]));
    bytes.extend(simple_record(1, 0, &[]));
    bytes.extend(simple_record(2, 1, &[]));
    bytes.extend(simple_record(3, 0, &[]));
    bytes.extend(simple_record(4, -1, &[]));
    let g = decode(bytes).unwrap();
    assert_eq!(g.polygons[0].children, vec![1, 3]);
    assert_eq!(g.polygons[1].children, vec![2]);
    assert_eq!(g.polygons[2].children, Vec::<usize>::new());
    assert_eq!(g.polygons[3].children, Vec::<usize>::new());
    assert_eq!(g.polygons[4].children, Vec::<usize>::new());
}

#[test]
fn decoding_twice_yields_structurally_equal_collections() {
    let mut bytes = Vec::new();
    bytes.extend(simple_record(0, -1, &[(1, 2), (3, 4)]));
    bytes.extend(simple_record(1, 0, &[(5, 6)]));
    let g1 = decode(bytes.clone()).unwrap();
    let g2 = decode(bytes).unwrap();
    assert_eq!(g1, g2);
}

#[test]
fn truncated_header_after_valid_record_is_an_error() {
    let mut bytes = simple_record(0, -1, &[]);
    bytes.extend(std::iter::repeat(0u8).take(21));
    assert_eq!(decode(bytes), Err(DecodeError::Truncated));
}

#[test]
fn truncated_point_list_is_an_error() {
    let mut bytes = simple_record(0, -1, &[(1, 2), (3, 4)]);
    bytes.truncate(bytes.len() - 3);
    assert_eq!(decode(bytes), Err(DecodeError::Truncated));
}

#[test]
fn negative_record_id_is_an_error() {
    assert_eq!(decode(simple_record(-1, -1, &[])), Err(DecodeError::NegativeId));
}

#[test]
fn dangling_container_reference_is_an_error() {
    assert_eq!(decode(simple_record(0, 7, &[])), Err(DecodeError::DanglingContainer));
}

#[test]
fn record_decoder_reports_eof_at_record_start() {
    let mut src = ByteSource::new(Vec::new());
    assert_eq!(Polygon::from_reader(&mut src), Err(DecodeError::UnexpectedEof));
}

#[test]
fn level_bytes_decode_to_variants() {
    assert_eq!(Level::from(1u8), Level::Land);
    assert_eq!(Level::from(2u8), Level::Lake);
    assert_eq!(Level::from(3u8), Level::IslandInLake);
    assert_eq!(Level::from(4u8), Level::PondInIslandInLake);
    assert_eq!(Level::from(0u8), Level::Other(0));
    assert_eq!(Level::from(9u8), Level::Other(9));
}

#[test]
fn source_bytes_decode_to_variants() {
    assert_eq!(Source::from(0u8), Source::CiaWdbii);
    assert_eq!(Source::from(1u8), Source::CiaWdbii);
    assert_eq!(Source::from(2u8), Source::Other(2));
    assert_eq!(Source::from(7u8), Source::Other(7));
}
