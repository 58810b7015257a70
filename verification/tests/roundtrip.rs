use gshhg::{ByteSource, Gshhg, Level, Point, Polygon, Source};

fn sample_polygon() -> Polygon {
    Polygon {
        id: 3,
        n: 2,
        level: Level::Lake,
        version: 12,
        greenwich_crossed: true,
        source: Source::Other(3),
        river: true,
        west: -10_000_000,
        east: 20_000_000,
        south: -30_000_000,
        north: 40_000_000,
        area: 555,
        area_full: 777,
        container: Some(0),
        ancestor: None,
        points: vec![Point { x: 1, y: -1 }, Point { x: -2_000_000_000, y: 2_000_000_000 }],
        children: Vec::new(),
    }
}

#[test]
fn encode_then_decode_gives_the_polygon_back() {
    let poly = sample_polygon();
    let bytes = poly.to_bytes();
    let mut src = ByteSource::new(bytes);
    let back = Polygon::from_reader(&mut src).unwrap();
    assert_eq!(back, poly);
}

#[test]
fn encode_then_decode_whole_collection() {
    let root = Polygon { id: 0, n: 0, container: None, points: Vec::new(), ..sample_polygon() };
    let child = Polygon { id: 1, container: Some(0), ..sample_polygon() };
    let mut bytes = root.to_bytes();
    bytes.extend(child.to_bytes());
    let mut src = ByteSource::new(bytes);
    let g = Gshhg::from_reader(&mut src).unwrap();
    assert_eq!(g.polygons.len(), 2);
    assert_eq!(g.polygons[0].children, vec![1]);
    assert_eq!(g.polygons[1].points, child.points);
    assert_eq!(g.polygons[1].container, Some(0));
}

#[test]
fn encoder_writes_the_exact_byte_layout() {
    let poly = Polygon {
        id: 1,
        n: 1,
        level: Level::Land,
        version: 0,
        greenwich_crossed: false,
        source: Source::CiaWdbii,
        river: true,
        west: -1,
        east: 2,
        south: -3,
        north: 4,
        area: 5,
        area_full: 6,
        container: None,
        ancestor: Some(7),
        points: vec![Point { x: 256, y: -256 }],
        children: Vec::new(),
    };
    let bytes = poly.to_bytes();
    let expected: Vec<u8> = vec![
        0, 0, 0, 1, // id
        0, 0, 0, 1, // point count
        0x01, 0x00, 0x00, 0x01, // flag: level 1; river sets the source byte's low bit
        0xff, 0xff, 0xff, 0xff, // west -1
        0, 0, 0, 2, // east
        0xff, 0xff, 0xff, 0xfd, // south -3
        0, 0, 0, 4, // north
        0, 0, 0, 5, // area
        0, 0, 0, 6, // area_full
        0xff, 0xff, 0xff, 0xff, // container: absent
        0, 0, 0, 7, // ancestor
        0, 0, 1, 0, // x 256
        0xff, 0xff, 0xff, 0x00, // y -256
    ];
    assert_eq!(bytes, expected);
}

#[test]
fn level_and_source_encode_to_their_bytes() {
    assert_eq!(Level::Land.to_byte(), 1);
    assert_eq!(Level::Lake.to_byte(), 2);
    assert_eq!(Level::IslandInLake.to_byte(), 3);
    assert_eq!(Level::PondInIslandInLake.to_byte(), 4);
    assert_eq!(Level::Other(200).to_byte(), 200);
    assert_eq!(Source::CiaWdbii.to_byte(false), 0);
    assert_eq!(Source::CiaWdbii.to_byte(true), 1);
    assert_eq!(Source::Other(9).to_byte(true), 9);
}
