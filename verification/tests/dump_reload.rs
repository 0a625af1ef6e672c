use hnswio::{
    distance_mismatch_message, dump_point_data, load_description, load_hnsw, load_point, Description,
    DumpMode, Hnsw, HnswIO, LoadError, Neighbour, Point, PointId, PointIndexation, MAGICDATAP,
    MAGICDESCR, NB_LAYER_MAX,
};

fn coords(xs: &[f32]) -> Vec<u8> {
    let mut v = Vec::new();
    for x in xs {
        v.extend_from_slice(&x.to_le_bytes());
    }
    v
}

fn neighbour(origin: usize, layer: u8, rank: i32, dist: f32) -> Neighbour {
    Neighbour { d_id: origin, p_id: PointId(layer, rank), distance: dist.to_bits() }
}

fn point(origin: usize, layer: u8, rank: i32, xs: &[f32], nbs: Vec<(usize, Vec<Neighbour>)>) -> Point {
    let mut neighbours: Vec<Vec<Neighbour>> = vec![Vec::new(); NB_LAYER_MAX as usize];
    for (l, ns) in nbs {
        neighbours[l] = ns;
    }
    Point { origin_id: origin, p_id: PointId(layer, rank), v: coords(xs), neighbours }
}

/// Three points over two layers, coordinates of type f32 in dimension 2.
fn small_graph() -> Hnsw {
    let p0 = point(10, 0, 0, &[0.0, 1.0], vec![(0, vec![neighbour(11, 0, 1, 0.5), neighbour(12, 1, 0, 2.0)])]);
    let p1 = point(11, 0, 1, &[0.5, 1.5], vec![(0, vec![neighbour(10, 0, 0, 0.5)])]);
    let p2 = point(12, 1, 0, &[2.0, 3.0], vec![(0, vec![neighbour(10, 0, 0, 2.0)]), (1, vec![])]);
    let ix = PointIndexation {
        max_nb_connection: 10,
        max_layer: 16,
        points_by_layer: vec![vec![p0, p1], vec![p2]],
        nb_point: 3,
        entry_point: Some(PointId(1, 0)),
        elem_size: 4,
    };
    Hnsw {
        max_nb_connection: 10,
        ef_construction: 25,
        extend_candidates: true,
        keep_pruned: false,
        max_layer: 16,
        layer_indexed_points: ix,
        data_dimension: 2,
        dist_name: String::from("DistL1"),
        t_name: String::from("f32"),
        searching: false,
    }
}

fn dump(h: &Hnsw, mode: DumpMode) -> (Vec<u8>, Vec<u8>) {
    let mut g = Vec::new();
    let mut d = Vec::new();
    assert!(h.is_dump_ready());
    assert_eq!(h.dump(mode, &mut g, &mut d), Ok(1));
    (g, d)
}

fn same_point(a: &Point, b: &Point) {
    assert_eq!(a.origin_id, b.origin_id);
    assert_eq!(a.p_id, b.p_id);
    assert_eq!(a.v, b.v);
    assert_eq!(a.neighbours, b.neighbours);
}

fn same_graph(a: &Hnsw, b: &Hnsw) {
    assert_eq!(a.max_nb_connection, b.max_nb_connection);
    assert_eq!(a.ef_construction, b.ef_construction);
    assert_eq!(a.max_layer, b.max_layer);
    assert_eq!(a.data_dimension, b.data_dimension);
    assert_eq!(a.dist_name, b.dist_name);
    assert_eq!(a.t_name, b.t_name);
    let (x, y) = (&a.layer_indexed_points, &b.layer_indexed_points);
    assert_eq!(x.nb_point, y.nb_point);
    assert_eq!(x.entry_point, y.entry_point);
    assert_eq!(x.elem_size, y.elem_size);
    assert_eq!(x.points_by_layer.len(), y.points_by_layer.len());
    for (la, lb) in x.points_by_layer.iter().zip(y.points_by_layer.iter()) {
        assert_eq!(la.len(), lb.len());
        for (pa, pb) in la.iter().zip(lb.iter()) {
            same_point(pa, pb);
        }
    }
}

fn reload(g: &[u8], d: &[u8], dist: &str) -> Result<Hnsw, LoadError> {
    let (descr, k) = load_description(g)?;
    load_hnsw(g, k, &descr, d, &String::from(dist), &String::from("f32"), 4)
}

#[test]
fn test_dump_reload() {
    let h = small_graph();
    let (g, d) = dump(&h, DumpMode::Full);
    let (descr, k) = load_description(&g).unwrap();
    assert_eq!(descr.dumpmode, 1);
    assert_eq!(descr.max_nb_connection, 10);
    assert_eq!(descr.nb_layer, 16);
    assert_eq!(descr.ef, 25);
    assert_eq!(descr.nb_point, 3);
    assert_eq!(descr.dimension, 2);
    assert_eq!(descr.distname, "DistL1");
    assert_eq!(descr.t_name, "f32");
    assert_eq!(k, 4 + 3 + 8 * 3 + 8 + 6 + 8 + 3);
    let h2 = load_hnsw(&g, k, &descr, &d, &String::from("DistL1"), &String::from("f32"), 4).unwrap();
    same_graph(&h, &h2);
    assert!(h2.extend_candidates);
    assert!(!h2.keep_pruned);
    assert!(!h2.searching);
}

#[test]
fn reload_ignores_what_follows_the_streams() {
    let h = small_graph();
    let (mut g, mut d) = dump(&h, DumpMode::Full);
    g.extend_from_slice(&[1, 2, 3]);
    d.extend_from_slice(&[9, 9]);
    let h2 = reload(&g, &d, "DistL1").unwrap();
    same_graph(&h, &h2);
}

#[test]
fn reload_replaces_neighbour_ids_by_those_of_the_points_named() {
    let mut h = small_graph();
    h.layer_indexed_points.points_by_layer[0][1].neighbours[0][0].d_id = 999;
    let (g, d) = dump(&h, DumpMode::Full);
    let h2 = reload(&g, &d, "DistL1").unwrap();
    assert_eq!(h2.layer_indexed_points.points_by_layer[0][1].neighbours[0][0].d_id, 10);
}

#[test]
fn reload_counts_the_points_read() {
    let mut h = small_graph();
    h.layer_indexed_points.nb_point = 77;
    let (g, d) = dump(&h, DumpMode::Full);
    let (descr, _) = load_description(&g).unwrap();
    assert_eq!(descr.nb_point, 77);
    let h2 = reload(&g, &d, "DistL1").unwrap();
    assert_eq!(h2.layer_indexed_points.nb_point, 3);
}

#[test]
fn light_dump_then_reload_gives_back_the_graph() {
    let h = small_graph();
    let (g, d) = dump(&h, DumpMode::Light);
    let (descr, k) = load_description(&g).unwrap();
    assert_eq!(descr.dumpmode, 0);
    let h2 = load_hnsw(&g, k, &descr, &d, &String::from("DistL1"), &String::from("f32"), 4).unwrap();
    same_graph(&h, &h2);
}

#[test]
fn light_reload_finds_neighbours_by_origin_id() {
    let mut h = small_graph();
    // a Light dump stores no place: the neighbour is found by its origin id
    h.layer_indexed_points.points_by_layer[0][0].neighbours[0][1].p_id = PointId(0, 0);
    let (g, d) = dump(&h, DumpMode::Light);
    let h2 = reload(&g, &d, "DistL1").unwrap();
    assert_eq!(h2.layer_indexed_points.points_by_layer[0][0].neighbours[0][1].p_id, PointId(1, 0));
    assert_eq!(h2.layer_indexed_points.points_by_layer[0][0].neighbours[0][1].d_id, 12);
    let mut h = small_graph();
    h.layer_indexed_points.points_by_layer[0][0].neighbours[0][1].d_id = 55;
    let (g, d) = dump(&h, DumpMode::Light);
    assert_eq!(reload(&g, &d, "DistL1").err(), Some(LoadError::NeighbourOutOfRange));
}

#[test]
fn light_reload_finds_the_entry_point_by_origin_id() {
    let h = small_graph();
    let (mut g, d) = dump(&h, DumpMode::Light);
    let n = g.len();
    assert_eq!(&g[n - 8..], &12u64.to_le_bytes());
    g[n - 8..].copy_from_slice(&11u64.to_le_bytes());
    let h2 = reload(&g, &d, "DistL1").unwrap();
    assert_eq!(h2.layer_indexed_points.entry_point, Some(PointId(0, 1)));
    g[n - 8..].copy_from_slice(&99u64.to_le_bytes());
    assert_eq!(reload(&g, &d, "DistL1").err(), Some(LoadError::EntryOutOfRange));
}

#[test]
fn light_point_record_gets_the_place_where_it_is_read() {
    let p = point(7, 3, 9, &[1.0], vec![(0, vec![neighbour(8, 0, 1, 0.25)])]);
    let mut g = Vec::new();
    let mut d = Vec::new();
    // a Light graph record: magic number, origin id, then the neighbours
    let rec = &p;
    g.extend_from_slice(&hnswio::MAGICPOINT.to_le_bytes());
    g.extend_from_slice(&7u64.to_le_bytes());
    for l in 0..16 {
        let ns = &rec.neighbours[l];
        g.push(ns.len() as u8);
        for n in ns {
            g.extend_from_slice(&(n.d_id as u64).to_le_bytes());
            g.extend_from_slice(&n.distance.to_le_bytes());
        }
    }
    dump_point_data(rec, &mut d);
    let (q, gq, dq) = load_point(&g, 0, &d, 0, false, PointId(2, 5), 16, 4, 1).unwrap();
    assert_eq!(gq, g.len());
    assert_eq!(dq, d.len());
    assert_eq!(q.origin_id, 7);
    assert_eq!(q.p_id, PointId(2, 5));
    assert_eq!(q.v, rec.v);
    assert_eq!(q.neighbours[0], vec![Neighbour { d_id: 8, p_id: PointId(0, 0), distance: 0.25f32.to_bits() }]);
}

#[test]
fn light_dump_is_shorter() {
    let h = small_graph();
    let (gf, df) = dump(&h, DumpMode::Full);
    let (gl, dl) = dump(&h, DumpMode::Light);
    // 3 points, 4 neighbours and the entry point lose their place (5 bytes each)
    assert_eq!(gf.len() - gl.len(), 5 * (3 + 4 + 1));
    assert_eq!(df, dl);
}

#[test]
fn description_bytes_are_exact() {
    let descr = Description {
        dumpmode: 0,
        max_nb_connection: 24,
        nb_layer: 16,
        ef: 400,
        nb_point: 1000,
        dimension: 10,
        distname: String::from("L1"),
        t_name: String::from("f32"),
    };
    let mut out = vec![0xAA];
    assert_eq!(descr.dump(DumpMode::Full, &mut out), Ok(1));
    let mut expected = vec![0xAA];
    expected.extend_from_slice(&MAGICDESCR.to_le_bytes());
    expected.extend_from_slice(&[1, 24, 16]);
    expected.extend_from_slice(&400u64.to_le_bytes());
    expected.extend_from_slice(&1000u64.to_le_bytes());
    expected.extend_from_slice(&10u64.to_le_bytes());
    expected.extend_from_slice(&2u64.to_le_bytes());
    expected.extend_from_slice(b"L1");
    expected.extend_from_slice(&3u64.to_le_bytes());
    expected.extend_from_slice(b"f32");
    assert_eq!(out, expected);
    assert_eq!(&out[1..5], &[0x7f, 0x67, 0x0a, 0x00]);
}

#[test]
fn description_with_wrong_layer_count_fails_after_its_head() {
    let descr = Description {
        dumpmode: 1,
        max_nb_connection: 24,
        nb_layer: 15,
        ef: 400,
        nb_point: 1000,
        dimension: 10,
        distname: String::from("L1"),
        t_name: String::from("f32"),
    };
    let mut out = Vec::new();
    let r = descr.dump(DumpMode::Light, &mut out);
    assert_eq!(r, Err(String::from("dump of Description, nb_layer != NB_MAX_LAYER")));
    assert_eq!(out, vec![0x7f, 0x67, 0x0a, 0x00, 0, 24, 15]);
}

#[test]
fn graph_with_wrong_layer_count_is_not_dumped() {
    let mut h = small_graph();
    h.max_layer = 8;
    let mut g = Vec::new();
    let mut d = Vec::new();
    let r = h.dump(DumpMode::Full, &mut g, &mut d);
    assert_eq!(r, Err(String::from("dump of Description, nb_layer != NB_MAX_LAYER")));
    assert_eq!(g.len(), 7);
    assert!(d.is_empty());
    // the description stops the dump before the points are looked at
    h.layer_indexed_points.entry_point = None;
    h.layer_indexed_points.points_by_layer[0][1].p_id = PointId(5, 5);
    assert!(h.is_dump_ready());
    let mut g = Vec::new();
    let mut d = Vec::new();
    assert!(h.dump(DumpMode::Light, &mut g, &mut d).is_err());
    assert_eq!(g.len(), 7);
}

#[test]
fn description_round_trip_with_utf8_names() {
    let descr = Description {
        dumpmode: 0,
        max_nb_connection: 3,
        nb_layer: 16,
        ef: 1,
        nb_point: 2,
        dimension: 3,
        distname: String::from("Distanz-ä€"),
        t_name: String::from("u8"),
    };
    let mut out = Vec::new();
    descr.dump(DumpMode::Light, &mut out).unwrap();
    let (d2, k) = load_description(&out).unwrap();
    assert_eq!(k, out.len());
    assert_eq!(d2.distname, "Distanz-ä€");
    assert_eq!(d2.t_name, "u8");
    assert_eq!(d2.dumpmode, 0);
}

#[test]
fn description_read_reports_the_length_needed() {
    let h = small_graph();
    let (g, _) = dump(&h, DumpMode::Full);
    assert_eq!(load_description(&g[..0]).err(), Some(LoadError::Truncated(4)));
    assert_eq!(load_description(&g[..4]).err(), Some(LoadError::Truncated(5)));
    assert_eq!(load_description(&g[..9]).err(), Some(LoadError::Truncated(15)));
    assert_eq!(load_description(&g[..31]).err(), Some(LoadError::Truncated(39)));
    assert_eq!(load_description(&g[..39]).err(), Some(LoadError::Truncated(45)));
    assert_eq!(load_description(&g[..45]).err(), Some(LoadError::Truncated(53)));
    assert_eq!(load_description(&g[..53]).err(), Some(LoadError::Truncated(56)));
    assert!(load_description(&g[..56]).is_ok());
}

#[test]
fn description_errors() {
    let h = small_graph();
    let (g, _) = dump(&h, DumpMode::Full);
    let mut bad = g.clone();
    bad[0] = 0;
    assert_eq!(load_description(&bad).err(), Some(LoadError::DescrMagic));
    let mut long = g[..31].to_vec();
    long.extend_from_slice(&257u64.to_le_bytes());
    long.extend_from_slice(&vec![b'a'; 300]);
    assert_eq!(load_description(&long).err(), Some(LoadError::DistNameTooLong));
    let mut long_t = g[..31].to_vec();
    long_t.extend_from_slice(&1u64.to_le_bytes());
    long_t.push(b'x');
    long_t.extend_from_slice(&1000u64.to_le_bytes());
    assert_eq!(load_description(&long_t).err(), Some(LoadError::TypeNameTooLong));
    let mut not_utf8 = g[..31].to_vec();
    not_utf8.extend_from_slice(&2u64.to_le_bytes());
    not_utf8.extend_from_slice(&[0xff, 0xfe]);
    assert_eq!(load_description(&not_utf8).err(), Some(LoadError::NotUtf8));
}

#[test]
fn reload_errors_on_the_data_stream() {
    let h = small_graph();
    let (g, d) = dump(&h, DumpMode::Full);
    let mut bad = d.clone();
    bad[0] ^= 1;
    assert_eq!(reload(&g, &bad, "DistL1").err(), Some(LoadError::DataMagic));
    let mut dim = d.clone();
    dim[4] = 3;
    assert_eq!(reload(&g, &dim, "DistL1").err(), Some(LoadError::DimensionMismatch));
    assert_eq!(reload(&g, &d[..10], "DistL1").err(), Some(LoadError::Truncated(12)));
    assert_eq!(reload(&g, &d, "DistL2").err(), Some(LoadError::DistanceMismatch));
    // the data record of the first point holds another origin id
    let mut origin = d.clone();
    origin[16] = 99;
    assert_eq!(reload(&g, &origin, "DistL1").err(), Some(LoadError::OriginMismatch));
    let mut point_magic = d.clone();
    point_magic[15] = 0;
    assert_eq!(reload(&g, &point_magic, "DistL1").err(), Some(LoadError::DataMagic));
    let short = &d[..d.len() - 1];
    assert!(matches!(reload(&g, short, "DistL1").err(), Some(LoadError::Truncated(_))));
}

#[test]
fn reload_errors_on_the_graph_stream() {
    let h = small_graph();
    let (g, d) = dump(&h, DumpMode::Full);
    let (_, k) = load_description(&g).unwrap();
    let mut layers = g.clone();
    layers[k] = 17;
    assert_eq!(reload(&layers, &d, "DistL1").err(), Some(LoadError::TooManyLayers));
    let mut layer_magic = g.clone();
    layer_magic[k + 1] = 0;
    assert_eq!(reload(&layer_magic, &d, "DistL1").err(), Some(LoadError::LayerMagic));
    let mut point_magic = g.clone();
    point_magic[k + 13] = 0;
    assert_eq!(reload(&point_magic, &d, "DistL1").err(), Some(LoadError::PointMagic));
    // the rank of the first point
    let mut rank = g.clone();
    rank[k + 13 + 13] = 5;
    assert_eq!(reload(&rank, &d, "DistL1").err(), Some(LoadError::PointIdMismatch));
    // the rank of the entry point, in the last 4 bytes
    let mut entry = g.clone();
    let n = entry.len();
    entry[n - 4] = 7;
    assert_eq!(reload(&entry, &d, "DistL1").err(), Some(LoadError::EntryOutOfRange));
    assert_eq!(reload(&g[..g.len() - 1], &d, "DistL1").err(), Some(LoadError::Truncated(g.len())));
}

#[test]
fn reload_refuses_a_neighbour_that_names_no_point() {
    let mut h = small_graph();
    h.layer_indexed_points.points_by_layer[0][0].neighbours[0][1].p_id = PointId(1, 3);
    let (g, d) = dump(&h, DumpMode::Full);
    assert_eq!(reload(&g, &d, "DistL1").err(), Some(LoadError::NeighbourOutOfRange));
}

#[test]
fn data_stream_layout() {
    let h = small_graph();
    let (_, d) = dump(&h, DumpMode::Full);
    assert_eq!(&d[..4], &MAGICDATAP.to_le_bytes());
    assert_eq!(&d[4..12], &2u64.to_le_bytes());
    // then per point: magic, origin id, 2 coordinates of 4 bytes
    assert_eq!(d.len(), 12 + 3 * (4 + 8 + 8));
    assert_eq!(&d[12..16], &MAGICDATAP.to_le_bytes());
    assert_eq!(&d[16..24], &10u64.to_le_bytes());
    assert_eq!(&d[24..32], &coords(&[0.0, 1.0])[..]);
}

#[test]
fn point_data_part() {
    let p = point(7, 0, 0, &[1.5], vec![]);
    let mut out = vec![1];
    dump_point_data(&p, &mut out);
    let mut expected = vec![1];
    expected.extend_from_slice(&MAGICDATAP.to_le_bytes());
    expected.extend_from_slice(&7u64.to_le_bytes());
    expected.extend_from_slice(&1.5f32.to_le_bytes());
    assert_eq!(out, expected);
}

#[test]
fn dump_readiness() {
    let mut h = small_graph();
    assert!(h.is_dump_ready());
    h.layer_indexed_points.points_by_layer[0][1].p_id = PointId(0, 0);
    assert!(!h.is_dump_ready());
    let mut h = small_graph();
    h.layer_indexed_points.entry_point = Some(PointId(1, 1));
    assert!(!h.is_dump_ready());
    let mut h = small_graph();
    h.layer_indexed_points.entry_point = None;
    assert!(!h.is_dump_ready());
    let mut h = small_graph();
    h.layer_indexed_points.elem_size = 0;
    assert!(!h.is_dump_ready());
}

#[test]
fn data_dimension_of_the_entry_point() {
    let h = small_graph();
    assert_eq!(h.layer_indexed_points.get_data_dimension(), 2);
    assert_eq!(h.layer_indexed_points.get_nb_point(), 3);
}

#[test]
fn mismatch_message() {
    let m = distance_mismatch_message(&String::from("DistL1"), &String::from("DistL2"));
    assert_eq!(
        m,
        "error in distances : dumped distance is : DistL1 asked distance in loading is : DistL2"
    );
}

#[test]
fn description_read_is_decided_by_its_prefix() {
    let h = small_graph();
    let (g, _) = dump(&h, DumpMode::Full);
    let (d1, k1) = load_description(&g[..56]).unwrap();
    let (d2, k2) = load_description(&g).unwrap();
    assert_eq!(k1, k2);
    assert_eq!(d1.distname, d2.distname);
    assert_eq!(d1.t_name, d2.t_name);
    assert_eq!(d1.dimension, d2.dimension);
    let mut bad = g[..10].to_vec();
    bad[0] = 1;
    assert_eq!(load_description(&bad).err(), Some(LoadError::DescrMagic));
    bad.extend_from_slice(&g[10..]);
    assert_eq!(load_description(&bad).err(), Some(LoadError::DescrMagic));
}

#[test]
fn zero_sized_coordinates_reload() {
    let mut h = small_graph();
    for layer in h.layer_indexed_points.points_by_layer.iter_mut() {
        for p in layer.iter_mut() {
            p.v = Vec::new();
        }
    }
    let (g, d) = dump(&h, DumpMode::Full);
    let (descr, k) = load_description(&g).unwrap();
    assert_eq!(descr.dimension, 0);
    let h2 = load_hnsw(&g, k, &descr, &d, &String::from("DistL1"), &String::from("()"), 0).unwrap();
    assert_eq!(h2.data_dimension, 0);
    assert_eq!(h2.layer_indexed_points.nb_point, 3);
}
