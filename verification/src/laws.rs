//! What a dump and a reload promise together: reading back what was written
//! gives back the graph, and reading a description can be done field by
//! field from a stream.
use vstd::prelude::*;
use vstd::utf8::{encode_utf8, encode_utf8_valid_utf8, encode_utf8_decode_utf8};
use crate::wire::{
    LoadError, holds_at, lemma_holds_split, lemma_len_bytes, lemma_read_u8, lemma_read_u32,
    lemma_read_i32, lemma_read_usize, lemma_read_bytes, read_u8, read_u32, read_i32, read_usize,
    read_bytes, u8_bytes, u32_bytes, i32_bytes, usize_bytes,
};
use crate::hnsw::{
    PointId, Neighbour, PointModel, IndexationModel, HnswModel, NB_LAYER_MAX, names_point, point_at,
};
use crate::format::{
    MAGICPOINT, MAGICDATAP, MAGICLAYER, PointFormat, id_bytes, neighbour_bytes, neighbours_bytes,
    layer_neighbours_bytes, neighbourhood_bytes, point_graph_bytes, point_data_bytes,
    points_graph_bytes, points_data_bytes, layer_graph_bytes, layers_graph_bytes, layers_data_bytes,
    entry_bytes, indexation_graph_bytes, indexation_data_bytes, hnsw_description, hnsw_dump,
    parse_neighbour, parse_neighbours, parse_neighbourhood, pad_layers, parse_point,
    parse_layer_points, parse_layers, neighbours_resolvable, resolve_neighbour, resolve_point,
    resolve, total_points, parse_entry, point_format, parse_indexation, parse_hnsw, DumpMode,
    DescriptionModel, MAGICDESCR, MAX_NAME_LEN, mode_byte, name_bytes, description_bytes,
    parse_name, parse_description_head, parse_description, place_of, find_origin, locate,
    parse_point_head,
};
use crate::load::{lemma_find_origin, same_places, lemma_resolve_shape};
use crate::hnsw::{PointIndexation, Hnsw};
use crate::hnswio::HnswIO;

verus! {

/// A name that fits in a description: at most 256 bytes of UTF-8.
pub open spec fn storable_name(name: Seq<char>) -> bool {
    encode_utf8(name).len() <= MAX_NAME_LEN
}

proof fn lemma_name_round_trip(b: Seq<u8>, pos: int, name: Seq<char>, too_long: LoadError)
    requires
        holds_at(b, pos, name_bytes(name)),
        storable_name(name),
    ensures
        parse_name(b, pos, too_long) == Ok::<(Seq<char>, int), LoadError>(
            (name, pos + name_bytes(name).len()),
        ),
{
    lemma_len_bytes();
    let enc = encode_utf8(name);
    lemma_holds_split(b, pos, usize_bytes(enc.len() as usize), enc);
    lemma_read_usize(b, pos, enc.len() as usize);
    lemma_read_bytes(b, pos + 8, enc);
    encode_utf8_valid_utf8(name);
    encode_utf8_decode_utf8(name);
}

/// The description as a reload sees it after a dump with `mode`: the mode
/// byte is the one of `mode`, the rest is as dumped.
pub open spec fn dumped_description(d: DescriptionModel, mode: DumpMode) -> DescriptionModel {
    DescriptionModel { dumpmode: mode_byte(mode), ..d }
}

/// Reading a description where its encoding stands gives it back, with the
/// mode that it was dumped with, and the position after it.
pub proof fn lemma_description_at(b: Seq<u8>, d: DescriptionModel, mode: DumpMode)
    requires
        holds_at(b, 0, description_bytes(d, mode)),
        storable_name(d.distname),
        storable_name(d.t_name),
    ensures
        parse_description(b) == Ok::<(DescriptionModel, int), LoadError>(
            (dumped_description(d, mode), description_bytes(d, mode).len() as int),
        ),
{
    lemma_len_bytes();
    let h0 = u32_bytes(MAGICDESCR);
    let h1 = h0 + u8_bytes(mode_byte(mode));
    let h2 = h1 + u8_bytes(d.max_nb_connection);
    let head = h2 + u8_bytes(d.nb_layer);
    let e1 = head + usize_bytes(d.ef);
    let e2 = e1 + usize_bytes(d.nb_point);
    let e3 = e2 + usize_bytes(d.dimension);
    let e4 = e3 + name_bytes(d.distname);
    assert(description_bytes(d, mode) == e4 + name_bytes(d.t_name));
    lemma_holds_split(b, 0, e4, name_bytes(d.t_name));
    lemma_holds_split(b, 0, e3, name_bytes(d.distname));
    lemma_holds_split(b, 0, e2, usize_bytes(d.dimension));
    lemma_holds_split(b, 0, e1, usize_bytes(d.nb_point));
    lemma_holds_split(b, 0, head, usize_bytes(d.ef));
    lemma_holds_split(b, 0, h2, u8_bytes(d.nb_layer));
    lemma_holds_split(b, 0, h1, u8_bytes(d.max_nb_connection));
    lemma_holds_split(b, 0, h0, u8_bytes(mode_byte(mode)));
    lemma_read_u32(b, 0, MAGICDESCR);
    lemma_read_u8(b, 4, mode_byte(mode));
    lemma_read_u8(b, 5, d.max_nb_connection);
    lemma_read_u8(b, 6, d.nb_layer);
    lemma_read_usize(b, 7, d.ef);
    lemma_read_usize(b, 15, d.nb_point);
    lemma_read_usize(b, 23, d.dimension);
    lemma_name_round_trip(b, 31, d.distname, LoadError::DistNameTooLong);
    lemma_name_round_trip(b, e4.len() as int, d.t_name, LoadError::TypeNameTooLong);
}

/// Law: a description read back from its dump, followed by anything, is the
/// description dumped (with the mode that the dump was asked for), and the
/// reader stops where the description ends.
pub proof fn law_description_round_trip(d: DescriptionModel, mode: DumpMode, rest: Seq<u8>)
    requires
        storable_name(d.distname),
        storable_name(d.t_name),
    ensures
        parse_description(description_bytes(d, mode) + rest) == Ok::<
            (DescriptionModel, int),
            LoadError,
        >((dumped_description(d, mode), description_bytes(d, mode).len() as int)),
{
    let b = description_bytes(d, mode) + rest;
    assert(b.subrange(0, description_bytes(d, mode).len() as int) =~= description_bytes(d, mode));
    lemma_description_at(b, d, mode);
}

/// A read that stays inside `b` reads the same from `b` followed by anything.
proof fn lemma_reads_extend(b: Seq<u8>, s: Seq<u8>, pos: int, n: int)
    requires
        0 <= pos,
        0 <= n,
    ensures
        pos + 1 <= b.len() ==> read_u8(b + s, pos) == read_u8(b, pos),
        pos + 4 <= b.len() ==> read_u32(b + s, pos) == read_u32(b, pos),
        pos + 4 <= b.len() ==> read_i32(b + s, pos) == read_i32(b, pos),
        pos + 8 <= b.len() ==> read_usize(b + s, pos) == read_usize(b, pos),
        pos + n <= b.len() ==> read_bytes(b + s, pos, n) == read_bytes(b, pos, n),
{
    if pos + 4 <= b.len() {
        assert((b + s).subrange(pos, pos + 4) =~= b.subrange(pos, pos + 4));
    }
    if pos + 8 <= b.len() {
        assert((b + s).subrange(pos, pos + 8) =~= b.subrange(pos, pos + 8));
    }
    if pos + n <= b.len() {
        assert((b + s).subrange(pos, pos + n) =~= b.subrange(pos, pos + n));
    }
}

proof fn lemma_name_extend(b: Seq<u8>, s: Seq<u8>, pos: int, too_long: LoadError)
    requires
        0 <= pos,
        !(parse_name(b, pos, too_long) matches Err(LoadError::Truncated(_))),
    ensures
        parse_name(b + s, pos, too_long) == parse_name(b, pos, too_long),
{
    lemma_reads_extend(b, s, pos, 0);
    if let Ok(n) = read_usize(b, pos) {
        lemma_reads_extend(b, s, pos + 8, n as int);
    }
}

/// Law: a description read stops at the first field that the input does not
/// hold, and gives the input length that this field needs, which is more than
/// the input holds; so reading a stream field by field always moves on.
pub proof fn law_description_truncation_needs_more(b: Seq<u8>)
    ensures
        parse_description(b) matches Err(LoadError::Truncated(n)) ==> n > b.len(),
{
}

/// Law: once a description read has an answer other than running out of
/// input, more input after it does not change that answer.
pub proof fn law_description_prefix_decides(b: Seq<u8>, s: Seq<u8>)
    ensures
        !(parse_description(b) matches Err(LoadError::Truncated(_))) ==> parse_description(b + s)
            == parse_description(b),
{
    if !(parse_description(b) matches Err(LoadError::Truncated(_))) {
        lemma_reads_extend(b, s, 0, 0);
        lemma_reads_extend(b, s, 4, 0);
        lemma_reads_extend(b, s, 5, 0);
        lemma_reads_extend(b, s, 6, 0);
        lemma_reads_extend(b, s, 7, 0);
        lemma_reads_extend(b, s, 15, 0);
        lemma_reads_extend(b, s, 23, 0);
        assert(parse_description_head(b + s) == parse_description_head(b));
        if parse_description_head(b) is Ok {
            lemma_name_extend(b, s, 31, LoadError::DistNameTooLong);
            if let Ok((_, p)) = parse_name(b, 31, LoadError::DistNameTooLong) {
                lemma_name_extend(b, s, p, LoadError::TypeNameTooLong);
            }
        }
    }
}

// ---------------------------------------------------------------------------
// Reading back the graph and data streams.
// ---------------------------------------------------------------------------

/// A neighbour as a reload first reads it: a `Light` dump stores no place.
pub open spec fn as_read(n: Neighbour, full: bool) -> Neighbour {
    if full {
        n
    } else {
        Neighbour { d_id: n.d_id, p_id: PointId(0, 0), distance: n.distance }
    }
}

pub open spec fn layer_as_read(ns: Seq<Neighbour>, full: bool) -> Seq<Neighbour> {
    ns.map_values(|n: Neighbour| as_read(n, full))
}

pub open spec fn neighbourhood_as_read(ls: Seq<Seq<Neighbour>>, full: bool) -> Seq<Seq<Neighbour>> {
    ls.map_values(|ns: Seq<Neighbour>| layer_as_read(ns, full))
}

/// A point as a reload reads it, before its neighbours are resolved: in a
/// `Light` dump it gets the place where it is read; its layers of neighbours
/// are followed by empty ones up to `NB_LAYER_MAX`.
pub open spec fn point_as_read(p: PointModel, full: bool, place: PointId, nb_layer: u8) -> PointModel {
    PointModel {
        origin_id: p.origin_id,
        p_id: if full {
            p.p_id
        } else {
            place
        },
        v: p.v,
        neighbours: pad_layers(neighbourhood_as_read(p.neighbours, full), nb_layer),
    }
}

proof fn lemma_neighbour_at(g: Seq<u8>, pos: int, n: Neighbour, full: bool)
    requires
        holds_at(g, pos, neighbour_bytes(n, full)),
    ensures
        parse_neighbour(g, pos, full) == Ok::<(Neighbour, int), LoadError>(
            (as_read(n, full), pos + neighbour_bytes(n, full).len()),
        ),
{
    lemma_len_bytes();
    let a = usize_bytes(n.d_id);
    let ab = a + id_bytes(n.p_id, full);
    lemma_holds_split(g, pos, ab, u32_bytes(n.distance));
    lemma_holds_split(g, pos, a, id_bytes(n.p_id, full));
    lemma_read_usize(g, pos, n.d_id);
    if full {
        lemma_holds_split(g, pos + 8, u8_bytes(n.p_id.0), i32_bytes(n.p_id.1));
        lemma_read_u8(g, pos + 8, n.p_id.0);
        lemma_read_i32(g, pos + 9, n.p_id.1);
        lemma_read_u32(g, pos + 13, n.distance);
    } else {
        lemma_read_u32(g, pos + 8, n.distance);
    }
}

proof fn lemma_neighbours_at(g: Seq<u8>, pos: int, ns: Seq<Neighbour>, full: bool)
    requires
        holds_at(g, pos, neighbours_bytes(ns, full)),
    ensures
        parse_neighbours(g, pos, ns.len(), full) == Ok::<(Seq<Neighbour>, int), LoadError>(
            (layer_as_read(ns, full), pos + neighbours_bytes(ns, full).len()),
        ),
    decreases ns.len(),
{
    if ns.len() == 0 {
        assert(layer_as_read(ns, full) =~= Seq::<Neighbour>::empty());
    } else {
        let init = ns.drop_last();
        lemma_holds_split(g, pos, neighbours_bytes(init, full), neighbour_bytes(ns.last(), full));
        lemma_neighbours_at(g, pos, init, full);
        lemma_neighbour_at(g, pos + neighbours_bytes(init, full).len(), ns.last(), full);
        assert(layer_as_read(init, full).push(as_read(ns.last(), full)) =~= layer_as_read(ns, full));
    }
}

/// Each layer of neighbours fits its count on one byte.
pub open spec fn counts_fit(ls: Seq<Seq<Neighbour>>) -> bool {
    forall|k: int| 0 <= k < ls.len() ==> #[trigger] ls[k].len() <= 255
}

proof fn lemma_neighbourhood_at(g: Seq<u8>, pos: int, ls: Seq<Seq<Neighbour>>, full: bool)
    requires
        holds_at(g, pos, neighbourhood_bytes(ls, full)),
        counts_fit(ls),
    ensures
        parse_neighbourhood(g, pos, ls.len(), full) == Ok::<(Seq<Seq<Neighbour>>, int), LoadError>(
            (neighbourhood_as_read(ls, full), pos + neighbourhood_bytes(ls, full).len()),
        ),
    decreases ls.len(),
{
    lemma_len_bytes();
    if ls.len() == 0 {
        assert(neighbourhood_as_read(ls, full) =~= Seq::<Seq<Neighbour>>::empty());
    } else {
        let init = ls.drop_last();
        let last = ls.last();
        assert(counts_fit(init)) by {
            assert forall|k: int| 0 <= k < init.len() implies #[trigger] init[k].len() <= 255 by {
                assert(init[k] == ls[k]);
            }
        }
        assert(last.len() <= 255) by {
            assert(ls[ls.len() - 1] == last);
        }
        lemma_holds_split(g, pos, neighbourhood_bytes(init, full), layer_neighbours_bytes(last, full));
        lemma_neighbourhood_at(g, pos, init, full);
        let p = pos + neighbourhood_bytes(init, full).len();
        lemma_holds_split(g, p, u8_bytes(last.len() as u8), neighbours_bytes(last, full));
        lemma_read_u8(g, p, last.len() as u8);
        assert((last.len() as u8) as nat == last.len());
        lemma_neighbours_at(g, p + 1, last, full);
        assert(neighbourhood_as_read(init, full).push(layer_as_read(last, full)) =~= neighbourhood_as_read(
            ls,
            full,
        ));
    }
}

proof fn lemma_point_at(
    g: Seq<u8>,
    gpos: int,
    d: Seq<u8>,
    dpos: int,
    p: PointModel,
    f: PointFormat,
    place: PointId,
)
    requires
        holds_at(g, gpos, point_graph_bytes(p, f.full)),
        holds_at(d, dpos, point_data_bytes(p)),
        p.neighbours.len() == f.nb_layer,
        counts_fit(p.neighbours),
        p.v.len() == f.vlen,
    ensures
        parse_point(g, gpos, d, dpos, f, place) == Ok::<(PointModel, int, int), LoadError>(
            (
                point_as_read(p, f.full, place, f.nb_layer),
                gpos + point_graph_bytes(p, f.full).len(),
                dpos + point_data_bytes(p).len(),
            ),
        ),
{
    lemma_len_bytes();
    let full = f.full;
    let a = u32_bytes(MAGICPOINT);
    let ab = a + usize_bytes(p.origin_id);
    let abc = ab + id_bytes(p.p_id, full);
    lemma_holds_split(g, gpos, abc, neighbourhood_bytes(p.neighbours, full));
    lemma_holds_split(g, gpos, ab, id_bytes(p.p_id, full));
    lemma_holds_split(g, gpos, a, usize_bytes(p.origin_id));
    lemma_read_u32(g, gpos, MAGICPOINT);
    lemma_read_usize(g, gpos + 4, p.origin_id);
    if full {
        lemma_holds_split(g, gpos + 12, u8_bytes(p.p_id.0), i32_bytes(p.p_id.1));
        lemma_read_u8(g, gpos + 12, p.p_id.0);
        lemma_read_i32(g, gpos + 13, p.p_id.1);
        assert(PointId(p.p_id.0, p.p_id.1) == p.p_id);
    }
    assert(parse_point_head(g, gpos, full, place) == Ok::<(usize, PointId, int), LoadError>(
        (p.origin_id, point_as_read(p, full, place, f.nb_layer).p_id, gpos + abc.len()),
    ));
    lemma_neighbourhood_at(g, gpos + abc.len(), p.neighbours, full);
    let da = u32_bytes(MAGICDATAP);
    let dab = da + usize_bytes(p.origin_id);
    lemma_holds_split(d, dpos, dab, p.v);
    lemma_holds_split(d, dpos, da, usize_bytes(p.origin_id));
    lemma_read_u32(d, dpos, MAGICDATAP);
    lemma_read_usize(d, dpos + 4, p.origin_id);
    lemma_read_bytes(d, dpos + 12, p.v);
}

/// Law: a point dumped (in either mode) with `nb_layer` layers of
/// neighbours, each of at most 255, and `vlen` bytes of coordinates, then read
/// back with that number of layers, gives back the point as `point_as_read`
/// says: the same origin id and coordinates; the same place in a `Full` dump
/// and the place where it is read in a `Light` one; the same neighbours, with
/// their places in a `Full` dump only (until they are resolved); empty layers
/// up to `NB_LAYER_MAX`. Both records are read to their end.
pub proof fn law_point_round_trip(
    p: PointModel,
    f: PointFormat,
    place: PointId,
    gs: Seq<u8>,
    ds: Seq<u8>,
)
    requires
        p.neighbours.len() == f.nb_layer,
        counts_fit(p.neighbours),
        p.v.len() == f.vlen,
    ensures
        parse_point(
            point_graph_bytes(p, f.full) + gs,
            0,
            point_data_bytes(p) + ds,
            0,
            f,
            place,
        ) == Ok::<(PointModel, int, int), LoadError>(
            (
                point_as_read(p, f.full, place, f.nb_layer),
                point_graph_bytes(p, f.full).len() as int,
                point_data_bytes(p).len() as int,
            ),
        ),
{
    let g = point_graph_bytes(p, f.full) + gs;
    let d = point_data_bytes(p) + ds;
    assert(g.subrange(0, point_graph_bytes(p, f.full).len() as int) =~= point_graph_bytes(p, f.full));
    assert(d.subrange(0, point_data_bytes(p).len() as int) =~= point_data_bytes(p));
    lemma_point_at(g, 0, d, 0, p, f, place);
}

/// A point as its layer reads it back: its neighbours as first read.
pub open spec fn point_read_back(p: PointModel, full: bool) -> PointModel {
    PointModel {
        origin_id: p.origin_id,
        p_id: p.p_id,
        v: p.v,
        neighbours: neighbourhood_as_read(p.neighbours, full),
    }
}

/// The points of all layers as a reload first reads them.
pub open spec fn points_as_read(points: Seq<Seq<PointModel>>, full: bool) -> Seq<Seq<PointModel>> {
    points.map_values(|ps: Seq<PointModel>| ps.map_values(|p: PointModel| point_read_back(p, full)))
}

/// What a reload needs of a point: all layers of neighbours, each with a
/// count that fits on one byte, and a data vector of `vlen` bytes.
pub open spec fn point_reloadable(p: PointModel, vlen: int) -> bool {
    &&& p.neighbours.len() == NB_LAYER_MAX
    &&& counts_fit(p.neighbours)
    &&& p.v.len() == vlen
}

/// What a reload needs of the points of layer `l`: each is reloadable and
/// stands at the place that it names, and ranks fit in an `i32`.
pub open spec fn layer_reloadable(ps: Seq<PointModel>, l: int, vlen: int) -> bool {
    &&& 0 <= l < 256
    &&& ps.len() <= 0x8000_0000
    &&& forall|j: int|
        0 <= j < ps.len() ==> (#[trigger] ps[j]).p_id == PointId(l as u8, j as i32)
            && point_reloadable(ps[j], vlen)
}

proof fn lemma_layer_points_at(
    g: Seq<u8>,
    gpos: int,
    d: Seq<u8>,
    dpos: int,
    l: int,
    ps: Seq<PointModel>,
    f: PointFormat,
)
    requires
        holds_at(g, gpos, points_graph_bytes(ps, f.full)),
        holds_at(d, dpos, points_data_bytes(ps)),
        f.nb_layer == NB_LAYER_MAX,
        layer_reloadable(ps, l, f.vlen),
    ensures
        parse_layer_points(g, gpos, d, dpos, l, ps.len(), f) == Ok::<
            (Seq<PointModel>, int, int),
            LoadError,
        >(
            (
                ps.map_values(|p: PointModel| point_read_back(p, f.full)),
                gpos + points_graph_bytes(ps, f.full).len(),
                dpos + points_data_bytes(ps).len(),
            ),
        ),
    decreases ps.len(),
{
    let full = f.full;
    if ps.len() == 0 {
        assert(ps.map_values(|p: PointModel| point_read_back(p, full)) =~= Seq::<PointModel>::empty());
    } else {
        let init = ps.drop_last();
        let last = ps.last();
        let j = ps.len() - 1;
        assert(last == ps[j]);
        assert(layer_reloadable(init, l, f.vlen)) by {
            assert forall|i: int| 0 <= i < init.len() implies (#[trigger] init[i]).p_id == PointId(
                l as u8,
                i as i32,
            ) && point_reloadable(init[i], f.vlen) by {
                assert(init[i] == ps[i]);
            }
        }
        lemma_holds_split(g, gpos, points_graph_bytes(init, full), point_graph_bytes(last, full));
        lemma_holds_split(d, dpos, points_data_bytes(init), point_data_bytes(last));
        lemma_layer_points_at(g, gpos, d, dpos, l, init, f);
        lemma_point_at(
            g,
            gpos + points_graph_bytes(init, full).len(),
            d,
            dpos + points_data_bytes(init).len(),
            last,
            f,
            place_of(l, j),
        );
        let rb = point_read_back(last, full);
        assert(pad_layers(neighbourhood_as_read(last.neighbours, full), f.nb_layer)
            == neighbourhood_as_read(last.neighbours, full));
        assert(point_as_read(last, full, place_of(l, j), f.nb_layer) == rb);
        assert(rb.p_id.0 as int == l);
        assert(rb.p_id.1 as usize as int == j);
        assert(init.map_values(|p: PointModel| point_read_back(p, full)).push(rb) =~= ps.map_values(
            |p: PointModel| point_read_back(p, full),
        ));
    }
}

proof fn lemma_layers_at(
    g: Seq<u8>,
    gpos: int,
    d: Seq<u8>,
    dpos: int,
    ls: Seq<Seq<PointModel>>,
    f: PointFormat,
)
    requires
        holds_at(g, gpos, layers_graph_bytes(ls, f.full)),
        holds_at(d, dpos, layers_data_bytes(ls)),
        f.nb_layer == NB_LAYER_MAX,
        ls.len() <= 256,
        forall|i: int| 0 <= i < ls.len() ==> layer_reloadable(#[trigger] ls[i], i, f.vlen),
    ensures
        parse_layers(g, gpos, d, dpos, ls.len(), f) == Ok::<
            (Seq<Seq<PointModel>>, int, int),
            LoadError,
        >(
            (
                points_as_read(ls, f.full),
                gpos + layers_graph_bytes(ls, f.full).len(),
                dpos + layers_data_bytes(ls).len(),
            ),
        ),
    decreases ls.len(),
{
    lemma_len_bytes();
    let full = f.full;
    if ls.len() == 0 {
        assert(points_as_read(ls, full) =~= Seq::<Seq<PointModel>>::empty());
    } else {
        let init = ls.drop_last();
        let last = ls.last();
        let l = ls.len() - 1;
        assert(last == ls[l]);
        assert forall|i: int| 0 <= i < init.len() implies layer_reloadable(
            #[trigger] init[i],
            i,
            f.vlen,
        ) by {
            assert(init[i] == ls[i]);
        }
        lemma_holds_split(g, gpos, layers_graph_bytes(init, full), layer_graph_bytes(last, full));
        lemma_holds_split(d, dpos, layers_data_bytes(init), points_data_bytes(last));
        lemma_layers_at(g, gpos, d, dpos, init, f);
        let gp = gpos + layers_graph_bytes(init, full).len();
        let dp = dpos + layers_data_bytes(init).len();
        let a = u32_bytes(MAGICLAYER);
        let ab = a + usize_bytes(last.len() as usize);
        lemma_holds_split(g, gp, ab, points_graph_bytes(last, full));
        lemma_holds_split(g, gp, a, usize_bytes(last.len() as usize));
        lemma_read_u32(g, gp, MAGICLAYER);
        lemma_read_usize(g, gp + 4, last.len() as usize);
        assert((last.len() as usize) as nat == last.len());
        lemma_layer_points_at(g, gp + 12, d, dp, l, last, f);
        assert(points_as_read(init, full).push(
            last.map_values(|p: PointModel| point_read_back(p, full)),
        ) =~= points_as_read(ls, full));
    }
}

/// Each neighbour names a point of the graph and carries that point's origin
/// id and place.
pub open spec fn neighbours_consistent(points: Seq<Seq<PointModel>>) -> bool {
    forall|i: int, j: int, k: int, m: int|
        0 <= i < points.len() && 0 <= j < points[i].len() && 0 <= k < points[i][j].neighbours.len()
            && 0 <= m < points[i][j].neighbours[k].len() ==> neighbour_consistent(
            points,
            #[trigger] points[i][j].neighbours[k][m],
        )
}

/// `n` names a point of the graph and carries that point's origin id and place.
pub open spec fn neighbour_consistent(points: Seq<Seq<PointModel>>, n: Neighbour) -> bool {
    &&& names_point(points, n.p_id)
    &&& point_at(points, n.p_id).origin_id == n.d_id
    &&& point_at(points, n.p_id).p_id == n.p_id
}

/// No two points of the graph have the same origin id.
pub open spec fn origins_unique(points: Seq<Seq<PointModel>>) -> bool {
    forall|l1: int, r1: int, l2: int, r2: int|
        #![trigger points[l1][r1].origin_id, points[l2][r2].origin_id]
        0 <= l1 < points.len() && 0 <= r1 < points[l1].len() && 0 <= l2 < points.len() && 0 <= r2
            < points[l2].len() && points[l1][r1].origin_id == points[l2][r2].origin_id ==> l1 == l2
            && r1 == r2
}

/// With unique origin ids, a point is found by its origin id where it stands.
proof fn lemma_find_unique(points: Seq<Seq<PointModel>>, l: int, r: int)
    requires
        origins_unique(points),
        0 <= l < points.len(),
        0 <= r < points[l].len(),
    ensures
        find_origin(points, points[l][r].origin_id) == Some::<(int, int)>((l, r)),
{
    let o = points[l][r].origin_id;
    lemma_find_origin(points, o);
    if let Some((l2, r2)) = find_origin(points, o) {
        assert(points[l2][r2].origin_id == o);
    } else {
        assert(points[l][r].origin_id != o);
    }
}

proof fn lemma_as_read_places(pts: Seq<Seq<PointModel>>, full: bool)
    ensures
        same_places(points_as_read(pts, full), pts),
        forall|i: int, j: int|
            0 <= i < pts.len() && 0 <= j < pts[i].len() ==> #[trigger] points_as_read(pts, full)[i][j]
                == point_read_back(pts[i][j], full),
        origins_unique(pts) ==> origins_unique(points_as_read(pts, full)),
        forall|id: PointId| #[trigger] names_point(points_as_read(pts, full), id) == names_point(pts, id),
{
    let rd = points_as_read(pts, full);
    assert forall|i: int| 0 <= i < rd.len() implies #[trigger] rd[i].len() == pts[i].len() by {}
    assert forall|i: int, j: int| 0 <= i < pts.len() && 0 <= j < pts[i].len() implies #[trigger] rd[i][j]
        == point_read_back(pts[i][j], full) by {}
    if origins_unique(pts) {
        assert forall|l1: int, r1: int, l2: int, r2: int|
            #![trigger rd[l1][r1].origin_id, rd[l2][r2].origin_id]
            0 <= l1 < rd.len() && 0 <= r1 < rd[l1].len() && 0 <= l2 < rd.len() && 0 <= r2 < rd[l2].len()
                && rd[l1][r1].origin_id == rd[l2][r2].origin_id implies l1 == l2 && r1 == r2 by {
            assert(rd[l1][r1] == point_read_back(pts[l1][r1], full));
            assert(rd[l2][r2] == point_read_back(pts[l2][r2], full));
            assert(pts[l1][r1].origin_id == pts[l2][r2].origin_id);
        }
    }
}

proof fn lemma_resolve_one(pts: Seq<Seq<PointModel>>, full: bool, n: Neighbour)
    requires
        neighbour_consistent(pts, n),
        !full ==> origins_unique(pts),
    ensures
        locate(points_as_read(pts, full), as_read(n, full), full) == Some::<(int, int)>(
            (n.p_id.0 as int, n.p_id.1 as int),
        ),
        resolve_neighbour(points_as_read(pts, full), as_read(n, full), full) == n,
{
    let rd = points_as_read(pts, full);
    lemma_as_read_places(pts, full);
    let l = n.p_id.0 as int;
    let r = n.p_id.1 as int;
    assert(rd[l][r] == point_read_back(pts[l][r], full));
    if !full {
        lemma_find_unique(rd, l, r);
    }
}

proof fn lemma_resolve_as_read(pts: Seq<Seq<PointModel>>, full: bool)
    requires
        neighbours_consistent(pts),
        !full ==> origins_unique(pts),
    ensures
        neighbours_resolvable(points_as_read(pts, full), full),
        resolve(points_as_read(pts, full), full) == pts,
{
    let rd = points_as_read(pts, full);
    lemma_as_read_places(pts, full);
    assert forall|i: int, j: int, k: int, m: int|
        0 <= i < pts.len() && 0 <= j < pts[i].len() && 0 <= k < pts[i][j].neighbours.len() && 0 <= m
            < pts[i][j].neighbours[k].len() implies {
        &&& rd[i][j].neighbours[k][m] == as_read(pts[i][j].neighbours[k][m], full)
        &&& (#[trigger] locate(rd, rd[i][j].neighbours[k][m], full)) is Some
        &&& resolve_neighbour(rd, rd[i][j].neighbours[k][m], full) == pts[i][j].neighbours[k][m]
    } by {
        let n = pts[i][j].neighbours[k][m];
        assert(neighbour_consistent(pts, n));
        assert(rd[i][j] == point_read_back(pts[i][j], full));
        assert(rd[i][j].neighbours[k] == layer_as_read(pts[i][j].neighbours[k], full));
        lemma_resolve_one(pts, full, n);
    }
    assert forall|i: int, j: int, k: int, m: int|
        0 <= i < rd.len() && 0 <= j < rd[i].len() && 0 <= k < rd[i][j].neighbours.len() && 0 <= m
            < rd[i][j].neighbours[k].len() implies (#[trigger] locate(
        rd,
        rd[i][j].neighbours[k][m],
        full,
    )) is Some by {
        assert(rd[i][j] == point_read_back(pts[i][j], full));
        assert(rd[i][j].neighbours[k] == layer_as_read(pts[i][j].neighbours[k], full));
    }
    assert forall|i: int| 0 <= i < pts.len() implies #[trigger] resolve(rd, full)[i] =~= pts[i] by {
        assert forall|j: int| 0 <= j < pts[i].len() implies #[trigger] resolve(rd, full)[i][j]
            == pts[i][j] by {
            let p = pts[i][j];
            assert(rd[i][j] == point_read_back(p, full));
            let rp = resolve_point(rd, rd[i][j], full);
            assert forall|k: int| 0 <= k < p.neighbours.len() implies #[trigger] rp.neighbours[k]
                =~= p.neighbours[k] by {
                assert(rd[i][j].neighbours[k] == layer_as_read(p.neighbours[k], full));
                assert forall|m: int| 0 <= m < p.neighbours[k].len() implies #[trigger] rp.neighbours[k][m]
                    == p.neighbours[k][m] by {
                    assert(resolve_neighbour(rd, rd[i][j].neighbours[k][m], full) == p.neighbours[k][m]);
                }
            }
            assert(rp.neighbours =~= p.neighbours);
        }
    }
    assert(resolve(rd, full) =~= pts);
}

proof fn lemma_total_as_read(pts: Seq<Seq<PointModel>>, full: bool)
    ensures
        total_points(points_as_read(pts, full)) == total_points(pts),
    decreases pts.len(),
{
    if pts.len() > 0 {
        let init = pts.drop_last();
        lemma_total_as_read(init, full);
        assert(points_as_read(pts, full).drop_last() =~= points_as_read(init, full));
        assert(points_as_read(pts, full).last().len() == pts.last().len());
    }
}

/// What a reload needs of an indexation: an entry point, at most
/// `NB_LAYER_MAX` layers of reloadable points whose data vectors all have the
/// dimension of the entry point, neighbours that name points and carry
/// their origin ids and places, a number of points that counts them, and, for
/// a `Light` dump, where points are found by origin id, origin ids that tell
/// points apart.
pub open spec fn indexation_reloadable(ix: IndexationModel, full: bool) -> bool {
    &&& ix.wf()
    &&& ix.entry_point is Some
    &&& ix.points.len() <= NB_LAYER_MAX
    &&& forall|i: int|
        0 <= i < ix.points.len() ==> layer_reloadable(
            #[trigger] ix.points[i],
            i,
            ix.elem_size * ix.data_dimension(),
        )
    &&& neighbours_consistent(ix.points)
    &&& !full ==> origins_unique(ix.points)
    &&& ix.nb_point == total_points(ix.points)
}

/// An indexation as a reload gives it back from a description that stores
/// `max_nb_connection`.
pub open spec fn reloaded_indexation(ix: IndexationModel, max_nb_connection: u8) -> IndexationModel {
    IndexationModel {
        max_nb_connection: max_nb_connection as usize,
        max_layer: NB_LAYER_MAX as usize,
        points: ix.points,
        nb_point: ix.nb_point,
        entry_point: ix.entry_point,
        elem_size: ix.elem_size,
    }
}

proof fn lemma_indexation_at(
    g: Seq<u8>,
    gpos: int,
    d: Seq<u8>,
    dpos: int,
    ix: IndexationModel,
    descr: DescriptionModel,
)
    requires
        holds_at(g, gpos, indexation_graph_bytes(ix, descr.dumpmode == 1)),
        holds_at(d, dpos, indexation_data_bytes(ix)),
        indexation_reloadable(ix, descr.dumpmode == 1),
        descr.nb_layer == NB_LAYER_MAX,
        descr.dimension == ix.data_dimension(),
    ensures
        parse_indexation(g, gpos, d, dpos, descr, ix.elem_size) == Ok::<
            (IndexationModel, int, int),
            LoadError,
        >(
            (
                reloaded_indexation(ix, descr.max_nb_connection),
                gpos + indexation_graph_bytes(ix, descr.dumpmode == 1).len(),
                dpos + indexation_data_bytes(ix).len(),
            ),
        ),
{
    lemma_len_bytes();
    let full = descr.dumpmode == 1;
    let id = ix.entry_point->0;
    let head = u8_bytes(ix.points.len() as u8);
    let body = head + layers_graph_bytes(ix.points, full);
    lemma_holds_split(g, gpos, body, entry_bytes(ix.points, id, full));
    lemma_holds_split(g, gpos, head, layers_graph_bytes(ix.points, full));
    lemma_read_u8(g, gpos, ix.points.len() as u8);
    assert((ix.points.len() as u8) as nat == ix.points.len());
    let f = point_format(descr, ix.elem_size);
    assert(f.vlen == ix.elem_size * ix.data_dimension());
    lemma_layers_at(g, gpos + 1, d, dpos, ix.points, f);
    let rd = points_as_read(ix.points, full);
    lemma_resolve_as_read(ix.points, full);
    lemma_as_read_places(ix.points, full);
    lemma_total_as_read(ix.points, full);
    let ep = body.len() + gpos;
    let origin = point_at(ix.points, id).origin_id;
    lemma_holds_split(g, ep, usize_bytes(origin), id_bytes(id, full));
    lemma_read_usize(g, ep, origin);
    if full {
        lemma_holds_split(g, ep + 8, u8_bytes(id.0), i32_bytes(id.1));
        lemma_read_u8(g, ep + 8, id.0);
        lemma_read_i32(g, ep + 9, id.1);
        assert(PointId(id.0, id.1) == id);
        assert(parse_entry(g, ep, rd, full) == Ok::<(PointId, int), LoadError>((id, ep + 13)));
    } else {
        assert(rd[id.0 as int][id.1 as int] == point_read_back(ix.points[id.0 as int][id.1 as int], full));
        lemma_find_unique(rd, id.0 as int, id.1 as int);
        assert(place_of(id.0 as int, id.1 as int) == id);
        assert(parse_entry(g, ep, rd, full) == Ok::<(PointId, int), LoadError>((id, ep + 8)));
    }
}

/// Law: an indexation dumped in the mode that the description names, then
/// reloaded with that description, is given back (see `reloaded_indexation`),
/// and both streams are read to the end of the dump, whatever follows them.
pub proof fn law_indexation_round_trip(
    ix: IndexationModel,
    descr: DescriptionModel,
    gs: Seq<u8>,
    ds: Seq<u8>,
)
    requires
        indexation_reloadable(ix, descr.dumpmode == 1),
        descr.nb_layer == NB_LAYER_MAX,
        descr.dimension == ix.data_dimension(),
    ensures
        ({
            let gb = indexation_graph_bytes(ix, descr.dumpmode == 1);
            let db = indexation_data_bytes(ix);
            parse_indexation(gb + gs, 0, db + ds, 0, descr, ix.elem_size) == Ok::<
                (IndexationModel, int, int),
                LoadError,
            >((reloaded_indexation(ix, descr.max_nb_connection), gb.len() as int, db.len() as int))
        }),
{
    let gb = indexation_graph_bytes(ix, descr.dumpmode == 1);
    let db = indexation_data_bytes(ix);
    assert((gb + gs).subrange(0, gb.len() as int) =~= gb);
    assert((db + ds).subrange(0, db.len() as int) =~= db);
    lemma_indexation_at(gb + gs, 0, db + ds, 0, ix, descr);
}

/// What a reload needs of a graph: `NB_LAYER_MAX` layers (else its dump
/// fails), a number of connections that fits on one byte, names that fit in
/// a description, and an indexation reloadable in the mode of the dump.
pub open spec fn hnsw_reloadable(h: HnswModel, full: bool) -> bool {
    &&& h.max_layer == NB_LAYER_MAX
    &&& h.max_nb_connection <= 255
    &&& storable_name(h.dist_name)
    &&& storable_name(h.t_name)
    &&& indexation_reloadable(h.layer_indexed_points, full)
}

/// The graph that a reload gives back of the dump of `h`: its points,
/// neighbours, entry point, number of points, parameters and names, with the
/// flags of a graph that is not being searched or extended.
pub open spec fn reload_of(h: HnswModel) -> HnswModel {
    HnswModel {
        max_nb_connection: h.max_nb_connection,
        ef_construction: h.ef_construction,
        extend_candidates: true,
        keep_pruned: false,
        max_layer: NB_LAYER_MAX as usize,
        layer_indexed_points: reloaded_indexation(
            h.layer_indexed_points,
            h.max_nb_connection as u8,
        ),
        data_dimension: h.layer_indexed_points.data_dimension(),
        dist_name: h.dist_name,
        t_name: h.t_name,
        searching: false,
    }
}

/// Law: a graph dumped in either mode and reloaded (with its own distance,
/// coordinate type and coordinate size) is given back: the description read
/// is the one dumped, it ends where the indexation begins, and the reload is
/// `reload_of(h)`, whatever follows the two streams.
#[verifier::spinoff_prover]
#[verifier::rlimit(40)]
pub proof fn law_dump_then_reload(h: HnswModel, mode: DumpMode, gs: Seq<u8>, ds: Seq<u8>)
    requires
        hnsw_reloadable(h, mode == DumpMode::Full),
    ensures
        ({
            let out = hnsw_dump(h, mode);
            let descr = hnsw_description(h, mode);
            let k = description_bytes(descr, mode).len() as int;
            &&& out.ok
            &&& parse_description(out.graph + gs) == Ok::<(DescriptionModel, int), LoadError>(
                (descr, k),
            )
            &&& parse_hnsw(
                out.graph + gs,
                k,
                descr,
                out.data + ds,
                h.dist_name,
                h.t_name,
                h.layer_indexed_points.elem_size,
            ) == Ok::<HnswModel, LoadError>(reload_of(h))
        }),
{
    lemma_len_bytes();
    let full = mode == DumpMode::Full;
    let out = hnsw_dump(h, mode);
    let descr = hnsw_description(h, mode);
    assert((descr.dumpmode == 1) == full);
    let ix = h.layer_indexed_points;
    let dbytes = description_bytes(descr, mode);
    let g = out.graph + gs;
    let d = out.data + ds;
    assert((h.max_layer as u8) == NB_LAYER_MAX);
    assert(out.graph == dbytes + indexation_graph_bytes(ix, full));
    assert(g.subrange(0, out.graph.len() as int) =~= out.graph);
    assert(holds_at(g, 0, out.graph));
    lemma_holds_split(g, 0, dbytes, indexation_graph_bytes(ix, full));
    lemma_description_at(g, descr, mode);
    assert(dumped_description(descr, mode) == descr);
    let dh = u32_bytes(MAGICDATAP);
    let dhd = dh + usize_bytes(descr.dimension);
    assert(out.data == dhd + indexation_data_bytes(ix));
    assert(d.subrange(0, out.data.len() as int) =~= out.data);
    assert(holds_at(d, 0, out.data));
    lemma_holds_split(d, 0, dhd, indexation_data_bytes(ix));
    lemma_holds_split(d, 0, dh, usize_bytes(descr.dimension));
    lemma_read_u32(d, 0, MAGICDATAP);
    lemma_read_usize(d, 4, descr.dimension);
    lemma_indexation_at(g, dbytes.len() as int, d, 12, ix, descr);
    assert((h.max_nb_connection as u8) as usize == h.max_nb_connection);
}

// ---------------------------------------------------------------------------
// `Full` and `Light` records.
// ---------------------------------------------------------------------------

/// The number of neighbours over all layers.
pub open spec fn neighbour_count(ls: Seq<Seq<Neighbour>>) -> nat
    decreases ls.len(),
{
    if ls.len() == 0 {
        0
    } else {
        neighbour_count(ls.drop_last()) + ls.last().len()
    }
}

proof fn lemma_neighbours_lengths(ns: Seq<Neighbour>)
    ensures
        neighbours_bytes(ns, true).len() == neighbours_bytes(ns, false).len() + 5 * ns.len(),
        neighbours_bytes(ns, false).len() == 12 * ns.len(),
    decreases ns.len(),
{
    lemma_len_bytes();
    if ns.len() > 0 {
        lemma_neighbours_lengths(ns.drop_last());
    }
}

proof fn lemma_neighbourhood_lengths(ls: Seq<Seq<Neighbour>>)
    ensures
        neighbourhood_bytes(ls, true).len() == neighbourhood_bytes(ls, false).len() + 5
            * neighbour_count(ls),
    decreases ls.len(),
{
    lemma_len_bytes();
    if ls.len() > 0 {
        lemma_neighbourhood_lengths(ls.drop_last());
        lemma_neighbours_lengths(ls.last());
    }
}

/// Law: the graph record of a point in a `Full` dump is longer than in a
/// `Light` one by the 5 bytes of each place (layer and rank): the point's own
/// and each of its neighbours'.
pub proof fn law_light_record_shorter(p: PointModel)
    ensures
        point_graph_bytes(p, true).len() == point_graph_bytes(p, false).len() + 5 * (1
            + neighbour_count(p.neighbours)),
{
    lemma_len_bytes();
    lemma_neighbourhood_lengths(p.neighbours);
}

// ---------------------------------------------------------------------------
// What the parts of a dump and of a reload are, over all inputs.
// ---------------------------------------------------------------------------

/// Law: a graph without layers has no points.
pub proof fn law_total_points_empty()
    ensures
        total_points(Seq::<Seq<PointModel>>::empty()) == 0,
{
}

/// Law: one more layer of points adds exactly its number of points to the
/// count, whatever its index.
pub proof fn law_total_points_push(points: Seq<Seq<PointModel>>, ps: Seq<PointModel>)
    ensures
        total_points(points.push(ps)) == total_points(points) + ps.len(),
{
    assert(points.push(ps).drop_last() =~= points);
}

proof fn lemma_total_same_shape(a: Seq<Seq<PointModel>>, b: Seq<Seq<PointModel>>)
    requires
        a.len() == b.len(),
        forall|i: int| 0 <= i < a.len() ==> #[trigger] a[i].len() == b[i].len(),
    ensures
        total_points(a) == total_points(b),
    decreases a.len(),
{
    if a.len() > 0 {
        let (ai, bi) = (a.drop_last(), b.drop_last());
        assert forall|i: int| 0 <= i < ai.len() implies #[trigger] ai[i].len() == bi[i].len() by {
            assert(ai[i] == a[i] && bi[i] == b[i]);
        }
        lemma_total_same_shape(ai, bi);
        assert(a.last().len() == b.last().len()) by {
            assert(a[a.len() - 1].len() == b[b.len() - 1].len());
        }
    }
}

/// Law: a reloaded indexation counts the points of all its layers.
pub proof fn law_reload_counts_all_points(
    g: Seq<u8>,
    gpos: int,
    d: Seq<u8>,
    dpos: int,
    descr: DescriptionModel,
    elem_size: usize,
)
    ensures
        parse_indexation(g, gpos, d, dpos, descr, elem_size) matches Ok((ix, _, _)) ==> ix.nb_point
            == total_points(ix.points) as usize,
{
    if let Ok((ix, _, _)) = parse_indexation(g, gpos, d, dpos, descr, elem_size) {
        let f = point_format(descr, elem_size);
        let nb_layer = read_u8(g, gpos)->Ok_0;
        let points = parse_layers(g, gpos + 1, d, dpos, nb_layer as nat, f)->Ok_0.0;
        lemma_resolve_shape(points, f.full);
        let rp = resolve(points, f.full);
        assert(same_places(rp, points));
        lemma_total_same_shape(rp, points);
    }
}

/// Law: a reload succeeds only with the distance that the description names,
/// which the graph then holds; asked for another distance, a reload whose
/// data stream begins well fails with `DistanceMismatch`.
pub proof fn law_reload_keeps_the_dumped_distance(
    g: Seq<u8>,
    gpos: int,
    descr: DescriptionModel,
    d: Seq<u8>,
    dist_name: Seq<char>,
    t_name: Seq<char>,
    elem_size: usize,
)
    ensures
        parse_hnsw(g, gpos, descr, d, dist_name, t_name, elem_size) matches Ok(h) ==> dist_name
            == descr.distname && h.dist_name == descr.distname,
        read_u32(d, 0) == Ok::<u32, LoadError>(MAGICDATAP) && read_usize(d, 4) == Ok::<
            usize,
            LoadError,
        >(descr.dimension) && dist_name != descr.distname ==> parse_hnsw(
            g,
            gpos,
            descr,
            d,
            dist_name,
            t_name,
            elem_size,
        ) == Err::<HnswModel, LoadError>(LoadError::DistanceMismatch),
{
}

/// Law: the data dimension of an indexation is the number of coordinates
/// of its entry point: `dim` when it holds `elem_size * dim` bytes.
pub proof fn law_data_dimension(ix: IndexationModel, dim: usize)
    requires
        ix.elem_size > 0,
        ix.entry_point matches Some(id) && point_at(ix.points, id).v.len() == ix.elem_size * dim,
    ensures
        ix.data_dimension() == dim,
{
    let e = ix.elem_size as int;
    let n = point_at(ix.points, ix.entry_point->0).v.len() as int;
    assert((e * dim) / e == dim) by (nonlinear_arith)
        requires
            e > 0,
    ;
    assert(n / e == dim);
}

/// Law: the description that a graph dump writes (with `NB_LAYER_MAX`
/// layers and names that fit) reads back with the graph's parameters
/// unchanged: mode, connections (as one byte), layers, ef, number of points,
/// dimension `dim` of the entry point and names; and the data stream begins
/// with its magic number and that dimension.
#[verifier::spinoff_prover]
#[verifier::rlimit(40)]
pub proof fn law_dump_description(h: HnswModel, mode: DumpMode, dim: usize)
    requires
        h.max_layer == NB_LAYER_MAX,
        storable_name(h.dist_name),
        storable_name(h.t_name),
        h.layer_indexed_points.elem_size > 0,
        h.layer_indexed_points.entry_point matches Some(id) && point_at(
            h.layer_indexed_points.points,
            id,
        ).v.len() == h.layer_indexed_points.elem_size * dim,
    ensures
        ({
            let out = hnsw_dump(h, mode);
            &&& out.ok
            &&& parse_description(out.graph) matches Ok((dd, _)) && {
                &&& dd.dumpmode == mode_byte(mode)
                &&& dd.max_nb_connection == h.max_nb_connection as u8
                &&& dd.nb_layer == NB_LAYER_MAX
                &&& dd.ef == h.ef_construction
                &&& dd.nb_point == h.layer_indexed_points.nb_point
                &&& dd.dimension == dim
                &&& dd.distname == h.dist_name
                &&& dd.t_name == h.t_name
            }
            &&& read_u32(out.data, 0) == Ok::<u32, LoadError>(MAGICDATAP)
            &&& read_usize(out.data, 4) == Ok::<usize, LoadError>(dim)
        }),
{
    lemma_len_bytes();
    law_data_dimension(h.layer_indexed_points, dim);
    let out = hnsw_dump(h, mode);
    let descr = hnsw_description(h, mode);
    let full = mode == DumpMode::Full;
    assert((h.max_layer as u8) == NB_LAYER_MAX);
    let dbytes = description_bytes(descr, mode);
    assert(out.graph == dbytes + indexation_graph_bytes(h.layer_indexed_points, full));
    assert(out.graph.subrange(0, out.graph.len() as int) =~= out.graph);
    lemma_holds_split(out.graph, 0, dbytes, indexation_graph_bytes(h.layer_indexed_points, full));
    lemma_description_at(out.graph, descr, mode);
    let dh = u32_bytes(MAGICDATAP);
    let dhd = dh + usize_bytes(dim);
    assert(out.data == dhd + indexation_data_bytes(h.layer_indexed_points));
    assert(out.data.subrange(0, out.data.len() as int) =~= out.data);
    lemma_holds_split(out.data, 0, dhd, indexation_data_bytes(h.layer_indexed_points));
    lemma_holds_split(out.data, 0, dh, usize_bytes(dim));
    lemma_read_u32(out.data, 0, MAGICDATAP);
    lemma_read_usize(out.data, 4, dim);
}

/// Law: an indexation can be dumped exactly when it has an entry point that
/// is a point of the graph and each point stands at the place that it
/// names, whatever layers, empty or not, it holds.
pub proof fn law_indexation_dump_ready(ix: PointIndexation)
    ensures
        ix.dump_ready() <==> {
            &&& ix.entry_point matches Some(id) && names_point(ix@.points, id)
            &&& forall|i: int, j: int|
                0 <= i < ix@.points.len() && 0 <= j < ix@.points[i].len() ==> (
                #[trigger] ix@.points[i][j]).p_id == PointId(i as u8, j as i32)
        },
{
}

/// Law: a graph can be dumped when its indexation is well formed and, with
/// `NB_LAYER_MAX` layers (where the description does not stop the dump),
/// its indexation can be dumped.
pub proof fn law_hnsw_dump_ready(h: Hnsw)
    ensures
        h.dump_ready() <==> {
            &&& h.layer_indexed_points@.wf()
            &&& h.max_layer as u8 == NB_LAYER_MAX ==> {
                &&& h.layer_indexed_points.entry_point matches Some(id) && names_point(
                    h.layer_indexed_points@.points,
                    id,
                )
                &&& forall|i: int, j: int|
                    0 <= i < h.layer_indexed_points@.points.len() && 0 <= j
                        < h.layer_indexed_points@.points[i].len() ==> (
                    #[trigger] h.layer_indexed_points@.points[i][j]).p_id == PointId(
                        i as u8,
                        j as i32,
                    )
            }
        },
{
}

} // verus!
