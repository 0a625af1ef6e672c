//! The dump format, stated over byte sequences: what a dump writes, and what
//! reading a dump gives back.
use vstd::prelude::*;
use vstd::utf8::*;
use crate::hnsw::{
    PointId, Neighbour, PointModel, IndexationModel, HnswModel, NB_LAYER_MAX, names_point, point_at,
};
use crate::wire::{
    LoadError, u8_bytes, u32_bytes, i32_bytes, usize_bytes, read_u8, read_u32, read_i32,
    read_usize, read_bytes,
};

verus! {

/// Before each point of the graph stream.
pub const MAGICPOINT: u32 = 0x000a678f;

/// At the beginning of the description.
pub const MAGICDESCR: u32 = 0x000a677f;

/// At the beginning of each layer of the graph stream.
pub const MAGICLAYER: u32 = 0x000a676f;

/// At the beginning of the data stream and before each data vector.
pub const MAGICDATAP: u32 = 0xa67f0000;

/// The longest name, in bytes, that a description may hold.
pub const MAX_NAME_LEN: usize = 256;

/// A `Full` dump stores the place of each point and neighbour, a `Light`
/// one only their origin ids.
#[derive(Clone, Copy, Debug, PartialEq, Eq, Structural)]
pub enum DumpMode {
    Light,
    Full,
}

/// The byte that a description stores for a mode: 1 for `Full`, 0 for `Light`.
pub open spec fn mode_byte(mode: DumpMode) -> u8 {
    match mode {
        DumpMode::Full => 1,
        DumpMode::Light => 0,
    }
}

/// The parameters that a dump begins with.
pub struct DescriptionModel {
    pub dumpmode: u8,
    pub max_nb_connection: u8,
    pub nb_layer: u8,
    pub ef: usize,
    pub nb_point: usize,
    pub dimension: usize,
    pub distname: Seq<char>,
    pub t_name: Seq<char>,
}

/// A name is stored as its length in bytes, then its UTF-8 bytes.
pub open spec fn name_bytes(name: Seq<char>) -> Seq<u8> {
    usize_bytes(encode_utf8(name).len() as usize) + encode_utf8(name)
}

/// What a description writes before it checks its number of layers.
pub open spec fn description_head_bytes(d: DescriptionModel, mode: DumpMode) -> Seq<u8> {
    u32_bytes(MAGICDESCR) + u8_bytes(mode_byte(mode)) + u8_bytes(d.max_nb_connection) + u8_bytes(
        d.nb_layer,
    )
}

/// The whole encoding of a description dumped with `mode`.
pub open spec fn description_bytes(d: DescriptionModel, mode: DumpMode) -> Seq<u8> {
    description_head_bytes(d, mode) + usize_bytes(d.ef) + usize_bytes(d.nb_point) + usize_bytes(
        d.dimension,
    ) + name_bytes(d.distname) + name_bytes(d.t_name)
}

/// Reads a name at `pos`: its length (at most 256 bytes, else `too_long`),
/// then its bytes, which must be UTF-8.
pub open spec fn parse_name(b: Seq<u8>, pos: int, too_long: LoadError) -> Result<
    (Seq<char>, int),
    LoadError,
> {
    match read_usize(b, pos) {
        Err(e) => Err(e),
        Ok(n) => if n > MAX_NAME_LEN {
            Err(too_long)
        } else {
            match read_bytes(b, pos + 8, n as int) {
                Err(e) => Err(e),
                Ok(s) => if valid_utf8(s) {
                    Ok((decode_utf8(s), pos + 8 + n))
                } else {
                    Err(LoadError::NotUtf8)
                },
            }
        },
    }
}

/// The fixed-width fields of a description: mode, connections, layers, ef,
/// number of points, dimension.
pub struct DescriptionHead {
    pub dumpmode: u8,
    pub max_nb_connection: u8,
    pub nb_layer: u8,
    pub ef: usize,
    pub nb_point: usize,
    pub dimension: usize,
}

pub open spec fn parse_description_head(b: Seq<u8>) -> Result<DescriptionHead, LoadError> {
    match read_u32(b, 0) {
        Err(e) => Err(e),
        Ok(magic) => if magic != MAGICDESCR {
            Err(LoadError::DescrMagic)
        } else {
            match (read_u8(b, 4), read_u8(b, 5), read_u8(b, 6)) {
                (Err(e), _, _) => Err(e),
                (Ok(_), Err(e), _) => Err(e),
                (Ok(_), Ok(_), Err(e)) => Err(e),
                (Ok(dumpmode), Ok(max_nb_connection), Ok(nb_layer)) => match (
                    read_usize(b, 7),
                    read_usize(b, 15),
                    read_usize(b, 23),
                ) {
                    (Err(e), _, _) => Err(e),
                    (Ok(_), Err(e), _) => Err(e),
                    (Ok(_), Ok(_), Err(e)) => Err(e),
                    (Ok(ef), Ok(nb_point), Ok(dimension)) => Ok(
                        DescriptionHead {
                            dumpmode,
                            max_nb_connection,
                            nb_layer,
                            ef,
                            nb_point,
                            dimension,
                        },
                    ),
                },
            }
        },
    }
}

/// Reading a description at the beginning of `b`: the description and the
/// number of bytes it takes.
pub open spec fn parse_description(b: Seq<u8>) -> Result<(DescriptionModel, int), LoadError> {
    match parse_description_head(b) {
        Err(e) => Err(e),
        Ok(h) => match parse_name(b, 31, LoadError::DistNameTooLong) {
            Err(e) => Err(e),
            Ok((distname, p)) => match parse_name(b, p, LoadError::TypeNameTooLong) {
                Err(e) => Err(e),
                Ok((t_name, q)) => Ok(
                    (
                        DescriptionModel {
                            dumpmode: h.dumpmode,
                            max_nb_connection: h.max_nb_connection,
                            nb_layer: h.nb_layer,
                            ef: h.ef,
                            nb_point: h.nb_point,
                            dimension: h.dimension,
                            distname,
                            t_name,
                        },
                        q,
                    ),
                ),
            },
        },
    }
}


// ---------------------------------------------------------------------------
// The graph and data streams, as a dump writes them.
// ---------------------------------------------------------------------------

/// A `Full` dump writes the place of a point after its origin id.
pub open spec fn id_bytes(id: PointId, full: bool) -> Seq<u8> {
    if full {
        u8_bytes(id.0) + i32_bytes(id.1)
    } else {
        Seq::empty()
    }
}

/// A neighbour: origin id, place (in a `Full` dump), distance.
pub open spec fn neighbour_bytes(n: Neighbour, full: bool) -> Seq<u8> {
    usize_bytes(n.d_id) + id_bytes(n.p_id, full) + u32_bytes(n.distance)
}

pub open spec fn neighbours_bytes(ns: Seq<Neighbour>, full: bool) -> Seq<u8>
    decreases ns.len(),
{
    if ns.len() == 0 {
        Seq::empty()
    } else {
        neighbours_bytes(ns.drop_last(), full) + neighbour_bytes(ns.last(), full)
    }
}

/// The neighbours of one layer: their number (on one byte), then each of them.
pub open spec fn layer_neighbours_bytes(ns: Seq<Neighbour>, full: bool) -> Seq<u8> {
    u8_bytes(ns.len() as u8) + neighbours_bytes(ns, full)
}

pub open spec fn neighbourhood_bytes(ls: Seq<Seq<Neighbour>>, full: bool) -> Seq<u8>
    decreases ls.len(),
{
    if ls.len() == 0 {
        Seq::empty()
    } else {
        neighbourhood_bytes(ls.drop_last(), full) + layer_neighbours_bytes(ls.last(), full)
    }
}

/// The graph part of a point: magic number, origin id, place (in a `Full`
/// dump), then its neighbours layer by layer.
pub open spec fn point_graph_bytes(p: PointModel, full: bool) -> Seq<u8> {
    u32_bytes(MAGICPOINT) + usize_bytes(p.origin_id) + id_bytes(p.p_id, full)
        + neighbourhood_bytes(p.neighbours, full)
}

/// The data part of a point: magic number, origin id, the bytes of its
/// coordinates.
pub open spec fn point_data_bytes(p: PointModel) -> Seq<u8> {
    u32_bytes(MAGICDATAP) + usize_bytes(p.origin_id) + p.v
}

pub open spec fn points_graph_bytes(ps: Seq<PointModel>, full: bool) -> Seq<u8>
    decreases ps.len(),
{
    if ps.len() == 0 {
        Seq::empty()
    } else {
        points_graph_bytes(ps.drop_last(), full) + point_graph_bytes(ps.last(), full)
    }
}

pub open spec fn points_data_bytes(ps: Seq<PointModel>) -> Seq<u8>
    decreases ps.len(),
{
    if ps.len() == 0 {
        Seq::empty()
    } else {
        points_data_bytes(ps.drop_last()) + point_data_bytes(ps.last())
    }
}

/// A layer: magic number, number of points, then the points.
pub open spec fn layer_graph_bytes(ps: Seq<PointModel>, full: bool) -> Seq<u8> {
    u32_bytes(MAGICLAYER) + usize_bytes(ps.len() as usize) + points_graph_bytes(ps, full)
}

pub open spec fn layers_graph_bytes(ls: Seq<Seq<PointModel>>, full: bool) -> Seq<u8>
    decreases ls.len(),
{
    if ls.len() == 0 {
        Seq::empty()
    } else {
        layers_graph_bytes(ls.drop_last(), full) + layer_graph_bytes(ls.last(), full)
    }
}

pub open spec fn layers_data_bytes(ls: Seq<Seq<PointModel>>) -> Seq<u8>
    decreases ls.len(),
{
    if ls.len() == 0 {
        Seq::empty()
    } else {
        layers_data_bytes(ls.drop_last()) + points_data_bytes(ls.last())
    }
}

/// The entry point: its origin id, then its place (in a `Full` dump).
pub open spec fn entry_bytes(points: Seq<Seq<PointModel>>, id: PointId, full: bool) -> Seq<u8> {
    usize_bytes(point_at(points, id).origin_id) + id_bytes(id, full)
}

/// The graph stream of an indexation: number of layers (on one byte), the
/// layers, the entry point.
pub open spec fn indexation_graph_bytes(ix: IndexationModel, full: bool) -> Seq<u8> {
    u8_bytes(ix.points.len() as u8) + layers_graph_bytes(ix.points, full) + entry_bytes(
        ix.points,
        ix.entry_point->0,
        full,
    )
}

/// The data stream of an indexation: the data part of each point, layer by layer.
pub open spec fn indexation_data_bytes(ix: IndexationModel) -> Seq<u8> {
    layers_data_bytes(ix.points)
}

/// The description that a graph dumps with `mode`.
pub open spec fn hnsw_description(h: HnswModel, mode: DumpMode) -> DescriptionModel {
    DescriptionModel {
        dumpmode: mode_byte(mode),
        max_nb_connection: h.max_nb_connection as u8,
        nb_layer: h.max_layer as u8,
        ef: h.ef_construction,
        nb_point: h.layer_indexed_points.nb_point,
        dimension: h.layer_indexed_points.data_dimension(),
        distname: h.dist_name,
        t_name: h.t_name,
    }
}

/// What a dump does: whether it succeeds, and what it writes to the graph
/// stream and to the data stream.
pub struct DumpOutcome {
    pub ok: bool,
    pub graph: Seq<u8>,
    pub data: Seq<u8>,
}

/// The dump of a graph: its description, then its indexation; the data
/// stream begins with its magic number and the dimension. With a number of
/// layers other than `NB_LAYER_MAX` the dump stops inside the description.
pub open spec fn hnsw_dump(h: HnswModel, mode: DumpMode) -> DumpOutcome {
    let descr = hnsw_description(h, mode);
    let full = mode == DumpMode::Full;
    if descr.nb_layer != NB_LAYER_MAX {
        DumpOutcome { ok: false, graph: description_head_bytes(descr, mode), data: Seq::empty() }
    } else {
        DumpOutcome {
            ok: true,
            graph: description_bytes(descr, mode) + indexation_graph_bytes(
                h.layer_indexed_points,
                full,
            ),
            data: u32_bytes(MAGICDATAP) + usize_bytes(descr.dimension) + indexation_data_bytes(
                h.layer_indexed_points,
            ),
        }
    }
}

// ---------------------------------------------------------------------------
// Reading the graph and data streams back.
// ---------------------------------------------------------------------------

/// Reads a neighbour at `pos`. Its place is read in a `Full` dump only; a
/// `Light` dump stores none, and the neighbour holds `PointId(0, 0)` until it
/// is found by its origin id.
pub open spec fn parse_neighbour(g: Seq<u8>, pos: int, full: bool) -> Result<
    (Neighbour, int),
    LoadError,
> {
    match read_usize(g, pos) {
        Err(e) => Err(e),
        Ok(d_id) => if full {
            match (read_u8(g, pos + 8), read_i32(g, pos + 9), read_u32(g, pos + 13)) {
                (Err(e), _, _) => Err(e),
                (Ok(_), Err(e), _) => Err(e),
                (Ok(_), Ok(_), Err(e)) => Err(e),
                (Ok(layer), Ok(rank), Ok(distance)) => Ok(
                    (Neighbour { d_id, p_id: PointId(layer, rank), distance }, pos + 17),
                ),
            }
        } else {
            match read_u32(g, pos + 8) {
                Err(e) => Err(e),
                Ok(distance) => Ok((Neighbour { d_id, p_id: PointId(0, 0), distance }, pos + 12)),
            }
        },
    }
}

/// Reads `n` neighbours one after the other.
pub open spec fn parse_neighbours(g: Seq<u8>, pos: int, n: nat, full: bool) -> Result<
    (Seq<Neighbour>, int),
    LoadError,
>
    decreases n,
{
    if n == 0 {
        Ok((Seq::empty(), pos))
    } else {
        match parse_neighbours(g, pos, (n - 1) as nat, full) {
            Err(e) => Err(e),
            Ok((ns, p)) => match parse_neighbour(g, p, full) {
                Err(e) => Err(e),
                Ok((nb, q)) => Ok((ns.push(nb), q)),
            },
        }
    }
}

/// Reads the neighbours of `nl` layers, each as its number on one byte and
/// then the neighbours.
pub open spec fn parse_neighbourhood(g: Seq<u8>, pos: int, nl: nat, full: bool) -> Result<
    (Seq<Seq<Neighbour>>, int),
    LoadError,
>
    decreases nl,
{
    if nl == 0 {
        Ok((Seq::empty(), pos))
    } else {
        match parse_neighbourhood(g, pos, (nl - 1) as nat, full) {
            Err(e) => Err(e),
            Ok((ls, p)) => match read_u8(g, p) {
                Err(e) => Err(e),
                Ok(c) => match parse_neighbours(g, p + 1, c as nat, full) {
                    Err(e) => Err(e),
                    Ok((ns, q)) => Ok((ls.push(ns), q)),
                },
            },
        }
    }
}

/// The layers read, followed by empty layers up to `NB_LAYER_MAX`.
pub open spec fn pad_layers(ls: Seq<Seq<Neighbour>>, nb_layer: u8) -> Seq<Seq<Neighbour>> {
    if nb_layer < NB_LAYER_MAX {
        ls + Seq::new((NB_LAYER_MAX - nb_layer) as nat, |i: int| Seq::<Neighbour>::empty())
    } else {
        ls
    }
}

/// What reading a point needs from the description: whether places are
/// stored, the number of layers, the number of bytes of a data vector.
pub struct PointFormat {
    pub full: bool,
    pub nb_layer: u8,
    pub vlen: int,
}

/// The place of a point read in a `Light` dump: where it stands.
pub open spec fn place_of(l: int, r: int) -> PointId {
    PointId(l as u8, r as i32)
}

/// Reads a point: its graph part at `gpos`, then its data part at `dpos`.
/// A `Full` dump stores the place of the point after its origin id; in a
/// `Light` dump its neighbourhood follows the origin id and the point gets
/// `place`, where it is read. Gives the point and where each stream goes on.
pub open spec fn parse_point(
    g: Seq<u8>,
    gpos: int,
    d: Seq<u8>,
    dpos: int,
    f: PointFormat,
    place: PointId,
) -> Result<(PointModel, int, int), LoadError> {
    match read_u32(g, gpos) {
        Err(e) => Err(e),
        Ok(magic) => if magic != MAGICPOINT {
            Err(LoadError::PointMagic)
        } else {
            match parse_point_head(g, gpos, f.full, place) {
                Err(e) => Err(e),
                Ok((origin_id, p_id, gp)) => match parse_neighbourhood(
                    g,
                    gp,
                    f.nb_layer as nat,
                    f.full,
                ) {
                    Err(e) => Err(e),
                    Ok((ls, gq)) => match parse_point_data(d, dpos, origin_id, f.vlen) {
                        Err(e) => Err(e),
                        Ok((v, dq)) => Ok(
                            (
                                PointModel {
                                    origin_id,
                                    p_id,
                                    v,
                                    neighbours: pad_layers(ls, f.nb_layer),
                                },
                                gq,
                                dq,
                            ),
                        ),
                    },
                },
            }
        },
    }
}

/// Reads what follows the magic number of a point: its origin id, and its
/// place in a `Full` dump (`place` otherwise). Gives where the neighbours begin.
pub open spec fn parse_point_head(g: Seq<u8>, gpos: int, full: bool, place: PointId) -> Result<
    (usize, PointId, int),
    LoadError,
> {
    match read_usize(g, gpos + 4) {
        Err(e) => Err(e),
        Ok(origin_id) => if full {
            match (read_u8(g, gpos + 12), read_i32(g, gpos + 13)) {
                (Err(e), _) => Err(e),
                (Ok(_), Err(e)) => Err(e),
                (Ok(layer), Ok(rank)) => Ok((origin_id, PointId(layer, rank), gpos + 17)),
            }
        } else {
            Ok((origin_id, place, gpos + 12))
        },
    }
}

/// Reads the data part of a point with origin id `origin_id`: magic number,
/// the same origin id, `vlen` bytes of coordinates.
pub open spec fn parse_point_data(d: Seq<u8>, dpos: int, origin_id: usize, vlen: int) -> Result<
    (Seq<u8>, int),
    LoadError,
> {
    match read_u32(d, dpos) {
        Err(e) => Err(e),
        Ok(dmagic) => if dmagic != MAGICDATAP {
            Err(LoadError::DataMagic)
        } else {
            match read_usize(d, dpos + 4) {
                Err(e) => Err(e),
                Ok(origin_data) => if origin_data != origin_id {
                    Err(LoadError::OriginMismatch)
                } else {
                    match read_bytes(d, dpos + 12, vlen) {
                        Err(e) => Err(e),
                        Ok(v) => Ok((v, dpos + 12 + vlen)),
                    }
                },
            }
        },
    }
}

/// Reads the `n` points of layer `l`; each must stand at the place that it
/// names.
pub open spec fn parse_layer_points(
    g: Seq<u8>,
    gpos: int,
    d: Seq<u8>,
    dpos: int,
    l: int,
    n: nat,
    f: PointFormat,
) -> Result<(Seq<PointModel>, int, int), LoadError>
    decreases n,
{
    if n == 0 {
        Ok((Seq::empty(), gpos, dpos))
    } else {
        match parse_layer_points(g, gpos, d, dpos, l, (n - 1) as nat, f) {
            Err(e) => Err(e),
            Ok((ps, gp, dp)) => match parse_point(g, gp, d, dp, f, place_of(l, n - 1)) {
                Err(e) => Err(e),
                Ok((p, gq, dq)) => if p.p_id.0 as int != l || p.p_id.1 as usize as int != n - 1 {
                    Err(LoadError::PointIdMismatch)
                } else {
                    Ok((ps.push(p), gq, dq))
                },
            },
        }
    }
}

/// Reads `nl` layers, each as its magic number, its number of points and
/// its points.
pub open spec fn parse_layers(g: Seq<u8>, gpos: int, d: Seq<u8>, dpos: int, nl: nat, f: PointFormat) -> Result<
    (Seq<Seq<PointModel>>, int, int),
    LoadError,
>
    decreases nl,
{
    if nl == 0 {
        Ok((Seq::empty(), gpos, dpos))
    } else {
        match parse_layers(g, gpos, d, dpos, (nl - 1) as nat, f) {
            Err(e) => Err(e),
            Ok((ls, gp, dp)) => match read_u32(g, gp) {
                Err(e) => Err(e),
                Ok(magic) => if magic != MAGICLAYER {
                    Err(LoadError::LayerMagic)
                } else {
                    match read_usize(g, gp + 4) {
                        Err(e) => Err(e),
                        Ok(nbpoints) => match parse_layer_points(
                            g,
                            gp + 12,
                            d,
                            dp,
                            nl - 1,
                            nbpoints as nat,
                            f,
                        ) {
                            Err(e) => Err(e),
                            Ok((ps, gq, dq)) => Ok((ls.push(ps), gq, dq)),
                        },
                    }
                },
            },
        }
    }
}

/// The rank of the first point of `ps` with origin id `o`.
pub open spec fn find_in_layer(ps: Seq<PointModel>, o: usize) -> Option<int>
    decreases ps.len(),
{
    if ps.len() == 0 {
        None
    } else {
        match find_in_layer(ps.drop_last(), o) {
            Some(j) => Some(j),
            None => if ps.last().origin_id == o {
                Some(ps.len() - 1)
            } else {
                None
            },
        }
    }
}

/// The layer and rank of the first point with origin id `o`, layer by layer.
pub open spec fn find_origin(points: Seq<Seq<PointModel>>, o: usize) -> Option<(int, int)>
    decreases points.len(),
{
    if points.len() == 0 {
        None
    } else {
        match find_origin(points.drop_last(), o) {
            Some(x) => Some(x),
            None => match find_in_layer(points.last(), o) {
                Some(j) => Some((points.len() - 1, j)),
                None => None,
            },
        }
    }
}

/// Where the point that a neighbour refers to stands: by its place in a
/// `Full` dump, by its origin id in a `Light` one.
pub open spec fn locate(points: Seq<Seq<PointModel>>, n: Neighbour, full: bool) -> Option<(int, int)> {
    if full {
        if names_point(points, n.p_id) {
            Some((n.p_id.0 as int, n.p_id.1 as int))
        } else {
            None
        }
    } else {
        find_origin(points, n.d_id)
    }
}

/// Every neighbour of every point refers to a point of the graph.
pub open spec fn neighbours_resolvable(points: Seq<Seq<PointModel>>, full: bool) -> bool {
    forall|l: int, r: int, k: int, m: int|
        0 <= l < points.len() && 0 <= r < points[l].len() && 0 <= k < points[l][r].neighbours.len()
            && 0 <= m < points[l][r].neighbours[k].len() ==> (#[trigger] locate(
            points,
            points[l][r].neighbours[k][m],
            full,
        )) is Some
}

/// A neighbour as the point that it refers to gives it back: that point's
/// origin id and place, with the stored distance.
pub open spec fn resolve_neighbour(points: Seq<Seq<PointModel>>, n: Neighbour, full: bool) -> Neighbour {
    let (l, r) = locate(points, n, full)->0;
    let target = points[l][r];
    Neighbour { d_id: target.origin_id, p_id: target.p_id, distance: n.distance }
}

pub open spec fn resolve_layer(points: Seq<Seq<PointModel>>, ns: Seq<Neighbour>, full: bool) -> Seq<
    Neighbour,
> {
    ns.map_values(|n: Neighbour| resolve_neighbour(points, n, full))
}

pub open spec fn resolve_point(points: Seq<Seq<PointModel>>, p: PointModel, full: bool) -> PointModel {
    PointModel {
        origin_id: p.origin_id,
        p_id: p.p_id,
        v: p.v,
        neighbours: p.neighbours.map_values(|ns: Seq<Neighbour>| resolve_layer(points, ns, full)),
    }
}

/// Each neighbour of each point replaced by the point that it refers to.
pub open spec fn resolve(points: Seq<Seq<PointModel>>, full: bool) -> Seq<Seq<PointModel>> {
    points.map_values(
        |ps: Seq<PointModel>| ps.map_values(|p: PointModel| resolve_point(points, p, full)),
    )
}

/// The number of points of all layers.
pub open spec fn total_points(points: Seq<Seq<PointModel>>) -> nat
    decreases points.len(),
{
    if points.len() == 0 {
        0
    } else {
        total_points(points.drop_last()) + points.last().len()
    }
}

/// Reads the entry point: in a `Full` dump its origin id (not used), layer
/// and rank; in a `Light` dump its origin id, by which it is found. It must
/// be a point of the graph.
pub open spec fn parse_entry(g: Seq<u8>, pos: int, points: Seq<Seq<PointModel>>, full: bool) -> Result<
    (PointId, int),
    LoadError,
> {
    if full {
        match (read_usize(g, pos), read_u8(g, pos + 8), read_i32(g, pos + 9)) {
            (Err(e), _, _) => Err(e),
            (Ok(_), Err(e), _) => Err(e),
            (Ok(_), Ok(_), Err(e)) => Err(e),
            (Ok(_), Ok(layer), Ok(rank)) => if names_point(points, PointId(layer, rank)) {
                Ok((PointId(layer, rank), pos + 13))
            } else {
                Err(LoadError::EntryOutOfRange)
            },
        }
    } else {
        match read_usize(g, pos) {
            Err(e) => Err(e),
            Ok(o) => match find_origin(points, o) {
                None => Err(LoadError::EntryOutOfRange),
                Some((l, r)) => if names_point(points, place_of(l, r)) {
                    Ok((place_of(l, r), pos + 8))
                } else {
                    Err(LoadError::EntryOutOfRange)
                },
            },
        }
    }
}

/// What reading a point needs, from a description and the size of a coordinate.
pub open spec fn point_format(descr: DescriptionModel, elem_size: usize) -> PointFormat {
    PointFormat {
        full: descr.dumpmode == 1,
        nb_layer: descr.nb_layer,
        vlen: elem_size * descr.dimension,
    }
}

/// Reads an indexation: the graph stream at `gpos`, the data stream at
/// `dpos`. Gives the indexation and where each stream ends.
pub open spec fn parse_indexation(
    g: Seq<u8>,
    gpos: int,
    d: Seq<u8>,
    dpos: int,
    descr: DescriptionModel,
    elem_size: usize,
) -> Result<(IndexationModel, int, int), LoadError> {
    let f = point_format(descr, elem_size);
    match read_u8(g, gpos) {
        Err(e) => Err(e),
        Ok(nb_layer) => if nb_layer > NB_LAYER_MAX {
            Err(LoadError::TooManyLayers)
        } else {
            match parse_layers(g, gpos + 1, d, dpos, nb_layer as nat, f) {
                Err(e) => Err(e),
                Ok((points, gp, dp)) => if !neighbours_resolvable(points, f.full) {
                    Err(LoadError::NeighbourOutOfRange)
                } else {
                    match parse_entry(g, gp, points, f.full) {
                        Err(e) => Err(e),
                        Ok((id, gq)) => Ok(
                            (
                                IndexationModel {
                                    max_nb_connection: descr.max_nb_connection as usize,
                                    max_layer: NB_LAYER_MAX as usize,
                                    points: resolve(points, f.full),
                                    nb_point: total_points(points) as usize,
                                    entry_point: Some(id),
                                    elem_size,
                                },
                                gq,
                                dp,
                            ),
                        ),
                    }
                },
            }
        },
    }
}

/// Reloads a graph: the graph stream after the description (at `gpos`), the
/// data stream from its beginning, with the distance asked for and the name
/// and size of the coordinate type.
pub open spec fn parse_hnsw(
    g: Seq<u8>,
    gpos: int,
    descr: DescriptionModel,
    d: Seq<u8>,
    dist_name: Seq<char>,
    t_name: Seq<char>,
    elem_size: usize,
) -> Result<HnswModel, LoadError> {
    match read_u32(d, 0) {
        Err(e) => Err(e),
        Ok(magic) => if magic != MAGICDATAP {
            Err(LoadError::DataMagic)
        } else {
            match read_usize(d, 4) {
                Err(e) => Err(e),
                Ok(dimension) => if dimension != descr.dimension {
                    Err(LoadError::DimensionMismatch)
                } else if dist_name != descr.distname {
                    Err(LoadError::DistanceMismatch)
                } else {
                    match parse_indexation(g, gpos, d, 12, descr, elem_size) {
                        Err(e) => Err(e),
                        Ok((ix, _, _)) => Ok(
                            HnswModel {
                                max_nb_connection: descr.max_nb_connection as usize,
                                ef_construction: descr.ef,
                                extend_candidates: true,
                                keep_pruned: false,
                                max_layer: descr.nb_layer as usize,
                                layer_indexed_points: ix,
                                data_dimension: descr.dimension,
                                dist_name,
                                t_name,
                                searching: false,
                            },
                        ),
                    }
                },
            }
        },
    }
}

} // verus!
