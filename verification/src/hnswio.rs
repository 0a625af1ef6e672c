//! Dump of a graph to two byte streams (the graph topology and the point
//! vectors), and reload of a graph from them.
use vstd::prelude::*;
use vstd::string::StringExecFns;
use vstd::utf8::{valid_utf8, decode_utf8};
use crate::wire::{
    LoadError, put_u8, put_u32, put_i32, put_usize, put_bytes, get_u8, get_u32, get_usize, get_bytes,
};
use crate::hnsw::{
    NB_LAYER_MAX, PointId, Neighbour, Point, PointIndexation, Hnsw, names_point, layer_view,
};
use crate::format::{
    DumpMode, DescriptionModel, MAGICDESCR, MAX_NAME_LEN, mode_byte, description_head_bytes,
    description_bytes, name_bytes, parse_name, parse_description,
    MAGICPOINT, MAGICLAYER, MAGICDATAP, DumpOutcome, neighbour_bytes, neighbours_bytes,
    layer_neighbours_bytes, neighbourhood_bytes, point_graph_bytes, point_data_bytes,
    points_graph_bytes, points_data_bytes, layers_graph_bytes, layers_data_bytes,
    indexation_graph_bytes, indexation_data_bytes, hnsw_description, hnsw_dump,
};

verus! {

/// Calls `String::from_utf8`. Its documentation says that it returns the
/// string when the bytes are valid UTF-8 and an error otherwise; the contract
/// states that, with the characters that the bytes encode.
#[verifier::external_body]
fn string_from_utf8(bytes: Vec<u8>) -> (res: Option<String>)
    ensures
        res matches Some(s) ==> valid_utf8(bytes@) && s@ == decode_utf8(bytes@),
        res is None ==> !valid_utf8(bytes@),
{
    match String::from_utf8(bytes) {
        Ok(s) => Some(s),
        Err(_) => None,
    }
}

/// The main parameters of a graph, written at the beginning of a dump.
///
/// The names of the distance and of the coordinate type are stored so that a
/// reload can check that it reads what it expects.
pub struct Description {
    /// 1 for a `Full` dump, 0 for a `Light` one.
    pub dumpmode: u8,
    /// Largest number of connections in the layers above 0.
    pub max_nb_connection: u8,
    /// Number of layers.
    pub nb_layer: u8,
    /// Search parameter used at construction.
    pub ef: usize,
    /// Total number of points.
    pub nb_point: usize,
    /// Number of coordinates of a point.
    pub dimension: usize,
    /// Name of the distance.
    pub distname: String,
    /// Name of the coordinate type.
    pub t_name: String,
}

impl View for Description {
    type V = DescriptionModel;

    open spec fn view(&self) -> DescriptionModel {
        DescriptionModel {
            dumpmode: self.dumpmode,
            max_nb_connection: self.max_nb_connection,
            nb_layer: self.nb_layer,
            ef: self.ef,
            nb_point: self.nb_point,
            dimension: self.dimension,
            distname: self.distname@,
            t_name: self.t_name@,
        }
    }
}

/// The message of a description dump that finds a wrong number of layers.
pub open spec fn layer_count_message() -> Seq<char> {
    "dump of Description, nb_layer != NB_MAX_LAYER"@
}

fn put_name(out: &mut Vec<u8>, name: &String)
    ensures
        final(out)@ == old(out)@ + name_bytes(name@),
{
    let s = name.as_str();
    let b = s.as_bytes();
    let n = s.len();
    put_usize(out, n);
    put_bytes(out, b);
    assert(final(out)@ =~= old(out)@ + name_bytes(name@));
}

impl Description {
    /// Writes the description: its magic number, the mode asked for (not
    /// the stored one), connections and number of layers; then, when the
    /// number of layers is `NB_LAYER_MAX`, ef, number of points, dimension and
    /// the two names. With another number of layers it stops there and fails.
    pub fn dump(&self, argmode: DumpMode, out: &mut Vec<u8>) -> (res: Result<i32, String>)
        ensures
            self.nb_layer == NB_LAYER_MAX ==> res == Ok::<i32, String>(1) && final(out)@ == old(
                out,
            )@ + description_bytes(self@, argmode),
            self.nb_layer != NB_LAYER_MAX ==> final(out)@ == old(out)@ + description_head_bytes(
                self@,
                argmode,
            ) && (res matches Err(m) && m@ == layer_count_message()),
    {
        put_u32(out, MAGICDESCR);
        let mode: u8 = match argmode {
            DumpMode::Full => 1,
            _ => 0,
        };
        assert(mode == mode_byte(argmode));
        put_u8(out, mode);
        put_u8(out, self.max_nb_connection);
        put_u8(out, self.nb_layer);
        let ghost head = out@;
        assert(head =~= old(out)@ + description_head_bytes(self@, argmode));
        if self.nb_layer != NB_LAYER_MAX {
            return Err("dump of Description, nb_layer != NB_MAX_LAYER".to_owned());
        }
        put_usize(out, self.ef);
        put_usize(out, self.nb_point);
        put_usize(out, self.dimension);
        put_name(out, &self.distname);
        put_name(out, &self.t_name);
        assert(out@ =~= old(out)@ + description_bytes(self@, argmode));
        Ok(1)
    }
}

fn load_name(b: &[u8], pos: usize, too_long: LoadError) -> (res: Result<(String, usize), LoadError>)
    ensures
        match res {
            Ok((s, p)) => parse_name(b@, pos as int, too_long) == Ok::<(Seq<char>, int), LoadError>(
                (s@, p as int),
            ),
            Err(e) => parse_name(b@, pos as int, too_long) == Err::<(Seq<char>, int), LoadError>(e),
        },
{
    let n = match get_usize(b, pos) {
        Ok(n) => n,
        Err(e) => return Err(e),
    };
    if n > MAX_NAME_LEN {
        return Err(too_long);
    }
    let blen = b.len();
    assert(pos + 8 <= blen);
    let bytes = match get_bytes(b, pos + 8, n) {
        Ok(v) => v,
        Err(e) => return Err(e),
    };
    assert(pos + 8 + n <= blen);
    match string_from_utf8(bytes) {
        Some(s) => Ok((s, pos + 8 + n)),
        None => Err(LoadError::NotUtf8),
    }
}

/// Reads a description at the beginning of `bytes`: the description and the
/// number of bytes it takes, or why it cannot be read. Where the input ends
/// too early, the error gives the input length that the next field needs.
pub fn load_description(bytes: &[u8]) -> (res: Result<(Description, usize), LoadError>)
    ensures
        match res {
            Ok((d, n)) => parse_description(bytes@) == Ok::<(DescriptionModel, int), LoadError>(
                (d@, n as int),
            ),
            Err(e) => parse_description(bytes@) == Err::<(DescriptionModel, int), LoadError>(e),
        },
{
    let magic = match get_u32(bytes, 0) {
        Ok(m) => m,
        Err(e) => return Err(e),
    };
    if magic != MAGICDESCR {
        return Err(LoadError::DescrMagic);
    }
    let dumpmode = match get_u8(bytes, 4) {
        Ok(x) => x,
        Err(e) => return Err(e),
    };
    let max_nb_connection = match get_u8(bytes, 5) {
        Ok(x) => x,
        Err(e) => return Err(e),
    };
    let nb_layer = match get_u8(bytes, 6) {
        Ok(x) => x,
        Err(e) => return Err(e),
    };
    let ef = match get_usize(bytes, 7) {
        Ok(x) => x,
        Err(e) => return Err(e),
    };
    let nb_point = match get_usize(bytes, 15) {
        Ok(x) => x,
        Err(e) => return Err(e),
    };
    let dimension = match get_usize(bytes, 23) {
        Ok(x) => x,
        Err(e) => return Err(e),
    };
    let (distname, p) = match load_name(bytes, 31, LoadError::DistNameTooLong) {
        Ok(r) => r,
        Err(e) => return Err(e),
    };
    let (t_name, q) = match load_name(bytes, p, LoadError::TypeNameTooLong) {
        Ok(r) => r,
        Err(e) => return Err(e),
    };
    let d = Description {
        dumpmode,
        max_nb_connection,
        nb_layer,
        ef,
        nb_point,
        dimension,
        distname,
        t_name,
    };
    Ok((d, q))
}


/// The main interface for dumping a graph: the graph stream and the data
/// stream are appended to `outgraph` and `outdata`.
pub trait HnswIO {
    /// What the dump needs of the value.
    spec fn dump_ready(&self) -> bool;

    /// What the dump does with `mode`.
    spec fn dump_outcome(&self, mode: DumpMode) -> DumpOutcome;

    fn dump(&self, mode: DumpMode, outgraph: &mut Vec<u8>, outdata: &mut Vec<u8>) -> (res: Result<
        i32,
        String,
    >)
        requires
            self.dump_ready(),
        ensures
            final(outgraph)@ == old(outgraph)@ + self.dump_outcome(mode).graph,
            final(outdata)@ == old(outdata)@ + self.dump_outcome(mode).data,
            self.dump_outcome(mode).ok ==> res == Ok::<i32, String>(1),
            !self.dump_outcome(mode).ok ==> res is Err,
    ;
}

fn dump_neighbour(n: Neighbour, full: bool, out: &mut Vec<u8>)
    ensures
        final(out)@ == old(out)@ + neighbour_bytes(n, full),
{
    put_usize(out, n.d_id);
    if full {
        put_u8(out, n.p_id.0);
        put_i32(out, n.p_id.1);
    }
    put_u32(out, n.distance);
    assert(final(out)@ =~= old(out)@ + neighbour_bytes(n, full));
}

fn dump_layer_neighbours(ns: &Vec<Neighbour>, full: bool, out: &mut Vec<u8>)
    ensures
        final(out)@ == old(out)@ + layer_neighbours_bytes(ns@, full),
{
    put_u8(out, ns.len() as u8);
    let ghost start = out@;
    let mut k: usize = 0;
    while k < ns.len()
        invariant
            0 <= k <= ns@.len(),
            out@ == start + neighbours_bytes(ns@.take(k as int), full),
        decreases ns@.len() - k,
    {
        let ghost before = out@;
        dump_neighbour(ns[k], full, out);
        proof {
            assert(ns@.take(k + 1).drop_last() =~= ns@.take(k as int));
            assert(ns@.take(k + 1).last() == ns@[k as int]);
            assert(out@ =~= start + neighbours_bytes(ns@.take(k + 1), full));
        }
        k = k + 1;
    }
    assert(ns@.take(ns@.len() as int) =~= ns@);
    assert(final(out)@ =~= old(out)@ + layer_neighbours_bytes(ns@, full));
}

/// Dumps one point: its graph part to `graphout`, its data part to `dataout`.
fn dump_point(point: &Point, mode: DumpMode, graphout: &mut Vec<u8>, dataout: &mut Vec<u8>)
    ensures
        final(graphout)@ == old(graphout)@ + point_graph_bytes(point@, mode == DumpMode::Full),
        final(dataout)@ == old(dataout)@ + point_data_bytes(point@),
{
    let full = mode == DumpMode::Full;
    put_u32(graphout, MAGICPOINT);
    put_usize(graphout, point.get_origin_id());
    let p_id = point.get_point_id();
    if full {
        put_u8(graphout, p_id.0);
        put_i32(graphout, p_id.1);
    }
    let ghost start = graphout@;
    let ghost ls = point@.neighbours;
    let mut l: usize = 0;
    while l < point.neighbours.len()
        invariant
            0 <= l <= ls.len(),
            ls == point@.neighbours,
            ls.len() == point.neighbours@.len(),
            graphout@ == start + neighbourhood_bytes(ls.take(l as int), full),
        decreases ls.len() - l,
    {
        let ghost before = graphout@;
        dump_layer_neighbours(&point.neighbours[l], full, graphout);
        proof {
            assert(ls[l as int] == point.neighbours@[l as int]@);
            assert(ls.take(l + 1).drop_last() =~= ls.take(l as int));
            assert(ls.take(l + 1).last() == ls[l as int]);
            assert(graphout@ =~= start + neighbourhood_bytes(ls.take(l + 1), full));
        }
        l = l + 1;
    }
    assert(ls.take(ls.len() as int) =~= ls);
    assert(final(graphout)@ =~= old(graphout)@ + point_graph_bytes(point@, full));
    put_u32(dataout, MAGICDATAP);
    put_usize(dataout, point.get_origin_id());
    put_bytes(dataout, point.v.as_slice());
    assert(final(dataout)@ =~= old(dataout)@ + point_data_bytes(point@));
}

/// Dumps the points of one layer, in order.
fn dump_layer_points(
    layer: &Vec<Point>,
    mode: DumpMode,
    graphout: &mut Vec<u8>,
    dataout: &mut Vec<u8>,
)
    ensures
        final(graphout)@ == old(graphout)@ + points_graph_bytes(
            layer_view(*layer),
            mode == DumpMode::Full,
        ),
        final(dataout)@ == old(dataout)@ + points_data_bytes(layer_view(*layer)),
{
    let ghost full = mode == DumpMode::Full;
    let ghost ps = layer_view(*layer);
    let ghost g0 = graphout@;
    let ghost d0 = dataout@;
    let mut j: usize = 0;
    while j < layer.len()
        invariant
            0 <= j <= ps.len(),
            ps == layer_view(*layer),
            ps.len() == layer@.len(),
            full == (mode == DumpMode::Full),
            graphout@ == g0 + points_graph_bytes(ps.take(j as int), full),
            dataout@ == d0 + points_data_bytes(ps.take(j as int)),
        decreases ps.len() - j,
    {
        dump_point(&layer[j], mode, graphout, dataout);
        proof {
            assert(ps[j as int] == layer@[j as int]@);
            assert(ps.take(j + 1).drop_last() =~= ps.take(j as int));
            assert(ps.take(j + 1).last() == ps[j as int]);
            assert(graphout@ =~= g0 + points_graph_bytes(ps.take(j + 1), full));
            assert(dataout@ =~= d0 + points_data_bytes(ps.take(j + 1)));
        }
        j = j + 1;
    }
    assert(ps.take(ps.len() as int) =~= ps);
}

impl HnswIO for PointIndexation {
    /// The entry point is a point of the graph, and each point stands at the
    /// place that it names.
    open spec fn dump_ready(&self) -> bool {
        &&& self.entry_point matches Some(id) && names_point(self@.points, id)
        &&& forall|i: int, j: int|
            0 <= i < self@.points.len() && 0 <= j < self@.points[i].len() ==> (
            #[trigger] self@.points[i][j]).p_id == PointId(i as u8, j as i32)
    }

    open spec fn dump_outcome(&self, mode: DumpMode) -> DumpOutcome {
        DumpOutcome {
            ok: true,
            graph: indexation_graph_bytes(self@, mode == DumpMode::Full),
            data: indexation_data_bytes(self@),
        }
    }

    /// Writes the number of layers, then each layer (its magic number, its
    /// number of points, its points), then the entry point.
    fn dump(&self, mode: DumpMode, graphout: &mut Vec<u8>, dataout: &mut Vec<u8>) -> (res: Result<
        i32,
        String,
    >) {
        let ghost full = mode == DumpMode::Full;
        let ghost m = self@;
        let layers = &self.points_by_layer;
        let nb_layer = layers.len() as u8;
        put_u8(graphout, nb_layer);
        let ghost g0 = graphout@;
        let ghost d0 = dataout@;
        let mut i: usize = 0;
        while i < layers.len()
            invariant
                0 <= i <= m.points.len(),
                m == self@,
                layers == &self.points_by_layer,
                m.points.len() == layers@.len(),
                full == (mode == DumpMode::Full),
                graphout@ == g0 + layers_graph_bytes(m.points.take(i as int), full),
                dataout@ == d0 + layers_data_bytes(m.points.take(i as int)),
            decreases m.points.len() - i,
        {
            let nb_point = layers[i].len();
            put_u32(graphout, MAGICLAYER);
            put_usize(graphout, nb_point);
            dump_layer_points(&layers[i], mode, graphout, dataout);
            proof {
                let ps = m.points[i as int];
                assert(ps == layer_view(layers@[i as int]));
                assert(ps.len() == nb_point);
                assert(m.points.take(i + 1).drop_last() =~= m.points.take(i as int));
                assert(m.points.take(i + 1).last() == ps);
                assert(graphout@ =~= g0 + layers_graph_bytes(m.points.take(i + 1), full));
                assert(dataout@ =~= d0 + layers_data_bytes(m.points.take(i + 1)));
            }
            i = i + 1;
        }
        assert(m.points.take(m.points.len() as int) =~= m.points);
        let id = self.entry_point.unwrap();
        let ep = &layers[id.0 as usize][id.1 as usize];
        assert(m.points[id.0 as int] == layer_view(layers@[id.0 as int]));
        assert(ep@ == m.points[id.0 as int][id.1 as int]);
        put_usize(graphout, ep.get_origin_id());
        let p_id = ep.get_point_id();
        assert(p_id == id);
        if mode == DumpMode::Full {
            put_u8(graphout, p_id.0);
            put_i32(graphout, p_id.1);
        }
        assert(graphout@ =~= old(graphout)@ + indexation_graph_bytes(m, full));
        Ok(1)
    }
}

impl HnswIO for Hnsw {
    /// The indexation is well formed, and ready for its dump where the
    /// description does not stop the dump first (with `NB_LAYER_MAX` layers).
    open spec fn dump_ready(&self) -> bool {
        &&& self.layer_indexed_points@.wf()
        &&& (self.max_layer as u8 == NB_LAYER_MAX ==> self.layer_indexed_points.dump_ready())
    }

    open spec fn dump_outcome(&self, mode: DumpMode) -> DumpOutcome {
        hnsw_dump(self@, mode)
    }

    /// Writes the description of the graph to the graph stream, the magic
    /// number and the dimension to the data stream, then the indexation.
    /// A number of layers other than `NB_LAYER_MAX` makes the description fail.
    fn dump(&self, mode: DumpMode, graphout: &mut Vec<u8>, dataout: &mut Vec<u8>) -> (res: Result<
        i32,
        String,
    >)
        ensures
            res matches Err(m) ==> m@ == layer_count_message(),
    {
        let dumpmode: u8 = match mode {
            DumpMode::Full => 1,
            _ => 0,
        };
        let datadim = self.layer_indexed_points.get_data_dimension();
        let description = Description {
            dumpmode,
            max_nb_connection: self.max_nb_connection as u8,
            nb_layer: self.max_layer as u8,
            ef: self.ef_construction,
            nb_point: self.layer_indexed_points.get_nb_point(),
            dimension: datadim,
            distname: self.dist_name.clone(),
            t_name: self.t_name.clone(),
        };
        assert(description@ == hnsw_description(self@, mode));
        match description.dump(mode, graphout) {
            Err(e) => {
                return Err(e);
            },
            Ok(_) => {},
        }
        put_u32(dataout, MAGICDATAP);
        put_usize(dataout, datadim);
        let _ = self.layer_indexed_points.dump(mode, graphout, dataout);
        assert(graphout@ =~= old(graphout)@ + hnsw_dump(self@, mode).graph);
        assert(dataout@ =~= old(dataout)@ + hnsw_dump(self@, mode).data);
        Ok(1)
    }
}

/// Dumps the data part of a point: its magic number, its origin id and the
/// bytes of its coordinates.
pub fn dump_point_data(point: &Point, out: &mut Vec<u8>)
    ensures
        final(out)@ == old(out)@ + point_data_bytes(point@),
{
    put_u32(out, MAGICDATAP);
    put_usize(out, point.get_origin_id());
    put_bytes(out, point.v.as_slice());
    assert(final(out)@ =~= old(out)@ + point_data_bytes(point@));
}

impl PointIndexation {
    /// Whether the indexation is well formed: a coordinate takes at least one
    /// byte, and the entry point, where there is one, is a point of the graph.
    pub fn is_wf(&self) -> (r: bool)
        ensures
            r == self@.wf(),
    {
        let ghost m = self@;
        if self.elem_size == 0 {
            return false;
        }
        match self.entry_point {
            None => true,
            Some(id) => {
                let layer = id.0 as usize;
                if layer < self.points_by_layer.len() {
                    assert(m.points[layer as int] == layer_view(self.points_by_layer@[layer as int]));
                    id.1 >= 0 && (id.1 as usize) < self.points_by_layer[layer].len()
                } else {
                    false
                }
            },
        }
    }

    /// Whether the indexation can be dumped: it has an entry point that is a
    /// point of the graph, and each point stands at the place that it names.
    pub fn is_dump_ready(&self) -> (r: bool)
        ensures
            r == self.dump_ready(),
    {
        let ghost m = self@;
        match self.entry_point {
            None => {
                return false;
            },
            Some(id) => {
                let layer = id.0 as usize;
                if !(layer < self.points_by_layer.len() && id.1 >= 0 && (id.1 as usize)
                    < self.points_by_layer[layer].len()) {
                    proof {
                        if (layer as int) < m.points.len() {
                            assert(m.points[layer as int] == layer_view(
                                self.points_by_layer@[layer as int],
                            ));
                        }
                    }
                    return false;
                }
                assert(m.points[layer as int] == layer_view(self.points_by_layer@[layer as int]));
            },
        }
        let mut i: usize = 0;
        while i < self.points_by_layer.len()
            invariant
                i <= m.points.len(),
                m == self@,
                m.points.len() == self.points_by_layer@.len(),
                forall|a: int, b: int|
                    0 <= a < i && 0 <= b < m.points[a].len() ==> (#[trigger] m.points[a][b]).p_id
                        == PointId(a as u8, b as i32),
            decreases m.points.len() - i,
        {
            let layer = &self.points_by_layer[i];
            assert(m.points[i as int] == layer_view(self.points_by_layer@[i as int]));
            let mut j: usize = 0;
            while j < layer.len()
                invariant
                    i < m.points.len(),
                    j <= layer@.len(),
                    m == self@,
                    m.points[i as int] == layer_view(*layer),
                    forall|a: int, b: int|
                        0 <= a < i && 0 <= b < m.points[a].len() ==> (#[trigger] m.points[a][b]).p_id
                            == PointId(a as u8, b as i32),
                    forall|b: int|
                        0 <= b < j ==> (#[trigger] m.points[i as int][b]).p_id == PointId(
                            i as u8,
                            b as i32,
                        ),
                decreases layer@.len() - j,
            {
                let p_id = layer[j].get_point_id();
                assert(m.points[i as int][j as int] == layer@[j as int]@);
                if !(p_id.0 == i as u8 && p_id.1 == j as i32) {
                    return false;
                }
                j = j + 1;
            }
            i = i + 1;
        }
        true
    }
}

impl Hnsw {
    /// Whether the graph can be dumped: its indexation is well formed, and
    /// ready for its dump where the graph has `NB_LAYER_MAX` layers.
    pub fn is_dump_ready(&self) -> (r: bool)
        ensures
            r == self.dump_ready(),
    {
        self.layer_indexed_points.is_wf() && (self.max_layer as u8 != NB_LAYER_MAX
            || self.layer_indexed_points.is_dump_ready())
    }
}

/// The message of a reload that is asked for another distance than the
/// one the dump names.
pub fn distance_mismatch_message(dumped: &String, asked: &String) -> (m: String)
    ensures
        m@ == "error in distances : dumped distance is : "@ + dumped@
            + " asked distance in loading is : "@ + asked@,
{
    let mut m = "error in distances : dumped distance is : ".to_owned();
    m.append(dumped.as_str());
    m.append(" asked distance in loading is : ");
    m.append(asked.as_str());
    m
}

} // verus!
