//! The graph that a dump holds: points arranged in layers, each with its
//! neighbours per layer, and the parameters of the graph.
//!
//! Coordinates are held as the bytes that stand for them in memory, and a
//! distance as the bit pattern of its `f32`, so that the format can be
//! stated and checked over plain values.
use vstd::prelude::*;

verus! {

/// The number of layers that a graph holds.
pub const NB_LAYER_MAX: u8 = 16;

/// The place of a point in the graph: its layer and its rank in that layer.
#[derive(Clone, Copy, Debug, PartialEq, Eq, Structural)]
pub struct PointId(pub u8, pub i32);

/// A neighbour of a point: its origin id, its place, and its distance to the
/// point (the bit pattern of the `f32`).
#[derive(Clone, Copy, Debug, PartialEq, Eq, Structural)]
pub struct Neighbour {
    pub d_id: usize,
    pub p_id: PointId,
    pub distance: u32,
}

/// A point of the graph.
pub struct Point {
    /// The id of the point in the data that was indexed.
    pub origin_id: usize,
    /// Its place in the graph.
    pub p_id: PointId,
    /// The bytes of its coordinates.
    pub v: Vec<u8>,
    /// Its neighbours, layer by layer.
    pub neighbours: Vec<Vec<Neighbour>>,
}

pub struct PointModel {
    pub origin_id: usize,
    pub p_id: PointId,
    pub v: Seq<u8>,
    pub neighbours: Seq<Seq<Neighbour>>,
}

impl View for Point {
    type V = PointModel;

    open spec fn view(&self) -> PointModel {
        PointModel {
            origin_id: self.origin_id,
            p_id: self.p_id,
            v: self.v@,
            neighbours: self.neighbours@.map_values(|ns: Vec<Neighbour>| ns@),
        }
    }
}

impl Point {
    pub fn get_origin_id(&self) -> (r: usize)
        ensures
            r == self.origin_id,
    {
        self.origin_id
    }

    pub fn get_point_id(&self) -> (r: PointId)
        ensures
            r == self.p_id,
    {
        self.p_id
    }
}

/// The points of a graph, layer by layer, with its entry point.
pub struct PointIndexation {
    pub max_nb_connection: usize,
    pub max_layer: usize,
    pub points_by_layer: Vec<Vec<Point>>,
    pub nb_point: usize,
    /// The place of the entry point in `points_by_layer`.
    pub entry_point: Option<PointId>,
    /// The number of bytes of one coordinate.
    pub elem_size: usize,
}

pub struct IndexationModel {
    pub max_nb_connection: usize,
    pub max_layer: usize,
    pub points: Seq<Seq<PointModel>>,
    pub nb_point: usize,
    pub entry_point: Option<PointId>,
    pub elem_size: usize,
}

pub open spec fn layer_view(l: Vec<Point>) -> Seq<PointModel> {
    l@.map_values(|p: Point| p@)
}

impl View for PointIndexation {
    type V = IndexationModel;

    open spec fn view(&self) -> IndexationModel {
        IndexationModel {
            max_nb_connection: self.max_nb_connection,
            max_layer: self.max_layer,
            points: self.points_by_layer@.map_values(|l: Vec<Point>| layer_view(l)),
            nb_point: self.nb_point,
            entry_point: self.entry_point,
            elem_size: self.elem_size,
        }
    }
}

/// `id` names a point of `points`.
pub open spec fn names_point(points: Seq<Seq<PointModel>>, id: PointId) -> bool {
    &&& (id.0 as int) < points.len()
    &&& 0 <= id.1 < points[id.0 as int].len()
}

/// The point that `id` names.
pub open spec fn point_at(points: Seq<Seq<PointModel>>, id: PointId) -> PointModel {
    points[id.0 as int][id.1 as int]
}

impl IndexationModel {
    /// The entry point, where there is one, is a point of the graph, and a
    /// coordinate takes at least one byte.
    pub open spec fn wf(self) -> bool {
        &&& self.elem_size > 0
        &&& (self.entry_point matches Some(id) ==> names_point(self.points, id))
    }

    /// The number of coordinates of the entry point, 0 without one.
    pub open spec fn data_dimension(self) -> usize {
        match self.entry_point {
            Some(id) => (point_at(self.points, id).v.len() / (self.elem_size as nat)) as usize,
            None => 0,
        }
    }
}

impl PointIndexation {
    pub fn get_nb_point(&self) -> (r: usize)
        ensures
            r == self.nb_point,
    {
        self.nb_point
    }

    /// The number of coordinates of the entry point, 0 without one.
    pub fn get_data_dimension(&self) -> (r: usize)
        requires
            self@.wf(),
        ensures
            r == self@.data_dimension(),
    {
        match self.entry_point {
            Some(id) => {
                let ghost m = self@;
                assert(m.points[id.0 as int] == layer_view(self.points_by_layer@[id.0 as int]));
                let p = &self.points_by_layer[id.0 as usize][id.1 as usize];
                assert(p@ == point_at(m.points, id));
                p.v.len() / self.elem_size
            },
            None => 0,
        }
    }
}

/// A graph with its parameters.
pub struct Hnsw {
    pub max_nb_connection: usize,
    pub ef_construction: usize,
    pub extend_candidates: bool,
    pub keep_pruned: bool,
    pub max_layer: usize,
    pub layer_indexed_points: PointIndexation,
    pub data_dimension: usize,
    /// The name of the distance that the graph was built with.
    pub dist_name: String,
    /// The name of the type of a coordinate.
    pub t_name: String,
    pub searching: bool,
}

pub struct HnswModel {
    pub max_nb_connection: usize,
    pub ef_construction: usize,
    pub extend_candidates: bool,
    pub keep_pruned: bool,
    pub max_layer: usize,
    pub layer_indexed_points: IndexationModel,
    pub data_dimension: usize,
    pub dist_name: Seq<char>,
    pub t_name: Seq<char>,
    pub searching: bool,
}

impl View for Hnsw {
    type V = HnswModel;

    open spec fn view(&self) -> HnswModel {
        HnswModel {
            max_nb_connection: self.max_nb_connection,
            ef_construction: self.ef_construction,
            extend_candidates: self.extend_candidates,
            keep_pruned: self.keep_pruned,
            max_layer: self.max_layer,
            layer_indexed_points: self.layer_indexed_points@,
            data_dimension: self.data_dimension,
            dist_name: self.dist_name@,
            t_name: self.t_name@,
            searching: self.searching,
        }
    }
}

} // verus!
