//! Reload of a graph from its graph stream and its data stream.
use vstd::prelude::*;
use crate::wire::{LoadError, get_u8, get_u32, get_i32, get_usize, get_bytes};
use crate::hnsw::{
    PointId, Neighbour, Point, PointModel, PointIndexation, IndexationModel, Hnsw, HnswModel,
    NB_LAYER_MAX, layer_view, names_point,
};
use crate::hnswio::Description;
use crate::format::{
    MAGICPOINT, MAGICDATAP, PointFormat, parse_neighbour, parse_neighbours, parse_neighbourhood,
    pad_layers, parse_point, parse_point_head, parse_layer_points, find_in_layer, find_origin,
    locate, parse_layers, MAGICLAYER, total_points, neighbours_resolvable, resolve_layer,
    resolve_point, resolve, parse_entry, parse_indexation, parse_hnsw,
};

verus! {

/// The layers of neighbours that a point holds, as plain sequences.
pub open spec fn neighbourhood_view(ls: Seq<Vec<Neighbour>>) -> Seq<Seq<Neighbour>> {
    ls.map_values(|ns: Vec<Neighbour>| ns@)
}

proof fn lemma_neighbours_err(g: Seq<u8>, pos: int, k: nat, n: nat, full: bool)
    requires
        k <= n,
        parse_neighbours(g, pos, k, full) is Err,
    ensures
        parse_neighbours(g, pos, n, full) == parse_neighbours(g, pos, k, full),
    decreases n,
{
    if k < n {
        lemma_neighbours_err(g, pos, k, (n - 1) as nat, full);
    }
}

proof fn lemma_neighbourhood_err(g: Seq<u8>, pos: int, k: nat, n: nat, full: bool)
    requires
        k <= n,
        parse_neighbourhood(g, pos, k, full) is Err,
    ensures
        parse_neighbourhood(g, pos, n, full) == parse_neighbourhood(g, pos, k, full),
    decreases n,
{
    if k < n {
        lemma_neighbourhood_err(g, pos, k, (n - 1) as nat, full);
    }
}

fn load_neighbour(g: &[u8], pos: usize, full: bool) -> (res: Result<(Neighbour, usize), LoadError>)
    ensures
        match res {
            Ok((n, p)) => parse_neighbour(g@, pos as int, full) == Ok::<(Neighbour, int), LoadError>(
                (n, p as int),
            ),
            Err(e) => parse_neighbour(g@, pos as int, full) == Err::<(Neighbour, int), LoadError>(e),
        },
        res matches Ok((_, p)) ==> p >= pos,
{
    let glen = g.len();
    let d_id = match get_usize(g, pos) {
        Ok(x) => x,
        Err(e) => return Err(e),
    };
    if full {
        let layer = match get_u8(g, pos + 8) {
            Ok(x) => x,
            Err(e) => return Err(e),
        };
        let rank = match get_i32(g, pos + 9) {
            Ok(x) => x,
            Err(e) => return Err(e),
        };
        let distance = match get_u32(g, pos + 13) {
            Ok(x) => x,
            Err(e) => return Err(e),
        };
        Ok((Neighbour { d_id, p_id: PointId(layer, rank), distance }, pos + 17))
    } else {
        let distance = match get_u32(g, pos + 8) {
            Ok(x) => x,
            Err(e) => return Err(e),
        };
        Ok((Neighbour { d_id, p_id: PointId(0, 0), distance }, pos + 12))
    }
}

/// Reads `count` neighbours at `pos`.
fn load_neighbours(g: &[u8], pos: usize, count: u8, full: bool) -> (res: Result<
    (Vec<Neighbour>, usize),
    LoadError,
>)
    ensures
        match res {
            Ok((ns, p)) => parse_neighbours(g@, pos as int, count as nat, full) == Ok::<
                (Seq<Neighbour>, int),
                LoadError,
            >((ns@, p as int)),
            Err(e) => parse_neighbours(g@, pos as int, count as nat, full) == Err::<
                (Seq<Neighbour>, int),
                LoadError,
            >(e),
        },
        res matches Ok((_, p)) ==> p >= pos,
{
    let mut ns: Vec<Neighbour> = Vec::new();
    let mut p = pos;
    let mut k: u8 = 0;
    assert(ns@ =~= Seq::<Neighbour>::empty());
    while k < count
        invariant
            k <= count,
            p >= pos,
            parse_neighbours(g@, pos as int, k as nat, full) == Ok::<(Seq<Neighbour>, int), LoadError>(
                (ns@, p as int),
            ),
        decreases count - k,
    {
        match load_neighbour(g, p, full) {
            Ok((n, q)) => {
                ns.push(n);
                p = q;
                k = k + 1;
            },
            Err(e) => {
                proof {
                    lemma_neighbours_err(g@, pos as int, (k + 1) as nat, count as nat, full);
                }
                return Err(e);
            },
        }
    }
    Ok((ns, p))
}

/// Reads the neighbours of `nl` layers at `pos`.
fn load_neighbourhood(g: &[u8], pos: usize, nl: u8, full: bool) -> (res: Result<
    (Vec<Vec<Neighbour>>, usize),
    LoadError,
>)
    ensures
        match res {
            Ok((ls, p)) => parse_neighbourhood(g@, pos as int, nl as nat, full) == Ok::<
                (Seq<Seq<Neighbour>>, int),
                LoadError,
            >((neighbourhood_view(ls@), p as int)),
            Err(e) => parse_neighbourhood(g@, pos as int, nl as nat, full) == Err::<
                (Seq<Seq<Neighbour>>, int),
                LoadError,
            >(e),
        },
        res matches Ok((_, p)) ==> p >= pos,
{
    let glen = g.len();
    let mut ls: Vec<Vec<Neighbour>> = Vec::new();
    let mut p = pos;
    let mut l: u8 = 0;
    assert(neighbourhood_view(ls@) =~= Seq::<Seq<Neighbour>>::empty());
    while l < nl
        invariant
            l <= nl,
            p >= pos,
            glen == g@.len(),
            parse_neighbourhood(g@, pos as int, l as nat, full) == Ok::<
                (Seq<Seq<Neighbour>>, int),
                LoadError,
            >((neighbourhood_view(ls@), p as int)),
        decreases nl - l,
    {
        let c = match get_u8(g, p) {
            Ok(c) => c,
            Err(e) => {
                proof {
                    lemma_neighbourhood_err(g@, pos as int, (l + 1) as nat, nl as nat, full);
                }
                return Err(e);
            },
        };
        match load_neighbours(g, p + 1, c, full) {
            Ok((ns, q)) => {
                let ghost old_ls = ls@;
                ls.push(ns);
                assert(neighbourhood_view(ls@) =~= neighbourhood_view(old_ls).push(ns@));
                p = q;
                l = l + 1;
            },
            Err(e) => {
                proof {
                    lemma_neighbourhood_err(g@, pos as int, (l + 1) as nat, nl as nat, full);
                }
                return Err(e);
            },
        }
    }
    Ok((ls, p))
}

/// The empty layers that follow the layers read, up to `NB_LAYER_MAX`.
fn pad_neighbourhood(ls: &mut Vec<Vec<Neighbour>>, nb_layer: u8)
    ensures
        neighbourhood_view(final(ls)@) == pad_layers(neighbourhood_view(old(ls)@), nb_layer),
{
    let ghost start = neighbourhood_view(ls@);
    let mut l = nb_layer;
    while l < NB_LAYER_MAX
        invariant
            nb_layer <= l <= NB_LAYER_MAX || (nb_layer >= NB_LAYER_MAX && l == nb_layer),
            neighbourhood_view(ls@) =~= start + Seq::new(
                (l - nb_layer) as nat,
                |i: int| Seq::<Neighbour>::empty(),
            ),
        decreases NB_LAYER_MAX - l,
    {
        let ghost before = ls@;
        ls.push(Vec::new());
        assert(neighbourhood_view(ls@) =~= neighbourhood_view(before).push(Seq::empty()));
        l = l + 1;
    }
    if nb_layer >= NB_LAYER_MAX {
        assert(neighbourhood_view(ls@) =~= start);
    }
}

/// Reads a point: its graph part at `gpos`, its data part at `dpos`; a data
/// vector has `dimension` coordinates of `elem_size` bytes. In a `Light` dump
/// the point gets `place`, where it is read.
pub fn load_point(
    g: &[u8],
    gpos: usize,
    d: &[u8],
    dpos: usize,
    full: bool,
    place: PointId,
    nb_layer: u8,
    elem_size: usize,
    dimension: usize,
) -> (res: Result<(Point, usize, usize), LoadError>)
    ensures
        match res {
            Ok((p, gq, dq)) => parse_point(
                g@,
                gpos as int,
                d@,
                dpos as int,
                PointFormat { full, nb_layer, vlen: elem_size * dimension },
                place,
            ) == Ok::<(PointModel, int, int), LoadError>((p@, gq as int, dq as int)),
            Err(e) => parse_point(
                g@,
                gpos as int,
                d@,
                dpos as int,
                PointFormat { full, nb_layer, vlen: elem_size * dimension },
                place,
            ) == Err::<(PointModel, int, int), LoadError>(e),
        },
        res matches Ok((_, gq, dq)) ==> gq >= gpos + 12 && dq >= dpos,
{
    let glen = g.len();
    let dlen = d.len();
    let magic = match get_u32(g, gpos) {
        Ok(x) => x,
        Err(e) => return Err(e),
    };
    if magic != MAGICPOINT {
        return Err(LoadError::PointMagic);
    }
    let origin_id = match get_usize(g, gpos + 4) {
        Ok(x) => x,
        Err(e) => return Err(e),
    };
    let (p_id, gp) = if full {
        let layer = match get_u8(g, gpos + 12) {
            Ok(x) => x,
            Err(e) => return Err(e),
        };
        let rank = match get_i32(g, gpos + 13) {
            Ok(x) => x,
            Err(e) => return Err(e),
        };
        (PointId(layer, rank), gpos + 17)
    } else {
        (place, gpos + 12)
    };
    assert(parse_point_head(g@, gpos as int, full, place) == Ok::<(usize, PointId, int), LoadError>(
        (origin_id, p_id, gp as int),
    ));
    let (mut neighbours, gq) = match load_neighbourhood(g, gp, nb_layer, full) {
        Ok(r) => r,
        Err(e) => return Err(e),
    };
    pad_neighbourhood(&mut neighbours, nb_layer);
    let dmagic = match get_u32(d, dpos) {
        Ok(x) => x,
        Err(e) => return Err(e),
    };
    if dmagic != MAGICDATAP {
        return Err(LoadError::DataMagic);
    }
    let origin_data = match get_usize(d, dpos + 4) {
        Ok(x) => x,
        Err(e) => return Err(e),
    };
    if origin_data != origin_id {
        return Err(LoadError::OriginMismatch);
    }
    let vlen = match elem_size.checked_mul(dimension) {
        Some(n) => n,
        None => {
            return Err(LoadError::Truncated(usize::MAX));
        },
    };
    let v = match get_bytes(d, dpos + 12, vlen) {
        Ok(v) => v,
        Err(e) => return Err(e),
    };
    let p = Point { origin_id, p_id, v, neighbours };
    assert(p@.neighbours == neighbourhood_view(p.neighbours@));
    Ok((p, gq, dpos + 12 + vlen))
}

proof fn lemma_layer_points_err(
    g: Seq<u8>,
    gpos: int,
    d: Seq<u8>,
    dpos: int,
    l: int,
    k: nat,
    n: nat,
    f: PointFormat,
)
    requires
        k <= n,
        parse_layer_points(g, gpos, d, dpos, l, k, f) is Err,
    ensures
        parse_layer_points(g, gpos, d, dpos, l, n, f) == parse_layer_points(g, gpos, d, dpos, l, k, f),
    decreases n,
{
    if k < n {
        lemma_layer_points_err(g, gpos, d, dpos, l, k, (n - 1) as nat, f);
    }
}

proof fn lemma_layers_err(g: Seq<u8>, gpos: int, d: Seq<u8>, dpos: int, k: nat, n: nat, f: PointFormat)
    requires
        k <= n,
        parse_layers(g, gpos, d, dpos, k, f) is Err,
    ensures
        parse_layers(g, gpos, d, dpos, n, f) == parse_layers(g, gpos, d, dpos, k, f),
    decreases n,
{
    if k < n {
        lemma_layers_err(g, gpos, d, dpos, k, (n - 1) as nat, f);
    }
}

/// The points of all layers, as plain values.
pub open spec fn points_view(ls: Seq<Vec<Point>>) -> Seq<Seq<PointModel>> {
    ls.map_values(|l: Vec<Point>| layer_view(l))
}

/// Reads the `n` points of layer `l`.
fn load_layer_points(
    g: &[u8],
    gpos: usize,
    d: &[u8],
    dpos: usize,
    l: usize,
    n: usize,
    full: bool,
    nb_layer: u8,
    elem_size: usize,
    dimension: usize,
) -> (res: Result<(Vec<Point>, usize, usize), LoadError>)
    ensures
        match res {
            Ok((ps, gq, dq)) => parse_layer_points(
                g@,
                gpos as int,
                d@,
                dpos as int,
                l as int,
                n as nat,
                PointFormat { full, nb_layer, vlen: elem_size * dimension },
            ) == Ok::<(Seq<PointModel>, int, int), LoadError>((layer_view(ps), gq as int, dq as int)),
            Err(e) => parse_layer_points(
                g@,
                gpos as int,
                d@,
                dpos as int,
                l as int,
                n as nat,
                PointFormat { full, nb_layer, vlen: elem_size * dimension },
            ) == Err::<(Seq<PointModel>, int, int), LoadError>(e),
        },
        res matches Ok((ps, gq, dq)) ==> gq >= gpos + n && dq >= dpos && ps@.len() == n,
{
    let ghost f = PointFormat { full, nb_layer, vlen: elem_size * dimension };
    let mut ps: Vec<Point> = Vec::new();
    let mut gp = gpos;
    let mut dp = dpos;
    let mut r: usize = 0;
    assert(layer_view(ps) =~= Seq::<PointModel>::empty());
    while r < n
        invariant
            r <= n,
            ps@.len() == r,
            gp >= gpos + r,
            dp >= dpos,
            f == (PointFormat { full, nb_layer, vlen: elem_size * dimension }),
            parse_layer_points(g@, gpos as int, d@, dpos as int, l as int, r as nat, f) == Ok::<
                (Seq<PointModel>, int, int),
                LoadError,
            >((layer_view(ps), gp as int, dp as int)),
        decreases n - r,
    {
        match load_point(g, gp, d, dp, full, PointId(l as u8, r as i32), nb_layer, elem_size, dimension) {
            Ok((p, gq, dq)) => {
                if p.p_id.0 as usize != l || p.p_id.1 as usize != r {
                    proof {
                        lemma_layer_points_err(g@, gpos as int, d@, dpos as int, l as int, (r + 1) as nat, n as nat, f);
                    }
                    return Err(LoadError::PointIdMismatch);
                }
                let ghost old_ps = ps;
                ps.push(p);
                assert(layer_view(ps) =~= layer_view(old_ps).push(p@));
                gp = gq;
                dp = dq;
                r = r + 1;
            },
            Err(e) => {
                proof {
                    lemma_layer_points_err(g@, gpos as int, d@, dpos as int, l as int, (r + 1) as nat, n as nat, f);
                }
                return Err(e);
            },
        }
    }
    Ok((ps, gp, dp))
}

/// Reads `nl` layers, each with its magic number and number of points; also
/// gives the number of points read.
fn load_layers(
    g: &[u8],
    gpos: usize,
    d: &[u8],
    dpos: usize,
    nl: u8,
    full: bool,
    nb_layer: u8,
    elem_size: usize,
    dimension: usize,
) -> (res: Result<(Vec<Vec<Point>>, usize, usize, usize), LoadError>)
    ensures
        match res {
            Ok((ls, gq, dq, count)) => parse_layers(
                g@,
                gpos as int,
                d@,
                dpos as int,
                nl as nat,
                PointFormat { full, nb_layer, vlen: elem_size * dimension },
            ) == Ok::<(Seq<Seq<PointModel>>, int, int), LoadError>(
                (points_view(ls@), gq as int, dq as int),
            ) && count == total_points(points_view(ls@)),
            Err(e) => parse_layers(
                g@,
                gpos as int,
                d@,
                dpos as int,
                nl as nat,
                PointFormat { full, nb_layer, vlen: elem_size * dimension },
            ) == Err::<(Seq<Seq<PointModel>>, int, int), LoadError>(e),
        },
{
    let glen = g.len();
    let ghost f = PointFormat { full, nb_layer, vlen: elem_size * dimension };
    let mut ls: Vec<Vec<Point>> = Vec::new();
    let mut gp = gpos;
    let mut dp = dpos;
    let mut count: usize = 0;
    let mut l: u8 = 0;
    assert(points_view(ls@) =~= Seq::<Seq<PointModel>>::empty());
    while l < nl
        invariant
            l <= nl,
            glen == g@.len(),
            count + gpos <= gp,
            count == total_points(points_view(ls@)),
            f == (PointFormat { full, nb_layer, vlen: elem_size * dimension }),
            parse_layers(g@, gpos as int, d@, dpos as int, l as nat, f) == Ok::<
                (Seq<Seq<PointModel>>, int, int),
                LoadError,
            >((points_view(ls@), gp as int, dp as int)),
        decreases nl - l,
    {
        let magic = match get_u32(g, gp) {
            Ok(x) => x,
            Err(e) => {
                proof {
                    lemma_layers_err(g@, gpos as int, d@, dpos as int, (l + 1) as nat, nl as nat, f);
                }
                return Err(e);
            },
        };
        if magic != MAGICLAYER {
            proof {
                lemma_layers_err(g@, gpos as int, d@, dpos as int, (l + 1) as nat, nl as nat, f);
            }
            return Err(LoadError::LayerMagic);
        }
        let nbpoints = match get_usize(g, gp + 4) {
            Ok(x) => x,
            Err(e) => {
                proof {
                    lemma_layers_err(g@, gpos as int, d@, dpos as int, (l + 1) as nat, nl as nat, f);
                }
                return Err(e);
            },
        };
        match load_layer_points(
            g,
            gp + 12,
            d,
            dp,
            l as usize,
            nbpoints,
            full,
            nb_layer,
            elem_size,
            dimension,
        ) {
            Ok((ps, gq, dq)) => {
                let ghost old_ls = ls@;
                ls.push(ps);
                proof {
                    assert(points_view(ls@) =~= points_view(old_ls).push(layer_view(ps)));
                    assert(points_view(ls@).drop_last() =~= points_view(old_ls));
                }
                count = count + nbpoints;
                gp = gq;
                dp = dq;
                l = l + 1;
            },
            Err(e) => {
                proof {
                    lemma_layers_err(g@, gpos as int, d@, dpos as int, (l + 1) as nat, nl as nat, f);
                }
                return Err(e);
            },
        }
    }
    Ok((ls, gp, dp, count))
}

/// `a` and `b` have the same shape, and their points the same origin ids and
/// places.
pub open spec fn same_places(a: Seq<Seq<PointModel>>, b: Seq<Seq<PointModel>>) -> bool {
    &&& a.len() == b.len()
    &&& forall|l: int| 0 <= l < a.len() ==> #[trigger] a[l].len() == b[l].len()
    &&& forall|l: int, r: int|
        0 <= l < a.len() && 0 <= r < a[l].len() ==> (#[trigger] a[l][r]).origin_id
            == b[l][r].origin_id && a[l][r].p_id == b[l][r].p_id
}

/// Finding the first match in a prefix finds it in the whole layer.
pub proof fn lemma_find_in_layer_take(ps: Seq<PointModel>, o: usize, k: int)
    requires
        0 <= k <= ps.len(),
        find_in_layer(ps.take(k), o) is Some,
    ensures
        find_in_layer(ps, o) == find_in_layer(ps.take(k), o),
    decreases ps.len() - k,
{
    if k < ps.len() {
        assert(ps.take(k + 1).drop_last() =~= ps.take(k));
        lemma_find_in_layer_take(ps, o, k + 1);
    } else {
        assert(ps.take(k) =~= ps);
    }
}

/// What `find_in_layer` gives: the first point with that origin id, or
/// nothing when no point has it.
pub proof fn lemma_find_in_layer(ps: Seq<PointModel>, o: usize)
    ensures
        find_in_layer(ps, o) matches Some(j) ==> 0 <= j < ps.len() && ps[j].origin_id == o && forall|
            i: int,
        | 0 <= i < j ==> #[trigger] ps[i].origin_id != o,
        find_in_layer(ps, o) is None ==> forall|i: int| 0 <= i < ps.len() ==> #[trigger] ps[i].origin_id != o,
    decreases ps.len(),
{
    if ps.len() > 0 {
        let init = ps.drop_last();
        lemma_find_in_layer(init, o);
        match find_in_layer(init, o) {
            Some(j) => {
                assert(init[j] == ps[j]);
                assert forall|i: int| 0 <= i < j implies #[trigger] ps[i].origin_id != o by {
                    assert(init[i] == ps[i]);
                }
            },
            None => {
                assert(ps.last() == ps[ps.len() - 1]);
                assert forall|i: int| 0 <= i < ps.len() - 1 implies #[trigger] ps[i].origin_id != o by {
                    assert(init[i] == ps[i]);
                }
            },
        }
    }
}

pub proof fn lemma_find_origin_take(points: Seq<Seq<PointModel>>, o: usize, k: int)
    requires
        0 <= k <= points.len(),
        find_origin(points.take(k), o) is Some,
    ensures
        find_origin(points, o) == find_origin(points.take(k), o),
    decreases points.len() - k,
{
    if k < points.len() {
        assert(points.take(k + 1).drop_last() =~= points.take(k));
        lemma_find_origin_take(points, o, k + 1);
    } else {
        assert(points.take(k) =~= points);
    }
}

/// What `find_origin` gives: a point with that origin id, or nothing when no
/// point has it.
pub proof fn lemma_find_origin(points: Seq<Seq<PointModel>>, o: usize)
    ensures
        find_origin(points, o) matches Some((l, r)) ==> 0 <= l < points.len() && 0 <= r
            < points[l].len() && points[l][r].origin_id == o,
        find_origin(points, o) is None ==> forall|l: int, r: int|
            0 <= l < points.len() && 0 <= r < points[l].len() ==> #[trigger] points[l][r].origin_id
                != o,
    decreases points.len(),
{
    if points.len() > 0 {
        let init = points.drop_last();
        lemma_find_origin(init, o);
        lemma_find_in_layer(points.last(), o);
        let n = points.len() - 1;
        assert(points.last() == points[n]);
        match find_origin(init, o) {
            Some((l, r)) => {
                assert(init[l] == points[l]);
            },
            None => if find_origin(points, o) is None {
                assert(find_in_layer(points.last(), o) is None);
                assert forall|l: int, r: int|
                    0 <= l < points.len() && 0 <= r < points[l].len() implies #[trigger] points[l][r].origin_id
                    != o by {
                    if l < n {
                        assert(init[l] == points[l]);
                        assert(init[l][r].origin_id != o);
                    } else {
                        assert(points.last()[r].origin_id != o);
                    }
                }
            },
        }
    }
}

/// Finds the first point with origin id `o`, layer by layer.
fn find_origin_in(points: &Vec<Vec<Point>>, o: usize, Ghost(pm): Ghost<Seq<Seq<PointModel>>>) -> (res:
    Option<(usize, usize)>)
    requires
        same_places(points_view(points@), pm),
    ensures
        match res {
            Some((l, r)) => find_origin(pm, o) == Some::<(int, int)>((l as int, r as int)),
            None => find_origin(pm, o) is None,
        },
{
    let ghost cur = points_view(points@);
    let mut i: usize = 0;
    while i < points.len()
        invariant
            i <= pm.len(),
            cur == points_view(points@),
            same_places(cur, pm),
            find_origin(pm.take(i as int), o) is None,
        decreases pm.len() - i,
    {
        let layer = &points[i];
        assert(cur[i as int] == layer_view(points@[i as int]));
        let mut j: usize = 0;
        while j < layer.len()
            invariant
                i < pm.len(),
                j <= layer@.len(),
                cur == points_view(points@),
                same_places(cur, pm),
                cur[i as int] == layer_view(*layer),
                pm[i as int].len() == layer@.len(),
                find_origin(pm.take(i as int), o) is None,
                find_in_layer(pm[i as int].take(j as int), o) is None,
            decreases layer@.len() - j,
        {
            assert(cur[i as int][j as int] == layer@[j as int]@);
            assert(pm[i as int][j as int].origin_id == layer@[j as int].origin_id);
            if layer[j].origin_id == o {
                proof {
                    let ps = pm[i as int];
                    assert(ps.take(j + 1).drop_last() =~= ps.take(j as int));
                    assert(ps.take(j + 1).last() == ps[j as int]);
                    assert(find_in_layer(ps.take(j + 1), o) == Some(j as int));
                    lemma_find_in_layer_take(ps, o, j + 1);
                    assert(pm.take(i + 1).drop_last() =~= pm.take(i as int));
                    assert(pm.take(i + 1).last() == ps);
                    assert(find_origin(pm.take(i + 1), o) == Some::<(int, int)>((i as int, j as int)));
                    lemma_find_origin_take(pm, o, i + 1);
                }
                return Some((i, j));
            }
            proof {
                let ps = pm[i as int];
                assert(ps.take(j + 1).drop_last() =~= ps.take(j as int));
                assert(ps.take(j + 1).last() == ps[j as int]);
            }
            j = j + 1;
        }
        proof {
            let ps = pm[i as int];
            assert(ps.take(j as int) =~= ps);
            assert(pm.take(i + 1).drop_last() =~= pm.take(i as int));
            assert(pm.take(i + 1).last() == ps);
        }
        i = i + 1;
    }
    assert(pm.take(pm.len() as int) =~= pm);
    None
}

/// Where the point that `n` refers to stands (see `locate`).
fn locate_in(points: &Vec<Vec<Point>>, n: Neighbour, full: bool, Ghost(pm): Ghost<Seq<Seq<PointModel>>>) -> (res:
    Option<(usize, usize)>)
    requires
        same_places(points_view(points@), pm),
    ensures
        match res {
            Some((l, r)) => locate(pm, n, full) == Some::<(int, int)>((l as int, r as int)),
            None => locate(pm, n, full) is None,
        },
{
    let ghost cur = points_view(points@);
    if full {
        let layer = n.p_id.0 as usize;
        if layer < points.len() && n.p_id.1 >= 0 && (n.p_id.1 as usize) < points[layer].len() {
            assert(cur[layer as int] == layer_view(points@[layer as int]));
            Some((layer, n.p_id.1 as usize))
        } else {
            proof {
                if (layer as int) < cur.len() {
                    assert(cur[layer as int] == layer_view(points@[layer as int]));
                }
            }
            None
        }
    } else {
        find_origin_in(points, n.d_id, Ghost(pm))
    }
}

/// Replaces each neighbour of one layer by the point that it refers to, or
/// fails on one that refers to no point.
fn resolve_layer_neighbours(
    ns: &Vec<Neighbour>,
    points: &Vec<Vec<Point>>,
    full: bool,
    Ghost(pm): Ghost<Seq<Seq<PointModel>>>,
) -> (res: Option<Vec<Neighbour>>)
    requires
        same_places(points_view(points@), pm),
    ensures
        res matches Some(r) ==> r@ == resolve_layer(pm, ns@, full) && forall|m: int|
            0 <= m < ns@.len() ==> (#[trigger] locate(pm, ns@[m], full)) is Some,
        res is None ==> exists|m: int| 0 <= m < ns@.len() && (#[trigger] locate(pm, ns@[m], full)) is None,
{
    let ghost cur = points_view(points@);
    let mut out: Vec<Neighbour> = Vec::new();
    let mut m: usize = 0;
    while m < ns.len()
        invariant
            m <= ns@.len(),
            cur == points_view(points@),
            same_places(cur, pm),
            out@ == resolve_layer(pm, ns@.take(m as int), full),
            forall|j: int| 0 <= j < m ==> (#[trigger] locate(pm, ns@[j], full)) is Some,
        decreases ns@.len() - m,
    {
        let n = ns[m];
        match locate_in(points, n, full, Ghost(pm)) {
            Some((l, r)) => {
                proof {
                    lemma_find_origin(pm, n.d_id);
                    assert(cur[l as int] == layer_view(points@[l as int]));
                }
                let target = &points[l][r];
                proof {
                    assert(cur[l as int][r as int] == target@);
                }
                let ghost before = out@;
                out.push(Neighbour { d_id: target.origin_id, p_id: target.p_id, distance: n.distance });
                proof {
                    assert(ns@.take(m + 1) =~= ns@.take(m as int).push(n));
                    assert(out@ =~= resolve_layer(pm, ns@.take(m + 1), full));
                }
                m = m + 1;
            },
            None => {
                assert(locate(pm, ns@[m as int], full) is None);
                return None;
            },
        }
    }
    assert(ns@.take(ns@.len() as int) =~= ns@);
    Some(out)
}

/// The layers of neighbours of a point, each neighbour replaced by the point
/// that it refers to.
pub open spec fn resolve_neighbourhood(pm: Seq<Seq<PointModel>>, ls: Seq<Seq<Neighbour>>, full: bool) -> Seq<
    Seq<Neighbour>,
> {
    ls.map_values(|ns: Seq<Neighbour>| resolve_layer(pm, ns, full))
}

fn resolve_point_neighbours(
    nbh: &Vec<Vec<Neighbour>>,
    points: &Vec<Vec<Point>>,
    full: bool,
    Ghost(pm): Ghost<Seq<Seq<PointModel>>>,
) -> (res: Option<Vec<Vec<Neighbour>>>)
    requires
        same_places(points_view(points@), pm),
    ensures
        res matches Some(r) ==> neighbourhood_view(r@) == resolve_neighbourhood(
            pm,
            neighbourhood_view(nbh@),
            full,
        ) && forall|k: int, m: int|
            0 <= k < nbh@.len() && 0 <= m < nbh@[k]@.len() ==> (#[trigger] locate(
                pm,
                nbh@[k]@[m],
                full,
            )) is Some,
        res is None ==> exists|k: int, m: int|
            0 <= k < nbh@.len() && 0 <= m < nbh@[k]@.len() && (#[trigger] locate(
                pm,
                nbh@[k]@[m],
                full,
            )) is None,
{
    let ghost src = neighbourhood_view(nbh@);
    let mut out: Vec<Vec<Neighbour>> = Vec::new();
    let mut k: usize = 0;
    while k < nbh.len()
        invariant
            k <= nbh@.len(),
            src == neighbourhood_view(nbh@),
            same_places(points_view(points@), pm),
            neighbourhood_view(out@) == resolve_neighbourhood(pm, src.take(k as int), full),
            forall|j: int, m: int|
                0 <= j < k && 0 <= m < nbh@[j]@.len() ==> (#[trigger] locate(pm, nbh@[j]@[m], full)) is Some,
        decreases nbh@.len() - k,
    {
        match resolve_layer_neighbours(&nbh[k], points, full, Ghost(pm)) {
            Some(r) => {
                let ghost before = out@;
                out.push(r);
                proof {
                    assert(src[k as int] == nbh@[k as int]@);
                    assert(src.take(k + 1) =~= src.take(k as int).push(src[k as int]));
                    assert(neighbourhood_view(out@) =~= neighbourhood_view(before).push(r@));
                    assert(resolve_neighbourhood(pm, src.take(k + 1), full) =~= resolve_neighbourhood(
                        pm,
                        src.take(k as int),
                        full,
                    ).push(resolve_layer(pm, src[k as int], full)));
                    assert(neighbourhood_view(out@) =~= resolve_neighbourhood(pm, src.take(k + 1), full));
                }
                k = k + 1;
            },
            None => {
                return None;
            },
        }
    }
    assert(src.take(src.len() as int) =~= src);
    Some(out)
}

/// Points at or after `(l, r)` are as they were read; those before have their
/// neighbours resolved against `pm`, and all these neighbours refer to points.
pub open spec fn resolved_before(
    cur: Seq<Seq<PointModel>>,
    pm: Seq<Seq<PointModel>>,
    full: bool,
    l: int,
    r: int,
) -> bool {
    &&& same_places(cur, pm)
    &&& forall|i: int, j: int|
        0 <= i < pm.len() && 0 <= j < pm[i].len() ==> (#[trigger] cur[i][j]) == if i < l || (i == l
            && j < r) {
            resolve_point(pm, pm[i][j], full)
        } else {
            pm[i][j]
        }
    &&& forall|i: int, j: int, k: int, m: int|
        0 <= i < pm.len() && 0 <= j < pm[i].len() && (i < l || (i == l && j < r)) && 0 <= k
            < pm[i][j].neighbours.len() && 0 <= m < pm[i][j].neighbours[k].len() ==> (#[trigger] locate(
            pm,
            pm[i][j].neighbours[k][m],
            full,
        )) is Some
}

/// Replaces each neighbour of each point by the point that it refers to;
/// fails where a neighbour refers to no point.
fn resolve_all(points: &mut Vec<Vec<Point>>, full: bool) -> (res: Result<(), LoadError>)
    ensures
        res is Ok <==> neighbours_resolvable(points_view(old(points)@), full),
        res is Ok ==> points_view(final(points)@) == resolve(points_view(old(points)@), full),
        res is Err ==> res == Err::<(), LoadError>(LoadError::NeighbourOutOfRange),
{
    let ghost pm = points_view(points@);
    let nl = points.len();
    let mut l: usize = 0;
    while l < nl
        invariant
            nl == pm.len(),
            pm == points_view(old(points)@),
            l <= nl,
            resolved_before(points_view(points@), pm, full, l as int, 0),
        decreases nl - l,
    {
        let np = points[l].len();
        proof {
            assert(points_view(points@)[l as int] == layer_view(points@[l as int]));
        }
        let mut r: usize = 0;
        while r < np
            invariant
                nl == pm.len(),
                pm == points_view(old(points)@),
                l < nl,
                r <= np,
                np == pm[l as int].len(),
                resolved_before(points_view(points@), pm, full, l as int, r as int),
            decreases np - r,
        {
            let ghost cur = points_view(points@);
            proof {
                assert(cur[l as int] == layer_view(points@[l as int]));
                assert(cur[l as int][r as int] == points@[l as int]@[r as int]@);
                assert(cur[l as int][r as int] == pm[l as int][r as int]);
            }
            let ghost before = points@;
            match resolve_point_neighbours(&points[l][r].neighbours, points, full, Ghost(pm)) {
                Some(newn) => {
                    let ghost newv = neighbourhood_view(newn@);
                    points[l][r].neighbours = newn;
                    proof {
                        let now = points_view(points@);
                        let p0 = pm[l as int][r as int];
                        assert(p0.neighbours == neighbourhood_view(before[l as int]@[r as int].neighbours@));
                        assert(now.len() == pm.len());
                        assert forall|i: int| 0 <= i < now.len() implies #[trigger] now[i].len() == pm[i].len() by {
                            assert(now[i] == layer_view(points@[i]));
                            assert(cur[i] == layer_view(before[i]));
                        }
                        assert forall|i: int, j: int|
                            0 <= i < pm.len() && 0 <= j < pm[i].len() implies (#[trigger] now[i][j])
                            == if i < l || (i == l && j < r + 1) {
                            resolve_point(pm, pm[i][j], full)
                        } else {
                            pm[i][j]
                        } by {
                            assert(now[i] == layer_view(points@[i]));
                            assert(cur[i] == layer_view(before[i]));
                            if i == l && j == r {
                                assert(now[i][j].neighbours == newv);
                                assert(now[i][j].neighbours =~= resolve_point(pm, pm[i][j], full).neighbours);
                            } else {
                                assert(now[i][j] == cur[i][j]);
                            }
                        }
                        assert forall|i: int, j: int|
                            0 <= i < now.len() && 0 <= j < now[i].len() implies (#[trigger] now[i][j]).origin_id
                                == pm[i][j].origin_id && now[i][j].p_id == pm[i][j].p_id by {
                            assert(now[i].len() == pm[i].len());
                            if i < l || (i == l && j < r + 1) {
                                assert(now[i][j] == resolve_point(pm, pm[i][j], full));
                            } else {
                                assert(now[i][j] == pm[i][j]);
                            }
                        }
                        assert forall|i: int, j: int, k: int, m: int|
                            0 <= i < pm.len() && 0 <= j < pm[i].len() && (i < l || (i == l && j < r + 1)) && 0 <= k
                                < pm[i][j].neighbours.len() && 0 <= m < pm[i][j].neighbours[k].len() implies (#[trigger] locate(
                            pm,
                            pm[i][j].neighbours[k][m],
                            full,
                        )) is Some by {
                            if i == l && j == r {
                                assert(pm[i][j].neighbours[k] == before[l as int]@[r as int].neighbours@[k]@);
                                assert(pm[i][j].neighbours[k][m] == before[l as int]@[r as int].neighbours@[k]@[m]);
                            }
                        }
                        assert(resolved_before(now, pm, full, l as int, r + 1));
                    }
                    r = r + 1;
                },
                None => {
                    proof {
                        let nbh = before[l as int]@[r as int].neighbours;
                        let p0 = pm[l as int][r as int];
                        assert(p0.neighbours == neighbourhood_view(nbh@));
                        let (k, m) = choose|k: int, m: int|
                            0 <= k < nbh@.len() && 0 <= m < nbh@[k]@.len() && (#[trigger] locate(
                                pm,
                                nbh@[k]@[m],
                                full,
                            )) is None;
                        assert(p0.neighbours[k] == nbh@[k]@);
                        assert(pm[l as int][r as int].neighbours[k][m] == nbh@[k]@[m]);
                        assert(!neighbours_resolvable(pm, full));
                    }
                    return Err(LoadError::NeighbourOutOfRange);
                },
            }
        }
        proof {
            assert(resolved_before(points_view(points@), pm, full, l + 1, 0));
        }
        l = l + 1;
    }
    proof {
        let now = points_view(points@);
        assert(neighbours_resolvable(pm, full));
        assert forall|i: int| 0 <= i < pm.len() implies #[trigger] now[i] =~= resolve(pm, full)[i] by {
            assert forall|j: int| 0 <= j < pm[i].len() implies now[i][j] == resolve(pm, full)[i][j] by {
                assert(now[i][j] == resolve_point(pm, pm[i][j], full));
            }
        }
        assert(now =~= resolve(pm, full));
    }
    Ok(())
}

/// Resolving neighbours keeps the shape of the graph and its points' origin
/// ids and places.
pub proof fn lemma_resolve_shape(pm: Seq<Seq<PointModel>>, full: bool)
    ensures
        same_places(resolve(pm, full), pm),
        forall|id: PointId| #[trigger] names_point(resolve(pm, full), id) == names_point(pm, id),
{
    let rp = resolve(pm, full);
    assert forall|l: int| 0 <= l < rp.len() implies #[trigger] rp[l].len() == pm[l].len() by {}
    assert forall|l: int, r: int| 0 <= l < rp.len() && 0 <= r < rp[l].len() implies (#[trigger] rp[l][r]).origin_id
        == pm[l][r].origin_id && rp[l][r].p_id == pm[l][r].p_id by {}
}

/// Reads the entry point (see `parse_entry`).
fn load_entry(
    g: &[u8],
    pos: usize,
    points: &Vec<Vec<Point>>,
    full: bool,
    Ghost(pm): Ghost<Seq<Seq<PointModel>>>,
) -> (res: Result<(PointId, usize), LoadError>)
    requires
        same_places(points_view(points@), pm),
    ensures
        match res {
            Ok((id, p)) => parse_entry(g@, pos as int, pm, full) == Ok::<(PointId, int), LoadError>(
                (id, p as int),
            ),
            Err(e) => parse_entry(g@, pos as int, pm, full) == Err::<(PointId, int), LoadError>(e),
        },
{
    let ghost cur = points_view(points@);
    let glen = g.len();
    let o = match get_usize(g, pos) {
        Ok(x) => x,
        Err(e) => return Err(e),
    };
    let (id, next) = if full {
        let layer = match get_u8(g, pos + 8) {
            Ok(x) => x,
            Err(e) => return Err(e),
        };
        let rank = match get_i32(g, pos + 9) {
            Ok(x) => x,
            Err(e) => return Err(e),
        };
        (PointId(layer, rank), pos + 13)
    } else {
        match find_origin_in(points, o, Ghost(pm)) {
            None => return Err(LoadError::EntryOutOfRange),
            Some((l, r)) => (PointId(l as u8, r as i32), pos + 8),
        }
    };
    let layer = id.0 as usize;
    if !(layer < points.len() && id.1 >= 0 && (id.1 as usize) < points[layer].len()) {
        proof {
            if (layer as int) < cur.len() {
                assert(cur[layer as int] == layer_view(points@[layer as int]));
            }
            assert(!names_point(pm, id));
        }
        return Err(LoadError::EntryOutOfRange);
    }
    proof {
        assert(cur[layer as int] == layer_view(points@[layer as int]));
        assert(names_point(pm, id));
    }
    Ok((id, next))
}

/// Reloads the indexation of a graph: the graph stream at `gpos` (after the
/// description), the data stream at `dpos`, as the description says, with
/// coordinates of `elem_size` bytes. Gives the indexation and where each
/// stream ends.
pub fn load_point_indexation(
    g: &[u8],
    gpos: usize,
    d: &[u8],
    dpos: usize,
    descr: &Description,
    elem_size: usize,
) -> (res: Result<(PointIndexation, usize, usize), LoadError>)
    ensures
        match res {
            Ok((ix, p, q)) => parse_indexation(g@, gpos as int, d@, dpos as int, descr@, elem_size)
                == Ok::<(IndexationModel, int, int), LoadError>((ix@, p as int, q as int)),
            Err(e) => parse_indexation(g@, gpos as int, d@, dpos as int, descr@, elem_size) == Err::<
                (IndexationModel, int, int),
                LoadError,
            >(e),
        },
{
    let glen = g.len();
    let nb_layer = match get_u8(g, gpos) {
        Ok(x) => x,
        Err(e) => return Err(e),
    };
    if nb_layer > NB_LAYER_MAX {
        return Err(LoadError::TooManyLayers);
    }
    let full = descr.dumpmode == 1;
    let (mut points, gp, dp, count) = match load_layers(
        g,
        gpos + 1,
        d,
        dpos,
        nb_layer,
        full,
        descr.nb_layer,
        elem_size,
        descr.dimension,
    ) {
        Ok(r) => r,
        Err(e) => return Err(e),
    };
    let ghost pm = points_view(points@);
    match resolve_all(&mut points, full) {
        Ok(()) => {},
        Err(e) => return Err(e),
    }
    proof {
        lemma_resolve_shape(pm, full);
    }
    let (id, gq) = match load_entry(g, gp, &points, full, Ghost(pm)) {
        Ok(r) => r,
        Err(e) => return Err(e),
    };
    let ix = PointIndexation {
        max_nb_connection: descr.max_nb_connection as usize,
        max_layer: NB_LAYER_MAX as usize,
        points_by_layer: points,
        nb_point: count,
        entry_point: Some(id),
        elem_size,
    };
    assert(ix@.points == points_view(ix.points_by_layer@));
    Ok((ix, gq, dp))
}

/// Reloads a graph: `graph` holds the graph stream, whose description (read
/// by `load_description`) ends at `gpos`; `data` holds the data stream. The
/// distance asked for must be the one that the description names; the
/// coordinate type is named `t_name` and takes `elem_size` bytes.
pub fn load_hnsw(
    graph: &[u8],
    gpos: usize,
    description: &Description,
    data: &[u8],
    dist_name: &String,
    t_name: &String,
    elem_size: usize,
) -> (res: Result<Hnsw, LoadError>)
    ensures
        match res {
            Ok(h) => parse_hnsw(
                graph@,
                gpos as int,
                description@,
                data@,
                dist_name@,
                t_name@,
                elem_size,
            ) == Ok::<HnswModel, LoadError>(h@),
            Err(e) => parse_hnsw(
                graph@,
                gpos as int,
                description@,
                data@,
                dist_name@,
                t_name@,
                elem_size,
            ) == Err::<HnswModel, LoadError>(e),
        },
{
    let magic = match get_u32(data, 0) {
        Ok(x) => x,
        Err(e) => return Err(e),
    };
    if magic != MAGICDATAP {
        return Err(LoadError::DataMagic);
    }
    let dimension = match get_usize(data, 4) {
        Ok(x) => x,
        Err(e) => return Err(e),
    };
    if dimension != description.dimension {
        return Err(LoadError::DimensionMismatch);
    }
    if !dist_name.eq(&description.distname) {
        return Err(LoadError::DistanceMismatch);
    }
    let (ix, _, _) = match load_point_indexation(graph, gpos, data, 12, description, elem_size) {
        Ok(r) => r,
        Err(e) => return Err(e),
    };
    // every point was read with `dimension` coordinates
    let data_dim = description.dimension;
    let h = Hnsw {
        max_nb_connection: description.max_nb_connection as usize,
        ef_construction: description.ef,
        extend_candidates: true,
        keep_pruned: false,
        max_layer: description.nb_layer as usize,
        layer_indexed_points: ix,
        data_dimension: data_dim,
        dist_name: dist_name.clone(),
        t_name: t_name.clone(),
        searching: false,
    };
    Ok(h)
}

} // verus!
