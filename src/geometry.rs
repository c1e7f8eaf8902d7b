//! Geometry shapes read from GeoJSON coordinates, and their bounding boxes,
//! computed exactly on the decimal numbers of the document.

use crate::value::{get_entry, lookup, JsonObject, Value, Number};
use crate::ser::is_key;
use crate::utils::float_format::{lemma_pow10_monotone, lemma_pow10_positive, pow10};
use vstd::prelude::*;

verus! {

/// The exponent offset that makes every `pow10` argument below non-negative.
pub open spec fn exponent_base() -> int {
    32768
}

/// The magnitude of `n` times `10^32768`: an exact integer for every number.
pub open spec fn magnitude(n: Number) -> int {
    n.mantissa * pow10((n.exponent + exponent_base()) as nat)
}

/// The value of `n` times `10^32768`.
pub open spec fn number_value(n: Number) -> int {
    if n.positive {
        magnitude(n)
    } else {
        -magnitude(n)
    }
}

pub open spec fn num_le(a: Number, b: Number) -> bool {
    number_value(a) <= number_value(b)
}

pub open spec fn num_min(a: Number, b: Number) -> Number {
    if num_le(a, b) {
        a
    } else {
        b
    }
}

pub open spec fn num_max(a: Number, b: Number) -> Number {
    if num_le(b, a) {
        a
    } else {
        b
    }
}

proof fn lemma_pow10_add(a: nat, b: nat)
    ensures
        pow10(a + b) == pow10(a) * pow10(b),
    decreases a,
{
    if a == 0 {
        assert(pow10(0) == 1);
        assert(1 * pow10(b) == pow10(b));
        assert(0 + b == b);
    } else {
        lemma_pow10_add((a - 1) as nat, b);
        assert(pow10(a + b) == 10 * pow10((a - 1 + b) as nat));
        assert(10 * (pow10((a - 1) as nat) * pow10(b)) == (10 * pow10((a - 1) as nat)) * pow10(b))
            by (nonlinear_arith);
    }
}

/// Comparing magnitudes comes down to comparing mantissas scaled by the
/// difference of the exponents.
proof fn lemma_magnitude_le(a: Number, b: Number)
    requires
        a.exponent >= b.exponent,
    ensures
        (magnitude(a) <= magnitude(b)) == (a.mantissa * pow10((a.exponent - b.exponent) as nat)
            <= b.mantissa),
        (magnitude(b) <= magnitude(a)) == (b.mantissa <= a.mantissa * pow10(
            (a.exponent - b.exponent) as nat,
        )),
{
    let d = (a.exponent - b.exponent) as nat;
    let eb = (b.exponent + exponent_base()) as nat;
    lemma_pow10_add(d, eb);
    assert((a.exponent + exponent_base()) as nat == d + eb);
    lemma_pow10_positive(eb);
    let x = a.mantissa * pow10(d);
    let y = b.mantissa as int;
    let c = pow10(eb) as int;
    assert(magnitude(a) == x * c) by (nonlinear_arith)
        requires
            magnitude(a) == a.mantissa * pow10(d + eb),
            pow10(d + eb) == pow10(d) * pow10(eb),
            x == a.mantissa * pow10(d),
            c == pow10(eb),
    ;
    assert(magnitude(b) == y * c);
    assert((x * c <= y * c) == (x <= y)) by (nonlinear_arith)
        requires
            c > 0,
    ;
    assert((y * c <= x * c) == (y <= x)) by (nonlinear_arith)
        requires
            c > 0,
    ;
}

/// Whether `x·10^d <= y`.
fn scaled_le(x: u64, d: u64, y: u64) -> (r: bool)
    ensures
        r == (x * pow10(d as nat) <= y),
{
    let mut v: u64 = x;
    let mut i: u64 = 0;
    assert(pow10(0) == 1);
    assert(x * 1 == x);
    while i < d && v <= y
        invariant
            i <= d,
            v == x * pow10(i as nat),
        decreases d - i,
    {
        if v > u64::MAX / 10 {
            proof {
                lemma_scaled_grows(x, i as nat, d as nat);
            }
            return false;
        }
        v = v * 10;
        proof {
            assert(x * pow10((i + 1) as nat) == (x * pow10(i as nat)) * 10) by (nonlinear_arith)
                requires
                    pow10((i + 1) as nat) == 10 * pow10(i as nat),
            ;
        }
        i = i + 1;
    }
    proof {
        lemma_scaled_grows(x, i as nat, d as nat);
    }
    if i == d {
        v <= y
    } else {
        false
    }
}

/// Whether `y <= x·10^d`.
fn scaled_ge(x: u64, d: u64, y: u64) -> (r: bool)
    ensures
        r == (y <= x * pow10(d as nat)),
{
    let mut v: u64 = x;
    let mut i: u64 = 0;
    assert(pow10(0) == 1);
    assert(x * 1 == x);
    while i < d && v < y
        invariant
            i <= d,
            v == x * pow10(i as nat),
        decreases d - i,
    {
        if v > u64::MAX / 10 {
            proof {
                lemma_scaled_grows(x, i as nat, d as nat);
            }
            return true;
        }
        v = v * 10;
        proof {
            assert(x * pow10((i + 1) as nat) == (x * pow10(i as nat)) * 10) by (nonlinear_arith)
                requires
                    pow10((i + 1) as nat) == 10 * pow10(i as nat),
            ;
        }
        i = i + 1;
    }
    proof {
        lemma_scaled_grows(x, i as nat, d as nat);
    }
    if i == d {
        y <= v
    } else {
        true
    }
}

proof fn lemma_scaled_grows(x: u64, i: nat, d: nat)
    requires
        i <= d,
    ensures
        x * pow10(i) <= x * pow10(d),
        i < d ==> x * pow10(i) * 10 <= x * pow10(d),
{
    lemma_pow10_monotone(i, d);
    assert(x * pow10(i) <= x * pow10(d)) by (nonlinear_arith)
        requires
            pow10(i) <= pow10(d),
    ;
    if i < d {
        lemma_pow10_monotone(i + 1, d);
        assert(pow10(i + 1) == 10 * pow10(i));
        assert(x * pow10(i) * 10 <= x * pow10(d)) by (nonlinear_arith)
            requires
                10 * pow10(i) <= pow10(d),
        ;
    }
}

fn magnitude_le(a: &Number, b: &Number) -> (r: bool)
    ensures
        r == (magnitude(*a) <= magnitude(*b)),
{
    if a.exponent >= b.exponent {
        proof {
            lemma_magnitude_le(*a, *b);
        }
        scaled_le(a.mantissa, (a.exponent as i32 - b.exponent as i32) as u64, b.mantissa)
    } else {
        proof {
            lemma_magnitude_le(*b, *a);
        }
        scaled_ge(b.mantissa, (b.exponent as i32 - a.exponent as i32) as u64, a.mantissa)
    }
}

proof fn lemma_zero_magnitude(n: Number)
    ensures
        (magnitude(n) == 0) == (n.mantissa == 0),
        magnitude(n) >= 0,
{
    lemma_pow10_positive((n.exponent + exponent_base()) as nat);
    assert((magnitude(n) == 0) == (n.mantissa == 0)) by (nonlinear_arith)
        requires
            magnitude(n) == n.mantissa * pow10((n.exponent + exponent_base()) as nat),
            pow10((n.exponent + exponent_base()) as nat) >= 1,
    ;
    assert(magnitude(n) >= 0) by (nonlinear_arith)
        requires
            magnitude(n) == n.mantissa * pow10((n.exponent + exponent_base()) as nat),
    ;
}

/// Whether `a <= b` as decimal values.
pub fn number_le(a: &Number, b: &Number) -> (r: bool)
    ensures
        r == num_le(*a, *b),
{
    proof {
        lemma_zero_magnitude(*a);
        lemma_zero_magnitude(*b);
    }
    let a_neg = !a.positive && a.mantissa != 0;
    let b_neg = !b.positive && b.mantissa != 0;
    if a_neg && !b_neg {
        true
    } else if !a_neg && b_neg {
        false
    } else if a_neg {
        magnitude_le(b, a)
    } else if a.mantissa == 0 {
        true
    } else if b.mantissa == 0 {
        false
    } else {
        magnitude_le(a, b)
    }
}

/// The nesting depth of the coordinates of a geometry type: 0 for a point,
/// 1 for a list of points, 2 for a list of lists, 3 for a list of polygons.
pub open spec fn geometry_depth(t: Seq<char>) -> Option<nat> {
    if t == "Point"@ {
        Some(0)
    } else if t == "MultiPoint"@ || t == "LineString"@ {
        Some(1)
    } else if t == "MultiLineString"@ || t == "Polygon"@ {
        Some(2)
    } else if t == "MultiPolygon"@ {
        Some(3)
    } else {
        None
    }
}

/// `v` is an array nested `depth` times whose innermost items are numbers.
pub open spec fn shape_ok(v: Value, depth: nat) -> bool
    decreases v,
{
    match v {
        Value::Array(items) => forall|i: int|
            0 <= i < items.len() ==> if depth == 0 {
                #[trigger] items@[i] is Number
            } else {
                shape_ok(items@[i], (depth - 1) as nat)
            },
        _ => false,
    }
}

/// The numbers of a point.
pub open spec fn point_numbers(p: Value) -> Seq<Number> {
    match p {
        Value::Array(items) => items@.map_values(
            |x: Value| match x {
                Value::Number(n) => n,
                _ => Number { positive: true, mantissa: 0, exponent: 0, nan: false },
            },
        ),
        _ => Seq::empty(),
    }
}

/// The points of a list of points.
pub open spec fn points_of(v: Value) -> Seq<Seq<Number>> {
    match v {
        Value::Array(items) => items@.map_values(|p: Value| point_numbers(p)),
        _ => Seq::empty(),
    }
}

/// The points of the lists of a list, one list after the other.
pub open spec fn all_points(lists: Seq<Value>) -> Seq<Seq<Number>>
    decreases lists.len(),
{
    if lists.len() == 0 {
        Seq::empty()
    } else {
        all_points(lists.drop_last()) + points_of(lists.last())
    }
}

/// The points of the exterior ring of a polygon (its first ring).
pub open spec fn exterior_points(polygon: Value) -> Seq<Seq<Number>> {
    match polygon {
        Value::Array(rings) => if rings.len() > 0 {
            points_of(rings@[0])
        } else {
            Seq::empty()
        },
        _ => Seq::empty(),
    }
}

pub open spec fn all_exterior_points(polygons: Seq<Value>) -> Seq<Seq<Number>>
    decreases polygons.len(),
{
    if polygons.len() == 0 {
        Seq::empty()
    } else {
        all_exterior_points(polygons.drop_last()) + exterior_points(polygons.last())
    }
}

/// The points a bounding box covers: every point, but only the exterior
/// ring of a polygon.
pub open spec fn bbox_points(t: Seq<char>, coords: Value) -> Seq<Seq<Number>> {
    if t == "Point"@ {
        seq![point_numbers(coords)]
    } else if t == "MultiPoint"@ || t == "LineString"@ {
        points_of(coords)
    } else if t == "MultiLineString"@ {
        all_points(coords->Array_0@)
    } else if t == "Polygon"@ {
        exterior_points(coords)
    } else if t == "MultiPolygon"@ {
        all_exterior_points(coords->Array_0@)
    } else {
        Seq::empty()
    }
}

/// The box `b` grown to cover point `p`.
pub open spec fn extend_box(b: (Number, Number, Number, Number), p: Seq<Number>) -> (
    Number,
    Number,
    Number,
    Number,
) {
    (num_min(b.0, p[0]), num_min(b.1, p[1]), num_max(b.2, p[0]), num_max(b.3, p[1]))
}

/// The box of a list of points: `(min x, min y, max x, max y)`; none when the
/// list is empty or a point has fewer than two numbers.
pub open spec fn box_fold(pts: Seq<Seq<Number>>) -> Option<(Number, Number, Number, Number)>
    decreases pts.len(),
{
    if pts.len() == 0 {
        None
    } else if pts.last().len() < 2 {
        None
    } else if pts.len() == 1 {
        Some((pts[0][0], pts[0][1], pts[0][0], pts[0][1]))
    } else {
        match box_fold(pts.drop_last()) {
            Some(b) => Some(extend_box(b, pts.last())),
            None => None,
        }
    }
}

pub open spec fn zero_box() -> Seq<Number> {
    let z = Number { positive: true, mantissa: 0, exponent: 0, nan: false };
    seq![z, z, z, z]
}

/// The type and coordinates of a geometry object, when it has both and the type is a string.
pub open spec fn geometry_parts(g: Seq<(String, Value)>) -> Option<(Seq<char>, Value)> {
    match (lookup(g, "type"@), lookup(g, "coordinates"@)) {
        (Some(Value::Str(t)), Some(c)) => Some((t@, c)),
        _ => None,
    }
}

/// The bounding box `[min lon, min lat, max lon, max lat]` of a geometry;
/// `[0, 0, 0, 0]` for a geometry whose shape is not recognized.
pub open spec fn geometry_bbox(g: Seq<(String, Value)>) -> Seq<Number> {
    match geometry_parts(g) {
        Some((t, c)) => if geometry_depth(t) is Some && shape_ok(c, geometry_depth(t)->0) {
            match box_fold(bbox_points(t, c)) {
                Some(b) => seq![b.0, b.1, b.2, b.3],
                None => zero_box(),
            }
        } else {
            zero_box()
        },
        None => zero_box(),
    }
}

proof fn lemma_min_max(a: Number, b: Number)
    ensures
        num_le(num_min(a, b), a),
        num_le(num_min(a, b), b),
        num_le(a, num_max(a, b)),
        num_le(b, num_max(a, b)),
{
}

proof fn lemma_box_fold_ordered(pts: Seq<Seq<Number>>)
    requires
        box_fold(pts) is Some,
    ensures
        num_le(box_fold(pts).unwrap().0, box_fold(pts).unwrap().2),
        num_le(box_fold(pts).unwrap().1, box_fold(pts).unwrap().3),
    decreases pts.len(),
{
    if pts.len() > 1 {
        lemma_box_fold_ordered(pts.drop_last());
        let b = box_fold(pts.drop_last()).unwrap();
        let p = pts.last();
        lemma_min_max(b.0, p[0]);
        lemma_min_max(b.1, p[1]);
        lemma_min_max(b.2, p[0]);
        lemma_min_max(b.3, p[1]);
    }
}

/// The box of a list of points is the tightest one: every point lies in it,
/// and each of its four bounds is a coordinate of some point.
pub proof fn lemma_box_fold_exact(pts: Seq<Seq<Number>>)
    requires
        box_fold(pts) is Some,
    ensures
        ({
            let b = box_fold(pts).unwrap();
            &&& forall|i: int|
                0 <= i < pts.len() ==> (#[trigger] pts[i]).len() >= 2 && num_le(b.0, pts[i][0])
                    && num_le(pts[i][0], b.2) && num_le(b.1, pts[i][1]) && num_le(pts[i][1], b.3)
            &&& exists|i: int| 0 <= i < pts.len() && b.0 == (#[trigger] pts[i])[0]
            &&& exists|i: int| 0 <= i < pts.len() && b.1 == (#[trigger] pts[i])[1]
            &&& exists|i: int| 0 <= i < pts.len() && b.2 == (#[trigger] pts[i])[0]
            &&& exists|i: int| 0 <= i < pts.len() && b.3 == (#[trigger] pts[i])[1]
        }),
    decreases pts.len(),
{
    let b = box_fold(pts).unwrap();
    if pts.len() == 1 {
        assert(pts[0] == pts.last());
    } else {
        let init = pts.drop_last();
        lemma_box_fold_exact(init);
        let c = box_fold(init).unwrap();
        let p = pts.last();
        assert(p == pts[pts.len() - 1]);
        assert forall|i: int| 0 <= i < pts.len() implies (#[trigger] pts[i]).len() >= 2 && num_le(
            b.0,
            pts[i][0],
        ) && num_le(pts[i][0], b.2) && num_le(b.1, pts[i][1]) && num_le(pts[i][1], b.3) by {
            if i < pts.len() - 1 {
                assert(pts[i] == init[i]);
            }
        }
        let i0 = choose|i: int| 0 <= i < init.len() && c.0 == (#[trigger] init[i])[0];
        let i1 = choose|i: int| 0 <= i < init.len() && c.1 == (#[trigger] init[i])[1];
        let i2 = choose|i: int| 0 <= i < init.len() && c.2 == (#[trigger] init[i])[0];
        let i3 = choose|i: int| 0 <= i < init.len() && c.3 == (#[trigger] init[i])[1];
        assert(pts[i0] == init[i0] && pts[i1] == init[i1] && pts[i2] == init[i2] && pts[i3]
            == init[i3]);
        let last = pts.len() - 1;
        if b.0 == c.0 {
            assert(b.0 == pts[i0][0]);
        } else {
            assert(b.0 == pts[last][0]);
        }
        if b.1 == c.1 {
            assert(b.1 == pts[i1][1]);
        } else {
            assert(b.1 == pts[last][1]);
        }
        if b.2 == c.2 {
            assert(b.2 == pts[i2][0]);
        } else {
            assert(b.2 == pts[last][0]);
        }
        if b.3 == c.3 {
            assert(b.3 == pts[i3][1]);
        } else {
            assert(b.3 == pts[last][1]);
        }
    }
}

/// A bounding box has four numbers, the minima no greater than the maxima.
pub proof fn lemma_bbox_ordered(g: Seq<(String, Value)>)
    ensures
        geometry_bbox(g).len() == 4,
        num_le(geometry_bbox(g)[0], geometry_bbox(g)[2]),
        num_le(geometry_bbox(g)[1], geometry_bbox(g)[3]),
{
    match geometry_parts(g) {
        Some((t, c)) => {
            if geometry_depth(t) is Some && shape_ok(c, geometry_depth(t)->0) {
                let pts = bbox_points(t, c);
                if box_fold(pts) is Some {
                    lemma_box_fold_ordered(pts);
                }
            }
        },
        None => {},
    }
}

/// The depth of a geometry type (see `geometry_depth`).
pub fn depth_of(t: &str) -> (r: Option<u64>)
    ensures
        r is Some <==> geometry_depth(t@) is Some,
        r matches Some(d) ==> geometry_depth(t@) == Some(d as nat),
{
    if is_key(t, "Point") {
        Some(0)
    } else if is_key(t, "MultiPoint") || is_key(t, "LineString") {
        Some(1)
    } else if is_key(t, "MultiLineString") || is_key(t, "Polygon") {
        Some(2)
    } else if is_key(t, "MultiPolygon") {
        Some(3)
    } else {
        None
    }
}

/// Whether `v` has the shape of coordinates of depth `depth` (see `shape_ok`).
pub fn check_shape(v: &Value, depth: u64) -> (r: bool)
    ensures
        r == shape_ok(*v, depth as nat),
    decreases v, 1nat,
{
    match v {
        Value::Array(items) => check_items(items, depth),
        _ => false,
    }
}

fn check_items(items: &Vec<Value>, depth: u64) -> (r: bool)
    ensures
        r == shape_ok(Value::Array(*items), depth as nat),
    decreases items, 0nat,
{
    let mut i: usize = 0;
    while i < items.len()
        invariant
            i <= items@.len(),
            forall|j: int|
                0 <= j < i ==> if depth == 0 {
                    #[trigger] items@[j] is Number
                } else {
                    shape_ok(items@[j], (depth - 1) as nat)
                },
        decreases items@.len() - i,
    {
        let ok = if depth == 0 {
            match &items[i] {
                Value::Number(_) => true,
                _ => false,
            }
        } else {
            check_shape(&items[i], depth - 1)
        };
        if !ok {
            return false;
        }
        i = i + 1;
    }
    true
}

fn numbers_of_point(p: &Value) -> (r: Vec<Number>)
    ensures
        r@ == point_numbers(*p),
{
    let mut r: Vec<Number> = Vec::new();
    match p {
        Value::Array(items) => {
            let mut i: usize = 0;
            while i < items.len()
                invariant
                    i <= items@.len(),
                    *p == Value::Array(*items),
                    r@ == point_numbers(*p).take(i as int),
                decreases items@.len() - i,
            {
                let n = match &items[i] {
                    Value::Number(n) => *n,
                    _ => Number { positive: true, mantissa: 0, exponent: 0, nan: false },
                };
                r.push(n);
                assert(r@ =~= point_numbers(*p).take(i + 1));
                i = i + 1;
            }
            assert(point_numbers(*p).take(items@.len() as int) =~= point_numbers(*p));
        },
        _ => {
            assert(r@ =~= point_numbers(*p));
        },
    }
    r
}

/// The views of a list of points.
pub open spec fn points_view(v: Seq<Vec<Number>>) -> Seq<Seq<Number>> {
    v.map_values(|p: Vec<Number>| p@)
}

/// Appends the points of a list of points.
fn push_points(out: &mut Vec<Vec<Number>>, v: &Value)
    ensures
        points_view(final(out)@) == points_view(old(out)@) + points_of(*v),
{
    let ghost start = points_view(out@);
    match v {
        Value::Array(items) => {
            let mut i: usize = 0;
            assert(points_view(out@) =~= start + points_of(*v).take(0));
            while i < items.len()
                invariant
                    i <= items@.len(),
                    *v == Value::Array(*items),
                    points_view(out@) == start + points_of(*v).take(i as int),
                decreases items@.len() - i,
            {
                let p = numbers_of_point(&items[i]);
                let ghost prev = out@;
                out.push(p);
                assert(out@ == prev.push(p));
                assert(points_view(out@) =~= points_view(prev).push(p@));
                assert(points_of(*v).take(i + 1) =~= points_of(*v).take(i as int).push(
                    point_numbers(items@[i as int]),
                ));
                assert(points_view(out@) =~= start + points_of(*v).take(i + 1));
                i = i + 1;
            }
            assert(points_of(*v).take(items@.len() as int) =~= points_of(*v));
        },
        _ => {
            assert(points_view(out@) =~= start + points_of(*v));
        },
    }
}

fn push_all_points(out: &mut Vec<Vec<Number>>, lists: &Vec<Value>)
    ensures
        points_view(final(out)@) == points_view(old(out)@) + all_points(lists@),
{
    let ghost start = points_view(out@);
    let mut i: usize = 0;
    assert(lists@.take(0) =~= Seq::<Value>::empty());
    assert(points_view(out@) =~= start + all_points(lists@.take(0)));
    while i < lists.len()
        invariant
            i <= lists@.len(),
            points_view(out@) == start + all_points(lists@.take(i as int)),
        decreases lists@.len() - i,
    {
        push_points(out, &lists[i]);
        assert(lists@.take(i + 1).drop_last() =~= lists@.take(i as int));
        assert(points_view(out@) =~= start + all_points(lists@.take(i + 1)));
        i = i + 1;
    }
    assert(lists@.take(lists@.len() as int) =~= lists@);
}

fn push_exterior_points(out: &mut Vec<Vec<Number>>, polygon: &Value)
    ensures
        points_view(final(out)@) == points_view(old(out)@) + exterior_points(*polygon),
{
    match polygon {
        Value::Array(rings) => {
            if rings.len() > 0 {
                push_points(out, &rings[0]);
            } else {
                assert(points_view(out@) =~= points_view(out@) + exterior_points(*polygon));
            }
        },
        _ => {
            assert(points_view(out@) =~= points_view(out@) + exterior_points(*polygon));
        },
    }
}

fn push_all_exterior_points(out: &mut Vec<Vec<Number>>, polygons: &Vec<Value>)
    ensures
        points_view(final(out)@) == points_view(old(out)@) + all_exterior_points(polygons@),
{
    let ghost start = points_view(out@);
    let mut i: usize = 0;
    assert(polygons@.take(0) =~= Seq::<Value>::empty());
    assert(points_view(out@) =~= start + all_exterior_points(polygons@.take(0)));
    while i < polygons.len()
        invariant
            i <= polygons@.len(),
            points_view(out@) == start + all_exterior_points(polygons@.take(i as int)),
        decreases polygons@.len() - i,
    {
        push_exterior_points(out, &polygons[i]);
        assert(polygons@.take(i + 1).drop_last() =~= polygons@.take(i as int));
        assert(points_view(out@) =~= start + all_exterior_points(polygons@.take(i + 1)));
        i = i + 1;
    }
    assert(polygons@.take(polygons@.len() as int) =~= polygons@);
}

fn min_number(a: Number, b: Number) -> (r: Number)
    ensures
        r == num_min(a, b),
{
    if number_le(&a, &b) {
        a
    } else {
        b
    }
}

fn max_number(a: Number, b: Number) -> (r: Number)
    ensures
        r == num_max(a, b),
{
    if number_le(&b, &a) {
        a
    } else {
        b
    }
}

/// The box of a list of points (see `box_fold`).
fn fold_box(pts: &Vec<Vec<Number>>) -> (r: Option<(Number, Number, Number, Number)>)
    ensures
        r == box_fold(points_view(pts@)),
{
    let ghost v = points_view(pts@);
    if pts.len() == 0 {
        return None;
    }
    if pts[0].len() < 2 {
        assert(v.take(1).last() == v[0]);
        assert(box_fold(v.take(1)) is None);
        let mut j: usize = 1;
        while j < pts.len()
            invariant
                1 <= j <= pts@.len(),
                v == points_view(pts@),
                box_fold(v.take(j as int)) is None,
            decreases pts@.len() - j,
        {
            assert(v.take(j + 1).drop_last() =~= v.take(j as int));
            j = j + 1;
        }
        assert(v.take(pts@.len() as int) =~= v);
        return None;
    }
    let mut b = (pts[0][0], pts[0][1], pts[0][0], pts[0][1]);
    assert(v.take(1).last() == v[0]);
    assert(box_fold(v.take(1)) == Some(b));
    let mut i: usize = 1;
    while i < pts.len()
        invariant
            1 <= i <= pts@.len(),
            v == points_view(pts@),
            box_fold(v.take(i as int)) == Some(b),
        decreases pts@.len() - i,
    {
        assert(v.take(i + 1).drop_last() =~= v.take(i as int));
        assert(v.take(i + 1).last() == v[i as int]);
        if pts[i].len() < 2 {
            assert(box_fold(v.take(i + 1)) is None);
            let mut j: usize = i + 1;
            while j < pts.len()
                invariant
                    i < j <= pts@.len(),
                    v == points_view(pts@),
                    box_fold(v.take(j as int)) is None,
                decreases pts@.len() - j,
            {
                assert(v.take(j + 1).drop_last() =~= v.take(j as int));
                j = j + 1;
            }
            assert(v.take(pts@.len() as int) =~= v);
            return None;
        }
        let p = &pts[i];
        b = (min_number(b.0, p[0]), min_number(b.1, p[1]), max_number(b.2, p[0]), max_number(b.3, p[1]));
        i = i + 1;
    }
    assert(v.take(pts@.len() as int) =~= v);
    Some(b)
}

fn zeros_box() -> (r: Vec<Number>)
    ensures
        r@ == zero_box(),
{
    let z = Number { positive: true, mantissa: 0, exponent: 0, nan: false };
    let r = vec![z, z, z, z];
    assert(r@ =~= zero_box());
    r
}

/// The bounding box of a geometry object (see `geometry_bbox`).
pub fn compute_bbox(geometry: &JsonObject) -> (r: Vec<Number>)
    ensures
        r@ == geometry_bbox(geometry@),
{
    let t = match get_entry(geometry, "type") {
        Some(Value::Str(t)) => t,
        _ => {
            return zeros_box();
        },
    };
    let coords = match get_entry(geometry, "coordinates") {
        Some(c) => c,
        None => {
            return zeros_box();
        },
    };
    let depth = match depth_of(t.as_str()) {
        Some(d) => d,
        None => {
            return zeros_box();
        },
    };
    if !check_shape(coords, depth) {
        return zeros_box();
    }
    let mut pts: Vec<Vec<Number>> = Vec::new();
    assert(points_view(pts@) =~= Seq::<Seq<Number>>::empty());
    if is_key(t.as_str(), "Point") {
        let p = numbers_of_point(coords);
        pts.push(p);
        assert(points_view(pts@) =~= seq![point_numbers(*coords)]);
    } else if is_key(t.as_str(), "MultiPoint") || is_key(t.as_str(), "LineString") {
        push_points(&mut pts, coords);
    } else if is_key(t.as_str(), "MultiLineString") {
        match coords {
            Value::Array(lists) => push_all_points(&mut pts, lists),
            _ => {},
        }
    } else if is_key(t.as_str(), "Polygon") {
        push_exterior_points(&mut pts, coords);
    } else {
        match coords {
            Value::Array(polygons) => push_all_exterior_points(&mut pts, polygons),
            _ => {},
        }
    }
    assert(points_view(pts@) =~= bbox_points(t@, *coords));
    match fold_box(&pts) {
        Some(b) => {
            let r = vec![b.0, b.1, b.2, b.3];
            assert(r@ =~= seq![b.0, b.1, b.2, b.3]);
            r
        },
        None => zeros_box(),
    }
}

} // verus!
