//! Common types for technical drawings.
//!
//! Meant to encompass a significant subset of DXF and DWG compatible primitives,
//! as well as new ones. Entities refer to points, parameters, brushes and line
//! weights by their place in the buffers of a [`Drawing`](crate::drawing::Drawing).

use std::collections::BTreeMap;
use vstd::prelude::*;
use vstd::std_specs::cmp::PartialOrdSpecImpl;

use crate::number::Real;

verus! {

/// 3-dimensional vector or point.
///
/// The derived `Ord` is lexicographic in the total order of the coordinates.
#[derive(Debug, Clone, Copy, PartialEq, Eq, Structural, Ord)]
pub struct Vec3 {
    pub x: Real,
    pub y: Real,
    pub z: Real,
}

/// 2-dimensional vector or point.
///
/// The derived `Ord` is lexicographic in the total order of the coordinates.
#[derive(Debug, Clone, Copy, PartialEq, Eq, Structural, Ord)]
pub struct Vec2 {
    pub x: Real,
    pub y: Real,
}

impl Vec3 {
    /// Whether `self` comes before `other`: the first coordinate that differs decides.
    pub open spec fn before(self, other: Vec3) -> bool {
        ||| self.x.place < other.x.place
        ||| self.x == other.x && self.y.place < other.y.place
        ||| self.x == other.x && self.y == other.y && self.z.place < other.z.place
    }
}

impl PartialOrd for Vec3 {
    fn partial_cmp(&self, other: &Vec3) -> (r: Option<core::cmp::Ordering>) {
        if self.x.place < other.x.place {
            return Some(core::cmp::Ordering::Less);
        }
        if self.x.place > other.x.place {
            return Some(core::cmp::Ordering::Greater);
        }
        if self.y.place < other.y.place {
            return Some(core::cmp::Ordering::Less);
        }
        if self.y.place > other.y.place {
            return Some(core::cmp::Ordering::Greater);
        }
        if self.z.place < other.z.place {
            Some(core::cmp::Ordering::Less)
        } else if self.z.place > other.z.place {
            Some(core::cmp::Ordering::Greater)
        } else {
            Some(core::cmp::Ordering::Equal)
        }
    }
}

impl PartialOrdSpecImpl for Vec3 {
    open spec fn obeys_partial_cmp_spec() -> bool {
        true
    }

    open spec fn partial_cmp_spec(&self, other: &Vec3) -> Option<core::cmp::Ordering> {
        if self.before(*other) {
            Some(core::cmp::Ordering::Less)
        } else if other.before(*self) {
            Some(core::cmp::Ordering::Greater)
        } else {
            Some(core::cmp::Ordering::Equal)
        }
    }
}

impl Vec2 {
    /// Whether `self` comes before `other`: the first coordinate that differs decides.
    pub open spec fn before(self, other: Vec2) -> bool {
        ||| self.x.place < other.x.place
        ||| self.x == other.x && self.y.place < other.y.place
    }

    /// An integer that is ordered as the point is.
    pub open spec fn key_spec(self) -> int {
        self.x.place * 0x1_0000_0000_0000_0000 + self.y.place
    }

    /// An integer that is ordered as the point is.
    pub fn key(self) -> (k: u128)
        ensures
            k == self.key_spec(),
    {
        (self.x.place as u128) * 0x1_0000_0000_0000_0000u128 + self.y.place as u128
    }
}

impl PartialOrd for Vec2 {
    fn partial_cmp(&self, other: &Vec2) -> (r: Option<core::cmp::Ordering>) {
        if self.x.place < other.x.place {
            return Some(core::cmp::Ordering::Less);
        }
        if self.x.place > other.x.place {
            return Some(core::cmp::Ordering::Greater);
        }
        if self.y.place < other.y.place {
            Some(core::cmp::Ordering::Less)
        } else if self.y.place > other.y.place {
            Some(core::cmp::Ordering::Greater)
        } else {
            Some(core::cmp::Ordering::Equal)
        }
    }
}

impl PartialOrdSpecImpl for Vec2 {
    open spec fn obeys_partial_cmp_spec() -> bool {
        true
    }

    open spec fn partial_cmp_spec(&self, other: &Vec2) -> Option<core::cmp::Ordering> {
        if self.before(*other) {
            Some(core::cmp::Ordering::Less)
        } else if other.before(*self) {
            Some(core::cmp::Ordering::Greater)
        } else {
            Some(core::cmp::Ordering::Equal)
        }
    }
}

/// The order of [`Vec2`] is total, and only equal points are unordered.
pub proof fn law_vec2_order_is_total(a: Vec2, b: Vec2, c: Vec2)
    ensures
        !a.before(a),
        a.before(b) ==> !b.before(a),
        a.before(b) && b.before(c) ==> a.before(c),
        a.before(b) || b.before(a) || a == b,
{
}

/// The order of [`Vec3`] is total, and only equal points are unordered.
pub proof fn law_vec3_order_is_total(a: Vec3, b: Vec3, c: Vec3)
    ensures
        !a.before(a),
        a.before(b) ==> !b.before(a),
        a.before(b) && b.before(c) ==> a.before(c),
        a.before(b) || b.before(a) || a == b,
{
}

/// The integer key orders points as the points themselves are ordered, and tells
/// any two points apart.
pub proof fn law_vec2_key_keeps_order(a: Vec2, b: Vec2)
    ensures
        a.before(b) <==> a.key_spec() < b.key_spec(),
        a == b <==> a.key_spec() == b.key_spec(),
{
}

/// A triangle.
#[derive(Debug, Clone, Copy, PartialEq, PartialOrd)]
pub struct Triangle(pub [u32; 3]);

/// A quadrilateral.
#[derive(Debug, Clone, Copy, PartialEq, PartialOrd)]
pub struct Quadrilateral(pub [u32; 4]);

/// A handle for an [`Entity`].
#[derive(Debug, Clone, Copy, PartialEq, Eq, PartialOrd, Ord)]
pub struct EntityHandle(pub u32);

/// A handle for a [`Brush`].
#[derive(Debug, Clone, Copy, PartialEq, Eq, PartialOrd, Ord)]
pub struct BrushHandle(pub u32);

/// A brush for a fill or line.
#[derive(Debug, Clone, Copy, PartialEq, Eq, PartialOrd, Ord)]
pub enum Brush {
    /// Standard RGB with separate alpha.
    Rgba([u8; 4]),
    /// Index of color in the palette, usually `0..=255` is mapped to the ACI palette
    /// or a compatible palette.
    Index(u32),
}

/// A handle for a line width.
#[derive(Debug, Clone, Copy, PartialEq, Eq, PartialOrd, Ord)]
pub struct LineWeightHandle(pub u32);

/// Entity.
#[derive(Debug, Clone, Copy, PartialEq)]
pub enum Entity {
    /// A solid triangle.
    ///
    /// For `SOLID` with three distinct points.
    SolidTriangle {
        /// The [`BrushHandle`] for this solid's paint.
        paint: BrushHandle,
        /// The concrete shape.
        triangle: Triangle,
    },
    /// A solid quadrilateral.
    ///
    /// For `SOLID` with four distinct points.
    SolidQuadrilateral {
        /// The [`BrushHandle`] for this solid's paint.
        paint: BrushHandle,
        /// The concrete shape.
        quadrilateral: Quadrilateral,
    },
    /// A line segment.
    ///
    /// For `LINE`.
    LineSegment {
        /// The [`BrushHandle`] for this solid's paint.
        paint: BrushHandle,
        /// Handle for the line weight.
        weight: LineWeightHandle,
        /// Index of first point.
        a: u32,
        /// Index of second point.
        b: u32,
    },
    /// A basic polyline with one line weight.
    ///
    /// For some cases of `LWPOLYLINE` and `POLYLINE`.
    PolyLine {
        /// The [`BrushHandle`] for this solid's paint.
        paint: BrushHandle,
        /// Handle for the line weight.
        weight: LineWeightHandle,
        /// Index of first point in the index buffer.
        first: u32,
        /// Index of last point in the index buffer.
        last: u32,
    },
    /// A spline with the `bulge` parameter.
    ///
    /// For some cases of `LWPOLYLINE` and `POLYLINE`.
    BulgeSpline {
        /// The [`BrushHandle`] for this solid's paint.
        paint: BrushHandle,
        /// Handle for the line weight.
        weight: LineWeightHandle,
        /// Index of first point in the index buffer.
        point_first: u32,
        /// Index of last point in the index buffer.
        point_last: u32,
        /// Index of first bulge parameter in the parameter buffer.
        bulge_first: u32,
    },
    /// A B-Spline.
    ///
    /// For `SPLINE`.
    BasisSpline {
        /// The [`BrushHandle`] for this solid's paint.
        paint: BrushHandle,
        /// Handle for the line weight.
        weight: LineWeightHandle,
        /// Index of first point in the index buffer.
        point_first: u32,
        /// Index of last point in the index buffer.
        point_last: u32,
        /// Index of the first knot in the parameter buffer.
        knot_first: u32,
        /// Degree of the spline.
        ///
        /// Typically 1, 2, or 3.
        degree: u8,
    },
    /// A circle.
    Circle {
        /// The [`BrushHandle`] for this solid's paint.
        paint: BrushHandle,
        /// Handle for the line weight.
        weight: LineWeightHandle,
        /// Index of the center point.
        center: u32,
        /// Index of the radius in the parameter buffer.
        radius: u32,
    },
    /// An elliptical arc.
    ///
    /// For `ELLIPSE`.
    EllipticalArc {
        /// The [`BrushHandle`] for this solid's paint.
        paint: BrushHandle,
        /// Handle for the line weight.
        weight: LineWeightHandle,
        /// Index of the center point.
        center: u32,
        /// Index of the major axis radius in the parameter buffer.
        major_radius: u32,
        /// Index of the minor axis radius in the parameter buffer.
        minor_radius: u32,
        /// Index of the start angle in the parameter buffer.
        start: u32,
        /// Index of the end angle in the parameter buffer.
        end: u32,
        /// Index of the major axis angle in the parameter buffer.
        x_rotation: u32,
    },
    /// A block instance.
    BlockInstance {
        /// [`BrushHandle`] for this instance's block paint.
        paint: BrushHandle,
        /// Handle for this instance's block line weight.
        weight: LineWeightHandle,
        /// Handle of the block to be inserted.
        block: u32,
        /// Index of the insertion point.
        insert_point: u32,
        /// Index of the block x scale in the parameter buffer.
        x_scale: u32,
        /// Index of the block y scale in the parameter buffer.
        y_scale: u32,
        /// Index of the block rotation in the parameter buffer.
        rotation: u32,
    },
}

/// Block definition.
#[derive(Debug, Clone, Copy, PartialEq)]
pub struct BlockDefinition {
    /// String id for the human readable name of this block.
    pub name: u32,
    /// The base point.
    ///
    /// Aligned with the insertion point of an [`Entity::BlockInstance`] prior
    /// to scaling and rotation.
    pub base_point: Vec2,
    /// Index of the first entity in the entities buffer.
    pub first_entity: u32,
    /// Index of the last entity in the entities buffer.
    pub last_entity: u32,
}

/// The point buffer after `v` was asked for: `v` joins at the end unless it is there.
pub open spec fn with_point(points: Seq<Vec2>, v: Vec2) -> Seq<Vec2> {
    if points.contains(v) {
        points
    } else {
        points.push(v)
    }
}

/// The handle of `v` in a point buffer: its index, in the 32 bits that a handle has.
pub open spec fn handle_of(points: Seq<Vec2>, v: Vec2) -> int {
    points.index_of(v) % 0x1_0000_0000
}

/// Builder for deduplicated [`Vec2`] buffers, providing handles.
///
/// Its view is the sequence of points in the order in which they first came.
#[derive(Debug, Clone, PartialEq)]
pub struct Vec2BufBuilder {
    map: BTreeMap<u128, u32>,
    buf: Vec<Vec2>,
}

impl View for Vec2BufBuilder {
    type V = Seq<Vec2>;

    closed spec fn view(&self) -> Seq<Vec2> {
        self.buf@
    }
}

impl Vec2BufBuilder {
    /// No point occurs twice, and the index knows the handle of every point.
    pub closed spec fn wf(&self) -> bool {
        &&& self.buf@.no_duplicates()
        &&& forall|i: int|
            #![trigger self.buf@[i]]
            0 <= i < self.buf@.len() ==> self.map@.contains_key(self.buf@[i].key_spec() as u128)
                && self.map@[self.buf@[i].key_spec() as u128] == i % 0x1_0000_0000
        &&& forall|k: u128| #[trigger]
            self.map@.contains_key(k) ==> exists|i: int|
                0 <= i < self.buf@.len() && (#[trigger] self.buf@[i]).key_spec() == k
    }

    /// What every builder keeps: its points are distinct.
    pub proof fn law_points_are_distinct(&self)
        requires
            self.wf(),
        ensures
            self@.no_duplicates(),
    {
    }

    /// Make a new empty builder.
    pub fn new() -> (b: Vec2BufBuilder)
        ensures
            b.wf(),
            b@ == Seq::<Vec2>::empty(),
    {
        Vec2BufBuilder { map: BTreeMap::new(), buf: Vec::new() }
    }

    /// Get a handle for `v` in the buffer, inserting if it is unique.
    pub fn handle(&mut self, v: Vec2) -> (h: u32)
        requires
            old(self).wf(),
        ensures
            final(self).wf(),
            final(self)@ == with_point(old(self)@, v),
            h == handle_of(final(self)@, v),
    {
        let k: u128 = v.key();
        let ghost points = self.buf@;
        match self.map.get(&k) {
            Some(h) => {
                let found: u32 = *h;
                proof {
                    let i = choose|i: int|
                        0 <= i < points.len() && (#[trigger] points[i]).key_spec() == k;
                    law_vec2_key_keeps_order(points[i], v);
                    assert(points.contains(v));
                    let j = points.index_of(v);
                    assert(points[j] == v);
                    assert(i == j);
                }
                found
            },
            None => {
                let h: u32 = (self.buf.len() as u64 % 0x1_0000_0000) as u32;
                proof {
                    if points.contains(v) {
                        let j = points.index_of(v);
                        assert(points[j] == v);
                        assert(self.map@.contains_key(points[j].key_spec() as u128));
                    }
                }
                self.buf.push(v);
                self.map.insert(k, h);
                proof {
                    let grown = self.buf@;
                    assert(grown == points.push(v));
                    assert(grown[points.len() as int] == v);
                    assert(grown.contains(v));
                    let j = grown.index_of(v);
                    assert(grown[j] == v);
                    assert(j == points.len()) by {
                        if j < points.len() {
                            assert(points[j] == v);
                            assert(points.contains(v));
                        }
                    }
                    assert forall|i: int| 0 <= i < grown.len() implies self.map@.contains_key(
                        (#[trigger] grown[i]).key_spec() as u128,
                    ) && self.map@[grown[i].key_spec() as u128] == i % 0x1_0000_0000 by {
                        law_vec2_key_keeps_order(grown[i], v);
                        if i < points.len() {
                            assert(grown[i] == points[i]);
                            assert(points.contains(points[i]));
                        }
                    }
                    assert forall|q: u128| #[trigger] self.map@.contains_key(q) implies exists|i: int|
                        0 <= i < grown.len() && (#[trigger] grown[i]).key_spec() == q by {
                        if q == k {
                            assert(grown[points.len() as int].key_spec() == q);
                        } else {
                            let i = choose|i: int|
                                0 <= i < points.len() && (#[trigger] points[i]).key_spec() == q;
                            assert(grown[i].key_spec() == q);
                        }
                    }
                    assert forall|a: int, b: int|
                        0 <= a < grown.len() && 0 <= b < grown.len() && a != b implies grown[a]
                        != grown[b] by {
                        if a == points.len() && grown[b] == v {
                            assert(points[b] == v);
                        }
                        if b == points.len() && grown[a] == v {
                            assert(points[a] == v);
                        }
                    }
                }
                h
            },
        }
    }

    /// The number of points in the buffer.
    pub fn point_count(&self) -> (n: usize)
        ensures
            n == self@.len(),
    {
        self.buf.len()
    }

    /// Get the value of the point for handle `h`.
    pub fn get(&mut self, h: u32) -> (v: Vec2)
        requires
            h < old(self)@.len(),
        ensures
            v == old(self)@[h as int],
            *final(self) == *old(self),
    {
        self.buf[h as usize]
    }

    /// Consume the builder, leaving the points.
    pub fn consume(self) -> (points: Vec<Vec2>)
        ensures
            points@ == self@,
    {
        self.buf
    }
}

impl Default for Vec2BufBuilder {
    fn default() -> (b: Vec2BufBuilder)
        ensures
            b.wf(),
            b@ == Seq::<Vec2>::empty(),
    {
        Vec2BufBuilder::new()
    }
}

/// A handle that was given out leads back to the point that was asked for, as long
/// as handles are wide enough for the buffer.
pub proof fn law_handle_leads_back(points: Seq<Vec2>, v: Vec2)
    requires
        with_point(points, v).len() <= 0x1_0000_0000,
    ensures
        0 <= handle_of(with_point(points, v), v) < with_point(points, v).len(),
        with_point(points, v)[handle_of(with_point(points, v), v)] == v,
{
    let grown = with_point(points, v);
    if !points.contains(v) {
        assert(grown[points.len() as int] == v);
    }
    assert(grown.contains(v));
    assert(grown[grown.index_of(v)] == v);
}

/// Asking again for a point that is there gives the same handle and leaves the
/// buffer as it is, whatever came in between.
pub proof fn law_handle_is_stable(points: Seq<Vec2>, v: Vec2, w: Vec2)
    requires
        points.no_duplicates(),
        points.contains(v),
    ensures
        with_point(points, v) == points,
        with_point(points, w).contains(v),
        handle_of(with_point(points, w), v) == handle_of(points, v),
        with_point(points, w).no_duplicates(),
{
    let grown = with_point(points, w);
    let i = points.index_of(v);
    assert(points[i] == v);
    assert(grown[i] == v);
    assert(grown.contains(v));
    let j = grown.index_of(v);
    assert(grown[j] == v);
    if j != i {
        if j < points.len() {
            assert(points[j] == v);
        }
    }
    assert forall|a: int, b: int|
        0 <= a < grown.len() && 0 <= b < grown.len() && a != b implies grown[a] != grown[b] by {
        if !points.contains(w) {
            if a == points.len() && grown[b] == w {
                assert(points[b] == w);
            }
            if b == points.len() && grown[a] == w {
                assert(points[a] == w);
            }
        }
    }
}

/// Two points share a handle only if they are equal, as long as handles are wide
/// enough for the buffer.
pub proof fn law_handles_tell_points_apart(points: Seq<Vec2>, v: Vec2, w: Vec2)
    requires
        points.len() <= 0x1_0000_0000,
        points.contains(v),
        points.contains(w),
    ensures
        handle_of(points, v) == handle_of(points, w) <==> v == w,
{
    assert(points[points.index_of(v)] == v);
    assert(points[points.index_of(w)] == w);
}

/// Points that are in the buffer keep their places when more come.
pub proof fn law_buffer_only_grows(points: Seq<Vec2>, v: Vec2)
    ensures
        points.len() <= with_point(points, v).len() <= points.len() + 1,
        with_point(points, v).take(points.len() as int) == points,
{
    assert(with_point(points, v).take(points.len() as int) =~= points);
}

} // verus!
