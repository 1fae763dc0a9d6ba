//! The capabilities that the codec asks of point and triangle types.
use vstd::prelude::*;

verus! {

/// The three coordinates of a point, each the bit pattern of an `f32`.
pub type Coords = (u32, u32, u32);

/// A triangle as the codec sees it: a normal, three vertices, and the
/// attribute word that the triangle reports.
pub struct TriangleModel {
    pub normal: Coords,
    pub vert1: Coords,
    pub vert2: Coords,
    pub vert3: Coords,
    pub attr: u16,
}

/// A point built from three coordinates, which reads them back unchanged.
pub trait Point: Sized {
    /// The coordinates this point holds.
    spec fn coords(&self) -> Coords;

    fn new(x: u32, y: u32, z: u32) -> (r: Self)
        ensures
            r.coords() == (x, y, z),
    ;

    fn x(&self) -> (r: u32)
        ensures
            r == self.coords().0,
    ;

    fn y(&self) -> (r: u32)
        ensures
            r == self.coords().1,
    ;

    fn z(&self) -> (r: u32)
        ensures
            r == self.coords().2,
    ;
}

/// A triangle built from a normal, three vertices and an attribute word.
///
/// The points are read back unchanged. The attribute word that a triangle
/// reports is the one it was built with, after `kept_attr`: a type that keeps
/// the word has `kept_attr(a) == a`, one that drops it may report zero.
pub trait Triangle<P: Point>: Sized {
    /// The fields this triangle reports.
    spec fn model(&self) -> TriangleModel;

    /// The attribute word reported by a triangle built with `attr`.
    spec fn kept_attr(attr: u16) -> u16;

    fn new(normal: P, vert1: P, vert2: P, vert3: P, attr: u16) -> (r: Self)
        ensures
            r.model() == (TriangleModel {
                normal: normal.coords(),
                vert1: vert1.coords(),
                vert2: vert2.coords(),
                vert3: vert3.coords(),
                attr: Self::kept_attr(attr),
            }),
    ;

    fn normal(&self) -> (r: P)
        ensures
            r.coords() == self.model().normal,
    ;

    fn vert1(&self) -> (r: P)
        ensures
            r.coords() == self.model().vert1,
    ;

    fn vert2(&self) -> (r: P)
        ensures
            r.coords() == self.model().vert2,
    ;

    fn vert3(&self) -> (r: P)
        ensures
            r.coords() == self.model().vert3,
    ;

    fn attr(&self) -> (r: u16)
        ensures
            r == self.model().attr,
    ;
}

impl Point for (u32, u32, u32) {
    open spec fn coords(&self) -> Coords {
        *self
    }

    fn new(x: u32, y: u32, z: u32) -> (r: Self) {
        (x, y, z)
    }

    fn x(&self) -> (r: u32) {
        self.0
    }

    fn y(&self) -> (r: u32) {
        self.1
    }

    fn z(&self) -> (r: u32) {
        self.2
    }
}

impl Point for [u32; 3] {
    open spec fn coords(&self) -> Coords {
        (self[0], self[1], self[2])
    }

    fn new(x: u32, y: u32, z: u32) -> (r: Self) {
        [x, y, z]
    }

    fn x(&self) -> (r: u32) {
        self[0]
    }

    fn y(&self) -> (r: u32) {
        self[1]
    }

    fn z(&self) -> (r: u32) {
        self[2]
    }
}

/// A triangle that keeps its four points and drops the attribute word:
/// it always reports zero.
#[derive(Copy, Clone, Debug)]
pub struct Trig<P: Point + Copy> {
    normal: P,
    v1: P,
    v2: P,
    v3: P,
}

impl<P: Point + Copy> Triangle<P> for Trig<P> {
    closed spec fn model(&self) -> TriangleModel {
        TriangleModel {
            normal: self.normal.coords(),
            vert1: self.v1.coords(),
            vert2: self.v2.coords(),
            vert3: self.v3.coords(),
            attr: 0,
        }
    }

    open spec fn kept_attr(attr: u16) -> u16 {
        0
    }

    fn new(normal: P, vert1: P, vert2: P, vert3: P, attr: u16) -> (r: Self) {
        Trig { normal, v1: vert1, v2: vert2, v3: vert3 }
    }

    fn normal(&self) -> (r: P) {
        self.normal
    }

    fn vert1(&self) -> (r: P) {
        self.v1
    }

    fn vert2(&self) -> (r: P) {
        self.v2
    }

    fn vert3(&self) -> (r: P) {
        self.v3
    }

    fn attr(&self) -> (r: u16) {
        0
    }
}

/// A triangle that keeps its four points and its attribute word.
#[derive(Copy, Clone, Debug)]
pub struct Facet<P: Point + Copy> {
    normal: P,
    v1: P,
    v2: P,
    v3: P,
    attr: u16,
}

impl<P: Point + Copy> Triangle<P> for Facet<P> {
    closed spec fn model(&self) -> TriangleModel {
        TriangleModel {
            normal: self.normal.coords(),
            vert1: self.v1.coords(),
            vert2: self.v2.coords(),
            vert3: self.v3.coords(),
            attr: self.attr,
        }
    }

    open spec fn kept_attr(attr: u16) -> u16 {
        attr
    }

    fn new(normal: P, vert1: P, vert2: P, vert3: P, attr: u16) -> (r: Self) {
        Facet { normal, v1: vert1, v2: vert2, v3: vert3, attr }
    }

    fn normal(&self) -> (r: P) {
        self.normal
    }

    fn vert1(&self) -> (r: P) {
        self.v1
    }

    fn vert2(&self) -> (r: P) {
        self.v2
    }

    fn vert3(&self) -> (r: P) {
        self.v3
    }

    fn attr(&self) -> (r: u16) {
        self.attr
    }
}

} // verus!
