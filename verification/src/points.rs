//! Typed geometric triples: a direction vector, a position point and a
//! surface normal, kept as distinct types so that positions and directions
//! cannot be mixed up silently.  The scalar type is generic; the tracer's
//! own arithmetic lives on `crate::vector::Vec3`.

use vstd::prelude::*;

verus! {

/// A direction vector of three scalars.
#[derive(Clone, Copy, Debug)]
pub struct Vector3<T> {
    pub x: T,
    pub y: T,
    pub z: T,
}

/// A position point of three scalars.
#[derive(Clone, Copy, Debug)]
pub struct Point3<T> {
    pub x: T,
    pub y: T,
    pub z: T,
}

/// A surface normal of three scalars.
#[derive(Clone, Copy, Debug)]
pub struct Normal3<T> {
    pub x: T,
    pub y: T,
    pub z: T,
}

impl<T: Copy> Vector3<T> {
    /// A vector with all three components equal.
    pub fn scalar(a: T) -> (r: Vector3<T>)
        ensures
            r.x == a && r.y == a && r.z == a,
    {
        Vector3 { x: a, y: a, z: a }
    }

    pub fn new(x: T, y: T, z: T) -> (r: Vector3<T>)
        ensures
            r.x == x && r.y == y && r.z == z,
    {
        Vector3 { x, y, z }
    }
}

impl<T: Copy> Point3<T> {
    /// A point with all three coordinates equal.
    pub fn scalar(a: T) -> (r: Point3<T>)
        ensures
            r.x == a && r.y == a && r.z == a,
    {
        Point3 { x: a, y: a, z: a }
    }

    pub fn new(x: T, y: T, z: T) -> (r: Point3<T>)
        ensures
            r.x == x && r.y == y && r.z == z,
    {
        Point3 { x, y, z }
    }
}

impl<T: Copy> Normal3<T> {
    pub fn new(x: T, y: T, z: T) -> (r: Normal3<T>)
        ensures
            r.x == x && r.y == y && r.z == z,
    {
        Normal3 { x, y, z }
    }
}

impl Point3<i64> {
    /// The point as a raw fixed-point vector.
    pub fn to_vec3(self) -> (r: crate::vector::Vec3)
        ensures
            r.x == self.x && r.y == self.y && r.z == self.z,
    {
        crate::vector::Vec3 { x: self.x, y: self.y, z: self.z }
    }
}

} // verus!
