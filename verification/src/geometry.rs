//! A 2-D point with integer coordinates: component arithmetic and
//! quarter-turn rotations, each operation exact on the coordinate pair.

use vstd::prelude::*;

use crate::numeric::{div_i64, int_text, rem_i64, trunc_div, trunc_rem};
use crate::text::{Text, TextDebug};

verus! {

/// A point in the plane, held as its two coordinates.
#[derive(Clone, Copy, PartialEq, Eq, Hash, Debug, Structural)]
pub struct Point2D {
    pub x: i64,
    pub y: i64,
}

impl Point2D {
    /// The point with the given coordinates.
    pub fn new(x: i64, y: i64) -> (p: Point2D)
        ensures
            p.x == x,
            p.y == y,
    {
        Point2D { x, y }
    }

    /// Component-wise sum of two points.
    pub fn add(self, rhs: Point2D) -> (r: Point2D)
        requires
            i64::MIN <= self.x + rhs.x <= i64::MAX,
            i64::MIN <= self.y + rhs.y <= i64::MAX,
        ensures
            r.x == self.x + rhs.x,
            r.y == self.y + rhs.y,
    {
        Point2D { x: self.x + rhs.x, y: self.y + rhs.y }
    }

    /// Component-wise difference of two points.
    pub fn sub(self, rhs: Point2D) -> (r: Point2D)
        requires
            i64::MIN <= self.x - rhs.x <= i64::MAX,
            i64::MIN <= self.y - rhs.y <= i64::MAX,
        ensures
            r.x == self.x - rhs.x,
            r.y == self.y - rhs.y,
    {
        Point2D { x: self.x - rhs.x, y: self.y - rhs.y }
    }

    /// Both coordinates scaled by a factor.
    pub fn mul(self, rhs: i64) -> (r: Point2D)
        requires
            i64::MIN <= self.x * rhs <= i64::MAX,
            i64::MIN <= self.y * rhs <= i64::MAX,
        ensures
            r.x == self.x * rhs,
            r.y == self.y * rhs,
    {
        Point2D { x: self.x * rhs, y: self.y * rhs }
    }

    /// Both coordinates divided by a factor, truncating toward zero as
    /// machine division does.
    pub fn div(self, rhs: i64) -> (r: Point2D)
        requires
            rhs != 0,
            !(self.x == i64::MIN && rhs == -1),
            !(self.y == i64::MIN && rhs == -1),
        ensures
            r.x as int == trunc_div(self.x as int, rhs as int),
            r.y as int == trunc_div(self.y as int, rhs as int),
    {
        Point2D { x: div_i64(self.x, rhs), y: div_i64(self.y, rhs) }
    }

    /// Both coordinates reduced to their remainder by a factor, useful to
    /// wrap a point onto a grid; each remainder carries its coordinate's
    /// sign.
    pub fn rem(self, rhs: i64) -> (r: Point2D)
        requires
            rhs != 0,
            !(self.x == i64::MIN && rhs == -1),
            !(self.y == i64::MIN && rhs == -1),
        ensures
            r.x as int == trunc_rem(self.x as int, rhs as int),
            r.y as int == trunc_rem(self.y as int, rhs as int),
    {
        Point2D { x: rem_i64(self.x, rhs), y: rem_i64(self.y, rhs) }
    }

    /// Divide this point's coordinates by a factor, truncating toward zero.
    pub fn div_assign(&mut self, other: i64)
        requires
            other != 0,
            !(old(self).x == i64::MIN && other == -1),
            !(old(self).y == i64::MIN && other == -1),
        ensures
            final(self).x as int == trunc_div(old(self).x as int, other as int),
            final(self).y as int == trunc_div(old(self).y as int, other as int),
    {
        self.x = div_i64(self.x, other);
        self.y = div_i64(self.y, other);
    }

    /// Reduce this point's coordinates to their remainders by a factor.
    pub fn rem_assign(&mut self, other: i64)
        requires
            other != 0,
            !(old(self).x == i64::MIN && other == -1),
            !(old(self).y == i64::MIN && other == -1),
        ensures
            final(self).x as int == trunc_rem(old(self).x as int, other as int),
            final(self).y as int == trunc_rem(old(self).y as int, other as int),
    {
        self.x = rem_i64(self.x, other);
        self.y = rem_i64(self.y, other);
    }

    /// Add another point to this one, component-wise.
    pub fn add_assign(&mut self, other: Point2D)
        requires
            i64::MIN <= old(self).x + other.x <= i64::MAX,
            i64::MIN <= old(self).y + other.y <= i64::MAX,
        ensures
            final(self).x == old(self).x + other.x,
            final(self).y == old(self).y + other.y,
    {
        self.x = self.x + other.x;
        self.y = self.y + other.y;
    }

    /// Subtract another point from this one, component-wise.
    pub fn sub_assign(&mut self, other: Point2D)
        requires
            i64::MIN <= old(self).x - other.x <= i64::MAX,
            i64::MIN <= old(self).y - other.y <= i64::MAX,
        ensures
            final(self).x == old(self).x - other.x,
            final(self).y == old(self).y - other.y,
    {
        self.x = self.x - other.x;
        self.y = self.y - other.y;
    }

    /// Scale this point by a factor.
    pub fn mul_assign(&mut self, other: i64)
        requires
            i64::MIN <= old(self).x * other <= i64::MAX,
            i64::MIN <= old(self).y * other <= i64::MAX,
        ensures
            final(self).x == old(self).x * other,
            final(self).y == old(self).y * other,
    {
        self.x = self.x * other;
        self.y = self.y * other;
    }

    /// Rotate clockwise by a quarter turn: the point `(x, y)` moves to
    /// `(y, -x)`.
    pub fn rotcw(&mut self)
        requires
            old(self).x != i64::MIN,
        ensures
            final(self).x == old(self).y,
            final(self).y == -old(self).x,
    {
        let y = self.y;
        self.y = -self.x;
        self.x = y;
    }

    /// Rotate counter-clockwise by a quarter turn: the point `(x, y)`
    /// moves to `(-y, x)`.
    pub fn rotccw(&mut self)
        requires
            old(self).y != i64::MIN,
        ensures
            final(self).x == -old(self).y,
            final(self).y == old(self).x,
    {
        let x = self.x;
        self.x = -self.y;
        self.y = x;
    }
}

/// The canonical text of a point: its coordinates between parentheses,
/// separated by a comma and a space.
pub open spec fn point_text(p: Point2D) -> Seq<char> {
    seq!['('] + int_text(p.x as int) + seq![',', ' '] + int_text(p.y as int) + seq![')']
}

impl Text for Point2D {
    open spec fn text(&self) -> Seq<char> {
        point_text(*self)
    }

    fn text_chars(&self) -> (r: Vec<char>) {
        let mut out: Vec<char> = Vec::new();
        out.push('(');
        let mut xs = crate::numeric::i64_to_chars(self.x);
        out.append(&mut xs);
        out.push(',');
        out.push(' ');
        let mut ys = crate::numeric::i64_to_chars(self.y);
        out.append(&mut ys);
        out.push(')');
        proof {
            assert(out@ =~= point_text(*self));
        }
        out
    }
}

impl TextDebug for Point2D {
    open spec fn dtext(&self) -> Seq<char> {
        point_text(*self)
    }

    fn dtext_chars(&self) -> (r: Vec<char>) {
        self.text_chars()
    }
}

} // verus!
