//! Vectors, points and rays.
use vstd::prelude::*;
use crate::scalar::{lemma_to_u32_keeps_order, Scalar};
use crate::text::{
    decimal, lemma_decimal_is_one_line, lemma_line_feeds_add, lemma_line_feeds_one, line_feeds,
    push_decimal, push_space,
};

verus! {

/// Three scalars: a direction or a position in space.
#[derive(Clone, Copy, Debug, PartialEq, Eq, Structural)]
pub struct Vec3 {
    pub x: Scalar,
    pub y: Scalar,
    pub z: Scalar,
}

/// A position in space.
pub type Point = Vec3;

impl Vec3 {
    /// The vector with every component negated.
    pub open spec fn spec_neg(self) -> Vec3 {
        Vec3 { x: self.x.spec_neg(), y: self.y.spec_neg(), z: self.z.spec_neg() }
    }

    /// The vector with the given components.
    pub fn new(x: Scalar, y: Scalar, z: Scalar) -> (v: Vec3)
        ensures
            v == (Vec3 { x, y, z }),
    {
        Vec3 { x, y, z }
    }

    /// The opposite vector.
    pub fn neg(self) -> (negated: Vec3)
        ensures
            negated == self.spec_neg(),
    {
        Vec3 { x: self.x.neg(), y: self.y.neg(), z: self.z.neg() }
    }
}

/// A half-line: the points `origin + t * direction`. The direction need not
/// have unit length.
#[derive(Clone, Copy, Debug, PartialEq, Eq, Structural)]
pub struct Ray {
    pub origin: Point,
    pub direction: Vec3,
}

impl Ray {
    /// The ray from `origin` along `direction`.
    pub fn new(origin: Point, direction: Vec3) -> (ray: Ray)
        ensures
            ray.origin == origin,
            ray.direction == direction,
    {
        Ray { origin, direction }
    }
}

/// A pixel as the image stores it: the red, green and blue channel, each a
/// whole number counted from 0 (dark) up to the image's largest channel
/// value.
#[derive(Clone, Copy, Debug, PartialEq, Eq, Structural)]
pub struct Color {
    pub r: u32,
    pub g: u32,
    pub b: u32,
}

impl Color {
    /// The pixel's line in an image: the three channels in decimal, in the
    /// order red, green, blue, with one space between them.
    pub open spec fn text(self) -> Seq<char> {
        decimal(self.r as nat) + seq![' '] + decimal(self.g as nat) + seq![' '] + decimal(
            self.b as nat,
        )
    }

    /// Whether no channel exceeds `max`.
    pub open spec fn within(self, max: nat) -> bool {
        self.r <= max && self.g <= max && self.b <= max
    }

    /// The colour with the given channels.
    pub fn new(r: u32, g: u32, b: u32) -> (color: Color)
        ensures
            color == (Color { r, g, b }),
    {
        Color { r, g, b }
    }

    /// The colour whose channels are the components of `scaled`, each cut
    /// down to a whole number.
    pub open spec fn spec_new_from(scaled: Vec3) -> Color {
        Color { r: scaled.x.spec_to_u32(), g: scaled.y.spec_to_u32(), b: scaled.z.spec_to_u32() }
    }

    /// The colour whose channels are the components of `scaled`, each cut
    /// down to a whole number: `scaled` holds the red, green and blue
    /// channel already brought to the scale of the image.
    #[verifier::when_used_as_spec(spec_new_from)]
    pub fn new_from(scaled: Vec3) -> (color: Color)
        ensures
            color == Color::spec_new_from(scaled),
    {
        Color { r: scaled.x.to_u32(), g: scaled.y.to_u32(), b: scaled.z.to_u32() }
    }

    /// The pixel's line in an image, without a line end.
    pub fn write(self) -> (line: String)
        ensures
            line@ == self.text(),
    {
        let mut line: String = String::new();
        push_decimal(&mut line, self.r);
        push_space(&mut line);
        push_decimal(&mut line, self.g);
        push_space(&mut line);
        push_decimal(&mut line, self.b);
        assert(line@ =~= self.text());
        line
    }
}

/// A colour cut from channels none of which is above `top` has no channel
/// beyond the whole number that `top` is cut down to.
pub proof fn lemma_new_from_within(scaled: Vec3, top: Scalar)
    requires
        !top.spec_is_nan(),
        !top.spec_lt(scaled.x),
        !top.spec_lt(scaled.y),
        !top.spec_lt(scaled.z),
    ensures
        Color::spec_new_from(scaled).within(top.spec_to_u32() as nat),
{
    if !scaled.x.spec_is_nan() {
        lemma_to_u32_keeps_order(scaled.x, top);
    }
    if !scaled.y.spec_is_nan() {
        lemma_to_u32_keeps_order(scaled.y, top);
    }
    if !scaled.z.spec_is_nan() {
        lemma_to_u32_keeps_order(scaled.z, top);
    }
}

/// A pixel's line holds no line feed.
pub proof fn lemma_color_is_one_line(color: Color)
    ensures
        line_feeds(color.text()) == 0,
{
    let r = decimal(color.r as nat);
    let g = decimal(color.g as nat);
    let b = decimal(color.b as nat);
    let space = seq![' '];
    lemma_decimal_is_one_line(color.r as nat);
    lemma_decimal_is_one_line(color.g as nat);
    lemma_decimal_is_one_line(color.b as nat);
    lemma_line_feeds_one(' ');
    lemma_line_feeds_add(r, space);
    lemma_line_feeds_add(r + space, g);
    lemma_line_feeds_add(r + space + g, space);
    lemma_line_feeds_add(r + space + g + space, b);
}

} // verus!
