//! Flat colours and the two operations that blending is built from.
use vstd::prelude::*;
use crate::fixed::{fits, lemma_plus_zero, lemma_times_distributes, lemma_times_unit, product_raw, Fixed, ONE_RAW};

verus! {

/// Three channels, nominally between zero and one. Nothing clamps them to
/// that range before they are turned into bytes.
#[derive(Clone, Copy, Debug, PartialEq, Eq, Structural)]
pub struct Color {
    pub r: Fixed,
    pub g: Fixed,
    pub b: Fixed,
}

/// The byte that shows a channel: `255 * c` rounded down, kept within
/// `0..=255`.
pub open spec fn channel_byte(c: Fixed) -> u8 {
    let scaled = (255 * c@) / (ONE_RAW as int);
    if scaled < 0 {
        0u8
    } else if scaled > 255 {
        255u8
    } else {
        scaled as u8
    }
}

fn to_byte(c: Fixed) -> (byte: u8)
    ensures
        byte == channel_byte(c),
{
    if c.raw <= 0 {
        0
    } else {
        let scaled: i64 = (255 * (c.raw as i64)) / 65536;
        if scaled > 255 {
            255
        } else {
            scaled as u8
        }
    }
}

impl Color {
    pub open spec fn spec_black() -> Color {
        Color { r: Fixed::zero(), g: Fixed::zero(), b: Fixed::zero() }
    }

    pub open spec fn spec_multiply(self, scalar: Fixed) -> Color {
        Color { r: self.r.times(scalar), g: self.g.times(scalar), b: self.b.times(scalar) }
    }

    pub open spec fn spec_add(self, other: Color) -> Color {
        Color { r: self.r.plus(other.r), g: self.g.plus(other.g), b: self.b.plus(other.b) }
    }

    pub open spec fn spec_to_rgb8(self) -> (u8, u8, u8) {
        (channel_byte(self.r), channel_byte(self.g), channel_byte(self.b))
    }

    /// The colour every buffer starts with.
    #[verifier::when_used_as_spec(spec_black)]
    pub fn black() -> (c: Color)
        ensures
            c == Color::spec_black(),
    {
        Color { r: Fixed::zero(), g: Fixed::zero(), b: Fixed::zero() }
    }

    /// Every channel scaled by `scalar`.
    #[verifier::when_used_as_spec(spec_multiply)]
    pub fn multiply(self, scalar: Fixed) -> (c: Color)
        ensures
            c == self.spec_multiply(scalar),
    {
        Color { r: self.r.times(scalar), g: self.g.times(scalar), b: self.b.times(scalar) }
    }

    /// The channel-wise sum.
    #[verifier::when_used_as_spec(spec_add)]
    pub fn add(self, other: Color) -> (c: Color)
        ensures
            c == self.spec_add(other),
    {
        Color { r: self.r.plus(other.r), g: self.g.plus(other.g), b: self.b.plus(other.b) }
    }

    /// The three bytes that show this colour.
    #[verifier::when_used_as_spec(spec_to_rgb8)]
    pub fn to_rgb8(self) -> (bytes: (u8, u8, u8))
        ensures
            bytes == self.spec_to_rgb8(),
    {
        (to_byte(self.r), to_byte(self.g), to_byte(self.b))
    }
}

impl Default for Color {
    fn default() -> (c: Color)
        ensures
            c == Color::black(),
    {
        Color::black()
    }
}

/// Whether every channel of `a`, multiplied by `s`, can be stored.
pub open spec fn scales_in_range(a: Color, s: Fixed) -> bool {
    &&& fits(product_raw(a.r@, s@))
    &&& fits(product_raw(a.g@, s@))
    &&& fits(product_raw(a.b@, s@))
}

/// Whether every channel of `a`, multiplied by `s`, needs no rounding.
pub open spec fn scales_exactly(a: Color, s: Fixed) -> bool {
    &&& (a.r@ * s@) % (ONE_RAW as int) == 0
    &&& (a.g@ * s@) % (ONE_RAW as int) == 0
    &&& (a.b@ * s@) % (ONE_RAW as int) == 0
}

/// Whether each channel of `hi` is that of `lo` or one raw unit above it.
pub open spec fn at_most_one_above(lo: Color, hi: Color) -> bool {
    &&& lo.r@ <= hi.r@ <= lo.r@ + 1
    &&& lo.g@ <= hi.g@ <= lo.g@ + 1
    &&& lo.b@ <= hi.b@ <= lo.b@ + 1
}

/// Any colour multiplied by zero is black.
pub proof fn lemma_multiply_zero(a: Color)
    ensures
        a.multiply(Fixed::zero()) == Color::black(),
{
    lemma_times_unit(a.r);
    lemma_times_unit(a.g);
    lemma_times_unit(a.b);
}

/// Any colour multiplied by one is itself.
pub proof fn lemma_multiply_one(a: Color)
    ensures
        a.multiply(Fixed::one()) == a,
{
    lemma_times_unit(a.r);
    lemma_times_unit(a.g);
    lemma_times_unit(a.b);
}

/// Adding a colour multiplied by zero changes nothing.
pub proof fn lemma_add_zero_multiple(a: Color, b: Color)
    ensures
        a.add(b.multiply(Fixed::zero())) == a,
{
    lemma_multiply_zero(b);
    lemma_plus_zero(a.r);
    lemma_plus_zero(a.g);
    lemma_plus_zero(a.b);
}

/// Multiplying distributes over the sum of two scalars up to rounding: as
/// long as `s + t` and the products with `s` and with `t` can be stored,
/// each channel of `a * s + a * t` is that of `a * (s + t)` or one raw unit
/// below it, and the two colours are equal where no product is rounded.
pub proof fn lemma_multiply_distributes(a: Color, s: Fixed, t: Fixed)
    requires
        fits(s@ + t@),
        scales_in_range(a, s),
        scales_in_range(a, t),
    ensures
        at_most_one_above(a.multiply(s).add(a.multiply(t)), a.multiply(s.plus(t))),
        scales_exactly(a, s) && scales_exactly(a, t) ==> a.multiply(s.plus(t)) == a.multiply(s).add(
            a.multiply(t),
        ),
{
    lemma_times_distributes(a.r, s, t);
    lemma_times_distributes(a.g, s, t);
    lemma_times_distributes(a.b, s, t);
}

} // verus!
