//! Colours of glyphs, log lines and map cells.

use vstd::prelude::*;

verus! {

/// A colour as its red, green and blue parts.
#[derive(Clone, Copy, Debug, PartialEq, Eq, Structural)]
pub struct Color {
    pub r: u8,
    pub g: u8,
    pub b: u8,
}

pub open spec fn spec_white() -> Color {
    Color { r: 255, g: 255, b: 255 }
}

pub open spec fn spec_red() -> Color {
    Color { r: 255, g: 0, b: 0 }
}

pub open spec fn spec_dark_red() -> Color {
    Color { r: 191, g: 0, b: 0 }
}

pub open spec fn spec_orange() -> Color {
    Color { r: 255, g: 127, b: 0 }
}

pub open spec fn spec_desaturated_green() -> Color {
    Color { r: 63, g: 127, b: 63 }
}

pub open spec fn spec_darker_green() -> Color {
    Color { r: 0, g: 127, b: 0 }
}

pub open spec fn spec_wall_dark() -> Color {
    Color { r: 0, g: 0, b: 100 }
}

pub open spec fn spec_wall_light() -> Color {
    Color { r: 130, g: 110, b: 50 }
}

pub open spec fn spec_floor_dark() -> Color {
    Color { r: 50, g: 50, b: 150 }
}

pub open spec fn spec_floor_light() -> Color {
    Color { r: 200, g: 180, b: 50 }
}

/// Plain log lines and the hero's glyph.
#[verifier::when_used_as_spec(spec_white)]
pub fn white() -> (c: Color)
    ensures
        c == spec_white(),
{
    Color { r: 255, g: 255, b: 255 }
}

/// The line that reports the hero's death.
#[verifier::when_used_as_spec(spec_red)]
pub fn red() -> (c: Color)
    ensures
        c == spec_red(),
{
    Color { r: 255, g: 0, b: 0 }
}

/// Corpses.
#[verifier::when_used_as_spec(spec_dark_red)]
pub fn dark_red() -> (c: Color)
    ensures
        c == spec_dark_red(),
{
    Color { r: 191, g: 0, b: 0 }
}

/// The line that reports a hostile's death.
#[verifier::when_used_as_spec(spec_orange)]
pub fn orange() -> (c: Color)
    ensures
        c == spec_orange(),
{
    Color { r: 255, g: 127, b: 0 }
}

/// Police officers.
#[verifier::when_used_as_spec(spec_desaturated_green)]
pub fn desaturated_green() -> (c: Color)
    ensures
        c == spec_desaturated_green(),
{
    Color { r: 63, g: 127, b: 63 }
}

/// Army soldiers.
#[verifier::when_used_as_spec(spec_darker_green)]
pub fn darker_green() -> (c: Color)
    ensures
        c == spec_darker_green(),
{
    Color { r: 0, g: 127, b: 0 }
}

/// A wall out of sight.
#[verifier::when_used_as_spec(spec_wall_dark)]
pub fn wall_dark() -> (c: Color)
    ensures
        c == spec_wall_dark(),
{
    Color { r: 0, g: 0, b: 100 }
}

/// A wall in sight.
#[verifier::when_used_as_spec(spec_wall_light)]
pub fn wall_light() -> (c: Color)
    ensures
        c == spec_wall_light(),
{
    Color { r: 130, g: 110, b: 50 }
}

/// Floor out of sight.
#[verifier::when_used_as_spec(spec_floor_dark)]
pub fn floor_dark() -> (c: Color)
    ensures
        c == spec_floor_dark(),
{
    Color { r: 50, g: 50, b: 150 }
}

/// Floor in sight.
#[verifier::when_used_as_spec(spec_floor_light)]
pub fn floor_light() -> (c: Color)
    ensures
        c == spec_floor_light(),
{
    Color { r: 200, g: 180, b: 50 }
}

} // verus!
