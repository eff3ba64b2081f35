//! The ratatui types that zones and plugins carry, and what the library
//! relies on of the ratatui functions it calls.
//!
//! All of these types are opaque here: the library stores and hands them
//! on, it never looks inside them.

use vstd::prelude::*;

verus! {

/// A rectangle of terminal cells (ratatui's `Rect`).
#[verifier::external_type_specification]
#[verifier::external_body]
pub struct ExRect(ratatui::layout::Rect);

/// A grid of terminal cells that widgets render into (ratatui's `Buffer`).
#[verifier::external_type_specification]
#[verifier::external_body]
pub struct ExBuffer(ratatui::buffer::Buffer);

/// Foreground, background and modifiers of terminal text (ratatui's `Style`).
#[verifier::external_type_specification]
#[verifier::external_body]
pub struct ExStyle(ratatui::style::Style);

/// A keyboard key, as crossterm reports it (re-exported by ratatui).
#[verifier::external_type_specification]
#[verifier::external_body]
pub struct ExKeyCode(ratatui::crossterm::event::KeyCode);

/// The modifier keys held with a key press, as crossterm reports them.
#[verifier::external_type_specification]
#[verifier::external_body]
pub struct ExKeyModifiers(ratatui::crossterm::event::KeyModifiers);

/// ratatui's `Rect` derives `Clone` over `Copy` fields: a clone is the same
/// rectangle.
pub assume_specification[ <ratatui::layout::Rect as Clone>::clone ](r: &ratatui::layout::Rect) -> (res: ratatui::layout::Rect)
    ensures
        res == *r,
;

/// ratatui's `Style` derives `Clone` over `Copy` fields: a clone is the same
/// style.
pub assume_specification[ <ratatui::style::Style as Clone>::clone ](s: &ratatui::style::Style) -> (res: ratatui::style::Style)
    ensures
        res == *s,
;

/// crossterm's `KeyCode` derives `Clone` and `Copy`: a clone is the same key.
pub assume_specification[ <ratatui::crossterm::event::KeyCode as Clone>::clone ](k: &ratatui::crossterm::event::KeyCode) -> (res: ratatui::crossterm::event::KeyCode)
    ensures
        res == *k,
;

/// crossterm's `KeyModifiers` (a bit set) derives `Clone` and `Copy`: a clone
/// is the same set of modifiers.
pub assume_specification[ <ratatui::crossterm::event::KeyModifiers as Clone>::clone ](m: &ratatui::crossterm::event::KeyModifiers) -> (res: ratatui::crossterm::event::KeyModifiers)
    ensures
        res == *m,
;

/// The ratatui rectangle whose top-left corner is at (`x`, `y`) and whose
/// size is `width` by `height` cells: what `Rect::new` builds when the
/// rectangle fits in the `u16` coordinate range.
pub uninterp spec fn rect_new(x: u16, y: u16, width: u16, height: u16) -> ratatui::layout::Rect;

/// ratatui's `Rect::new` keeps `x` and `y` and takes `width` and `height` as
/// given, clamping them only where the rectangle would leave the `u16`
/// coordinate range; within that range it builds `rect_new` of its
/// arguments. What it builds when it clamps is not stated.
pub assume_specification[ ratatui::layout::Rect::new ](x: u16, y: u16, width: u16, height: u16) -> (r: ratatui::layout::Rect)
    ensures
        x + width <= u16::MAX && y + height <= u16::MAX ==> r == rect_new(x, y, width, height),
;

/// ratatui's `Rect` derives `Default` over its four `u16` fields: the default
/// rectangle is the one at (0, 0) of size 0 by 0, the same that
/// `Rect::new(0, 0, 0, 0)` builds.
pub assume_specification[ <ratatui::layout::Rect as Default>::default ]() -> (r: ratatui::layout::Rect)
    ensures
        r == rect_new(0, 0, 0, 0),
;

} // verus!
