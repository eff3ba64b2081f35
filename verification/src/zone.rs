//! Zone identifiers, placement hints, requests and resolved zone records.

use ratatui::layout::Rect;
use vstd::prelude::*;

verus! {

/// The decimal digits of `n`, most significant first, without leading zeros.
pub open spec fn decimal(n: nat) -> Seq<char>
    decreases n,
{
    if n < 10 {
        seq![digit_char(n)]
    } else {
        decimal(n / 10).push(digit_char(n % 10))
    }
}

/// The ASCII digit for a value below ten.
pub open spec fn digit_char(d: nat) -> char {
    (48 + d) as char
}

/// A one-character string holding the digit `d`.
fn digit_str(d: u32) -> (s: &'static str)
    requires
        d < 10,
    ensures
        s@ == seq![digit_char(d as nat)],
{
    proof {
        reveal_strlit("0");
        reveal_strlit("1");
        reveal_strlit("2");
        reveal_strlit("3");
        reveal_strlit("4");
        reveal_strlit("5");
        reveal_strlit("6");
        reveal_strlit("7");
        reveal_strlit("8");
        reveal_strlit("9");
    }
    match d {
        0 => "0",
        1 => "1",
        2 => "2",
        3 => "3",
        4 => "4",
        5 => "5",
        6 => "6",
        7 => "7",
        8 => "8",
        _ => "9",
    }
}

/// Appends the decimal form of `n` to `out`.
fn push_decimal(out: &mut String, n: u32)
    ensures
        final(out)@ == old(out)@ + decimal(n as nat),
    decreases n,
{
    if n >= 10 {
        push_decimal(out, n / 10);
    }
    out.append(digit_str(n % 10));
}

/// Unique identifier for a zone, assigned by the host.
#[derive(Debug, Clone, Copy, PartialEq, Eq, Hash, Structural)]
pub struct ZoneId(u32);

impl View for ZoneId {
    type V = u32;

    closed spec fn view(&self) -> u32 {
        self.0
    }
}

impl ZoneId {
    /// Two identifiers are equal exactly when their numbers are.
    pub proof fn lemma_eq_iff_same_number(a: ZoneId, b: ZoneId)
        ensures
            (a == b) <==> (a@ == b@),
    {
    }

    /// Creates a new zone identifier.
    pub fn new(id: u32) -> (z: Self)
        ensures
            z@ == id,
    {
        ZoneId(id)
    }

    /// Returns the raw numeric identifier.
    pub fn raw(self) -> (r: u32)
        ensures
            r == self@,
    {
        self.0
    }

    /// The identifier as text: `zone:` followed by the number in decimal.
    pub fn to_string(&self) -> (s: String)
        ensures
            s@ == "zone:"@ + decimal(self@ as nat),
    {
        let mut s = String::from_str("zone:");
        push_decimal(&mut s, self.0);
        s
    }
}

/// Where a plugin wants its zone to appear.
///
/// A hint is a preference, not a guarantee: the host may ignore it or
/// reposition the zone depending on the space available.
#[derive(Debug, Clone, Copy, PartialEq, Eq, Structural)]
pub enum ZoneHint {
    /// Main content area (replaces the default content when active).
    Tab,
    /// Sidebar column.
    Sidebar,
    /// Control column.
    Control,
    /// Floating overlay on top of all zones.
    Overlay,
    /// Status bar area (single line, bottom).
    StatusBar,
}

/// A plugin's request for a zone, as plain values.
pub struct ZoneRequestView {
    pub name: Seq<char>,
    pub hint: ZoneHint,
    pub label: Seq<char>,
    pub preferred_height: u16,
    pub preferred_width: u16,
    pub min_terminal_width: u16,
    pub order: u8,
}

/// A plugin's request to create or own a zone.
///
/// Plugins submit requests during registration. The host evaluates each
/// request and either grants a [`ZoneId`] or denies it.
#[derive(Debug, Clone)]
pub struct ZoneRequest {
    /// Namespaced identifier: `"{plugin_id}.{local_name}"`.
    pub name: String,
    /// Where the plugin wants the zone.
    pub hint: ZoneHint,
    /// Display label (for tabs, panel headers).
    pub label: String,
    /// Preferred height in lines (0 = fill available). Ignored for tabs.
    pub preferred_height: u16,
    /// Preferred width in columns (0 = fill available). Ignored for tabs.
    pub preferred_width: u16,
    /// Minimum terminal width for this zone to appear (0 = always).
    pub min_terminal_width: u16,
    /// Display order within the zone hint (lower = first).
    pub order: u8,
}

impl View for ZoneRequest {
    type V = ZoneRequestView;

    open spec fn view(&self) -> ZoneRequestView {
        ZoneRequestView {
            name: self.name@,
            hint: self.hint,
            label: self.label@,
            preferred_height: self.preferred_height,
            preferred_width: self.preferred_width,
            min_terminal_width: self.min_terminal_width,
            order: self.order,
        }
    }
}

/// Order given to tab and sidebar requests unless the plugin sets one.
pub const DEFAULT_ORDER: u8 = 128;

/// Terminal width below which a sidebar request does not appear by default.
pub const SIDEBAR_MIN_WIDTH: u16 = 120;

impl ZoneRequest {
    /// Creates a tab zone request.
    pub fn tab(name: &str, label: &str) -> (r: Self)
        ensures
            r@ == (ZoneRequestView {
                name: name@,
                hint: ZoneHint::Tab,
                label: label@,
                preferred_height: 0,
                preferred_width: 0,
                min_terminal_width: 0,
                order: DEFAULT_ORDER,
            }),
    {
        ZoneRequest {
            name: String::from_str(name),
            hint: ZoneHint::Tab,
            label: String::from_str(label),
            preferred_height: 0,
            preferred_width: 0,
            min_terminal_width: 0,
            order: DEFAULT_ORDER,
        }
    }

    /// Creates a sidebar panel zone request.
    pub fn sidebar(name: &str, label: &str) -> (r: Self)
        ensures
            r@ == (ZoneRequestView {
                name: name@,
                hint: ZoneHint::Sidebar,
                label: label@,
                preferred_height: 0,
                preferred_width: 0,
                min_terminal_width: SIDEBAR_MIN_WIDTH,
                order: DEFAULT_ORDER,
            }),
    {
        ZoneRequest {
            name: String::from_str(name),
            hint: ZoneHint::Sidebar,
            label: String::from_str(label),
            preferred_height: 0,
            preferred_width: 0,
            min_terminal_width: SIDEBAR_MIN_WIDTH,
            order: DEFAULT_ORDER,
        }
    }

    /// Creates a floating overlay zone request of the given size.
    pub fn overlay(name: &str, label: &str, width: u16, height: u16) -> (r: Self)
        ensures
            r@ == (ZoneRequestView {
                name: name@,
                hint: ZoneHint::Overlay,
                label: label@,
                preferred_height: height,
                preferred_width: width,
                min_terminal_width: 0,
                order: 0,
            }),
    {
        ZoneRequest {
            name: String::from_str(name),
            hint: ZoneHint::Overlay,
            label: String::from_str(label),
            preferred_height: height,
            preferred_width: width,
            min_terminal_width: 0,
            order: 0,
        }
    }

    /// Sets the display order.
    pub fn with_order(self, order: u8) -> (r: Self)
        ensures
            r@ == (ZoneRequestView { order, ..self@ }),
    {
        let mut r = self;
        r.order = order;
        r
    }

    /// Sets the minimum terminal width.
    pub fn with_min_width(self, width: u16) -> (r: Self)
        ensures
            r@ == (ZoneRequestView { min_terminal_width: width, ..self@ }),
    {
        let mut r = self;
        r.min_terminal_width = width;
        r
    }
}

/// A resolved zone, as plain values.
pub struct ZoneSpecView {
    pub id: u32,
    pub name: Seq<char>,
    pub label: Seq<char>,
    pub hint: ZoneHint,
    pub area: Rect,
    pub visible: bool,
    pub order: u8,
}

/// A resolved zone: the host's answer to a [`ZoneRequest`].
///
/// Holds the allocated area and metadata. The area is updated every frame,
/// since a terminal resize can change it.
#[derive(Debug, Clone)]
pub struct ZoneSpec {
    /// Unique zone identifier.
    pub id: ZoneId,
    /// Original request name.
    pub name: String,
    /// Display label.
    pub label: String,
    /// Zone hint (where it was placed).
    pub hint: ZoneHint,
    /// Currently allocated area (updated per frame).
    pub area: Rect,
    /// Whether this zone is currently visible.
    pub visible: bool,
    /// Display order used for sorting.
    pub order: u8,
}

impl View for ZoneSpec {
    type V = ZoneSpecView;

    open spec fn view(&self) -> ZoneSpecView {
        ZoneSpecView {
            id: self.id@,
            name: self.name@,
            label: self.label@,
            hint: self.hint,
            area: self.area,
            visible: self.visible,
            order: self.order,
        }
    }
}

} // verus!
