//! The plugin trait, the context handed to a plugin when it renders, and
//! the events it receives.
//!
//! A [`ZonePlugin`] declares what zones it wants and how to render them.
//! Plugins never touch the terminal frame: they get a [`RenderContext`],
//! their allocated area and the buffer for it.

use std::sync::Arc;

use ratatui::buffer::Buffer;
use ratatui::crossterm::event::{KeyCode, KeyModifiers};
use ratatui::layout::Rect;
use ratatui::style::Style;
use vstd::prelude::*;

use crate::zone::{ZoneId, ZoneRequest};

verus! {

/// Context passed to a plugin while it renders.
///
/// Carries frame metadata and the base style the host wants the plugin to
/// use (whatever styling system the host has, reduced to a ratatui `Style`).
#[derive(Debug, Clone)]
pub struct RenderContext {
    /// Base style (background + foreground) from the host's theme.
    pub base_style: Style,
    /// Whether this zone currently has keyboard focus.
    pub focused: bool,
    /// Terminal width (for responsive rendering decisions).
    pub terminal_width: u16,
    /// Terminal height.
    pub terminal_height: u16,
    /// Current tick count (for animations).
    pub tick: usize,
}

impl RenderContext {
    /// Creates a context with the given base style and terminal size,
    /// unfocused, at tick zero.
    pub fn new(base_style: Style, terminal_width: u16, terminal_height: u16) -> (c: Self)
        ensures
            c == (RenderContext {
                base_style,
                focused: false,
                terminal_width,
                terminal_height,
                tick: 0,
            }),
    {
        RenderContext { base_style, focused: false, terminal_width, terminal_height, tick: 0 }
    }

    /// Sets the focused state.
    pub fn with_focus(self, focused: bool) -> (c: Self)
        ensures
            c == (RenderContext { focused, ..self }),
    {
        let mut c = self;
        c.focused = focused;
        c
    }

    /// Sets the tick count.
    pub fn with_tick(self, tick: usize) -> (c: Self)
        ensures
            c == (RenderContext { tick, ..self }),
    {
        let mut c = self;
        c.tick = tick;
        c
    }
}

/// Events delivered to zone plugins.
#[derive(Debug, Clone)]
pub enum ZoneEvent {
    /// A key was pressed while this zone was focused.
    Key {
        /// Key code.
        code: KeyCode,
        /// Key modifiers.
        modifiers: KeyModifiers,
    },
    /// Mouse click inside this zone.
    Click {
        /// Column relative to the zone's left edge.
        x: u16,
        /// Row relative to the zone's top edge.
        y: u16,
    },
    /// Mouse scroll inside this zone.
    Scroll {
        /// Positive = down, negative = up.
        delta: i8,
    },
    /// Zone was focused.
    FocusGained,
    /// Zone lost focus.
    FocusLost,
    /// Terminal was resized.
    Resize {
        /// New terminal width.
        width: u16,
        /// New terminal height.
        height: u16,
    },
}

/// A plugin that owns one or more zones of the terminal user interface.
///
/// The host calls, in this order: `id()` and `zones()` once at
/// registration; `on_register(zone_id)` once per granted zone;
/// `render(zone_id, ctx, area, buf)` every frame per visible zone; and
/// `on_event(zone_id, event)` when an event concerns the zone.
pub trait ZonePlugin: Send + Sync {
    /// Unique plugin identifier (e.g. `"official.bmad"`).
    fn id(&self) -> &str;

    /// The zones this plugin wants to own; none unless the plugin says so.
    fn zones(&self) -> (zones: Vec<ZoneRequest>)
        default_ensures
            zones@.len() == 0,
    {
        Vec::new()
    }

    /// Called when the host grants a zone to this plugin.
    fn on_register(&self, zone_id: ZoneId) {
    }

    /// Renders the plugin's content into its zone.
    ///
    /// `area` is the allocated rectangle: the plugin must not write outside
    /// it. Returns `false` if the zone has nothing to show.
    fn render(&self, zone_id: ZoneId, ctx: &RenderContext, area: Rect, buf: &mut Buffer) -> bool;

    /// Called when a keyboard or mouse event occurs in this zone. Returns
    /// `true` if the event was handled; by default it is not.
    fn on_event(&self, zone_id: ZoneId, event: &ZoneEvent) -> (handled: bool)
        default_ensures
            !handled,
    {
        false
    }
}

/// A shared plugin is a plugin: every call goes to the plugin it points to,
/// and what comes back (and what becomes of the buffer) is an outcome of that
/// plugin's own method on the same arguments.
impl<T: ZonePlugin + ?Sized> ZonePlugin for Arc<T> {
    fn id(&self) -> (id: &str)
        ensures
            T::id.ensures((&**self,), id),
    {
        (**self).id()
    }

    fn zones(&self) -> (zones: Vec<ZoneRequest>)
        ensures
            T::zones.ensures((&**self,), zones),
    {
        (**self).zones()
    }

    fn on_register(&self, zone_id: ZoneId) {
        (**self).on_register(zone_id)
    }

    fn render(
        &self,
        zone_id: ZoneId,
        ctx: &RenderContext,
        area: Rect,
        buf: &mut Buffer,
    ) -> (shown: bool)
        ensures
            exists|b: &mut Buffer|
                *b == *old(buf) && *final(b) == *final(buf) && #[trigger] T::render.ensures(
                    (&**self, zone_id, ctx, area, b),
                    shown,
                ),
    {
        (**self).render(zone_id, ctx, area, buf)
    }

    fn on_event(&self, zone_id: ZoneId, event: &ZoneEvent) -> (handled: bool)
        ensures
            T::on_event.ensures((&**self, zone_id, event), handled),
    {
        (**self).on_event(zone_id, event)
    }
}

} // verus!
