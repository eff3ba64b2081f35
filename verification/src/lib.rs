//! Zones and plugins for terminal user interfaces built with ratatui.
//!
//! Plugins declare the zones they want (tabs, panels, overlays); the host
//! grants or denies each request through a [`ZoneRegistry`] and later asks
//! the registry what to draw where. Plugins never touch the terminal frame:
//! they render into the area the host gives them, and a plugin that panics
//! while rendering is reported by [`SafeRenderer`] instead of bringing the
//! application down.
//!
//! The specifications (the plain-value views of zones and requests, and the
//! spec functions the contracts are written in) live in the modules; the
//! properties that span several calls are proved in [`laws`].

pub mod laws;
pub mod plugin;
pub mod registry;
pub mod render;
pub mod terminal;
pub mod zone;

pub use plugin::{RenderContext, ZoneEvent, ZonePlugin};
pub use registry::{RegistrationResult, ZoneRegistry};
pub use render::SafeRenderer;
pub use zone::{ZoneHint, ZoneId, ZoneRequest, ZoneSpec};
