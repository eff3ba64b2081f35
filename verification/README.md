# ratatui-zonekit

Zones and plugins for ratatui applications, verified with Verus.

Plugins declare the zones they want (tabs, sidebar panels, overlays); the
host grants or denies each request through a `ZoneRegistry`, which hands out
identifiers, records which plugin owns which zone, and lists the visible
zones of a kind sorted by display order.

Layout:

- `src/zone.rs`: zone identifiers, hints, requests and resolved zones, with
  their plain-value views.
- `src/plugin.rs`: the `ZonePlugin` trait, `RenderContext` and `ZoneEvent`.
- `src/registry.rs`: the registry and the spec functions its contracts use.
- `src/render.rs`: what is reported and shown after a plugin renders or
  panics.
- `src/laws.rs`: properties that span several calls (registration only adds
  zones, never repeats an identifier or a name, answers every request, and
  the registry is exactly its grants in grant order; the listing for a hint
  is a stable sort of the visible zones, and the five listings split the
  visible zones among them).
- `src/terminal.rs`: the ratatui types the library carries, and the ratatui
  calls it makes.
- `app/lib.rs`: running a plugin's render with panics caught, and painting
  the crash message.
