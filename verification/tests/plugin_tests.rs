use ratatui::buffer::Buffer;
use ratatui::layout::Rect;
use ratatui::style::Style;
use ratatui::widgets::{Paragraph, Widget};
use ratatui_zonekit::{RenderContext, ZoneEvent, ZoneId, ZonePlugin};
use std::sync::Arc;

struct TestPlugin;

impl ZonePlugin for TestPlugin {
    fn id(&self) -> &str {
        "test"
    }

    fn render(&self, _: ZoneId, ctx: &RenderContext, area: Rect, buf: &mut Buffer) -> bool {
        let text = if ctx.focused { "FOCUSED" } else { "normal" };
        Paragraph::new(text).style(ctx.base_style).render(area, buf);
        true
    }
}

fn buffer_text(buf: &Buffer) -> String {
    buf.content().iter().map(|c| c.symbol().to_string()).collect()
}

#[test]
fn plugin_id_is_accessible() {
    let p = TestPlugin;
    assert_eq!(p.id(), "test");
}

#[test]
fn default_zones_is_empty() {
    let p = TestPlugin;
    assert!(p.zones().is_empty());
}

#[test]
fn render_context_builder() {
    let ctx = RenderContext::new(Style::default(), 120, 40)
        .with_focus(true)
        .with_tick(42);
    assert!(ctx.focused);
    assert_eq!(ctx.tick, 42);
    assert_eq!(ctx.terminal_width, 120);
}

#[test]
fn plugin_renders_into_buffer() {
    let p = TestPlugin;
    let area = Rect::new(0, 0, 20, 1);
    let mut buf = Buffer::empty(area);
    let ctx = RenderContext::new(Style::default(), 80, 24);
    let rendered = p.render(ZoneId::new(1), &ctx, area, &mut buf);
    assert!(rendered);
    assert!(buffer_text(&buf).contains("normal"));
}

#[test]
fn plugin_renders_focused() {
    let p = TestPlugin;
    let area = Rect::new(0, 0, 20, 1);
    let mut buf = Buffer::empty(area);
    let ctx = RenderContext::new(Style::default(), 80, 24).with_focus(true);
    p.render(ZoneId::new(1), &ctx, area, &mut buf);
    assert!(buffer_text(&buf).contains("FOCUSED"));
}

#[test]
fn default_on_event_returns_false() {
    let p = TestPlugin;
    let handled = p.on_event(
        ZoneId::new(1),
        &ZoneEvent::Key {
            code: ratatui::crossterm::event::KeyCode::Char('a'),
            modifiers: ratatui::crossterm::event::KeyModifiers::NONE,
        },
    );
    assert!(!handled);
}

#[test]
fn render_context_new_defaults() {
    let ctx = RenderContext::new(Style::default(), 80, 24);
    assert!(!ctx.focused);
    assert_eq!(ctx.tick, 0);
    assert_eq!(ctx.terminal_width, 80);
    assert_eq!(ctx.terminal_height, 24);
    let ctx = ctx.with_tick(5).with_focus(false);
    assert_eq!(ctx.tick, 5);
    assert!(!ctx.focused);
    assert_eq!(ctx.terminal_height, 24);
}

#[test]
fn shared_plugin_forwards_calls() {
    let p: Arc<dyn ZonePlugin> = Arc::new(TestPlugin);
    assert_eq!(ZonePlugin::id(&p), "test");
    assert!(ZonePlugin::zones(&p).is_empty());
    assert!(!ZonePlugin::on_event(&p, ZoneId::new(3), &ZoneEvent::FocusGained));
    let area = Rect::new(0, 0, 20, 1);
    let mut buf = Buffer::empty(area);
    let ctx = RenderContext::new(Style::default(), 80, 24).with_focus(true);
    assert!(ZonePlugin::render(&p, ZoneId::new(1), &ctx, area, &mut buf));
    assert!(buffer_text(&buf).contains("FOCUSED"));
}
