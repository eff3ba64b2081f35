use ratatui_zonekit::zone::{DEFAULT_ORDER, SIDEBAR_MIN_WIDTH};
use ratatui_zonekit::{ZoneHint, ZoneId, ZoneRequest};

#[test]
fn zone_id_display() {
    assert_eq!(ZoneId::new(42).to_string(), "zone:42");
}

#[test]
fn zone_id_equality() {
    assert_eq!(ZoneId::new(1), ZoneId::new(1));
    assert_ne!(ZoneId::new(1), ZoneId::new(2));
}

#[test]
fn zone_request_tab() {
    let req = ZoneRequest::tab("bmad.sprint", "Sprint");
    assert_eq!(req.hint, ZoneHint::Tab);
    assert_eq!(req.name, "bmad.sprint");
    assert_eq!(req.label, "Sprint");
}

#[test]
fn zone_request_sidebar() {
    let req = ZoneRequest::sidebar("github.pr", "Pull Requests");
    assert_eq!(req.hint, ZoneHint::Sidebar);
    assert_eq!(req.min_terminal_width, 120);
}

#[test]
fn zone_request_overlay() {
    let req = ZoneRequest::overlay("finder.search", "Search", 60, 20);
    assert_eq!(req.hint, ZoneHint::Overlay);
    assert_eq!(req.preferred_width, 60);
    assert_eq!(req.preferred_height, 20);
}

#[test]
fn zone_request_builder() {
    let req = ZoneRequest::tab("test.tab", "Test")
        .with_order(10)
        .with_min_width(140);
    assert_eq!(req.order, 10);
    assert_eq!(req.min_terminal_width, 140);
}

#[test]
fn zone_id_raw_round_trip() {
    assert_eq!(ZoneId::new(0).raw(), 0);
    assert_eq!(ZoneId::new(7).raw(), 7);
    assert_eq!(ZoneId::new(u32::MAX).raw(), u32::MAX);
}

#[test]
fn zone_id_display_edge_values() {
    assert_eq!(ZoneId::new(0).to_string(), "zone:0");
    assert_eq!(ZoneId::new(9).to_string(), "zone:9");
    assert_eq!(ZoneId::new(10).to_string(), "zone:10");
    assert_eq!(ZoneId::new(1000).to_string(), "zone:1000");
    assert_eq!(ZoneId::new(u32::MAX).to_string(), "zone:4294967295");
}

#[test]
fn zone_request_defaults() {
    let tab = ZoneRequest::tab("a.tab", "A");
    assert_eq!(tab.preferred_height, 0);
    assert_eq!(tab.preferred_width, 0);
    assert_eq!(tab.min_terminal_width, 0);
    assert_eq!(tab.order, DEFAULT_ORDER);
    assert_eq!(tab.order, 128);

    let side = ZoneRequest::sidebar("b.side", "B");
    assert_eq!(side.min_terminal_width, SIDEBAR_MIN_WIDTH);
    assert_eq!(side.order, 128);
    assert_eq!(side.name, "b.side");
    assert_eq!(side.label, "B");

    let over = ZoneRequest::overlay("c.over", "C", 5, 6);
    assert_eq!(over.order, 0);
    assert_eq!(over.min_terminal_width, 0);
    assert_eq!(over.name, "c.over");
    assert_eq!(over.label, "C");
}

#[test]
fn builders_change_only_their_field() {
    let req = ZoneRequest::overlay("x.o", "X", 30, 10).with_order(3);
    assert_eq!(req.order, 3);
    assert_eq!(req.preferred_width, 30);
    assert_eq!(req.preferred_height, 10);
    assert_eq!(req.hint, ZoneHint::Overlay);
    let req = req.with_min_width(90);
    assert_eq!(req.min_terminal_width, 90);
    assert_eq!(req.order, 3);
    assert_eq!(req.name, "x.o");
}
