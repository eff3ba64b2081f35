use std::sync::Arc;

use ratatui::buffer::Buffer;
use ratatui::layout::Rect;
use ratatui_zonekit::{
    RegistrationResult, RenderContext, ZoneHint, ZoneId, ZonePlugin, ZoneRegistry, ZoneRequest,
};

type Registry = ZoneRegistry<Arc<dyn ZonePlugin>>;

struct FakePlugin {
    id: &'static str,
    requests: Vec<ZoneRequest>,
}

impl ZonePlugin for FakePlugin {
    fn id(&self) -> &str {
        self.id
    }

    fn zones(&self) -> Vec<ZoneRequest> {
        self.requests.clone()
    }

    fn render(&self, _: ZoneId, _: &RenderContext, _: Rect, _: &mut Buffer) -> bool {
        true
    }
}

fn plugin_with_tab(id: &'static str, name: &str, label: &str) -> Arc<dyn ZonePlugin> {
    Arc::new(FakePlugin {
        id,
        requests: vec![ZoneRequest::tab(name, label)],
    })
}

fn plugin_with_sidebar(id: &'static str, name: &str, label: &str) -> Arc<dyn ZonePlugin> {
    Arc::new(FakePlugin {
        id,
        requests: vec![ZoneRequest::sidebar(name, label)],
    })
}

fn granted(result: &RegistrationResult) -> ZoneId {
    match result {
        RegistrationResult::Granted(id) => *id,
        RegistrationResult::Denied(reason) => panic!("denied: {reason}"),
    }
}

#[test]
fn empty_registry() {
    let reg = Registry::new();
    assert!(reg.is_empty());
    assert_eq!(reg.len(), 0);
    assert!(reg.tabs().is_empty());
}

#[test]
fn register_plugin_grants_zone() {
    let mut reg = Registry::new();
    let results = reg.register(plugin_with_tab("bmad", "bmad.sprint", "Sprint"));
    assert_eq!(results.len(), 1);
    assert!(matches!(results[0], RegistrationResult::Granted(_)));
    assert_eq!(reg.len(), 1);
}

#[test]
fn duplicate_name_is_denied() {
    let mut reg = Registry::new();
    reg.register(plugin_with_tab("a", "shared.name", "Tab A"));
    let results = reg.register(plugin_with_tab("b", "shared.name", "Tab B"));
    assert!(matches!(results[0], RegistrationResult::Denied(_)));
    assert_eq!(reg.len(), 1);
}

#[test]
fn zones_by_hint_filters_correctly() {
    let mut reg = Registry::new();
    reg.register(plugin_with_tab("a", "a.tab", "Tab A"));
    reg.register(plugin_with_sidebar("b", "b.side", "Side B"));
    assert_eq!(reg.zones_by_hint(ZoneHint::Tab).len(), 1);
    assert_eq!(reg.zones_by_hint(ZoneHint::Sidebar).len(), 1);
    assert_eq!(reg.zones_by_hint(ZoneHint::Overlay).len(), 0);
}

#[test]
fn tabs_returns_tab_zones_sorted() {
    let mut reg = Registry::new();
    reg.register(Arc::new(FakePlugin {
        id: "b",
        requests: vec![ZoneRequest::tab("b.tab", "B").with_order(20)],
    }));
    reg.register(Arc::new(FakePlugin {
        id: "a",
        requests: vec![ZoneRequest::tab("a.tab", "A").with_order(10)],
    }));
    let tabs = reg.tabs();
    assert_eq!(tabs[0].label, "A");
    assert_eq!(tabs[1].label, "B");
}

#[test]
fn owner_returns_plugin() {
    let mut reg = Registry::new();
    let plugin = plugin_with_tab("test", "test.tab", "Test");
    let results = reg.register(plugin);
    if let RegistrationResult::Granted(id) = &results[0] {
        let owner = reg.owner(*id).unwrap();
        assert_eq!(owner.id(), "test");
    }
}

#[test]
fn zone_by_name() {
    let mut reg = Registry::new();
    reg.register(plugin_with_tab("x", "x.tab", "X"));
    assert!(reg.zone_by_name("x.tab").is_some());
    assert!(reg.zone_by_name("nonexistent").is_none());
}

#[test]
fn update_area() {
    let mut reg = Registry::new();
    let results = reg.register(plugin_with_tab("x", "x.tab", "X"));
    if let RegistrationResult::Granted(id) = &results[0] {
        let new_area = Rect::new(10, 20, 80, 40);
        reg.update_area(*id, new_area);
        assert_eq!(reg.zone(*id).unwrap().area, new_area);
    }
}

#[test]
fn set_visible_hides_zone() {
    let mut reg = Registry::new();
    let results = reg.register(plugin_with_tab("x", "x.tab", "X"));
    if let RegistrationResult::Granted(id) = &results[0] {
        reg.set_visible(*id, false);
        assert!(reg.tabs().is_empty(), "hidden tab should not appear");
    }
}

#[test]
fn multiple_plugins_get_unique_ids() {
    let mut reg = Registry::new();
    let r1 = reg.register(plugin_with_tab("a", "a.tab", "A"));
    let r2 = reg.register(plugin_with_tab("b", "b.tab", "B"));
    if let (RegistrationResult::Granted(id1), RegistrationResult::Granted(id2)) = (&r1[0], &r2[0])
    {
        assert_ne!(id1, id2);
    }
}

#[test]
fn ids_are_numbered_from_one() {
    let mut reg = Registry::new();
    let r = reg.register(Arc::new(FakePlugin {
        id: "m",
        requests: vec![
            ZoneRequest::tab("m.one", "One"),
            ZoneRequest::sidebar("m.two", "Two"),
            ZoneRequest::overlay("m.three", "Three", 40, 10),
        ],
    }));
    assert_eq!(r.len(), 3);
    assert_eq!(granted(&r[0]).raw(), 1);
    assert_eq!(granted(&r[1]).raw(), 2);
    assert_eq!(granted(&r[2]).raw(), 3);
    let r = reg.register(plugin_with_tab("n", "n.tab", "N"));
    assert_eq!(granted(&r[0]).raw(), 4);
}

#[test]
fn denied_request_consumes_no_id_and_names_the_zone() {
    let mut reg = Registry::new();
    reg.register(plugin_with_tab("a", "dup", "First"));
    let r = reg.register(Arc::new(FakePlugin {
        id: "b",
        requests: vec![ZoneRequest::tab("dup", "Again"), ZoneRequest::tab("fresh", "Fresh")],
    }));
    match &r[0] {
        RegistrationResult::Denied(reason) => assert_eq!(reason, "zone 'dup' already registered"),
        RegistrationResult::Granted(_) => panic!("duplicate was granted"),
    }
    assert_eq!(granted(&r[1]).raw(), 2);
    assert_eq!(reg.len(), 2);
    assert_eq!(reg.zone_by_name("dup").unwrap().label, "First");
}

#[test]
fn duplicate_within_one_registration_is_denied() {
    let mut reg = Registry::new();
    let r = reg.register(Arc::new(FakePlugin {
        id: "c",
        requests: vec![ZoneRequest::tab("c.x", "X"), ZoneRequest::sidebar("c.x", "Y")],
    }));
    assert!(matches!(r[0], RegistrationResult::Granted(_)));
    assert!(matches!(r[1], RegistrationResult::Denied(_)));
    assert_eq!(reg.len(), 1);
}

#[test]
fn plugin_without_zones_gets_no_results() {
    let mut reg = Registry::new();
    let r = reg.register(Arc::new(FakePlugin { id: "none", requests: vec![] }));
    assert!(r.is_empty());
    assert!(reg.is_empty());
}

#[test]
fn granted_zone_carries_the_request() {
    let mut reg = Registry::new();
    let r = reg.register(Arc::new(FakePlugin {
        id: "g",
        requests: vec![ZoneRequest::overlay("g.pick", "Picker", 60, 20).with_order(7)],
    }));
    let id = granted(&r[0]);
    let z = reg.zone(id).unwrap();
    assert_eq!(z.id, id);
    assert_eq!(z.name, "g.pick");
    assert_eq!(z.label, "Picker");
    assert_eq!(z.hint, ZoneHint::Overlay);
    assert_eq!(z.order, 7);
    assert!(z.visible);
    assert_eq!(z.area, Rect::default());
    assert_eq!(reg.owner(id).unwrap().id(), "g");
}

#[test]
fn unknown_ids_find_nothing() {
    let mut reg = Registry::new();
    reg.register(plugin_with_tab("x", "x.tab", "X"));
    assert!(reg.zone(ZoneId::new(0)).is_none());
    assert!(reg.zone(ZoneId::new(2)).is_none());
    assert!(reg.owner(ZoneId::new(99)).is_none());
    reg.update_area(ZoneId::new(5), Rect::new(1, 1, 1, 1));
    reg.set_visible(ZoneId::new(5), false);
    assert_eq!(reg.zone(ZoneId::new(1)).unwrap().area, Rect::default());
    assert_eq!(reg.tabs().len(), 1);
}

#[test]
fn listing_is_a_stable_sort_by_order() {
    let mut reg = Registry::new();
    reg.register(Arc::new(FakePlugin {
        id: "s",
        requests: vec![
            ZoneRequest::tab("t1", "T1").with_order(5),
            ZoneRequest::tab("t2", "T2").with_order(1),
            ZoneRequest::sidebar("s1", "S1").with_order(0),
            ZoneRequest::tab("t3", "T3").with_order(5),
            ZoneRequest::tab("t4", "T4").with_order(255),
            ZoneRequest::tab("t5", "T5").with_order(1),
        ],
    }));
    let labels: Vec<&str> = reg.tabs().iter().map(|z| z.label.as_str()).collect();
    assert_eq!(labels, vec!["T2", "T5", "T1", "T3", "T4"]);
    let side: Vec<&str> = reg
        .zones_by_hint(ZoneHint::Sidebar)
        .iter()
        .map(|z| z.label.as_str())
        .collect();
    assert_eq!(side, vec!["S1"]);
    let id = reg.zone_by_name("t1").unwrap().id;
    reg.set_visible(id, false);
    let labels: Vec<&str> = reg.tabs().iter().map(|z| z.label.as_str()).collect();
    assert_eq!(labels, vec!["T2", "T5", "T3", "T4"]);
    reg.set_visible(id, true);
    assert_eq!(reg.tabs().len(), 5);
    assert_eq!(reg.all_zones().len(), 6);
    assert_eq!(reg.all_zones()[2].label, "S1");
}

#[test]
fn default_registry_is_empty() {
    let reg: Registry = ZoneRegistry::default();
    assert!(reg.is_empty());
    assert!(reg.all_zones().is_empty());
}

#[test]
fn register_requests_records_owner() {
    let mut reg: ZoneRegistry<&'static str> = ZoneRegistry::new();
    let r = reg.register_requests("first", vec![ZoneRequest::tab("a", "A")]);
    let id_a = granted(&r[0]);
    let r = reg.register_requests("second", vec![ZoneRequest::tab("a", "A2"), ZoneRequest::tab("b", "B")]);
    assert!(matches!(r[0], RegistrationResult::Denied(_)));
    let id_b = granted(&r[1]);
    assert_eq!(reg.owner(id_a), Some(&"first"));
    assert_eq!(reg.owner(id_b), Some(&"second"));
    let r = reg.register_requests("third", vec![ZoneRequest::tab("b", "dup")]);
    assert!(matches!(r[0], RegistrationResult::Denied(_)));
    assert_eq!(reg.owner(id_b), Some(&"second"));
}

#[test]
fn duplicate_in_one_plugin_does_not_burn_an_id() {
    let mut reg = Registry::new();
    let res = reg.register(Arc::new(FakePlugin {
        id: "p",
        requests: vec![
            ZoneRequest::tab("p.a", "A"),
            ZoneRequest::tab("p.a", "A2"),
            ZoneRequest::sidebar("p.b", "B"),
        ],
    }));
    assert_eq!(res.len(), 3);
    assert!(matches!(res[0], RegistrationResult::Granted(i) if i == ZoneId::new(1)));
    assert!(matches!(res[1], RegistrationResult::Denied(_)));
    assert!(matches!(res[2], RegistrationResult::Granted(i) if i == ZoneId::new(2)));
    assert_eq!(reg.len(), 2);
    assert_eq!(reg.all_zones()[0].label, "A");
    assert_eq!(reg.all_zones()[1].name, "p.b");
}

#[test]
fn the_five_listings_split_the_visible_zones() {
    let mut reg = Registry::new();
    reg.register(Arc::new(FakePlugin {
        id: "all",
        requests: vec![
            ZoneRequest::tab("t", "T"),
            ZoneRequest::sidebar("s", "S"),
            ZoneRequest::overlay("o", "O", 10, 5),
            ZoneRequest::tab("t2", "T2"),
            ZoneRequest {
                name: "c".to_string(),
                hint: ZoneHint::Control,
                label: "C".to_string(),
                preferred_height: 0,
                preferred_width: 0,
                min_terminal_width: 0,
                order: 9,
            },
            ZoneRequest {
                name: "b".to_string(),
                hint: ZoneHint::StatusBar,
                label: "Bar".to_string(),
                preferred_height: 1,
                preferred_width: 0,
                min_terminal_width: 0,
                order: 0,
            },
        ],
    }));
    let hidden = reg.zone_by_name("t2").unwrap().id;
    reg.set_visible(hidden, false);
    let hints = [
        ZoneHint::Tab,
        ZoneHint::Sidebar,
        ZoneHint::Control,
        ZoneHint::Overlay,
        ZoneHint::StatusBar,
    ];
    let total: usize = hints.iter().map(|h| reg.zones_by_hint(*h).len()).sum();
    let visible = reg.all_zones().iter().filter(|z| z.visible).count();
    assert_eq!(total, 5);
    assert_eq!(visible, 5);
    assert_eq!(reg.len(), 6, "hidden zones still count");
    for (a, ha) in hints.iter().enumerate() {
        for hb in hints.iter().skip(a + 1) {
            for za in reg.zones_by_hint(*ha) {
                assert!(reg.zones_by_hint(*hb).iter().all(|zb| zb.id != za.id));
            }
        }
    }
}

#[test]
fn len_counts_grants_across_registrations() {
    let mut reg = Registry::new();
    let mut grants = 0;
    for (id, name) in [("a", "x"), ("b", "y"), ("c", "x"), ("d", "z")] {
        let res = reg.register(plugin_with_tab(id, name, "L"));
        grants += res
            .iter()
            .filter(|r| matches!(r, RegistrationResult::Granted(_)))
            .count();
        assert_eq!(reg.len(), grants);
        assert_eq!(reg.is_empty(), grants == 0);
    }
    let names: Vec<&str> = reg.all_zones().iter().map(|z| z.name.as_str()).collect();
    assert_eq!(names, vec!["x", "y", "z"]);
}
