use servinel::protocol::{AppSnapshot, ServiceSnapshot};
use servinel::state::ServiceMetrics;
use servinel::tui::{clamp_to_panel, tab_index_at, Rect, TuiApp};

fn service(name: &str) -> ServiceSnapshot {
    ServiceSnapshot {
        name: name.to_string(),
        status: "running".to_string(),
        pid: Some(1),
        uptime_secs: Some(1),
        exit_code: None,
        metrics: ServiceMetrics { cpu_bits: 0, memory: 0, memory_total: 0 },
    }
}

fn app(name: &str, services: &[&str]) -> AppSnapshot {
    AppSnapshot { app_name: name.to_string(), services: services.iter().map(|s| service(s)).collect() }
}

fn dashboard() -> TuiApp {
    let mut t = TuiApp::new();
    t.update_snapshot(vec![app("web", &["api", "worker"]), app("shop", &["db"])], 0, 1, 2);
    t
}

#[test]
fn app_and_service_navigation() {
    let mut t = dashboard();
    assert_eq!(t.selected_app_name().as_deref(), Some("web"));
    t.next_service();
    assert_eq!(t.selected_service_name().as_deref(), Some("worker"));
    t.next_service();
    assert_eq!(t.selected_service, 0);
    t.prev_service();
    assert_eq!(t.selected_service, 1);
    t.next_app();
    assert_eq!(t.selected_app, 1);
    assert_eq!(t.selected_service, 0);
    t.next_app();
    assert_eq!(t.selected_app, 0);
    t.prev_app();
    assert_eq!(t.selected_app, 1);
    assert_eq!(t.selected_service().unwrap().name, "db");
    t.update_snapshot(vec![app("web", &[])], 0, 0, 0);
    assert_eq!(t.selected_app, 0);
    assert_eq!(t.selected_service, 0);
    assert!(t.selected_service_name().is_none());
}

#[test]
fn scrolling() {
    let mut t = dashboard();
    t.logs = (0..40).map(|i| format!("l{i}")).collect();
    t.scroll_up();
    assert!(!t.autoscroll);
    assert_eq!(t.scroll, 39);
    t.page_up();
    assert_eq!(t.scroll, 24);
    t.scroll_down();
    assert_eq!(t.scroll, 25);
    t.page_down();
    assert_eq!(t.scroll, 40);
    assert!(t.autoscroll);
    t.page_up();
    assert_eq!(t.scroll, 25);
    t.scroll_to_top();
    assert_eq!(t.scroll, 0);
    assert!(!t.autoscroll);
    t.scroll_to_bottom();
    assert!(t.autoscroll);
    t.scroll_right();
    t.scroll_right();
    assert_eq!(t.scroll_x, 10);
    t.scroll_left();
    assert_eq!(t.scroll_x, 5);
    t.scroll_left();
    t.scroll_left();
    assert_eq!(t.scroll_x, 0);
}

#[test]
fn tab_hits() {
    let area = Rect { x: 0, y: 0, width: 80, height: 3 };
    let names = vec!["web".to_string(), "shop".to_string()];
    assert_eq!(tab_index_at(1, area, &names), Some(0));
    assert_eq!(tab_index_at(5, area, &names), Some(0));
    assert_eq!(tab_index_at(6, area, &names), Some(1));
    assert_eq!(tab_index_at(12, area, &names), Some(1));
    assert_eq!(tab_index_at(13, area, &names), None);
    assert_eq!(tab_index_at(3, area, &Vec::new()), None);
    let mut t = dashboard();
    t.app_tab_area = area;
    assert!(t.click_app_tab(8, 1));
    assert_eq!(t.selected_app, 1);
    assert!(!t.click_app_tab(8, 1));
    assert!(!t.click_app_tab(8, 5));
    t.service_tab_area = Rect { x: 0, y: 3, width: 80, height: 3 };
    t.selected_app = 0;
    assert!(t.click_service_tab(8, 4));
    assert_eq!(t.selected_service, 1);
}

#[test]
fn text_selection() {
    let mut t = dashboard();
    t.log_area = Rect { x: 0, y: 6, width: 20, height: 4 };
    t.screen_buffer = vec![
        String::new(),
        String::new(),
        String::new(),
        String::new(),
        String::new(),
        String::new(),
        "hello world   ".to_string(),
        "second line".to_string(),
    ];
    t.start_selection(6, 6);
    assert!(t.selecting);
    t.update_selection(40, 7);
    assert_eq!(t.selection_end, Some((7, 19)));
    t.finish_selection();
    assert_eq!(t.selection_range(), Some((6, 6, 7, 19)));
    assert_eq!(t.get_selected_text().as_deref(), Some("world\nsecond line"));
    t.clear_selection();
    assert!(t.get_selected_text().is_none());
    t.start_selection(70, 70);
    assert!(!t.selecting);
    assert_eq!(clamp_to_panel(3, 1, Rect { x: 5, y: 2, width: 0, height: 4 }), (5, 2));
}
