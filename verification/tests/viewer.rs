use gader::app::{Action, App, KeyCode};
use gader::common::{LogEntry, NetworkPacket};
use gader::screen::View;
use gader::ui::{detail_title, status_line};

fn entry(service: &str, message: &str) -> LogEntry {
    LogEntry {
        service: service.to_string(),
        timestamp: "2024-02-28 12:00".to_string(),
        level: "INFO".to_string(),
        context: "Ctx".to_string(),
        message: message.to_string(),
    }
}

fn batch(entries: Vec<LogEntry>) -> Action {
    Action::Network(NetworkPacket::Batch(entries))
}

fn three_entries() -> App {
    let mut app = App::new();
    app.update(batch(vec![
        entry("immich", "a"),
        entry("vaultwarden", "b"),
        entry("immich", "c"),
    ]));
    app
}

#[test]
fn new_app_is_empty_and_follows() {
    let app = App::new();
    assert!(app.logs.is_empty());
    assert!(app.known_services.is_empty());
    assert_eq!(app.table_state.selected(), None);
    assert_eq!(app.active_filter, 0);
    assert!(app.follow);
    assert!(!app.should_quit);
    assert_eq!(app.view, View::Table);
    assert_eq!(app.filter_name(), "All");
    assert_eq!(app.filtered_len(), 0);
}

#[test]
fn batch_registers_each_service_once_in_order() {
    let app = three_entries();
    assert_eq!(app.logs.len(), 3);
    assert_eq!(app.known_services, vec!["immich".to_string(), "vaultwarden".to_string()]);
    // following: the newest row is selected
    assert_eq!(app.table_state.selected(), Some(2));
}

#[test]
fn later_batch_appends_and_keeps_known_services_distinct() {
    let mut app = three_entries();
    app.update(batch(vec![entry("vaultwarden", "d"), entry("grafana", "e")]));
    assert_eq!(app.logs.len(), 5);
    assert_eq!(app.logs[0].message, "a");
    assert_eq!(app.logs[4].message, "e");
    assert_eq!(
        app.known_services,
        vec!["immich".to_string(), "vaultwarden".to_string(), "grafana".to_string()]
    );
    assert_eq!(app.table_state.selected(), Some(4));
}

#[test]
fn tab_filters_by_service_with_arrival_numbers() {
    let mut app = three_entries();
    app.update(Action::Input(KeyCode::Tab));
    assert_eq!(app.filter_name(), "immich");
    let rows = app.filtered_logs();
    let numbers: Vec<usize> = rows.iter().map(|(n, _)| *n).collect();
    assert_eq!(numbers, vec![1, 3]);
    assert_eq!(rows[1].1.message, "c");
    assert_eq!(app.filtered_len(), 2);
    // jumped to the newest visible row
    assert_eq!(app.table_state.selected(), Some(1));
    assert!(app.follow);

    app.update(Action::Input(KeyCode::Tab));
    assert_eq!(app.filter_name(), "vaultwarden");
    let rows = app.filtered_logs();
    assert_eq!(rows.len(), 1);
    assert_eq!(rows[0].0, 2);
    assert_eq!(app.table_state.selected(), Some(0));
}

#[test]
fn tab_cycles_back_to_all() {
    let mut app = three_entries();
    for _ in 0..3 {
        app.update(Action::Input(KeyCode::Tab));
    }
    assert_eq!(app.active_filter, 0);
    assert_eq!(app.filter_name(), "All");
    assert_eq!(app.filtered_len(), 3);
}

#[test]
fn up_and_down_move_the_selection() {
    let mut app = three_entries();
    app.update(Action::Input(KeyCode::Up));
    assert_eq!(app.table_state.selected(), Some(1));
    assert!(!app.follow);
    app.update(Action::Input(KeyCode::Up));
    app.update(Action::Input(KeyCode::Up));
    assert_eq!(app.table_state.selected(), Some(0));
    app.update(Action::Input(KeyCode::Down));
    assert_eq!(app.table_state.selected(), Some(1));
    assert!(!app.follow);
    app.update(Action::Input(KeyCode::Down));
    assert_eq!(app.table_state.selected(), Some(2));
    assert!(app.follow);
    app.update(Action::Input(KeyCode::Down));
    assert_eq!(app.table_state.selected(), Some(2));
    assert!(app.follow);
}

#[test]
fn navigation_on_empty_table_changes_nothing() {
    let mut app = App::new();
    app.update(Action::Input(KeyCode::Down));
    app.update(Action::Input(KeyCode::Up));
    assert_eq!(app.table_state.selected(), None);
    assert!(app.follow);
    app.update(Action::Input(KeyCode::Char(' ')));
    assert_eq!(app.table_state.selected(), None);
    assert!(app.follow);
}

#[test]
fn batch_without_follow_keeps_selection() {
    let mut app = three_entries();
    app.update(Action::Input(KeyCode::Up));
    app.update(batch(vec![entry("immich", "d")]));
    assert_eq!(app.table_state.selected(), Some(1));
    assert!(!app.follow);
    app.update(Action::Input(KeyCode::Char(' ')));
    assert_eq!(app.table_state.selected(), Some(3));
    assert!(app.follow);
}

#[test]
fn quit_by_key_or_action_stays() {
    let mut app = three_entries();
    app.update(Action::Input(KeyCode::Char('q')));
    assert!(app.should_quit);
    app.update(Action::Tick);
    app.update(Action::Input(KeyCode::Down));
    assert!(app.should_quit);

    let mut other = App::new();
    other.update(Action::Quit);
    assert!(other.should_quit);
}

#[test]
fn detail_view_needs_a_selection() {
    let mut app = App::new();
    app.update(Action::Input(KeyCode::Char('e')));
    assert_eq!(app.view, View::Table);

    let mut app = three_entries();
    app.update(Action::Input(KeyCode::Char('e')));
    assert_eq!(app.view, View::Detail);
    // navigation is ignored on the detail screen
    app.update(Action::Input(KeyCode::Up));
    assert_eq!(app.table_state.selected(), Some(2));
    app.update(Action::Input(KeyCode::Tab));
    assert_eq!(app.active_filter, 0);
    app.update(Action::Input(KeyCode::Esc));
    assert_eq!(app.view, View::Table);
    app.update(Action::Input(KeyCode::Char('e')));
    app.update(Action::Input(KeyCode::Backspace));
    assert_eq!(app.view, View::Table);
}

#[test]
fn selected_log_is_the_selected_visible_row() {
    let app = App::new();
    assert_eq!(app.selected_log(), None);

    let mut app = three_entries();
    assert_eq!(app.selected_log().map(|e| e.message), Some("c".to_string()));
    app.update(Action::Input(KeyCode::Tab));
    app.update(Action::Input(KeyCode::Tab));
    assert_eq!(app.selected_log().map(|e| e.message), Some("b".to_string()));
}

#[test]
fn other_packets_and_ticks_change_nothing() {
    let mut app = three_entries();
    app.update(Action::Network(NetworkPacket::HandshakeAck { accepted: true }));
    app.update(Action::Network(NetworkPacket::UpdateFilter { service: None }));
    app.update(Action::Tick);
    app.update(Action::Input(KeyCode::Other));
    assert_eq!(app.logs.len(), 3);
    assert_eq!(app.table_state.selected(), Some(2));
    assert!(app.follow);
    assert_eq!(app.view, View::Table);
}

#[test]
fn status_line_shows_counts_filter_and_live() {
    let mut app = three_entries();
    assert_eq!(status_line(&app), " Gader | 3/3 logs | Filter: All [LIVE] ");
    app.update(Action::Input(KeyCode::Tab));
    app.update(Action::Input(KeyCode::Up));
    assert_eq!(status_line(&app), " Gader | 2/3 logs | Filter: immich ");
}

#[test]
fn detail_title_numbers_the_selected_row() {
    let app = App::new();
    assert_eq!(detail_title(&app), " Log Detail  [#0] ");
    let app = three_entries();
    assert_eq!(detail_title(&app), " Log Detail  [#3] ");
}

#[test]
fn selection_stays_on_visible_rows_and_follow_means_newest() {
    let mut app = three_entries();
    let actions = [
        KeyCode::Tab, KeyCode::Up, KeyCode::Tab, KeyCode::Down, KeyCode::Char('e'),
        KeyCode::Esc, KeyCode::Tab, KeyCode::Up, KeyCode::Up, KeyCode::Tab, KeyCode::Char(' '),
    ];
    for key in actions {
        app.update(Action::Input(key));
        if let Some(i) = app.table_state.selected() {
            assert!(i < app.filtered_len());
        }
        if app.follow && app.filtered_len() > 0 {
            assert_eq!(app.table_state.selected(), Some(app.filtered_len() - 1));
        }
        if app.view == View::Detail {
            assert!(app.selected_log().is_some());
        }
        app.update(batch(vec![entry("vaultwarden", "more")]));
    }
}
