//! The terminal interface.

use connman::tui::{App, KeyCode, KeyEvent, KeyEventKind, LogInfo, Msg, ProxyInfo};

fn info(id: u64) -> ProxyInfo {
    ProxyInfo {
        id,
        host_port: 10_000,
        docker_image: "web:v1".to_string(),
        docker_host: "10.0.0.1".to_string(),
        docker_port: 30_000,
    }
}

fn line(id: u64, text: &str) -> Msg {
    Msg::Log(LogInfo { id, log: text.to_string() })
}

fn press(code: KeyCode) -> KeyEvent {
    KeyEvent { code, kind: KeyEventKind::Press }
}

fn app_with(ids: &[u64]) -> App {
    let mut app = App::default();
    for id in ids {
        app.handle_message(Msg::Proxy(info(*id)));
    }
    app
}

#[test]
fn proxies_are_laid_out() {
    let table = app_with(&[17]).proxy_table();
    assert_eq!(table.header, vec!["Container Name", "Docker Image", "Mapping"]);
    let rows = table.rows;
    assert_eq!(rows.len(), 1);
    assert_eq!(rows[0].container_name, "connman-17");
    assert_eq!(rows[0].docker_image, "web:v1");
    assert_eq!(rows[0].mapping, "10000 -> 10.0.0.1:30000");
}

#[test]
fn log_of_the_selected_proxy_is_shown() {
    let mut app = app_with(&[1, 2]);
    app.handle_message(line(1, "a"));
    app.handle_message(line(2, "b"));
    app.handle_message(line(1, "c"));
    assert!(app.log_lines().is_empty());
    app.handle_event(press(KeyCode::Down));
    assert_eq!(app.selected(), Some(0));
    assert_eq!(app.log_lines(), vec!["a".to_string(), "c".to_string()]);
    app.handle_event(press(KeyCode::Down));
    assert_eq!(app.log_lines(), vec!["b".to_string()]);
}

#[test]
fn removed_proxy_is_not_shown() {
    let mut app = app_with(&[1, 2, 1]);
    app.handle_message(line(1, "a"));
    app.handle_message(line(2, "b"));
    app.handle_event(press(KeyCode::Down));
    app.handle_message(Msg::Remove(1));
    assert_eq!(app.proxy_table().rows.len(), 1);
    assert_eq!(app.proxy_table().rows[0].container_name, "connman-2");
    assert!(app.log_lines().is_empty());
    app.handle_event(press(KeyCode::Down));
    assert_eq!(app.log_lines(), vec!["b".to_string()]);
}

#[test]
fn selection_wraps_around() {
    let mut app = app_with(&[1, 2, 3]);
    app.scroll_up();
    assert_eq!(app.selected(), Some(0));
    app.scroll_up();
    assert_eq!(app.selected(), Some(2));
    app.scroll_down();
    assert_eq!(app.selected(), Some(0));
    app.scroll_down();
    assert_eq!(app.selected(), Some(1));
    app.scroll_up();
    assert_eq!(app.selected(), Some(0));
}

#[test]
fn row_beyond_the_table_is_left_downwards() {
    let mut app = app_with(&[1]);
    app.select(Some(5));
    app.scroll_up();
    assert_eq!(app.selected(), Some(4));
    app.scroll_down();
    assert_eq!(app.selected(), Some(0));
}

#[test]
fn empty_table_has_no_row_to_move_to() {
    let mut app = App::new();
    assert!(app.can_handle_key(KeyCode::Down));
    assert!(app.can_handle_key(KeyCode::Up));
    app.scroll_down();
    assert_eq!(app.selected(), Some(0));
    assert!(!app.can_handle_key(KeyCode::Down));
    assert!(!app.can_handle_key(KeyCode::Up));
    assert!(app.can_handle_key(KeyCode::Char('q')));
    app.select(Some(3));
    assert!(app.can_handle_key(KeyCode::Up));
    assert!(!app.can_handle_key(KeyCode::Down));
}

#[test]
fn only_a_press_of_q_quits() {
    let mut app = App::new();
    app.handle_event(press(KeyCode::Char('x')));
    app.handle_event(press(KeyCode::Other));
    app.handle_event(KeyEvent { code: KeyCode::Char('q'), kind: KeyEventKind::Release });
    app.handle_event(KeyEvent { code: KeyCode::Char('q'), kind: KeyEventKind::Repeat });
    assert!(!app.has_exited());
    app.handle_key_event(press(KeyCode::Char('q')));
    assert!(app.has_exited());
}
