//! Proxies, their connections and their listeners.

use connman::docker::{ContainerId, ContainerOption, Env, ImageId, ImageOption, Msg};
use connman::proxy::{
    prepare_socket, ActiveConn, CleanupStep, ConnTrack, Connection, ConnectionStep,
    FlagTransformer, ListenerAction, ListenerEvent, Proxy, ProxyId, ProxyRegistry, Route,
    TcpListener, TlsListener, TlsMsg, TrackAction, IDLE_TIMEOUT_NANOS, MAX_TRIES,
    TRACK_INTERVAL_NANOS,
};
use connman::tui;

const SECOND: u128 = 1_000_000_000;

fn container(name: &str) -> ContainerId {
    let image = ImageOption {
        always_pull: true,
        name: "web".to_string(),
        tag: "v1".to_string(),
        service_port: 5000,
        credentials: None,
    };
    ContainerId::from(&ContainerOption {
        image_id: ImageId::from(&image),
        container_name: name.to_string(),
        env: None,
        port: 30_000,
    })
}

fn proxy(name: &str) -> Proxy {
    let env = Env { key: "FLAG".to_string(), value: "flag{1}".to_string() };
    Proxy::new(container(name), 30_000, "10.0.0.1".to_string(), Some(env))
}

fn is_stop(action: &TrackAction, id: &ContainerId) -> bool {
    matches!(action, TrackAction::Stop(Msg::Stop(stopped)) if stopped == id)
}

#[test]
fn connection_starts_the_container() {
    let proxy = proxy("7");
    let (msg, flag) = proxy.run();
    assert!(matches!(msg, Msg::Start(id) if id == container("7")));
    assert_eq!(flag, b"flag{1}".to_vec());
    let plain = Proxy::new(container("7"), 30_000, "10.0.0.1".to_string(), None);
    assert!(plain.run().1.is_empty());
    assert_eq!(plain.port(), 30_000);
    assert_eq!(plain.host(), "10.0.0.1");
    assert!(plain.container_id() == container("7"));
}

#[test]
fn proxies_compare_by_all_fields() {
    assert!(proxy("7") == proxy("7").clone());
    assert!(proxy("7") != proxy("8"));
    assert!(ProxyId::from(&proxy("7")) != ProxyId::from(&proxy("8")));
    let plain = Proxy::new(container("7"), 30_000, "10.0.0.1".to_string(), None);
    assert!(proxy("7") != plain);
    let moved = Proxy::new(container("7"), 30_001, "10.0.0.1".to_string(), None);
    assert!(plain != moved);
}

#[test]
fn cleanup_stops_tells_and_cancels() {
    let proxy = proxy("7");
    let id = ProxyId::from(&proxy).value();
    assert!(matches!(
        proxy.cleanup(),
        CleanupStep::StopContainer(Msg::Stop(stopped)) if stopped == container("7")
    ));
    assert!(matches!(
        proxy.stop_sent(Ok(()), true),
        CleanupStep::RemoveFromTui(tui::Msg::Remove(removed)) if removed == id
    ));
    assert!(matches!(proxy.stop_sent(Ok(()), false), CleanupStep::Cancel));
    assert!(matches!(Proxy::tui_told(Ok(())), CleanupStep::Cancel));
}

#[test]
fn cleanup_fails_with_its_first_failure() {
    let failed = proxy("7").stop_sent(Err("closed".to_string()), true);
    assert!(matches!(failed, CleanupStep::Failed(text) if text == "closed"));
    let failed = Proxy::tui_told(Err("no interface".to_string()));
    assert!(matches!(failed, CleanupStep::Failed(text) if text == "no interface"));
}

#[test]
fn lines_name_the_container() {
    let proxy = proxy("7");
    let head = format!("[Id({})] ", container("7").value());
    assert_eq!(
        proxy.opened_line("1.2.3.4:5"),
        format!("{head}Got Connection from: 1.2.3.4:5")
    );
    assert_eq!(
        proxy.closed_line("1.2.3.4:5"),
        format!("{head}Closed Connection from: 1.2.3.4:5")
    );
    let info = proxy.tui_log("hello".to_string());
    assert_eq!(info.id, ProxyId::from(&proxy).value());
    assert_eq!(info.log, "hello");
}

#[test]
fn connections_are_counted() {
    let mut count = ActiveConn::new();
    assert_eq!(count.load(), 0);
    count.inc();
    count.inc();
    assert_eq!(count.load(), 2);
    count.dec();
    assert_eq!(count.load(), 1);
    count.dec();
    count.dec();
    assert_eq!(count.load(), u64::MAX);
    count.inc();
    assert_eq!(count.load(), 0);
}

#[test]
fn connection_is_tried_a_limited_number_of_times() {
    let mut count = ActiveConn::new();
    let mut connection = Connection::new();
    for n in 0..MAX_TRIES {
        assert_eq!(connection.tries(), n);
        assert_eq!(connection.next(), ConnectionStep::Connect);
        assert_eq!(connection.connected(false, &mut count), ConnectionStep::Wait(100));
        assert_eq!(count.load(), 0);
    }
    assert_eq!(connection.next(), ConnectionStep::Closed);
    assert_eq!(connection.tries(), 100);
}

#[test]
fn connection_counts_while_it_is_relayed() {
    let mut count = ActiveConn::new();
    let mut connection = Connection::new();
    assert_eq!(connection.next(), ConnectionStep::Connect);
    assert_eq!(connection.connected(true, &mut count), ConnectionStep::Relay(120));
    assert_eq!(count.load(), 1);
    assert_eq!(connection.relayed(&mut count), ConnectionStep::Closed);
    assert_eq!(count.load(), 0);
}

#[test]
fn idle_container_is_stopped_after_a_minute() {
    let id = container("7");
    let mut track = proxy("7").conn_track(0);
    assert_eq!(track.interval(), TRACK_INTERVAL_NANOS);
    assert_eq!(TRACK_INTERVAL_NANOS, 5 * SECOND);
    for n in 0..12u128 {
        assert!(matches!(track.tick(false, 0, n * 5 * SECOND), TrackAction::Sleep));
    }
    assert!(is_stop(&track.tick(false, 0, 60 * SECOND), &id));
}

#[test]
fn stop_is_repeated_only_after_another_idle_period() {
    let id = container("7");
    let mut track = ConnTrack::new(IDLE_TIMEOUT_NANOS, id.clone(), 0);
    assert!(is_stop(&track.tick(false, 0, 60 * SECOND), &id));
    track.stop_sent(61 * SECOND);
    assert!(matches!(track.tick(false, 0, 120 * SECOND), TrackAction::Sleep));
    assert!(is_stop(&track.tick(false, 0, 121 * SECOND), &id));
}

#[test]
fn connection_keeps_the_container_running() {
    let id = container("7");
    let mut track = ConnTrack::new(IDLE_TIMEOUT_NANOS, id.clone(), 0);
    assert!(matches!(track.tick(false, 1, 59 * SECOND), TrackAction::Sleep));
    assert!(matches!(track.tick(false, 0, 118 * SECOND), TrackAction::Sleep));
    assert!(is_stop(&track.tick(false, 0, 119 * SECOND), &id));
}

#[test]
fn cancelled_tracker_ends() {
    let mut track = ConnTrack::new(IDLE_TIMEOUT_NANOS, container("7"), 0);
    assert!(matches!(track.tick(true, 0, 600 * SECOND), TrackAction::Exit));
    assert!(matches!(track.tick(true, 3, 600 * SECOND), TrackAction::Exit));
}

#[test]
fn tracker_copes_with_a_clock_that_runs_back() {
    let mut track = ConnTrack::new(IDLE_TIMEOUT_NANOS, container("7"), 100 * SECOND);
    assert!(matches!(track.tick(false, 0, 0), TrackAction::Sleep));
}

#[test]
fn socket_is_planned() {
    let plan = prepare_socket("192.0.2.1", 443);
    assert_eq!(plan.address, "192.0.2.1");
    assert_eq!(plan.port, 443);
    assert_eq!(plan.keepalive_time, 10);
    assert_eq!(plan.keepalive_interval, 10);
    assert_eq!(plan.keepalive_retries, 3);
    assert_eq!(plan.user_timeout, 40);
    assert_eq!(plan.backlog, 128);
}

#[test]
fn plain_listener_logs_and_serves() {
    let listener = TcpListener::new(10_000, proxy("7"));
    let head = format!("[Id({})] ", container("7").value());
    let (line, plan) = listener.start();
    assert_eq!(line, format!("{head}Starting TCPListener on Port:\t10000"));
    assert_eq!(plan, prepare_socket("0.0.0.0", 10_000));
    assert!(*listener.proxy() == proxy("7"));
    match listener.handle(ListenerEvent::Accepted("1.2.3.4:5".to_string())) {
        ListenerAction::Serve { opened, closed } => {
            assert_eq!(opened, format!("{head}Got Connection from: 1.2.3.4:5"));
            assert_eq!(closed, format!("{head}Closed Connection from: 1.2.3.4:5"));
        }
        other => panic!("{other:?}"),
    }
    match listener.handle(ListenerEvent::Cancelled) {
        ListenerAction::Stop(line) => assert_eq!(line, "Stopping TCPListener on Port: 10000"),
        other => panic!("{other:?}"),
    }
}

fn tls_listener() -> TlsListener {
    TlsListener::new(443, vec![vec![1, 2]], vec![3], "example.org".to_string())
}

#[test]
fn added_host_is_routed() {
    let mut proxies = ProxyRegistry::new();
    let id = proxies.register(proxy("7"));
    let mut listener = tls_listener();
    assert_eq!(listener.start(), prepare_socket("0.0.0.0", 443));
    listener = listener.with_address("192.0.2.1".to_string());
    assert_eq!(listener.start(), prepare_socket("192.0.2.1", 443));
    assert_eq!(*listener.cert(), vec![vec![1, 2]]);
    assert_eq!(*listener.key(), vec![3]);
    listener.handle_tls_msg(TlsMsg::Add("web".to_string(), id));
    let route = listener.handle_connection(Some("web.example.org"), &proxies);
    assert!(matches!(route, Route::Serve(served) if served == proxy("7")));
    assert!(matches!(listener.handle_connection(Some("web"), &proxies), Route::Unknown));
    assert!(matches!(listener.handle_connection(None, &proxies), Route::NoServerName));
}

#[test]
fn host_that_is_added_again_is_routed_anew() {
    let mut proxies = ProxyRegistry::new();
    let first = proxies.register(proxy("7"));
    let second = proxies.register(proxy("8"));
    let mut listener = tls_listener();
    listener.handle_tls_msg(TlsMsg::Add("web".to_string(), first));
    listener.handle_tls_msg(TlsMsg::Add("web".to_string(), second));
    let route = listener.handle_connection(Some("web.example.org"), &proxies);
    assert!(matches!(route, Route::Serve(served) if served == proxy("8")));
}

#[test]
fn removed_proxy_is_not_routed() {
    let mut proxies = ProxyRegistry::new();
    let first = proxies.register(proxy("7"));
    let second = proxies.register(proxy("8"));
    let mut listener = tls_listener();
    listener.handle_tls_msg(TlsMsg::Add("a".to_string(), first.clone()));
    listener.handle_tls_msg(TlsMsg::Add("b".to_string(), second));
    listener.handle_tls_msg(TlsMsg::Add("c".to_string(), first.clone()));
    listener.handle_tls_msg(TlsMsg::Remove(first));
    for (name, routed) in [("a", false), ("b", true), ("c", false)] {
        let name = format!("{name}.example.org");
        let route = listener.handle_connection(Some(&name), &proxies);
        assert_eq!(matches!(route, Route::Serve(_)), routed);
        assert_eq!(matches!(route, Route::Unknown), !routed);
    }
}

#[test]
fn host_of_a_gone_proxy_is_forgotten() {
    let mut proxies = ProxyRegistry::new();
    let id = proxies.register(proxy("7"));
    let mut listener = tls_listener();
    listener.handle_tls_msg(TlsMsg::Add("web".to_string(), id.clone()));
    proxies.remove(&id);
    assert!(matches!(
        listener.handle_connection(Some("web.example.org"), &proxies),
        Route::Gone
    ));
    assert!(matches!(
        listener.handle_connection(Some("web.example.org"), &proxies),
        Route::Unknown
    ));
}

#[test]
fn flag_is_replaced_once() {
    let transformer = FlagTransformer::with_text(b"flag".to_vec(), b"xxxx".to_vec());
    let mut buffer = b"a flag, a flag".to_vec();
    transformer.poll_read(true, &mut buffer);
    assert_eq!(buffer, b"a xxxx, a flag".to_vec());
    transformer.poll_read(false, &mut buffer);
    assert_eq!(buffer, b"a xxxx, a flag".to_vec());
    let mut edge = b"flflag".to_vec();
    transformer.poll_read(true, &mut edge);
    assert_eq!(edge, b"flxxxx".to_vec());
    let mut short = b"fla".to_vec();
    transformer.poll_read(true, &mut short);
    assert_eq!(short, b"fla".to_vec());
}

#[test]
fn empty_flag_replaces_nothing() {
    let transformer = FlagTransformer::new(Vec::new());
    let mut buffer = b"flag".to_vec();
    transformer.poll_read(true, &mut buffer);
    assert_eq!(buffer, b"flag".to_vec());
}

#[test]
fn stand_in_is_random_letters_and_digits() {
    let flag = vec![0u8; 64];
    let transformer = FlagTransformer::new(flag.clone());
    let mut first = flag.clone();
    transformer.poll_read(true, &mut first);
    assert_eq!(first.len(), 64);
    assert!(first.iter().all(|byte| byte.is_ascii_alphanumeric()));
    let mut second = flag.clone();
    FlagTransformer::new(flag).poll_read(true, &mut second);
    assert_ne!(first, second);
}

#[test]
fn other_hosts_are_routed_as_before() {
    let mut proxies = ProxyRegistry::new();
    let first = proxies.register(proxy("7"));
    let second = proxies.register(proxy("8"));
    let mut listener = tls_listener();
    listener.handle_tls_msg(TlsMsg::Add("web".to_string(), first));
    listener.handle_tls_msg(TlsMsg::Add("web.example".to_string(), second));
    let route = listener.handle_connection(Some("web.example.org"), &proxies);
    assert!(matches!(route, Route::Serve(served) if served == proxy("7")));
    let route = listener.handle_connection(Some("web.example.example.org"), &proxies);
    assert!(matches!(route, Route::Serve(served) if served == proxy("8")));
}

#[test]
fn count_is_begun_less_ended() {
    let mut count = ActiveConn::new();
    let series = [true, true, false, true, true, false, false, true];
    let (mut begun, mut ended) = (0, 0);
    for begins in series {
        if begins {
            count.inc();
            begun += 1;
        } else {
            count.dec();
            ended += 1;
        }
        assert_eq!(count.load(), begun - ended);
        assert_eq!(count.load(), begun - ended);
    }
    assert_eq!(count.load(), 2);
}
