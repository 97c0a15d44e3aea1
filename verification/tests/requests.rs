//! Requests of clients.

use connman::connman::{Id, Msg, Url};
use connman::docker::{ImageOption, ImageRegistry};
use connman::server::{
    add_proxy_response, proxy_added, register_image_response, remove_proxy_response,
    reply_log, AddProxyRequest, AddProxyResult, AddTlsListenerRequest, ImplConnMan,
    RegisterImageRequest, RegisterImageResult, RemoveProxyRequest, RemoveProxyResult, Replay,
    RequestType,
};

fn registration() -> RegisterImageRequest {
    RegisterImageRequest {
        image: "aswinmguptha/flashy_machine".to_string(),
        tag: "latest".to_string(),
        port: 5000,
    }
}

fn request(id: u64, key: Option<&str>, value: Option<&str>) -> AddProxyRequest {
    AddProxyRequest {
        id,
        env_key: key.map(str::to_string),
        env_value: value.map(str::to_string),
    }
}

fn image_of(msg: Msg) -> ImageOption {
    match msg {
        Msg::RegisterImage(option) => option,
        other => panic!("{other:?}"),
    }
}

#[test]
fn registration_becomes_an_image() {
    let server = ImplConnMan::new("proxy.example.org".to_string());
    let (entry, msg) = server.register_image(registration());
    assert!(matches!(
        entry,
        RequestType::RegisterImage(logged) if logged.image == "aswinmguptha/flashy_machine"
    ));
    let option = image_of(msg);
    assert!(option.always_pull);
    assert_eq!(option.name, "aswinmguptha/flashy_machine");
    assert_eq!(option.tag, "latest");
    assert_eq!(option.service_port, 5000);
    assert!(option.credentials.is_none());
}

#[test]
fn port_of_an_image_is_cut() {
    let server = ImplConnMan::new(String::new());
    let mut wide = registration();
    wide.port = 65_536 + 80;
    assert_eq!(image_of(server.register_image(wide).1).service_port, 80);
}

#[test]
fn proxy_is_asked_for() {
    let mut images = ImageRegistry::new();
    let mut server = ImplConnMan::new("proxy.example.org".to_string());
    assert_eq!(server.proxy_host(), "proxy.example.org");
    let image = image_of(server.register_image(registration()).1);
    let id = images.register(image).value();
    assert_eq!(id, 6387861277925541461);
    let asked = request(id, Some("VALUE"), Some("falg{6387861277925541461}"));
    assert!(server.has_port());
    let (entry, msg) = server.add_proxy(asked, &images);
    assert!(matches!(entry, RequestType::AddProxy(logged, 10_000) if logged.id == id));
    match msg {
        Ok(Msg::TcpProxy(option)) => {
            assert_eq!(option.host, "proxy.example.org");
            assert_eq!(option.listen_port, 10_000);
            assert_eq!(option.image_id, Id(id));
            let env = option.env.unwrap();
            assert_eq!(env.to_string(), "VALUE=falg{6387861277925541461}");
        }
        other => panic!("{other:?}"),
    }
}

#[test]
fn half_a_variable_is_none() {
    let mut images = ImageRegistry::new();
    let mut server = ImplConnMan::new(String::new());
    let id = images.register(image_of(server.register_image(registration()).1)).value();
    for (key, value) in [(Some("A"), None), (None, Some("b")), (None, None)] {
        let asked = request(id, key, value);
        match server.add_proxy(asked, &images).1 {
            Ok(Msg::TcpProxy(option)) => assert!(option.env.is_none()),
            other => panic!("{other:?}"),
        }
    }
}

#[test]
fn proxy_of_an_unknown_image_is_refused() {
    let mut server = ImplConnMan::new(String::new());
    let images = ImageRegistry::new();
    let (entry, refused) = server.add_proxy(request(1, None, None), &images);
    assert!(matches!(entry, RequestType::AddProxy(_, 10_000)));
    assert_eq!(refused.err().unwrap(), "Invalid ImageId");
    let (entry, _) = server.add_proxy(request(1, None, None), &images);
    assert!(matches!(entry, RequestType::AddProxy(_, 10_001)));
}

#[test]
fn ports_of_the_proxies_run_out() {
    let mut server = ImplConnMan::new(String::new());
    let images = ImageRegistry::new();
    for _ in 10_000..30_000 {
        assert!(server.has_port());
        server.add_proxy(request(1, None, None), &images);
    }
    assert!(!server.has_port());
}

#[test]
fn removal_names_the_proxy_that_was_answered() {
    let server = ImplConnMan::new(String::new());
    let url = Url { host: "proxy.example.org".to_string(), port: 10_000 };
    let proxy = proxy_added(Id(17), url);
    assert_eq!(proxy.host, "proxy.example.org");
    assert_eq!(proxy.port, "10000");
    let (entry, msg) = server.remove_proxy(RemoveProxyRequest { id: proxy.proxy_id });
    assert!(matches!(entry, RequestType::RemoveProxy(RemoveProxyRequest { id: 17 })));
    assert!(matches!(msg, Msg::StopProxy(Id(17))));
}

#[test]
fn requests_are_answered() {
    let response = register_image_response(Ok(Id(7)));
    assert!(!response.ok);
    assert!(matches!(response.response, Some(RegisterImageResult::Id(7))));
    let response = register_image_response(Err("no".to_string()));
    assert!(!response.ok);
    assert!(matches!(response.response, Some(RegisterImageResult::Error(text)) if text == "no"));

    let proxy = proxy_added(Id(7), Url { host: "a".to_string(), port: 1 });
    let response = add_proxy_response(Ok(proxy));
    assert!(response.ok);
    assert!(matches!(response.response, Some(AddProxyResult::Proxy(proxy)) if proxy.proxy_id == 7));
    let response = add_proxy_response(Err("no".to_string()));
    assert!(!response.ok);
    assert!(matches!(response.response, Some(AddProxyResult::Error(text)) if text == "no"));

    let response = remove_proxy_response(Ok(Id(7)));
    assert!(response.ok);
    assert!(matches!(response.response, Some(RemoveProxyResult::Id(7))));
    let response = remove_proxy_response(Err("no".to_string()));
    assert!(!response.ok);
    assert!(matches!(response.response, Some(RemoveProxyResult::Error(text)) if text == "no"));
}

#[test]
fn log_is_replayed_in_order() {
    let log = vec![
        RequestType::RegisterImage(registration()),
        RequestType::AddProxy(request(5, Some("A"), Some("b")), 10_003),
        RequestType::RemoveProxy(RemoveProxyRequest { id: 9 }),
    ];
    let replayed = reply_log(log);
    assert!(replayed.complete);
    let mut replays = replayed.replays.into_iter();
    match replays.next() {
        Some(Replay::Send(msg)) => assert_eq!(image_of(msg).tag, "latest"),
        other => panic!("{other:?}"),
    }
    match replays.next() {
        Some(Replay::AddProxy(asked, port)) => {
            assert_eq!(asked.id, 5);
            assert_eq!(asked.env_key, Some("A".to_string()));
            assert_eq!(port, 10_003);
        }
        other => panic!("{other:?}"),
    }
    assert!(matches!(replays.next(), Some(Replay::Send(Msg::StopProxy(Id(9))))));
    assert!(replays.next().is_none());
}

#[test]
fn log_is_replayed_up_to_a_listener_for_encrypted_connections() {
    let log = vec![
        RequestType::RemoveProxy(RemoveProxyRequest { id: 9 }),
        RequestType::AddTlsListener(AddTlsListenerRequest {}),
        RequestType::RegisterImage(registration()),
    ];
    let replayed = reply_log(log);
    assert!(!replayed.complete);
    assert_eq!(replayed.replays.len(), 1);
    assert!(matches!(replayed.replays[0], Replay::Send(Msg::StopProxy(Id(9)))));
    let empty = reply_log(Vec::new());
    assert!(empty.complete && empty.replays.is_empty());
}
