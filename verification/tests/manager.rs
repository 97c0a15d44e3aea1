//! The connection manager.

use connman::connman::{
    pick, tcp_container_name, tls_container_name, Built, Connman, ConnmanBuilder, Error, Id, Msg,
    PortRange, Reaction, TcpProxy, TlsProxy,
};
use connman::docker::{self, ContainerId, Env, ImageId, ImageOption};
use connman::id::HASH_KEY;
use connman::proxy::{CleanupStep, ProxyId, Route, TlsMsg};
use highway::{HighwayHash, HighwayHasher, Key};

fn image() -> ImageOption {
    ImageOption {
        always_pull: true,
        name: "web".to_string(),
        tag: "v1".to_string(),
        service_port: 5000,
        credentials: None,
    }
}

fn flag() -> Env {
    Env { key: "FLAG".to_string(), value: "flag{1}".to_string() }
}

fn built(tls: bool) -> Built {
    let mut builder = ConnmanBuilder::new();
    if tls {
        builder = builder.with_tls(vec![vec![1]], vec![2], "example.org".to_string());
    }
    match builder.with_docker("10.0.0.1".to_string(), 6969).build() {
        Ok(built) => built,
        Err(error) => panic!("{error:?}"),
    }
}

fn registered(connman: &mut Connman) -> Id {
    match connman.handle_message(Msg::RegisterImage(image())) {
        Reaction::PullAll { backends, image_id } => {
            assert_eq!(backends, vec![0]);
            assert!(image_id == ImageId::from(&image()));
            Id(image_id.value())
        }
        other => panic!("{other:?}"),
    }
}

fn tcp(image_id: Id) -> TcpProxy {
    TcpProxy {
        host: "proxy.example.org".to_string(),
        listen_port: 10_000,
        image_id,
        env: Some(flag()),
    }
}

fn tls(image: Id) -> TlsProxy {
    TlsProxy { host: "web".to_string(), image, env: None }
}

#[test]
fn range_hands_out_its_ports_in_order() {
    let mut range = PortRange::new(10, 13);
    assert!(range.has_free_port());
    assert_eq!(range.aquire_port(), Some(10));
    assert_eq!(range.aquire_port(), Some(11));
    assert_eq!(range.aquire_port(), Some(12));
    assert!(!range.has_free_port());
    assert_eq!(range.aquire_port(), None);
    assert_eq!(range.aquire_port(), None);
}

#[test]
fn released_port_is_handed_out_again() {
    let mut range = PortRange::new(10, 13);
    range.aquire_port();
    range.aquire_port();
    range._release_port(10);
    assert_eq!(range.aquire_port(), Some(10));
    range._release_port(14);
    assert_eq!(range.aquire_port(), Some(12));
    assert_eq!(range.aquire_port(), None);
}

#[test]
fn range_reaches_the_last_port() {
    let mut range = PortRange::new(65_533, 65_535);
    assert_eq!(range.aquire_port(), Some(65_533));
    assert_eq!(range.aquire_port(), Some(65_534));
    assert_eq!(range.aquire_port(), None);
}

#[test]
fn manager_needs_a_docker_host() {
    let result = ConnmanBuilder::new().build();
    match result {
        Err(error) => assert_eq!(error.to_string(), "No Docker backend configured!"),
        Ok(_) => panic!("built without a Docker host"),
    }
}

#[test]
fn everything_is_built() {
    let built = built(true);
    let listener = built.tls.unwrap();
    assert_eq!(listener.start().port, 443);
    assert_eq!(*listener.cert(), vec![vec![1]]);
    assert_eq!(*listener.key(), vec![2]);
    assert_eq!(built.docker.len(), 1);
    assert_eq!(built.docker[0].addr(), "http://10.0.0.1:6969");
    assert!(built.connman.images().ids().is_empty());
    assert!(built.connman.proxies().ids().is_empty());
    assert!(self::built(false).tls.is_none());
}

#[test]
fn pick_stays_among_the_hosts() {
    assert_eq!(pick(0, 3), 0);
    assert_eq!(pick(5, 3), 2);
    assert_eq!(pick(usize::MAX, 1), 0);
}

#[test]
fn choice_of_a_host_is_random() {
    let builder = ConnmanBuilder::new()
        .with_docker("10.0.0.1".to_string(), 1)
        .with_docker("10.0.0.2".to_string(), 1);
    let mut connman = builder.build().ok().unwrap().connman;
    let id = image_id_on(&mut connman, 2);
    let mut seen = [false, false];
    for _ in 0..200 {
        seen[connman.handle_tcp_proxy(tcp(id)).ok().unwrap().backend] = true;
    }
    assert_eq!(seen, [true, true]);
}

/// Registers the image with a manager of `count` Docker hosts.
fn image_id_on(connman: &mut Connman, count: usize) -> Id {
    match connman.handle_message(Msg::RegisterImage(image())) {
        Reaction::PullAll { backends, image_id } => {
            assert_eq!(backends, (0..count).collect::<Vec<usize>>());
            Id(image_id.value())
        }
        other => panic!("{other:?}"),
    }
}

#[test]
fn image_is_pulled_on_every_host() {
    let builder = ConnmanBuilder::new()
        .with_docker("10.0.0.1".to_string(), 1)
        .with_docker("10.0.0.2".to_string(), 1)
        .with_docker("10.0.0.3".to_string(), 1);
    let mut connman = builder.build().ok().unwrap().connman;
    assert_eq!(image_id_on(&mut connman, 3), Id(ImageId::from(&image()).value()));
    assert_eq!(image_id_on(&mut connman, 3), Id(ImageId::from(&image()).value()));
    assert_eq!(connman.images().ids().len(), 1);
}

#[test]
fn plain_proxy_is_deployed() {
    let mut connman = built(false).connman;
    let id = registered(&mut connman);
    let deployment = match connman.handle_message(Msg::TcpProxy(tcp(id))) {
        Reaction::DeployTcp(deployment) => deployment,
        other => panic!("{other:?}"),
    };
    assert_eq!(deployment.backend, 0);
    assert_eq!(deployment.docker_host, "10.0.0.1");
    assert_eq!(deployment.docker_image, "web:v1");
    assert_eq!(deployment.container.port, 30_000);
    assert!(deployment.container.env == Some(flag()));
    assert_eq!(deployment.container.container_name, tcp_container_name(&tcp(id)));
    let container_id = ContainerId::from(&deployment.container);
    let deployed = connman.tcp_container_created(deployment, container_id.clone());
    assert_eq!(deployed.url.host, "proxy.example.org");
    assert_eq!(deployed.url.port, 10_000);
    let proxy = deployed.listener.proxy();
    assert!(proxy.container_id() == container_id);
    assert_eq!(proxy.port(), 30_000);
    assert_eq!(proxy.host(), "10.0.0.1");
    assert!(deployed.proxy_id == ProxyId::from(proxy));
    assert_eq!(deployed.info.id, deployed.proxy_id.value());
    assert_eq!(deployed.info.host_port, 10_000);
    assert_eq!(deployed.info.docker_image, "web:v1");
    assert_eq!(deployed.info.docker_host, "10.0.0.1");
    assert_eq!(deployed.info.docker_port, 30_000);
    assert!(connman.proxies().ids() == vec![deployed.proxy_id]);
}

#[test]
fn unknown_image_is_refused_without_a_port() {
    let mut connman = built(false).connman;
    match connman.handle_message(Msg::TcpProxy(tcp(Id(1)))) {
        Reaction::Refuse(error) => assert_eq!(error.to_string(), "Invalid ImageId"),
        other => panic!("{other:?}"),
    }
    let id = registered(&mut connman);
    assert_eq!(connman.plan_tcp_proxy(0, tcp(id)).ok().unwrap().container.port, 30_000);
}

#[test]
fn ports_of_a_host_run_out() {
    let mut connman = built(true).connman;
    let id = registered(&mut connman);
    for port in 30_000..60_000u16 {
        assert_eq!(connman.plan_tcp_proxy(0, tcp(id)).ok().unwrap().container.port, port);
    }
    match connman.handle_tcp_proxy(tcp(id)) {
        Err(error) => assert_eq!(error.to_string(), "No port left on docker host"),
        Ok(deployment) => panic!("{deployment:?}"),
    }
    assert!(matches!(connman.handle_tls_proxy(tls(id)), Err(Error::NoPortLeft)));
}

#[test]
fn encrypted_proxy_is_deployed() {
    let mut built = built(true);
    let mut listener = built.tls.unwrap();
    let connman = &mut built.connman;
    let id = registered(connman);
    let deployment = match connman.handle_message(Msg::TlsProxy(tls(id))) {
        Reaction::DeployTls(deployment) => deployment,
        other => panic!("{other:?}"),
    };
    assert_eq!(deployment.container.port, 30_000);
    assert_eq!(deployment.container.container_name, tls_container_name(&tls(id)));
    let container_id = ContainerId::from(&deployment.container);
    let deployed = connman.tls_container_created(deployment, container_id);
    assert_eq!(deployed.url.host, "web");
    assert_eq!(deployed.url.port, 443);
    assert!(matches!(
        &deployed.route,
        TlsMsg::Add(host, id) if host == "web" && *id == deployed.proxy_id
    ));
    listener.handle_tls_msg(deployed.route);
    let route = listener.handle_connection(Some("web.example.org"), connman.proxies());
    assert!(matches!(route, Route::Serve(proxy) if proxy == deployed.proxy));
}

#[test]
fn encrypted_proxy_needs_a_listener_and_an_image() {
    let mut plain = built(false).connman;
    let id = registered(&mut plain);
    match plain.handle_message(Msg::TlsProxy(tls(id))) {
        Reaction::Refuse(error) => assert_eq!(error.to_string(), "TLS Listener not configured"),
        other => panic!("{other:?}"),
    }
    assert_eq!(plain.plan_tcp_proxy(0, tcp(id)).ok().unwrap().container.port, 30_001);
    let mut encrypted = built(true).connman;
    assert!(matches!(encrypted.handle_tls_proxy(tls(Id(1))), Err(Error::InvalidImageId)));
}

#[test]
fn deployed_proxy_is_removed_once() {
    let mut connman = built(false).connman;
    let id = registered(&mut connman);
    let deployment = connman.plan_tcp_proxy(0, tcp(id)).ok().unwrap();
    let container_id = ContainerId::from(&deployment.container);
    let deployed = connman.tcp_container_created(deployment, container_id);
    let number = Id(deployed.proxy_id.value());
    match connman.handle_message(Msg::StopProxy(number)) {
        Reaction::Cleanup { proxy_id, proxy } => {
            assert!(proxy_id == deployed.proxy_id);
            assert!(proxy == *deployed.listener.proxy());
        }
        other => panic!("{other:?}"),
    }
    match connman.handle_message(Msg::StopProxy(number)) {
        Reaction::Refuse(error) => assert_eq!(error.to_string(), "Invalid ProxyId"),
        other => panic!("{other:?}"),
    }
    match connman.stop_proxy(&deployed.proxy_id) {
        Err(error) => assert_eq!(error.to_string(), "ProxyId not found"),
        Ok(proxy) => panic!("{proxy:?}"),
    }
}

#[test]
fn outcome_of_a_pull_is_the_answer() {
    let id = ImageId::from(&image());
    let number = Id(id.value());
    let all = vec![Ok(id.clone()), Ok(id.clone())];
    assert_eq!(Connman::image_pulled(&id, all).ok().unwrap(), number);
    let failed = vec![
        Ok(id.clone()),
        Err(docker::Error::Pull("denied".to_string())),
        Err(docker::Error::ImageNotFound),
    ];
    let error = Connman::image_pulled(&id, failed).err().unwrap();
    assert_eq!(error.to_string(), "Pull Error: denied");
    let failed = vec![Err(docker::Error::ImageNotFound), Ok(id.clone())];
    let error = Connman::image_pulled(&id, failed).err().unwrap();
    assert_eq!(error.to_string(), "Image not found in the Internal Registry Map");
}

#[test]
fn plain_container_is_named_after_its_request() {
    let option = tcp(Id(17));
    let mut hasher = HighwayHasher::new(Key(HASH_KEY));
    hasher.append(&17u64.to_le_bytes());
    hasher.append(&10_000u16.to_le_bytes());
    hasher.append(b"FLAG\xff");
    hasher.append(b"flag{1}");
    assert_eq!(tcp_container_name(&option), hasher.finalize64().to_string());
    let mut elsewhere = option.clone();
    elsewhere.host = "other".to_string();
    assert_eq!(tcp_container_name(&elsewhere), tcp_container_name(&option));
    let mut plain = option.clone();
    plain.env = None;
    assert_ne!(tcp_container_name(&plain), tcp_container_name(&option));
    let mut hasher = HighwayHasher::new(Key(HASH_KEY));
    hasher.append(&17u64.to_le_bytes());
    hasher.append(&10_000u16.to_le_bytes());
    assert_eq!(tcp_container_name(&plain), hasher.finalize64().to_string());
}

#[test]
fn encrypted_container_is_named_after_its_request() {
    let mut hasher = HighwayHasher::new(Key(HASH_KEY));
    hasher.append(&17u64.to_le_bytes());
    hasher.append(b"web");
    assert_eq!(tls_container_name(&tls(Id(17))), hasher.finalize64().to_string());
    let mut hasher = HighwayHasher::new(Key(HASH_KEY));
    hasher.append(&17u64.to_le_bytes());
    hasher.append(b"web");
    hasher.append(b"FLAG");
    hasher.append(b"flag{1}");
    let option = TlsProxy { env: Some(flag()), ..tls(Id(17)) };
    assert_eq!(tls_container_name(&option), hasher.finalize64().to_string());
}

#[test]
fn deployments_on_one_host_have_their_own_ports() {
    let mut connman = built(true).connman;
    let id = registered(&mut connman);
    let first = connman.plan_tcp_proxy(0, tcp(id)).ok().unwrap();
    connman.handle_message(Msg::TcpProxy(tcp(Id(1))));
    let between = connman.plan_tls_proxy(0, 0, tls(id)).ok().unwrap();
    connman.handle_message(Msg::StopProxy(Id(1)));
    let last = connman.plan_tcp_proxy(0, tcp(id)).ok().unwrap();
    assert_eq!(first.container.port, 30_000);
    assert_eq!(between.container.port, 30_001);
    assert_eq!(last.container.port, 30_002);
}

#[test]
fn hosts_have_their_own_ports() {
    let builder = ConnmanBuilder::new()
        .with_docker("10.0.0.1".to_string(), 1)
        .with_docker("10.0.0.2".to_string(), 1);
    let mut connman = builder.build().ok().unwrap().connman;
    let id = image_id_on(&mut connman, 2);
    let one = connman.plan_tcp_proxy(0, tcp(id)).ok().unwrap();
    let other = connman.plan_tcp_proxy(1, tcp(id)).ok().unwrap();
    assert_eq!((one.container.port, one.docker_host), (30_000, "10.0.0.1".to_string()));
    assert_eq!((other.container.port, other.docker_host), (30_000, "10.0.0.2".to_string()));
}

#[test]
fn names_of_unequal_requests_differ() {
    let env = |key: &str, value: &str| {
        Some(Env { key: key.to_string(), value: value.to_string() })
    };
    let plain = |env| TcpProxy { env, ..tcp(Id(17)) };
    assert_ne!(
        tcp_container_name(&plain(env("a", "bc"))),
        tcp_container_name(&plain(env("ab", "c")))
    );
    assert_ne!(tcp_container_name(&plain(env("", ""))), tcp_container_name(&plain(None)));
    let encrypted = |host: &str| TlsProxy { host: host.to_string(), image: Id(17), env: None };
    assert_ne!(tls_container_name(&encrypted("a")), tls_container_name(&encrypted("b")));
    let other = TlsProxy { image: Id(18), ..encrypted("a") };
    assert_ne!(tls_container_name(&encrypted("a")), tls_container_name(&other));
}

#[test]
fn ended_listener_removes_its_proxy() {
    let mut connman = built(false).connman;
    let id = registered(&mut connman);
    let deployment = connman.plan_tcp_proxy(0, tcp(id)).ok().unwrap();
    let container_id = ContainerId::from(&deployment.container);
    let deployed = connman.tcp_container_created(deployment, container_id.clone());
    for _ in 0..2 {
        let step = connman.listener_ended(&deployed.proxy_id, deployed.listener.proxy());
        assert!(matches!(
            step,
            CleanupStep::StopContainer(docker::Msg::Stop(stopped)) if stopped == container_id
        ));
        assert!(connman.proxies().is_valid(deployed.proxy_id.value()).is_none());
    }
}

#[test]
fn listeners_await_connections_on_the_proxy_host() {
    let builder = ConnmanBuilder::new()
        .with_proxy_host("192.0.2.1".to_string())
        .with_tls(vec![vec![1]], vec![2], "example.org".to_string())
        .with_docker("10.0.0.1".to_string(), 6969);
    let mut built = builder.build().ok().unwrap();
    assert_eq!(built.tls.unwrap().start().address, "192.0.2.1");
    let id = registered(&mut built.connman);
    let request = TcpProxy { host: "192.0.2.1".to_string(), ..tcp(id) };
    let deployment = built.connman.plan_tcp_proxy(0, request).ok().unwrap();
    let container_id = ContainerId::from(&deployment.container);
    let deployed = built.connman.tcp_container_created(deployment, container_id);
    let plan = deployed.listener.start().1;
    assert_eq!((plan.address.as_str(), plan.port), ("192.0.2.1", 10_000));
    assert_eq!(deployed.url.host, "192.0.2.1");
    assert_eq!(self::built(true).tls.unwrap().start().address, "0.0.0.0");
}
