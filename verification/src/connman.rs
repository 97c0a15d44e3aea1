//! The connection manager: ports, deployments and the registries of images and proxies.

use vstd::prelude::*;
use vstd::string::*;

use crate::docker;
use crate::docker::{
    clone_env, configures, law_container_is_configured_as_asked, same_env, ContainerConfig,
    ContainerId, ContainerOption, DockerMan, Env, ImageId, ImageOption, ImageRegistry,
};
use crate::id::{
    hash, hash_of, id_of, law_le_bytes_delimited, law_le_bytes_len, law_text_bytes_delimited,
    law_utf8_of_joined_text, le_bytes, push_le, push_text, push_utf8, registered, span, text_bytes,
    Identity,
};
use crate::proxy::{
    below, cleanup_start, route_for, routes_after, CleanupStep, Proxy, ProxyId, ProxyRegistry,
    Route, TcpListener, TlsListener, TlsMsg, ANY_ADDRESS,
};
use crate::text;
use crate::text::{decimal, law_decimal_injective, law_decimal_reads_back, number_of};
use crate::tui;
use crate::tui::{after_message, law_removed_proxy_is_gone, AppView, ProxyInfo};

verus! {

/// Port on which encrypted connections arrive.
pub const TLS_PORT: u16 = 443;

/// First port of a Docker host that a container is bound to.
pub const DOCKER_PORT_START: u16 = 30_000;

/// Port after the last one of a Docker host that a container is bound to.
pub const DOCKER_PORT_END: u16 = 60_000;

/// A range of ports and which of them are taken.
#[verifier::ext_equal]
pub struct PortRangeView {
    /// First port of the range.
    pub start: u16,
    /// Port after the last one of the range.
    pub end: u16,
    /// Ports of the range that are taken.
    pub taken: Set<u16>,
}

impl PortRangeView {
    /// Whether `port` belongs to the range.
    pub open spec fn holds(self, port: u16) -> bool {
        self.start <= port < self.end
    }

    /// Whether `port` can be handed out.
    pub open spec fn is_free(self, port: u16) -> bool {
        self.holds(port) && !self.taken.contains(port)
    }

    /// Whether `port` is the lowest that can be handed out.
    pub open spec fn is_lowest_free(self, port: u16) -> bool {
        self.is_free(port) && forall|q: u16| q < port ==> !#[trigger] self.is_free(q)
    }

    /// Whether no port can be handed out.
    pub open spec fn is_exhausted(self) -> bool {
        forall|q: u16| !#[trigger] self.is_free(q)
    }

    /// The range with `port` taken.
    pub open spec fn take_port(self, port: u16) -> PortRangeView {
        PortRangeView { taken: self.taken.insert(port), ..self }
    }

    /// The range with `port` free.
    pub open spec fn free_port(self, port: u16) -> PortRangeView {
        PortRangeView { taken: self.taken.remove(port), ..self }
    }

    /// The range once `port` was given back. A port above the range is ignored.
    pub open spec fn released(self, port: u16) -> PortRangeView {
        if port > self.end {
            self
        } else {
            self.free_port(port)
        }
    }

    /// Whether handing out a port turns `self` into `after` and gives `port`.
    pub open spec fn acquires(self, port: Option<u16>, after: PortRangeView) -> bool {
        match port {
            Some(p) => self.is_lowest_free(p) && after == self.take_port(p),
            None => self.is_exhausted() && after == self,
        }
    }
}

/// The state of a port range.
#[derive(Debug)]
pub struct PortRangeInner {
    start: u16,
    _end: u16,
    used: Vec<bool>,
}

/// A range of ports that are handed out one by one.
#[derive(Debug)]
pub struct PortRange {
    inner: PortRangeInner,
}

impl View for PortRange {
    type V = PortRangeView;

    closed spec fn view(&self) -> PortRangeView {
        PortRangeView {
            start: self.inner.start,
            end: self.inner._end,
            taken: Set::new(
                |p: u16|
                    self.inner.start <= p < self.inner._end && self.inner.used@[p
                        - self.inner.start],
            ),
        }
    }
}

/// The ports from `start` up to `end`, none of which is taken.
pub open spec fn fresh_range(start: u16, end: u16) -> PortRangeView {
    PortRangeView { start, end, taken: Set::empty() }
}

impl PortRange {
    /// Whether the range is not empty and has a mark for each port.
    pub closed spec fn wf(&self) -> bool {
        &&& self.inner.start < self.inner._end
        &&& self.inner.used@.len() == self.inner._end - self.inner.start
    }

    /// Creates a range from `start` up to `end`, which does not belong to it.
    pub fn new(start: u16, end: u16) -> (r: Self)
        requires
            end > start,
        ensures
            r.wf(),
            r@ == (PortRangeView { start, end, taken: Set::empty() }),
            r@ == fresh_range(start, end),
    {
        let count: usize = (end - start) as usize;
        let used: Vec<bool> = vec![false; count];
        let r = PortRange { inner: PortRangeInner { start, _end: end, used } };
        assert(r@.taken =~= Set::empty());
        r
    }

    /// Hands out the lowest free port, where there is one.
    pub fn aquire_port(&mut self) -> (port: Option<u16>)
        requires
            old(self).wf(),
        ensures
            final(self).wf(),
            old(self)@.acquires(port, final(self)@),
    {
        let start: u16 = self.inner.start;
        let mut idx: usize = 0;
        while idx < self.inner.used.len()
            invariant
                *self == *old(self),
                self.wf(),
                start == self.inner.start,
                idx <= self.inner.used@.len(),
                forall|k: int| 0 <= k < idx ==> self.inner.used@[k],
            decreases self.inner.used@.len() - idx,
        {
            if !self.inner.used[idx] {
                let port: u16 = start + idx as u16;
                self.inner.used.set(idx, true);
                assert(self@.taken =~= old(self)@.taken.insert(port));
                return Some(port);
            }
            idx += 1;
        }
        None
    }

    /// Tells whether a port can be handed out.
    pub fn has_free_port(&self) -> (r: bool)
        requires
            self.wf(),
        ensures
            r == !self@.is_exhausted(),
    {
        let mut idx: usize = 0;
        while idx < self.inner.used.len()
            invariant
                self.wf(),
                idx <= self.inner.used@.len(),
                forall|k: int| 0 <= k < idx ==> self.inner.used@[k],
            decreases self.inner.used@.len() - idx,
        {
            if !self.inner.used[idx] {
                assert(self@.is_free((self.inner.start + idx) as u16));
                return true;
            }
            idx += 1;
        }
        false
    }

    /// Takes back a port of the range. A port above the range is ignored.
    pub fn _release_port(&mut self, port: u16)
        requires
            old(self).wf(),
            old(self)@.holds(port) || port > old(self)@.end,
        ensures
            final(self).wf(),
            final(self)@ == (if port > old(self)@.end {
                old(self)@
            } else {
                old(self)@.free_port(port)
            }),
            final(self)@ == old(self)@.released(port),
    {
        if port > self.inner._end {
            return;
        }
        let id: u16 = port - self.inner.start;
        self.inner.used.set(id as usize, false);
        assert(self@.taken =~= old(self)@.taken.remove(port));
    }
}

/// A proxy for encrypted connections that is to be deployed.
#[derive(Debug)]
pub struct TlsProxy {
    /// Host name of the proxy, below the name of the certificate.
    pub host: String,
    /// Image to deploy.
    pub image: Id,
    /// Environment variable of the container.
    pub env: Option<Env>,
}

/// A proxy for plain connections that is to be deployed.
#[derive(Debug)]
pub struct TcpProxy {
    /// Address at which the proxy is reached.
    pub host: String,
    /// Port to listen on.
    pub listen_port: u16,
    /// Image to deploy.
    pub image_id: Id,
    /// Environment variable of the container.
    pub env: Option<Env>,
}

impl Clone for TcpProxy {
    fn clone(&self) -> (r: Self)
        ensures
            r == *self,
    {
        TcpProxy {
            host: self.host.clone(),
            listen_port: self.listen_port,
            image_id: self.image_id,
            env: clone_env(&self.env),
        }
    }
}

/// Where a proxy is active.
#[derive(Debug)]
pub struct Url {
    /// Address of the proxy.
    pub host: String,
    /// Port on which the proxy listens.
    pub port: u16,
}

/// An identifier as it travels outside.
#[derive(Clone, Copy, Debug, PartialEq, Eq, Structural)]
pub struct Id(pub u64);

/// What the manager is asked for.
#[derive(Debug)]
pub enum Msg {
    /// Deploy a proxy for encrypted connections.
    TlsProxy(TlsProxy),
    /// Deploy a proxy for plain connections.
    TcpProxy(TcpProxy),
    /// Remove a proxy.
    StopProxy(Id),
    /// Register an image and have every Docker host pull it.
    RegisterImage(ImageOption),
}

/// Why the manager could not do as asked.
#[derive(Debug)]
pub enum Error {
    NoDockerBackend,
    InvalidImageId,
    NoPortLeft,
    TlsNotConfigured,
    InvalidProxyId,
    ProxyNotFound,
    /// A Docker host failed.
    Docker(docker::Error),
}

/// How an error is written.
pub open spec fn error_text(error: Error) -> Seq<char> {
    match error {
        Error::NoDockerBackend => "No Docker backend configured!"@,
        Error::InvalidImageId => "Invalid ImageId"@,
        Error::NoPortLeft => "No port left on docker host"@,
        Error::TlsNotConfigured => "TLS Listener not configured"@,
        Error::InvalidProxyId => "Invalid ProxyId"@,
        Error::ProxyNotFound => "ProxyId not found"@,
        Error::Docker(error) => docker::error_text(error),
    }
}

impl Error {
    /// Writes the error.
    pub fn to_string(&self) -> (s: String)
        ensures
            s@ == error_text(*self),
    {
        match self {
            Error::NoDockerBackend => "No Docker backend configured!".to_owned(),
            Error::InvalidImageId => "Invalid ImageId".to_owned(),
            Error::NoPortLeft => "No port left on docker host".to_owned(),
            Error::TlsNotConfigured => "TLS Listener not configured".to_owned(),
            Error::InvalidProxyId => "Invalid ProxyId".to_owned(),
            Error::ProxyNotFound => "ProxyId not found".to_owned(),
            Error::Docker(error) => error.to_string(),
        }
    }
}

/// A deployment for plain connections whose container is still to be created.
#[derive(Debug)]
pub struct TcpDeployment {
    /// Which Docker host creates the container.
    pub backend: usize,
    /// The container.
    pub container: ContainerOption,
    /// Address of the Docker host.
    pub docker_host: String,
    /// Name and tag of the image.
    pub docker_image: String,
    /// What was asked for.
    pub request: TcpProxy,
}

/// A deployment for encrypted connections whose container is still to be created.
#[derive(Debug)]
pub struct TlsDeployment {
    /// Which Docker host creates the container.
    pub backend: usize,
    /// The container.
    pub container: ContainerOption,
    /// Address of the Docker host.
    pub docker_host: String,
    /// What was asked for.
    pub request: TlsProxy,
}

/// A deployment for plain connections.
#[derive(Debug)]
pub struct TcpDeployed {
    /// Identifier of the proxy.
    pub proxy_id: ProxyId,
    /// Where the proxy is active.
    pub url: Url,
    /// What listens for the proxy. It holds the proxy.
    pub listener: TcpListener,
    /// What the terminal interface is told.
    pub info: ProxyInfo,
}

/// A deployment for encrypted connections.
#[derive(Debug)]
pub struct TlsDeployed {
    /// Identifier of the proxy.
    pub proxy_id: ProxyId,
    /// Where the proxy is active.
    pub url: Url,
    /// The proxy.
    pub proxy: Proxy,
    /// What the listener for encrypted connections is told.
    pub route: TlsMsg,
}

/// What is to be done about a message.
#[derive(Debug)]
pub enum Reaction {
    /// Have each of these Docker hosts pull the image and answer with `Connman::image_pulled`.
    PullAll { backends: Vec<usize>, image_id: ImageId },
    /// Have the container created and go on with `Connman::tcp_container_created`.
    DeployTcp(TcpDeployment),
    /// Have the container created and go on with `Connman::tls_container_created`.
    DeployTls(TlsDeployment),
    /// Clean this proxy up and answer with its identifier.
    Cleanup { proxy_id: ProxyId, proxy: Proxy },
    /// Answer with this error.
    Refuse(Error),
}

/// The bytes of an optional variable in the name of a container for plain connections. The closing
/// byte of the key tells where the value begins.
pub open spec fn name_env_bytes(env: Option<Env>) -> Seq<u8> {
    match env {
        Some(e) => text_bytes(e.key@) + vstd::utf8::encode_utf8(e.value@),
        None => Seq::empty(),
    }
}

/// The bytes that the name of a container for plain connections is made of.
pub open spec fn tcp_name_bytes(option: TcpProxy) -> Seq<u8> {
    le_bytes(option.image_id.0 as nat, 8) + le_bytes(option.listen_port as nat, 2)
        + name_env_bytes(option.env)
}

/// The name of a container for plain connections.
pub open spec fn tcp_name(option: TcpProxy) -> Seq<char> {
    decimal(hash_of(tcp_name_bytes(option)) as nat)
}

/// The text that the name of a container for encrypted connections is made of: the host name, and
/// the key and the value of the variable where there is one.
pub open spec fn tls_name_text(option: TlsProxy) -> Seq<char> {
    match option.env {
        Some(e) => option.host@ + e.key@ + e.value@,
        None => option.host@,
    }
}

/// The bytes that the name of a container for encrypted connections is made of.
pub open spec fn tls_name_bytes(option: TlsProxy) -> Seq<u8> {
    le_bytes(option.image.0 as nat, 8) + vstd::utf8::encode_utf8(tls_name_text(option))
}

/// The name of a container for encrypted connections.
pub open spec fn tls_name(option: TlsProxy) -> Seq<char> {
    decimal(hash_of(tls_name_bytes(option)) as nat)
}

/// Names a container for plain connections after the image, the port and the variable.
pub fn tcp_container_name(option: &TcpProxy) -> (name: String)
    ensures
        name@ == tcp_name(*option),
{
    let mut bytes: Vec<u8> = Vec::new();
    push_le(&mut bytes, option.image_id.0, 8);
    push_le(&mut bytes, option.listen_port as u64, 2);
    if let Some(env) = &option.env {
        push_text(&mut bytes, env.key.as_str());
        push_utf8(&mut bytes, env.value.as_str());
    }
    assert(bytes@ =~= tcp_name_bytes(*option));
    text::to_decimal(hash(bytes.as_slice()))
}

/// Names a container for encrypted connections after the image, the host name and the variable.
pub fn tls_container_name(option: &TlsProxy) -> (name: String)
    ensures
        name@ == tls_name(*option),
{
    let mut bytes: Vec<u8> = Vec::new();
    push_le(&mut bytes, option.image.0, 8);
    push_utf8(&mut bytes, option.host.as_str());
    if let Some(env) = &option.env {
        push_utf8(&mut bytes, env.key.as_str());
        push_utf8(&mut bytes, env.value.as_str());
        proof {
            law_utf8_of_joined_text(option.host@, env.key@);
            law_utf8_of_joined_text(option.host@ + env.key@, env.value@);
        }
    }
    assert(bytes@ =~= tls_name_bytes(*option));
    text::to_decimal(hash(bytes.as_slice()))
}

/// A Docker host as the manager sees it.
#[verifier::ext_equal]
pub struct BackEndView {
    /// Address of the host.
    pub host: Seq<char>,
    /// Ports of the host.
    pub ports: PortRangeView,
}

/// What the manager knows of a Docker host.
#[derive(Debug)]
pub struct DockerBackEnd {
    host: String,
    port_range: PortRange,
}

impl View for DockerBackEnd {
    type V = BackEndView;

    closed spec fn view(&self) -> BackEndView {
        BackEndView { host: self.host@, ports: self.port_range@ }
    }
}

impl DockerBackEnd {
    /// Whether the ports are well formed.
    pub closed spec fn wf(&self) -> bool {
        self.port_range.wf()
    }

    fn new(host: String) -> (r: Self)
        ensures
            r.wf(),
            r@ == fresh_backend(host@),
    {
        DockerBackEnd { host, port_range: PortRange::new(DOCKER_PORT_START, DOCKER_PORT_END) }
    }

    fn aquire_port(&mut self) -> (port: Option<u16>)
        requires
            old(self).wf(),
        ensures
            final(self).wf(),
            final(self)@.host == old(self)@.host,
            old(self)@.ports.acquires(port, final(self)@.ports),
    {
        self.port_range.aquire_port()
    }
}

/// A Docker host none of whose ports is taken.
pub open spec fn fresh_backend(host: Seq<char>) -> BackEndView {
    BackEndView {
        host,
        ports: PortRangeView {
            start: DOCKER_PORT_START,
            end: DOCKER_PORT_END,
            taken: Set::empty(),
        },
    }
}

/// What encrypted connections are served with.
#[derive(Debug)]
pub struct TlsIdentity {
    /// Certificates, in DER.
    pub cert: Vec<Vec<u8>>,
    /// Private key of the first certificate, in DER.
    pub key: Vec<u8>,
    /// Host name that the certificates hold a wildcard for.
    pub host: String,
}

/// Everything that runs, side by side, once the manager is built.
pub struct Built {
    /// The manager.
    pub connman: Connman,
    /// The listener for encrypted connections, where one is configured.
    pub tls: Option<TlsListener>,
    /// The Docker hosts, in the order of the manager's own list.
    pub docker: Vec<DockerMan>,
}

/// Collects what a manager is made of.
pub struct ConnmanBuilder {
    tls: Option<TlsIdentity>,
    docker: Vec<DockerMan>,
    proxy_host: String,
}

impl ConnmanBuilder {
    /// What encrypted connections are served with.
    pub closed spec fn spec_tls(&self) -> Option<TlsIdentity> {
        self.tls
    }

    /// Docker hosts.
    pub closed spec fn spec_docker(&self) -> Seq<DockerMan> {
        self.docker@
    }

    /// Address on which connections are awaited.
    pub closed spec fn spec_proxy_host(&self) -> Seq<char> {
        self.proxy_host@
    }

    /// Begins with nothing. Connections are awaited on all addresses.
    pub fn new() -> (r: Self)
        ensures
            r.spec_tls() is None,
            r.spec_docker() == Seq::<DockerMan>::empty(),
            r.spec_proxy_host() == ANY_ADDRESS@,
            is_begun(r),
    {
        ConnmanBuilder { tls: None, docker: Vec::new(), proxy_host: ANY_ADDRESS.to_owned() }
    }

    /// Awaits encrypted connections on this address. A plain proxy names its own.
    pub fn with_proxy_host(self, proxy_host: String) -> (r: Self)
        ensures
            r.spec_tls() == self.spec_tls(),
            r.spec_docker() == self.spec_docker(),
            r.spec_proxy_host() == proxy_host@,
            sets_proxy_host(self, proxy_host@, r),
    {
        ConnmanBuilder { tls: self.tls, docker: self.docker, proxy_host }
    }

    /// Serves encrypted connections, with these certificates and this key, for hosts below `host`.
    pub fn with_tls(self, cert: Vec<Vec<u8>>, key: Vec<u8>, host: String) -> (r: Self)
        ensures
            r.spec_tls() == Some(TlsIdentity { cert, key, host }),
            r.spec_docker() == self.spec_docker(),
            r.spec_proxy_host() == self.spec_proxy_host(),
            sets_tls(self, TlsIdentity { cert, key, host }, r),
    {
        ConnmanBuilder {
            tls: Some(TlsIdentity { cert, key, host }),
            docker: self.docker,
            proxy_host: self.proxy_host,
        }
    }

    /// Adds a Docker host.
    pub fn with_docker(self, addr: String, port: u16) -> (r: Self)
        ensures
            r.spec_tls() == self.spec_tls(),
            r.spec_proxy_host() == self.spec_proxy_host(),
            r.spec_docker().len() == self.spec_docker().len() + 1,
            r.spec_docker().drop_last() == self.spec_docker(),
            r.spec_docker().last().spec_host() == addr@,
            r.spec_docker().last().spec_port() == port,
            r.spec_docker().last().spec_status() == Map::<u64, docker::ContainerStatus>::empty(),
            r.spec_docker().last().spec_containers() == Map::<u64, ContainerOption>::empty(),
            adds_docker(self, addr@, port, r),
    {
        let mut docker = self.docker;
        docker.push(DockerMan::new(addr, port));
        assert(docker@.drop_last() =~= self.docker@);
        ConnmanBuilder { tls: self.tls, docker, proxy_host: self.proxy_host }
    }

    /// Builds the manager, which needs at least one Docker host.
    pub fn build(self) -> (r: Result<Built, Error>)
        ensures
            self.spec_docker().len() == 0 ==> r == Err::<Built, Error>(Error::NoDockerBackend),
            self.spec_docker().len() > 0 ==> r is Ok,
            r matches Ok(built) ==> is_built(self, built),
            r matches Ok(built) ==> {
                &&& built.connman.wf()
                &&& built.docker@ == self.spec_docker()
                &&& built.connman@.tls == self.spec_tls() is Some
                &&& built.connman@.backends == self.spec_docker().map_values(
                    |man: DockerMan| fresh_backend(man.spec_host()),
                )
                &&& built.connman@.images == Map::<u64, ImageOption>::empty()
                &&& built.connman@.proxies == Map::<u64, Proxy>::empty()
                &&& match self.spec_tls() {
                    None => built.tls is None,
                    Some(identity) => built.tls matches Some(listener) && listener.wf()
                        && listener.spec_listen_port() == TLS_PORT && listener.spec_cert()
                        == identity.cert@ && listener.spec_key() == identity.key@
                        && listener.spec_domain() == identity.host@ && listener.spec_address()
                        == self.spec_proxy_host() && listener.spec_routes() == Map::<
                        Seq<char>,
                        u64,
                    >::empty(),
                }
            },
    {
        if self.docker.is_empty() {
            return Err(Error::NoDockerBackend);
        }
        let has_tls = self.tls.is_some();
        let tls = match self.tls {
            Some(identity) => Some(
                TlsListener::new(
                    TLS_PORT,
                    identity.cert,
                    identity.key,
                    identity.host,
                ).with_address(self.proxy_host),
            ),
            None => None,
        };
        let mut docker: Vec<DockerBackEnd> = Vec::new();
        let mut i: usize = 0;
        while i < self.docker.len()
            invariant
                i <= self.docker.len(),
                docker.len() == i,
                forall|k: int| 0 <= k < i ==> (#[trigger] docker[k]).wf(),
                forall|k: int|
                    0 <= k < i ==> (#[trigger] docker[k])@ == fresh_backend(
                        self.docker[k].spec_host(),
                    ),
            decreases self.docker.len() - i,
        {
            docker.push(DockerBackEnd::new(self.docker[i].host()));
            i += 1;
        }
        let connman = Connman {
            tls: has_tls,
            docker,
            image_register: ImageRegistry::new(),
            proxy_registry: ProxyRegistry::new(),
        };
        assert(connman@.backends =~= self.docker@.map_values(
            |man: DockerMan| fresh_backend(man.spec_host()),
        ));
        Ok(Built { connman, tls, docker: self.docker })
    }
}

/// Whether nothing is set in the builder `r`.
pub open spec fn is_begun(r: ConnmanBuilder) -> bool {
    &&& r.spec_tls() is None
    &&& r.spec_docker().len() == 0
    &&& r.spec_proxy_host() == ANY_ADDRESS@
}

/// Whether setting the address for encrypted connections turns the builder `from` into `r`.
pub open spec fn sets_proxy_host(
    from: ConnmanBuilder,
    proxy_host: Seq<char>,
    r: ConnmanBuilder,
) -> bool {
    &&& r.spec_tls() == from.spec_tls()
    &&& r.spec_docker() == from.spec_docker()
    &&& r.spec_proxy_host() == proxy_host
}

/// Whether serving encrypted connections with `identity` turns the builder `from` into `r`.
pub open spec fn sets_tls(
    from: ConnmanBuilder,
    identity: TlsIdentity,
    r: ConnmanBuilder,
) -> bool {
    &&& r.spec_tls() == Some(identity)
    &&& r.spec_docker() == from.spec_docker()
    &&& r.spec_proxy_host() == from.spec_proxy_host()
}

/// Whether adding the Docker host at `port` of `addr` turns the builder `from` into `r`.
pub open spec fn adds_docker(
    from: ConnmanBuilder,
    addr: Seq<char>,
    port: u16,
    r: ConnmanBuilder,
) -> bool {
    &&& r.spec_tls() == from.spec_tls()
    &&& r.spec_proxy_host() == from.spec_proxy_host()
    &&& r.spec_docker().len() == from.spec_docker().len() + 1
    &&& r.spec_docker().drop_last() == from.spec_docker()
    &&& r.spec_docker().last().spec_host() == addr
    &&& r.spec_docker().last().spec_port() == port
    &&& r.spec_docker().last().spec_status() == Map::<u64, docker::ContainerStatus>::empty()
    &&& r.spec_docker().last().spec_containers() == Map::<u64, ContainerOption>::empty()
}

/// Whether `built` is what comes of the builder `from`.
pub open spec fn is_built(from: ConnmanBuilder, built: Built) -> bool {
    &&& built.docker@ == from.spec_docker()
    &&& built.connman@.backends == from.spec_docker().map_values(
        |man: DockerMan| fresh_backend(man.spec_host()),
    )
    &&& built.connman@.tls == from.spec_tls() is Some
    &&& built.connman@.images == Map::<u64, ImageOption>::empty()
    &&& built.connman@.proxies == Map::<u64, Proxy>::empty()
    &&& match from.spec_tls() {
        None => built.tls is None,
        Some(identity) => {
            &&& built.tls matches Some(listener)
            &&& listener.spec_listen_port() == TLS_PORT
            &&& listener.spec_cert() == identity.cert@
            &&& listener.spec_key() == identity.key@
            &&& listener.spec_domain() == identity.host@
            &&& listener.spec_address() == from.spec_proxy_host()
            &&& listener.spec_routes() == Map::<Seq<char>, u64>::empty()
        },
    }
}

/// The state of the manager.
#[verifier::ext_equal]
pub struct ConnmanView {
    /// Whether encrypted connections are served.
    pub tls: bool,
    /// Docker hosts.
    pub backends: Seq<BackEndView>,
    /// Registered images.
    pub images: Map<u64, ImageOption>,
    /// Active proxies.
    pub proxies: Map<u64, Proxy>,
}

impl ConnmanView {
    /// The state with a proxy registered.
    pub open spec fn with_proxy(self, proxy: Proxy) -> ConnmanView {
        ConnmanView { proxies: registered(self.proxies, proxy), ..self }
    }

    /// The state without the proxy `id`.
    pub open spec fn without_proxy(self, id: u64) -> ConnmanView {
        ConnmanView { proxies: self.proxies.remove(id), ..self }
    }

    /// The state with a port of a Docker host taken.
    pub open spec fn take_port(self, backend: int, port: u16) -> ConnmanView {
        let b = self.backends[backend];
        ConnmanView {
            backends: self.backends.update(
                backend,
                BackEndView { ports: b.ports.take_port(port), ..b },
            ),
            ..self
        }
    }

    /// Whether planning `option` on the Docker host `backend` turns `self` into `after` and gives
    /// `result`.
    pub open spec fn plans_tcp(
        self,
        backend: usize,
        option: TcpProxy,
        after: ConnmanView,
        result: Result<TcpDeployment, Error>,
    ) -> bool {
        let ports = self.backends[backend as int].ports;
        if !self.images.contains_key(option.image_id.0) {
            result == Err::<TcpDeployment, Error>(Error::InvalidImageId) && after == self
        } else if ports.is_exhausted() {
            result == Err::<TcpDeployment, Error>(Error::NoPortLeft) && after == self
        } else {
            &&& result matches Ok(d)
            &&& ports.is_lowest_free(d.container.port)
            &&& after == self.take_port(backend as int, d.container.port)
            &&& d.backend == backend
            &&& d.request == option
            &&& d.container.image_id@ == option.image_id.0
            &&& d.container.container_name@ == tcp_name(option)
            &&& d.container.env == option.env
            &&& d.docker_host@ == self.backends[backend as int].host
            &&& d.docker_image@ == self.images[option.image_id.0].name@ + ":"@
                + self.images[option.image_id.0].tag@
        }
    }

    /// Whether planning `option`, with a port of the Docker host `first` and a container on the
    /// Docker host `second`, turns `self` into `after` and gives `result`.
    pub open spec fn plans_tls(
        self,
        first: usize,
        second: usize,
        option: TlsProxy,
        after: ConnmanView,
        result: Result<TlsDeployment, Error>,
    ) -> bool {
        let ports = self.backends[first as int].ports;
        if ports.is_exhausted() {
            result == Err::<TlsDeployment, Error>(Error::NoPortLeft) && after == self
        } else {
            exists|port: u16| #[trigger]
                ports.is_lowest_free(port) && after == self.take_port(first as int, port) && (
                if !self.tls {
                    result == Err::<TlsDeployment, Error>(Error::TlsNotConfigured)
                } else if !self.images.contains_key(option.image.0) {
                    result == Err::<TlsDeployment, Error>(Error::InvalidImageId)
                } else {
                    &&& result matches Ok(d)
                    &&& d.container.port == port
                    &&& d.backend == second
                    &&& d.request == option
                    &&& d.container.image_id@ == option.image.0
                    &&& d.container.container_name@ == tls_name(option)
                    &&& d.container.env == option.env
                    &&& d.docker_host@ == self.backends[second as int].host
                })
        }
    }

    /// Whether removing the proxy `id` turns `self` into `after` and gives `result`.
    pub open spec fn removes(
        self,
        id: u64,
        after: ConnmanView,
        result: Result<Proxy, Error>,
    ) -> bool {
        if self.proxies.contains_key(id) {
            result == Ok::<Proxy, Error>(self.proxies[id]) && after == (ConnmanView {
                proxies: self.proxies.remove(id),
                ..self
            })
        } else {
            result == Err::<Proxy, Error>(Error::ProxyNotFound) && after == self
        }
    }

    /// Whether `msg` turns `self` into `after` and asks for `reaction`, for some choice of Docker
    /// hosts.
    pub open spec fn reacts(self, msg: Msg, after: ConnmanView, reaction: Reaction) -> bool {
        match msg {
            Msg::RegisterImage(option) => {
                &&& reaction matches Reaction::PullAll { backends, image_id }
                &&& backends@ == all_backends(self.backends.len())
                &&& image_id@ == id_of(option)
                &&& after == (ConnmanView { images: registered(self.images, option), ..self })
            },
            Msg::TcpProxy(option) => exists|backend: usize, result: Result<TcpDeployment, Error>|
                backend < self.backends.len() && #[trigger] self.plans_tcp(
                    backend,
                    option,
                    after,
                    result,
                ) && reaction == (match result {
                    Ok(d) => Reaction::DeployTcp(d),
                    Err(error) => Reaction::Refuse(error),
                }),
            Msg::TlsProxy(option) => exists|
                first: usize,
                second: usize,
                result: Result<TlsDeployment, Error>,
            |
                first < self.backends.len() && second < self.backends.len()
                    && #[trigger] self.plans_tls(first, second, option, after, result) && reaction
                    == (match result {
                    Ok(d) => Reaction::DeployTls(d),
                    Err(error) => Reaction::Refuse(error),
                }),
            Msg::StopProxy(id) => if self.proxies.contains_key(id.0) {
                &&& reaction matches Reaction::Cleanup { proxy_id, proxy }
                &&& proxy_id@ == id.0
                &&& proxy == self.proxies[id.0]
                &&& after == (ConnmanView { proxies: self.proxies.remove(id.0), ..self })
            } else {
                reaction == Reaction::Refuse(Error::InvalidProxyId) && after == self
            },
        }
    }
}

/// Every one of `count` Docker hosts.
pub open spec fn all_backends(count: nat) -> Seq<usize> {
    Seq::new(count, |i: int| i as usize)
}

/// Why the first pull that failed has failed, where one has.
pub open spec fn first_failure(results: Seq<Result<ImageId, docker::Error>>) -> Option<
    docker::Error,
>
    decreases results.len(),
{
    if results.len() == 0 {
        None
    } else {
        match first_failure(results.drop_last()) {
            Some(error) => Some(error),
            None => match results.last() {
                Ok(_) => None,
                Err(error) => Some(error),
            },
        }
    }
}

/// The answer to the registration of the image `image_id`, given what came of each pull.
pub open spec fn registration_answer(
    image_id: u64,
    results: Seq<Result<ImageId, docker::Error>>,
) -> Result<Id, Error> {
    match first_failure(results) {
        None => Ok(Id(image_id)),
        Some(error) => Err(Error::Docker(error)),
    }
}

/// Where the pulls before `i` have not failed and that at `i` has, `i` decides.
proof fn lemma_first_failure(results: Seq<Result<ImageId, docker::Error>>, i: int)
    requires
        0 <= i < results.len(),
        first_failure(results.take(i)) is None,
        results[i] is Err,
    ensures
        first_failure(results) == Some(results[i]->Err_0),
    decreases results.len(),
{
    if i == results.len() - 1 {
        assert(results.drop_last() =~= results.take(i));
    } else {
        let rest = results.drop_last();
        assert(rest.take(i) =~= results.take(i));
        lemma_first_failure(rest, i);
    }
}

/// Calls `rand::random` for a `usize`. Nothing is claimed of the number, which is left to chance.
#[verifier::external_body]
fn random_number() -> usize {
    rand::random()
}

/// The one of `count` that a number picks.
pub open spec fn picked(random: usize, count: usize) -> int {
    random as int % count as int
}

/// Picks one of `count` by a number.
pub fn pick(random: usize, count: usize) -> (i: usize)
    requires
        count > 0,
    ensures
        i == random % count,
        i == picked(random, count),
        i < count,
{
    random % count
}

/// The connection manager.
pub struct Connman {
    tls: bool,
    docker: Vec<DockerBackEnd>,
    image_register: ImageRegistry,
    proxy_registry: ProxyRegistry,
}

impl View for Connman {
    type V = ConnmanView;

    closed spec fn view(&self) -> ConnmanView {
        ConnmanView {
            tls: self.tls,
            backends: self.docker@.map_values(|b: DockerBackEnd| b@),
            images: self.image_register@,
            proxies: self.proxy_registry@,
        }
    }
}

impl Connman {
    /// Whether there is a Docker host, and each has well-formed ports.
    pub closed spec fn wf(&self) -> bool {
        &&& self.docker@.len() > 0
        &&& forall|i: int| 0 <= i < self.docker@.len() ==> (#[trigger] self.docker@[i]).wf()
    }

    /// Returns the registered images.
    pub fn images(&self) -> (r: &ImageRegistry)
        ensures
            r@ == self@.images,
    {
        &self.image_register
    }

    /// Returns the active proxies.
    pub fn proxies(&self) -> (r: &ProxyRegistry)
        ensures
            r@ == self@.proxies,
    {
        &self.proxy_registry
    }

    /// Takes a message and says what is to be done about it.
    pub fn handle_message(&mut self, msg: Msg) -> (reaction: Reaction)
        requires
            old(self).wf(),
        ensures
            final(self).wf(),
            old(self)@.reacts(msg, final(self)@, reaction),
    {
        match msg {
            Msg::RegisterImage(image_option) => {
                let image_id = self.image_register.register(image_option);
                Reaction::PullAll { backends: self.all_docker_men(), image_id }
            },
            Msg::TlsProxy(tls_option) => match self.handle_tls_proxy(tls_option) {
                Ok(deployment) => Reaction::DeployTls(deployment),
                Err(error) => Reaction::Refuse(error),
            },
            Msg::TcpProxy(tcp_option) => match self.handle_tcp_proxy(tcp_option) {
                Ok(deployment) => Reaction::DeployTcp(deployment),
                Err(error) => Reaction::Refuse(error),
            },
            Msg::StopProxy(id) => match self.proxy_registry.is_valid(id.0) {
                Some(proxy_id) => match self.stop_proxy(&proxy_id) {
                    Ok(proxy) => Reaction::Cleanup { proxy_id, proxy },
                    Err(error) => Reaction::Refuse(error),
                },
                None => Reaction::Refuse(Error::InvalidProxyId),
            },
        }
    }

    /// Turns what came of pulling the image `image_id` on each Docker host into the answer to its
    /// registration: the identifier of the image, unless a pull has failed.
    pub fn image_pulled(image_id: &ImageId, results: Vec<Result<ImageId, docker::Error>>) -> (r:
        Result<Id, Error>)
        ensures
            r == (match first_failure(results@) {
                None => Ok::<Id, Error>(Id(image_id@)),
                Some(error) => Err::<Id, Error>(Error::Docker(error)),
            }),
            r == registration_answer(image_id@, results@),
    {
        let ghost all = results@;
        assert(all.take(0) =~= Seq::empty());
        for result in it: results
            invariant
                it.seq() == all,
                first_failure(all.take(it.index() as int)) is None,
        {
            let ghost i = it.index() as int;
            assert(all.take(i + 1).drop_last() =~= all.take(i));
            if let Err(error) = result {
                proof {
                    lemma_first_failure(all, i);
                }
                return Err(Error::Docker(error));
            }
        }
        assert(all.take(all.len() as int) =~= all);
        Ok(Id(image_id.value()))
    }

    /// Takes a proxy out of the registry once its listener has ended, whether with an error or
    /// not, and begins its cleanup. There may be no such proxy in the registry any more.
    pub fn listener_ended(&mut self, proxy_id: &ProxyId, proxy: &Proxy) -> (step: CleanupStep)
        requires
            old(self).wf(),
        ensures
            final(self).wf(),
            final(self)@ == (ConnmanView {
                proxies: old(self)@.proxies.remove(proxy_id@),
                ..old(self)@
            }),
            final(self)@ == old(self)@.without_proxy(proxy_id@),
            step == cleanup_start(*proxy),
            step == CleanupStep::StopContainer(docker::Msg::Stop(proxy.spec_container())),
    {
        let _ = self.proxy_registry.remove(proxy_id);
        proxy.cleanup()
    }

    /// Takes a proxy out of the registry.
    pub fn stop_proxy(&mut self, proxy_id: &ProxyId) -> (r: Result<Proxy, Error>)
        requires
            old(self).wf(),
        ensures
            final(self).wf(),
            old(self)@.removes(proxy_id@, final(self)@, r),
    {
        match self.proxy_registry.remove(proxy_id) {
            Some(proxy) => Ok(proxy),
            None => {
                assert(self@.proxies =~= old(self)@.proxies);
                Err(Error::ProxyNotFound)
            },
        }
    }

    /// Plans a proxy for plain connections on some Docker host.
    pub fn handle_tcp_proxy(&mut self, tcp_option: TcpProxy) -> (r: Result<TcpDeployment, Error>)
        requires
            old(self).wf(),
        ensures
            final(self).wf(),
            exists|backend: usize|
                backend < old(self)@.backends.len() && #[trigger] old(self)@.plans_tcp(
                    backend,
                    tcp_option,
                    final(self)@,
                    r,
                ),
    {
        let backend: usize = self.get_docker_man();
        self.plan_tcp_proxy(backend, tcp_option)
    }

    /// Plans a proxy for plain connections on the Docker host `backend`.
    pub fn plan_tcp_proxy(&mut self, backend: usize, tcp_option: TcpProxy) -> (r: Result<
        TcpDeployment,
        Error,
    >)
        requires
            old(self).wf(),
            backend < old(self)@.backends.len(),
        ensures
            final(self).wf(),
            old(self)@.plans_tcp(backend, tcp_option, final(self)@, r),
    {
        let image_id = match self.image_register.is_valid(tcp_option.image_id.0) {
            Some(image_id) => image_id,
            None => {
                return Err(Error::InvalidImageId);
            },
        };
        let image = self.image_register.get(&image_id);
        let mut docker_image = text::join(image.name.as_str(), ":");
        docker_image.append(image.tag.as_str());
        let docker_port: u16 = match self.aquire_port(backend) {
            Some(port) => port,
            None => {
                return Err(Error::NoPortLeft);
            },
        };
        assert(self@.backends.len() == self.docker@.len());
        assert(self@.backends[backend as int] == self.docker@[backend as int]@);
        let container = ContainerOption {
            image_id,
            container_name: tcp_container_name(&tcp_option),
            env: clone_env(&tcp_option.env),
            port: docker_port,
        };
        Ok(
            TcpDeployment {
                backend,
                container,
                docker_host: self.docker[backend].host.clone(),
                docker_image,
                request: tcp_option,
            },
        )
    }

    /// Registers the proxy of a deployment once its container is there.
    pub fn tcp_container_created(
        &mut self,
        deployment: TcpDeployment,
        container_id: ContainerId,
    ) -> (r: TcpDeployed)
        requires
            old(self).wf(),
        ensures
            final(self).wf(),
            is_tcp_deployed(deployment, container_id, r),
            final(self)@ == (ConnmanView {
                proxies: registered(old(self)@.proxies, r.listener.spec_proxy()),
                ..old(self)@
            }),
            final(self)@ == old(self)@.with_proxy(r.listener.spec_proxy()),
    {
        let request = deployment.request;
        let docker_port: u16 = deployment.container.port;
        let docker_host = deployment.docker_host;
        let proxy = Proxy::new(container_id, docker_port, docker_host.clone(), request.env);
        let proxy_id = self.proxy_registry.register(proxy.clone());
        let info = ProxyInfo {
            id: proxy_id.value(),
            host_port: request.listen_port,
            docker_image: deployment.docker_image,
            docker_host,
            docker_port,
        };
        let listener = TcpListener::new(request.listen_port, proxy).with_address(
            request.host.clone(),
        );
        TcpDeployed {
            proxy_id,
            url: Url { host: request.host, port: request.listen_port },
            listener,
            info,
        }
    }

    /// Plans a proxy for encrypted connections, with a port of one Docker host and a container on
    /// another, or the same. The port stays taken even where the plan fails after that.
    pub fn handle_tls_proxy(&mut self, tls_option: TlsProxy) -> (r: Result<TlsDeployment, Error>)
        requires
            old(self).wf(),
        ensures
            final(self).wf(),
            exists|first: usize, second: usize|
                first < old(self)@.backends.len() && second < old(self)@.backends.len()
                    && #[trigger] old(self)@.plans_tls(first, second, tls_option, final(self)@, r),
    {
        let first: usize = self.get_docker_man();
        let second: usize = self.get_docker_man();
        self.plan_tls_proxy(first, second, tls_option)
    }

    /// Plans a proxy for encrypted connections, with a port of the Docker host `first` and a
    /// container on the Docker host `second`.
    pub fn plan_tls_proxy(&mut self, first: usize, second: usize, tls_option: TlsProxy) -> (r:
        Result<TlsDeployment, Error>)
        requires
            old(self).wf(),
            first < old(self)@.backends.len(),
            second < old(self)@.backends.len(),
        ensures
            final(self).wf(),
            old(self)@.plans_tls(first, second, tls_option, final(self)@, r),
    {
        let port: u16 = match self.aquire_port(first) {
            Some(port) => port,
            None => {
                return Err(Error::NoPortLeft);
            },
        };
        assert(old(self)@.backends[first as int].ports.is_lowest_free(port));
        assert(old(self)@.backends[first as int].ports.is_free(port));
        if !self.tls {
            return Err(Error::TlsNotConfigured);
        }
        let image_id = match self.image_register.is_valid(tls_option.image.0) {
            Some(image_id) => image_id,
            None => {
                return Err(Error::InvalidImageId);
            },
        };
        assert(self@.backends.len() == self.docker@.len());
        assert(self@.backends[second as int] == self.docker@[second as int]@);
        let container = ContainerOption {
            image_id,
            container_name: tls_container_name(&tls_option),
            env: clone_env(&tls_option.env),
            port,
        };
        Ok(
            TlsDeployment {
                backend: second,
                container,
                docker_host: self.docker[second].host.clone(),
                request: tls_option,
            },
        )
    }

    /// Registers the proxy of a deployment once its container is there.
    pub fn tls_container_created(
        &mut self,
        deployment: TlsDeployment,
        container_id: ContainerId,
    ) -> (r: TlsDeployed)
        requires
            old(self).wf(),
        ensures
            final(self).wf(),
            is_tls_deployed(deployment, container_id, r),
            final(self)@ == (ConnmanView {
                proxies: registered(old(self)@.proxies, r.proxy),
                ..old(self)@
            }),
            final(self)@ == old(self)@.with_proxy(r.proxy),
    {
        let request = deployment.request;
        let proxy = Proxy::new(
            container_id,
            deployment.container.port,
            deployment.docker_host,
            request.env,
        );
        let proxy_id = self.proxy_registry.register(proxy.clone());
        TlsDeployed {
            route: TlsMsg::Add(request.host.clone(), proxy_id.clone()),
            proxy_id,
            url: Url { host: request.host, port: TLS_PORT },
            proxy,
        }
    }

    fn all_docker_men(&self) -> (backends: Vec<usize>)
        ensures
            backends@ == all_backends(self@.backends.len()),
    {
        let mut backends: Vec<usize> = Vec::new();
        let mut i: usize = 0;
        while i < self.docker.len()
            invariant
                i <= self.docker.len(),
                backends@ == all_backends(i as nat),
            decreases self.docker.len() - i,
        {
            backends.push(i);
            i += 1;
            assert(backends@ =~= all_backends(i as nat));
        }
        backends
    }

    fn get_docker_man(&self) -> (backend: usize)
        requires
            self.wf(),
        ensures
            backend < self@.backends.len(),
    {
        pick(random_number(), self.docker.len())
    }

    fn aquire_port(&mut self, backend: usize) -> (port: Option<u16>)
        requires
            old(self).wf(),
            backend < old(self)@.backends.len(),
        ensures
            final(self).wf(),
            match port {
                Some(p) => old(self)@.backends[backend as int].ports.is_lowest_free(p)
                    && final(self)@ == old(self)@.take_port(backend as int, p),
                None => old(self)@.backends[backend as int].ports.is_exhausted() && final(self)@
                    == old(self)@,
            },
    {
        let port = self.docker[backend].aquire_port();
        proof {
            let before = old(self)@.backends;
            let after = self@.backends;
            match port {
                Some(p) => {
                    let b = before[backend as int];
                    assert(after =~= before.update(
                        backend as int,
                        BackEndView { ports: b.ports.take_port(p), ..b },
                    ));
                },
                None => {
                    assert(after =~= before);
                },
            }
        }
        port
    }
}

/// Whether `r` is what comes of a deployment with the container `container_id`.
pub open spec fn is_tcp_deployed(
    deployment: TcpDeployment,
    container_id: ContainerId,
    r: TcpDeployed,
) -> bool {
    let proxy = r.listener.spec_proxy();
    &&& proxy.spec_container() == container_id
    &&& proxy.spec_port() == deployment.container.port
    &&& proxy.spec_host() == deployment.docker_host@
    &&& proxy.spec_env() == deployment.request.env
    &&& r.listener.spec_listen_port() == deployment.request.listen_port
    &&& r.listener.spec_address() == deployment.request.host@
    &&& r.proxy_id@ == id_of(proxy)
    &&& r.url == (Url { host: deployment.request.host, port: deployment.request.listen_port })
    &&& r.info == (ProxyInfo {
        id: id_of(proxy),
        host_port: deployment.request.listen_port,
        docker_image: deployment.docker_image,
        docker_host: deployment.docker_host,
        docker_port: deployment.container.port,
    })
}

/// Whether `r` is what comes of a deployment with the container `container_id`.
pub open spec fn is_tls_deployed(
    deployment: TlsDeployment,
    container_id: ContainerId,
    r: TlsDeployed,
) -> bool {
    &&& r.proxy.spec_container() == container_id
    &&& r.proxy.spec_port() == deployment.container.port
    &&& r.proxy.spec_host() == deployment.docker_host@
    &&& r.proxy.spec_env() == deployment.request.env
    &&& r.proxy_id@ == id_of(r.proxy)
    &&& r.url == (Url { host: deployment.request.host, port: TLS_PORT })
    &&& r.route == TlsMsg::Add(deployment.request.host, r.proxy_id)
}

/// A port is handed out only where it belongs to the range and is free, and it is not free after
/// that.
pub proof fn law_acquired_port_was_free(
    range: PortRangeView,
    port: u16,
    after: PortRangeView,
)
    requires
        range.acquires(Some(port), after),
    ensures
        range.holds(port),
        !range.taken.contains(port),
        !after.is_free(port),
{
}

/// A port is handed out as long as one is free.
pub proof fn law_free_port_is_found(
    range: PortRangeView,
    free: u16,
    port: Option<u16>,
    after: PortRangeView,
)
    requires
        range.is_free(free),
        range.acquires(port, after),
    ensures
        port is Some,
        port->0 <= free,
{
}

/// Giving a port back undoes handing it out.
pub proof fn law_release_undoes_acquire(
    range: PortRangeView,
    port: u16,
    after: PortRangeView,
)
    requires
        range.acquires(Some(port), after),
    ensures
        after.free_port(port) == range,
{
    assert(after.free_port(port).taken =~= range.taken);
}

/// Whether handing out ports takes a range through these states, one port at each.
pub open spec fn hands_out(states: Seq<PortRangeView>, ports: Seq<u16>) -> bool {
    &&& states.len() == ports.len() + 1
    &&& forall|i: int|
        0 <= i < ports.len() ==> (#[trigger] states[i]).acquires(Some(ports[i]), states[i + 1])
}

proof fn lemma_stays_taken(states: Seq<PortRangeView>, ports: Seq<u16>, i: int, j: int)
    requires
        hands_out(states, ports),
        0 <= i < j <= ports.len(),
    ensures
        states[j].taken.contains(ports[i]),
    decreases j,
{
    assert(states[j - 1].acquires(Some(ports[j - 1]), states[j - 1 + 1]));
    if i < j - 1 {
        lemma_stays_taken(states, ports, i, j - 1);
    }
}

/// No port is handed out twice while none is given back.
pub proof fn law_no_port_twice(states: Seq<PortRangeView>, ports: Seq<u16>, i: int, j: int)
    requires
        hands_out(states, ports),
        0 <= i < j < ports.len(),
    ensures
        ports[i] != ports[j],
{
    lemma_stays_taken(states, ports, i, j);
    assert(states[j].acquires(Some(ports[j]), states[j + 1]));
}

/// A fresh range hands its ports out in order, from the first on.
pub proof fn law_ports_come_in_order(states: Seq<PortRangeView>, ports: Seq<u16>, i: int)
    requires
        hands_out(states, ports),
        states[0].taken == Set::<u16>::empty(),
        0 <= i < ports.len(),
    ensures
        ports[i] == states[0].start + i,
        ports[i] < states[0].end,
{
    lemma_ports_in_order(states, ports, i);
    lemma_next_port(states[i], i, ports[i]);
}

proof fn lemma_ports_in_order(states: Seq<PortRangeView>, ports: Seq<u16>, i: int)
    requires
        hands_out(states, ports),
        states[0].taken == Set::<u16>::empty(),
        0 <= i <= ports.len(),
    ensures
        states[i].start == states[0].start,
        states[i].end == states[0].end,
        forall|p: u16| #[trigger]
            states[i].taken.contains(p) <==> states[0].start <= p < states[0].start + i,
        i < ports.len() ==> states[i].is_lowest_free(ports[i]),
    decreases i,
{
    if i > 0 {
        lemma_ports_in_order(states, ports, i - 1);
        lemma_next_port(states[i - 1], i - 1, ports[i - 1]);
        assert(states[i - 1].acquires(Some(ports[i - 1]), states[i - 1 + 1]));
    }
    if i < ports.len() {
        assert(states[i].acquires(Some(ports[i]), states[i + 1]));
    }
}

proof fn lemma_next_port(range: PortRangeView, used: int, port: u16)
    requires
        0 <= used,
        forall|p: u16| #[trigger]
            range.taken.contains(p) <==> range.start <= p < range.start + used,
        range.is_lowest_free(port),
    ensures
        port == range.start + used,
        port < range.end,
{
    assert(!range.taken.contains(port));
    if port > range.start + used {
        let lower = (range.start + used) as u16;
        assert(!range.taken.contains(lower));
        assert(range.is_free(lower));
    }
}

/// A fresh range hands out each of its ports, and is exhausted exactly when it has.
pub proof fn law_range_is_used_up(states: Seq<PortRangeView>, ports: Seq<u16>)
    requires
        hands_out(states, ports),
        states[0].taken == Set::<u16>::empty(),
        states[0].start < states[0].end,
    ensures
        ports.len() <= states[0].end - states[0].start,
        states.last().is_exhausted() <==> ports.len() == states[0].end - states[0].start,
{
    let n = ports.len() as int;
    let first = states[0];
    let last = states[n];
    lemma_ports_in_order(states, ports, n);
    if n > 0 {
        law_ports_come_in_order(states, ports, n - 1);
    }
    if n < first.end - first.start {
        let next = (first.start + n) as u16;
        assert(!last.taken.contains(next));
        assert(last.is_free(next));
    } else {
        assert forall|q: u16| !#[trigger] last.is_free(q) by {
            if last.holds(q) {
                assert(last.taken.contains(q));
            }
        }
    }
}

/// The bytes behind the names of containers for plain connections are the same exactly where the
/// image, the port and the variable are: unequal requests are told apart.
pub proof fn law_tcp_name_bytes(a: TcpProxy, b: TcpProxy)
    ensures
        tcp_name_bytes(a) == tcp_name_bytes(b) <==> a.image_id == b.image_id && a.listen_port
            == b.listen_port && same_env(a.env, b.env),
{
    if tcp_name_bytes(a) == tcp_name_bytes(b) {
        let env_a = name_env_bytes(a.env);
        let env_b = name_env_bytes(b.env);
        let port_a = le_bytes(a.listen_port as nat, 2) + env_a;
        let port_b = le_bytes(b.listen_port as nat, 2) + env_b;
        assert(le_bytes(a.image_id.0 as nat, 8) + port_a =~= tcp_name_bytes(a));
        assert(le_bytes(b.image_id.0 as nat, 8) + port_b =~= tcp_name_bytes(b));
        reveal_with_fuel(span, 9);
        law_le_bytes_delimited(a.image_id.0 as nat, b.image_id.0 as nat, 8, port_a, port_b);
        law_le_bytes_delimited(a.listen_port as nat, b.listen_port as nat, 2, env_a, env_b);
        if let (Some(x), Some(y)) = (a.env, b.env) {
            let value_x = vstd::utf8::encode_utf8(x.value@);
            let value_y = vstd::utf8::encode_utf8(y.value@);
            law_text_bytes_delimited(x.key@, y.key@, value_x, value_y);
            vstd::utf8::encode_utf8_decode_utf8(x.value@);
            vstd::utf8::encode_utf8_decode_utf8(y.value@);
        } else if a.env is Some {
            assert(env_a.len() > 0);
        } else if b.env is Some {
            assert(env_b.len() > 0);
        }
    }
}

/// The bytes behind the names of containers for encrypted connections are the same exactly where
/// the image is, and the text that the host name and the variable make together.
pub proof fn law_tls_name_bytes(a: TlsProxy, b: TlsProxy)
    ensures
        tls_name_bytes(a) == tls_name_bytes(b) <==> a.image == b.image && tls_name_text(a)
            == tls_name_text(b),
        a.env is None && b.env is None ==> (tls_name_bytes(a) == tls_name_bytes(b) <==> a.image
            == b.image && a.host@ == b.host@),
{
    if tls_name_bytes(a) == tls_name_bytes(b) {
        let text_a = vstd::utf8::encode_utf8(tls_name_text(a));
        let text_b = vstd::utf8::encode_utf8(tls_name_text(b));
        reveal_with_fuel(span, 9);
        law_le_bytes_delimited(a.image.0 as nat, b.image.0 as nat, 8, text_a, text_b);
        vstd::utf8::encode_utf8_decode_utf8(tls_name_text(a));
        vstd::utf8::encode_utf8_decode_utf8(tls_name_text(b));
    }
}

/// Two containers have one name only where their names come of one hash.
pub proof fn law_same_name_same_hash(a: TcpProxy, b: TcpProxy)
    requires
        tcp_name(a) == tcp_name(b),
    ensures
        hash_of(tcp_name_bytes(a)) == hash_of(tcp_name_bytes(b)),
{
    law_decimal_injective(
        hash_of(tcp_name_bytes(a)) as nat,
        hash_of(tcp_name_bytes(b)) as nat,
    );
}

/// The same holds of containers for encrypted connections.
pub proof fn law_same_encrypted_name_same_hash(a: TlsProxy, b: TlsProxy)
    requires
        tls_name(a) == tls_name(b),
    ensures
        hash_of(tls_name_bytes(a)) == hash_of(tls_name_bytes(b)),
{
    law_decimal_injective(
        hash_of(tls_name_bytes(a)) as nat,
        hash_of(tls_name_bytes(b)) as nat,
    );
}

/// The name of a container for plain connections tells nothing of the address of the proxy: it
/// rests on the image, the port and the variable alone.
pub proof fn law_name_rests_on_the_request(a: TcpProxy, b: TcpProxy)
    requires
        a.image_id == b.image_id,
        a.listen_port == b.listen_port,
        same_env(a.env, b.env),
    ensures
        tcp_name(a) == tcp_name(b),
{
}

/// A registration asks every Docker host to pull the image, and each of them once.
pub proof fn law_registration_reaches_every_host(
    state: ConnmanView,
    option: ImageOption,
    after: ConnmanView,
    reaction: Reaction,
    backend: usize,
)
    requires
        state.reacts(Msg::RegisterImage(option), after, reaction),
        backend < state.backends.len() <= usize::MAX,
    ensures
        reaction matches Reaction::PullAll { backends, image_id } && backends@.contains(backend)
            && backends@.no_duplicates() && image_id@ == id_of(option),
{
    let asked = all_backends(state.backends.len());
    assert(asked[backend as int] == backend);
}

proof fn lemma_no_failure(results: Seq<Result<ImageId, docker::Error>>)
    requires
        forall|k: int| 0 <= k < results.len() ==> #[trigger] results[k] is Ok,
    ensures
        first_failure(results) is None,
    decreases results.len(),
{
    if results.len() > 0 {
        let rest = results.drop_last();
        assert forall|k: int| 0 <= k < rest.len() implies #[trigger] rest[k] is Ok by {
            assert(results[k] is Ok);
        }
        lemma_no_failure(rest);
        assert(results[results.len() - 1] is Ok);
    }
}

/// A registration succeeds exactly where every pull has, and fails as the first one that has not.
pub proof fn law_first_failed_pull_decides(results: Seq<Result<ImageId, docker::Error>>)
    ensures
        first_failure(results) is None <==> forall|k: int|
            0 <= k < results.len() ==> #[trigger] results[k] is Ok,
        forall|i: int|
            0 <= i < results.len() && #[trigger] results[i] is Err && (forall|k: int|
                0 <= k < i ==> #[trigger] results[k] is Ok) ==> first_failure(results) == Some(
                results[i]->Err_0,
            ),
    decreases results.len(),
{
    if results.len() > 0 {
        let rest = results.drop_last();
        law_first_failed_pull_decides(rest);
        if forall|k: int| 0 <= k < results.len() ==> #[trigger] results[k] is Ok {
            assert forall|k: int| 0 <= k < rest.len() implies #[trigger] rest[k] is Ok by {
                assert(results[k] is Ok);
            }
            assert(results[results.len() - 1] is Ok);
        }
        if first_failure(results) is None {
            assert forall|k: int| 0 <= k < results.len() implies #[trigger] results[k] is Ok by {
                if k < rest.len() {
                    assert(rest[k] is Ok);
                }
            }
        }
        assert forall|i: int|
            0 <= i < results.len() && #[trigger] results[i] is Err && (forall|k: int|
                0 <= k < i ==> #[trigger] results[k] is Ok) implies first_failure(results) == Some(
            results[i]->Err_0,
        ) by {
            lemma_no_failure(results.take(i));
            lemma_first_failure(results, i);
        }
    }
}

/// An image that has been registered can be deployed: a request for it is not refused for want of
/// the image.
pub proof fn law_registered_image_can_be_deployed(
    state: ConnmanView,
    option: ImageOption,
    after: ConnmanView,
    reaction: Reaction,
    backend: usize,
    request: TcpProxy,
    planned: ConnmanView,
    result: Result<TcpDeployment, Error>,
)
    requires
        state.reacts(Msg::RegisterImage(option), after, reaction),
        request.image_id.0 == id_of(option),
        after.plans_tcp(backend, request, planned, result),
    ensures
        result is Ok <==> !after.backends[backend as int].ports.is_exhausted(),
        result matches Err(error) ==> error == Error::NoPortLeft,
{
}

/// A request for a plain proxy that is refused changes nothing.
pub proof fn law_refused_tcp_changes_nothing(
    state: ConnmanView,
    backend: usize,
    option: TcpProxy,
    after: ConnmanView,
    result: Result<TcpDeployment, Error>,
)
    requires
        state.plans_tcp(backend, option, after, result),
        result is Err,
    ensures
        after == state,
{
}

/// Planning an encrypted proxy, refused or not, changes neither the images nor the proxies.
pub proof fn law_tls_plan_keeps_registries(
    state: ConnmanView,
    first: usize,
    second: usize,
    option: TlsProxy,
    after: ConnmanView,
    result: Result<TlsDeployment, Error>,
)
    requires
        state.plans_tls(first, second, option, after, result),
    ensures
        after.images == state.images,
        after.proxies == state.proxies,
{
}

/// No message changes the Docker hosts, whether encrypted connections are served, or what stands
/// under the identifier of an image.
pub proof fn law_messages_keep_the_setup(
    state: ConnmanView,
    msg: Msg,
    after: ConnmanView,
    reaction: Reaction,
    image: u64,
    backend: int,
)
    requires
        state.reacts(msg, after, reaction),
        state.images.contains_key(image),
        0 <= backend < state.backends.len(),
    ensures
        after.tls == state.tls,
        after.backends.len() == state.backends.len(),
        after.backends[backend].host == state.backends[backend].host,
        after.images.contains_key(image),
        after.images[image] == state.images[image],
{
}

/// A message takes no port away from those that are taken, nor more than one.
pub proof fn law_messages_take_one_port_at_most(
    state: ConnmanView,
    msg: Msg,
    after: ConnmanView,
    reaction: Reaction,
)
    requires
        state.reacts(msg, after, reaction),
    ensures
        after.backends == state.backends || exists|backend: int, port: u16|
            0 <= backend < state.backends.len()
                && state.backends[backend].ports.is_lowest_free(port) && after.backends
                == #[trigger] state.take_port(backend, port).backends,
{
    match msg {
        Msg::TcpProxy(option) => {
            let (backend, result) = choose|backend: usize, result: Result<TcpDeployment, Error>|
                backend < state.backends.len() && #[trigger] state.plans_tcp(
                    backend,
                    option,
                    after,
                    result,
                );
            if let Ok(d) = result {
                let taken = state.take_port(backend as int, d.container.port);
                assert(after.backends == taken.backends);
            }
        },
        Msg::TlsProxy(option) => {
            let (first, second, result) = choose|
                first: usize,
                second: usize,
                result: Result<TlsDeployment, Error>,
            |
                first < state.backends.len() && second < state.backends.len()
                    && #[trigger] state.plans_tls(first, second, option, after, result);
            let ports = state.backends[first as int].ports;
            if !ports.is_exhausted() {
                let port = choose|port: u16| #[trigger]
                    ports.is_lowest_free(port) && after == state.take_port(first as int, port);
                assert(after.backends == state.take_port(first as int, port).backends);
            }
        },
        _ => {},
    }
}

/// A port of a Docker host that is taken stays taken, whatever the manager is asked for.
pub proof fn law_taken_port_stays_taken(
    state: ConnmanView,
    msg: Msg,
    after: ConnmanView,
    reaction: Reaction,
    backend: int,
    port: u16,
)
    requires
        state.reacts(msg, after, reaction),
        0 <= backend < state.backends.len(),
        state.backends[backend].ports.taken.contains(port),
    ensures
        after.backends[backend].ports.taken.contains(port),
{
    law_messages_take_one_port_at_most(state, msg, after, reaction);
}

/// Whether the states follow one another as the manager is asked for this and that. What happens
/// between two messages, such as the registration of a proxy, leaves the Docker hosts alone.
pub open spec fn is_history(states: Seq<ConnmanView>, msgs: Seq<Msg>) -> bool {
    &&& states.len() == 2 * msgs.len() + 1
    &&& forall|i: int|
        0 <= i < msgs.len() ==> {
            &&& exists|reaction: Reaction| #[trigger]
                states[2 * i].reacts(#[trigger] msgs[i], states[2 * i + 1], reaction)
            &&& states[2 * i + 2].backends == states[2 * i + 1].backends
        }
}

proof fn lemma_stays_taken_in_history(
    states: Seq<ConnmanView>,
    msgs: Seq<Msg>,
    n: int,
    backend: int,
    port: u16,
)
    requires
        is_history(states, msgs),
        0 <= n <= msgs.len(),
        0 <= backend < states[0].backends.len(),
        states[0].backends[backend].ports.taken.contains(port),
    ensures
        states[2 * n].backends.len() == states[0].backends.len(),
        states[2 * n].backends[backend].ports.taken.contains(port),
    decreases n,
{
    if n > 0 {
        let i = n - 1;
        lemma_stays_taken_in_history(states, msgs, i, backend, port);
        let msg = msgs[i];
        let reaction = choose|reaction: Reaction| #[trigger]
            states[2 * i].reacts(msgs[i], states[2 * i + 1], reaction);
        law_taken_port_stays_taken(
            states[2 * i],
            msg,
            states[2 * i + 1],
            reaction,
            backend,
            port,
        );
        law_messages_take_one_port_at_most(states[2 * i], msg, states[2 * i + 1], reaction);
        assert(states[2 * i + 2].backends == states[2 * i + 1].backends);
    }
}

/// Two deployments for plain connections on one Docker host have two ports, whatever is asked for
/// between them.
pub proof fn law_two_deployments_two_ports(
    before: ConnmanView,
    backend: usize,
    first: TcpProxy,
    a: TcpDeployment,
    states: Seq<ConnmanView>,
    msgs: Seq<Msg>,
    second: TcpProxy,
    b: TcpDeployment,
    after: ConnmanView,
)
    requires
        backend < before.backends.len(),
        before.plans_tcp(backend, first, states[0], Ok(a)),
        is_history(states, msgs),
        states.last().plans_tcp(backend, second, after, Ok(b)),
    ensures
        a.container.port != b.container.port,
{
    lemma_stays_taken_in_history(
        states,
        msgs,
        msgs.len() as int,
        backend as int,
        a.container.port,
    );
}

/// A proxy that was deployed can be removed by the identifier that was answered, and once it is
/// removed the proxies are as before, where the identifier was not in use.
pub proof fn law_deployed_proxy_can_be_removed(
    state: ConnmanView,
    proxy: Proxy,
    after: ConnmanView,
    reaction: Reaction,
)
    requires
        (ConnmanView { proxies: registered(state.proxies, proxy), ..state }).reacts(
            Msg::StopProxy(Id(id_of(proxy))),
            after,
            reaction,
        ),
    ensures
        reaction is Cleanup,
        !after.proxies.contains_key(id_of(proxy)),
        !state.proxies.contains_key(id_of(proxy)) ==> reaction->proxy == proxy && after == state,
{
    if !state.proxies.contains_key(id_of(proxy)) {
        assert(registered(state.proxies, proxy).remove(id_of(proxy)) =~= state.proxies);
    }
}

/// Once the listener of a proxy has ended, the proxy is in the registry no more: asking for its
/// removal is refused.
pub proof fn law_ended_listener_leaves_no_proxy(
    state: ConnmanView,
    id: Id,
    after: ConnmanView,
    reaction: Reaction,
)
    requires
        (ConnmanView { proxies: state.proxies.remove(id.0), ..state }).reacts(
            Msg::StopProxy(id),
            after,
            reaction,
        ),
    ensures
        !after.proxies.contains_key(id.0),
        reaction == Reaction::Refuse(Error::InvalidProxyId),
{
}

/// A proxy that was removed, or never was, cannot be removed again.
pub proof fn law_removed_only_once(
    state: ConnmanView,
    id: Id,
    after: ConnmanView,
    reaction: Reaction,
    again: ConnmanView,
    answer: Reaction,
)
    requires
        state.reacts(Msg::StopProxy(id), after, reaction),
        after.reacts(Msg::StopProxy(id), again, answer),
    ensures
        answer == Reaction::Refuse(Error::InvalidProxyId),
        again == after,
{
}

/// A client that asks for the host of a deployed encrypted proxy is served by the proxy that
/// stands under the identifier of the deployment, and by none once that proxy is removed.
pub proof fn law_encrypted_proxy_is_served(
    deployment: TlsDeployment,
    container_id: ContainerId,
    deployed: TlsDeployed,
    proxies: Map<u64, Proxy>,
    map: Map<Seq<char>, u64>,
    domain: Seq<char>,
)
    requires
        is_tls_deployed(deployment, container_id, deployed),
    ensures
        ({
            let id = deployed.proxy_id@;
            let there = registered(proxies, deployed.proxy);
            let routes = routes_after(map, domain, deployed.route);
            let name = Some(below(deployed.url.host@, domain));
            &&& route_for(routes, there, name) == Route::Serve(there[id])
            &&& !proxies.contains_key(id) ==> there[id] == deployed.proxy
            &&& route_for(routes, there.remove(id), name) == Route::Gone
        }),
{
}

/// The removal of a deployed proxy takes it off the terminal interface.
pub proof fn law_removal_clears_the_interface(
    deployment: TcpDeployment,
    container_id: ContainerId,
    deployed: TcpDeployed,
    app: AppView,
)
    requires
        is_tcp_deployed(deployment, container_id, deployed),
    ensures
        ({
            let id = id_of(deployed.listener.spec_proxy());
            let shown = after_message(app, tui::Msg::Proxy(deployed.info));
            let cleared = after_message(shown, tui::Msg::Remove(id));
            &&& shown.proxies.last().id == id
            &&& forall|i: int|
                0 <= i < cleared.proxies.len() ==> (#[trigger] cleared.proxies[i]).id != id
        }),
{
    let id = id_of(deployed.listener.spec_proxy());
    law_removed_proxy_is_gone(after_message(app, tui::Msg::Proxy(deployed.info)), id);
}

/// A deployed plain proxy forwards to the port that its container is bound to, on the host that the
/// container was planned on, and listens where it was asked to. What the client and the interface
/// are told agrees with that.
pub proof fn law_deployed_proxy_forwards_to_its_container(
    state: ConnmanView,
    backend: usize,
    option: TcpProxy,
    after: ConnmanView,
    d: TcpDeployment,
    container_id: ContainerId,
    r: TcpDeployed,
)
    requires
        state.plans_tcp(backend, option, after, Ok(d)),
        is_tcp_deployed(d, container_id, r),
    ensures
        r.listener.spec_proxy().spec_port() == d.container.port,
        r.listener.spec_proxy().spec_container() == container_id,
        r.listener.spec_proxy().spec_host() == state.backends[backend as int].host,
        same_env(r.listener.spec_proxy().spec_env(), option.env),
        r.listener.spec_listen_port() == option.listen_port,
        r.listener.spec_address() == option.host@,
        r.proxy_id@ == id_of(r.listener.spec_proxy()),
        r.url.host@ == option.host@,
        r.url.port == r.listener.spec_listen_port(),
        r.info.id == r.proxy_id@,
        r.info.host_port == r.url.port,
        r.info.docker_port == r.listener.spec_proxy().spec_port(),
        r.info.docker_host@ == r.listener.spec_proxy().spec_host(),
        r.info.docker_image@ == state.images[option.image_id.0].name@ + ":"@
            + state.images[option.image_id.0].tag@,
{
}

/// The container of a deployed plain proxy is configured on the very port that the proxy forwards
/// to.
pub proof fn law_container_and_proxy_meet_at_one_port(
    d: TcpDeployment,
    container_id: ContainerId,
    r: TcpDeployed,
    image: ImageOption,
    config: ContainerConfig,
)
    requires
        is_tcp_deployed(d, container_id, r),
        configures(config, d.container, image),
    ensures
        number_of(config.host_port@) == r.listener.spec_proxy().spec_port(),
{
    law_container_is_configured_as_asked(config, d.container, image);
}

/// Two plain proxies that are deployed on one Docker host forward to two ports, whatever is asked
/// for between them.
pub proof fn law_deployed_proxies_do_not_share_a_port(
    before: ConnmanView,
    backend: usize,
    first: TcpProxy,
    a: TcpDeployment,
    ca: ContainerId,
    ra: TcpDeployed,
    states: Seq<ConnmanView>,
    msgs: Seq<Msg>,
    second: TcpProxy,
    b: TcpDeployment,
    cb: ContainerId,
    rb: TcpDeployed,
    after: ConnmanView,
)
    requires
        backend < before.backends.len(),
        before.plans_tcp(backend, first, states[0], Ok(a)),
        is_history(states, msgs),
        states.last().plans_tcp(backend, second, after, Ok(b)),
        is_tcp_deployed(a, ca, ra),
        is_tcp_deployed(b, cb, rb),
    ensures
        ra.listener.spec_proxy().spec_port() != rb.listener.spec_proxy().spec_port(),
        ra.info.docker_port != rb.info.docker_port,
        ra.proxy_id@ == rb.proxy_id@ ==> hash_of(ra.listener.spec_proxy().identity()) == hash_of(
            rb.listener.spec_proxy().identity(),
        ),
{
    law_two_deployments_two_ports(before, backend, first, a, states, msgs, second, b, after);
}

/// A planned plain deployment is what was asked for: the image, the variable, a name made of the
/// request, and a port of the chosen Docker host that was free and belongs to its range.
pub proof fn law_plain_plan_is_as_asked(
    state: ConnmanView,
    backend: usize,
    option: TcpProxy,
    after: ConnmanView,
    d: TcpDeployment,
    image: ImageOption,
    config: ContainerConfig,
)
    requires
        state.plans_tcp(backend, option, after, Ok(d)),
        configures(config, d.container, image),
    ensures
        d.backend == backend,
        d.request == option,
        d.container.image_id@ == option.image_id.0,
        same_env(d.container.env, option.env),
        config.env is Some <==> option.env is Some,
        option.env matches Some(e) ==> config.env->0[0]@ == e.key@ + "="@ + e.value@,
        number_of(d.container.container_name@) == hash_of(tcp_name_bytes(option)),
        d.docker_host@ == state.backends[backend as int].host,
        state.images.contains_key(option.image_id.0),
        ({
            let ports = state.backends[backend as int].ports;
            &&& ports.start <= d.container.port < ports.end
            &&& !ports.taken.contains(d.container.port)
            &&& forall|q: u16|
                ports.start <= q < d.container.port ==> #[trigger] ports.taken.contains(q)
        }),
{
    law_decimal_reads_back(hash_of(tcp_name_bytes(option)) as nat);
    law_container_is_configured_as_asked(config, d.container, image);
    let ports = state.backends[backend as int].ports;
    assert forall|q: u16| ports.start <= q < d.container.port implies #[trigger] ports
        .taken.contains(q) by {
        assert(!ports.is_free(q));
    }
}

/// A planned encrypted deployment is what was asked for: the image, the variable, a name made of
/// the request, a container on one Docker host, and a port that was free on the other, and belongs
/// to its range.
pub proof fn law_encrypted_plan_is_as_asked(
    state: ConnmanView,
    first: usize,
    second: usize,
    option: TlsProxy,
    after: ConnmanView,
    d: TlsDeployment,
    image: ImageOption,
    config: ContainerConfig,
)
    requires
        state.plans_tls(first, second, option, after, Ok(d)),
        configures(config, d.container, image),
    ensures
        d.backend == second,
        d.request == option,
        d.container.image_id@ == option.image.0,
        same_env(d.container.env, option.env),
        config.env is Some <==> option.env is Some,
        option.env matches Some(e) ==> config.env->0.len() == 1 && config.env->0[0]@ == e.key@
            + "="@ + e.value@,
        number_of(d.container.container_name@) == hash_of(tls_name_bytes(option)),
        d.docker_host@ == state.backends[second as int].host,
        state.tls,
        state.images.contains_key(option.image.0),
        ({
            let ports = state.backends[first as int].ports;
            &&& ports.start <= d.container.port < ports.end
            &&& !ports.taken.contains(d.container.port)
            &&& forall|q: u16|
                ports.start <= q < d.container.port ==> #[trigger] ports.taken.contains(q)
        }),
{
    law_decimal_reads_back(hash_of(tls_name_bytes(option)) as nat);
    law_container_is_configured_as_asked(config, d.container, image);
    let ports = state.backends[first as int].ports;
    assert(ports.is_lowest_free(d.container.port));
    assert forall|q: u16| ports.start <= q < d.container.port implies #[trigger] ports
        .taken.contains(q) by {
        assert(!ports.is_free(q));
    }
}

/// A deployed encrypted proxy forwards to the port that its container is bound to, on the host that
/// the container was planned on, with the variable that was asked for, and the client is told the
/// host name that was asked for and the port of all encrypted connections.
pub proof fn law_encrypted_proxy_forwards_to_its_container(
    state: ConnmanView,
    first: usize,
    second: usize,
    option: TlsProxy,
    after: ConnmanView,
    d: TlsDeployment,
    container_id: ContainerId,
    r: TlsDeployed,
)
    requires
        state.plans_tls(first, second, option, after, Ok(d)),
        is_tls_deployed(d, container_id, r),
    ensures
        r.proxy.spec_port() == d.container.port,
        r.proxy.spec_container() == container_id,
        r.proxy.spec_host() == state.backends[second as int].host,
        same_env(r.proxy.spec_env(), option.env),
        r.proxy_id@ == id_of(r.proxy),
        r.url.host@ == option.host@,
        r.url.port == 443,
        r.route matches TlsMsg::Add(host, id) && host@ == option.host@ && id@ == r.proxy_id@,
{
}

/// A plan takes the port of its container on its Docker host, and nothing else changes.
pub proof fn law_plan_takes_its_port_alone(
    state: ConnmanView,
    backend: usize,
    option: TcpProxy,
    after: ConnmanView,
    d: TcpDeployment,
    other: int,
    port: u16,
)
    requires
        state.plans_tcp(backend, option, after, Ok(d)),
        backend < state.backends.len(),
        0 <= other < state.backends.len(),
    ensures
        after.backends.len() == state.backends.len(),
        after.backends[other].host == state.backends[other].host,
        after.backends[other].ports.start == state.backends[other].ports.start,
        after.backends[other].ports.end == state.backends[other].ports.end,
        after.backends[other].ports.taken.contains(port) <==> state.backends[other]
            .ports.taken.contains(port) || (other == backend && port == d.container.port),
        after.images == state.images,
        after.proxies == state.proxies,
        after.tls == state.tls,
{
}

/// The same holds of a plan for encrypted connections, whose port belongs to the first host.
pub proof fn law_encrypted_plan_takes_its_port_alone(
    state: ConnmanView,
    first: usize,
    second: usize,
    option: TlsProxy,
    after: ConnmanView,
    d: TlsDeployment,
    other: int,
    port: u16,
)
    requires
        state.plans_tls(first, second, option, after, Ok(d)),
        first < state.backends.len(),
        0 <= other < state.backends.len(),
    ensures
        after.backends.len() == state.backends.len(),
        after.backends[other].host == state.backends[other].host,
        after.backends[other].ports.taken.contains(port) <==> state.backends[other]
            .ports.taken.contains(port) || (other == first && port == d.container.port),
        after.tls == state.tls,
{
}

/// A plain deployment is planned exactly where the image is registered and a port is free, and is
/// refused for want of the image first.
pub proof fn law_plain_plan_succeeds_where_it_can(
    state: ConnmanView,
    backend: usize,
    option: TcpProxy,
    after: ConnmanView,
    result: Result<TcpDeployment, Error>,
)
    requires
        state.plans_tcp(backend, option, after, result),
    ensures
        ({
            let known = state.images.contains_key(option.image_id.0);
            let ports = state.backends[backend as int].ports;
            let free = exists|p: u16|
                ports.start <= p < ports.end && !#[trigger] ports.taken.contains(p);
            &&& result is Ok <==> known && free
            &&& result == Err::<TcpDeployment, Error>(Error::InvalidImageId) <==> !known
            &&& result == Err::<TcpDeployment, Error>(Error::NoPortLeft) <==> known && !free
        }),
{
    lemma_exhausted(state.backends[backend as int].ports);
}

/// An encrypted deployment is planned exactly where a port is free, encrypted connections are
/// served and the image is registered, and is refused for want of the first of these that is
/// missing.
pub proof fn law_encrypted_plan_succeeds_where_it_can(
    state: ConnmanView,
    first: usize,
    second: usize,
    option: TlsProxy,
    after: ConnmanView,
    result: Result<TlsDeployment, Error>,
)
    requires
        state.plans_tls(first, second, option, after, result),
    ensures
        ({
            let known = state.images.contains_key(option.image.0);
            let ports = state.backends[first as int].ports;
            let free = exists|p: u16|
                ports.start <= p < ports.end && !#[trigger] ports.taken.contains(p);
            &&& result is Ok <==> free && state.tls && known
            &&& result == Err::<TlsDeployment, Error>(Error::NoPortLeft) <==> !free
            &&& result == Err::<TlsDeployment, Error>(Error::TlsNotConfigured) <==> free
                && !state.tls
            &&& result == Err::<TlsDeployment, Error>(Error::InvalidImageId) <==> free && state.tls
                && !known
        }),
{
    lemma_exhausted(state.backends[first as int].ports);
}

proof fn lemma_exhausted(range: PortRangeView)
    ensures
        range.is_exhausted() <==> !(exists|p: u16|
            range.start <= p < range.end && !#[trigger] range.taken.contains(p)),
{
    if range.is_exhausted() {
        assert forall|p: u16| range.start <= p < range.end implies #[trigger] range
            .taken.contains(p) by {
            assert(!range.is_free(p));
        }
    }
}

/// What the manager does about a request for a plain proxy is to deploy it as a plan on one of its
/// Docker hosts says, or to refuse it for the reason that the plan gives.
pub proof fn law_plain_requests_are_planned(
    state: ConnmanView,
    option: TcpProxy,
    after: ConnmanView,
    reaction: Reaction,
)
    requires
        state.reacts(Msg::TcpProxy(option), after, reaction),
    ensures
        reaction is DeployTcp || reaction is Refuse,
        reaction matches Reaction::DeployTcp(d) ==> d.backend < state.backends.len()
            && state.plans_tcp(d.backend, option, after, Ok(d)) && d.request == option && same_env(
            d.container.env,
            option.env,
        ) && state.images.contains_key(option.image_id.0),
        reaction matches Reaction::Refuse(error) ==> after == state && (error
            == Error::InvalidImageId <==> !state.images.contains_key(option.image_id.0)) && (error
            == Error::InvalidImageId || error == Error::NoPortLeft),
{
}

/// What the manager does about a request for an encrypted proxy is to deploy it as a plan on its
/// Docker hosts says, or to refuse it for the reason that the plan gives.
pub proof fn law_encrypted_requests_are_planned(
    state: ConnmanView,
    option: TlsProxy,
    after: ConnmanView,
    reaction: Reaction,
)
    requires
        state.reacts(Msg::TlsProxy(option), after, reaction),
    ensures
        reaction is DeployTls || reaction is Refuse,
        reaction matches Reaction::DeployTls(d) ==> d.backend < state.backends.len() && d.request
            == option && same_env(d.container.env, option.env) && d.container.image_id@
            == option.image.0 && state.tls && state.images.contains_key(option.image.0),
        reaction matches Reaction::DeployTls(d) ==> exists|first: usize|
            first < state.backends.len() && #[trigger] state.plans_tls(
                first,
                d.backend,
                option,
                after,
                Ok(d),
            ),
        reaction matches Reaction::Refuse(error) ==> match error {
            Error::NoPortLeft => after == state,
            Error::TlsNotConfigured => !state.tls,
            Error::InvalidImageId => state.tls && !state.images.contains_key(option.image.0),
            _ => false,
        },
        !state.tls ==> reaction is Refuse,
{
}

/// What the manager does about the removal of a proxy is to clean up the proxy that stands under
/// the identifier and to forget it alone, or to refuse where none does.
pub proof fn law_removal_is_of_one_proxy(
    state: ConnmanView,
    id: Id,
    after: ConnmanView,
    reaction: Reaction,
    other: u64,
)
    requires
        state.reacts(Msg::StopProxy(id), after, reaction),
    ensures
        reaction is Cleanup <==> state.proxies.contains_key(id.0),
        reaction is Refuse <==> !state.proxies.contains_key(id.0),
        reaction matches Reaction::Refuse(error) ==> error == Error::InvalidProxyId,
        reaction matches Reaction::Cleanup { proxy_id, proxy } ==> proxy_id@ == id.0 && proxy
            == state.proxies[id.0],
        after.proxies.contains_key(other) <==> state.proxies.contains_key(other) && other != id.0,
        after.proxies.contains_key(other) ==> after.proxies[other] == state.proxies[other],
        after.images == state.images,
        after.backends == state.backends,
{
}

/// Taking a proxy out by its identifier hands out the proxy that stood there, and fails exactly
/// where none did. It forgets that proxy alone.
pub proof fn law_stopped_proxy_is_handed_out(
    state: ConnmanView,
    id: u64,
    after: ConnmanView,
    result: Result<Proxy, Error>,
    other: u64,
)
    requires
        state.removes(id, after, result),
    ensures
        state.proxies.contains_key(id) ==> result == Ok::<Proxy, Error>(state.proxies[id]),
        !state.proxies.contains_key(id) ==> result == Err::<Proxy, Error>(Error::ProxyNotFound),
        after.proxies.contains_key(other) <==> state.proxies.contains_key(other) && other != id,
        after.images == state.images,
        after.backends == state.backends,
{
}

/// A deployed proxy can be found under its identifier, and the others as before; once it is gone
/// again, because it was removed or its listener has ended, it alone cannot.
pub proof fn law_deployed_proxy_can_be_found(state: ConnmanView, proxy: Proxy, other: u64)
    ensures
        state.with_proxy(proxy).proxies.contains_key(other) <==> state.proxies.contains_key(other)
            || other == id_of(proxy),
        !state.proxies.contains_key(id_of(proxy)) ==> state.with_proxy(proxy).proxies[id_of(proxy)]
            == proxy,
        state.proxies.contains_key(other) ==> state.with_proxy(proxy).proxies[other]
            == state.proxies[other],
        state.with_proxy(proxy).images == state.images,
        state.with_proxy(proxy).backends == state.backends,
        state.without_proxy(id_of(proxy)).proxies.contains_key(other)
            <==> state.proxies.contains_key(other) && other != id_of(proxy),
        state.without_proxy(id_of(proxy)).images == state.images,
        state.without_proxy(id_of(proxy)).backends == state.backends,
{
}

/// The cleanup of a proxy whose listener has ended begins with its own container.
pub proof fn law_ended_listener_stops_its_container(proxy: Proxy)
    ensures
        cleanup_start(proxy) matches CleanupStep::StopContainer(docker::Msg::Stop(id)) && id
            == proxy.spec_container(),
{
}

/// A registration makes the image known under its identifier, and answers with that identifier
/// exactly where every pull has succeeded; otherwise with the failure of the first one that has
/// not. What is registered already stays.
pub proof fn law_registration_is_answered(
    state: ConnmanView,
    option: ImageOption,
    after: ConnmanView,
    reaction: Reaction,
    results: Seq<Result<ImageId, docker::Error>>,
    i: int,
    other: u64,
)
    requires
        state.reacts(Msg::RegisterImage(option), after, reaction),
    ensures
        reaction matches Reaction::PullAll { backends, image_id } && image_id@ == id_of(option),
        after.images.contains_key(id_of(option)),
        !state.images.contains_key(id_of(option)) ==> after.images[id_of(option)] == option,
        state.images.contains_key(other) ==> after.images.contains_key(other)
            && after.images[other] == state.images[other],
        after.proxies == state.proxies,
        after.backends == state.backends,
        (forall|k: int| 0 <= k < results.len() ==> #[trigger] results[k] is Ok)
            ==> registration_answer(id_of(option), results) == Ok::<Id, Error>(
            Id(id_of(option)),
        ),
        0 <= i < results.len() && results[i] is Err && (forall|k: int|
            0 <= k < i ==> #[trigger] results[k] is Ok) ==> registration_answer(
            id_of(option),
            results,
        ) == Err::<Id, Error>(Error::Docker(results[i]->Err_0)),
{
    law_first_failed_pull_decides(results);
}

/// Every Docker host of the builder is managed, in order, with all its ports from the first to the
/// last free, and encrypted connections are served exactly where that was asked for, with what was
/// given for it. Nothing is registered at first.
pub proof fn law_everything_is_built(from: ConnmanBuilder, built: Built, i: int, port: u16)
    requires
        is_built(from, built),
        0 <= i < from.spec_docker().len(),
    ensures
        built.docker@.len() == from.spec_docker().len(),
        built.docker@[i] == from.spec_docker()[i],
        built.connman@.backends.len() == from.spec_docker().len(),
        built.connman@.backends[i].host == from.spec_docker()[i].spec_host(),
        built.connman@.backends[i].ports.is_free(port) <==> 30_000 <= port < 60_000,
        built.connman@.tls <==> from.spec_tls() is Some,
        built.tls is Some <==> from.spec_tls() is Some,
        built.tls matches Some(listener) ==> listener.spec_listen_port() == 443
            && listener.spec_cert() == from.spec_tls()->0.cert@ && listener.spec_key()
            == from.spec_tls()->0.key@ && listener.spec_domain() == from.spec_tls()->0.host@
            && listener.spec_address() == from.spec_proxy_host(),
        forall|k: u64| !#[trigger] built.connman@.images.contains_key(k),
        forall|k: u64| !#[trigger] built.connman@.proxies.contains_key(k),
{
}

/// A port that is given back is free again, where it belongs to the range; no other port changes,
/// and one above the range changes nothing.
pub proof fn law_released_port_is_free(range: PortRangeView, port: u16, other: u16)
    ensures
        range.start <= port < range.end ==> range.released(port).is_free(port),
        other != port ==> range.released(port).is_free(other) == range.is_free(other),
        port > range.end ==> range.released(port) == range,
        range.released(port).start == range.start,
        range.released(port).end == range.end,
{
}

/// The port that is handed out is the lowest of the range that is not taken, and it is taken after
/// that and no other is. None is handed out exactly where all are taken.
pub proof fn law_lowest_free_port_is_handed_out(
    range: PortRangeView,
    port: Option<u16>,
    after: PortRangeView,
    other: u16,
)
    requires
        range.acquires(port, after),
    ensures
        port matches Some(p) ==> range.start <= p < range.end && !range.taken.contains(p) && (
        range.start <= other < p ==> range.taken.contains(other)),
        port is None && range.start <= other < range.end ==> range.taken.contains(other),
        after.taken.contains(other) <==> range.taken.contains(other) || port == Some(other),
        after.start == range.start,
        after.end == range.end,
{
    if range.start <= other < range.end && !range.taken.contains(other) {
        assert(range.is_free(other));
    }
}

/// The name of a container for plain connections is the number that the hash of the request gives,
/// and so is that of one for encrypted connections.
pub proof fn law_names_are_hashes(a: TcpProxy, b: TlsProxy)
    ensures
        number_of(tcp_name(a)) == hash_of(tcp_name_bytes(a)),
        number_of(tls_name(b)) == hash_of(tls_name_bytes(b)),
        tcp_name_bytes(a).take(8) == le_bytes(a.image_id.0 as nat, 8),
        tcp_name_bytes(a).subrange(8, 10) == le_bytes(a.listen_port as nat, 2),
        a.env is None ==> tcp_name_bytes(a).len() == 10,
        tls_name_bytes(b).take(8) == le_bytes(b.image.0 as nat, 8),
        tls_name_bytes(b).skip(8) == vstd::utf8::encode_utf8(
            match b.env {
                Some(e) => b.host@ + e.key@ + e.value@,
                None => b.host@,
            },
        ),
{
    law_decimal_reads_back(hash_of(tcp_name_bytes(a)) as nat);
    law_decimal_reads_back(hash_of(tls_name_bytes(b)) as nat);
    law_le_bytes_len(a.image_id.0 as nat, 8);
    law_le_bytes_len(a.listen_port as nat, 2);
    law_le_bytes_len(b.image.0 as nat, 8);
    assert(tcp_name_bytes(a).take(8) =~= le_bytes(a.image_id.0 as nat, 8));
    assert(tcp_name_bytes(a).subrange(8, 10) =~= le_bytes(a.listen_port as nat, 2));
    assert(tls_name_bytes(b).take(8) =~= le_bytes(b.image.0 as nat, 8));
    assert(tls_name_bytes(b).skip(8) =~= vstd::utf8::encode_utf8(tls_name_text(b)));
}

/// The errors of the manager are told apart by what they say, and that of a Docker host is passed
/// on as it is.
pub proof fn law_errors_are_passed_on(error: docker::Error)
    ensures
        error_text(Error::Docker(error)) == docker::error_text(error),
        error_text(Error::NoDockerBackend) == "No Docker backend configured!"@,
        error_text(Error::InvalidImageId) == "Invalid ImageId"@,
        error_text(Error::NoPortLeft) == "No port left on docker host"@,
        error_text(Error::TlsNotConfigured) == "TLS Listener not configured"@,
        error_text(Error::InvalidProxyId) == "Invalid ProxyId"@,
        error_text(Error::ProxyNotFound) == "ProxyId not found"@,
{
}

/// A new range holds the ports from its start up to its end, all of them free.
pub proof fn law_new_range_is_free(start: u16, end: u16, port: u16)
    ensures
        fresh_range(start, end).is_free(port) <==> start <= port < end,
        fresh_range(start, end).holds(port) <==> start <= port < end,
        !fresh_range(start, end).taken.contains(port),
{
}

/// Numbers pick in turn: each of the hosts is picked by its own number, the next number picks the
/// next host, and the first one after the last.
pub proof fn law_numbers_pick_in_turn(random: usize, count: usize)
    requires
        count > 0,
    ensures
        0 <= picked(random, count) < count,
        random < count ==> picked(random, count) == random,
        random < usize::MAX ==> picked((random + 1) as usize, count) == (if picked(random, count)
            == count - 1 {
            0
        } else {
            picked(random, count) + 1
        }),
{
    let r = random as int;
    let n = count as int;
    vstd::arithmetic::div_mod::lemma_fundamental_div_mod(r, n);
    vstd::arithmetic::div_mod::lemma_mod_bound(r, n);
    let q = r / n;
    let m = r % n;
    if m == n - 1 {
        assert(r + 1 == (q + 1) * n + 0) by (nonlinear_arith)
            requires
                r == n * q + m,
                m == n - 1,
        ;
        vstd::arithmetic::div_mod::lemma_fundamental_div_mod_converse(r + 1, n, q + 1, 0);
    } else {
        assert(r + 1 == q * n + (m + 1)) by (nonlinear_arith)
            requires
                r == n * q + m,
        ;
        vstd::arithmetic::div_mod::lemma_fundamental_div_mod_converse(r + 1, n, q, m + 1);
    }
    if r < n {
        vstd::arithmetic::div_mod::lemma_small_mod(random as nat, count as nat);
    }
}

/// What is set in a builder stays set: the manager that comes of it has every Docker host that was
/// added, in the order in which they were, and serves encrypted connections on the address, and
/// with the certificates, the key and the host, that were set, whatever was set after them.
pub proof fn law_what_is_set_is_built(
    begun: ConnmanBuilder,
    first: Seq<char>,
    first_port: u16,
    one: ConnmanBuilder,
    identity: TlsIdentity,
    two: ConnmanBuilder,
    second: Seq<char>,
    second_port: u16,
    three: ConnmanBuilder,
    address: Seq<char>,
    four: ConnmanBuilder,
    built: Built,
)
    requires
        adds_docker(begun, first, first_port, one),
        sets_tls(one, identity, two),
        adds_docker(two, second, second_port, three),
        sets_proxy_host(three, address, four),
        is_built(four, built),
    ensures
        ({
            let n = begun.spec_docker().len() as int;
            &&& built.docker@.len() == n + 2
            &&& forall|i: int|
                0 <= i < n ==> #[trigger] built.docker@[i] == begun.spec_docker()[i]
            &&& built.docker@[n].spec_host() == first
            &&& built.docker@[n].spec_port() == first_port
            &&& built.docker@[n + 1].spec_host() == second
            &&& built.docker@[n + 1].spec_port() == second_port
            &&& built.connman@.backends.len() == n + 2
            &&& built.connman@.backends[n].host == first
            &&& built.connman@.backends[n + 1].host == second
        }),
        built.tls matches Some(listener) && listener.spec_cert() == identity.cert@
            && listener.spec_key() == identity.key@ && listener.spec_domain() == identity.host@
            && listener.spec_address() == address && listener.spec_listen_port() == 443,
        is_begun(begun) ==> built.docker@.len() == 2,
{
    let n = begun.spec_docker().len() as int;
    assert(one.spec_docker().drop_last() == begun.spec_docker());
    assert(three.spec_docker().drop_last() == one.spec_docker());
    assert(built.docker@[n] == three.spec_docker().drop_last()[n]);
    assert forall|i: int| 0 <= i < n implies #[trigger] built.docker@[i]
        == begun.spec_docker()[i] by {
        assert(built.docker@[i] == three.spec_docker().drop_last()[i]);
        assert(one.spec_docker()[i] == one.spec_docker().drop_last()[i]);
    }
}

/// Encrypted connections are set only by setting them; with them set again, the last setting
/// counts, as it does for the address, and a Docker host that is added after that changes neither.
/// Nothing is known of the containers of a Docker host that was just added.
pub proof fn law_last_setting_counts(
    begun: ConnmanBuilder,
    a: TlsIdentity,
    one: ConnmanBuilder,
    b: TlsIdentity,
    two: ConnmanBuilder,
    x: Seq<char>,
    three: ConnmanBuilder,
    y: Seq<char>,
    four: ConnmanBuilder,
    plain: ConnmanBuilder,
    addr: Seq<char>,
    port: u16,
    five: ConnmanBuilder,
)
    requires
        is_begun(begun),
        sets_tls(begun, a, one),
        sets_tls(one, b, two),
        sets_proxy_host(two, x, three),
        sets_proxy_host(three, y, four),
        sets_proxy_host(begun, x, plain),
        adds_docker(four, addr, port, five),
    ensures
        plain.spec_tls() is None,
        plain.spec_docker().len() == 0,
        four.spec_tls() == Some(b),
        four.spec_proxy_host() == y,
        two.spec_proxy_host() == ANY_ADDRESS@,
        four.spec_docker().len() == 0,
        five.spec_tls() == Some(b),
        five.spec_proxy_host() == y,
        five.spec_docker().len() == 1,
        forall|id: u64| !#[trigger] five.spec_docker()[0].spec_status().contains_key(id),
        forall|id: u64| !#[trigger] five.spec_docker()[0].spec_containers().contains_key(id),
{
}

/// A request for encrypted connections that is refused after its port was looked for leaves that
/// port taken: the lowest one that was free, and no other.
pub proof fn law_refused_encrypted_plan_keeps_its_port(
    state: ConnmanView,
    first: usize,
    second: usize,
    option: TlsProxy,
    after: ConnmanView,
    error: Error,
)
    requires
        first < state.backends.len(),
        state.plans_tls(first, second, option, after, Err(error)),
    ensures
        error == Error::NoPortLeft ==> after == state,
        error != Error::NoPortLeft ==> exists|port: u16|
            {
                &&& #[trigger] state.backends[first as int].ports.is_free(port)
                &&& forall|q: u16|
                    q < port ==> !#[trigger] state.backends[first as int].ports.is_free(q)
                &&& forall|i: int, q: u16|
                    0 <= i < state.backends.len() ==> (#[trigger] after.backends[i].ports.is_free(q)
                        <==> state.backends[i].ports.is_free(q) && !(i == first && q == port))
            },
        after.images == state.images,
        after.proxies == state.proxies,
{
    if error != Error::NoPortLeft {
        let ports = state.backends[first as int].ports;
        let port = choose|port: u16| #[trigger]
            ports.is_lowest_free(port) && after == state.take_port(first as int, port);
        assert(ports.is_free(port));
    }
}

} // verus!
