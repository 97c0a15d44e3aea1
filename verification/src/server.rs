//! Requests of clients: what they turn into, how they are answered and how a log of them is
//! replayed.

use vstd::prelude::*;
use vstd::string::*;

use crate::connman::{fresh_backend, Id, Msg, PortRange, PortRangeView, TcpProxy, Url};
use crate::docker::{Env, ImageOption, ImageRegistry};
use crate::id::{id_of, registered};
use crate::text;
use crate::text::{decimal, law_decimal_reads_back, number_of};

verus! {

/// First port that a proxy listens on.
pub const HOST_PORT_START: u16 = 10_000;

/// Port after the last one that a proxy listens on.
pub const HOST_PORT_END: u16 = 30_000;

/// Asks for a listener for encrypted connections.
#[derive(Clone, Copy, Debug, PartialEq, Eq, Structural)]
pub struct AddTlsListenerRequest {}

/// Asks for an image to be registered.
#[derive(Debug)]
pub struct RegisterImageRequest {
    pub image: String,
    pub tag: String,
    /// Port that the image exposes.
    pub port: u32,
}

impl Clone for RegisterImageRequest {
    fn clone(&self) -> (r: Self)
        ensures
            r == *self,
    {
        RegisterImageRequest { image: self.image.clone(), tag: self.tag.clone(), port: self.port }
    }
}

/// Asks for a proxy.
#[derive(Debug)]
pub struct AddProxyRequest {
    /// Identifier of the image.
    pub id: u64,
    /// Name of an environment variable of the container.
    pub env_key: Option<String>,
    /// Value of the variable.
    pub env_value: Option<String>,
}

impl Clone for AddProxyRequest {
    fn clone(&self) -> (r: Self)
        ensures
            r == *self,
    {
        AddProxyRequest {
            id: self.id,
            env_key: text::clone_text(&self.env_key),
            env_value: text::clone_text(&self.env_value),
        }
    }
}

/// Asks for a proxy to be removed.
#[derive(Clone, Copy, Debug, PartialEq, Eq, Structural)]
pub struct RemoveProxyRequest {
    /// Identifier of the proxy.
    pub id: u64,
}

/// A request as the log keeps it.
#[derive(Debug)]
pub enum RequestType {
    AddTlsListener(AddTlsListenerRequest),
    RegisterImage(RegisterImageRequest),
    /// A proxy was asked for and given this port to listen on.
    AddProxy(AddProxyRequest, u16),
    RemoveProxy(RemoveProxyRequest),
}

/// What comes of a registration.
#[derive(Debug)]
pub enum RegisterImageResult {
    Id(u64),
    Error(String),
}

/// Answers a registration.
#[derive(Debug)]
pub struct RegisterImageResponse {
    pub ok: bool,
    pub response: Option<RegisterImageResult>,
}

/// An active proxy.
#[derive(Debug)]
pub struct Proxy {
    pub proxy_id: u64,
    pub host: String,
    pub port: String,
}

/// What comes of asking for a proxy.
#[derive(Debug)]
pub enum AddProxyResult {
    Proxy(Proxy),
    Error(String),
}

/// Answers a request for a proxy.
#[derive(Debug)]
pub struct AddProxyResponse {
    pub ok: bool,
    pub response: Option<AddProxyResult>,
}

/// What comes of a removal.
#[derive(Debug)]
pub enum RemoveProxyResult {
    Id(u64),
    Error(String),
}

/// Answers a removal.
#[derive(Debug)]
pub struct RemoveProxyResponse {
    pub ok: bool,
    pub response: Option<RemoveProxyResult>,
}

/// What replaying a request takes.
#[derive(Debug)]
pub enum Replay {
    /// Send this to the manager.
    Send(Msg),
    /// Call `_add_proxy` with this request and port, and send what comes of it.
    AddProxy(AddProxyRequest, u16),
}

/// What replaying a log takes.
#[derive(Debug)]
pub struct ReplayedLog {
    /// What the requests take, in order.
    pub replays: Vec<Replay>,
    /// Whether these are all requests. If not, the next one cannot be replayed.
    pub complete: bool,
}

/// The environment variable that a request asks for: there is one only where both its name and
/// its value are given.
pub open spec fn requested_env(request: AddProxyRequest) -> Option<Env> {
    match (request.env_key, request.env_value) {
        (Some(key), Some(value)) => Some(Env { key, value }),
        _ => None,
    }
}

/// The image that a request asks for: its port is cut to sixteen bits, and it is pulled anew each
/// time.
pub open spec fn requested_image(request: RegisterImageRequest) -> ImageOption {
    ImageOption {
        always_pull: true,
        name: request.image,
        tag: request.tag,
        service_port: (request.port % 0x1_0000) as u16,
        credentials: None,
    }
}

/// How a request of the log is replayed, where it can be.
pub open spec fn replay_of(request: RequestType) -> Option<Replay> {
    match request {
        RequestType::RegisterImage(msg) => Some(
            Replay::Send(Msg::RegisterImage(requested_image(msg))),
        ),
        RequestType::AddProxy(msg, host_port) => Some(Replay::AddProxy(msg, host_port)),
        RequestType::RemoveProxy(msg) => Some(Replay::Send(Msg::StopProxy(Id(msg.id)))),
        RequestType::AddTlsListener(_) => None,
    }
}

/// Whether `r` replays `requests` up to the first one that cannot be replayed.
pub open spec fn replays(requests: Seq<RequestType>, r: ReplayedLog) -> bool {
    &&& forall|i: int|
        0 <= i < r.replays@.len() ==> replay_of(requests[i]) == Some(#[trigger] r.replays@[i])
    &&& if r.complete {
        r.replays@.len() == requests.len()
    } else {
        r.replays@.len() < requests.len() && replay_of(requests[r.replays@.len() as int]) is None
    }
}

/// Whether `r` is what becomes of a request for a proxy that listens on `host_port` and is reached
/// at `proxy_host`.
pub open spec fn adds_proxy(
    host_port: u16,
    request: AddProxyRequest,
    images: Map<u64, ImageOption>,
    proxy_host: Seq<char>,
    r: Result<Msg, String>,
) -> bool {
    if images.contains_key(request.id) {
        &&& r matches Ok(Msg::TcpProxy(option))
        &&& option.host@ == proxy_host
        &&& option.listen_port == host_port
        &&& option.image_id == Id(request.id)
        &&& option.env == requested_env(request)
    } else {
        r matches Err(message) && message@ == "Invalid ImageId"@
    }
}

/// Whether a request for a proxy that meets the ports `ports` is taken with `r`, what to log and
/// what to send, and leaves the ports `after`.
pub open spec fn takes_request(
    ports: PortRangeView,
    proxy_host: Seq<char>,
    request: AddProxyRequest,
    images: Map<u64, ImageOption>,
    after: PortRangeView,
    r: (RequestType, Result<Msg, String>),
) -> bool {
    &&& r.0 matches RequestType::AddProxy(logged, port)
    &&& logged == request
    &&& ports.acquires(Some(port), after)
    &&& adds_proxy(port, request, images, proxy_host, r.1)
}

/// Whether the requests are taken one after another: `ports[i]` is what the request at `i` meets,
/// `images[i]` what is registered at that time, and `taken[i]` what comes of the request.
pub open spec fn takes_requests(
    ports: Seq<PortRangeView>,
    proxy_host: Seq<char>,
    requests: Seq<AddProxyRequest>,
    images: Seq<Map<u64, ImageOption>>,
    taken: Seq<(RequestType, Result<Msg, String>)>,
) -> bool {
    &&& ports.len() == requests.len() + 1
    &&& images.len() == requests.len()
    &&& taken.len() == requests.len()
    &&& forall|i: int|
        0 <= i < requests.len() ==> takes_request(
            ports[i],
            proxy_host,
            requests[i],
            images[i],
            ports[i + 1],
            #[trigger] taken[i],
        )
}

/// The message to the manager about a removal.
pub open spec fn removal_message(request: RemoveProxyRequest) -> Msg {
    Msg::StopProxy(Id(request.id))
}

/// Whether `r` is what to log and what to send about a registration.
pub open spec fn takes_registration(
    request: RegisterImageRequest,
    r: (RequestType, Msg),
) -> bool {
    &&& r.0 == RequestType::RegisterImage(request)
    &&& r.1 == Msg::RegisterImage(requested_image(request))
}

/// Whether `r` is what to log and what to send about a removal.
pub open spec fn takes_removal(request: RemoveProxyRequest, r: (RequestType, Msg)) -> bool {
    &&& r.0 == RequestType::RemoveProxy(request)
    &&& r.1 == removal_message(request)
}

/// Whether `proxy` is what the client is told of a proxy that is known to the manager as `id` and
/// reached at `url`.
pub open spec fn tells_of(id: Id, url: Url, proxy: Proxy) -> bool {
    &&& proxy.proxy_id == id.0
    &&& proxy.host == url.host
    &&& proxy.port@ == decimal(url.port as nat)
}

/// The answer to a registration.
pub open spec fn registration_response(result: Result<Id, String>) -> RegisterImageResponse {
    RegisterImageResponse {
        ok: false,
        response: Some(
            match result {
                Ok(id) => RegisterImageResult::Id(id.0),
                Err(message) => RegisterImageResult::Error(message),
            },
        ),
    }
}

/// The answer to a request for a proxy.
pub open spec fn proxy_response(result: Result<Proxy, String>) -> AddProxyResponse {
    match result {
        Ok(proxy) => AddProxyResponse { ok: true, response: Some(AddProxyResult::Proxy(proxy)) },
        Err(message) => AddProxyResponse {
            ok: false,
            response: Some(AddProxyResult::Error(message)),
        },
    }
}

/// The answer to a removal.
pub open spec fn removal_response(result: Result<Id, String>) -> RemoveProxyResponse {
    match result {
        Ok(id) => RemoveProxyResponse { ok: true, response: Some(RemoveProxyResult::Id(id.0)) },
        Err(message) => RemoveProxyResponse {
            ok: false,
            response: Some(RemoveProxyResult::Error(message)),
        },
    }
}

/// The ports that proxies listen on, before any is taken.
pub open spec fn listen_ports() -> PortRangeView {
    PortRangeView { start: HOST_PORT_START, end: HOST_PORT_END, taken: Set::empty() }
}

/// Turns a removal into a message to the manager.
pub fn _stop_proxy(request: RemoveProxyRequest) -> (msg: Msg)
    ensures
        msg == Msg::StopProxy(Id(request.id)),
        msg == removal_message(request),
{
    Msg::StopProxy(Id(request.id))
}

/// Turns a registration into a message to the manager.
pub fn _register_image(request: RegisterImageRequest) -> (msg: Msg)
    ensures
        msg == Msg::RegisterImage(requested_image(request)),
{
    Msg::RegisterImage(
        ImageOption {
            always_pull: true,
            service_port: (request.port % 0x1_0000) as u16,
            name: request.image,
            tag: request.tag,
            credentials: None,
        },
    )
}

/// Turns a request for a proxy into a message to the manager, where the image is registered.
pub fn _add_proxy(
    host_port: u16,
    request: AddProxyRequest,
    images: &ImageRegistry,
    proxy_host: &str,
) -> (r: Result<Msg, String>)
    ensures
        adds_proxy(host_port, request, images@, proxy_host@, r),
{
    let image_id = match images.is_valid(request.id) {
        Some(image_id) => image_id,
        None => {
            return Err("Invalid ImageId".to_owned());
        },
    };
    let env = match (request.env_key, request.env_value) {
        (Some(key), Some(value)) => Some(Env { key, value }),
        _ => None,
    };
    Ok(
        Msg::TcpProxy(
            TcpProxy {
                host: proxy_host.to_owned(),
                listen_port: host_port,
                image_id: Id(image_id.value()),
                env,
            },
        ),
    )
}

/// Turns the answer of the manager to a request for a proxy into what the client is told of it.
pub fn proxy_added(id: Id, url: Url) -> (proxy: Proxy)
    ensures
        proxy.proxy_id == id.0,
        proxy.host == url.host,
        proxy.port@ == decimal(url.port as nat),
        tells_of(id, url, proxy),
{
    Proxy { proxy_id: id.0, host: url.host, port: text::to_decimal(url.port as u64) }
}

/// Answers a registration. The answer is marked as not in order whatever came of it.
pub fn register_image_response(result: Result<Id, String>) -> (response: RegisterImageResponse)
    ensures
        response == (RegisterImageResponse {
            ok: false,
            response: Some(
                match result {
                    Ok(id) => RegisterImageResult::Id(id.0),
                    Err(message) => RegisterImageResult::Error(message),
                },
            ),
        }),
        response == registration_response(result),
{
    let response = match result {
        Ok(id) => RegisterImageResult::Id(id.0),
        Err(message) => RegisterImageResult::Error(message),
    };
    RegisterImageResponse { ok: false, response: Some(response) }
}

/// Answers a request for a proxy.
pub fn add_proxy_response(result: Result<Proxy, String>) -> (response: AddProxyResponse)
    ensures
        response == (match result {
            Ok(proxy) => AddProxyResponse {
                ok: true,
                response: Some(AddProxyResult::Proxy(proxy)),
            },
            Err(message) => AddProxyResponse {
                ok: false,
                response: Some(AddProxyResult::Error(message)),
            },
        }),
        response == proxy_response(result),
{
    match result {
        Ok(proxy) => AddProxyResponse { ok: true, response: Some(AddProxyResult::Proxy(proxy)) },
        Err(message) => AddProxyResponse {
            ok: false,
            response: Some(AddProxyResult::Error(message)),
        },
    }
}

/// Answers a removal.
pub fn remove_proxy_response(result: Result<Id, String>) -> (response: RemoveProxyResponse)
    ensures
        response == (match result {
            Ok(id) => RemoveProxyResponse {
                ok: true,
                response: Some(RemoveProxyResult::Id(id.0)),
            },
            Err(message) => RemoveProxyResponse {
                ok: false,
                response: Some(RemoveProxyResult::Error(message)),
            },
        }),
        response == removal_response(result),
{
    match result {
        Ok(id) => RemoveProxyResponse { ok: true, response: Some(RemoveProxyResult::Id(id.0)) },
        Err(message) => RemoveProxyResponse {
            ok: false,
            response: Some(RemoveProxyResult::Error(message)),
        },
    }
}

/// Replays a log of requests, each in its turn, up to the first one that cannot be replayed.
pub fn reply_log(requests: Vec<RequestType>) -> (r: ReplayedLog)
    ensures
        replays(requests@, r),
{
    let ghost all = requests@;
    let mut replays: Vec<Replay> = Vec::new();
    for request in it: requests
        invariant
            it.seq() == all,
            replays@.len() == it.index(),
            forall|k: int|
                0 <= k < replays@.len() ==> replay_of(all[k]) == Some(#[trigger] replays@[k]),
    {
        let ghost i = it.index() as int;
        match request {
            RequestType::RegisterImage(msg) => {
                replays.push(Replay::Send(_register_image(msg)));
            },
            RequestType::AddProxy(msg, host_port) => {
                replays.push(Replay::AddProxy(msg, host_port));
            },
            RequestType::RemoveProxy(msg) => {
                replays.push(Replay::Send(_stop_proxy(msg)));
            },
            RequestType::AddTlsListener(_) => {
                assert(replay_of(all[i]) is None);
                return ReplayedLog { replays, complete: false };
            },
        }
    }
    ReplayedLog { replays, complete: true }
}

/// Serves the requests of clients.
#[derive(Debug)]
pub struct ImplConnMan {
    host_port: PortRange,
    proxy_host: String,
}

impl ImplConnMan {
    /// Ports that proxies listen on.
    pub closed spec fn spec_ports(&self) -> PortRangeView {
        self.host_port@
    }

    /// Address at which proxies are reached.
    pub closed spec fn spec_proxy_host(&self) -> Seq<char> {
        self.proxy_host@
    }

    /// Whether the ports are well formed.
    pub closed spec fn wf(&self) -> bool {
        self.host_port.wf()
    }

    /// Begins with all ports free.
    pub fn new(proxy_host: String) -> (r: Self)
        ensures
            r.wf(),
            r.spec_ports() == (PortRangeView {
                start: HOST_PORT_START,
                end: HOST_PORT_END,
                taken: Set::empty(),
            }),
            r.spec_ports() == listen_ports(),
            r.spec_proxy_host() == proxy_host@,
    {
        ImplConnMan { host_port: PortRange::new(HOST_PORT_START, HOST_PORT_END), proxy_host }
    }

    /// Returns the address at which proxies are reached.
    pub fn proxy_host(&self) -> (host: &str)
        ensures
            host@ == self.spec_proxy_host(),
    {
        self.proxy_host.as_str()
    }

    /// Takes a registration: returns what to log and what to send to the manager.
    pub fn register_image(&self, request: RegisterImageRequest) -> (r: (RequestType, Msg))
        ensures
            r.0 == RequestType::RegisterImage(request),
            r.1 == Msg::RegisterImage(requested_image(request)),
            takes_registration(request, r),
    {
        let entry = RequestType::RegisterImage(request.clone());
        (entry, _register_image(request))
    }

    /// Tells whether there is a port left for a proxy to listen on.
    pub fn has_port(&self) -> (r: bool)
        requires
            self.wf(),
        ensures
            r == !self.spec_ports().is_exhausted(),
    {
        self.host_port.has_free_port()
    }

    /// Takes a request for a proxy, while there is a port left for it to listen on: returns what
    /// to log and what to send to the manager, or why nothing is to be sent. The port is taken
    /// either way.
    pub fn add_proxy(&mut self, request: AddProxyRequest, images: &ImageRegistry) -> (r: (
        RequestType,
        Result<Msg, String>,
    ))
        requires
            old(self).wf(),
            !old(self).spec_ports().is_exhausted(),
        ensures
            final(self).wf(),
            final(self).spec_proxy_host() == old(self).spec_proxy_host(),
            exists|port: u16| #[trigger]
                old(self).spec_ports().is_lowest_free(port) && final(self).spec_ports()
                    == old(self).spec_ports().take_port(port) && r.0 == RequestType::AddProxy(
                    request,
                    port,
                ) && adds_proxy(port, request, images@, old(self).spec_proxy_host(), r.1),
            takes_request(
                old(self).spec_ports(),
                old(self).spec_proxy_host(),
                request,
                images@,
                final(self).spec_ports(),
                r,
            ),
    {
        let host_port: u16 = self.host_port.aquire_port().unwrap();
        assert(old(self).spec_ports().is_lowest_free(host_port));
        let entry = RequestType::AddProxy(request.clone(), host_port);
        (entry, _add_proxy(host_port, request, images, self.proxy_host.as_str()))
    }

    /// Takes a removal: returns what to log and what to send to the manager.
    pub fn remove_proxy(&self, request: RemoveProxyRequest) -> (r: (RequestType, Msg))
        ensures
            r.0 == RequestType::RemoveProxy(request),
            r.1 == Msg::StopProxy(Id(request.id)),
            takes_removal(request, r),
    {
        (RequestType::RemoveProxy(request), _stop_proxy(request))
    }
}

/// Once an image is registered, a proxy for it can be asked for by its identifier.
pub proof fn law_registered_image_is_accepted(
    images: Map<u64, ImageOption>,
    registration: RegisterImageRequest,
    host_port: u16,
    request: AddProxyRequest,
    proxy_host: Seq<char>,
    r: Result<Msg, String>,
)
    requires
        request.id == id_of(requested_image(registration)),
        adds_proxy(
            host_port,
            request,
            registered(images, requested_image(registration)),
            proxy_host,
            r,
        ),
    ensures
        r matches Ok(Msg::TcpProxy(option)) && option.image_id.0 == request.id,
{
}

/// What was logged of a request is replayed as what the request was turned into.
pub proof fn law_replay_repeats_the_request(
    registration: RegisterImageRequest,
    request: AddProxyRequest,
    host_port: u16,
    removal: RemoveProxyRequest,
)
    ensures
        replay_of(RequestType::RegisterImage(registration)) == Some(
            Replay::Send(Msg::RegisterImage(requested_image(registration))),
        ),
        replay_of(RequestType::AddProxy(request, host_port)) == Some(
            Replay::AddProxy(request, host_port),
        ),
        replay_of(RequestType::RemoveProxy(removal)) == Some(
            Replay::Send(Msg::StopProxy(Id(removal.id))),
        ),
{
}

/// A log is replayed whole exactly where each of its requests can be replayed.
pub proof fn law_log_is_replayed_whole(requests: Seq<RequestType>, r: ReplayedLog)
    requires
        replays(requests, r),
    ensures
        r.complete <==> forall|i: int|
            0 <= i < requests.len() ==> replay_of(#[trigger] requests[i]) is Some,
{
    if r.complete {
        assert forall|i: int| 0 <= i < requests.len() implies replay_of(
            #[trigger] requests[i],
        ) is Some by {
            assert(replay_of(requests[i]) == Some(r.replays@[i]));
        }
    } else {
        assert(replay_of(requests[r.replays@.len() as int]) is None);
    }
}

/// A proxy listens on the port that was logged for it, at the address of the server, for the image
/// that was asked for, with the variable of which both the name and the value were given.
pub proof fn law_proxy_listens_on_the_logged_port(
    ports: PortRangeView,
    proxy_host: Seq<char>,
    request: AddProxyRequest,
    images: Map<u64, ImageOption>,
    after: PortRangeView,
    logged: AddProxyRequest,
    port: u16,
    sent: Result<Msg, String>,
)
    requires
        takes_request(
            ports,
            proxy_host,
            request,
            images,
            after,
            (RequestType::AddProxy(logged, port), sent),
        ),
    ensures
        logged == request,
        sent is Ok <==> images.contains_key(request.id),
        sent matches Err(message) ==> message@ == "Invalid ImageId"@,
        sent matches Ok(msg) ==> msg is TcpProxy,
        sent matches Ok(Msg::TcpProxy(option)) ==> {
            &&& option.listen_port == port
            &&& option.host@ == proxy_host
            &&& option.image_id.0 == request.id
            &&& option.env is Some <==> request.env_key is Some && request.env_value is Some
            &&& option.env matches Some(e) ==> Some(e.key) == request.env_key && Some(e.value)
                == request.env_value
        },
        ports.start <= port < ports.end,
        !ports.taken.contains(port),
        forall|q: u16| ports.start <= q < port ==> #[trigger] ports.taken.contains(q),
        forall|q: u16| #[trigger]
            after.taken.contains(q) <==> ports.taken.contains(q) || q == port,
{
    assert forall|q: u16| ports.start <= q < port implies #[trigger] ports.taken.contains(q) by {
        assert(!ports.is_free(q));
    }
}

/// Of the requests to one server, any two that are accepted have their proxies listen on two ports,
/// and any two at all are logged with two.
pub proof fn law_two_requests_two_listen_ports(
    ports: Seq<PortRangeView>,
    proxy_host: Seq<char>,
    requests: Seq<AddProxyRequest>,
    images: Seq<Map<u64, ImageOption>>,
    taken: Seq<(RequestType, Result<Msg, String>)>,
    i: int,
    j: int,
)
    requires
        takes_requests(ports, proxy_host, requests, images, taken),
        0 <= i < j < requests.len(),
    ensures
        taken[i].0->AddProxy_1 != taken[j].0->AddProxy_1,
        taken[i].1 matches Ok(Msg::TcpProxy(a)) ==> taken[j].1 matches Ok(Msg::TcpProxy(b))
            ==> a.listen_port != b.listen_port,
{
    let port = taken[i].0->AddProxy_1;
    lemma_logged_port_stays_taken(ports, proxy_host, requests, images, taken, i, j);
    assert(takes_request(
        ports[j],
        proxy_host,
        requests[j],
        images[j],
        ports[j + 1],
        taken[j],
    ));
    assert(takes_request(
        ports[i],
        proxy_host,
        requests[i],
        images[i],
        ports[i + 1],
        taken[i],
    ));
    assert(ports[j].taken.contains(port));
}

proof fn lemma_logged_port_stays_taken(
    ports: Seq<PortRangeView>,
    proxy_host: Seq<char>,
    requests: Seq<AddProxyRequest>,
    images: Seq<Map<u64, ImageOption>>,
    taken: Seq<(RequestType, Result<Msg, String>)>,
    i: int,
    j: int,
)
    requires
        takes_requests(ports, proxy_host, requests, images, taken),
        0 <= i < j <= requests.len(),
    ensures
        ports[j].taken.contains(taken[i].0->AddProxy_1),
    decreases j,
{
    assert(takes_request(
        ports[j - 1],
        proxy_host,
        requests[j - 1],
        images[j - 1],
        ports[j],
        taken[j - 1],
    ));
    if i < j - 1 {
        lemma_logged_port_stays_taken(ports, proxy_host, requests, images, taken, i, j - 1);
    }
}

/// A server begins with the ports from ten thousand up to thirty thousand. No container is ever
/// bound to one of these.
pub proof fn law_listen_ports_are_apart_from_container_ports(port: u16, host: Seq<char>)
    ensures
        listen_ports().is_free(port) <==> 10_000 <= port < 30_000,
        !(listen_ports().holds(port) && fresh_backend(host).ports.holds(port)),
{
}

/// Replaying what was logged of a request asks for a proxy on the logged port, as the request
/// itself did, where its image is registered.
pub proof fn law_replayed_proxy_listens_on_the_logged_port(
    log: Seq<RequestType>,
    r: ReplayedLog,
    i: int,
    request: AddProxyRequest,
    port: u16,
    images: Map<u64, ImageOption>,
    proxy_host: Seq<char>,
    sent: Result<Msg, String>,
)
    requires
        replays(log, r),
        0 <= i < r.replays@.len(),
        log[i] == RequestType::AddProxy(request, port),
        r.replays@[i] matches Replay::AddProxy(q, p) && adds_proxy(p, q, images, proxy_host, sent),
    ensures
        sent is Ok <==> images.contains_key(request.id),
        sent matches Ok(msg) ==> msg is TcpProxy,
        sent matches Ok(Msg::TcpProxy(option)) ==> option.listen_port == port && option.image_id.0
            == request.id && option.host@ == proxy_host && (option.env is Some
            <==> request.env_key is Some && request.env_value is Some),
{
    assert(replay_of(log[i]) == Some(r.replays@[i]));
}

/// A replay of a log sends what was sent when each request was taken, in the order of the log.
pub proof fn law_replay_sends_what_was_sent(
    log: Seq<RequestType>,
    r: ReplayedLog,
    i: int,
    registration: RegisterImageRequest,
    registered: (RequestType, Msg),
    removal: RemoveProxyRequest,
    removed: (RequestType, Msg),
)
    requires
        replays(log, r),
        0 <= i < r.replays@.len(),
        takes_registration(registration, registered),
        takes_removal(removal, removed),
    ensures
        r.replays@.len() <= log.len(),
        log[i] == registered.0 ==> r.replays@[i] == Replay::Send(registered.1),
        log[i] == removed.0 ==> r.replays@[i] == Replay::Send(removed.1),
        log[i] is AddProxy <==> r.replays@[i] is AddProxy,
        r.replays@[i] is Send ==> r.replays@[i]->Send_0 is RegisterImage
            || r.replays@[i]->Send_0 is StopProxy,
        !(log[i] is AddTlsListener),
{
    assert(replay_of(log[i]) == Some(r.replays@[i]));
}

/// A replay stops only at a request for a listener for encrypted connections, and at the first one.
pub proof fn law_replay_stops_at_a_tls_listener(log: Seq<RequestType>, r: ReplayedLog, i: int)
    requires
        replays(log, r),
        0 <= i < log.len(),
        log[i] is AddTlsListener,
    ensures
        !r.complete,
        r.replays@.len() <= i,
        log[r.replays@.len() as int] is AddTlsListener,
{
    if i < r.replays@.len() {
        assert(replay_of(log[i]) == Some(r.replays@[i]));
    }
}

/// A registration asks the manager for the image of the request, pulled anew, without credentials,
/// and with its port as it is where it is one.
pub proof fn law_registration_is_as_requested(
    request: RegisterImageRequest,
    r: (RequestType, Msg),
)
    requires
        takes_registration(request, r),
    ensures
        r.0 == RequestType::RegisterImage(request),
        r.1 matches Msg::RegisterImage(image) && {
            &&& image.name == request.image
            &&& image.tag == request.tag
            &&& image.always_pull
            &&& image.credentials is None
            &&& request.port <= u16::MAX ==> image.service_port == request.port
            &&& (request.port - image.service_port) % 0x1_0000 == 0
        },
{
}

/// A removal asks the manager to stop the proxy that the request names.
pub proof fn law_removal_is_as_requested(request: RemoveProxyRequest, r: (RequestType, Msg))
    requires
        takes_removal(request, r),
    ensures
        r.0 == RequestType::RemoveProxy(request),
        r.1 matches Msg::StopProxy(id) && id.0 == request.id,
{
}

/// The client is told the identifier, the host and the port that the manager gave.
pub proof fn law_client_is_told_where_the_proxy_is(id: Id, url: Url, proxy: Proxy)
    requires
        tells_of(id, url, proxy),
    ensures
        proxy.proxy_id == id.0,
        proxy.host@ == url.host@,
        number_of(proxy.port@) == url.port,
        proxy.port@.len() > 0,
{
    law_decimal_reads_back(url.port as nat);
}

/// An answer carries what the manager gave: the identifier or the proxy where it succeeded, and
/// the message where it failed. Requests for proxies and removals are marked as in order exactly
/// where they succeeded.
pub proof fn law_answers_carry_what_came_of_requests(
    registration: Result<Id, String>,
    proxy: Result<Proxy, String>,
    removal: Result<Id, String>,
)
    ensures
        !registration_response(registration).ok,
        registration matches Ok(id) ==> registration_response(registration).response == Some(
            RegisterImageResult::Id(id.0),
        ),
        registration matches Err(message) ==> registration_response(registration).response == Some(
            RegisterImageResult::Error(message),
        ),
        proxy_response(proxy).ok <==> proxy is Ok,
        proxy matches Ok(p) ==> proxy_response(proxy).response == Some(AddProxyResult::Proxy(p)),
        proxy matches Err(message) ==> proxy_response(proxy).response == Some(
            AddProxyResult::Error(message),
        ),
        removal_response(removal).ok <==> removal is Ok,
        removal matches Ok(id) ==> removal_response(removal).response == Some(
            RemoveProxyResult::Id(id.0),
        ),
        removal matches Err(message) ==> removal_response(removal).response == Some(
            RemoveProxyResult::Error(message),
        ),
{
}

} // verus!
