//! Proxies: how connections reach a container, and when the container is idle.

use rand::distributions::Alphanumeric;
use rand::{thread_rng, Rng};
use vstd::prelude::*;
use vstd::string::*;

use crate::docker;
use crate::docker::{
    action_for, clone_env, env_bytes, env_eq, law_env_bytes_delimited, push_env, same_env, Action,
    ContainerId, ContainerState, ContainerStatus, Env, ImageOption,
};
use crate::id::{
    id_of, id_text, law_le_bytes_delimited, law_text_bytes_delimited, le_bytes, push_le, push_text,
    span, text_bytes, Identity, Registry, TypedId,
};
use crate::text;
use crate::text::{decimal, law_decimal_reads_back, number_of};
use crate::tui;
use crate::tui::LogInfo;

verus! {

/// How often a connection to a container is tried.
pub const MAX_TRIES: usize = 100;

/// How long to wait between two tries, in milliseconds.
pub const RETRY_DELAY_MS: u64 = 100;

/// How long a client may stay silent, in seconds.
pub const READ_TIMEOUT_SECS: u64 = 120;

/// How long a container may be idle, in nanoseconds.
pub const IDLE_TIMEOUT_NANOS: u128 = 60_000_000_000;

/// How often the connections of a container are counted, in nanoseconds.
pub const TRACK_INTERVAL_NANOS: u128 = 5_000_000_000;

pub type ProxyId = TypedId<Proxy>;

/// All active proxies.
pub type ProxyRegistry = Registry<Proxy>;

/// Forwards connections to one container.
#[derive(Debug)]
pub struct Proxy {
    container_id: ContainerId,
    proxy_port: u16,
    proxy_host: String,
    env: Option<Env>,
}

impl Proxy {
    /// Container that the traffic goes to.
    pub closed spec fn spec_container(&self) -> ContainerId {
        self.container_id
    }

    /// Port of the container on its host.
    pub closed spec fn spec_port(&self) -> u16 {
        self.proxy_port
    }

    /// Address of the host of the container.
    pub closed spec fn spec_host(&self) -> Seq<char> {
        self.proxy_host@
    }

    /// Environment variable of the container.
    pub closed spec fn spec_env(&self) -> Option<Env> {
        self.env
    }
}

impl Identity for Proxy {
    open spec fn identity(&self) -> Seq<u8> {
        le_bytes(self.spec_container()@ as nat, 8) + le_bytes(self.spec_port() as nat, 2)
            + text_bytes(self.spec_host()) + env_bytes(self.spec_env())
    }

    fn write_identity(&self, out: &mut Vec<u8>) {
        push_le(out, self.container_id.value(), 8);
        push_le(out, self.proxy_port as u64, 2);
        push_text(out, self.proxy_host.as_str());
        push_env(out, &self.env);
        assert(out@ =~= old(out)@ + self.identity());
    }
}

impl Clone for Proxy {
    fn clone(&self) -> (r: Self)
        ensures
            r == *self,
    {
        Proxy {
            container_id: self.container_id.clone(),
            proxy_port: self.proxy_port,
            proxy_host: self.proxy_host.clone(),
            env: clone_env(&self.env),
        }
    }
}

impl PartialEq for Proxy {
    fn eq(&self, other: &Self) -> (r: bool) {
        self.container_id == other.container_id && self.proxy_port == other.proxy_port
            && self.proxy_host == other.proxy_host && env_eq(&self.env, &other.env)
    }
}

impl vstd::std_specs::cmp::PartialEqSpecImpl for Proxy {
    open spec fn obeys_eq_spec() -> bool {
        true
    }

    open spec fn eq_spec(&self, other: &Self) -> bool {
        self.spec_container()@ == other.spec_container()@ && self.spec_port() == other.spec_port()
            && self.spec_host() == other.spec_host() && same_env(self.spec_env(), other.spec_env())
    }
}

impl Eq for Proxy {

}

/// The next step of the removal of a proxy.
#[derive(Debug)]
pub enum CleanupStep {
    /// Send this to the Docker host and go on with `Proxy::stop_sent`.
    StopContainer(docker::Msg),
    /// Send this to the terminal interface and go on with `Proxy::tui_told`.
    RemoveFromTui(tui::Msg),
    /// Cancel what still runs for the proxy. The removal has succeeded.
    Cancel,
    /// The removal has failed with this message.
    Failed(String),
}

/// The first step of the removal of a proxy.
pub open spec fn cleanup_start(proxy: Proxy) -> CleanupStep {
    CleanupStep::StopContainer(docker::Msg::Stop(proxy.spec_container()))
}

/// The step after the container of a proxy was asked to stop.
pub open spec fn after_stop_sent(
    proxy: Proxy,
    sent: Result<(), String>,
    tui: bool,
) -> CleanupStep {
    match sent {
        Err(message) => CleanupStep::Failed(message),
        Ok(_) => if tui {
            CleanupStep::RemoveFromTui(tui::Msg::Remove(id_of(proxy)))
        } else {
            CleanupStep::Cancel
        },
    }
}

/// The step after the interface was told of the removal of a proxy.
pub open spec fn after_tui_told(sent: Result<(), String>) -> CleanupStep {
    match sent {
        Err(message) => CleanupStep::Failed(message),
        Ok(_) => CleanupStep::Cancel,
    }
}

/// `[Id(<number>)] `: how a line about a container starts.
pub open spec fn line_head(container: u64) -> Seq<char> {
    "["@ + id_text(container) + "] "@
}

/// The flag that a container with the variable `env` holds, which is empty where it has none.
pub open spec fn flag_of(env: Option<Env>) -> Seq<u8> {
    match env {
        Some(env) => vstd::utf8::encode_utf8(env.value@),
        None => Seq::<u8>::empty(),
    }
}

/// Whether `r` is what to send before a connection to `proxy` is served, and the flag to hide in
/// it.
pub open spec fn begins_to_serve(proxy: Proxy, r: (docker::Msg, Seq<u8>)) -> bool {
    &&& r.0 == docker::Msg::Start(proxy.spec_container())
    &&& r.1 == flag_of(proxy.spec_env())
}

/// The line that reports a new connection to a container.
pub open spec fn opened_text(container: u64, socket: Seq<char>) -> Seq<char> {
    line_head(container) + "Got Connection from: "@ + socket
}

/// The line that reports the end of a connection to a container.
pub open spec fn closed_text(container: u64, socket: Seq<char>) -> Seq<char> {
    line_head(container) + "Closed Connection from: "@ + socket
}

/// A line that is filed under a proxy.
pub open spec fn filed_under(proxy: Proxy, log: String) -> LogInfo {
    LogInfo { id: id_of(proxy), log }
}

/// Whether `track` begins to track the container of `proxy` at `now`.
pub open spec fn begins_to_track(proxy: Proxy, now: u128, track: ConnTrack) -> bool {
    &&& track.spec_container() == proxy.spec_container()
    &&& track.spec_timeout() == IDLE_TIMEOUT_NANOS
    &&& track.spec_interval() == TRACK_INTERVAL_NANOS
    &&& track.spec_last_activity() == now
}

impl Proxy {
    /// Creates a proxy.
    pub fn new(
        container_id: ContainerId,
        proxy_port: u16,
        proxy_host: String,
        env: Option<Env>,
    ) -> (r: Self)
        ensures
            r.spec_container() == container_id,
            r.spec_port() == proxy_port,
            r.spec_host() == proxy_host@,
            r.spec_env() == env,
    {
        Proxy { container_id, proxy_port, proxy_host, env }
    }

    /// Returns the container that the traffic goes to.
    pub fn container_id(&self) -> (r: ContainerId)
        ensures
            r == self.spec_container(),
    {
        self.container_id.clone()
    }

    /// Returns the port of the container on its host.
    pub fn port(&self) -> (r: u16)
        ensures
            r == self.spec_port(),
    {
        self.proxy_port
    }

    /// Returns the address of the host of the container.
    pub fn host(&self) -> (r: String)
        ensures
            r@ == self.spec_host(),
    {
        self.proxy_host.clone()
    }

    /// Begins to track whether the container is idle.
    pub fn conn_track(&self, now: u128) -> (r: ConnTrack)
        ensures
            r.spec_container() == self.spec_container(),
            r.spec_timeout() == IDLE_TIMEOUT_NANOS,
            r.spec_interval() == TRACK_INTERVAL_NANOS,
            r.spec_last_activity() == now,
            begins_to_track(*self, now, r),
    {
        ConnTrack::new(IDLE_TIMEOUT_NANOS, self.container_id.clone(), now)
    }

    /// Begins the removal of the proxy: the container is stopped first.
    pub fn cleanup(&self) -> (step: CleanupStep)
        ensures
            step == CleanupStep::StopContainer(docker::Msg::Stop(self.spec_container())),
            step == cleanup_start(*self),
    {
        CleanupStep::StopContainer(docker::Msg::Stop(self.container_id.clone()))
    }

    /// Goes on once the container was asked to stop. `tui` says whether there is an interface.
    pub fn stop_sent(&self, sent: Result<(), String>, tui: bool) -> (step: CleanupStep)
        ensures
            step == (match sent {
                Err(message) => CleanupStep::Failed(message),
                Ok(_) => if tui {
                    CleanupStep::RemoveFromTui(tui::Msg::Remove(id_of(*self)))
                } else {
                    CleanupStep::Cancel
                },
            }),
            step == after_stop_sent(*self, sent, tui),
    {
        match sent {
            Err(message) => CleanupStep::Failed(message),
            Ok(_) => if tui {
                CleanupStep::RemoveFromTui(tui::Msg::Remove(ProxyId::from(self).value()))
            } else {
                CleanupStep::Cancel
            },
        }
    }

    /// Goes on once the interface was told.
    pub fn tui_told(sent: Result<(), String>) -> (step: CleanupStep)
        ensures
            step == (match sent {
                Err(message) => CleanupStep::Failed(message),
                Ok(_) => CleanupStep::Cancel,
            }),
            step == after_tui_told(sent),
    {
        match sent {
            Err(message) => CleanupStep::Failed(message),
            Ok(_) => CleanupStep::Cancel,
        }
    }

    /// Files a line under the proxy, for the interface.
    pub fn tui_log(&self, log: String) -> (r: LogInfo)
        ensures
            r == (LogInfo { id: id_of(*self), log }),
            r == filed_under(*self, log),
    {
        LogInfo { id: ProxyId::from(self).value(), log }
    }

    /// Begins to serve a connection: returns what to send to the Docker host before connecting to
    /// the container, and the flag that the container holds, which is empty where it has none.
    pub fn run(&self) -> (r: (docker::Msg, Vec<u8>))
        ensures
            r.0 == docker::Msg::Start(self.spec_container()),
            r.1@ == (match self.spec_env() {
                Some(env) => vstd::utf8::encode_utf8(env.value@),
                None => Seq::<u8>::empty(),
            }),
            begins_to_serve(*self, (r.0, r.1@)),
    {
        let flag: Vec<u8> = match &self.env {
            Some(env) => env.value.as_str().as_bytes_vec(),
            None => Vec::new(),
        };
        (docker::Msg::Start(self.container_id.clone()), flag)
    }

    fn line(&self, rest: &str, detail: &str) -> (s: String)
        ensures
            s@ == line_head(self.spec_container()@) + rest@ + detail@,
    {
        let mut s = "[".to_owned();
        s.append(self.container_id.to_string().as_str());
        s.append("] ");
        s.append(rest);
        s.append(detail);
        s
    }

    /// The line that reports a new connection.
    pub fn opened_line(&self, socket: &str) -> (s: String)
        ensures
            s@ == line_head(self.spec_container()@) + "Got Connection from: "@ + socket@,
            s@ == opened_text(self.spec_container()@, socket@),
    {
        self.line("Got Connection from: ", socket)
    }

    /// The line that reports the end of a connection.
    pub fn closed_line(&self, socket: &str) -> (s: String)
        ensures
            s@ == line_head(self.spec_container()@) + "Closed Connection from: "@ + socket@,
            s@ == closed_text(self.spec_container()@, socket@),
    {
        self.line("Closed Connection from: ", socket)
    }
}

/// The number of active connections of a proxy.
#[derive(Debug)]
pub struct ActiveConn(u64);

impl View for ActiveConn {
    type V = u64;

    closed spec fn view(&self) -> u64 {
        self.0
    }
}

/// One more, which wraps around to zero.
pub open spec fn incremented(n: u64) -> u64 {
    if n == u64::MAX {
        0
    } else {
        (n + 1) as u64
    }
}

/// One less, which wraps around from zero.
pub open spec fn decremented(n: u64) -> u64 {
    if n == 0 {
        u64::MAX
    } else {
        (n - 1) as u64
    }
}

impl ActiveConn {
    /// No connections.
    pub fn new() -> (r: Self)
        ensures
            r@ == 0,
            r@ == count_after(0, Seq::empty()),
    {
        ActiveConn(0)
    }

    /// Counts a connection that has begun.
    pub fn inc(&mut self)
        ensures
            final(self)@ == incremented(old(self)@),
    {
        self.0 = self.0.wrapping_add(1);
    }

    /// Discounts a connection that has ended.
    pub fn dec(&mut self)
        ensures
            final(self)@ == decremented(old(self)@),
    {
        self.0 = self.0.wrapping_sub(1);
    }

    /// Returns the number of active connections.
    pub fn load(&self) -> (r: u64)
        ensures
            r == self@,
    {
        self.0
    }
}

/// The next step of a connection.
#[derive(Clone, Copy, Debug, PartialEq, Eq, Structural)]
pub enum ConnectionStep {
    /// Connect to the container and go on with `Connection::connected`.
    Connect,
    /// Wait this many milliseconds and go on with `Connection::next`.
    Wait(u64),
    /// Copy both ways until an end closes or the client is silent for this many seconds, flush
    /// both ends and go on with `Connection::relayed`.
    Relay(u64),
    /// The connection is over.
    Closed,
}

/// A connection on its way to a container that may still be starting.
#[derive(Debug)]
pub struct Connection {
    no_of_try: usize,
}

impl Connection {
    /// Number of tries that are left.
    pub closed spec fn spec_left(&self) -> usize {
        self.no_of_try
    }

    /// There are never more tries left than there are in all.
    #[verifier::type_invariant]
    spec fn bounded(self) -> bool {
        self.no_of_try <= MAX_TRIES
    }

    /// No try has been made.
    pub fn new() -> (r: Self)
        ensures
            r.spec_left() == MAX_TRIES,
            r.spec_left() == left_after(0),
    {
        Connection { no_of_try: MAX_TRIES }
    }

    /// Says whether to try once more.
    pub fn next(&mut self) -> (step: ConnectionStep)
        ensures
            step == next_step(old(self).spec_left()).0,
            final(self).spec_left() == next_step(old(self).spec_left()).1,
    {
        proof {
            use_type_invariant(&*self);
        }
        if self.no_of_try == 0 {
            ConnectionStep::Closed
        } else {
            self.no_of_try = self.no_of_try - 1;
            ConnectionStep::Connect
        }
    }

    /// Goes on after a try. A connection counts from here on.
    pub fn connected(&self, ok: bool, no_conn: &mut ActiveConn) -> (step: ConnectionStep)
        ensures
            step == (if ok {
                ConnectionStep::Relay(READ_TIMEOUT_SECS)
            } else {
                ConnectionStep::Wait(RETRY_DELAY_MS)
            }),
            final(no_conn)@ == (if ok {
                incremented(old(no_conn)@)
            } else {
                old(no_conn)@
            }),
            (step, final(no_conn)@) == after_connecting(ok, old(no_conn)@),
    {
        if ok {
            no_conn.inc();
            ConnectionStep::Relay(READ_TIMEOUT_SECS)
        } else {
            ConnectionStep::Wait(RETRY_DELAY_MS)
        }
    }

    /// Goes on after the connection was relayed. It does not count any more.
    pub fn relayed(&self, no_conn: &mut ActiveConn) -> (step: ConnectionStep)
        ensures
            step == ConnectionStep::Closed,
            final(no_conn)@ == decremented(old(no_conn)@),
            (step, final(no_conn)@) == after_relaying(old(no_conn)@),
    {
        no_conn.dec();
        ConnectionStep::Closed
    }

    /// Returns how often the connection has been tried.
    pub fn tries(&self) -> (r: usize)
        ensures
            r + self.spec_left() == MAX_TRIES,
            self.spec_left() == left_after(r as nat),
    {
        proof {
            use_type_invariant(self);
            law_tries_are_limited((MAX_TRIES - self.no_of_try) as nat);
        }
        MAX_TRIES - self.no_of_try
    }
}

/// The step with `left` tries left, and how many are left after it.
pub open spec fn next_step(left: usize) -> (ConnectionStep, usize) {
    if left == 0 {
        (ConnectionStep::Closed, 0)
    } else {
        (ConnectionStep::Connect, (left - 1) as usize)
    }
}

/// The step after a try to connect, and the number of active connections from there on.
pub open spec fn after_connecting(ok: bool, no_conn: u64) -> (ConnectionStep, u64) {
    if ok {
        (ConnectionStep::Relay(READ_TIMEOUT_SECS), incremented(no_conn))
    } else {
        (ConnectionStep::Wait(RETRY_DELAY_MS), no_conn)
    }
}

/// The step after a connection was relayed, and the number of active connections from there on.
pub open spec fn after_relaying(no_conn: u64) -> (ConnectionStep, u64) {
    (ConnectionStep::Closed, decremented(no_conn))
}

/// What the tracker of a container is to do.
#[derive(Debug)]
pub enum TrackAction {
    /// End.
    Exit,
    /// Send this to the Docker host, call `ConnTrack::stop_sent`, and sleep.
    Stop(docker::Msg),
    /// Sleep for an interval.
    Sleep,
}

/// Tracks whether a container is idle.
#[derive(Debug)]
pub struct ConnTrack {
    interval: u128,
    timeout: u128,
    container_id: ContainerId,
    last_activity: u128,
}

/// How long nothing has happened at `now`.
pub open spec fn idle_time(last_activity: u128, now: u128) -> int {
    if now >= last_activity {
        now - last_activity
    } else {
        0
    }
}

/// Whether the container is stopped when its connections are counted at `now`.
pub open spec fn stops(
    timeout: u128,
    last_activity: u128,
    cancelled: bool,
    no_conn: u64,
    now: u128,
) -> bool {
    !cancelled && no_conn == 0 && idle_time(last_activity, now) >= timeout
}

/// The last activity once the connections were counted at `now`.
pub open spec fn activity_after(
    last_activity: u128,
    cancelled: bool,
    no_conn: u64,
    now: u128,
) -> u128 {
    if !cancelled && no_conn > 0 {
        now
    } else {
        last_activity
    }
}

/// What the tracker of `container` is to do when its connections are counted at `now`.
pub open spec fn track_action(
    timeout: u128,
    container: ContainerId,
    last_activity: u128,
    cancelled: bool,
    no_conn: u64,
    now: u128,
) -> TrackAction {
    if cancelled {
        TrackAction::Exit
    } else if stops(timeout, last_activity, cancelled, no_conn, now) {
        TrackAction::Stop(docker::Msg::Stop(container))
    } else {
        TrackAction::Sleep
    }
}

/// The last activity once the container was told to stop at `sent`.
pub open spec fn activity_after_stop(last_activity: u128, sent: u128) -> u128 {
    sent
}

impl ConnTrack {
    /// Container that is tracked.
    pub closed spec fn spec_container(&self) -> ContainerId {
        self.container_id
    }

    /// Time after which the container counts as idle.
    pub closed spec fn spec_timeout(&self) -> u128 {
        self.timeout
    }

    /// Time between two looks at the connections.
    pub closed spec fn spec_interval(&self) -> u128 {
        self.interval
    }

    /// When the container was last seen in use, or told to stop.
    pub closed spec fn spec_last_activity(&self) -> u128 {
        self.last_activity
    }

    /// Begins to track a container. All times are nanoseconds since one fixed moment.
    pub fn new(timeout: u128, container_id: ContainerId, now: u128) -> (r: Self)
        ensures
            r.spec_container() == container_id,
            r.spec_timeout() == timeout,
            r.spec_interval() == TRACK_INTERVAL_NANOS,
            r.spec_last_activity() == now,
    {
        ConnTrack { interval: TRACK_INTERVAL_NANOS, timeout, container_id, last_activity: now }
    }

    /// Returns the time between two looks at the connections.
    pub fn interval(&self) -> (r: u128)
        ensures
            r == self.spec_interval(),
    {
        self.interval
    }

    /// Looks at the number of connections at the time `now`.
    pub fn tick(&mut self, cancelled: bool, no_conn: u64, now: u128) -> (action: TrackAction)
        ensures
            action == (if cancelled {
                TrackAction::Exit
            } else if stops(
                old(self).spec_timeout(),
                old(self).spec_last_activity(),
                cancelled,
                no_conn,
                now,
            ) {
                TrackAction::Stop(docker::Msg::Stop(old(self).spec_container()))
            } else {
                TrackAction::Sleep
            }),
            action == track_action(
                old(self).spec_timeout(),
                old(self).spec_container(),
                old(self).spec_last_activity(),
                cancelled,
                no_conn,
                now,
            ),
            final(self).spec_last_activity() == activity_after(
                old(self).spec_last_activity(),
                cancelled,
                no_conn,
                now,
            ),
            final(self).spec_timeout() == old(self).spec_timeout(),
            final(self).spec_interval() == old(self).spec_interval(),
            final(self).spec_container() == old(self).spec_container(),
    {
        if cancelled {
            return TrackAction::Exit;
        }
        if no_conn > 0 {
            self.last_activity = now;
            return TrackAction::Sleep;
        }
        let idle: u128 = if now >= self.last_activity {
            now - self.last_activity
        } else {
            0
        };
        if idle >= self.timeout {
            TrackAction::Stop(docker::Msg::Stop(self.container_id.clone()))
        } else {
            TrackAction::Sleep
        }
    }

    /// Notes that the container was told to stop: it is told again only after another whole idle
    /// period.
    pub fn stop_sent(&mut self, now: u128)
        ensures
            final(self).spec_last_activity() == now,
            final(self).spec_last_activity() == activity_after_stop(
                old(self).spec_last_activity(),
                now,
            ),
            final(self).spec_timeout() == old(self).spec_timeout(),
            final(self).spec_interval() == old(self).spec_interval(),
            final(self).spec_container() == old(self).spec_container(),
    {
        self.last_activity = now;
    }
}

/// How a listening socket is set up. Times are in seconds.
#[derive(Debug, PartialEq, Eq)]
pub struct SocketPlan {
    /// Address to listen on.
    pub address: String,
    pub port: u16,
    /// Idle time after which the peer is probed.
    pub keepalive_time: u64,
    /// Time between two probes.
    pub keepalive_interval: u64,
    /// Probes before the peer counts as gone.
    pub keepalive_retries: u32,
    /// How long sent data may stay unacknowledged.
    pub user_timeout: u64,
    /// Connections that may wait to be accepted.
    pub backlog: i32,
}

/// Whether `plan` sets up a socket that listens on `port` of `address`.
pub open spec fn plans_socket(plan: SocketPlan, address: Seq<char>, port: u16) -> bool {
    &&& plan.address@ == address
    &&& plan.port == port
    &&& plan.keepalive_time == 10
    &&& plan.keepalive_interval == 10
    &&& plan.keepalive_retries == 3
    &&& plan.user_timeout == 40
    &&& plan.backlog == 128
}

/// Address that stands for all addresses of the machine.
pub const ANY_ADDRESS: &'static str = "0.0.0.0";

/// Plans a listening socket: unacknowledged data is given as long as the probes take in all.
pub fn prepare_socket(address: &str, port: u16) -> (plan: SocketPlan)
    ensures
        plans_socket(plan, address@, port),
        plan.user_timeout == plan.keepalive_time + plan.keepalive_interval * plan.keepalive_retries,
{
    SocketPlan {
        address: address.to_owned(),
        port,
        keepalive_time: 10,
        keepalive_interval: 10,
        keepalive_retries: 3,
        user_timeout: 40,
        backlog: 128,
    }
}

/// What a listener for plain connections meets.
#[derive(Debug)]
pub enum ListenerEvent {
    /// A client at this address has connected.
    Accepted(String),
    /// The proxy is being removed.
    Cancelled,
}

/// What a listener for plain connections is to do.
#[derive(Debug)]
pub enum ListenerAction {
    /// Log this line, serve the connection, and log the other line when it is over.
    Serve { opened: String, closed: String },
    /// Log this line and stop listening.
    Stop(String),
}

/// The line that reports that a listener of a container begins to listen on `port`.
pub open spec fn starting_text(container: u64, port: u16) -> Seq<char> {
    line_head(container) + "Starting TCPListener on Port:\t"@ + decimal(port as nat)
}

/// The line that reports that a listener stops to listen on `port`.
pub open spec fn stopping_text(port: u16) -> Seq<char> {
    "Stopping TCPListener on Port: "@ + decimal(port as nat)
}

/// Whether a listener of `container` on `port` is to do `action` about `event`.
pub open spec fn reacts_to_event(
    container: u64,
    port: u16,
    event: ListenerEvent,
    action: ListenerAction,
) -> bool {
    match event {
        ListenerEvent::Accepted(socket) => {
            &&& action matches ListenerAction::Serve { opened, closed }
            &&& opened@ == opened_text(container, socket@)
            &&& closed@ == closed_text(container, socket@)
        },
        ListenerEvent::Cancelled => {
            &&& action matches ListenerAction::Stop(line)
            &&& line@ == stopping_text(port)
        },
    }
}

/// Listens for plain connections to one proxy.
#[derive(Debug)]
pub struct TcpListener {
    listen_port: u16,
    proxy: Proxy,
    address: String,
}

impl TcpListener {
    /// Port to listen on.
    pub closed spec fn spec_listen_port(&self) -> u16 {
        self.listen_port
    }

    /// Proxy that serves the connections.
    pub closed spec fn spec_proxy(&self) -> Proxy {
        self.proxy
    }

    /// Address to listen on.
    pub closed spec fn spec_address(&self) -> Seq<char> {
        self.address@
    }

    /// Creates a listener on all addresses.
    pub fn new(listen_port: u16, proxy: Proxy) -> (r: Self)
        ensures
            r.spec_listen_port() == listen_port,
            r.spec_proxy() == proxy,
            r.spec_address() == ANY_ADDRESS@,
    {
        TcpListener { listen_port, proxy, address: ANY_ADDRESS.to_owned() }
    }

    /// Listens on this address instead.
    pub fn with_address(self, address: String) -> (r: Self)
        ensures
            r.spec_listen_port() == self.spec_listen_port(),
            r.spec_proxy() == self.spec_proxy(),
            r.spec_address() == address@,
    {
        TcpListener { listen_port: self.listen_port, proxy: self.proxy, address }
    }

    /// Returns the proxy that serves the connections.
    pub fn proxy(&self) -> (r: &Proxy)
        ensures
            *r == self.spec_proxy(),
    {
        &self.proxy
    }

    /// Begins to listen: returns the line to log and the socket to open.
    pub fn start(&self) -> (r: (String, SocketPlan))
        ensures
            r.0@ == line_head(self.spec_proxy().spec_container()@)
                + "Starting TCPListener on Port:\t"@ + decimal(self.spec_listen_port() as nat),
            r.0@ == starting_text(self.spec_proxy().spec_container()@, self.spec_listen_port()),
            plans_socket(r.1, self.spec_address(), self.spec_listen_port()),
    {
        let line = self.proxy.line(
            "Starting TCPListener on Port:\t",
            text::to_decimal(self.listen_port as u64).as_str(),
        );
        (line, prepare_socket(self.address.as_str(), self.listen_port))
    }

    /// Says what to do about an event.
    pub fn handle(&self, event: ListenerEvent) -> (action: ListenerAction)
        ensures
            match event {
                ListenerEvent::Accepted(socket) => {
                    let head = line_head(self.spec_proxy().spec_container()@);
                    action matches ListenerAction::Serve { opened, closed } && opened@ == head
                        + "Got Connection from: "@ + socket@ && closed@ == head
                        + "Closed Connection from: "@ + socket@
                },
                ListenerEvent::Cancelled => action matches ListenerAction::Stop(line) && line@
                    == "Stopping TCPListener on Port: "@ + decimal(self.spec_listen_port() as nat),
            },
            reacts_to_event(
                self.spec_proxy().spec_container()@,
                self.spec_listen_port(),
                event,
                action,
            ),
    {
        match event {
            ListenerEvent::Accepted(socket) => ListenerAction::Serve {
                opened: self.proxy.opened_line(socket.as_str()),
                closed: self.proxy.closed_line(socket.as_str()),
            },
            ListenerEvent::Cancelled => ListenerAction::Stop(
                text::join(
                    "Stopping TCPListener on Port: ",
                    text::to_decimal(self.listen_port as u64).as_str(),
                ),
            ),
        }
    }
}

/// What a listener for encrypted connections is told.
#[derive(Debug)]
pub enum TlsMsg {
    /// Route connections to this host name, below the common one, to this proxy.
    Add(String, ProxyId),
    /// Route no more connections to this proxy.
    Remove(ProxyId),
}

/// What is to be done with an encrypted connection.
#[derive(Debug)]
pub enum Route {
    /// The client has not said which host it wants.
    NoServerName,
    /// No proxy is known for the host.
    Unknown,
    /// The proxy of the host is gone.
    Gone,
    /// Serve the connection with this proxy.
    Serve(Proxy),
}

/// Whether no two entries have the same host name.
pub open spec fn distinct_hosts(entries: Seq<(String, ProxyId)>) -> bool {
    forall|i: int, j: int|
        0 <= i < j < entries.len() ==> (#[trigger] entries[i]).0@ != (#[trigger] entries[j]).0@
}

/// The proxies by host name.
pub open spec fn routes(entries: Seq<(String, ProxyId)>) -> Map<Seq<char>, u64>
    decreases entries.len(),
{
    if entries.len() == 0 {
        Map::empty()
    } else {
        routes(entries.drop_last()).insert(entries.last().0@, entries.last().1@)
    }
}

/// The routes that stay once those to the proxy `id` are gone.
pub open spec fn routes_without(map: Map<Seq<char>, u64>, id: u64) -> Map<Seq<char>, u64> {
    map.restrict(Set::new(|host: Seq<char>| map.contains_key(host) && map[host] != id))
}

/// The host name `host` below the common name `domain`.
pub open spec fn below(host: Seq<char>, domain: Seq<char>) -> Seq<char> {
    host + "."@ + domain
}

/// The routes after a message.
pub open spec fn routes_after(
    map: Map<Seq<char>, u64>,
    domain: Seq<char>,
    msg: TlsMsg,
) -> Map<Seq<char>, u64> {
    match msg {
        TlsMsg::Add(host, id) => map.insert(below(host@, domain), id@),
        TlsMsg::Remove(id) => routes_without(map, id@),
    }
}

proof fn lemma_routes(entries: Seq<(String, ProxyId)>)
    requires
        distinct_hosts(entries),
    ensures
        forall|i: int|
            0 <= i < entries.len() ==> #[trigger] routes(entries).contains_key(entries[i].0@)
                && routes(entries)[entries[i].0@] == entries[i].1@,
        forall|host: Seq<char>| #[trigger]
            routes(entries).contains_key(host) ==> exists|i: int|
                0 <= i < entries.len() && (#[trigger] entries[i]).0@ == host,
    decreases entries.len(),
{
    if entries.len() > 0 {
        let rest = entries.drop_last();
        lemma_routes(rest);
        assert forall|i: int| 0 <= i < entries.len() implies #[trigger] routes(
            entries,
        ).contains_key(entries[i].0@) && routes(entries)[entries[i].0@] == entries[i].1@ by {
            if i < rest.len() {
                assert(rest[i] == entries[i]);
                assert(routes(rest).contains_key(rest[i].0@));
                assert(entries[i].0@ != entries[entries.len() - 1].0@);
            }
        }
        assert forall|host: Seq<char>| #[trigger] routes(entries).contains_key(host) implies exists|
            i: int,
        |
            0 <= i < entries.len() && (#[trigger] entries[i]).0@ == host by {
            if host == entries.last().0@ {
                assert(entries[entries.len() - 1].0@ == host);
            } else {
                assert(routes(rest).contains_key(host));
                let i = choose|i: int| 0 <= i < rest.len() && (#[trigger] rest[i]).0@ == host;
                assert(entries[i].0@ == host);
            }
        }
    }
}

/// Two lists of entries with distinct hosts that route each host alike have the same routes.
proof fn lemma_routes_from_entries(entries: Seq<(String, ProxyId)>, map: Map<Seq<char>, u64>)
    requires
        distinct_hosts(entries),
        forall|i: int|
            0 <= i < entries.len() ==> map.contains_key((#[trigger] entries[i]).0@)
                && map[entries[i].0@] == entries[i].1@,
        forall|host: Seq<char>| #[trigger]
            map.contains_key(host) ==> exists|i: int|
                0 <= i < entries.len() && (#[trigger] entries[i]).0@ == host,
    ensures
        routes(entries) == map,
{
    lemma_routes(entries);
    assert forall|host: Seq<char>|
        #![trigger routes(entries).contains_key(host)]
        #![trigger map.contains_key(host)]
        routes(entries).contains_key(host) == map.contains_key(host) && (map.contains_key(host)
            ==> routes(entries)[host] == map[host]) by {
        if routes(entries).contains_key(host) {
            let i = choose|i: int| 0 <= i < entries.len() && (#[trigger] entries[i]).0@ == host;
            assert(map.contains_key(entries[i].0@));
        }
        if map.contains_key(host) {
            let i = choose|i: int| 0 <= i < entries.len() && (#[trigger] entries[i]).0@ == host;
            assert(routes(entries).contains_key(entries[i].0@));
        }
    }
    assert(routes(entries) =~= map);
}

/// Listens for encrypted connections and routes them by the host name that the client asks for.
#[derive(Debug)]
pub struct TlsListener {
    listen_port: u16,
    cert: Vec<Vec<u8>>,
    key: Vec<u8>,
    host: String,
    address: String,
    map: Vec<(String, ProxyId)>,
}

impl TlsListener {
    /// Port to listen on.
    pub closed spec fn spec_listen_port(&self) -> u16 {
        self.listen_port
    }

    /// Certificates of the listener.
    pub closed spec fn spec_cert(&self) -> Seq<Vec<u8>> {
        self.cert@
    }

    /// Private key of the listener.
    pub closed spec fn spec_key(&self) -> Seq<u8> {
        self.key@
    }

    /// Host name that the certificates hold a wildcard for.
    pub closed spec fn spec_domain(&self) -> Seq<char> {
        self.host@
    }

    /// Address to listen on.
    pub closed spec fn spec_address(&self) -> Seq<char> {
        self.address@
    }

    /// Proxies by host name.
    pub closed spec fn spec_routes(&self) -> Map<Seq<char>, u64> {
        routes(self.map@)
    }

    /// Whether no host name stands in the table twice.
    pub closed spec fn wf(&self) -> bool {
        distinct_hosts(self.map@)
    }

    /// Creates a listener on all addresses, without routes.
    pub fn new(listen_port: u16, cert: Vec<Vec<u8>>, key: Vec<u8>, host: String) -> (r: Self)
        ensures
            r.wf(),
            r.spec_listen_port() == listen_port,
            r.spec_cert() == cert@,
            r.spec_key() == key@,
            r.spec_domain() == host@,
            r.spec_address() == ANY_ADDRESS@,
            r.spec_routes() == Map::<Seq<char>, u64>::empty(),
    {
        let address = ANY_ADDRESS.to_owned();
        TlsListener { listen_port, cert, key, host, address, map: Vec::new() }
    }

    /// Listens on this address instead.
    pub fn with_address(self, address: String) -> (r: Self)
        requires
            self.wf(),
        ensures
            r.wf(),
            r.spec_listen_port() == self.spec_listen_port(),
            r.spec_cert() == self.spec_cert(),
            r.spec_key() == self.spec_key(),
            r.spec_domain() == self.spec_domain(),
            r.spec_address() == address@,
            r.spec_routes() == self.spec_routes(),
    {
        TlsListener {
            listen_port: self.listen_port,
            cert: self.cert,
            key: self.key,
            host: self.host,
            address,
            map: self.map,
        }
    }

    /// Returns the socket to open.
    pub fn start(&self) -> (plan: SocketPlan)
        ensures
            plans_socket(plan, self.spec_address(), self.spec_listen_port()),
    {
        prepare_socket(self.address.as_str(), self.listen_port)
    }

    /// Returns the certificates of the listener.
    pub fn cert(&self) -> (r: &Vec<Vec<u8>>)
        ensures
            r@ == self.spec_cert(),
    {
        &self.cert
    }

    /// Returns the private key of the listener.
    pub fn key(&self) -> (r: &Vec<u8>)
        ensures
            r@ == self.spec_key(),
    {
        &self.key
    }

    /// Takes a message.
    pub fn handle_tls_msg(&mut self, msg: TlsMsg)
        requires
            old(self).wf(),
        ensures
            final(self).wf(),
            final(self).spec_routes() == routes_after(
                old(self).spec_routes(),
                old(self).spec_domain(),
                msg,
            ),
            final(self).spec_domain() == old(self).spec_domain(),
            final(self).spec_address() == old(self).spec_address(),
            final(self).spec_listen_port() == old(self).spec_listen_port(),
            final(self).spec_cert() == old(self).spec_cert(),
            final(self).spec_key() == old(self).spec_key(),
    {
        match msg {
            TlsMsg::Add(host, proxy_id) => {
                let mut sni = host;
                sni.append(".");
                sni.append(self.host.as_str());
                self.insert(sni, proxy_id);
            },
            TlsMsg::Remove(proxy_id) => {
                self.remove(&proxy_id);
            },
        }
    }

    /// Routes a connection by the host name that the client asks for. Routes to a proxy that is
    /// gone are dropped.
    pub fn handle_connection(
        &mut self,
        server_name: Option<&str>,
        proxies: &ProxyRegistry,
    ) -> (route: Route)
        requires
            old(self).wf(),
        ensures
            final(self).wf(),
            final(self).spec_domain() == old(self).spec_domain(),
            final(self).spec_address() == old(self).spec_address(),
            final(self).spec_listen_port() == old(self).spec_listen_port(),
            final(self).spec_cert() == old(self).spec_cert(),
            final(self).spec_key() == old(self).spec_key(),
            route == route_for(
                old(self).spec_routes(),
                proxies@,
                match server_name {
                    Some(name) => Some(name@),
                    None => None,
                },
            ),
            final(self).spec_routes() == (if route is Gone {
                routes_without(old(self).spec_routes(), old(self).spec_routes()[server_name->0@])
            } else {
                old(self).spec_routes()
            }),
            final(self).spec_routes() == routes_after_connection(
                old(self).spec_routes(),
                proxies@,
                match server_name {
                    Some(name) => Some(name@),
                    None => None,
                },
            ),
    {
        match server_name {
            None => Route::NoServerName,
            Some(sni) => match self.find(sni) {
                None => Route::Unknown,
                Some(proxy_id) => match proxies.find(&proxy_id) {
                    Some(proxy) => Route::Serve(proxy.clone()),
                    None => {
                        self.remove(&proxy_id);
                        Route::Gone
                    },
                },
            },
        }
    }

    fn position(&self, sni: &String) -> (r: Option<usize>)
        requires
            self.wf(),
        ensures
            match r {
                Some(i) => i < self.map@.len() && self.map@[i as int].0@ == sni@,
                None => !self.spec_routes().contains_key(sni@),
            },
    {
        proof {
            lemma_routes(self.map@);
        }
        let mut i: usize = 0;
        while i < self.map.len()
            invariant
                i <= self.map.len(),
                forall|k: int| 0 <= k < i ==> (#[trigger] self.map[k]).0@ != sni@,
            decreases self.map.len() - i,
        {
            if self.map[i].0 == *sni {
                return Some(i);
            }
            i += 1;
        }
        None
    }

    fn find(&self, sni: &str) -> (r: Option<ProxyId>)
        requires
            self.wf(),
        ensures
            match r {
                Some(id) => self.spec_routes().contains_key(sni@) && self.spec_routes()[sni@]
                    == id@,
                None => !self.spec_routes().contains_key(sni@),
            },
    {
        let sni = sni.to_owned();
        match self.position(&sni) {
            Some(i) => {
                proof {
                    lemma_routes(self.map@);
                    assert(self.spec_routes().contains_key(self.map@[i as int].0@));
                }
                Some(self.map[i].1.clone())
            },
            None => None,
        }
    }

    fn insert(&mut self, sni: String, proxy_id: ProxyId)
        requires
            old(self).wf(),
        ensures
            final(self).wf(),
            final(self).spec_routes() == old(self).spec_routes().insert(sni@, proxy_id@),
            final(self).spec_domain() == old(self).spec_domain(),
            final(self).spec_address() == old(self).spec_address(),
            final(self).spec_listen_port() == old(self).spec_listen_port(),
            final(self).spec_cert() == old(self).spec_cert(),
            final(self).spec_key() == old(self).spec_key(),
    {
        proof {
            lemma_routes(self.map@);
        }
        let ghost before = self.map@;
        let ghost map = routes(before).insert(sni@, proxy_id@);
        match self.position(&sni) {
            Some(i) => {
                self.map.set(i, (sni, proxy_id));
                proof {
                    let after = self.map@;
                    assert forall|a: int, b: int| 0 <= a < b < after.len() implies (
                    #[trigger] after[a]).0@ != (#[trigger] after[b]).0@ by {
                        assert(before[a].0@ != before[b].0@);
                    }
                    assert forall|k: int| 0 <= k < after.len() implies map.contains_key(
                        (#[trigger] after[k]).0@,
                    ) && map[after[k].0@] == after[k].1@ by {
                        if k != i {
                            assert(routes(before).contains_key(before[k].0@));
                            assert(before[k].0@ != before[i as int].0@);
                        }
                    }
                    assert forall|host: Seq<char>| #[trigger] map.contains_key(host) implies exists|
                        k: int,
                    |
                        0 <= k < after.len() && (#[trigger] after[k]).0@ == host by {
                        if host == sni@ {
                            assert(after[i as int].0@ == host);
                        } else {
                            assert(routes(before).contains_key(host));
                            let k = choose|k: int|
                                0 <= k < before.len() && (#[trigger] before[k]).0@ == host;
                            assert(after[k].0@ == host);
                        }
                    }
                    lemma_routes_from_entries(after, map);
                }
            },
            None => {
                self.map.push((sni, proxy_id));
                proof {
                    assert(self.map@.drop_last() =~= before);
                    assert forall|k: int| 0 <= k < before.len() implies (
                    #[trigger] before[k]).0@ != sni@ by {
                        assert(routes(before).contains_key(before[k].0@));
                    }
                    assert forall|a: int, b: int| 0 <= a < b < self.map@.len() implies (
                    #[trigger] self.map@[a]).0@ != (#[trigger] self.map@[b]).0@ by {
                        assert(self.map@[a] == before[a]);
                        if b < before.len() {
                            assert(self.map@[b] == before[b]);
                        }
                    }
                }
            },
        }
    }

    fn remove(&mut self, proxy_id: &ProxyId)
        requires
            old(self).wf(),
        ensures
            final(self).wf(),
            final(self).spec_routes() == routes_without(old(self).spec_routes(), proxy_id@),
            final(self).spec_domain() == old(self).spec_domain(),
            final(self).spec_address() == old(self).spec_address(),
            final(self).spec_listen_port() == old(self).spec_listen_port(),
            final(self).spec_cert() == old(self).spec_cert(),
            final(self).spec_key() == old(self).spec_key(),
    {
        let mut before: Vec<(String, ProxyId)> = Vec::new();
        std::mem::swap(&mut before, &mut self.map);
        let ghost all = before@;
        let mut kept: Vec<(String, ProxyId)> = Vec::new();
        let ghost mut origin: Seq<int> = Seq::empty();
        for entry in it: before
            invariant
                it.seq() == all,
                origin.len() == kept@.len(),
                forall|k: int|
                    0 <= k < origin.len() ==> 0 <= #[trigger] origin[k] < it.index() && kept@[k]
                        == all[origin[k]] && all[origin[k]].1@ != proxy_id@,
                forall|a: int, b: int|
                    0 <= a < b < origin.len() ==> #[trigger] origin[a] < #[trigger] origin[b],
                forall|j: int|
                    0 <= j < it.index() && (#[trigger] all[j]).1@ != proxy_id@ ==> exists|k: int|
                        0 <= k < origin.len() && #[trigger] origin[k] == j,
        {
            let ghost old_origin = origin;
            let ghost i = it.index() as int;
            if entry.1 != *proxy_id {
                kept.push(entry);
                proof {
                    origin = origin.push(i);
                    assert(origin[origin.len() - 1] == i);
                }
            }
            proof {
                assert forall|j: int| 0 <= j < i + 1 && (#[trigger] all[j]).1@
                    != proxy_id@ implies exists|k: int|
                    0 <= k < origin.len() && #[trigger] origin[k] == j by {
                    if j < i {
                        let k = choose|k: int|
                            0 <= k < old_origin.len() && #[trigger] old_origin[k] == j;
                        assert(origin[k] == j);
                    }
                }
            }
        }
        proof {
            lemma_routes(all);
            let map = routes_without(routes(all), proxy_id@);
            assert forall|a: int, b: int| 0 <= a < b < kept@.len() implies (
            #[trigger] kept@[a]).0@ != (#[trigger] kept@[b]).0@ by {
                assert(all[origin[a]].0@ != all[origin[b]].0@);
            }
            assert forall|k: int| 0 <= k < kept@.len() implies map.contains_key(
                (#[trigger] kept@[k]).0@,
            ) && map[kept@[k].0@] == kept@[k].1@ by {
                assert(routes(all).contains_key(all[origin[k]].0@));
            }
            assert forall|host: Seq<char>| #[trigger] map.contains_key(host) implies exists|k: int|
                0 <= k < kept@.len() && (#[trigger] kept@[k]).0@ == host by {
                assert(routes(all).contains_key(host));
                let j = choose|j: int| 0 <= j < all.len() && (#[trigger] all[j]).0@ == host;
                assert(routes(all).contains_key(all[j].0@));
                assert(all[j].1@ != proxy_id@);
                let k = choose|k: int| 0 <= k < origin.len() && #[trigger] origin[k] == j;
                assert(kept@[k].0@ == host);
            }
            lemma_routes_from_entries(kept@, map);
        }
        self.map = kept;
    }
}

/// What is to be done with a connection to the host `server_name`.
pub open spec fn route_for(
    map: Map<Seq<char>, u64>,
    proxies: Map<u64, Proxy>,
    server_name: Option<Seq<char>>,
) -> Route {
    match server_name {
        None => Route::NoServerName,
        Some(name) => if !map.contains_key(name) {
            Route::Unknown
        } else if proxies.contains_key(map[name]) {
            Route::Serve(proxies[map[name]])
        } else {
            Route::Gone
        },
    }
}

/// The routes once a connection to the host `server_name` was routed.
pub open spec fn routes_after_connection(
    map: Map<Seq<char>, u64>,
    proxies: Map<u64, Proxy>,
    server_name: Option<Seq<char>>,
) -> Map<Seq<char>, u64> {
    if route_for(map, proxies, server_name) is Gone {
        routes_without(map, map[server_name->0])
    } else {
        map
    }
}

/// Whether `byte` is an ASCII letter or digit.
pub open spec fn is_alphanumeric(byte: u8) -> bool {
    0x30 <= byte <= 0x39 || 0x41 <= byte <= 0x5a || 0x61 <= byte <= 0x7a
}

/// Calls `rand::Rng::sample` of the generator `rand::thread_rng()` with the distribution
/// `rand::distributions::Alphanumeric`.
///
/// Claimed of it: the sample is an ASCII letter or digit. Which one is left to chance, and so
/// nothing more is said of it.
#[verifier::external_body]
fn random_alphanumeric() -> (r: u8)
    ensures
        is_alphanumeric(r),
{
    thread_rng().sample(Alphanumeric)
}

/// Whether `part` stands in `buffer` at `i`.
pub open spec fn occurs_at(buffer: Seq<u8>, part: Seq<u8>, i: int) -> bool {
    0 <= i <= buffer.len() - part.len() && buffer.subrange(i, i + part.len()) == part
}

/// Whether `part` stands in `buffer` at `i`, and nowhere before.
pub open spec fn first_occurs_at(buffer: Seq<u8>, part: Seq<u8>, i: int) -> bool {
    occurs_at(buffer, part, i) && forall|k: int| 0 <= k < i ==> !occurs_at(buffer, part, k)
}

/// `buffer` with `to` written over it from `i` on.
pub open spec fn overwritten(buffer: Seq<u8>, to: Seq<u8>, i: int) -> Seq<u8> {
    Seq::new(
        buffer.len(),
        |k: int|
            if i <= k < i + to.len() {
                to[k - i]
            } else {
                buffer[k]
            },
    )
}

/// Whether replacing the flag `from` by `to` turns what was read, `before`, into `after`.
pub open spec fn transforms(
    from: Seq<u8>,
    to: Seq<u8>,
    ready: bool,
    before: Seq<u8>,
    after: Seq<u8>,
) -> bool {
    if !ready || from.len() == 0 {
        after == before
    } else {
        &&& forall|i: int| #[trigger]
            first_occurs_at(before, from, i) ==> after == overwritten(before, to, i)
        &&& (forall|i: int| !#[trigger] occurs_at(before, from, i)) ==> after == before
    }
}

/// Replaces a flag in what a container sends by random text of the same length.
#[derive(Debug)]
pub struct FlagTransformer {
    from: Vec<u8>,
    to: Vec<u8>,
}

/// Whether `r` has `to` stand in for the flag `from`.
pub open spec fn stands_in(r: FlagTransformer, from: Seq<u8>, to: Seq<u8>) -> bool {
    &&& r.spec_from() == from
    &&& r.spec_to() == to
    &&& from.len() == to.len()
}

impl FlagTransformer {
    /// The flag.
    pub closed spec fn spec_from(&self) -> Seq<u8> {
        self.from@
    }

    /// What stands in for it.
    pub closed spec fn spec_to(&self) -> Seq<u8> {
        self.to@
    }

    /// Whether the flag and what stands in for it are of one length.
    pub open spec fn wf(&self) -> bool {
        self.spec_from().len() == self.spec_to().len()
    }

    /// Picks random text to stand in for a flag.
    pub fn new(from: Vec<u8>) -> (r: Self)
        ensures
            r.wf(),
            r.spec_from() == from@,
            stands_in(r, from@, r.spec_to()),
            forall|i: int|
                0 <= i < r.spec_to().len() ==> is_alphanumeric(#[trigger] r.spec_to()[i]),
    {
        let mut to: Vec<u8> = Vec::new();
        while to.len() < from.len()
            invariant
                to@.len() <= from@.len(),
                forall|i: int| 0 <= i < to@.len() ==> is_alphanumeric(#[trigger] to@[i]),
            decreases from@.len() - to@.len(),
        {
            to.push(random_alphanumeric());
        }
        FlagTransformer { from, to }
    }

    /// Stands `to` in for a flag of the same length.
    pub fn with_text(from: Vec<u8>, to: Vec<u8>) -> (r: Self)
        requires
            from@.len() == to@.len(),
        ensures
            r.wf(),
            r.spec_from() == from@,
            r.spec_to() == to@,
            stands_in(r, from@, to@),
    {
        FlagTransformer { from, to }
    }

    /// Replaces the first occurrence of the flag in what was read, once a read is complete.
    pub fn poll_read(&self, ready: bool, buffer: &mut [u8])
        requires
            self.wf(),
        ensures
            !ready || self.spec_from().len() == 0 ==> final(buffer)@ == old(buffer)@,
            ready && self.spec_from().len() > 0 ==> {
                &&& forall|i: int| #[trigger]
                    first_occurs_at(old(buffer)@, self.spec_from(), i) ==> final(buffer)@
                        == overwritten(old(buffer)@, self.spec_to(), i)
                &&& (forall|i: int| !#[trigger] occurs_at(old(buffer)@, self.spec_from(), i))
                    ==> final(buffer)@ == old(buffer)@
            },
            transforms(
                self.spec_from(),
                self.spec_to(),
                ready,
                old(buffer)@,
                final(buffer)@,
            ),
    {
        let len: usize = self.from.len();
        if !ready || len == 0 || buffer.len() < len {
            return;
        }
        let ghost before = buffer@;
        let total: usize = buffer.len();
        let last: usize = total - len;
        let mut i: usize = 0;
        while i <= last
            invariant
                ready,
                self.wf(),
                len == self.from@.len(),
                0 < len,
                before == old(buffer)@,
                buffer@ == before,
                buffer@.len() == total,
                total == last + len,
                i <= last + 1,
                forall|k: int| 0 <= k < i ==> !#[trigger] occurs_at(before, self.from@, k),
            decreases last + 1 - i,
        {
            let mut j: usize = 0;
            while j < len && buffer[i + j] == self.from[j]
                invariant
                    len == self.from@.len(),
                    buffer@.len() == total,
                    total == last + len,
                    i <= last,
                    j <= len,
                    forall|k: int| 0 <= k < j ==> buffer@[i + k] == self.from@[k],
                decreases len - j,
            {
                j += 1;
            }
            if j == len {
                assert(before.subrange(i as int, i + len) =~= self.from@);
                self.write(buffer, i);
                proof {
                    assert(first_occurs_at(before, self.from@, i as int));
                    assert forall|k: int| #[trigger]
                        first_occurs_at(before, self.from@, k) implies k == i by {
                        assert(occurs_at(before, self.from@, i as int));
                    }
                }
                return;
            }
            assert(before.subrange(i as int, i + len)[j as int] != self.from@[j as int]);
            i += 1;
        }
    }

    fn write(&self, buffer: &mut [u8], at: usize)
        requires
            at + self.to@.len() <= old(buffer)@.len(),
        ensures
            final(buffer)@ == overwritten(old(buffer)@, self.to@, at as int),
    {
        let total: usize = buffer.len();
        let mut k: usize = 0;
        assert(buffer@ =~= overwritten(old(buffer)@, self.to@.take(0), at as int));
        while k < self.to.len()
            invariant
                k <= self.to@.len(),
                buffer@.len() == total,
                at + self.to@.len() <= total,
                buffer@ == overwritten(old(buffer)@, self.to@.take(k as int), at as int),
            decreases self.to@.len() - k,
        {
            buffer[at + k] = self.to[k];
            assert(buffer@ =~= overwritten(old(buffer)@, self.to@.take(k + 1), at as int));
            k += 1;
        }
        assert(self.to@.take(self.to@.len() as int) =~= self.to@);
    }
}

/// Equal proxies have one identifier, and the bytes behind it tell unequal ones apart.
pub proof fn law_proxy_identity(a: Proxy, b: Proxy)
    ensures
        vstd::std_specs::cmp::PartialEqSpec::eq_spec(&a, &b) <==> a.identity() == b.identity(),
        vstd::std_specs::cmp::PartialEqSpec::eq_spec(&a, &b) ==> id_of(a) == id_of(b),
{
    if a.identity() == b.identity() {
        lemma_proxy_identity(a, b);
    }
}

proof fn lemma_proxy_identity(a: Proxy, b: Proxy)
    requires
        a.identity() == b.identity(),
    ensures
        a.spec_container()@ == b.spec_container()@,
        a.spec_port() == b.spec_port(),
        a.spec_host() == b.spec_host(),
        same_env(a.spec_env(), b.spec_env()),
{
    let none = Seq::<u8>::empty();
    let env_a = env_bytes(a.spec_env()) + none;
    let env_b = env_bytes(b.spec_env()) + none;
    let host_a = text_bytes(a.spec_host()) + env_a;
    let host_b = text_bytes(b.spec_host()) + env_b;
    let port_a = le_bytes(a.spec_port() as nat, 2) + host_a;
    let port_b = le_bytes(b.spec_port() as nat, 2) + host_b;
    let whole_a = le_bytes(a.spec_container()@ as nat, 8) + port_a;
    let whole_b = le_bytes(b.spec_container()@ as nat, 8) + port_b;
    assert(whole_a =~= a.identity());
    assert(whole_b =~= b.identity());
    reveal_with_fuel(span, 9);
    law_le_bytes_delimited(
        a.spec_container()@ as nat,
        b.spec_container()@ as nat,
        8,
        port_a,
        port_b,
    );
    law_le_bytes_delimited(a.spec_port() as nat, b.spec_port() as nat, 2, host_a, host_b);
    law_text_bytes_delimited(a.spec_host(), b.spec_host(), env_a, env_b);
    law_env_bytes_delimited(a.spec_env(), b.spec_env(), none, none);
}

/// A client that connects has the container started, where it is stopped, and only there.
pub proof fn law_connection_starts_the_container(
    proxy: Proxy,
    status: Map<u64, ContainerStatus>,
    images: Map<u64, ImageOption>,
)
    ensures
        ({
            let id = proxy.spec_container();
            action_for(status, images, docker::Msg::Start(id)) == Action::StartContainer(id)
                <==> status.contains_key(id@) && status[id@].state == ContainerState::Stopped
        }),
{
}

/// A connection that ends leaves the count as it was before the connection began, and while it
/// lasts the count is not zero, unless it has run over.
pub proof fn law_connection_is_counted(n: u64)
    ensures
        decremented(incremented(n)) == n,
        incremented(decremented(n)) == n,
        n < u64::MAX ==> incremented(n) > 0,
{
}

/// A connection that has begun or ended.
pub enum CountEvent {
    Inc,
    Dec,
}

/// The count after a series of connections that have begun and ended, from `n` on.
pub open spec fn count_after(n: u64, series: Seq<CountEvent>) -> u64
    decreases series.len(),
{
    if series.len() == 0 {
        n
    } else {
        let before = count_after(n, series.drop_last());
        match series.last() {
            CountEvent::Inc => incremented(before),
            CountEvent::Dec => decremented(before),
        }
    }
}

/// How many connections of a series have begun.
pub open spec fn begun(series: Seq<CountEvent>) -> nat {
    series.filter(|event: CountEvent| event is Inc).len()
}

/// How many connections of a series have ended.
pub open spec fn ended(series: Seq<CountEvent>) -> nat {
    series.filter(|event: CountEvent| event is Dec).len()
}

/// The count wraps around, and is right but for that after any series.
pub proof fn law_count_wraps_around(n: u64, series: Seq<CountEvent>)
    ensures
        count_after(n, series) == (n + begun(series) - ended(series)) % 0x1_0000_0000_0000_0000,
    decreases series.len(),
{
    reveal(Seq::filter);
    if series.len() > 0 {
        let rest = series.drop_last();
        law_count_wraps_around(n, rest);
        match series.last() {
            CountEvent::Inc => {
                assert(begun(series) == begun(rest) + 1);
                assert(ended(series) == ended(rest));
            },
            CountEvent::Dec => {
                assert(begun(series) == begun(rest));
                assert(ended(series) == ended(rest) + 1);
            },
        }
    }
}

/// From no connections on, the count is the number of connections that have begun less the number
/// that have ended, while that is a number that the counter can hold.
pub proof fn law_count_is_begun_less_ended(series: Seq<CountEvent>)
    requires
        0 <= begun(series) - ended(series) <= u64::MAX,
    ensures
        count_after(0, series) == begun(series) - ended(series),
{
    law_count_wraps_around(0, series);
}

/// The number of tries that are left after `made` of them.
pub open spec fn left_after(made: nat) -> usize
    decreases made,
{
    if made == 0 {
        MAX_TRIES
    } else {
        next_step(left_after((made - 1) as nat)).1
    }
}

/// A connection is tried `MAX_TRIES` times, and not once more.
pub proof fn law_tries_are_limited(made: nat)
    ensures
        left_after(made) == (if made <= MAX_TRIES {
            MAX_TRIES - made
        } else {
            0
        }),
        next_step(left_after(made)).0 == (if made < MAX_TRIES {
            ConnectionStep::Connect
        } else {
            ConnectionStep::Closed
        }),
    decreases made,
{
    if made > 0 {
        law_tries_are_limited((made - 1) as nat);
    }
}

/// A look at the connections of a container, in the course of time.
pub struct Look {
    /// Number of connections.
    pub no_conn: u64,
    /// When they were counted.
    pub now: u128,
    /// When the container was told to stop, where it was.
    pub sent: u128,
}

/// Whether the looks, begun at `start`, stand in the order of time.
pub open spec fn in_time(start: u128, looks: Seq<Look>) -> bool {
    &&& forall|i: int| 0 <= i < looks.len() ==> start <= (#[trigger] looks[i]).now
    &&& forall|i: int| 0 <= i < looks.len() ==> (#[trigger] looks[i]).now <= looks[i].sent
    &&& forall|i: int, j: int|
        0 <= i < j < looks.len() ==> (#[trigger] looks[i]).sent <= (#[trigger] looks[j]).now
}

/// The last activity before look `i`, for a tracker that was begun at `start`.
pub open spec fn activity_before(start: u128, timeout: u128, looks: Seq<Look>, i: int) -> u128
    decreases i,
{
    if i <= 0 {
        start
    } else {
        let before = activity_before(start, timeout, looks, i - 1);
        let look = looks[i - 1];
        if stops(timeout, before, false, look.no_conn, look.now) {
            activity_after_stop(before, look.sent)
        } else {
            activity_after(before, false, look.no_conn, look.now)
        }
    }
}

/// Whether the container is told to stop at look `i`.
pub open spec fn stops_at(start: u128, timeout: u128, looks: Seq<Look>, i: int) -> bool {
    stops(
        timeout,
        activity_before(start, timeout, looks, i),
        false,
        looks[i].no_conn,
        looks[i].now,
    )
}

proof fn lemma_activity(start: u128, timeout: u128, looks: Seq<Look>, i: int)
    requires
        in_time(start, looks),
        0 <= i <= looks.len(),
    ensures
        start <= activity_before(start, timeout, looks, i),
        forall|k: int|
            i <= k < looks.len() ==> activity_before(start, timeout, looks, i) <= (
            #[trigger] looks[k]).now,
        forall|k: int|
            0 <= k < i && (#[trigger] looks[k]).no_conn > 0 ==> looks[k].now <= activity_before(
                start,
                timeout,
                looks,
                i,
            ),
        forall|k: int|
            0 <= k < i && #[trigger] stops_at(start, timeout, looks, k) ==> looks[k].sent
                <= activity_before(start, timeout, looks, i),
    decreases i,
{
    if i > 0 {
        lemma_activity(start, timeout, looks, i - 1);
        let before = activity_before(start, timeout, looks, i - 1);
        let after = activity_before(start, timeout, looks, i);
        assert(before <= looks[i - 1].now);
        assert(before <= after);
        assert forall|k: int| i <= k < looks.len() implies after <= (#[trigger] looks[k]).now by {
            assert(looks[i - 1].sent <= looks[k].now);
        }
        assert forall|k: int| 0 <= k < i && #[trigger] stops_at(
            start,
            timeout,
            looks,
            k,
        ) implies looks[k].sent <= after by {
            if k == i - 1 {
                assert(after == looks[k].sent);
            }
        }
    }
}

/// A container is told to stop only after a whole idle period: since tracking began, since
/// connections were last seen, and since it was last told to stop.
pub proof fn law_stopped_only_when_idle(start: u128, timeout: u128, looks: Seq<Look>, i: int)
    requires
        in_time(start, looks),
        0 <= i < looks.len(),
        stops_at(start, timeout, looks, i),
    ensures
        looks[i].no_conn == 0,
        looks[i].now - start >= timeout,
        forall|k: int|
            0 <= k < i && (#[trigger] looks[k]).no_conn > 0 ==> looks[i].now - looks[k].now
                >= timeout,
        forall|k: int|
            0 <= k < i && #[trigger] stops_at(start, timeout, looks, k) ==> looks[i].now
                - looks[k].sent >= timeout,
{
    lemma_activity(start, timeout, looks, i);
    assert(activity_before(start, timeout, looks, i) <= looks[i].now);
}

/// A container without connections is told to stop within an idle period: where no look from `a`
/// to `b` sees a connection and the two are a whole idle period apart, some look between them
/// tells the container to stop.
pub proof fn law_idle_container_is_stopped(
    start: u128,
    timeout: u128,
    looks: Seq<Look>,
    a: int,
    b: int,
)
    requires
        in_time(start, looks),
        0 <= a <= b < looks.len(),
        forall|k: int| a <= k <= b ==> (#[trigger] looks[k]).no_conn == 0,
        looks[b].now - looks[a].now >= timeout,
    ensures
        exists|k: int| a <= k <= b && #[trigger] stops_at(start, timeout, looks, k),
{
    lemma_activity(start, timeout, looks, a);
    assert(activity_before(start, timeout, looks, a) <= looks[a].now);
    if !(exists|k: int| a <= k < b && #[trigger] stops_at(start, timeout, looks, k)) {
        lemma_quiet(start, timeout, looks, a, b);
        assert(looks[b].no_conn == 0);
        assert(stops_at(start, timeout, looks, b));
    }
}

proof fn lemma_quiet(start: u128, timeout: u128, looks: Seq<Look>, a: int, b: int)
    requires
        0 <= a <= b < looks.len(),
        forall|k: int| a <= k <= b ==> (#[trigger] looks[k]).no_conn == 0,
        forall|k: int| a <= k < b ==> !#[trigger] stops_at(start, timeout, looks, k),
    ensures
        activity_before(start, timeout, looks, b) == activity_before(start, timeout, looks, a),
    decreases b - a,
{
    if a < b {
        lemma_quiet(start, timeout, looks, a, b - 1);
        assert(!stops_at(start, timeout, looks, b - 1));
        assert(looks[b - 1].no_conn == 0);
    }
}

/// Where the tracker tells a container to stop, the Docker host stops it if it runs, and leaves it
/// alone if it does not.
pub proof fn law_stop_reaches_the_container(
    container: ContainerId,
    status: Map<u64, ContainerStatus>,
    images: Map<u64, ImageOption>,
)
    requires
        status.contains_key(container@),
    ensures
        action_for(status, images, docker::Msg::Stop(container)) == (
        if status[container@].state == ContainerState::Running {
            Action::StopContainer(container)
        } else {
            Action::Nothing
        }),
{
}

/// A host that was added is routed to its proxy, as long as the proxy is there.
pub proof fn law_added_host_is_routed(
    map: Map<Seq<char>, u64>,
    domain: Seq<char>,
    proxies: Map<u64, Proxy>,
    host: String,
    id: ProxyId,
)
    requires
        proxies.contains_key(id@),
    ensures
        route_for(
            routes_after(map, domain, TlsMsg::Add(host, id)),
            proxies,
            Some(below(host@, domain)),
        ) == Route::Serve(proxies[id@]),
{
}

/// Different hosts stay different below one name.
pub proof fn law_hosts_stay_apart(a: Seq<char>, b: Seq<char>, domain: Seq<char>)
    requires
        below(a, domain) == below(b, domain),
    ensures
        a == b,
{
    let whole = below(a, domain);
    assert(whole.len() == a.len() + "."@.len() + domain.len());
    assert(below(b, domain).len() == b.len() + "."@.len() + domain.len());
    assert(a =~= whole.take(a.len() as int));
    assert(b =~= whole.take(a.len() as int));
}

/// Adding a host does not change where another one is routed to.
pub proof fn law_other_hosts_are_kept(
    map: Map<Seq<char>, u64>,
    domain: Seq<char>,
    proxies: Map<u64, Proxy>,
    host: String,
    id: ProxyId,
    name: Seq<char>,
)
    requires
        name != below(host@, domain),
    ensures
        route_for(routes_after(map, domain, TlsMsg::Add(host, id)), proxies, Some(name))
            == route_for(map, proxies, Some(name)),
{
}

/// Once a proxy is removed no host is routed to it, and the hosts of other proxies are routed as
/// they were.
pub proof fn law_removed_proxy_is_not_routed(
    map: Map<Seq<char>, u64>,
    domain: Seq<char>,
    id: ProxyId,
    name: Seq<char>,
)
    ensures
        ({
            let after = routes_after(map, domain, TlsMsg::Remove(id));
            &&& after.contains_key(name) <==> map.contains_key(name) && map[name] != id@
            &&& after.contains_key(name) ==> after[name] == map[name]
        }),
{
}

/// A host whose proxy was found to be gone is unknown from then on.
pub proof fn law_gone_host_is_forgotten(
    map: Map<Seq<char>, u64>,
    proxies: Map<u64, Proxy>,
    name: Seq<char>,
)
    requires
        route_for(map, proxies, Some(name)) == Route::Gone,
    ensures
        route_for(routes_without(map, map[name]), proxies, Some(name)) == Route::Unknown,
{
}

/// Writing over a part changes nothing outside of it and keeps the length; in the part stands what
/// was written.
pub proof fn law_only_the_flag_changes(buffer: Seq<u8>, from: Seq<u8>, to: Seq<u8>, i: int)
    requires
        from.len() == to.len(),
        occurs_at(buffer, from, i),
    ensures
        overwritten(buffer, to, i).len() == buffer.len(),
        overwritten(buffer, to, i).subrange(i, i + to.len()) == to,
        overwritten(buffer, to, i).take(i) == buffer.take(i),
        overwritten(buffer, to, i).skip(i + to.len()) == buffer.skip(i + to.len()),
        overwritten(overwritten(buffer, to, i), from, i) == buffer,
{
    let after = overwritten(buffer, to, i);
    assert(after.subrange(i, i + to.len()) =~= to);
    assert(after.take(i) =~= buffer.take(i));
    assert(after.skip(i + to.len()) =~= buffer.skip(i + to.len()));
    assert(overwritten(after, from, i) =~= buffer) by {
        assert forall|k: int| i <= k < i + from.len() implies from[k - i] == buffer[k] by {
            assert(buffer.subrange(i, i + from.len())[k - i] == buffer[k]);
        }
    }
}

/// The first occurrence of a flag is what is replaced: where what was read is something without it,
/// the flag and some more, it becomes the same with the other text in the place of the flag.
pub proof fn law_first_flag_is_replaced(
    from: Seq<u8>,
    to: Seq<u8>,
    head: Seq<u8>,
    tail: Seq<u8>,
    after: Seq<u8>,
)
    requires
        from.len() == to.len(),
        from.len() > 0,
        forall|k: int| 0 <= k < head.len() ==> !occurs_at(head + from + tail, from, k),
        transforms(from, to, true, head + from + tail, after),
    ensures
        after == head + to + tail,
{
    let before = head + from + tail;
    let i = head.len() as int;
    assert(before.subrange(i, i + from.len()) =~= from);
    assert(first_occurs_at(before, from, i));
    assert(after =~= head + to + tail);
}

/// What holds no flag, what is not complete, and what is read where there is no flag, stays as it
/// is.
pub proof fn law_nothing_else_is_replaced(
    from: Seq<u8>,
    to: Seq<u8>,
    ready: bool,
    before: Seq<u8>,
    after: Seq<u8>,
)
    requires
        transforms(from, to, ready, before, after),
        !ready || from.len() == 0 || forall|head: Seq<u8>, tail: Seq<u8>|
            before != #[trigger] (head + from + tail),
    ensures
        after == before,
{
    if ready && from.len() > 0 {
        assert forall|i: int| !#[trigger] occurs_at(before, from, i) by {
            if occurs_at(before, from, i) {
                let head = before.take(i);
                let tail = before.skip(i + from.len());
                assert(before =~= head + before.subrange(i, i + from.len()) + tail);
                assert(before == head + from + tail);
            }
        }
    }
}

/// What is read keeps its length.
pub proof fn law_length_is_kept(
    from: Seq<u8>,
    to: Seq<u8>,
    ready: bool,
    before: Seq<u8>,
    after: Seq<u8>,
)
    requires
        from.len() == to.len(),
        transforms(from, to, ready, before, after),
    ensures
        after.len() == before.len(),
{
    if ready && from.len() > 0 {
        if exists|i: int| #[trigger] occurs_at(before, from, i) {
            let i = choose|i: int| #[trigger] occurs_at(before, from, i);
            lemma_first_occurrence(before, from, i);
        }
    }
}

proof fn lemma_first_occurrence(buffer: Seq<u8>, part: Seq<u8>, i: int)
    requires
        occurs_at(buffer, part, i),
    ensures
        exists|k: int| #[trigger] first_occurs_at(buffer, part, k),
    decreases i,
{
    if exists|k: int| 0 <= k < i && #[trigger] occurs_at(buffer, part, k) {
        let k = choose|k: int| 0 <= k < i && #[trigger] occurs_at(buffer, part, k);
        lemma_first_occurrence(buffer, part, k);
    } else {
        assert(first_occurs_at(buffer, part, i));
    }
}

/// A connection to a proxy has the container of the proxy started, and what is hidden in it is the
/// value of the variable of the container, and nothing where it has none.
pub proof fn law_connection_is_served_by_its_container(
    proxy: Proxy,
    msg: docker::Msg,
    flag: Seq<u8>,
)
    requires
        begins_to_serve(proxy, (msg, flag)),
    ensures
        msg matches docker::Msg::Start(id) && id@ == proxy.spec_container()@,
        proxy.spec_env() is None ==> flag.len() == 0,
        proxy.spec_env() matches Some(env) ==> flag == vstd::utf8::encode_utf8(env.value@),
{
}

/// A proxy is removed step by step: its own container is stopped first, then the interface is told
/// of this proxy, where there is one, and then what still runs is cancelled. A step that fails ends
/// the removal with its message.
pub proof fn law_proxy_is_removed_step_by_step(proxy: Proxy, message: String)
    ensures
        cleanup_start(proxy) matches CleanupStep::StopContainer(docker::Msg::Stop(id)) && id@
            == proxy.spec_container()@,
        after_stop_sent(proxy, Ok(()), true) == CleanupStep::RemoveFromTui(
            tui::Msg::Remove(id_of(proxy)),
        ),
        after_stop_sent(proxy, Ok(()), false) is Cancel,
        after_tui_told(Ok(())) is Cancel,
        after_stop_sent(proxy, Err(message), true) == CleanupStep::Failed(message),
        after_stop_sent(proxy, Err(message), false) == CleanupStep::Failed(message),
        after_tui_told(Err(message)) == CleanupStep::Failed(message),
{
}

/// A line that is filed under a proxy carries the line, and the identifier by which the interface
/// knows the proxy.
pub proof fn law_line_is_filed_under_its_proxy(proxy: Proxy, log: String)
    ensures
        filed_under(proxy, log).id == id_of(proxy),
        filed_under(proxy, log).log == log,
{
}

/// A listener serves each connection that it accepts, with lines that name the client and begin
/// alike, and stops exactly when it is cancelled, with a line that ends with its port.
pub proof fn law_listener_stops_when_cancelled(
    container: u64,
    port: u16,
    event: ListenerEvent,
    action: ListenerAction,
)
    requires
        reacts_to_event(container, port, event, action),
    ensures
        action is Stop <==> event is Cancelled,
        event matches ListenerEvent::Accepted(socket) ==> action matches ListenerAction::Serve {
            opened,
            closed,
        } && opened@ == "["@ + id_text(container) + "] Got Connection from: "@ + socket@ && closed@
            == "["@ + id_text(container) + "] Closed Connection from: "@ + socket@,
        action matches ListenerAction::Stop(line) ==> exists|digits: Seq<char>|
            line@ == #[trigger] ("Stopping TCPListener on Port: "@ + digits) && number_of(digits)
                == port,
{
    reveal_strlit("] ");
    reveal_strlit("Got Connection from: ");
    reveal_strlit("Closed Connection from: ");
    reveal_strlit("] Got Connection from: ");
    reveal_strlit("] Closed Connection from: ");
    assert("] "@ + "Got Connection from: "@ =~= "] Got Connection from: "@);
    assert("] "@ + "Closed Connection from: "@ =~= "] Closed Connection from: "@);
    if let ListenerEvent::Accepted(socket) = event {
        assert(opened_text(container, socket@) =~= "["@ + id_text(container) + ("] "@
            + "Got Connection from: "@) + socket@);
        assert(closed_text(container, socket@) =~= "["@ + id_text(container) + ("] "@
            + "Closed Connection from: "@) + socket@);
    }
    law_decimal_reads_back(port as nat);
    assert(stopping_text(port) == "Stopping TCPListener on Port: "@ + decimal(port as nat));
}

/// The line with which a listener begins names its container and ends with its port.
pub proof fn law_listener_starts_on_its_port(container: u64, port: u16)
    ensures
        exists|digits: Seq<char>|
            starting_text(container, port) == #[trigger] (line_head(container)
                + "Starting TCPListener on Port:\t"@ + digits) && number_of(digits) == port,
{
    law_decimal_reads_back(port as nat);
    assert(starting_text(container, port) == line_head(container)
        + "Starting TCPListener on Port:\t"@ + decimal(port as nat));
}

/// A socket listens on the address and the port that were asked for. A peer that is silent is given
/// up on at the moment at which the last probe has gone unanswered.
pub proof fn law_socket_is_as_asked(plan: SocketPlan, address: Seq<char>, port: u16)
    requires
        plans_socket(plan, address, port),
    ensures
        plan.address@ == address,
        plan.port == port,
        plan.keepalive_time == 10,
        plan.keepalive_interval == 10,
        plan.keepalive_retries == 3,
        plan.backlog == 128,
        plan.user_timeout == plan.keepalive_time + plan.keepalive_interval * plan.keepalive_retries,
{
}

/// A connection counts exactly while it is relayed: a try that fails changes nothing and is made
/// again after a while, one that succeeds is relayed and counts, and once it was relayed it is over
/// and the count is what it was.
pub proof fn law_connection_counts_while_it_is_relayed(no_conn: u64)
    ensures
        after_connecting(false, no_conn) == (ConnectionStep::Wait(100), no_conn),
        after_connecting(true, no_conn).0 == ConnectionStep::Relay(120),
        after_connecting(true, no_conn).1 != no_conn,
        no_conn < u64::MAX ==> after_connecting(true, no_conn).1 == no_conn + 1,
        after_relaying(after_connecting(true, no_conn).1) == (ConnectionStep::Closed, no_conn),
{
}

/// A connection is tried a hundred times, a tenth of a second apart.
pub proof fn law_container_has_ten_seconds_to_start(made: nat)
    ensures
        next_step(left_after(made)).0 is Connect <==> made < 100,
        made < 100 ==> left_after(made) + made == 100,
        after_connecting(false, 0).0 matches ConnectionStep::Wait(ms) && ms * 100 == 10_000,
{
    law_tries_are_limited(made);
}

/// A tracker ends exactly when it is cancelled, and where it has a container stopped, that is its
/// own, without connections, and idle for the whole timeout.
pub proof fn law_tracker_stops_its_own_container(
    timeout: u128,
    container: ContainerId,
    last_activity: u128,
    cancelled: bool,
    no_conn: u64,
    now: u128,
)
    requires
        last_activity <= now,
    ensures
        ({
            let action = track_action(timeout, container, last_activity, cancelled, no_conn, now);
            &&& action is Exit <==> cancelled
            &&& action is Stop <==> !cancelled && no_conn == 0 && now - last_activity >= timeout
            &&& action matches TrackAction::Stop(msg) ==> msg == docker::Msg::Stop(container)
        }),
        !cancelled && no_conn > 0 ==> activity_after(last_activity, cancelled, no_conn, now) == now,
        cancelled || no_conn == 0 ==> activity_after(last_activity, cancelled, no_conn, now)
            == last_activity,
        activity_after_stop(last_activity, now) == now,
{
}

/// A tracker of a proxy watches the container of the proxy, from now on, every five seconds, and
/// has it stopped after a minute without connections.
pub proof fn law_tracker_watches_the_container(proxy: Proxy, now: u128, track: ConnTrack)
    requires
        begins_to_track(proxy, now, track),
    ensures
        track.spec_container()@ == proxy.spec_container()@,
        track.spec_last_activity() == now,
        track.spec_timeout() == 60 * 1_000_000_000,
        track.spec_interval() == 5 * 1_000_000_000,
{
}

/// A connection is served by the proxy that its host is routed to, and by no other. It is turned
/// away as nameless exactly where the client names no host, and as unknown exactly where the host
/// has no route.
pub proof fn law_connection_goes_where_its_host_is_routed(
    map: Map<Seq<char>, u64>,
    proxies: Map<u64, Proxy>,
    server_name: Option<Seq<char>>,
)
    ensures
        ({
            let route = route_for(map, proxies, server_name);
            &&& route is NoServerName <==> server_name is None
            &&& route is Unknown <==> server_name is Some && !map.contains_key(server_name->0)
            &&& route is Gone <==> server_name is Some && map.contains_key(server_name->0)
                && !proxies.contains_key(map[server_name->0])
            &&& route matches Route::Serve(proxy) ==> server_name is Some && map.contains_key(
                server_name->0,
            ) && proxies.contains_key(map[server_name->0]) && proxy
                == proxies[map[server_name->0]]
        }),
{
}

/// Routing a connection forgets the routes to a proxy that is found to be gone, and no others.
pub proof fn law_connection_forgets_gone_routes_alone(
    map: Map<Seq<char>, u64>,
    proxies: Map<u64, Proxy>,
    name: Seq<char>,
    host: Seq<char>,
)
    ensures
        ({
            let after = routes_after_connection(map, proxies, Some(name));
            let gone = map.contains_key(name) && !proxies.contains_key(map[name]);
            &&& after.contains_key(host) <==> map.contains_key(host) && !(gone && map[host]
                == map[name])
            &&& after.contains_key(host) ==> after[host] == map[host]
            &&& gone ==> !after.contains_key(name)
            &&& map.contains_key(host) && proxies.contains_key(map[host]) ==> after.contains_key(
                host,
            )
        }),
        routes_after_connection(map, proxies, None) == map,
{
}

/// A host name below the common one is the host, a dot and the common name.
pub proof fn law_host_stands_below_the_domain(host: Seq<char>, domain: Seq<char>)
    ensures
        below(host, domain).len() == host.len() + 1 + domain.len(),
        below(host, domain).take(host.len() as int) == host,
        below(host, domain)[host.len() as int] == '.',
        below(host, domain).skip(host.len() as int + 1) == domain,
{
    reveal_strlit(".");
    assert(below(host, domain).take(host.len() as int) =~= host);
    assert(below(host, domain).skip(host.len() as int + 1) =~= domain);
}

/// The bytes that make up the identifier of a proxy tell the container, the port, the host and the
/// variable.
pub proof fn law_proxy_identity_is_its_fields(a: Proxy, b: Proxy)
    ensures
        a.identity() == b.identity() <==> a.spec_container()@ == b.spec_container()@
            && a.spec_port() == b.spec_port() && a.spec_host() == b.spec_host() && (
        a.spec_env() is Some <==> b.spec_env() is Some) && (a.spec_env() matches Some(e)
            ==> b.spec_env() matches Some(f) ==> e.key@ == f.key@ && e.value@ == f.value@),
{
    if a.identity() == b.identity() {
        lemma_proxy_identity(a, b);
    }
}

/// Letters and digits are exactly the bytes from `0` to `9`, from `A` to `Z` and from `a` to `z`.
pub proof fn law_letters_and_digits(byte: u8)
    ensures
        is_alphanumeric(byte) <==> '0' <= byte as char <= '9' || 'A' <= byte as char <= 'Z' || 'a'
            <= byte as char <= 'z',
{
}

/// A transformer for a flag replaces the flag that it was made for by the text that stands in for
/// it: what is read of the flag alone becomes that text, and what is read of nothing stays nothing.
pub proof fn law_transformer_replaces_its_flag(
    r: FlagTransformer,
    from: Seq<u8>,
    to: Seq<u8>,
    after: Seq<u8>,
)
    requires
        stands_in(r, from, to),
        transforms(r.spec_from(), r.spec_to(), true, from, after),
    ensures
        after == to,
{
    let none = Seq::<u8>::empty();
    if from.len() > 0 {
        assert(none + from + none =~= from);
        law_first_flag_is_replaced(from, to, none, none, after);
        assert(none + to + none =~= to);
    } else {
        assert(after =~= to);
    }
}

/// At first there are no connections, and every try of a connection is left.
pub proof fn law_counting_begins_at_nothing(n: u64)
    ensures
        count_after(n, Seq::empty()) == n,
        left_after(0) == 100,
        count_after(n, seq![CountEvent::Inc]) == incremented(n),
        count_after(n, seq![CountEvent::Dec]) == decremented(n),
{
    reveal_with_fuel(count_after, 2);
    assert(seq![CountEvent::Inc].drop_last() =~= Seq::empty());
    assert(seq![CountEvent::Dec].drop_last() =~= Seq::empty());
}

} // verus!
