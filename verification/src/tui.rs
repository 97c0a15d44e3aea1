//! State of the terminal interface: the active proxies, their logs and the selection.

use vstd::prelude::*;
use vstd::string::*;

use crate::docker::CONTAINER_NAME_PREFIX;
use crate::text;
use crate::text::{decimal, law_decimal_reads_back, number_of};

verus! {

/// What the interface is told.
#[derive(Debug)]
pub enum Msg {
    /// A proxy has been added.
    Proxy(ProxyInfo),
    /// The proxy with this identifier has been removed.
    Remove(u64),
    /// A proxy has something to report.
    Log(LogInfo),
}

/// An active proxy.
#[derive(Debug)]
pub struct ProxyInfo {
    pub id: u64,
    pub host_port: u16,
    pub docker_image: String,
    pub docker_host: String,
    pub docker_port: u16,
}

/// A line of the log of a proxy.
#[derive(Debug)]
pub struct LogInfo {
    pub id: u64,
    pub log: String,
}

/// A key of the keyboard.
#[derive(Clone, Copy, Debug, PartialEq, Eq, Structural)]
pub enum KeyCode {
    Char(char),
    Up,
    Down,
    Other,
}

/// What happened to a key.
#[derive(Clone, Copy, Debug, PartialEq, Eq, Structural)]
pub enum KeyEventKind {
    Press,
    Repeat,
    Release,
}

/// An event of the keyboard.
#[derive(Clone, Copy, Debug, PartialEq, Eq, Structural)]
pub struct KeyEvent {
    pub code: KeyCode,
    pub kind: KeyEventKind,
}

/// A row of the table of proxies.
#[derive(Debug)]
pub struct ProxyRow {
    pub container_name: String,
    pub docker_image: String,
    pub mapping: String,
}

/// The table of proxies.
#[derive(Debug)]
pub struct ProxyTable {
    /// Titles of the columns.
    pub header: Vec<String>,
    pub rows: Vec<ProxyRow>,
}

/// Whether `table` lays out `proxies`: a title for each column, and a row for each proxy, in order.
pub open spec fn lays_out(table: ProxyTable, proxies: Seq<ProxyInfo>) -> bool {
    &&& table.header.len() == 3
    &&& table.header[0]@ == "Container Name"@
    &&& table.header[1]@ == "Docker Image"@
    &&& table.header[2]@ == "Mapping"@
    &&& table.rows.len() == proxies.len()
    &&& forall|i: int| 0 <= i < proxies.len() ==> shows(#[trigger] table.rows[i], proxies[i])
}

/// Whether `row` shows `info`.
pub open spec fn shows(row: ProxyRow, info: ProxyInfo) -> bool {
    &&& row.container_name@ == CONTAINER_NAME_PREFIX@ + decimal(info.id as nat)
    &&& row.docker_image == info.docker_image
    &&& row.mapping@ == decimal(info.host_port as nat) + " -> "@ + info.docker_host@ + ":"@
        + decimal(info.docker_port as nat)
}

/// The proxies that stay once the proxy `id` is removed.
pub open spec fn proxies_without(list: Seq<ProxyInfo>, id: u64) -> Seq<ProxyInfo> {
    list.filter(|info: ProxyInfo| info.id != id)
}

/// The lines that stay once the proxy `id` is removed.
pub open spec fn logs_without(list: Seq<LogInfo>, id: u64) -> Seq<LogInfo> {
    list.filter(|info: LogInfo| info.id != id)
}

/// The lines of the proxy `id`.
pub open spec fn logs_of(list: Seq<LogInfo>, id: u64) -> Seq<String> {
    list.filter(|info: LogInfo| info.id == id).map_values(|info: LogInfo| info.log)
}

/// The active proxies, in the order in which they were added.
#[derive(Debug)]
pub struct ProxyList(Vec<ProxyInfo>);

impl View for ProxyList {
    type V = Seq<ProxyInfo>;

    closed spec fn view(&self) -> Seq<ProxyInfo> {
        self.0@
    }
}

impl ProxyList {
    fn remove(&mut self, id: u64)
        ensures
            final(self)@ == proxies_without(old(self)@, id),
    {
        let mut before: Vec<ProxyInfo> = Vec::new();
        std::mem::swap(&mut before, &mut self.0);
        let ghost all = before@;
        let ghost keep = |info: ProxyInfo| info.id != id;
        let mut kept: Vec<ProxyInfo> = Vec::new();
        for info in it: before
            invariant
                it.seq() == all,
                keep == (|info: ProxyInfo| info.id != id),
                kept@ == all.take(it.index() as int).filter(keep),
        {
            proof {
                let i = it.index() as int;
                assert(all.take(i + 1).drop_last() =~= all.take(i));
                reveal_with_fuel(Seq::filter, 2);
            }
            if info.id != id {
                kept.push(info);
            }
        }
        assert(all.take(all.len() as int) =~= all);
        self.0 = kept;
    }

    /// Lays the proxies out as a table.
    pub fn render(&self) -> (table: ProxyTable)
        ensures
            lays_out(table, self@),
    {
        let mut header: Vec<String> = Vec::new();
        header.push("Container Name".to_owned());
        header.push("Docker Image".to_owned());
        header.push("Mapping".to_owned());
        let mut rows: Vec<ProxyRow> = Vec::new();
        let mut i: usize = 0;
        while i < self.0.len()
            invariant
                i <= self.0.len(),
                rows.len() == i,
                forall|k: int| 0 <= k < i ==> shows(#[trigger] rows[k], self@[k]),
            decreases self.0.len() - i,
        {
            let info = &self.0[i];
            let mut mapping = text::to_decimal(info.host_port as u64);
            mapping.append(" -> ");
            mapping.append(info.docker_host.as_str());
            mapping.append(":");
            mapping.append(text::to_decimal(info.docker_port as u64).as_str());
            let row = ProxyRow {
                container_name: text::join(
                    CONTAINER_NAME_PREFIX,
                    text::to_decimal(info.id).as_str(),
                ),
                docker_image: info.docker_image.clone(),
                mapping,
            };
            assert(shows(row, self@[i as int]));
            rows.push(row);
            i += 1;
        }
        ProxyTable { header, rows }
    }
}

/// The lines of all logs, in the order in which they came.
#[derive(Debug)]
pub struct LogList(Vec<LogInfo>);

impl View for LogList {
    type V = Seq<LogInfo>;

    closed spec fn view(&self) -> Seq<LogInfo> {
        self.0@
    }
}

impl LogList {
    fn remove(&mut self, id: u64)
        ensures
            final(self)@ == logs_without(old(self)@, id),
    {
        let mut before: Vec<LogInfo> = Vec::new();
        std::mem::swap(&mut before, &mut self.0);
        let ghost all = before@;
        let ghost keep = |info: LogInfo| info.id != id;
        let mut kept: Vec<LogInfo> = Vec::new();
        for info in it: before
            invariant
                it.seq() == all,
                keep == (|info: LogInfo| info.id != id),
                kept@ == all.take(it.index() as int).filter(keep),
        {
            proof {
                let i = it.index() as int;
                assert(all.take(i + 1).drop_last() =~= all.take(i));
                reveal_with_fuel(Seq::filter, 2);
            }
            if info.id != id {
                kept.push(info);
            }
        }
        assert(all.take(all.len() as int) =~= all);
        self.0 = kept;
    }

    /// Lists the lines of the selected proxy.
    pub fn render(&self, selected_proxy: u64) -> (lines: Vec<String>)
        ensures
            lines@ == logs_of(self@, selected_proxy),
    {
        let ghost all = self@;
        let ghost wanted = |info: LogInfo| info.id == selected_proxy;
        let ghost line = |info: LogInfo| info.log;
        let mut lines: Vec<String> = Vec::new();
        let mut i: usize = 0;
        assert(lines@ =~= all.take(0).filter(wanted).map_values(line));
        while i < self.0.len()
            invariant
                i <= self.0.len(),
                all == self.0@,
                wanted == (|info: LogInfo| info.id == selected_proxy),
                line == (|info: LogInfo| info.log),
                lines@ == all.take(i as int).filter(wanted).map_values(line),
            decreases self.0.len() - i,
        {
            proof {
                assert(all.take(i + 1).drop_last() =~= all.take(i as int));
                reveal_with_fuel(Seq::filter, 2);
            }
            if self.0[i].id == selected_proxy {
                lines.push(self.0[i].log.clone());
                assert(lines@ =~= all.take(i + 1).filter(wanted).map_values(line));
            }
            i += 1;
        }
        assert(all.take(all.len() as int) =~= all);
        lines
    }
}

/// The state of the interface.
#[verifier::ext_equal]
pub struct AppView {
    /// Row of the table that is selected.
    pub selected: Option<usize>,
    /// Identifier of the proxy whose log is shown.
    pub selected_proxy: u64,
    pub proxies: Seq<ProxyInfo>,
    pub logs: Seq<LogInfo>,
    /// Whether the user has quit.
    pub exit: bool,
}

/// The terminal interface.
#[derive(Debug)]
pub struct App {
    selected: Option<usize>,
    selected_proxy: u64,
    proxy: ProxyList,
    log: LogList,
    exit: bool,
}

impl View for App {
    type V = AppView;

    closed spec fn view(&self) -> AppView {
        AppView {
            selected: self.selected,
            selected_proxy: self.selected_proxy,
            proxies: self.proxy@,
            logs: self.log@,
            exit: self.exit,
        }
    }
}

/// The state after a message.
pub open spec fn after_message(app: AppView, msg: Msg) -> AppView {
    match msg {
        Msg::Proxy(info) => AppView { proxies: app.proxies.push(info), ..app },
        Msg::Log(info) => AppView { logs: app.logs.push(info), ..app },
        Msg::Remove(id) => AppView {
            proxies: proxies_without(app.proxies, id),
            logs: logs_without(app.logs, id),
            ..app
        },
    }
}

/// The state once row `i` is selected: where there is a proxy in that row, its log is shown.
pub open spec fn after_selection(app: AppView, i: usize) -> AppView {
    AppView {
        selected: Some(i),
        selected_proxy: if i < app.proxies.len() {
            app.proxies[i as int].id
        } else {
            app.selected_proxy
        },
        ..app
    }
}

/// The row below the selected one, and the first row below the last one.
pub open spec fn row_below(app: AppView) -> usize {
    match app.selected {
        Some(i) => if i >= app.proxies.len() - 1 {
            0
        } else {
            (i + 1) as usize
        },
        None => 0,
    }
}

/// The row above the selected one, and the last row above the first one.
pub open spec fn row_above(app: AppView) -> usize {
    match app.selected {
        Some(i) => if i == 0 {
            (app.proxies.len() - 1) as usize
        } else {
            (i - 1) as usize
        },
        None => 0,
    }
}

/// Whether the key can be handled: there is no row to move to from a row of an empty table, except
/// up from a row that is not the first.
pub open spec fn can_handle(app: AppView, code: KeyCode) -> bool {
    match code {
        KeyCode::Down => app.selected is Some ==> app.proxies.len() > 0,
        KeyCode::Up => app.selected == Some(0usize) ==> app.proxies.len() > 0,
        _ => true,
    }
}

/// The state after a key was pressed.
pub open spec fn after_key(app: AppView, code: KeyCode) -> AppView {
    match code {
        KeyCode::Char(c) => if c == 'q' {
            AppView { exit: true, ..app }
        } else {
            app
        },
        KeyCode::Up => after_selection(app, row_above(app)),
        KeyCode::Down => after_selection(app, row_below(app)),
        KeyCode::Other => app,
    }
}

/// The state after an event of the keyboard.
pub open spec fn after_event(app: AppView, event: KeyEvent) -> AppView {
    if event.kind == KeyEventKind::Press {
        after_key(app, event.code)
    } else {
        app
    }
}

/// The state once the user has quit.
pub open spec fn after_exit(app: AppView) -> AppView {
    AppView { exit: true, ..app }
}

/// The state once the table has moved the selection to `row`.
pub open spec fn with_row(app: AppView, row: Option<usize>) -> AppView {
    AppView { selected: row, ..app }
}

/// The state without proxies.
pub open spec fn empty_app() -> AppView {
    AppView {
        selected: None,
        selected_proxy: 0,
        proxies: Seq::empty(),
        logs: Seq::empty(),
        exit: false,
    }
}

impl Default for App {
    fn default() -> (r: Self)
        ensures
            r@ == empty_app(),
    {
        App::new()
    }
}

impl App {
    /// Creates an interface without proxies.
    pub fn new() -> (r: Self)
        ensures
            r@ == empty_app(),
    {
        let r = App {
            selected: None,
            selected_proxy: 0,
            proxy: ProxyList(Vec::new()),
            log: LogList(Vec::new()),
            exit: false,
        };
        assert(r@.proxies =~= Seq::empty());
        assert(r@.logs =~= Seq::empty());
        r
    }

    /// Takes a message.
    pub fn handle_message(&mut self, msg: Msg)
        ensures
            final(self)@ == after_message(old(self)@, msg),
    {
        match msg {
            Msg::Proxy(proxy) => {
                self.proxy.0.push(proxy);
            },
            Msg::Log(log) => {
                self.log.0.push(log);
            },
            Msg::Remove(id) => {
                self.proxy.remove(id);
                self.log.remove(id);
            },
        }
    }

    /// Tells whether `handle_key_event` can take a key.
    pub fn can_handle_key(&self, code: KeyCode) -> (r: bool)
        ensures
            r == can_handle(self@, code),
    {
        match code {
            KeyCode::Down => match self.selected {
                Some(_) => self.proxy.0.len() > 0,
                None => true,
            },
            KeyCode::Up => match self.selected {
                Some(i) => i != 0 || self.proxy.0.len() > 0,
                None => true,
            },
            _ => true,
        }
    }

    /// Takes an event of the keyboard. Only a press counts.
    pub fn handle_event(&mut self, event: KeyEvent)
        requires
            event.kind == KeyEventKind::Press ==> can_handle(old(self)@, event.code),
        ensures
            final(self)@ == (if event.kind == KeyEventKind::Press {
                after_key(old(self)@, event.code)
            } else {
                old(self)@
            }),
            final(self)@ == after_event(old(self)@, event),
    {
        if event.kind == KeyEventKind::Press {
            self.handle_key_event(event);
        }
    }

    /// Takes a key that was pressed.
    pub fn handle_key_event(&mut self, key_event: KeyEvent)
        requires
            can_handle(old(self)@, key_event.code),
        ensures
            final(self)@ == after_key(old(self)@, key_event.code),
    {
        match key_event.code {
            KeyCode::Char(c) => if c == 'q' {
                self.exit();
            },
            KeyCode::Up => self.scroll_up(),
            KeyCode::Down => self.scroll_down(),
            KeyCode::Other => {},
        }
    }

    /// Quits.
    pub fn exit(&mut self)
        ensures
            final(self)@ == (AppView { exit: true, ..old(self)@ }),
            final(self)@ == after_exit(old(self)@),
    {
        self.exit = true;
    }

    /// Tells whether the user has quit.
    pub fn has_exited(&self) -> (r: bool)
        ensures
            r == self@.exit,
    {
        self.exit
    }

    /// Returns the selected row.
    pub fn selected(&self) -> (r: Option<usize>)
        ensures
            r == self@.selected,
    {
        self.selected
    }

    /// Takes over the row that the table has selected, which it may have moved while it was drawn.
    pub fn select(&mut self, row: Option<usize>)
        ensures
            final(self)@ == (AppView { selected: row, ..old(self)@ }),
            final(self)@ == with_row(old(self)@, row),
    {
        self.selected = row;
    }

    fn show(&mut self, i: usize)
        ensures
            final(self)@ == after_selection(old(self)@, i),
    {
        self.selected = Some(i);
        if i < self.proxy.0.len() {
            self.selected_proxy = self.proxy.0[i].id;
        }
    }

    /// Selects the row below, or the first one after the last.
    pub fn scroll_down(&mut self)
        requires
            can_handle(old(self)@, KeyCode::Down),
        ensures
            final(self)@ == after_selection(old(self)@, row_below(old(self)@)),
    {
        let i: usize = match self.selected {
            Some(i) => if i >= self.proxy.0.len() - 1 {
                0
            } else {
                i + 1
            },
            None => 0,
        };
        self.show(i);
    }

    /// Selects the row above, or the last one after the first.
    pub fn scroll_up(&mut self)
        requires
            can_handle(old(self)@, KeyCode::Up),
        ensures
            final(self)@ == after_selection(old(self)@, row_above(old(self)@)),
    {
        let i: usize = match self.selected {
            Some(i) => if i == 0 {
                self.proxy.0.len() - 1
            } else {
                i - 1
            },
            None => 0,
        };
        self.show(i);
    }

    /// Lays the proxies out as a table.
    pub fn proxy_table(&self) -> (table: ProxyTable)
        ensures
            lays_out(table, self@.proxies),
    {
        self.proxy.render()
    }

    /// Lists the lines of the proxy whose log is shown.
    pub fn log_lines(&self) -> (lines: Vec<String>)
        ensures
            lines@ == logs_of(self@.logs, self@.selected_proxy),
    {
        self.log.render(self.selected_proxy)
    }
}

/// Once a proxy is removed, neither it nor a line of its log is left.
pub proof fn law_removed_proxy_is_gone(app: AppView, id: u64)
    ensures
        forall|i: int|
            0 <= i < after_message(app, Msg::Remove(id)).proxies.len() ==> (
            #[trigger] after_message(app, Msg::Remove(id)).proxies[i]).id != id,
        logs_of(after_message(app, Msg::Remove(id)).logs, id).len() == 0,
{
    let keep = |info: ProxyInfo| info.id != id;
    let after = after_message(app, Msg::Remove(id));
    assert forall|i: int| 0 <= i < after.proxies.len() implies (
    #[trigger] after.proxies[i]).id != id by {
        app.proxies.lemma_filter_pred(keep, i);
    }
    lemma_logs_of_others(app.logs, id, id);
}

/// Removing a proxy leaves the log of every other one as it was.
pub proof fn law_other_logs_are_kept(app: AppView, id: u64, other: u64)
    requires
        other != id,
    ensures
        logs_of(after_message(app, Msg::Remove(id)).logs, other) == logs_of(app.logs, other),
{
    lemma_logs_of_others(app.logs, id, other);
}

proof fn lemma_logs_of_others(logs: Seq<LogInfo>, id: u64, other: u64)
    ensures
        logs_of(logs_without(logs, id), other) == (if other == id {
            Seq::<String>::empty()
        } else {
            logs_of(logs, other)
        }),
    decreases logs.len(),
{
    reveal(Seq::filter);
    let keep = |info: LogInfo| info.id != id;
    let wanted = |info: LogInfo| info.id == other;
    let line = |info: LogInfo| info.log;
    if logs.len() > 0 {
        let rest = logs.drop_last();
        let last = logs.last();
        lemma_logs_of_others(rest, id, other);
        if keep(last) {
            assert(logs.filter(keep) == rest.filter(keep).push(last));
            assert(rest.filter(keep).push(last).drop_last() =~= rest.filter(keep));
            if wanted(last) {
                assert(rest.filter(keep).push(last).filter(wanted) == rest.filter(keep).filter(
                    wanted,
                ).push(last));
                assert(logs.filter(wanted) == rest.filter(wanted).push(last));
                assert(rest.filter(wanted).push(last).map_values(line) =~= rest.filter(
                    wanted,
                ).map_values(line).push(last.log));
                assert(rest.filter(keep).filter(wanted).push(last).map_values(line)
                    =~= rest.filter(keep).filter(wanted).map_values(line).push(last.log));
            } else {
                assert(logs.filter(wanted) == rest.filter(wanted));
            }
        } else if other != id {
            assert(logs.filter(wanted) == rest.filter(wanted));
        }
    }
    assert(logs_of(logs_without(logs, id), other) =~= (if other == id {
        Seq::<String>::empty()
    } else {
        logs_of(logs, other)
    }));
}

/// A new line comes last in the log of its proxy, and in no other log.
pub proof fn law_new_line_comes_last(app: AppView, info: LogInfo, id: u64)
    ensures
        logs_of(after_message(app, Msg::Log(info)).logs, id) == (if info.id == id {
            logs_of(app.logs, id).push(info.log)
        } else {
            logs_of(app.logs, id)
        }),
{
    reveal(Seq::filter);
    let wanted = |info: LogInfo| info.id == id;
    let line = |info: LogInfo| info.log;
    let logs = app.logs.push(info);
    assert(logs.drop_last() =~= app.logs);
    if info.id == id {
        assert(logs.filter(wanted) == app.logs.filter(wanted).push(info));
        assert(app.logs.filter(wanted).push(info).map_values(line) =~= app.logs.filter(
            wanted,
        ).map_values(line).push(info.log));
    } else {
        assert(logs.filter(wanted) == app.logs.filter(wanted));
    }
}

/// Within the table, moving down and up again, or up and down again, comes back to the same row.
pub proof fn law_up_undoes_down(app: AppView, i: usize)
    requires
        app.selected == Some(i),
        i < app.proxies.len() <= usize::MAX,
    ensures
        after_key(after_key(app, KeyCode::Down), KeyCode::Up) == after_selection(app, i),
        after_key(after_key(app, KeyCode::Up), KeyCode::Down) == after_selection(app, i),
{
}

/// Moving within a table that has rows selects a row of it and shows the log of the proxy in that
/// row.
pub proof fn law_selection_shows_its_log(app: AppView, code: KeyCode)
    requires
        code == KeyCode::Up || code == KeyCode::Down,
        0 < app.proxies.len() <= usize::MAX,
        app.selected matches Some(i) ==> i < app.proxies.len(),
    ensures
        after_key(app, code).selected matches Some(i) && i < app.proxies.len() && after_key(
            app,
            code,
        ).selected_proxy == app.proxies[i as int].id,
{
}

/// Only the key `q` quits.
pub proof fn law_only_q_quits(app: AppView, code: KeyCode)
    requires
        !app.exit,
    ensures
        after_key(app, code).exit <==> code == KeyCode::Char('q'),
{
}

/// Moving down selects the next row, the first one after the last, and the first one where none is
/// selected. It shows the log of the proxy in that row and changes nothing else.
pub proof fn law_down_selects_the_next_row(app: AppView)
    requires
        0 < app.proxies.len() <= usize::MAX,
    ensures
        ({
            let after = after_key(app, KeyCode::Down);
            &&& app.selected matches Some(i) ==> i + 1 < app.proxies.len() ==> after.selected
                == Some((i + 1) as usize) && after.selected_proxy == app.proxies[i + 1].id
            &&& app.selected matches Some(i) ==> i + 1 >= app.proxies.len() ==> after.selected
                == Some(0usize) && after.selected_proxy == app.proxies[0].id
            &&& app.selected is None ==> after.selected == Some(0usize) && after.selected_proxy
                == app.proxies[0].id
            &&& after.proxies == app.proxies
            &&& after.logs == app.logs
            &&& after.exit == app.exit
        }),
{
}

/// Moving up selects the row before, the last one before the first, and the first one where none is
/// selected. Where that row has a proxy, its log is shown; nothing else changes.
pub proof fn law_up_selects_the_row_before(app: AppView)
    requires
        0 < app.proxies.len() <= usize::MAX,
    ensures
        ({
            let after = after_key(app, KeyCode::Up);
            let last = app.proxies.len() - 1;
            &&& app.selected matches Some(i) ==> i > 0 ==> after.selected == Some((i - 1) as usize)
            &&& app.selected matches Some(i) ==> 0 < i <= app.proxies.len()
                ==> after.selected_proxy == app.proxies[i - 1].id
            &&& app.selected matches Some(i) ==> i > app.proxies.len() ==> after.selected_proxy
                == app.selected_proxy
            &&& app.selected == Some(0usize) ==> after.selected == Some(last as usize)
                && after.selected_proxy == app.proxies[last].id
            &&& app.selected is None ==> after.selected == Some(0usize) && after.selected_proxy
                == app.proxies[0].id
            &&& after.proxies == app.proxies
            &&& after.logs == app.logs
            &&& after.exit == app.exit
        }),
{
}

/// In an empty table no row can be moved to from one that is selected, except up from a row that is
/// not the first. Every other key can be handled, and in a table with rows every key can.
pub proof fn law_keys_can_be_handled(app: AppView, code: KeyCode)
    ensures
        app.proxies.len() > 0 ==> can_handle(app, code),
        app.selected is None ==> can_handle(app, code),
        app.proxies.len() == 0 && app.selected is Some ==> !can_handle(app, KeyCode::Down),
        app.proxies.len() == 0 ==> (can_handle(app, KeyCode::Up) <==> app.selected != Some(0usize)),
        code is Char || code is Other ==> can_handle(app, code),
{
}

/// A key counts when it is pressed, and not when it is held or let go. Keys other than `q` and
/// those that move do nothing, and `q` does nothing but quit.
pub proof fn law_only_a_press_counts(app: AppView, event: KeyEvent)
    ensures
        event.kind != KeyEventKind::Press ==> after_event(app, event) == app,
        event.kind == KeyEventKind::Press && event.code == KeyCode::Char('q') ==> after_event(
            app,
            event,
        ) == after_exit(app),
        event.kind == KeyEventKind::Press && event.code == KeyCode::Down ==> after_event(app, event)
            == after_selection(app, row_below(app)),
        event.kind == KeyEventKind::Press && event.code == KeyCode::Up ==> after_event(app, event)
            == after_selection(app, row_above(app)),
        event.code is Other ==> after_event(app, event) == app,
        event.code matches KeyCode::Char(c) ==> c != 'q' ==> after_event(app, event) == app,
        after_exit(app).exit,
        after_exit(app).selected == app.selected,
        after_exit(app).selected_proxy == app.selected_proxy,
        after_exit(app).proxies == app.proxies,
        after_exit(app).logs == app.logs,
{
}

/// A selection that the table has moved is taken over, and the log that is shown stays.
pub proof fn law_moved_selection_is_taken_over(app: AppView, row: Option<usize>)
    ensures
        with_row(app, row).selected == row,
        with_row(app, row).selected_proxy == app.selected_proxy,
        with_row(app, row).proxies == app.proxies,
        with_row(app, row).logs == app.logs,
        with_row(app, row).exit == app.exit,
{
}

/// A new proxy comes last, and those before it, the logs and the selection stay as they are.
pub proof fn law_new_proxy_comes_last(app: AppView, info: ProxyInfo)
    ensures
        ({
            let after = after_message(app, Msg::Proxy(info));
            &&& after.proxies.len() == app.proxies.len() + 1
            &&& after.proxies.last() == info
            &&& forall|i: int|
                0 <= i < app.proxies.len() ==> #[trigger] after.proxies[i] == app.proxies[i]
            &&& after.logs == app.logs
            &&& after.selected == app.selected
            &&& after.selected_proxy == app.selected_proxy
            &&& after.exit == app.exit
        }),
{
}

/// A removal goes through the proxies one by one: what it leaves of two lists in a row is what it
/// leaves of each, and of a single proxy it leaves nothing exactly where it is the one.
pub proof fn law_removal_keeps_the_others_in_order(
    a: Seq<ProxyInfo>,
    b: Seq<ProxyInfo>,
    info: ProxyInfo,
    id: u64,
)
    ensures
        proxies_without(a + b, id) == proxies_without(a, id) + proxies_without(b, id),
        info.id != id ==> proxies_without(seq![info], id) == seq![info],
        info.id == id ==> proxies_without(seq![info], id).len() == 0,
{
    let keep = |info: ProxyInfo| info.id != id;
    Seq::filter_distributes_over_add(a, b, keep);
    reveal_with_fuel(Seq::filter, 2);
    assert(seq![info].drop_last() =~= Seq::<ProxyInfo>::empty());
    assert(Seq::<ProxyInfo>::empty().filter(keep) =~= Seq::empty());
    if info.id != id {
        assert(proxies_without(seq![info], id) =~= seq![info]);
    }
}

/// The same holds of the lines of the logs, whether they are removed or shown.
pub proof fn law_lines_stay_in_order(a: Seq<LogInfo>, b: Seq<LogInfo>, info: LogInfo, id: u64)
    ensures
        logs_without(a + b, id) == logs_without(a, id) + logs_without(b, id),
        info.id != id ==> logs_without(seq![info], id) == seq![info],
        info.id == id ==> logs_without(seq![info], id).len() == 0,
        logs_of(a + b, id) == logs_of(a, id) + logs_of(b, id),
        info.id == id ==> logs_of(seq![info], id) == seq![info.log],
        info.id != id ==> logs_of(seq![info], id).len() == 0,
{
    let keep = |info: LogInfo| info.id != id;
    let wanted = |info: LogInfo| info.id == id;
    let line = |info: LogInfo| info.log;
    Seq::filter_distributes_over_add(a, b, keep);
    Seq::filter_distributes_over_add(a, b, wanted);
    assert(logs_of(a + b, id) =~= logs_of(a, id) + logs_of(b, id));
    reveal_with_fuel(Seq::filter, 2);
    assert(seq![info].drop_last() =~= Seq::<LogInfo>::empty());
    assert(Seq::<LogInfo>::empty().filter(keep) =~= Seq::empty());
    assert(Seq::<LogInfo>::empty().filter(wanted) =~= Seq::empty());
    if info.id != id {
        assert(logs_without(seq![info], id) =~= seq![info]);
    } else {
        assert(logs_of(seq![info], id) =~= seq![info.log]);
    }
}

/// A removal changes the proxies and the logs and nothing else.
pub proof fn law_removal_keeps_the_selection(app: AppView, id: u64)
    ensures
        after_message(app, Msg::Remove(id)).selected == app.selected,
        after_message(app, Msg::Remove(id)).selected_proxy == app.selected_proxy,
        after_message(app, Msg::Remove(id)).exit == app.exit,
        after_message(app, Msg::Remove(id)).proxies == proxies_without(app.proxies, id),
        after_message(app, Msg::Remove(id)).logs == logs_without(app.logs, id),
{
}

/// A new line changes the logs and nothing else.
pub proof fn law_line_keeps_the_proxies(app: AppView, info: LogInfo)
    ensures
        after_message(app, Msg::Log(info)).proxies == app.proxies,
        after_message(app, Msg::Log(info)).selected == app.selected,
        after_message(app, Msg::Log(info)).selected_proxy == app.selected_proxy,
        after_message(app, Msg::Log(info)).exit == app.exit,
{
}

/// The table has a row for each proxy, in the order of the proxies: the name with the identifier,
/// the image, and the port on which the proxy listens before the host and the port of the
/// container.
pub proof fn law_table_shows_each_proxy(table: ProxyTable, proxies: Seq<ProxyInfo>, i: int)
    requires
        lays_out(table, proxies),
        0 <= i < proxies.len(),
    ensures
        table.rows.len() == proxies.len(),
        table.header.len() == 3,
        table.header[0]@ == "Container Name"@,
        table.header[1]@ == "Docker Image"@,
        table.header[2]@ == "Mapping"@,
        table.rows[i].docker_image@ == proxies[i].docker_image@,
        exists|number: Seq<char>|
            table.rows[i].container_name@ == #[trigger] (CONTAINER_NAME_PREFIX@ + number)
                && number_of(number) == proxies[i].id,
        exists|from: Seq<char>, to: Seq<char>|
            table.rows[i].mapping@ == #[trigger] (from + " -> "@ + proxies[i].docker_host@ + ":"@
                + to) && number_of(from) == proxies[i].host_port && number_of(to)
                == proxies[i].docker_port,
{
    let info = proxies[i];
    assert(shows(table.rows[i], info));
    law_decimal_reads_back(info.id as nat);
    law_decimal_reads_back(info.host_port as nat);
    law_decimal_reads_back(info.docker_port as nat);
    assert(table.rows[i].container_name@ == CONTAINER_NAME_PREFIX@ + decimal(info.id as nat));
    assert(table.rows[i].mapping@ == decimal(info.host_port as nat) + " -> "@ + info.docker_host@
        + ":"@ + decimal(info.docker_port as nat));
}

/// At first there is nothing to show, nothing is selected and the user has not quit.
pub proof fn law_interface_begins_empty(table: ProxyTable, id: u64)
    requires
        lays_out(table, empty_app().proxies),
    ensures
        table.rows.len() == 0,
        logs_of(empty_app().logs, id).len() == 0,
        empty_app().selected is None,
        !empty_app().exit,
{
    reveal(Seq::filter);
}

} // verus!
