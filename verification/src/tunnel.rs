//! The desktop client: what it shows, what it does at a click, and what it makes
//! of the news from the engine.

use crate::engine::{Told, WorkerEvent};
use crate::node::Node;
use crate::sysproxy::ProxyBackup;
use crate::text::{blank, chars_of, is_blank, is_white, law_trimming_empties_blanks, texts, trim};
use crate::traffic::{capped_sum, Traffic, TrafficStore};
use std::collections::VecDeque;
use vstd::prelude::*;

verus! {

/// How many lines of the log are shown.
pub const SHOWN_LINES: usize = 4;

/// How the connection stands.
#[derive(Clone, Copy, PartialEq, Eq, Structural)]
pub enum ConnectionState {
    Disconnected,
    Connecting,
    Connected,
    Disconnecting,
    Failed,
}

/// The moment of an event: the keys of its periods.
pub struct Clock {
    pub hour: String,
    pub month: String,
}

/// A moment as a mathematical value.
pub ghost struct Moment {
    pub hour: Seq<char>,
    pub month: Seq<char>,
}

impl View for Clock {
    type V = Moment;

    open spec fn view(&self) -> Moment {
        Moment { hour: self.hour@, month: self.month@ }
    }
}

/// What is to be done outside after an event: first the proxy setting is
/// written back, if there is one, and then the traffic is saved.
#[derive(Clone, Copy)]
pub struct Effects {
    pub restore_proxy: Option<u32>,
    pub save: bool,
}

/// The desktop client.
pub struct TunnelApp {
    pub state: ConnectionState,
    pub logs: VecDeque<String>,
    pub error: Option<String>,
    pub worker: bool,
    pub traffic: TrafficStore,
    pub last_totals: Option<(u64, u64)>,
    pub proxy_backup: Option<ProxyBackup>,
}

/// The client as a mathematical value.
pub ghost struct Client {
    pub state: ConnectionState,
    pub logs: Seq<Seq<char>>,
    pub error: Option<Seq<char>>,
    pub worker: bool,
    pub traffic: Traffic,
    pub last_totals: Option<(u64, u64)>,
    pub backup: Option<u32>,
}

impl View for TunnelApp {
    type V = Client;

    open spec fn view(&self) -> Client {
        Client {
            state: self.state,
            logs: texts(self.logs@),
            error: match self.error {
                Some(message) => Some(message@),
                None => None,
            },
            worker: self.worker,
            traffic: self.traffic@,
            last_totals: self.last_totals,
            backup: match self.proxy_backup {
                Some(backup) => Some(backup.enabled),
                None => None,
            },
        }
    }
}

/// The last elements of `s`, at most `n` of them.
pub open spec fn last_of<T>(s: Seq<T>, n: nat) -> Seq<T> {
    if s.len() <= n {
        s
    } else {
        s.skip(s.len() - n)
    }
}

/// How far `a` is above `b`, or zero where it is not.
pub open spec fn above(a: u64, b: u64) -> nat {
    if a >= b {
        (a - b) as nat
    } else {
        0
    }
}

/// What passed between two reports of the totals, in both directions.
pub open spec fn passed(old: (u64, u64), new: (u64, u64)) -> nat {
    capped_sum(above(new.0, old.0), above(new.1, old.1))
}

impl Client {
    /// The client when it is started.
    pub open spec fn started(traffic: Traffic) -> Client {
        Client {
            state: ConnectionState::Disconnected,
            logs: seq!["等待连接…"@],
            error: None,
            worker: false,
            traffic,
            last_totals: None,
            backup: None,
        }
    }

    /// A line that is not blank goes to the end of the log, which keeps its last
    /// lines.
    pub open spec fn logged(self, line: Seq<char>) -> Client {
        if is_blank(line) {
            self
        } else {
            Client { logs: last_of(self.logs.push(line), SHOWN_LINES as nat), ..self }
        }
    }

    /// A failure is shown and logged.
    pub open spec fn failed(self, message: Seq<char>) -> Client {
        Client { state: ConnectionState::Failed, error: Some(message), ..self }.logged(message)
    }

    /// An attempt to connect takes away the error of the last one.
    pub open spec fn attempted(self) -> Client {
        Client { error: None, ..self }
    }

    /// The proxy of the system is off: the engine is started.
    pub open spec fn launched(self, enabled: u32) -> Client {
        Client {
            state: ConnectionState::Connecting,
            logs: seq![],
            worker: true,
            last_totals: None,
            backup: Some(enabled),
            ..self
        }.logged("正在建立 XHTTP 隧道…"@)
    }

    /// A running engine is told to stop.
    pub open spec fn stopping(self) -> Client {
        if self.worker {
            Client { state: ConnectionState::Disconnecting, ..self }.logged("正在恢复网络…"@)
        } else {
            self
        }
    }

    /// New totals: what passed since the last ones is counted, and the first
    /// ones only say where to count from.
    pub open spec fn reported(self, totals: (u64, u64), at: Moment) -> Client {
        match self.last_totals {
            None => Client { last_totals: Some(totals), ..self },
            Some(old) => Client {
                traffic: self.traffic.added(passed(old, totals), at.hour, at.month),
                last_totals: Some(totals),
                ..self
            },
        }
    }

    /// The traffic is saved whenever some of it passed.
    pub open spec fn saves(self, totals: (u64, u64)) -> bool {
        match self.last_totals {
            None => false,
            Some(old) => passed(old, totals) > 0,
        }
    }

    /// The proxy setting is given back.
    pub open spec fn unproxied(self) -> Client {
        Client { backup: None, ..self }
    }

    /// The client after an event.
    pub open spec fn after(self, event: Told, at: Moment, connection: Seq<char>) -> Client {
        match event {
            Told::Log(line) => self.logged(line),
            Told::Connected => Client {
                state: ConnectionState::Connected,
                error: None,
                ..self
            }.logged("隧道创建成功"@).logged(connection).logged(
                "流量已加密并通过 Cloudflare CDN 转发"@,
            ),
            Told::Traffic(upload, download) => self.reported((upload, download), at),
            Told::Exited(true) => Client {
                state: ConnectionState::Disconnected,
                worker: false,
                ..self.unproxied()
            }.logged("隧道已断开"@),
            Told::Exited(false) => Client { worker: false, ..self.unproxied() }.failed(
                "代理核心意外退出"@,
            ),
            Told::Failed(message) => self.unproxied().failed(message),
        }
    }

    /// What an event asks for outside.
    pub open spec fn effects(self, event: Told) -> Effects {
        match event {
            Told::Log(_) | Told::Connected => Effects { restore_proxy: None, save: false },
            Told::Traffic(upload, download) => Effects {
                restore_proxy: None,
                save: self.saves((upload, download)),
            },
            Told::Exited(_) | Told::Failed(_) => Effects {
                restore_proxy: self.backup,
                save: true,
            },
        }
    }

    /// The client when it is closed.
    pub open spec fn closed(self) -> Client {
        Client { worker: false, ..self.unproxied() }
    }
}

impl TunnelApp {
    /// The client when it is started.
    pub fn new(traffic: TrafficStore) -> (app: Self)
        ensures
            app@ == Client::started(traffic@),
    {
        let mut logs: VecDeque<String> = VecDeque::new();
        logs.push_back("等待连接…".to_owned());
        assert(texts(logs@) =~= seq!["等待连接…"@]);
        TunnelApp {
            state: ConnectionState::Disconnected,
            logs,
            error: None,
            worker: false,
            traffic,
            last_totals: None,
            proxy_backup: None,
        }
    }

    /// Adds a line to the log.
    pub fn push_log(&mut self, line: String)
        ensures
            final(self)@ == old(self)@.logged(line@),
    {
        let chars = chars_of(line.as_str());
        if !blank(chars.as_slice()) {
            let ghost want = texts(self.logs@).push(line@);
            self.logs.push_back(line);
            assert(texts(self.logs@) =~= want);
            while self.logs.len() > SHOWN_LINES
                invariant
                    self.logs@.len() <= want.len(),
                    texts(self.logs@) == want.skip(want.len() - self.logs@.len()),
                    self.logs@.len() >= SHOWN_LINES || self.logs@.len() == want.len(),
                    self.state == old(self).state,
                    self.error == old(self).error,
                    self.worker == old(self).worker,
                    self.traffic == old(self).traffic,
                    self.last_totals == old(self).last_totals,
                    self.proxy_backup == old(self).proxy_backup,
                decreases self.logs@.len(),
            {
                let ghost before = self.logs@;
                self.logs.pop_front();
                assert(texts(self.logs@) =~= texts(before).skip(1));
                assert(texts(self.logs@) =~= want.skip(want.len() - self.logs@.len()));
            }
            assert(texts(self.logs@) =~= last_of(want, SHOWN_LINES as nat));
        }
    }

    /// Shows and logs a failure.
    pub fn fail(&mut self, message: String)
        ensures
            final(self)@ == old(self)@.failed(message@),
    {
        self.state = ConnectionState::Failed;
        self.error = Some(message.clone());
        self.push_log(message);
    }

    /// Begins an attempt to connect: the engine and its configuration are to be
    /// written next.
    pub fn connect(&mut self)
        ensures
            final(self)@ == old(self)@.attempted(),
    {
        self.error = None;
    }

    /// Goes on once the engine and its configuration are written, or not. The
    /// proxy of the system is to be turned off next if this says so.
    pub fn prepared(&mut self, result: Result<(), String>) -> (go_on: bool)
        ensures
            go_on == (result is Ok),
            final(self)@ == match result {
                Ok(()) => old(self)@,
                Err(message) => old(self)@.failed(message@),
            },
    {
        match result {
            Ok(()) => true,
            Err(message) => {
                self.fail(message);
                false
            },
        }
    }

    /// Goes on once the proxy of the system is turned off, or not. The engine is
    /// to be started if this says so.
    pub fn proxy_disabled(&mut self, result: Result<ProxyBackup, String>) -> (start: bool)
        ensures
            start == (result is Ok),
            final(self)@ == match result {
                Ok(backup) => old(self)@.launched(backup.enabled),
                Err(message) => old(self)@.failed(message@),
            },
    {
        match result {
            Ok(backup) => {
                self.proxy_backup = Some(backup);
                self.worker = true;
                self.state = ConnectionState::Connecting;
                self.last_totals = None;
                self.logs.clear();
                assert(texts(self.logs@) =~= Seq::<Seq<char>>::empty());
                self.push_log("正在建立 XHTTP 隧道…".to_owned());
                true
            },
            Err(message) => {
                self.fail(message);
                false
            },
        }
    }

    /// Ends the connection: whether the engine is to be told to stop.
    pub fn disconnect(&mut self) -> (stop: bool)
        ensures
            stop == old(self)@.worker,
            final(self)@ == old(self)@.stopping(),
    {
        if self.worker {
            self.state = ConnectionState::Disconnecting;
            self.push_log("正在恢复网络…".to_owned());
            true
        } else {
            false
        }
    }

    /// Takes new totals: whether the traffic is to be saved.
    pub fn record_traffic(&mut self, upload: u64, download: u64, clock: &Clock) -> (save: bool)
        ensures
            save == old(self)@.saves((upload, download)),
            final(self)@ == old(self)@.reported((upload, download), clock@),
    {
        let mut save = false;
        if let Some((old_up, old_down)) = self.last_totals {
            let delta = upload.saturating_sub(old_up).saturating_add(
                download.saturating_sub(old_down),
            );
            self.traffic.add(delta, clock.hour.clone(), clock.month.clone());
            save = delta > 0;
        }
        self.last_totals = Some((upload, download));
        save
    }

    /// Gives up the proxy setting that was kept.
    pub fn restore_proxy(&mut self) -> (effects: Effects)
        ensures
            effects == (Effects { restore_proxy: old(self)@.backup, save: true }),
            final(self)@ == old(self)@.unproxied(),
    {
        let restore_proxy = match &self.proxy_backup {
            Some(backup) => Some(backup.enabled),
            None => None,
        };
        self.proxy_backup = None;
        Effects { restore_proxy, save: true }
    }

    /// Takes an event of the engine.
    pub fn poll_worker(&mut self, event: WorkerEvent, clock: &Clock, node: &Node) -> (effects:
        Effects)
        ensures
            effects == old(self)@.effects(event@),
            final(self)@ == old(self)@.after(event@, clock@, node.connection_text()),
    {
        match event {
            WorkerEvent::Log(line) => {
                self.push_log(line);
                Effects { restore_proxy: None, save: false }
            },
            WorkerEvent::Connected => {
                self.state = ConnectionState::Connected;
                self.error = None;
                self.push_log("隧道创建成功".to_owned());
                self.push_log(node.connection_line());
                self.push_log("流量已加密并通过 Cloudflare CDN 转发".to_owned());
                Effects { restore_proxy: None, save: false }
            },
            WorkerEvent::Traffic { upload, download } => {
                let save = self.record_traffic(upload, download, clock);
                Effects { restore_proxy: None, save }
            },
            WorkerEvent::Exited { expected } => {
                self.worker = false;
                let effects = self.restore_proxy();
                if expected {
                    self.state = ConnectionState::Disconnected;
                    self.push_log("隧道已断开".to_owned());
                } else {
                    self.fail("代理核心意外退出".to_owned());
                }
                effects
            },
            WorkerEvent::Failed(message) => {
                let effects = self.restore_proxy();
                self.fail(message);
                effects
            },
        }
    }

    /// Closes the client: whether the engine is to be told to stop, and waited
    /// for, before the rest.
    pub fn stop_and_wait(&mut self) -> (result: (bool, Effects))
        ensures
            result.0 == old(self)@.worker,
            result.1 == (Effects { restore_proxy: old(self)@.backup, save: true }),
            final(self)@ == old(self)@.closed(),
    {
        let stop = self.worker;
        self.worker = false;
        let effects = self.restore_proxy();
        (stop, effects)
    }
}

// ---------------------------------------------------------------------------
// What is shown
// ---------------------------------------------------------------------------

/// A colour: red, green and blue.
#[derive(Clone, Copy, Debug, PartialEq, Eq, Structural)]
pub struct Rgb(pub u8, pub u8, pub u8);

/// The words and the colour of a state.
pub open spec fn state_look(state: ConnectionState) -> (Seq<char>, Rgb) {
    match state {
        ConnectionState::Disconnected => ("● 未连接"@, Rgb(102, 97, 90)),
        ConnectionState::Connecting => ("● 连接中"@, Rgb(130, 105, 65)),
        ConnectionState::Connected => ("● 已连接"@, Rgb(80, 122, 84)),
        ConnectionState::Disconnecting => ("● 正在断开"@, Rgb(130, 105, 65)),
        ConnectionState::Failed => ("× 连接失败"@, Rgb(145, 65, 55)),
    }
}

/// The words and the colour of a state.
pub fn status(state: ConnectionState) -> (look: (&'static str, Rgb))
    ensures
        (look.0@, look.1) == state_look(state),
{
    match state {
        ConnectionState::Disconnected => ("● 未连接", Rgb(102, 97, 90)),
        ConnectionState::Connecting => ("● 连接中", Rgb(130, 105, 65)),
        ConnectionState::Connected => ("● 已连接", Rgb(80, 122, 84)),
        ConnectionState::Disconnecting => ("● 正在断开", Rgb(130, 105, 65)),
        ConnectionState::Failed => ("× 连接失败", Rgb(145, 65, 55)),
    }
}

/// What a click of the button does.
#[derive(Clone, Copy, Debug, PartialEq, Eq, Structural)]
pub enum Click {
    Connect,
    Disconnect,
}

/// A connection is being made or ended.
pub open spec fn is_busy(state: ConnectionState) -> bool {
    state == ConnectionState::Connecting || state == ConnectionState::Disconnecting
}

/// What a click of the button does: nothing while the client is busy.
pub open spec fn click_of(state: ConnectionState) -> Option<Click> {
    if is_busy(state) {
        None
    } else if state == ConnectionState::Connected {
        Some(Click::Disconnect)
    } else {
        Some(Click::Connect)
    }
}

/// The words on the button.
pub open spec fn button_words(state: ConnectionState) -> Seq<char> {
    match state {
        ConnectionState::Connected => "断开连接"@,
        ConnectionState::Failed => "重试"@,
        ConnectionState::Connecting => "正在连接…"@,
        ConnectionState::Disconnecting => "正在断开…"@,
        ConnectionState::Disconnected => "连接"@,
    }
}

/// What a click of the button does. The button is enabled where it does
/// something.
pub fn click(state: ConnectionState) -> (action: Option<Click>)
    ensures
        action == click_of(state),
{
    match state {
        ConnectionState::Connecting | ConnectionState::Disconnecting => None,
        ConnectionState::Connected => Some(Click::Disconnect),
        ConnectionState::Failed | ConnectionState::Disconnected => Some(Click::Connect),
    }
}

/// The words on the button.
pub fn button_label(state: ConnectionState) -> (label: &'static str)
    ensures
        label@ == button_words(state),
{
    match state {
        ConnectionState::Connected => "断开连接",
        ConnectionState::Failed => "重试",
        ConnectionState::Connecting => "正在连接…",
        ConnectionState::Disconnecting => "正在断开…",
        ConnectionState::Disconnected => "连接",
    }
}

/// How far the button and its shadow are moved, in points.
pub fn button_offsets(hovered: bool, pressed: bool) -> (offsets: (u8, u8))
    ensures
        pressed ==> offsets == (3u8, 4u8),
        !pressed && hovered ==> offsets == (0u8, 7u8),
        !pressed && !hovered ==> offsets == (0u8, 5u8),
{
    if pressed {
        (3, 4)
    } else if hovered {
        (0, 7)
    } else {
        (0, 5)
    }
}

/// How the button is drawn.
#[derive(Clone, Copy, Debug)]
pub struct ButtonLook {
    /// How far the button and its shadow are moved, in points.
    pub offsets: (u8, u8),
    /// The lines around the button and its shadow.
    pub ink: Rgb,
    /// The hatching of the shadow.
    pub hatch: Rgb,
    /// The distance of the hatching lines, in points.
    pub hatch_step: u8,
    /// The face of the button.
    pub fill: Rgb,
    /// The words on the button.
    pub label: Rgb,
}

/// How the button is drawn. The pointer counts only for an enabled button.
pub fn button_look(enabled: bool, pointer_over: bool, pointer_down: bool) -> (look: ButtonLook)
    ensures
        ({
            let hovered = enabled && pointer_over;
            let pressed = enabled && pointer_down;
            let ink = if enabled {
                Rgb(55, 52, 47)
            } else {
                Rgb(166, 160, 150)
            };
            &&& look.offsets == if pressed {
                (3u8, 4u8)
            } else if hovered {
                (0u8, 7u8)
            } else {
                (0u8, 5u8)
            }
            &&& look.ink == ink
            &&& look.hatch == if hovered {
                Rgb(71, 67, 61)
            } else {
                Rgb(111, 105, 96)
            }
            &&& look.hatch_step == if hovered {
                7u8
            } else {
                9u8
            }
            &&& look.fill == if pressed {
                Rgb(41, 40, 36)
            } else if hovered {
                Rgb(238, 233, 222)
            } else {
                Rgb(247, 243, 233)
            }
            &&& look.label == if pressed {
                Rgb(247, 243, 233)
            } else {
                ink
            }
        }),
{
    let hovered = enabled && pointer_over;
    let pressed = enabled && pointer_down;
    let ink = if enabled {
        Rgb(55, 52, 47)
    } else {
        Rgb(166, 160, 150)
    };
    ButtonLook {
        offsets: button_offsets(hovered, pressed),
        ink,
        hatch: if hovered {
            Rgb(71, 67, 61)
        } else {
            Rgb(111, 105, 96)
        },
        hatch_step: if hovered {
            7
        } else {
            9
        },
        fill: if pressed {
            Rgb(41, 40, 36)
        } else if hovered {
            Rgb(238, 233, 222)
        } else {
            Rgb(247, 243, 233)
        },
        label: if pressed {
            Rgb(247, 243, 233)
        } else {
            ink
        },
    }
}

// ---------------------------------------------------------------------------
// Laws
// ---------------------------------------------------------------------------

/// The log never shows more than its last lines, whatever happens.
pub proof fn law_log_stays_short(
    client: Client,
    event: Told,
    at: Moment,
    connection: Seq<char>,
    message: Seq<char>,
    enabled: u32,
)
    requires
        client.logs.len() <= SHOWN_LINES,
    ensures
        client.after(event, at, connection).logs.len() <= SHOWN_LINES,
        client.attempted().failed(message).logs.len() <= SHOWN_LINES,
        client.attempted().launched(enabled).logs.len() <= SHOWN_LINES,
        client.stopping().logs.len() <= SHOWN_LINES,
        client.closed().logs.len() <= SHOWN_LINES,
{
}

/// A line that is not blank is the last one of the log, and a blank one changes
/// nothing.
pub proof fn law_last_line_is_shown(client: Client, line: Seq<char>)
    ensures
        is_blank(line) ==> client.logged(line) == client,
        !is_blank(line) ==> client.logged(line).logs.len() > 0 && client.logged(line).logs.last()
            == line,
{
}

/// A client that can be asked to connect keeps no proxy setting.
pub open spec fn settled(client: Client) -> bool {
    click_of(client.state) == Some(Click::Connect) ==> client.backup is None
}

/// A client that can be asked to connect never keeps a proxy setting, so that
/// connecting overwrites none: it holds at the start and after every step.
pub proof fn law_connecting_overwrites_no_setting(
    client: Client,
    traffic: Traffic,
    event: Told,
    at: Moment,
    connection: Seq<char>,
    message: Seq<char>,
    enabled: u32,
)
    requires
        settled(client),
    ensures
        settled(Client::started(traffic)),
        click_of(client.state) == Some(Click::Connect) ==> {
            &&& client.attempted().backup is None
            &&& settled(client.attempted().failed(message))
            &&& settled(client.attempted().launched(enabled))
        },
        settled(client.after(event, at, connection)),
        settled(client.stopping()),
        settled(client.closed()),
{
}

/// Something that happens to a connected client.
pub ghost enum Happening {
    Event(Told, Moment),
    Disconnect,
}

/// The happening is not the end of the engine.
pub open spec fn goes_on(happening: Happening) -> bool {
    match happening {
        Happening::Event(event, _) => !(event is Exited) && !(event is Failed),
        Happening::Disconnect => true,
    }
}

/// The client after some happenings.
pub open spec fn lived(
    client: Client,
    happenings: Seq<Happening>,
    connection: Seq<char>,
) -> Client
    decreases happenings.len(),
{
    if happenings.len() == 0 {
        client
    } else {
        let before = lived(client, happenings.drop_last(), connection);
        match happenings.last() {
            Happening::Event(event, at) => before.after(event, at, connection),
            Happening::Disconnect => before.stopping(),
        }
    }
}

/// The proxy setting from before the connection comes back, and it comes back
/// once: whatever happened in between, the end of the engine, its failure and
/// the end of the client all write back what was read when connecting, and
/// afterwards there is nothing left to write back.
pub proof fn law_proxy_setting_comes_back(
    client: Client,
    enabled: u32,
    happenings: Seq<Happening>,
    connection: Seq<char>,
    at: Moment,
    expected: bool,
    message: Seq<char>,
)
    requires
        forall|i: int| 0 <= i < happenings.len() ==> goes_on(#[trigger] happenings[i]),
    ensures
        ({
            let running = lived(client.launched(enabled), happenings, connection);
            &&& running.worker
            &&& running.effects(Told::Exited(expected)).restore_proxy == Some(enabled)
            &&& running.effects(Told::Failed(message)).restore_proxy == Some(enabled)
            &&& running.backup == Some(enabled)
            &&& running.after(Told::Exited(expected), at, connection).backup is None
            &&& running.after(Told::Failed(message), at, connection).backup is None
            &&& running.closed().backup is None
        }),
    decreases happenings.len(),
{
    if happenings.len() > 0 {
        let front = happenings.drop_last();
        assert forall|i: int| 0 <= i < front.len() implies goes_on(#[trigger] front[i]) by {
            assert(front[i] == happenings[i]);
        }
        law_proxy_setting_comes_back(client, enabled, front, connection, at, expected, message);
        assert(goes_on(happenings[happenings.len() - 1]));
    }
}

/// Counting is the same whether the totals are reported often or seldom: two
/// reports of rising totals count what the later one alone would have counted.
pub proof fn law_reports_add_up(
    client: Client,
    old: (u64, u64),
    first: (u64, u64),
    second: (u64, u64),
    earlier: Moment,
    at: Moment,
)
    requires
        client.last_totals == Some(old),
        old.0 <= first.0 <= second.0,
        old.1 <= first.1 <= second.1,
        earlier.hour == at.hour,
        earlier.month == at.month,
    ensures
        client.reported(first, earlier).reported(second, at).traffic == client.reported(
            second,
            at,
        ).traffic,
        client.reported(first, earlier).reported(second, at).last_totals == Some(second),
{
}

/// The counts that the file holds after a report of totals, where `disk` is what
/// it held before.
pub open spec fn on_disk(client: Client, disk: Traffic, totals: (u64, u64), at: Moment) -> Traffic {
    if client.saves(totals) {
        client.reported(totals, at).traffic
    } else {
        disk
    }
}

/// The file follows the reports: where it held the current counts before a
/// report, it holds them after it. So an end without warning loses at most what
/// passed after the last report.
pub proof fn law_file_follows_reports(
    client: Client,
    disk: Traffic,
    totals: (u64, u64),
    at: Moment,
)
    requires
        disk.rolled(at.hour, at.month) == client.traffic.rolled(at.hour, at.month),
        client.traffic.hour_bytes <= u64::MAX,
        client.traffic.month_bytes <= u64::MAX,
    ensures
        on_disk(client, disk, totals, at).rolled(at.hour, at.month) == client.reported(
            totals,
            at,
        ).traffic.rolled(at.hour, at.month),
{
}

/// The first totals after connecting count nothing, and totals that did not
/// rise count nothing either.
pub proof fn law_only_rising_totals_count(client: Client, totals: (u64, u64), at: Moment)
    requires
        client.last_totals matches Some(old) ==> totals.0 <= old.0 && totals.1 <= old.1,
        client.traffic.hour_key == at.hour,
        client.traffic.month_key == at.month,
        client.traffic.hour_bytes <= u64::MAX,
        client.traffic.month_bytes <= u64::MAX,
    ensures
        client.reported(totals, at).traffic == client.traffic,
        !client.saves(totals),
{
}

/// [`TunnelApp::record_traffic`] counts exactly what passed since the last totals, in
/// both directions and however much it is, for the hour and for the month, and has
/// it saved exactly where something passed. A total that fell counts nothing.
pub proof fn law_all_that_passed_is_counted(
    app: &mut TunnelApp,
    upload: u64,
    download: u64,
    clock: Clock,
    save: bool,
    old_upload: u64,
    old_download: u64,
)
    requires
        call_ensures(TunnelApp::record_traffic, (app, upload, download, &clock), save),
        old(app).last_totals == Some((old_upload, old_download)),
    ensures
        ({
            let up = if upload >= old_upload {
                upload - old_upload
            } else {
                0
            };
            let down = if download >= old_download {
                download - old_download
            } else {
                0
            };
            let hour = (if old(app).traffic.hour_key@ == clock.hour@ {
                old(app).traffic.hour_bytes as int
            } else {
                0
            }) + up + down;
            let month = (if old(app).traffic.month_key@ == clock.month@ {
                old(app).traffic.month_bytes as int
            } else {
                0
            }) + up + down;
            &&& hour <= 0xffff_ffff_ffff_ffff ==> final(app).traffic.hour_bytes == hour
            &&& hour > 0xffff_ffff_ffff_ffff ==> final(app).traffic.hour_bytes
                == 0xffff_ffff_ffff_ffffu64
            &&& month <= 0xffff_ffff_ffff_ffff ==> final(app).traffic.month_bytes == month
            &&& month > 0xffff_ffff_ffff_ffff ==> final(app).traffic.month_bytes
                == 0xffff_ffff_ffff_ffffu64
            &&& final(app).traffic.hour_key@ == clock.hour@
            &&& final(app).traffic.month_key@ == clock.month@
            &&& save <==> up + down > 0
            &&& final(app).last_totals == Some((upload, download))
            &&& same_but_traffic(*old(app), *final(app))
        }),
{
    let before = old(app)@;
    let after = final(app)@;
    let bytes = passed((old_upload, old_download), (upload, download));
    assert(after == before.reported((upload, download), clock@));
    assert(after.traffic == before.traffic.added(bytes, clock.hour@, clock.month@));
    assert(after.traffic.hour_bytes == final(app).traffic.hour_bytes as nat);
    assert(after.traffic.month_bytes == final(app).traffic.month_bytes as nat);
}

/// Two clients differ in their traffic and their totals alone.
pub open spec fn same_but_traffic(a: TunnelApp, b: TunnelApp) -> bool {
    &&& a.state == b.state
    &&& texts(a.logs@) == texts(b.logs@)
    &&& a@.error == b@.error
    &&& a.worker == b.worker
    &&& a@.backup == b@.backup
}

/// The first totals that [`TunnelApp::record_traffic`] gets are only kept.
pub proof fn law_first_totals_are_only_kept(
    app: &mut TunnelApp,
    upload: u64,
    download: u64,
    clock: Clock,
    save: bool,
)
    requires
        call_ensures(TunnelApp::record_traffic, (app, upload, download, &clock), save),
        old(app).last_totals is None,
    ensures
        final(app).traffic@ == old(app).traffic@,
        final(app).last_totals == Some((upload, download)),
        !save,
        same_but_traffic(*old(app), *final(app)),
{
    assert(final(app)@ == old(app)@.reported((upload, download), clock@));
}

/// [`TunnelApp::push_log`] puts a line that is not blank behind the others, of which
/// the last three stay where there are more, and changes nothing else.
pub proof fn law_the_log_keeps_its_last_lines(app: &mut TunnelApp, line: String)
    requires
        call_ensures(TunnelApp::push_log, (app, line), ()),
    ensures
        trim(line@).len() == 0 ==> final(app)@ == old(app)@,
        trim(line@).len() > 0 ==> {
            let before = texts(old(app).logs@);
            &&& final(app)@ == (Client { logs: final(app)@.logs, ..old(app)@ })
            &&& texts(final(app).logs@) == if before.len() < 4 {
                before.push(line@)
            } else {
                before.skip(before.len() - 3).push(line@)
            }
        },
{
    law_trimming_empties_blanks(line@);
    let before = texts(old(app).logs@);
    if before.len() >= 4 {
        assert(before.push(line@).skip(before.len() + 1 - 4) =~= before.skip(
            before.len() - 3,
        ).push(line@));
    }
}

/// [`TunnelApp::fail`] shows the message, logs it, and leaves the engine, the traffic
/// and the proxy setting as they are.
pub proof fn law_failures_are_shown(app: &mut TunnelApp, message: String)
    requires
        call_ensures(TunnelApp::fail, (app, message), ()),
    ensures
        final(app).state == ConnectionState::Failed,
        final(app)@.error == Some(message@),
        final(app)@.worker == old(app)@.worker,
        final(app)@.traffic == old(app)@.traffic,
        final(app)@.last_totals == old(app)@.last_totals,
        final(app)@.backup == old(app)@.backup,
        trim(message@).len() > 0 ==> final(app)@.logs.len() > 0 && final(app)@.logs.last()
            == message@,
{
    law_trimming_empties_blanks(message@);
}

/// The steps of connecting: the error of the last attempt goes, a step that fails is
/// shown and ends the attempt, and once the proxy is off the engine is started, with
/// the setting kept and the totals forgotten. The traffic stays in every step.
pub proof fn law_connecting_step_by_step(
    first: &mut TunnelApp,
    second: &mut TunnelApp,
    prepared: Result<(), String>,
    go_on: bool,
    third: &mut TunnelApp,
    disabled: Result<ProxyBackup, String>,
    start: bool,
)
    requires
        call_ensures(TunnelApp::connect, (first,), ()),
        call_ensures(TunnelApp::prepared, (second, prepared), go_on),
        call_ensures(TunnelApp::proxy_disabled, (third, disabled), start),
    ensures
        final(first)@ == (Client { error: None, ..old(first)@ }),
        go_on <==> prepared is Ok,
        prepared is Ok ==> final(second)@ == old(second)@,
        prepared matches Err(e) ==> final(second)@.error == Some(e@) && final(second)@.state
            == ConnectionState::Failed,
        start <==> disabled is Ok,
        disabled matches Ok(backup) ==> {
            &&& final(third)@.backup == Some(backup.enabled)
            &&& final(third)@.worker
            &&& final(third)@.state == ConnectionState::Connecting
            &&& final(third)@.last_totals is None
            &&& final(third)@.error == old(third)@.error
        },
        disabled matches Err(e) ==> final(third)@.error == Some(e@) && final(third)@.state
            == ConnectionState::Failed && final(third)@.backup == old(third)@.backup
            && final(third)@.worker == old(third)@.worker,
        final(second)@.traffic == old(second)@.traffic,
        final(third)@.traffic == old(third)@.traffic,
{
}

/// [`TunnelApp::disconnect`] and [`TunnelApp::stop_and_wait`] stop the engine exactly
/// where one runs. Disconnecting keeps the proxy setting until the engine has ended;
/// closing gives it back at once and has the traffic saved.
pub proof fn law_ending_step_by_step(
    app: &mut TunnelApp,
    stop: bool,
    closing: &mut TunnelApp,
    out: (bool, Effects),
)
    requires
        call_ensures(TunnelApp::disconnect, (app,), stop),
        call_ensures(TunnelApp::stop_and_wait, (closing,), out),
    ensures
        stop == old(app).worker,
        !stop ==> final(app)@ == old(app)@,
        stop ==> final(app)@.state == ConnectionState::Disconnecting && final(app)@.worker
            && final(app)@.backup == old(app)@.backup,
        final(app)@.traffic == old(app)@.traffic,
        out.0 == old(closing).worker,
        out.1.restore_proxy == old(closing)@.backup,
        out.1.save,
        !final(closing).worker,
        final(closing)@.backup is None,
        final(closing)@.traffic == old(closing)@.traffic,
{
}

/// [`TunnelApp::poll_worker`], event by event: a line is logged; an engine that answers
/// makes the connection stand; its end and its failure give the proxy setting back
/// and have the traffic saved, and show whether that was meant. None of them touches
/// the traffic.
pub proof fn law_news_change_the_state(
    app: &mut TunnelApp,
    event: WorkerEvent,
    clock: Clock,
    node: Node,
    effects: Effects,
)
    requires
        call_ensures(TunnelApp::poll_worker, (app, event, &clock, &node), effects),
    ensures
        event matches WorkerEvent::Log(line) ==> final(app)@.state == old(app)@.state && final(app)@.error == old(app)@.error && final(app)@.worker == old(app)@.worker && final(app)@.backup
            == old(app)@.backup && !effects.save && effects.restore_proxy is None && (trim(
            line@,
        ).len() > 0 ==> final(app)@.logs.last() == line@),
        event is Connected ==> final(app)@.state == ConnectionState::Connected && final(app)@.error
            is None && final(app)@.worker == old(app)@.worker && final(app)@.backup == old(app)@.backup && !effects.save && effects.restore_proxy is None,
        event matches WorkerEvent::Exited { expected } ==> {
            &&& effects.save && effects.restore_proxy == old(app)@.backup
            &&& final(app)@.backup is None && !final(app)@.worker
            &&& expected ==> final(app)@.state == ConnectionState::Disconnected && final(app)@.error == old(app)@.error
            &&& !expected ==> final(app)@.state == ConnectionState::Failed && final(app)@.error
                == Some("代理核心意外退出"@)
        },
        event matches WorkerEvent::Failed(message) ==> {
            &&& effects.save && effects.restore_proxy == old(app)@.backup
            &&& final(app)@.backup is None && final(app)@.worker == old(app)@.worker
            &&& final(app)@.state == ConnectionState::Failed && final(app)@.error == Some(message@)
        },
        !(event is Traffic) ==> final(app)@.traffic == old(app)@.traffic && final(app)@.last_totals
            == old(app)@.last_totals,
{
    if let WorkerEvent::Log(line) = event {
        law_trimming_empties_blanks(line@);
    }
}

/// Totals among the news are recorded as [`TunnelApp::record_traffic`] records them.
pub proof fn law_totals_among_the_news_are_recorded(
    app: &mut TunnelApp,
    other: &mut TunnelApp,
    upload: u64,
    download: u64,
    clock: Clock,
    node: Node,
    effects: Effects,
    save: bool,
)
    requires
        call_ensures(
            TunnelApp::poll_worker,
            (app, WorkerEvent::Traffic { upload, download }, &clock, &node),
            effects,
        ),
        call_ensures(TunnelApp::record_traffic, (other, upload, download, &clock), save),
        old(app)@ == old(other)@,
    ensures
        final(app)@ == final(other)@,
        effects.save == save,
        effects.restore_proxy is None,
{
}

/// A new connection logs that it stands, what it goes through, and how.
pub proof fn law_connections_are_logged(
    app: &mut TunnelApp,
    clock: Clock,
    node: Node,
    effects: Effects,
)
    requires
        call_ensures(TunnelApp::poll_worker, (app, WorkerEvent::Connected, &clock, &node), effects),
    ensures
        ({
            let logs = final(app)@.logs;
            &&& logs.len() >= 3
            &&& logs[logs.len() - 3] == "隧道创建成功"@
            &&& logs[logs.len() - 2] == "连接："@ + node.server@ + ":"@ + node.port@ + " · TLS/"@
                + node.sni@
            &&& logs.last() == "流量已加密并通过 Cloudflare CDN 转发"@
        }),
{
    reveal_strlit("隧道创建成功");
    reveal_strlit("连接：");
    reveal_strlit("流量已加密并通过 Cloudflare CDN 转发");
    let line = node.connection_text();
    assert(!is_white("隧道创建成功"@[0]));
    assert(!is_white("流量已加密并通过 Cloudflare CDN 转发"@[0]));
    assert(line[0] == "连接："@[0]);
    assert(!is_white(line[0]));
    assert(!is_blank("隧道创建成功"@));
    assert(!is_blank("流量已加密并通过 Cloudflare CDN 转发"@));
    assert(!is_blank(line));
}

/// The client starts disconnected, with no engine, no error and nothing kept, and
/// with the traffic that it was given.
pub proof fn law_the_client_starts_disconnected(traffic: TrafficStore, app: TunnelApp)
    requires
        call_ensures(TunnelApp::new, (traffic,), app),
    ensures
        app.state == ConnectionState::Disconnected,
        app@.logs == seq!["等待连接…"@],
        app.error is None,
        !app.worker,
        app.traffic@ == traffic@,
        app.last_totals is None,
        app.proxy_backup is None,
{
}

/// The button: a pressed one moves three points and its shadow four, whether or not
/// the pointer is over it; a disabled one looks the same whatever the pointer does;
/// and an enabled one shows that it is pressed before that the pointer is over it.
pub proof fn law_the_button_shows_the_pointer(
    over: bool,
    down: bool,
    offsets: (u8, u8),
    disabled: ButtonLook,
    enabled: ButtonLook,
)
    requires
        call_ensures(button_offsets, (over, down), offsets),
        call_ensures(button_look, (false, over, down), disabled),
        call_ensures(button_look, (true, over, down), enabled),
    ensures
        down ==> offsets == (3u8, 4u8),
        !down ==> offsets.0 == 0 && offsets.1 == if over {
            7u8
        } else {
            5u8
        },
        disabled.offsets == (0u8, 5u8),
        disabled.ink == Rgb(166, 160, 150),
        disabled.label == disabled.ink,
        disabled.hatch == Rgb(111, 105, 96),
        disabled.hatch_step == 9,
        disabled.fill == Rgb(247, 243, 233),
        enabled.offsets == offsets,
        enabled.ink == Rgb(55, 52, 47),
        down ==> enabled.fill == Rgb(41, 40, 36) && enabled.label == Rgb(247, 243, 233),
        !down ==> enabled.label == enabled.ink,
        !down && over ==> enabled.fill == Rgb(238, 233, 222),
        !down && !over ==> enabled.fill == disabled.fill,
        over ==> enabled.hatch == Rgb(71, 67, 61) && enabled.hatch_step == 7,
        !over ==> enabled.hatch == disabled.hatch && enabled.hatch_step == 9,
{
}

/// What every step writes into the log, behind the lines that stay: connecting clears
/// it first, and the others keep what [`TunnelApp::push_log`] keeps.
pub proof fn law_steps_are_logged(
    launching: &mut TunnelApp,
    backup: ProxyBackup,
    start: bool,
    stopping: &mut TunnelApp,
    stop: bool,
    polled: &mut TunnelApp,
    event: WorkerEvent,
    clock: Clock,
    node: Node,
    effects: Effects,
)
    requires
        call_ensures(
            TunnelApp::proxy_disabled,
            (launching, Ok::<ProxyBackup, String>(backup)),
            start,
        ),
        call_ensures(TunnelApp::disconnect, (stopping,), stop),
        call_ensures(TunnelApp::poll_worker, (polled, event, &clock, &node), effects),
    ensures
        ({
            let kept = |before: Seq<Seq<char>>, line: Seq<char>|
                if before.len() < 4 {
                    before.push(line)
                } else {
                    before.skip(before.len() - 3).push(line)
                };
            let before = old(polled)@.logs;
            &&& final(launching)@.logs == seq!["正在建立 XHTTP 隧道…"@]
            &&& stop ==> final(stopping)@.logs == kept(old(stopping)@.logs, "正在恢复网络…"@)
            &&& event matches WorkerEvent::Exited { expected } ==> final(polled)@.logs == kept(
                before,
                if expected {
                    "隧道已断开"@
                } else {
                    "代理核心意外退出"@
                },
            )
            &&& event matches WorkerEvent::Failed(message) ==> final(polled)@.logs == if trim(
                message@,
            ).len() == 0 {
                before
            } else {
                kept(before, message@)
            }
            &&& event matches WorkerEvent::Log(line) ==> final(polled)@.logs == if trim(
                line@,
            ).len() == 0 {
                before
            } else {
                kept(before, line@)
            }
            &&& event is Traffic ==> final(polled)@.logs == before
        }),
{
    reveal_strlit("正在建立 XHTTP 隧道…");
    reveal_strlit("正在恢复网络…");
    reveal_strlit("隧道已断开");
    reveal_strlit("代理核心意外退出");
    assert(!is_white("正在建立 XHTTP 隧道…"@[0]));
    assert(!is_white("正在恢复网络…"@[0]));
    assert(!is_white("隧道已断开"@[0]));
    assert(!is_white("代理核心意外退出"@[0]));
    assert(!is_blank("正在建立 XHTTP 隧道…"@));
    assert(!is_blank("正在恢复网络…"@));
    assert(!is_blank("隧道已断开"@));
    assert(!is_blank("代理核心意外退出"@));
    assert(final(launching)@.logs =~= seq!["正在建立 XHTTP 隧道…"@]);
    lemma_last_four(old(stopping)@.logs, "正在恢复网络…"@);
    let before = old(polled)@.logs;
    lemma_last_four(before, "隧道已断开"@);
    lemma_last_four(before, "代理核心意外退出"@);
    if let WorkerEvent::Failed(message) = event {
        law_trimming_empties_blanks(message@);
        lemma_last_four(before, message@);
    }
    if let WorkerEvent::Log(line) = event {
        law_trimming_empties_blanks(line@);
        lemma_last_four(before, line@);
    }
}

/// The last four of a list with one more.
proof fn lemma_last_four(list: Seq<Seq<char>>, line: Seq<char>)
    ensures
        last_of(list.push(line), 4) == if list.len() < 4 {
            list.push(line)
        } else {
            list.skip(list.len() - 3).push(line)
        },
{
    if list.len() >= 4 {
        assert(list.push(line).skip(list.len() + 1 - 4) =~= list.skip(list.len() - 3).push(line));
    }
}

/// [`TunnelApp::restore_proxy`] hands out the setting that was kept, once, and changes
/// nothing else.
pub proof fn law_the_setting_is_handed_out_once(app: &mut TunnelApp, effects: Effects)
    requires
        call_ensures(TunnelApp::restore_proxy, (app,), effects),
    ensures
        effects.save,
        effects.restore_proxy == old(app)@.backup,
        final(app)@ == (Client { backup: None, ..old(app)@ }),
{
}

} // verus!
