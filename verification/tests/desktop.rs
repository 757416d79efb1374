use ss_rs::engine::{
    json_u64, log_lines, read_log, read_totals, totals_request, ChildStatus, Finding, Phase,
    Supervisor, WorkerEvent,
};
use ss_rs::node::{mihomo_config, needs_write, Node};
use ss_rs::sysproxy::{
    disable_system_proxy, parse_setting, query_args, query_proxy_enable, restore_system_proxy,
    set_args, ProxyBackup,
};
use ss_rs::traffic::{format_bytes, period_keys, LocalTime, TrafficStore};
use ss_rs::tunnel::{
    button_label, button_look, button_offsets, click, status, Click, Clock, ConnectionState, Rgb,
    TunnelApp,
};

#[test]
fn parses_mihomo_totals() {
    let json = r#"{"downloadTotal":1234,"uploadTotal":56,"connections":[]}"#;
    assert_eq!(json_u64(json, "downloadTotal"), Some(1234));
    assert_eq!(json_u64(json, "uploadTotal"), Some(56));
}

#[test]
fn formats_traffic() {
    assert_eq!(format_bytes(1536), "1.5 KB");
}

#[test]
fn button_shadow_moves_with_pointer_state() {
    fn offsets(hovered: bool, pressed: bool) -> (f32, f32) {
        let (button, shadow) = button_offsets(hovered, pressed);
        (button.into(), shadow.into())
    }
    assert_eq!(offsets(false, false), (0.0, 5.0));
    assert_eq!(offsets(true, false), (0.0, 7.0));
    assert_eq!(offsets(true, true), (3.0, 4.0));
}

fn formatted_in_floats(bytes: u64) -> String {
    let units = ["B", "KB", "MB", "GB"];
    let mut value = bytes as f64;
    let mut unit = 0;
    while value >= 1024.0 && unit < units.len() - 1 {
        value /= 1024.0;
        unit += 1;
    }
    if unit == 0 {
        format!("{} {}", bytes, units[unit])
    } else {
        format!("{value:.1} {}", units[unit])
    }
}

#[test]
fn counts_are_shown_as_floats_would_be() {
    assert_eq!(format_bytes(0), "0 B");
    assert_eq!(format_bytes(1023), "1023 B");
    assert_eq!(format_bytes(1024), "1.0 KB");
    assert_eq!(format_bytes(1_048_575), "1024.0 KB");
    assert_eq!(format_bytes(u64::MAX), "17179869184.0 GB");
    let mut seed: u64 = 0x9e37_79b9_7f4a_7c15;
    for i in 0..200_000u64 {
        seed ^= seed << 13;
        seed ^= seed >> 7;
        seed ^= seed << 17;
        let bytes = seed >> (i % 64);
        assert_eq!(format_bytes(bytes), formatted_in_floats(bytes));
    }
    for shift in 0..64 {
        for low in 0..6u64 {
            let edge = 1u64 << shift;
            for bytes in [edge.wrapping_add(low), edge.wrapping_sub(low)] {
                assert_eq!(format_bytes(bytes), formatted_in_floats(bytes));
            }
        }
    }
    for quarter in 0..4096u64 {
        for unit in [1u64 << 10, 1 << 20, 1 << 30] {
            let bytes = unit + quarter * (unit / 40);
            assert_eq!(format_bytes(bytes), formatted_in_floats(bytes));
            let bytes = unit / 4 * quarter;
            assert_eq!(format_bytes(bytes), formatted_in_floats(bytes));
            let bytes = unit / 8 * quarter;
            assert_eq!(format_bytes(bytes), formatted_in_floats(bytes));
        }
    }
}

#[test]
fn keys_of_periods() {
    let now = LocalTime {
        year: 2026,
        month: 7,
        day: 2,
        hour: 9,
    };
    assert_eq!(
        period_keys(Some(now)),
        ("2026070209".to_owned(), "202607".to_owned())
    );
    let odd = LocalTime {
        year: 12345,
        month: 0,
        day: 111,
        hour: 23,
    };
    assert_eq!(
        period_keys(Some(odd)),
        (
            format!("{:04}{:02}{:02}{:02}", 12345, 0, 111, 23),
            format!("{:04}{:02}", 12345, 0)
        )
    );
    assert_eq!(period_keys(None), ("hour".to_owned(), "month".to_owned()));
}

fn counts(store: &TrafficStore) -> (&str, &str, u64, u64) {
    (
        &store.hour_key,
        &store.month_key,
        store.hour_bytes,
        store.month_bytes,
    )
}

#[test]
fn counts_survive_a_restart() {
    let mut store = TrafficStore::load(None, "h1".into(), "m1".into());
    assert_eq!(counts(&store), ("h1", "m1", 0, 0));
    store.add(1500, "h1".into(), "m1".into());
    let file = store.save();
    assert_eq!(
        file,
        "hour_key=h1\nmonth_key=m1\nhour_bytes=1500\nmonth_bytes=1500\n"
    );
    let again = TrafficStore::load(Some(&file), "h1".into(), "m1".into());
    assert_eq!(counts(&again), ("h1", "m1", 1500, 1500));
    let next_hour = TrafficStore::load(Some(&file), "h2".into(), "m1".into());
    assert_eq!(counts(&next_hour), ("h2", "m1", 0, 1500));
    let next_month = TrafficStore::load(Some(&file), "h2".into(), "m2".into());
    assert_eq!(counts(&next_month), ("h2", "m2", 0, 0));
}

#[test]
fn odd_files_are_read() {
    let file = "nonsense\r\nmonth_bytes=+7\r\nhour_key=h\r\nhour_bytes=12x\nmonth_key=m\nhour_key=a=b";
    let store = TrafficStore::load(Some(file), "a=b".into(), "m".into());
    assert_eq!(counts(&store), ("a=b", "m", 0, 7));
    let too_large = "hour_key=h\nhour_bytes=18446744073709551616\nmonth_bytes=18446744073709551615";
    let store = TrafficStore::load(Some(too_large), "h".into(), "m".into());
    assert_eq!(counts(&store), ("h", "m", 0, u64::MAX));
}

#[test]
fn counts_start_over_and_stop_at_the_top() {
    let mut store = TrafficStore::load(None, "h1".into(), "m1".into());
    store.add(u64::MAX - 1, "h1".into(), "m1".into());
    store.add(5, "h2".into(), "m1".into());
    assert_eq!(counts(&store), ("h2", "m1", 5, u64::MAX));
    store.roll_periods("h2".into(), "m2".into());
    assert_eq!(counts(&store), ("h2", "m2", 5, 0));
    store.roll_periods("h2".into(), "m2".into());
    assert_eq!(counts(&store), ("h2", "m2", 5, 0));
}

fn node() -> Node {
    Node {
        server: "cdn.example.com".into(),
        port: "8443".into(),
        uuid: "11111111-2222".into(),
        sni: "sni.example.com".into(),
        xhttp_path: "/path".into(),
    }
}

#[test]
fn the_configuration_names_the_node() {
    let expected = r#"mixed-port: 39080
allow-lan: false
mode: rule
log-level: info
ipv6: false
external-controller: 127.0.0.1:39097
secret: ss-rs-local-traffic
tun:
  enable: true
  stack: gvisor
  auto-route: true
  strict-route: true
  auto-detect-interface: true
  dns-hijack:
    - any:53
dns:
  enable: true
  enhanced-mode: fake-ip
  fake-ip-range: 198.18.0.1/16
  nameserver:
    - 1.1.1.1
    - 8.8.8.8
proxies:
  - name: SamsT4vless-CDN
    type: vless
    server: cdn.example.com
    port: 8443
    uuid: 11111111-2222
    network: xhttp
    encryption: ""
    packet-encoding: xudp
    tls: true
    udp: true
    servername: sni.example.com
    alpn:
      - h2
      - http/1.1
    skip-cert-verify: false
    client-fingerprint: chrome
    xhttp-opts:
      path: /path
      host: sni.example.com
      mode: auto
      x-padding-bytes: 100-1000
      x-padding-obfs-mode: false
proxy-groups:
  - name: PROXY
    type: select
    proxies:
      - SamsT4vless-CDN
rules:
  - MATCH,PROXY
"#;
    assert_eq!(mihomo_config(&node()), expected);
    assert_eq!(node().place(), "cdn.example.com : 8443");
    assert_eq!(
        node().connection_line(),
        "连接：cdn.example.com:8443 · TLS/sni.example.com"
    );
}

#[test]
fn incomplete_builds_are_refused() {
    assert_eq!(node().check_build(b"engine", b"dll"), Ok(()));
    let refused = Err("客户端构建不完整".to_owned());
    assert_eq!(node().check_build(b"", b"dll"), refused);
    assert_eq!(node().check_build(b"engine", b""), refused);
    let mut n = node();
    n.server = String::new();
    assert_eq!(n.check_build(b"engine", b"dll"), refused);
    let mut n = node();
    n.uuid = String::new();
    assert_eq!(n.check_build(b"engine", b"dll"), refused);
    let mut n = node();
    n.sni = String::new();
    assert_eq!(n.check_build(b"engine", b"dll"), refused);
    let mut n = node();
    n.xhttp_path = String::new();
    assert_eq!(n.check_build(b"engine", b"dll"), refused);
    let mut n = node();
    n.port = String::new();
    assert_eq!(n.check_build(b"engine", b"dll"), Ok(()));
    assert!(needs_write(None, 3));
    assert!(needs_write(Some(4), 3));
    assert!(!needs_write(Some(3), 3));
}

#[test]
fn totals_of_the_engine() {
    assert_eq!(json_u64(r#"{"a": 	 12 }"#, "a"), Some(12));
    assert_eq!(json_u64(r#"{"a":12,"a":13}"#, "a"), Some(12));
    assert_eq!(json_u64(r#"{"a":-1}"#, "a"), None);
    assert_eq!(json_u64(r#"{"a" :1}"#, "a"), None);
    assert_eq!(json_u64(r#"{"a":18446744073709551615}"#, "a"), Some(u64::MAX));
    assert_eq!(json_u64(r#"{"a":18446744073709551616}"#, "a"), None);
    assert_eq!(json_u64("", "a"), None);
    assert_eq!(
        read_totals("HTTP/1.1 200 OK\r\n\r\n{\"downloadTotal\":2,\"uploadTotal\":1}"),
        Some((1, 2))
    );
    assert_eq!(read_totals(r#"{"downloadTotal":2}"#), None);
    assert_eq!(read_totals(r#"{"uploadTotal":2}"#), None);
    assert_eq!(
        totals_request(),
        "GET /connections HTTP/1.1\r\nHost: 127.0.0.1\r\nAuthorization: Bearer ss-rs-local-traffic\r\nConnection: close\r\n\r\n"
    );
}

#[test]
fn only_the_first_lines_are_logged() {
    assert_eq!(log_lines("a\r\n\nb"), vec!["a", "", "b"]);
    assert_eq!(log_lines(""), Vec::<String>::new());
    let many = "line\n".repeat(30);
    assert_eq!(log_lines(&many).len(), 20);
    assert_eq!(read_log(b"ok \xff\nnext"), vec!["ok \u{fffd}", "next"]);
}

fn named(events: &[WorkerEvent]) -> Vec<String> {
    events
        .iter()
        .map(|event| match event {
            WorkerEvent::Log(line) => format!("log {line}"),
            WorkerEvent::Connected => "connected".to_owned(),
            WorkerEvent::Traffic { upload, download } => format!("traffic {upload} {download}"),
            WorkerEvent::Exited { expected } => format!("exited {expected}"),
            WorkerEvent::Failed(message) => format!("failed {message}"),
        })
        .collect()
}

#[test]
fn the_engine_is_watched() {
    let mut watch = Supervisor::new();
    let mut told = Vec::new();
    let findings = vec![
        Finding::Command(false),
        Finding::Child(ChildStatus::Running),
        Finding::Totals(None),
        Finding::Pause,
        Finding::Command(false),
        Finding::Child(ChildStatus::Running),
        Finding::Totals(Some((1, 2))),
        Finding::Pause,
        Finding::Command(false),
        Finding::Child(ChildStatus::Running),
        Finding::Totals(Some((3, 4))),
        Finding::Pause,
    ];
    for finding in findings {
        let (kill, events) = watch.step(finding);
        assert!(!kill);
        told.extend(named(&events));
    }
    assert_eq!(told, vec!["connected", "traffic 1 2", "traffic 3 4"]);
    assert!(watch.phase == Phase::Command);
    let mut stopped = watch;
    let (kill, events) = stopped.step(Finding::Command(true));
    assert!(kill);
    assert_eq!(named(&events), vec!["exited true"]);
    assert!(stopped.phase == Phase::Over);
    let mut crashed = watch;
    crashed.step(Finding::Command(false));
    let mut unreadable = crashed;
    let (_, events) = crashed.step(Finding::Child(ChildStatus::Exited));
    assert_eq!(named(&events), vec!["exited false"]);
    assert!(crashed.phase == Phase::Over);
    let (_, events) = unreadable.step(Finding::Child(ChildStatus::Unreadable("gone".into())));
    assert_eq!(named(&events), vec!["failed 无法读取代理状态：gone"]);
    assert!(unreadable.phase == Phase::Over);
}

#[test]
fn commands_for_the_proxy_setting() {
    let key = r"HKCU\Software\Microsoft\Windows\CurrentVersion\Internet Settings";
    assert_eq!(query_args(), vec!["query", key, "/v", "ProxyEnable"]);
    assert_eq!(
        set_args(0),
        vec!["add", key, "/v", "ProxyEnable", "/t", "REG_DWORD", "/d", "0", "/f"]
    );
    assert_eq!(
        restore_system_proxy(&ProxyBackup { enabled: 4294967295 })[7],
        "4294967295"
    );
}

#[test]
fn the_proxy_setting_is_read() {
    assert_eq!(
        parse_setting("\r\nHKEY\r\n    ProxyEnable    REG_DWORD    0x1\r\n\r\n"),
        Some(1)
    );
    assert_eq!(parse_setting("0xfFfFfFfF"), Some(u32::MAX));
    assert_eq!(parse_setting("0x100000000"), None);
    assert_eq!(parse_setting("0x0x1a"), Some(26));
    assert_eq!(parse_setting("+a"), Some(10));
    assert_eq!(parse_setting("0x"), None);
    assert_eq!(parse_setting("REG_DWORD"), None);
    assert_eq!(parse_setting(" \t"), None);
    assert_eq!(query_proxy_enable(Some(b"\xff 0x1")), Some(1));
    assert_eq!(query_proxy_enable(Some(b"0x1\xff")), None);
    assert_eq!(query_proxy_enable(None), None);
}

fn backup_of(result: Result<ProxyBackup, String>) -> Result<u32, String> {
    result.map(|backup| backup.enabled)
}

#[test]
fn the_proxy_setting_is_kept() {
    assert_eq!(backup_of(disable_system_proxy(Some(1), Ok(true))), Ok(1));
    assert_eq!(backup_of(disable_system_proxy(None, Ok(true))), Ok(0));
    assert_eq!(
        backup_of(disable_system_proxy(Some(1), Ok(false))),
        Err("无法关闭旧系统代理".to_owned())
    );
    assert_eq!(
        backup_of(disable_system_proxy(Some(1), Err("no reg".into()))),
        Err("无法关闭旧系统代理：no reg".to_owned())
    );
}

fn client() -> TunnelApp {
    TunnelApp::new(TrafficStore::load(None, "h".into(), "m".into()))
}

fn clock() -> Clock {
    Clock {
        hour: "h".into(),
        month: "m".into(),
    }
}

#[test]
fn a_connection_from_click_to_end() {
    let mut app = client();
    assert!(app.state == ConnectionState::Disconnected);
    assert_eq!(app.logs, ["等待连接…"]);
    assert_eq!(click(app.state), Some(Click::Connect));
    app.connect();
    assert!(app.prepared(Ok(())));
    assert!(app.proxy_disabled(Ok(ProxyBackup { enabled: 1 })));
    assert!(app.state == ConnectionState::Connecting);
    assert_eq!(app.logs, ["正在建立 XHTTP 隧道…"]);
    assert_eq!(click(app.state), None);

    let effects = app.poll_worker(WorkerEvent::Connected, &clock(), &node());
    assert_eq!(effects.restore_proxy, None);
    assert!(!effects.save);
    assert!(app.state == ConnectionState::Connected);
    assert_eq!(
        app.logs,
        [
            "正在建立 XHTTP 隧道…",
            "隧道创建成功",
            "连接：cdn.example.com:8443 · TLS/sni.example.com",
            "流量已加密并通过 Cloudflare CDN 转发"
        ]
    );
    assert_eq!(click(app.state), Some(Click::Disconnect));
    assert!(app.disconnect());
    assert!(app.state == ConnectionState::Disconnecting);
    assert_eq!(app.logs[3], "正在恢复网络…");

    let effects = app.poll_worker(WorkerEvent::Exited { expected: true }, &clock(), &node());
    assert_eq!(effects.restore_proxy, Some(1));
    assert!(effects.save);
    assert!(app.state == ConnectionState::Disconnected);
    assert!(!app.worker);
    assert_eq!(app.logs[3], "隧道已断开");
    assert!(!app.disconnect());
    let (stop, effects) = app.stop_and_wait();
    assert!(!stop);
    assert_eq!(effects.restore_proxy, None);
    assert!(effects.save);
}

#[test]
fn failures_are_shown() {
    let mut app = client();
    app.connect();
    assert!(!app.prepared(Err("客户端构建不完整".into())));
    assert!(app.state == ConnectionState::Failed);
    assert_eq!(app.error.as_deref(), Some("客户端构建不完整"));
    assert_eq!(app.logs, ["等待连接…", "客户端构建不完整"]);
    app.connect();
    assert_eq!(app.error, None);
    assert!(app.prepared(Ok(())));
    assert!(!app.proxy_disabled(Err("no".into())));
    assert_eq!(app.error.as_deref(), Some("no"));
    app.connect();
    app.prepared(Ok(()));
    app.proxy_disabled(Ok(ProxyBackup { enabled: 0 }));
    let effects = app.poll_worker(WorkerEvent::Exited { expected: false }, &clock(), &node());
    assert_eq!(effects.restore_proxy, Some(0));
    assert!(app.state == ConnectionState::Failed);
    assert_eq!(app.error.as_deref(), Some("代理核心意外退出"));
    app.proxy_disabled(Ok(ProxyBackup { enabled: 7 }));
    let effects = app.poll_worker(WorkerEvent::Failed("broken".into()), &clock(), &node());
    assert_eq!(effects.restore_proxy, Some(7));
    assert!(app.worker);
    assert_eq!(app.error.as_deref(), Some("broken"));
    let (stop, effects) = app.stop_and_wait();
    assert!(stop);
    assert_eq!(effects.restore_proxy, None);
}

#[test]
fn the_log_keeps_four_lines() {
    let mut app = client();
    for line in ["1", "  ", "2", "3", "\t\u{3000}", "4", "5"] {
        app.poll_worker(WorkerEvent::Log(line.into()), &clock(), &node());
    }
    assert_eq!(app.logs, ["2", "3", "4", "5"]);
}

fn report(app: &mut TunnelApp, upload: u64, download: u64) -> bool {
    app.poll_worker(WorkerEvent::Traffic { upload, download }, &clock(), &node())
        .save
}

#[test]
fn traffic_is_counted_between_reports() {
    let mut app = client();
    assert!(!report(&mut app, 100, 200));
    assert_eq!(app.traffic.hour_bytes, 0);
    assert!(report(&mut app, 110, 205));
    assert_eq!(app.traffic.hour_bytes, 15);
    assert!(report(&mut app, 120, 205));
    assert_eq!(app.traffic.month_bytes, 25);
    assert!(!report(&mut app, 120, 205));
    assert!(!report(&mut app, 0, 0));
    assert_eq!(app.traffic.hour_bytes, 25);
    assert!(report(&mut app, 1, 0));
    assert_eq!(app.traffic.hour_bytes, 26);
    assert_eq!(app.last_totals, Some((1, 0)));
}

#[test]
fn the_file_follows_the_reports() {
    let mut app = client();
    let mut file = app.traffic.save();
    for (upload, download) in [(5, 5), (6, 5), (6, 5), (0, 0), (0, 9), (0, 9)] {
        if report(&mut app, upload, download) {
            file = app.traffic.save();
        }
        let read = TrafficStore::load(Some(&file), "h".into(), "m".into());
        assert_eq!(counts(&read), counts(&app.traffic));
    }
    assert_eq!(counts(&app.traffic), ("h", "m", 10, 10));
}

#[test]
fn states_have_words_and_colours() {
    assert_eq!(
        status(ConnectionState::Disconnected),
        ("● 未连接", Rgb(102, 97, 90))
    );
    assert_eq!(
        status(ConnectionState::Connecting),
        ("● 连接中", Rgb(130, 105, 65))
    );
    assert_eq!(
        status(ConnectionState::Connected),
        ("● 已连接", Rgb(80, 122, 84))
    );
    assert_eq!(
        status(ConnectionState::Disconnecting),
        ("● 正在断开", Rgb(130, 105, 65))
    );
    assert_eq!(
        status(ConnectionState::Failed),
        ("× 连接失败", Rgb(145, 65, 55))
    );
    assert_eq!(button_label(ConnectionState::Connected), "断开连接");
    assert_eq!(button_label(ConnectionState::Failed), "重试");
    assert_eq!(button_label(ConnectionState::Connecting), "正在连接…");
    assert_eq!(button_label(ConnectionState::Disconnecting), "正在断开…");
    assert_eq!(button_label(ConnectionState::Disconnected), "连接");
    assert_eq!(click(ConnectionState::Disconnecting), None);
    assert_eq!(click(ConnectionState::Failed), Some(Click::Connect));
}

#[test]
fn the_button_looks_pressed() {
    let look = button_look(true, true, true);
    assert_eq!(look.offsets, (3, 4));
    assert_eq!(look.ink, Rgb(55, 52, 47));
    assert_eq!(look.hatch, Rgb(71, 67, 61));
    assert_eq!(look.hatch_step, 7);
    assert_eq!(look.fill, Rgb(41, 40, 36));
    assert_eq!(look.label, Rgb(247, 243, 233));
    let look = button_look(false, true, true);
    assert_eq!(look.offsets, (0, 5));
    assert_eq!(look.ink, Rgb(166, 160, 150));
    assert_eq!(look.hatch, Rgb(111, 105, 96));
    assert_eq!(look.hatch_step, 9);
    assert_eq!(look.fill, Rgb(247, 243, 233));
    assert_eq!(look.label, Rgb(166, 160, 150));
    assert_eq!(button_look(true, true, false).fill, Rgb(238, 233, 222));
}
