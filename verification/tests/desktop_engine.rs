use ohmylogcat::desktop::adb::{devices_outcome, parse_device_list, resolve_adb_path, version_check_outcome};
use ohmylogcat::desktop::engine::{level_from_name, Engine};
use ohmylogcat::desktop::settings::Settings;
use ohmylogcat::parser::{LogEntry, LogLevel};

fn entry(pid: u32, level: LogLevel, msg: &str) -> LogEntry {
    LogEntry {
        timestamp: "07-17 12:00:00.000".into(),
        pid,
        tid: pid,
        level,
        tag: "T".into(),
        message: msg.into(),
    }
}

#[test]
fn desktop_engine_batches_matches_only_when_running() {
    let mut e = Engine::new(2);
    e.set_filter(None, Some("HIT".into()), Some("Warn".into()));
    e.ingest_entry(entry(1, LogLevel::Error, "a hit"));
    e.ingest_entry(entry(2, LogLevel::Info, "a hit"));
    e.is_paused = true;
    e.ingest_entry(entry(3, LogLevel::Error, "hit again"));
    assert_eq!(e.total_received, 3);
    assert_eq!(e.total_matched, 1);
    let batch = e.take_batch();
    assert_eq!(batch.iter().map(|x| x.pid).collect::<Vec<_>>(), vec![1]);
    assert!(e.take_batch().is_empty());
    let snap = e.re_filter();
    assert_eq!(snap.iter().map(|x| x.pid).collect::<Vec<_>>(), vec![3]);
    assert_eq!(e.export_lines(false).unwrap().len(), 2);
    e.clear_buffer();
    assert_eq!(e.export_lines(false), Err("No log entries to export".to_string()));
    e.set_capacity(5);
    assert_eq!(e.settings_bufcap, 5);
    e.start_stream();
    assert!(!e.is_paused);
    assert_eq!(e.total_received, 0);
}

#[test]
fn desktop_pending_batch_keeps_newest() {
    let mut e = Engine::new(10);
    for i in 0..5_003u32 {
        e.ingest_entry(entry(i, LogLevel::Info, "m"));
    }
    let batch = e.take_batch();
    assert_eq!(batch.len(), 5_000);
    assert_eq!(batch[0].pid, 3);
    assert_eq!(batch[4_999].pid, 5_002);
}

#[test]
fn level_names_and_settings_default() {
    assert_eq!(level_from_name("Fatal"), Some(LogLevel::Fatal));
    assert_eq!(level_from_name("warn"), None);
    let s = Settings::default();
    assert_eq!(s.buffer_capacity, 200_000);
    assert!(s.adb_path.is_none());
}

#[test]
fn adb_path_resolution_order() {
    let exists = |p: &str| p == "/opt/adb" || p == "/usr/local/bin/adb";
    assert_eq!(
        resolve_adb_path(Some("/opt/adb"), exists, || None, &[]),
        Ok("/opt/adb".to_string())
    );
    assert_eq!(
        resolve_adb_path(Some("/nope"), exists, || Some("/w".into()), &[]),
        Err("ADB not found at configured path: /nope".to_string())
    );
    assert_eq!(
        resolve_adb_path(Some(""), exists, || Some("/w".into()), &[]),
        Ok("/w".to_string())
    );
    assert_eq!(
        resolve_adb_path(None, exists, || None, &["/usr/bin/adb", "/usr/local/bin/adb"]),
        Ok("/usr/local/bin/adb".to_string())
    );
    assert_eq!(
        resolve_adb_path(None, exists, || None, &["/x"]),
        Err("ADB not found. Install Android SDK platform-tools or configure adb path in settings.".to_string())
    );
}

#[test]
fn adb_outputs_are_read() {
    let out = "List of devices attached\nemulator-5554\tdevice\r\n\n0123abc   unauthorized extra\nlonely\n";
    let devices = parse_device_list(out);
    assert_eq!(devices.len(), 2);
    assert_eq!(devices[0].serial, "emulator-5554");
    assert_eq!(devices[0].state, "device");
    assert_eq!(devices[1].serial, "0123abc");
    assert_eq!(devices[1].state, "unauthorized");
    assert!(parse_device_list("").is_empty());
    assert!(parse_device_list("emulator-5554 device").is_empty());
    assert_eq!(devices_outcome(false, "", " boom \n").unwrap_err(), "adb devices failed: boom");
    assert_eq!(devices_outcome(true, out, "").unwrap().len(), 2);
    assert_eq!(version_check_outcome(true, " Android Debug Bridge 1.0.41\n", ""), Ok("Android Debug Bridge 1.0.41".to_string()));
    assert_eq!(version_check_outcome(true, "  ", "v2\n"), Ok("v2".to_string()));
    assert_eq!(version_check_outcome(false, "x", "bad\n"), Err("ADB version check failed: bad".to_string()));
}
