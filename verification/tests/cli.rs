use ohmylogcat::cli::{
    purge_decision, removal_confirmation, update_report, PurgeDecision, RemovalConfirmation,
};
use ohmylogcat::cli::{
    confirm_answer, extract_json_string_field, help_text, normalize_path_string, parse,
    release_version_from_json, same_path_text, version_text, CliAction, PKG_VERSION,
};

#[test]
fn parse_no_args_runs_tui() {
    let action = parse(&Vec::<&str>::new()).unwrap();
    assert_eq!(action, CliAction::RunTui);
}

#[test]
fn parse_version_flags() {
    assert_eq!(parse(&["--version"]).unwrap(), CliAction::Version);
    assert_eq!(parse(&["-V"]).unwrap(), CliAction::Version);
}

#[test]
fn parse_help_flags() {
    assert_eq!(parse(&["--help"]).unwrap(), CliAction::Help);
    assert_eq!(parse(&["-h"]).unwrap(), CliAction::Help);
}

#[test]
fn parse_update() {
    assert_eq!(parse(&["update"]).unwrap(), CliAction::Update);
}

#[test]
fn parse_uninstall_flags() {
    assert_eq!(
        parse(&["uninstall"]).unwrap(),
        CliAction::Uninstall {
            yes: false,
            keep_data: false,
            purge: false,
        }
    );
    assert_eq!(
        parse(&["uninstall", "--yes", "--keep-data"]).unwrap(),
        CliAction::Uninstall {
            yes: true,
            keep_data: true,
            purge: false,
        }
    );
    assert_eq!(
        parse(&["uninstall", "-y", "--purge"]).unwrap(),
        CliAction::Uninstall {
            yes: true,
            keep_data: false,
            purge: true,
        }
    );
}

#[test]
fn parse_rejects_unknown_and_conflicts() {
    assert!(parse(&["nope"]).is_err());
    assert!(parse(&["uninstall", "--keep-data", "--purge"]).is_err());
    assert!(parse(&["uninstall", "--bogus"]).is_err());
    let err = parse(&["wat"]).unwrap_err();
    assert!(err.message.contains("--help"));
}

#[test]
fn version_and_help_content() {
    let v = version_text();
    assert!(v.contains(PKG_VERSION));
    assert!(v.starts_with("ohmylogcat "));

    let h = help_text();
    assert!(h.contains("update"));
    assert!(h.contains("uninstall"));
    assert!(h.contains("--version"));
    assert!(h.contains("--help"));
    assert!(h.contains("Start the TUI"));
    assert!(h.contains('q'));
    assert!(h.contains("README"));
}

#[test]
fn extract_tag_name() {
    let json = r#"{"tag_name": "v0.1.0", "name": "x"}"#;
    assert_eq!(
        extract_json_string_field(json, "tag_name").as_deref(),
        Some("v0.1.0")
    );
}

#[test]
fn parse_error_messages_are_exact() {
    assert_eq!(
        parse(&["wat"]).unwrap_err().message,
        "unknown argument: wat\nTry `ohmylogcat --help` for usage."
    );
    assert_eq!(
        parse(&["--version", "x"]).unwrap_err().message,
        "unexpected arguments after --version\nTry `ohmylogcat --help` for usage."
    );
    assert_eq!(
        parse(&["update", "now"]).unwrap_err().message,
        "unexpected arguments after `update`\nTry `ohmylogcat --help` for usage."
    );
    assert_eq!(
        parse(&["uninstall", "--yes", "--bogus", "--nope"]).unwrap_err().message,
        "unknown uninstall flag: --bogus\nTry `ohmylogcat --help` for usage."
    );
    assert_eq!(
        parse(&["uninstall", "--purge", "--keep-data"]).unwrap_err().message,
        "cannot combine --keep-data and --purge\nTry `ohmylogcat --help` for usage."
    );
    assert_eq!(
        parse(&["uninstall", "-y", "-y", "--purge", "--purge"]).unwrap(),
        CliAction::Uninstall { yes: true, keep_data: false, purge: true }
    );
}

#[test]
fn help_text_is_the_full_usage() {
    let h = help_text();
    assert!(h.starts_with(&format!("ohmylogcat {} — lightweight Android Logcat TUI\n\nUSAGE:\n", PKG_VERSION)));
    assert!(h.ends_with("  https://github.com/jyy2luck/ohmylogcat#keyboard-shortcuts\n"));
    assert_eq!(version_text(), format!("ohmylogcat {}", PKG_VERSION));
}

#[test]
fn json_field_edge_cases() {
    assert_eq!(extract_json_string_field(r#"{"tag_name"  :   "v2"}"#, "tag_name").as_deref(), Some("v2"));
    assert_eq!(extract_json_string_field(r#"{"tag_name": 5}"#, "tag_name"), None);
    assert_eq!(extract_json_string_field(r#"{"name": "x"}"#, "tag_name"), None);
    assert_eq!(extract_json_string_field(r#"{"tag_name" "v"}"#, "tag_name"), None);
    assert_eq!(extract_json_string_field(r#"{"tag_name": "open"#, "tag_name"), None);
    assert_eq!(release_version_from_json(r#"{"tag_name":"vv1.2.3"}"#), Ok("1.2.3".to_string()));
    assert_eq!(
        release_version_from_json("{}"),
        Err("missing tag_name in release metadata".to_string())
    );
}

#[test]
fn confirm_answers() {
    assert!(confirm_answer("Keep settings (settings.json)? [Y/n] ", "\n"));
    assert!(!confirm_answer("Remove x? [y/N] ", "  \n"));
    assert!(confirm_answer("Remove x? [y/N] ", " YeS \n"));
    assert!(confirm_answer("Remove x? [y/N] ", "y"));
    assert!(!confirm_answer("Keep? [Y/n] ", "nope"));
}

#[test]
fn path_normalization_and_loose_compare() {
    assert_eq!(normalize_path_string("C:/Users/me/bin//"), "C:\\Users\\me\\bin");
    assert_eq!(normalize_path_string("/"), "");
    assert!(same_path_text("C:/A/b/", "c:\\a\\B"));
    assert!(!same_path_text("/usr/bin", "/usr/sbin"));
}

#[test]
fn uninstall_confirmation_rules() {
    assert_eq!(removal_confirmation(true, false), RemovalConfirmation::Skip);
    assert_eq!(removal_confirmation(true, true), RemovalConfirmation::Skip);
    assert_eq!(removal_confirmation(false, true), RemovalConfirmation::Ask);
    assert_eq!(removal_confirmation(false, false), RemovalConfirmation::Refuse);
}

#[test]
fn uninstall_purge_rules() {
    assert_eq!(purge_decision(true, true, false), PurgeDecision::Purge);
    assert_eq!(purge_decision(false, true, true), PurgeDecision::Keep);
    assert_eq!(purge_decision(false, false, true), PurgeDecision::Ask);
    assert_eq!(purge_decision(false, false, false), PurgeDecision::Keep);
}

#[test]
fn update_closing_line() {
    assert_eq!(update_report(Some(PKG_VERSION)), format!("Already up to date ({PKG_VERSION})."));
    assert_eq!(
        update_report(Some("9.9.9")),
        "Updated toward latest release (9.9.9). Restart any open sessions."
    );
    assert_eq!(
        update_report(None),
        "Install script finished. Run `ohmylogcat --version` to confirm."
    );
}
