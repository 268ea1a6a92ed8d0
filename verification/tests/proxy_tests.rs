use nxmproxy::cmdline::tokenize;
use nxmproxy::codec::{parse_config_text, write_config_text};
use nxmproxy::config::Config;
use nxmproxy::dispatch::{build_spawn_command, pipe_path, plan_dispatch, substitute_placeholder};
use nxmproxy::errors::ProxyError;
use nxmproxy::logging::{debug, error, info, warn, Logger};
use nxmproxy::registry::{
    ascii_eq_ignore_case, classify_read_code, classify_write_code, decode_registry_value,
    elevation_request, file_name_part, handler_command_line, handler_key_path,
    install_next_step, is_self_handler_command, join_args, parent_dir_part, read_value_step,
    reg_sz_value, InstallAction, ReadStep,
};
use nxmproxy::wide::{encode_utf16_vec, to_utf16, utf16_to_string};

#[test]
fn tokenize_quoted_executable() {
    let (exe, args) = tokenize("\"C:\\a b\\x.exe\" %1").unwrap();
    assert_eq!(exe, "C:\\a b\\x.exe");
    assert_eq!(args, vec!["%1".to_string()]);
}

#[test]
fn tokenize_unquoted_executable() {
    let (exe, args) = tokenize("C:\\nmm.exe nxm://skyrim/mods/1").unwrap();
    assert_eq!(exe, "C:\\nmm.exe");
    assert_eq!(args, vec!["nxm://skyrim/mods/1".to_string()]);
}

#[test]
fn tokenize_backslash_quote_rules() {
    // 2n backslashes + quote: n backslashes, quote toggles quoting
    let (exe, args) = tokenize("x a\\\\\"b c\"").unwrap();
    assert_eq!(exe, "x");
    assert_eq!(args, vec!["a\\b c".to_string()]);
    // 2n+1 backslashes + quote: n backslashes and a literal quote
    let (_, args) = tokenize("x a\\\"b").unwrap();
    assert_eq!(args, vec!["a\"b".to_string()]);
}

#[test]
fn tokenize_quoted_span_holds_spaces() {
    let (exe, args) = tokenize("run \"one two\" three").unwrap();
    assert_eq!(exe, "run");
    assert_eq!(args, vec!["one two".to_string(), "three".to_string()]);
}

#[test]
fn tokenize_blank_is_malformed() {
    assert_eq!(tokenize(""), Err(ProxyError::MalformedCommandLine));
    assert_eq!(tokenize("   \t "), Err(ProxyError::MalformedCommandLine));
}

#[test]
fn tokenize_line_break_only_is_malformed() {
    // trimming removes every kind of whitespace, not just spaces and tabs
    assert_eq!(tokenize("\n"), Err(ProxyError::MalformedCommandLine));
    assert_eq!(tokenize(" \r\n "), Err(ProxyError::MalformedCommandLine));
    // a line break beside real content is no blank line
    assert!(tokenize("x\n").is_ok());
}

#[test]
fn resolve_exact_entry() {
    let mut cfg = Config::empty();
    cfg.register("nmm", "C:\\nmm.exe %1").unwrap();
    cfg.assign("nmm", "skyrim").unwrap();
    assert_eq!(cfg.resolve("skyrim").unwrap(), "nmm");
}

#[test]
fn resolve_wildcard_iff_no_exact_entry() {
    let mut cfg = Config::empty();
    cfg.assign("vortex", "_").unwrap();
    cfg.assign("nmm", "skyrim").unwrap();
    // exact entry wins
    assert_eq!(cfg.resolve("skyrim").unwrap(), "nmm");
    // wildcard only where no exact entry exists
    assert_eq!(cfg.resolve("fallout4").unwrap(), "vortex");
}

#[test]
fn resolve_without_any_entry_fails() {
    let cfg = Config::empty();
    match cfg.resolve("skyrim") {
        Err(ProxyError::NoManagerForGame(g)) => assert_eq!(g, "skyrim"),
        other => panic!("unexpected: {:?}", other),
    }
}

#[test]
fn config_round_trip() {
    let mut cfg = Config::empty();
    cfg.register("nmm", "C:\\nmm.exe %1").unwrap();
    cfg.register("vortex", "\"C:\\a b\\vortex.exe\" -d %1").unwrap();
    cfg.assign("nmm", "skyrim").unwrap();
    cfg.assign("vortex", "_").unwrap();
    cfg.register_pipe("nmm", "nmmpipe").unwrap();
    let text = write_config_text(&cfg);
    let back = parse_config_text(&text).unwrap();
    assert_eq!(back.games.get(&"skyrim".to_string()), Some("nmm".to_string()));
    assert_eq!(back.games.get(&"_".to_string()), Some("vortex".to_string()));
    assert_eq!(
        back.managers.get(&"vortex".to_string()),
        Some("\"C:\\a b\\vortex.exe\" -d %1".to_string())
    );
    assert_eq!(back.pipes.get(&"nmm".to_string()), Some("nmmpipe".to_string()));
    assert_eq!(back.pipes.get(&"vortex".to_string()), None);
}

#[test]
fn config_round_trip_awkward_characters() {
    let mut cfg = Config::empty();
    cfg.register("we\"ird\\one", "line\nbreak\tand \"quotes\"").unwrap();
    let text = write_config_text(&cfg);
    let back = parse_config_text(&text).unwrap();
    assert_eq!(
        back.managers.get(&"we\"ird\\one".to_string()),
        Some("line\nbreak\tand \"quotes\"".to_string())
    );
}

#[test]
fn parse_accepts_comments_and_blanks() {
    let text = "# a comment\n\n[games]\n\"skyrim\" = \"nmm\"\n[managers]\n[pipes]\n";
    let cfg = parse_config_text(text).unwrap();
    assert_eq!(cfg.games.get(&"skyrim".to_string()), Some("nmm".to_string()));
}

#[test]
fn parse_rejects_entry_before_header() {
    assert!(parse_config_text("\"skyrim\" = \"nmm\"\n").is_none());
}

#[test]
fn parse_rejects_unknown_table() {
    assert!(parse_config_text("[something]\n").is_none());
}

#[test]
fn register_pipe_needs_registered_manager() {
    let mut cfg = Config::empty();
    assert_eq!(cfg.register_pipe("nmm", "nmmpipe"), Err(ProxyError::ManagerNotRegistered));
    cfg.register("nmm", "C:\\nmm.exe %1").unwrap();
    assert!(cfg.register_pipe("nmm", "nmmpipe").is_ok());
}

#[test]
fn deregister_drops_command_and_pipe() {
    let mut cfg = Config::empty();
    cfg.register("nmm", "C:\\nmm.exe %1").unwrap();
    cfg.register_pipe("nmm", "nmmpipe").unwrap();
    cfg.deregister("nmm").unwrap();
    assert_eq!(cfg.managers.get(&"nmm".to_string()), None);
    assert_eq!(cfg.pipes.get(&"nmm".to_string()), None);
}

#[test]
fn dispatch_spawns_resolved_manager() {
    let mut cfg = Config::empty();
    cfg.register("nmm", "C:\\nmm.exe %1").unwrap();
    cfg.assign("nmm", "skyrim").unwrap();
    let plan = plan_dispatch(&cfg, "nxm://skyrim/mods/1").unwrap();
    assert_eq!(plan.manager, "nmm");
    assert_eq!(plan.pipe, None);
    let (exe, args) = plan.spawn.unwrap();
    assert_eq!(exe, "C:\\nmm.exe");
    assert_eq!(args, vec!["nxm://skyrim/mods/1".to_string()]);
}

#[test]
fn dispatch_falls_back_to_wildcard() {
    let mut cfg = Config::empty();
    cfg.register("nmm", "C:\\nmm.exe %1").unwrap();
    cfg.assign("nmm", "_").unwrap();
    let plan = plan_dispatch(&cfg, "nxm://skyrim/mods/1").unwrap();
    assert_eq!(plan.manager, "nmm");
    let (exe, args) = plan.spawn.unwrap();
    assert_eq!(exe, "C:\\nmm.exe");
    assert_eq!(args, vec!["nxm://skyrim/mods/1".to_string()]);
}

#[test]
fn dispatch_keeps_spawn_beside_configured_pipe() {
    // a channel with no listener: the plan still carries the spawn command
    let mut cfg = Config::empty();
    cfg.register("nmm", "C:\\nmm.exe %1").unwrap();
    cfg.assign("nmm", "skyrim").unwrap();
    cfg.register_pipe("nmm", "nmmpipe").unwrap();
    let plan = plan_dispatch(&cfg, "nxm://skyrim/mods/1").unwrap();
    assert_eq!(plan.pipe, Some("nmmpipe".to_string()));
    let (exe, args) = plan.spawn.unwrap();
    assert_eq!(exe, "C:\\nmm.exe");
    assert_eq!(args, vec!["nxm://skyrim/mods/1".to_string()]);
}

#[test]
fn dispatch_rejects_other_schemes() {
    let mut cfg = Config::empty();
    cfg.register("nmm", "C:\\nmm.exe %1").unwrap();
    cfg.assign("nmm", "_").unwrap();
    assert_eq!(
        plan_dispatch(&cfg, "https://example.net/x").unwrap_err(),
        ProxyError::NotSupportedScheme
    );
    assert_eq!(plan_dispatch(&cfg, "not a url").unwrap_err(), ProxyError::NotSupportedScheme);
}

#[test]
fn dispatch_without_manager_for_game() {
    let cfg = Config::empty();
    match plan_dispatch(&cfg, "nxm://skyrim/mods/1") {
        Err(ProxyError::NoManagerForGame(g)) => assert_eq!(g, "skyrim"),
        other => panic!("unexpected: {:?}", other),
    }
}

#[test]
fn dispatch_flags_missing_command_template() {
    let mut cfg = Config::empty();
    cfg.register("nmm", "C:\\nmm.exe %1").unwrap();
    cfg.assign("other", "skyrim").unwrap();
    let plan = plan_dispatch(&cfg, "nxm://skyrim/mods/1").unwrap();
    assert_eq!(plan.manager, "other");
    assert_eq!(plan.spawn.unwrap_err(), ProxyError::ManagerNotRegistered);
}

#[test]
fn substitute_replaces_every_placeholder() {
    assert_eq!(substitute_placeholder("a %1 b %1", "u"), "a u b u");
    assert_eq!(substitute_placeholder("no placeholder", "u"), "no placeholder");
}

#[test]
fn spawn_command_substitutes_and_splits() {
    let (exe, args) =
        build_spawn_command("\"C:\\a b\\vortex.exe\" -d %1", "nxm://skyrim/mods/1").unwrap();
    assert_eq!(exe, "C:\\a b\\vortex.exe");
    assert_eq!(args, vec!["-d".to_string(), "nxm://skyrim/mods/1".to_string()]);
}

#[test]
fn pipe_path_prefixes_the_channel_name() {
    assert_eq!(pipe_path("nmmpipe"), "\\\\.\\pipe\\nmmpipe");
}

#[test]
fn handler_record_layout() {
    assert_eq!(handler_command_line("C:\\nxmproxy.exe"), "\"C:\\nxmproxy.exe\" url \"%1\"");
    assert_eq!(handler_key_path("nxm"), "nxm\\shell\\open\\command");
}

#[test]
fn reg_sz_value_little_endian_with_terminator() {
    assert_eq!(reg_sz_value("A"), vec![0x41u8, 0x00, 0x00, 0x00]);
    assert_eq!(reg_sz_value("\u{20AC}"), vec![0xACu8, 0x20, 0x00, 0x00]);
}

#[test]
fn utf16_encoding_and_terminator() {
    assert_eq!(encode_utf16_vec("ab"), vec![97u16, 98]);
    assert_eq!(to_utf16("ab"), vec![97u16, 98, 0]);
    // a supplementary-plane character becomes a surrogate pair
    assert_eq!(encode_utf16_vec("\u{1D11E}"), vec![0xD834u16, 0xDD1E]);
}

#[test]
fn utf16_decoding_inverts_encoding() {
    let units = encode_utf16_vec("p\u{1D11E}q");
    assert_eq!(utf16_to_string(&units), Some("p\u{1D11E}q".to_string()));
    // a lone surrogate has no decoding
    assert_eq!(utf16_to_string(&vec![0xD834u16]), None);
}

#[test]
fn two_phase_read_steps() {
    assert_eq!(read_value_step(0, 42), ReadStep::Done { units: 20 });
    assert_eq!(read_value_step(234, 300), ReadStep::Retry { units: 150 });
    assert_eq!(read_value_step(234, 301), ReadStep::Retry { units: 151 });
    assert_eq!(read_value_step(87, 0), ReadStep::Fail { code: 87 });
}

#[test]
fn registry_value_decoding_cuts_terminator() {
    let buffer = vec![0x68u16, 0x69, 0x00, 0x00];
    // six bytes stored: two characters and the terminator
    assert_eq!(decode_registry_value(&buffer, 6), Some("hi".to_string()));
}

#[test]
fn registry_value_decoding_fails_only_on_invalid_units() {
    // a lone surrogate unit is no encoding of any string
    let buffer = vec![0xD834u16, 0x0000];
    assert_eq!(decode_registry_value(&buffer, 4), None);
    // a stored surrogate pair reads back as the character it encodes
    let pair = vec![0xD834u16, 0xDD1E, 0x0000];
    assert_eq!(decode_registry_value(&pair, 6), Some("\u{1D11E}".to_string()));
}

#[test]
fn read_and_write_failures_classified() {
    assert_eq!(classify_read_code(2), ProxyError::NotRegistered);
    assert_eq!(classify_read_code(5), ProxyError::AccessDenied);
    assert_eq!(classify_read_code(87), ProxyError::OsError(87));
    assert_eq!(classify_write_code(5), ProxyError::AccessDenied);
    assert_eq!(classify_write_code(87), ProxyError::OsError(87));
}

#[test]
fn denied_write_elevates_exactly_once() {
    // the well-known access-denied code leads to elevation, not a retry:
    // no action of the installation writes the registry a second time
    assert_eq!(install_next_step(5), InstallAction::Elevate);
    assert_eq!(install_next_step(0), InstallAction::Completed);
    assert_eq!(install_next_step(87), InstallAction::Fail { code: 87 });
}

#[test]
fn self_detection_compares_file_names_case_insensitively() {
    let record = handler_command_line("C:\\Tools\\NXMProxy.EXE");
    assert_eq!(is_self_handler_command(&record, "nxmproxy.exe"), Ok(true));
    assert_eq!(is_self_handler_command(&record, "other.exe"), Ok(false));
    assert_eq!(is_self_handler_command("", "nxmproxy.exe"), Err(ProxyError::MalformedCommandLine));
}

#[test]
fn path_parts() {
    assert_eq!(file_name_part("C:\\a b\\x.exe"), "x.exe");
    assert_eq!(parent_dir_part("C:\\a b\\x.exe"), "C:\\a b");
    assert_eq!(file_name_part("x.exe"), "x.exe");
    assert_eq!(parent_dir_part("x.exe"), "");
    assert!(ascii_eq_ignore_case("AbC", "aBc"));
    assert!(!ascii_eq_ignore_case("abc", "abd"));
}

#[test]
fn elevation_request_marshals_wide_strings() {
    let args = vec!["install".to_string()];
    let req = elevation_request("C:\\t\\nxmproxy.exe", &args);
    assert_eq!(req.verb, to_utf16("runas"));
    assert_eq!(req.file, to_utf16("C:\\t\\nxmproxy.exe"));
    assert_eq!(req.directory, to_utf16("C:\\t"));
    assert_eq!(req.parameters, to_utf16("install"));
}

#[test]
fn join_args_single_spaces() {
    assert_eq!(join_args(&vec!["a".to_string(), "b".to_string()]), "a b");
    assert_eq!(join_args(&Vec::new()), "");
}

#[test]
fn logger_collects_labelled_lines() {
    let mut log = Logger::new();
    debug(&mut log, "d");
    info(&mut log, "i");
    warn(&mut log, "w");
    error(&mut log, "e");
    assert_eq!(log.lines, vec!["debug: d", "info: i", "warn: w", "error: e"]);
}
