use clear_codex::{launch_spec_for, process_listed, resolve_codex_launcher, LaunchError};

#[test]
fn where_failure_means_not_installed() {
    match resolve_codex_launcher(false, "C:\\bin\\codex.cmd\r\n") {
        Err(e) => {
            assert!(matches!(e, LaunchError::NotInstalled));
            assert_eq!(e.message(), "codex CLI is not installed or not available in PATH");
        }
        Ok(_) => panic!("resolved without where"),
    }
}

#[test]
fn blank_output_is_unresolved() {
    match resolve_codex_launcher(true, "  \r\n\t\r\n") {
        Err(e) => {
            assert!(matches!(e, LaunchError::Unresolved));
            assert_eq!(e.message(), "codex CLI path could not be resolved");
        }
        Ok(_) => panic!("resolved from blank output"),
    }
    assert!(matches!(resolve_codex_launcher(true, ""), Err(LaunchError::Unresolved)));
}

#[test]
fn cmd_launcher_runs_through_cmd_exe() {
    let spec = resolve_codex_launcher(true, "\r\n  C:\\npm\\codex.cmd  \r\nC:\\npm\\codex\r\n").unwrap();
    assert_eq!(spec.program, "cmd.exe");
    assert_eq!(spec.args, vec!["/D", "/K", "\"C:\\npm\\codex.cmd\""]);
    assert_eq!(spec.display, "C:\\npm\\codex.cmd");
}

#[test]
fn other_launcher_runs_directly() {
    let spec = resolve_codex_launcher(true, "/usr/local/bin/codex\n").unwrap();
    assert_eq!(spec.program, "/usr/local/bin/codex");
    assert!(spec.args.is_empty());
    assert_eq!(spec.display, "/usr/local/bin/codex");
    let spec = resolve_codex_launcher(true, "/opt/codex.exe").unwrap();
    assert_eq!(spec.program, "/opt/codex.exe");
}

#[test]
fn script_extensions_in_any_case() {
    for (ext, through_cmd) in [
        ("cmd", true),
        ("CMD", true),
        ("Bat", true),
        ("PS1", true),
        ("exe", false),
        ("cmdx", false),
        ("", false),
    ] {
        let spec = launch_spec_for("codex.x", Some(ext.to_string()));
        assert_eq!(spec.program == "cmd.exe", through_cmd, "extension {ext}");
        assert_eq!(spec.display, "codex.x");
    }
    let spec = launch_spec_for("codex", None);
    assert_eq!(spec.program, "codex");
    assert!(spec.args.is_empty());
}

#[test]
fn uppercase_script_path_is_quoted() {
    let spec = resolve_codex_launcher(true, "D:\\Tools\\CODEX.BAT").unwrap();
    assert_eq!(spec.program, "cmd.exe");
    assert_eq!(spec.args[2], "\"D:\\Tools\\CODEX.BAT\"");
}

#[test]
fn process_listing_by_pid() {
    let listing = "Image Name   PID Session\ncodex.exe   4321 Console\n";
    assert!(process_listed(true, listing, 4321));
    assert!(process_listed(true, listing, 432));
    assert!(!process_listed(true, listing, 4322));
    assert!(!process_listed(false, listing, 4321));
    assert!(!process_listed(true, "INFO: No tasks are running", 7));
    assert!(process_listed(true, "x 0 y", 0));
}

fn is_sep(c: char) -> bool {
    c == '/' || c == '\\'
}

/// The extension every platform reads alike, as the library states it.
fn plain_extension(p: &str) -> Option<String> {
    let chars: Vec<char> = p.chars().collect();
    let i = chars.iter().rposition(|c| *c == '.')?;
    let e: String = chars[i + 1..].iter().collect();
    if i >= 1
        && !e.is_empty()
        && !e.chars().any(is_sep)
        && !is_sep(chars[i - 1])
        && chars[i - 1] != ':'
        && !(chars.len() >= 2 && is_sep(chars[0]) && is_sep(chars[1]))
    {
        Some(e)
    } else {
        None
    }
}

#[test]
fn plain_extensions_agree_with_path_extension() {
    let paths = [
        "C:\\npm\\codex.cmd",
        "codex.PS1",
        "/usr/bin/codex.sh",
        "x..bat",
        "C:x.bat",
        "a:b.exe",
        "dir/.hidden",
        "dir\\.cmd",
        "C:.cmd",
        "\\\\server\\share.cmd",
        "noext",
        "trailing.",
        "a.b/c",
    ];
    for p in paths {
        if let Some(e) = plain_extension(p) {
            let std_ext = std::path::Path::new(p).extension().and_then(|x| x.to_str()).map(|x| x.to_string());
            assert_eq!(std_ext, Some(e.clone()), "{p}");
            let spec = resolve_codex_launcher(true, p).unwrap();
            let script = ["cmd", "bat", "ps1"].contains(&e.to_ascii_lowercase().as_str());
            assert_eq!(spec.program == "cmd.exe", script, "{p}");
        }
    }
    for p in paths {
        if let Some(e) = std::path::Path::new(p).extension().and_then(|x| x.to_str()) {
            assert!(p.contains(&format!(".{e}")), "{p}");
        } else if !p.contains('.') {
            assert!(std::path::Path::new(p).extension().is_none());
        }
    }
    assert_eq!(plain_extension("C:\\npm\\codex.cmd"), Some("cmd".to_string()));
    assert_eq!(plain_extension("\\\\server\\share.cmd"), None);
    assert_eq!(plain_extension("C:.cmd"), None);
}

#[test]
fn drive_relative_script_runs_through_cmd() {
    let spec = resolve_codex_launcher(true, "C:codex.Cmd\r\n").unwrap();
    assert_eq!(spec.program, "cmd.exe");
    assert_eq!(spec.display, "C:codex.Cmd");
}

#[test]
fn launchers_without_script_extension_run_directly() {
    for l in ["/usr/local/bin/codex", "C:/bin/codex.exe", "codex", "C:\\cmd\\codex", "x.cmdx"] {
        let spec = resolve_codex_launcher(true, l).unwrap();
        assert_eq!(spec.program, l);
        assert!(spec.args.is_empty());
        assert_eq!(spec.display, l);
    }
}
