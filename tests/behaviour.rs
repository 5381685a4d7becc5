use winspawn::{detect_shebang, read_interpreter};
use winspawn::{escape_argument_cmd, escape_command, is_cmd_shim, is_executable};
use winspawn::{escape_argument_powershell, escape_command_powershell};
use winspawn::{parse_non_shell, parse_powershell_core, parse_shell_with_type, ShellType};

fn strings(items: &[&str]) -> Vec<String> {
    items.iter().map(|s| s.to_string()).collect()
}

#[test]
fn executable_extensions_in_any_case() {
    assert!(is_executable("TOOL.EXE"));
    assert!(is_executable("C:\\bin\\Tool.Com"));
    assert!(is_executable("C:/bin/tool.eXe"));
    assert!(!is_executable("script.cmd"));
    assert!(!is_executable("noext"));
    assert!(!is_executable(""));
    assert!(!is_executable("program.exe.bak"));
    assert!(!is_executable("dir.exe\\file"));
    assert!(!is_executable(".exe"));
}

#[test]
fn shim_detection_edges() {
    assert!(is_cmd_shim("C:\\proj\\node_modules\\.bin\\tsc.CMD"));
    assert!(is_cmd_shim("C:/proj/node_modules\\.bin/tsc.cmd"));
    assert!(!is_cmd_shim("node_modules/.bin/sub/x.cmd"));
    assert!(!is_cmd_shim("node_modules/bin/x.cmd"));
    assert!(!is_cmd_shim("node_modules/.bin/.cmd"));
}

#[test]
fn cmd_quoting_exact() {
    assert_eq!(escape_argument_cmd("plain"), "plain");
    assert_eq!(escape_argument_cmd(""), "");
    assert_eq!(escape_argument_cmd("two words"), "\"two words\"");
    assert_eq!(escape_argument_cmd("tab\there"), "\"tab\there\"");
    assert_eq!(escape_argument_cmd("say \"hi\""), "\"say \\\"hi\\\"\"");
    assert_eq!(escape_argument_cmd("a\"b"), "\"a\\\"b\"");
    assert_eq!(escape_argument_cmd("a&b"), "a&b");
    assert_eq!(escape_command("C:\\Program Files\\x.bat"), "\"C:\\Program Files\\x.bat\"");
    assert_eq!(escape_command("run.bat"), "run.bat");
}

#[test]
fn powershell_quoting_exact() {
    for (input, expected) in [
        ("a;b", "'a;b'"),
        ("a`b", "'a`b'"),
        ("x\"y", "'x\"y'"),
        ("<in>", "'<in>'"),
        ("(a)", "'(a)'"),
        ("[a]", "'[a]'"),
        ("{a}", "'{a}'"),
        ("a&b", "'a&b'"),
        ("tab\tx", "'tab\tx'"),
        ("@scope/pkg", "@scope/pkg"),
        ("", ""),
    ] {
        assert_eq!(escape_argument_powershell(input), expected);
    }
    assert_eq!(escape_command_powershell("it's"), "'it''s'");
}

#[test]
fn quoting_twice_is_quoting_once() {
    for t in ["plain", "two words", "say \"hi\"", "\"done\"", "\"", ""] {
        let once = escape_argument_cmd(t);
        assert_eq!(escape_argument_cmd(&once), once);
    }
    for t in ["plain", "two words", "it's", "'done'", "'", "$x", ""] {
        let once = escape_argument_powershell(t);
        assert_eq!(escape_argument_powershell(&once), once);
    }
    assert_eq!(escape_argument_cmd("\"a b\""), "\"a b\"");
    assert_eq!(escape_argument_powershell("'a b'"), "'a b'");
}

#[test]
fn cmd_line_exact_for_path_with_spaces() {
    let command = r#"C:\Users\sam hoang\AppData\Local\Programs\Jan-nightly\bun"#.to_string();
    let (c, a) = parse_non_shell(command, strings(&["x", "@browsermcp/mcp"]), true, None, None);
    assert_eq!(c, "cmd.exe");
    assert_eq!(
        a,
        strings(&[
            "/d",
            "/s",
            "/c",
            r#""C:\Users\sam hoang\AppData\Local\Programs\Jan-nightly\bun" x @browsermcp/mcp"#,
        ])
    );
}

#[test]
fn cmd_uses_comspec_and_backslashes() {
    let (c, a) = parse_non_shell(
        "C:/tools/run.bat".to_string(),
        strings(&["a b", "c/d"]),
        false,
        None,
        Some("C:\\Windows\\system32\\cmd.exe".to_string()),
    );
    assert_eq!(c, "C:\\Windows\\system32\\cmd.exe");
    assert_eq!(a, strings(&["/d", "/s", "/c", "C:\\tools\\run.bat \"a b\" c/d"]));
}

#[test]
fn cmd_without_arguments() {
    let (c, a) = parse_non_shell("build".to_string(), vec![], false, None, None);
    assert_eq!(c, "cmd.exe");
    assert_eq!(a, strings(&["/d", "/s", "/c", "build"]));
}

#[test]
fn powershell_call_exact() {
    let command = r#"C:\Users\sam hoang\AppData\Local\Programs\Jan-nightly\bun"#.to_string();
    let (c, a) = parse_shell_with_type(
        command,
        strings(&["x", "@browsermcp/mcp"]),
        true,
        ShellType::PowerShell,
        None,
        None,
    );
    assert_eq!(c, "powershell.exe");
    assert_eq!(
        a,
        strings(&[
            "-WindowStyle",
            "Hidden",
            "-NoLogo",
            "-NoProfile",
            "-NonInteractive",
            "-Command",
            r#"& 'C:\Users\sam hoang\AppData\Local\Programs\Jan-nightly\bun' 'x' '@browsermcp/mcp'"#,
        ])
    );
}

#[test]
fn powershell_core_call_exact() {
    let (c, a) = parse_powershell_core("bin/tool".to_string(), strings(&["it's", ""]), false, None);
    assert_eq!(c, "pwsh.exe");
    assert_eq!(a[6], "& 'bin\\tool' 'it''s' ''");
    assert_eq!(a.len(), 7);
}

#[test]
fn native_executable_runs_directly() {
    let args = strings(&["--flag", "two words"]);
    let (c, a) = parse_non_shell("tool.exe".to_string(), args.clone(), false, None, None);
    assert_eq!(c, "tool.exe");
    assert_eq!(a, args);
    let (c, a) = parse_shell_with_type("C:/x/TOOL.COM".to_string(), args.clone(), false, ShellType::PowerShell, None, None);
    assert_eq!(c, "C:/x/TOOL.COM");
    assert_eq!(a, args);
    let (c, a) = parse_powershell_core("tool.exe".to_string(), args.clone(), false, None);
    assert_eq!(c, "tool.exe");
    assert_eq!(a, args);
}

#[test]
fn forced_shell_wraps_native_executable() {
    let (c, a) = parse_non_shell("tool.exe".to_string(), strings(&["y"]), true, None, None);
    assert_eq!(c, "cmd.exe");
    assert_eq!(a, strings(&["/d", "/s", "/c", "tool.exe y"]));
}

#[test]
fn shebang_env_names_interpreter() {
    let mut args = strings(&["--listen", "80"]);
    let line = Some("#!/usr/bin/env node".to_string());
    let c = detect_shebang("scripts/serve", &line, &mut args);
    assert_eq!(c, "node");
    assert_eq!(args, strings(&["scripts/serve", "--listen", "80"]));
}

#[test]
fn shebang_through_cmd() {
    let line = Some("#!/usr/bin/env node".to_string());
    let (c, a) = parse_non_shell("scripts/serve".to_string(), strings(&["a"]), false, line, None);
    assert_eq!(c, "cmd.exe");
    assert_eq!(a, strings(&["/d", "/s", "/c", "node scripts/serve a"]));
}

#[test]
fn shebang_to_native_interpreter_runs_directly() {
    let line = Some("#!C:/tools/python.exe -u".to_string());
    let (c, a) = parse_non_shell("job.py".to_string(), strings(&["1"]), false, line, None);
    assert_eq!(c, "C:/tools/python.exe");
    assert_eq!(a, strings(&["job.py", "1"]));
}

#[test]
fn shebang_lines() {
    assert_eq!(read_interpreter("#!/bin/sh -e"), Some("/bin/sh".to_string()));
    assert_eq!(read_interpreter("#!  /usr/bin/env   python3  "), Some("python3".to_string()));
    assert_eq!(read_interpreter("#!/usr/bin/env "), Some("/usr/bin/env".to_string()));
    assert_eq!(read_interpreter("#!/usr/bin/envy"), Some("/usr/bin/envy".to_string()));
    assert_eq!(read_interpreter("#!"), None);
    assert_eq!(read_interpreter("#!   "), None);
    assert_eq!(read_interpreter("# comment"), None);
    assert_eq!(read_interpreter("echo hi"), None);
    assert_eq!(read_interpreter(""), None);
}

#[test]
fn no_shebang_leaves_arguments() {
    let mut args = strings(&["a"]);
    let c = detect_shebang("run.bat", &Some("@echo off".to_string()), &mut args);
    assert_eq!(c, "run.bat");
    assert_eq!(args, strings(&["a"]));
    let c = detect_shebang("run.bat", &None, &mut args);
    assert_eq!(c, "run.bat");
    assert_eq!(args, strings(&["a"]));
}
