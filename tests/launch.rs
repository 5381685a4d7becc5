use winspawn::{parse_non_shell, parse_powershell_core, parse_shell_with_type, ShellType};
use winspawn::{escape_argument_powershell, escape_command_powershell, is_cmd_shim, is_executable};

#[test]
fn test_parse_non_shell_with_spaces_in_path_cmd() {
    let command = r#"C:\Users\sam hoang\AppData\Local\Programs\Jan-nightly\bun"#.to_string();
    let args = vec!["x".to_string(), "@browsermcp/mcp".to_string()];

    let (final_command, final_args) = parse_non_shell(command, args, true, None, None);

    println!("Final command: {}", final_command);
    println!("Final args: {:?}", final_args);

    assert!(final_command.contains("cmd"));
    assert_eq!(final_args.len(), 4);
    assert_eq!(final_args[0], "/d");
    assert_eq!(final_args[1], "/s");
    assert_eq!(final_args[2], "/c");

    let shell_cmd = &final_args[3];
    println!("Shell command: {}", shell_cmd);

    assert!(shell_cmd.contains(r#""C:\Users\sam hoang\AppData\Local\Programs\Jan-nightly\bun""#));
    assert!(shell_cmd.contains("x"));
    assert!(shell_cmd.contains("@browsermcp/mcp"));
}

#[test]
fn test_parse_shell_with_powershell() {
    let command = r#"C:\Users\sam hoang\AppData\Local\Programs\Jan-nightly\bun"#.to_string();
    let args = vec!["x".to_string(), "@browsermcp/mcp".to_string()];

    let (final_command, final_args) =
        parse_shell_with_type(command, args, true, ShellType::PowerShell, None, None);

    println!("PowerShell Final command: {}", final_command);
    println!("PowerShell Final args: {:?}", final_args);

    assert_eq!(final_command, "powershell.exe");
    assert_eq!(final_args.len(), 7);
    assert_eq!(final_args[0], "-WindowStyle");
    assert_eq!(final_args[1], "Hidden");
    assert_eq!(final_args[2], "-NoLogo");
    assert_eq!(final_args[3], "-NoProfile");
    assert_eq!(final_args[4], "-NonInteractive");
    assert_eq!(final_args[5], "-Command");

    let shell_cmd = &final_args[6];
    println!("PowerShell command: {}", shell_cmd);

    assert!(shell_cmd.starts_with("& "));
    assert!(shell_cmd.contains("'C:\\Users\\sam hoang\\AppData\\Local\\Programs\\Jan-nightly\\bun'"));
    assert!(shell_cmd.contains("'x'"));
    assert!(shell_cmd.contains("'@browsermcp/mcp'"));
}

#[test]
fn test_parse_powershell_core() {
    let command = "npm".to_string();
    let args = vec!["install".to_string(), "--save".to_string()];

    let (final_command, final_args) = parse_powershell_core(command, args, true, None);

    println!("PowerShell Core Final command: {}", final_command);
    println!("PowerShell Core Final args: {:?}", final_args);

    assert_eq!(final_command, "pwsh.exe");
    assert_eq!(final_args.len(), 7);
    assert_eq!(final_args[0], "-WindowStyle");
    assert_eq!(final_args[1], "Hidden");
    assert_eq!(final_args[2], "-NoLogo");
    assert_eq!(final_args[3], "-NoProfile");
    assert_eq!(final_args[4], "-NonInteractive");
    assert_eq!(final_args[5], "-Command");

    let shell_cmd = &final_args[6];
    assert!(shell_cmd.starts_with("& "));
    assert!(shell_cmd.contains("npm"));
    assert!(shell_cmd.contains("install"));
    assert!(shell_cmd.contains("--save"));
}

#[test]
fn test_escape_command_powershell() {
    assert_eq!(escape_command_powershell("simple"), "simple");
    assert_eq!(escape_command_powershell("with space"), "'with space'");
    assert_eq!(escape_command_powershell("with'quote"), "'with''quote'");
    assert_eq!(escape_command_powershell("'already quoted'"), "'already quoted'");
}

#[test]
fn test_escape_argument_powershell() {
    assert_eq!(escape_argument_powershell("simple"), "simple");
    assert_eq!(escape_argument_powershell("with space"), "'with space'");
    assert_eq!(escape_argument_powershell("$variable"), "'$variable'");
    assert_eq!(escape_argument_powershell("with|pipe"), "'with|pipe'");
    assert_eq!(escape_argument_powershell("with'quote"), "'with''quote'");
}

#[test]
fn test_shell_type_default() {
    assert_eq!(ShellType::default(), ShellType::Cmd);
}

#[test]
fn test_executable_detection() {
    assert!(is_executable("program.exe"));
    assert!(is_executable("program.com"));
    assert!(!is_executable("script.bat"));
    assert!(!is_executable("script.js"));
}

#[test]
fn test_cmd_shim_detection() {
    assert!(is_cmd_shim("node_modules/.bin/eslint.cmd"));
    assert!(is_cmd_shim("node_modules\\.bin\\prettier.cmd"));
    assert!(!is_cmd_shim("node_modules/.bin/eslint"));
    assert!(!is_cmd_shim("regular.cmd"));
}
