//! Normalizes process launches on Windows: decides whether a target can be
//! started directly or has to go through `cmd.exe` or PowerShell, and builds
//! the quoted command line for the interpreter.

pub mod text;
pub mod quoting;
pub mod cmd;
pub mod powershell;
pub mod classify;
pub mod shebang;
pub mod dispatch;

pub use dispatch::{parse_non_shell, parse_powershell_core, parse_shell_with_type, ShellType};
pub use classify::{is_cmd_shim, is_executable};
pub use cmd::{escape_argument_cmd, escape_command};
pub use powershell::{escape_argument_powershell, escape_command_powershell};
pub use shebang::{detect_shebang, read_interpreter};
