//! The project's automation tasks, as decisions.
//!
//! Each task amounts to running one external command.  What belongs to the
//! library is the decision: which program, with which arguments.  Each
//! function here returns that command line, stated exactly in its contract;
//! executing it (process spawning, exit codes, the environment) is the
//! calling binary's business.  Tool paths that come from the environment
//! (`taplo`, the null output device) are inputs here, resolved by the
//! caller.

use vstd::prelude::*;

verus! {

/// One external command: a program and its arguments, in order.
pub struct TaskCommand {
    pub program: String,
    pub args: Vec<String>,
}

/// Checks the whole workspace: `cargo check --all-targets --all-features`.
pub fn xtask_check() -> (r: TaskCommand)
    ensures
        r.program@ == "cargo"@,
        r.args@.len() == 3,
        r.args@[0]@ == "check"@,
        r.args@[1]@ == "--all-targets"@,
        r.args@[2]@ == "--all-features"@,
{
    let mut args: Vec<String> = Vec::new();
    args.push(String::from_str("check"));
    args.push(String::from_str("--all-targets"));
    args.push(String::from_str("--all-features"));
    TaskCommand { program: String::from_str("cargo"), args }
}

/// Lints the whole workspace, warnings denied:
/// `cargo clippy --all-targets --all-features -- -D warnings`.
pub fn xtask_clippy() -> (r: TaskCommand)
    ensures
        r.program@ == "cargo"@,
        r.args@.len() == 6,
        r.args@[0]@ == "clippy"@,
        r.args@[1]@ == "--all-targets"@,
        r.args@[2]@ == "--all-features"@,
        r.args@[3]@ == "--"@,
        r.args@[4]@ == "-D"@,
        r.args@[5]@ == "warnings"@,
{
    let mut args: Vec<String> = Vec::new();
    args.push(String::from_str("clippy"));
    args.push(String::from_str("--all-targets"));
    args.push(String::from_str("--all-features"));
    args.push(String::from_str("--"));
    args.push(String::from_str("-D"));
    args.push(String::from_str("warnings"));
    TaskCommand { program: String::from_str("cargo"), args }
}

/// Formats the TOML files: `<taplo> format .`, with the tool's path
/// resolved by the caller.
pub fn xtask_taplo_format(taplo_path: &str) -> (r: TaskCommand)
    ensures
        r.program@ == taplo_path@,
        r.args@.len() == 2,
        r.args@[0]@ == "format"@,
        r.args@[1]@ == "."@,
{
    let mut args: Vec<String> = Vec::new();
    args.push(String::from_str("format"));
    args.push(String::from_str("."));
    TaskCommand { program: String::from_str(taplo_path), args }
}

/// Lints the TOML files: `<taplo> lint .`, with the tool's path resolved by
/// the caller.
pub fn xtask_taplo_lint(taplo_path: &str) -> (r: TaskCommand)
    ensures
        r.program@ == taplo_path@,
        r.args@.len() == 2,
        r.args@[0]@ == "lint"@,
        r.args@[1]@ == "."@,
{
    let mut args: Vec<String> = Vec::new();
    args.push(String::from_str("lint"));
    args.push(String::from_str("."));
    TaskCommand { program: String::from_str(taplo_path), args }
}

/// Runs the hooks on every file: `pre-commit run --all-files`.
pub fn xtask_pre_commit_run() -> (r: TaskCommand)
    ensures
        r.program@ == "pre-commit"@,
        r.args@.len() == 2,
        r.args@[0]@ == "run"@,
        r.args@[1]@ == "--all-files"@,
{
    let mut args: Vec<String> = Vec::new();
    args.push(String::from_str("run"));
    args.push(String::from_str("--all-files"));
    TaskCommand { program: String::from_str("pre-commit"), args }
}

/// Installs the hooks: `pre-commit install`.
pub fn xtask_pre_commit_install() -> (r: TaskCommand)
    ensures
        r.program@ == "pre-commit"@,
        r.args@.len() == 1,
        r.args@[0]@ == "install"@,
{
    let mut args: Vec<String> = Vec::new();
    args.push(String::from_str("install"));
    TaskCommand { program: String::from_str("pre-commit"), args }
}

/// Checks license compliance:
/// `cargo about generate --format json -o <output_target>`, with the
/// platform's null device resolved by the caller.
pub fn xtask_cargo_about(output_target: &str) -> (r: TaskCommand)
    ensures
        r.program@ == "cargo"@,
        r.args@.len() == 6,
        r.args@[0]@ == "about"@,
        r.args@[1]@ == "generate"@,
        r.args@[2]@ == "--format"@,
        r.args@[3]@ == "json"@,
        r.args@[4]@ == "-o"@,
        r.args@[5]@ == output_target@,
{
    let mut args: Vec<String> = Vec::new();
    args.push(String::from_str("about"));
    args.push(String::from_str("generate"));
    args.push(String::from_str("--format"));
    args.push(String::from_str("json"));
    args.push(String::from_str("-o"));
    args.push(String::from_str(output_target));
    TaskCommand { program: String::from_str("cargo"), args }
}

/// Builds the whole workspace: `cargo build --all-targets --all-features`.
pub fn xtask_build() -> (r: TaskCommand)
    ensures
        r.program@ == "cargo"@,
        r.args@.len() == 3,
        r.args@[0]@ == "build"@,
        r.args@[1]@ == "--all-targets"@,
        r.args@[2]@ == "--all-features"@,
{
    let mut args: Vec<String> = Vec::new();
    args.push(String::from_str("build"));
    args.push(String::from_str("--all-targets"));
    args.push(String::from_str("--all-features"));
    TaskCommand { program: String::from_str("cargo"), args }
}

/// Tests the whole workspace:
/// `cargo test --all-targets --all-features --verbose`.
pub fn xtask_test() -> (r: TaskCommand)
    ensures
        r.program@ == "cargo"@,
        r.args@.len() == 4,
        r.args@[0]@ == "test"@,
        r.args@[1]@ == "--all-targets"@,
        r.args@[2]@ == "--all-features"@,
        r.args@[3]@ == "--verbose"@,
{
    let mut args: Vec<String> = Vec::new();
    args.push(String::from_str("test"));
    args.push(String::from_str("--all-targets"));
    args.push(String::from_str("--all-features"));
    args.push(String::from_str("--verbose"));
    TaskCommand { program: String::from_str("cargo"), args }
}

} // verus!
