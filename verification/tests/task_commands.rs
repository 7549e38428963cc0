//! The automation tasks decide exact command lines.

use zen404::tasks::{
    xtask_build, xtask_cargo_about, xtask_check, xtask_clippy, xtask_pre_commit_install,
    xtask_pre_commit_run, xtask_taplo_format, xtask_taplo_lint, xtask_test,
};

#[test]
fn cargo_tasks_build_their_command_lines() {
    let c = xtask_check();
    assert_eq!(c.program, "cargo");
    assert_eq!(c.args, vec!["check", "--all-targets", "--all-features"]);

    let c = xtask_clippy();
    assert_eq!(c.program, "cargo");
    assert_eq!(c.args, vec!["clippy", "--all-targets", "--all-features", "--", "-D", "warnings"]);

    let c = xtask_build();
    assert_eq!(c.program, "cargo");
    assert_eq!(c.args, vec!["build", "--all-targets", "--all-features"]);

    let c = xtask_test();
    assert_eq!(c.program, "cargo");
    assert_eq!(c.args, vec!["test", "--all-targets", "--all-features", "--verbose"]);
}

#[test]
fn tool_tasks_take_resolved_paths() {
    let c = xtask_taplo_format("/home/dev/.cargo/bin/taplo");
    assert_eq!(c.program, "/home/dev/.cargo/bin/taplo");
    assert_eq!(c.args, vec!["format", "."]);

    let c = xtask_taplo_lint("taplo");
    assert_eq!(c.program, "taplo");
    assert_eq!(c.args, vec!["lint", "."]);

    let c = xtask_pre_commit_run();
    assert_eq!(c.program, "pre-commit");
    assert_eq!(c.args, vec!["run", "--all-files"]);

    let c = xtask_pre_commit_install();
    assert_eq!(c.program, "pre-commit");
    assert_eq!(c.args, vec!["install"]);

    let c = xtask_cargo_about("/dev/null");
    assert_eq!(c.program, "cargo");
    assert_eq!(c.args, vec!["about", "generate", "--format", "json", "-o", "/dev/null"]);
}
