use mea::xtask::command::CommandLine;
use mea::xtask::command::make_build_cmd;
use mea::xtask::command::make_check_cmd;
use mea::xtask::command::make_clippy_cmd;
use mea::xtask::command::make_format_cmd;
use mea::xtask::command::make_install_cmd;
use mea::xtask::command::make_test_cmd;
use mea::xtask::command::make_ui_test_cmd;
use mea::xtask::package::Package;
use mea::xtask::package::mea_features;
use mea::xtask::package::mea_package;
use mea::xtask::plan::Command;
use mea::xtask::plan::CommandBuild;
use mea::xtask::plan::CommandCheck;
use mea::xtask::plan::CommandLint;
use mea::xtask::plan::CommandTest;
use mea::xtask::plan::CommandTestUi;
use mea::xtask::plan::Step;
use mea::xtask::plan::SubCommand;
use mea::xtask::plan::make_hawkeye_cmd;
use mea::xtask::plan::make_taplo_cmd;
use mea::xtask::plan::make_typos_cmd;
use mea::xtask::runner::Action;
use mea::xtask::runner::Outcome;
use mea::xtask::runner::Phase;
use mea::xtask::runner::Runner;
use mea::xtask::text::is_le;

fn strings(texts: &[&str]) -> Vec<String> {
    texts.iter().map(|text| text.to_string()).collect()
}

fn package(name: &str, features: &[&str], rust_version: Option<&str>) -> Package {
    Package {
        name: name.to_string(),
        features: strings(features),
        rust_version: rust_version.map(|version| version.to_string()),
    }
}

fn check(cmd: &CommandLine, program: &str, args: &[&str], envs: &[(&str, &str)]) {
    assert_eq!(cmd.program, program);
    assert_eq!(cmd.args, strings(args));
    let expected: Vec<(String, String)> = envs
        .iter()
        .map(|(name, value)| (name.to_string(), value.to_string()))
        .collect();
    assert_eq!(cmd.envs, expected);
}

fn command(step: &Step) -> &CommandLine {
    match step {
        Step::Run(cmd) => cmd,
        Step::EnsureInstalled { .. } => panic!("expected a command"),
    }
}

fn install(step: &Step) -> (&str, &str) {
    match step {
        Step::EnsureInstalled { bin, crate_name } => (bin.as_str(), crate_name.as_str()),
        Step::Run(_) => panic!("expected an installation"),
    }
}

#[test]
fn build_command() {
    let args = [
        "build",
        "--workspace",
        "--all-features",
        "--tests",
        "--examples",
        "--benches",
        "--bins",
        "--locked",
    ];
    check(&make_build_cmd(true), "cargo", &args, &[]);
    check(&make_build_cmd(false), "cargo", &args[..7], &[]);
}

#[test]
fn test_command() {
    check(
        &make_test_cmd(true, &strings(&["a", "b"])),
        "cargo",
        &[
            "test",
            "--workspace",
            "--no-default-features",
            "--features",
            "mea/a",
            "--features",
            "mea/b",
            "--",
            "--nocapture",
            "--test-threads=1",
        ],
        &[],
    );
    check(
        &make_test_cmd(false, &[]),
        "cargo",
        &["test", "--workspace", "--no-default-features"],
        &[],
    );
}

#[test]
fn ui_test_command() {
    let cmd = make_ui_test_cmd(&strings(&["a"]), "1.85.0", true);
    let args = [
        "+1.85.0",
        "test",
        "--package",
        "mea",
        "--no-default-features",
        "--features",
        "a",
        "--test",
        "mutex_ui",
        "--test",
        "rwlock_ui",
        "--",
        "--ignored",
    ];
    check(&cmd, "cargo", &args, &[("TRYBUILD", "overwrite")]);
    let cmd = make_ui_test_cmd(&strings(&["a"]), "1.85.0", false);
    check(&cmd, "cargo", &args, &[]);
}

#[test]
fn check_command() {
    check(
        &make_check_cmd(&strings(&["x", "y"])),
        "cargo",
        &[
            "+nightly",
            "check",
            "--package",
            "mea",
            "--all-targets",
            "--no-default-features",
            "--features",
            "x",
            "--features",
            "y",
        ],
        &[("RUSTFLAGS", "-Dwarnings")],
    );
}

#[test]
fn format_command() {
    check(&make_format_cmd(true), "cargo", &["+nightly", "fmt", "--all"], &[]);
    check(
        &make_format_cmd(false),
        "cargo",
        &["+nightly", "fmt", "--all", "--check"],
        &[],
    );
}

#[test]
fn clippy_command() {
    check(
        &make_clippy_cmd(true),
        "cargo",
        &[
            "+nightly",
            "clippy",
            "--tests",
            "--all-features",
            "--all-targets",
            "--workspace",
            "--allow-staged",
            "--allow-dirty",
            "--fix",
        ],
        &[],
    );
    check(
        &make_clippy_cmd(false),
        "cargo",
        &[
            "+nightly",
            "clippy",
            "--tests",
            "--all-features",
            "--all-targets",
            "--workspace",
            "--",
            "-D",
            "warnings",
        ],
        &[],
    );
}

#[test]
fn tool_commands_see_to_their_programs() {
    let steps = make_hawkeye_cmd(true);
    assert_eq!(steps.len(), 2);
    assert_eq!(install(&steps[0]), ("hawkeye", "hawkeye"));
    check(command(&steps[1]), "hawkeye", &["format", "--fail-if-updated=false"], &[]);
    check(command(&make_hawkeye_cmd(false)[1]), "hawkeye", &["check"], &[]);
    let steps = make_typos_cmd();
    assert_eq!(steps.len(), 2);
    assert_eq!(install(&steps[0]), ("typos", "typos-cli"));
    check(command(&steps[1]), "typos", &[], &[]);
    let steps = make_taplo_cmd(true);
    assert_eq!(steps.len(), 2);
    assert_eq!(install(&steps[0]), ("taplo", "taplo-cli"));
    check(command(&steps[1]), "taplo", &["format"], &[]);
    check(command(&make_taplo_cmd(false)[1]), "taplo", &["format", "--check"], &[]);
    check(&make_install_cmd("typos-cli"), "cargo", &["install", "typos-cli"], &[]);
}

#[test]
fn strings_are_ordered_as_the_standard_library_orders_them() {
    let texts = ["", "a", "aa", "ab", "b", "Z", "mutex", "mutex2", "\u{e9}", "\u{10000}", "\u{ffff}"];
    for a in texts {
        for b in texts {
            assert_eq!(is_le(a, b), a <= b, "{a:?} {b:?}");
        }
    }
}

#[test]
fn features_are_sorted_and_without_default() {
    let p = package("mea", &["semaphore", "default", "barrier", "mutex"], None);
    assert_eq!(mea_features(&p), strings(&["barrier", "mutex", "semaphore"]));
    assert_eq!(mea_features(&package("mea", &["default"], None)), strings(&[]));
    assert_eq!(mea_features(&package("mea", &[], None)), strings(&[]));
}

#[test]
fn first_package_of_the_name_is_taken() {
    let found = mea_package(vec![
        package("other", &[], None),
        package("mea", &["a"], Some("1.85.0")),
        package("mea", &["b"], None),
    ]);
    let found = found.expect("there is one");
    assert_eq!(found.name, "mea");
    assert_eq!(found.features, strings(&["a"]));
    assert_eq!(found.rust_version, Some("1.85.0".to_string()));
    assert!(mea_package(vec![package("other", &[], None)]).is_none());
}

#[test]
fn check_task_goes_through_the_feature_matrix() {
    let base = [
        "+nightly",
        "check",
        "--package",
        "mea",
        "--all-targets",
        "--no-default-features",
    ];
    let envs = [("RUSTFLAGS", "-Dwarnings")];
    let with = |features: &[&str]| -> Vec<String> {
        let mut args = strings(&base);
        for feature in features {
            args.push("--features".to_string());
            args.push(feature.to_string());
        }
        args
    };
    let steps = CommandCheck {}.run(&package("mea", &["b", "default", "a"], None));
    assert_eq!(steps.len(), 4);
    check(command(&steps[0]), "cargo", &base, &envs);
    assert_eq!(command(&steps[1]).args, with(&["a"]));
    assert_eq!(command(&steps[2]).args, with(&["b"]));
    assert_eq!(command(&steps[3]).args, with(&["a", "b"]));
    let steps = CommandCheck {}.run(&package("mea", &["a"], None));
    assert_eq!(steps.len(), 2);
    let steps = CommandCheck {}.run(&package("mea", &[], None));
    assert_eq!(steps.len(), 1);
}

#[test]
fn distinct_features_ascend_and_are_checked_once() {
    let p = package("mea", &["once", "mutex", "default", "mutex2", "Barrier", "latch"], None);
    let features = mea_features(&p);
    assert_eq!(features.len(), 5);
    for pair in features.windows(2) {
        assert!(pair[0] < pair[1]);
    }
    let steps = CommandCheck {}.run(&p);
    assert_eq!(steps.len(), 7);
    for i in 0..steps.len() {
        for j in 0..i {
            assert_ne!(command(&steps[i]).args, command(&steps[j]).args);
        }
    }
}

#[test]
fn lint_task_runs_five_commands() {
    let steps = CommandLint { fix: false }.run();
    assert_eq!(steps.len(), 8);
    assert_eq!(command(&steps[0]).args[1], "clippy");
    assert_eq!(command(&steps[1]).args[1], "fmt");
    assert_eq!(install(&steps[2]).0, "taplo");
    assert_eq!(command(&steps[3]).program, "taplo");
    assert_eq!(install(&steps[4]).0, "typos");
    assert_eq!(command(&steps[5]).program, "typos");
    assert_eq!(install(&steps[6]).0, "hawkeye");
    assert_eq!(command(&steps[7]).program, "hawkeye");
}

#[test]
fn tasks_are_dispatched() {
    let p = package("mea", &["a"], Some("1.85.0"));
    let build = Command { sub: SubCommand::Build(CommandBuild { locked: true }) };
    assert!(!build.needs_package());
    let steps = build.run(None).expect("no package is needed");
    assert_eq!(command(&steps[0]).args.last(), Some(&"--locked".to_string()));
    let lint = Command { sub: SubCommand::Lint(CommandLint { fix: true }) };
    assert!(!lint.needs_package());
    assert_eq!(lint.run(Some(&p)).expect("steps").len(), 8);
    let test = Command { sub: SubCommand::Test(CommandTest { no_capture: true }) };
    assert!(test.needs_package());
    let steps = test.run(Some(&p)).expect("steps");
    assert_eq!(steps.len(), 1);
    assert_eq!(command(&steps[0]).args[4], "mea/a");
    let matrix = Command { sub: SubCommand::Check(CommandCheck {}) };
    assert!(matrix.needs_package());
    assert!(matrix.run(None).is_none());
    let ui = Command { sub: SubCommand::TestUi(CommandTestUi { overwrite: false }) };
    assert!(ui.needs_package());
    let steps = ui.run(Some(&p)).expect("steps");
    assert_eq!(command(&steps[0]).args[0], "+1.85.0");
}

#[test]
fn ui_tests_need_a_rust_version() {
    let p = package("mea", &["a"], None);
    assert!(CommandTestUi { overwrite: true }.run(&p).is_none());
}

#[test]
fn runner_installs_what_is_missing_and_runs_the_steps() {
    let mut runner = Runner::new(make_typos_cmd());
    assert_eq!(runner.phase(), Phase::New);
    assert!(matches!(runner.advance(Outcome::Started), Action::Find(p) if p == "typos"));
    assert_eq!(runner.phase(), Phase::Probing);
    assert!(matches!(runner.advance(Outcome::Found(false)), Action::Find(p) if p == "cargo"));
    match runner.advance(Outcome::Found(true)) {
        Action::Run(cmd) => check(&cmd, "cargo", &["install", "typos-cli"], &[]),
        _ => panic!("expected a command"),
    }
    assert_eq!(runner.phase(), Phase::Installing);
    assert!(matches!(runner.advance(Outcome::Exited(true)), Action::Find(p) if p == "typos"));
    match runner.advance(Outcome::Found(true)) {
        Action::Run(cmd) => check(&cmd, "typos", &[], &[]),
        _ => panic!("expected a command"),
    }
    assert!(matches!(runner.advance(Outcome::Exited(true)), Action::Done));
    assert_eq!(runner.phase(), Phase::Over);
}

#[test]
fn runner_does_not_install_what_is_there() {
    let mut runner = Runner::new(make_typos_cmd());
    assert!(matches!(runner.advance(Outcome::Started), Action::Find(_)));
    assert!(matches!(runner.advance(Outcome::Found(true)), Action::Find(p) if p == "typos"));
    assert_eq!(runner.phase(), Phase::Finding);
    assert!(matches!(runner.advance(Outcome::Found(true)), Action::Run(_)));
    assert!(matches!(runner.advance(Outcome::Exited(true)), Action::Done));
}

#[test]
fn runner_gives_up_on_failure() {
    let mut runner = Runner::new(CommandLint { fix: false }.run());
    assert!(matches!(runner.advance(Outcome::Started), Action::Find(p) if p == "cargo"));
    assert!(matches!(runner.advance(Outcome::Found(true)), Action::Run(_)));
    assert!(matches!(runner.advance(Outcome::Exited(false)), Action::Failed));
    assert_eq!(runner.phase(), Phase::Over);
    let mut runner = Runner::new(CommandBuild { locked: false }.run());
    assert!(matches!(runner.advance(Outcome::Started), Action::Find(_)));
    assert!(matches!(runner.advance(Outcome::Found(false)), Action::NotFound(p) if p == "cargo"));
    let mut runner = Runner::new(make_typos_cmd());
    assert!(matches!(runner.advance(Outcome::Started), Action::Find(_)));
    assert!(matches!(runner.advance(Outcome::Found(false)), Action::Find(_)));
    assert!(matches!(runner.advance(Outcome::Found(false)), Action::NotFound(p) if p == "cargo"));
    let mut runner = Runner::new(make_typos_cmd());
    assert!(matches!(runner.advance(Outcome::Started), Action::Find(_)));
    assert!(matches!(runner.advance(Outcome::Found(false)), Action::Find(_)));
    assert!(matches!(runner.advance(Outcome::Found(true)), Action::Run(_)));
    assert!(matches!(runner.advance(Outcome::Exited(false)), Action::Failed));
}

#[test]
fn runner_without_steps_is_done() {
    let mut runner = Runner::new(Vec::new());
    assert!(matches!(runner.advance(Outcome::Started), Action::Done));
    assert_eq!(runner.phase(), Phase::Over);
}
