//! The commands that tasks run.

use vstd::prelude::*;
use vstd::string::*;

use crate::xtask::text::texts;

verus! {

/// A program, with what it is started with.
#[derive(Debug)]
pub struct CommandLine {
    /// The name of the program.
    pub program: String,
    /// Its arguments, in order.
    pub args: Vec<String>,
    /// The environment variables that are set for it, in the order in which they are set.
    pub envs: Vec<(String, String)>,
}

/// What a [`CommandLine`] says.
#[verifier::ext_equal]
pub struct CommandView {
    pub program: Seq<char>,
    pub args: Seq<Seq<char>>,
    pub envs: Seq<(Seq<char>, Seq<char>)>,
}

impl View for CommandLine {
    type V = CommandView;

    open spec fn view(&self) -> CommandView {
        CommandView {
            program: self.program@,
            args: texts(self.args@),
            envs: Seq::new(self.envs@.len(), |i: int| (self.envs@[i].0@, self.envs@[i].1@)),
        }
    }
}

/// `program` with `args`, without environment variables.
pub open spec fn plain(program: Seq<char>, args: Seq<Seq<char>>) -> CommandView {
    CommandView { program, args, envs: Seq::empty() }
}

impl CommandLine {
    /// `program` without arguments and environment variables.
    pub fn new(program: &str) -> (cmd: Self)
        ensures
            cmd@ == plain(program@, Seq::empty()),
    {
        let cmd = CommandLine {
            program: program.to_owned(),
            args: Vec::new(),
            envs: Vec::new(),
        };
        assert(cmd@ =~= plain(program@, Seq::empty()));
        cmd
    }

    /// Adds an argument.
    pub fn arg(&mut self, text: &str)
        ensures
            final(self)@ == (CommandView { args: old(self)@.args.push(text@), ..old(self)@ }),
    {
        self.args.push(text.to_owned());
        assert(self@ =~= CommandView { args: old(self)@.args.push(text@), ..old(self)@ });
    }

    /// Sets an environment variable.
    pub fn env(&mut self, name: &str, value: &str)
        ensures
            final(self)@ == (CommandView {
                envs: old(self)@.envs.push((name@, value@)),
                ..old(self)@
            }),
    {
        self.envs.push((name.to_owned(), value.to_owned()));
        assert(self@ =~= CommandView {
            envs: old(self)@.envs.push((name@, value@)),
            ..old(self)@
        });
    }

    /// Adds `--features` with each of `features`, which `prefix` goes before.
    fn features(&mut self, prefix: &str, features: &[String])
        ensures
            final(self)@ == (CommandView {
                args: old(self)@.args + feature_args(prefixed(prefix@, texts(features@))),
                ..old(self)@
            }),
    {
        let mut i: usize = 0;
        let ghost names = prefixed(prefix@, texts(features@));
        assert(self@ =~= CommandView {
            args: old(self)@.args + feature_args(names.take(0)),
            ..old(self)@
        });
        while i < features.len()
            invariant
                i <= features.len(),
                names == prefixed(prefix@, texts(features@)),
                self@ == (CommandView {
                    args: old(self)@.args + feature_args(names.take(i as int)),
                    ..old(self)@
                }),
            decreases features.len() - i,
        {
            let mut name: String = prefix.to_owned();
            name.append(features[i].as_str());
            self.arg("--features");
            self.arg(name.as_str());
            proof {
                assert(feature_args(names.take(i + 1)) =~= feature_args(names.take(i as int)).push(
                    "--features"@,
                ).push(names[i as int]));
                assert(self@ =~= CommandView {
                    args: old(self)@.args + feature_args(names.take(i + 1)),
                    ..old(self)@
                });
            }
            i = i + 1;
        }
        assert(names.take(i as int) =~= names);
    }
}

/// `--features` with each of `names`.
pub open spec fn feature_args(names: Seq<Seq<char>>) -> Seq<Seq<char>> {
    Seq::new(
        2 * names.len(),
        |i: int|
            if i % 2 == 0 {
                "--features"@
            } else {
                names[i / 2]
            },
    )
}

/// Each of `names`, which `prefix` goes before.
pub open spec fn prefixed(prefix: Seq<char>, names: Seq<Seq<char>>) -> Seq<Seq<char>> {
    Seq::new(names.len(), |i: int| prefix + names[i])
}

/// Nothing goes before a name where the prefix is empty.
proof fn lemma_prefixed_empty(names: Seq<Seq<char>>)
    ensures
        prefixed(""@, names) == names,
{
    reveal_strlit("");
    assert forall|i: int| 0 <= i < names.len() implies ""@ + names[i] == names[i] by {
        assert(""@ + names[i] =~= names[i]);
    }
    assert(prefixed(""@, names) =~= names);
}

/// Compiles the packages of the workspace.
pub open spec fn build_view(locked: bool) -> CommandView {
    plain(
        "cargo"@,
        seq![
            "build"@,
            "--workspace"@,
            "--all-features"@,
            "--tests"@,
            "--examples"@,
            "--benches"@,
            "--bins"@,
        ] + if locked {
            seq!["--locked"@]
        } else {
            seq![]
        },
    )
}

/// Runs the unit tests of the workspace, with `features` of mea. Where `no_capture` holds the tests
/// run serially, and their output is not captured.
pub open spec fn test_view(no_capture: bool, features: Seq<Seq<char>>) -> CommandView {
    plain(
        "cargo"@,
        seq!["test"@, "--workspace"@, "--no-default-features"@] + feature_args(
            prefixed("mea/"@, features),
        ) + if no_capture {
            seq!["--"@, "--nocapture"@, "--test-threads=1"@]
        } else {
            seq![]
        },
    )
}

/// Runs the UI tests of mea on the toolchain `rust_version`, with `features`.
pub open spec fn ui_test_view(
    features: Seq<Seq<char>>,
    rust_version: Seq<char>,
    overwrite: bool,
) -> CommandView {
    CommandView {
        program: "cargo"@,
        args: seq!["+"@ + rust_version, "test"@, "--package"@, "mea"@, "--no-default-features"@]
            + feature_args(features) + seq![
            "--test"@,
            "mutex_ui"@,
            "--test"@,
            "rwlock_ui"@,
            "--"@,
            "--ignored"@,
        ],
        envs: if overwrite {
            seq![("TRYBUILD"@, "overwrite"@)]
        } else {
            seq![]
        },
    }
}

/// Checks mea with `features`, where warnings are errors.
pub open spec fn check_view(features: Seq<Seq<char>>) -> CommandView {
    CommandView {
        program: "cargo"@,
        args: seq![
            "+nightly"@,
            "check"@,
            "--package"@,
            "mea"@,
            "--all-targets"@,
            "--no-default-features"@,
        ] + feature_args(features),
        envs: seq![("RUSTFLAGS"@, "-Dwarnings"@)],
    }
}

/// Formats the workspace, or checks how it is formatted.
pub open spec fn format_view(fix: bool) -> CommandView {
    plain(
        "cargo"@,
        seq!["+nightly"@, "fmt"@, "--all"@] + if fix {
            seq![]
        } else {
            seq!["--check"@]
        },
    )
}

/// Lints the workspace, and applies what can be applied or takes warnings for errors.
pub open spec fn clippy_view(fix: bool) -> CommandView {
    plain(
        "cargo"@,
        seq![
            "+nightly"@,
            "clippy"@,
            "--tests"@,
            "--all-features"@,
            "--all-targets"@,
            "--workspace"@,
        ] + if fix {
            seq!["--allow-staged"@, "--allow-dirty"@, "--fix"@]
        } else {
            seq!["--"@, "-D"@, "warnings"@]
        },
    )
}

/// Writes licence headers, or checks them.
pub open spec fn hawkeye_view(fix: bool) -> CommandView {
    plain(
        "hawkeye"@,
        if fix {
            seq!["format"@, "--fail-if-updated=false"@]
        } else {
            seq!["check"@]
        },
    )
}

/// Looks for typos.
pub open spec fn typos_view() -> CommandView {
    plain("typos"@, seq![])
}

/// Formats the TOML files, or checks how they are formatted.
pub open spec fn taplo_view(fix: bool) -> CommandView {
    plain(
        "taplo"@,
        if fix {
            seq!["format"@]
        } else {
            seq!["format"@, "--check"@]
        },
    )
}

/// Installs a crate.
pub open spec fn install_view(crate_name: Seq<char>) -> CommandView {
    plain("cargo"@, seq!["install"@, crate_name])
}

/// The command that compiles the packages of the workspace.
pub fn make_build_cmd(locked: bool) -> (cmd: CommandLine)
    ensures
        cmd@ == build_view(locked),
{
    let mut cmd = CommandLine::new("cargo");
    cmd.arg("build");
    cmd.arg("--workspace");
    cmd.arg("--all-features");
    cmd.arg("--tests");
    cmd.arg("--examples");
    cmd.arg("--benches");
    cmd.arg("--bins");
    if locked {
        cmd.arg("--locked");
    }
    assert(cmd@ =~= build_view(locked));
    cmd
}

/// The command that runs the unit tests of the workspace, with `features` of mea.
pub fn make_test_cmd(no_capture: bool, features: &[String]) -> (cmd: CommandLine)
    ensures
        cmd@ == test_view(no_capture, texts(features@)),
{
    let mut cmd = CommandLine::new("cargo");
    cmd.arg("test");
    cmd.arg("--workspace");
    cmd.arg("--no-default-features");
    cmd.features("mea/", features);
    if no_capture {
        cmd.arg("--");
        cmd.arg("--nocapture");
        cmd.arg("--test-threads=1");
    }
    assert(cmd@ =~= test_view(no_capture, texts(features@)));
    cmd
}

/// The command that runs the UI tests of mea on the toolchain `rust_version`, with `features`.
pub fn make_ui_test_cmd(features: &[String], rust_version: &str, overwrite: bool) -> (cmd:
    CommandLine)
    ensures
        cmd@ == ui_test_view(texts(features@), rust_version@, overwrite),
{
    let mut toolchain: String = "+".to_owned();
    toolchain.append(rust_version);
    let mut cmd = CommandLine::new("cargo");
    cmd.arg(toolchain.as_str());
    cmd.arg("test");
    cmd.arg("--package");
    cmd.arg("mea");
    cmd.arg("--no-default-features");
    cmd.features("", features);
    cmd.arg("--test");
    cmd.arg("mutex_ui");
    cmd.arg("--test");
    cmd.arg("rwlock_ui");
    cmd.arg("--");
    cmd.arg("--ignored");
    if overwrite {
        cmd.env("TRYBUILD", "overwrite");
    }
    proof {
        lemma_prefixed_empty(texts(features@));
        assert(cmd@ =~= ui_test_view(texts(features@), rust_version@, overwrite));
    }
    cmd
}

/// The command that checks mea with `features`.
pub fn make_check_cmd(features: &[String]) -> (cmd: CommandLine)
    ensures
        cmd@ == check_view(texts(features@)),
{
    let mut cmd = CommandLine::new("cargo");
    cmd.env("RUSTFLAGS", "-Dwarnings");
    cmd.arg("+nightly");
    cmd.arg("check");
    cmd.arg("--package");
    cmd.arg("mea");
    cmd.arg("--all-targets");
    cmd.arg("--no-default-features");
    cmd.features("", features);
    proof {
        lemma_prefixed_empty(texts(features@));
        assert(cmd@ =~= check_view(texts(features@)));
    }
    cmd
}

/// The command that formats the workspace, or checks how it is formatted.
pub fn make_format_cmd(fix: bool) -> (cmd: CommandLine)
    ensures
        cmd@ == format_view(fix),
{
    let mut cmd = CommandLine::new("cargo");
    cmd.arg("+nightly");
    cmd.arg("fmt");
    cmd.arg("--all");
    if !fix {
        cmd.arg("--check");
    }
    assert(cmd@ =~= format_view(fix));
    cmd
}

/// The command that lints the workspace.
pub fn make_clippy_cmd(fix: bool) -> (cmd: CommandLine)
    ensures
        cmd@ == clippy_view(fix),
{
    let mut cmd = CommandLine::new("cargo");
    cmd.arg("+nightly");
    cmd.arg("clippy");
    cmd.arg("--tests");
    cmd.arg("--all-features");
    cmd.arg("--all-targets");
    cmd.arg("--workspace");
    if fix {
        cmd.arg("--allow-staged");
        cmd.arg("--allow-dirty");
        cmd.arg("--fix");
    } else {
        cmd.arg("--");
        cmd.arg("-D");
        cmd.arg("warnings");
    }
    assert(cmd@ =~= clippy_view(fix));
    cmd
}

/// The command that installs a crate.
pub fn make_install_cmd(crate_name: &str) -> (cmd: CommandLine)
    ensures
        cmd@ == install_view(crate_name@),
{
    let mut cmd = CommandLine::new("cargo");
    cmd.arg("install");
    cmd.arg(crate_name);
    assert(cmd@ =~= install_view(crate_name@));
    cmd
}

} // verus!
