//! The tasks, and the steps that each consists of.

use vstd::prelude::*;

use crate::xtask::command::CommandLine;
use crate::xtask::command::CommandView;
use crate::xtask::command::build_view;
use crate::xtask::command::check_view;
use crate::xtask::command::clippy_view;
use crate::xtask::command::feature_args;
use crate::xtask::command::format_view;
use crate::xtask::command::hawkeye_view;
use crate::xtask::command::make_build_cmd;
use crate::xtask::command::make_check_cmd;
use crate::xtask::command::make_clippy_cmd;
use crate::xtask::command::make_format_cmd;
use crate::xtask::command::make_test_cmd;
use crate::xtask::command::make_ui_test_cmd;
use crate::xtask::command::taplo_view;
use crate::xtask::command::test_view;
use crate::xtask::command::typos_view;
use crate::xtask::command::ui_test_view;
use crate::xtask::package::Package;
use crate::xtask::package::feature_list;
use crate::xtask::package::law_feature_list_ascends;
use crate::xtask::package::mea_features;
use crate::xtask::text::texts;

verus! {

/// A step of a task.
#[derive(Debug)]
pub enum Step {
    /// Installs `crate_name` where there is no program `bin`.
    EnsureInstalled { bin: String, crate_name: String },
    /// Runs a command.
    Run(CommandLine),
}

/// What a [`Step`] says.
pub enum StepView {
    EnsureInstalled { bin: Seq<char>, crate_name: Seq<char> },
    Run(CommandView),
}

impl View for Step {
    type V = StepView;

    open spec fn view(&self) -> StepView {
        match *self {
            Step::EnsureInstalled { bin, crate_name } => StepView::EnsureInstalled {
                bin: bin@,
                crate_name: crate_name@,
            },
            Step::Run(cmd) => StepView::Run(cmd@),
        }
    }
}

/// What each of `steps` says.
pub open spec fn plan(steps: Seq<Step>) -> Seq<StepView> {
    Seq::new(steps.len(), |i: int| steps[i]@)
}

/// Adds `step` to `steps`.
fn add_step(steps: &mut Vec<Step>, step: Step)
    ensures
        plan(final(steps)@) == plan(old(steps)@).push(step@),
{
    steps.push(step);
    assert(plan(steps@) =~= plan(old(steps)@).push(step@));
}

/// The steps of the program `bin`, which `crate_name` installs, with what it is to do.
pub open spec fn tool_plan(
    bin: Seq<char>,
    crate_name: Seq<char>,
    cmd: CommandView,
) -> Seq<StepView> {
    seq![StepView::EnsureInstalled { bin, crate_name }, StepView::Run(cmd)]
}

/// Adds the step that sees to it that there is a program `bin`, and the step that runs `cmd`.
fn add_tool(steps: &mut Vec<Step>, bin: &str, crate_name: &str, cmd: CommandLine)
    ensures
        plan(final(steps)@) == plan(old(steps)@) + tool_plan(bin@, crate_name@, cmd@),
{
    add_step(
        steps,
        Step::EnsureInstalled { bin: bin.to_owned(), crate_name: crate_name.to_owned() },
    );
    add_step(steps, Step::Run(cmd));
    assert(plan(steps@) =~= plan(old(steps)@) + tool_plan(bin@, crate_name@, cmd@));
}

/// The steps that write licence headers, or check them.
pub fn make_hawkeye_cmd(fix: bool) -> (steps: Vec<Step>)
    ensures
        plan(steps@) == tool_plan("hawkeye"@, "hawkeye"@, hawkeye_view(fix)),
{
    let mut cmd = CommandLine::new("hawkeye");
    if fix {
        cmd.arg("format");
        cmd.arg("--fail-if-updated=false");
    } else {
        cmd.arg("check");
    }
    assert(cmd@ =~= hawkeye_view(fix));
    let mut steps: Vec<Step> = Vec::new();
    add_tool(&mut steps, "hawkeye", "hawkeye", cmd);
    assert(plan(steps@) =~= tool_plan("hawkeye"@, "hawkeye"@, hawkeye_view(fix)));
    steps
}

/// The steps that look for typos.
pub fn make_typos_cmd() -> (steps: Vec<Step>)
    ensures
        plan(steps@) == tool_plan("typos"@, "typos-cli"@, typos_view()),
{
    let cmd = CommandLine::new("typos");
    assert(cmd@ =~= typos_view());
    let mut steps: Vec<Step> = Vec::new();
    add_tool(&mut steps, "typos", "typos-cli", cmd);
    assert(plan(steps@) =~= tool_plan("typos"@, "typos-cli"@, typos_view()));
    steps
}

/// The steps that format the TOML files, or check how they are formatted.
pub fn make_taplo_cmd(fix: bool) -> (steps: Vec<Step>)
    ensures
        plan(steps@) == tool_plan("taplo"@, "taplo-cli"@, taplo_view(fix)),
{
    let mut cmd = CommandLine::new("taplo");
    if fix {
        cmd.arg("format");
    } else {
        cmd.arg("format");
        cmd.arg("--check");
    }
    assert(cmd@ =~= taplo_view(fix));
    let mut steps: Vec<Step> = Vec::new();
    add_tool(&mut steps, "taplo", "taplo-cli", cmd);
    assert(plan(steps@) =~= tool_plan("taplo"@, "taplo-cli"@, taplo_view(fix)));
    steps
}

/// Adds `more` to `steps`.
fn add_steps(steps: &mut Vec<Step>, more: Vec<Step>)
    ensures
        plan(final(steps)@) == plan(old(steps)@) + plan(more@),
{
    let mut rest = more;
    steps.append(&mut rest);
    assert(plan(steps@) =~= plan(old(steps)@) + plan(more@));
}

/// Compile workspace packages.
#[derive(Debug)]
pub struct CommandBuild {
    /// Assert that `Cargo.lock` will remain unchanged.
    pub locked: bool,
}

impl CommandBuild {
    /// The steps of the task.
    pub fn run(self) -> (steps: Vec<Step>)
        ensures
            plan(steps@) == seq![StepView::Run(build_view(self.locked))],
    {
        let mut steps: Vec<Step> = Vec::new();
        add_step(&mut steps, Step::Run(make_build_cmd(self.locked)));
        assert(plan(steps@) =~= seq![StepView::Run(build_view(self.locked))]);
        steps
    }
}

/// Check mea under the feature matrix.
#[derive(Debug)]
pub struct CommandCheck {}

/// The steps that check mea without features, with each of `features`, and with all of them where
/// that is something else.
pub open spec fn check_plan(features: Seq<Seq<char>>) -> Seq<StepView> {
    seq![StepView::Run(check_view(seq![]))] + Seq::new(
        features.len(),
        |i: int| StepView::Run(check_view(seq![features[i]])),
    ) + if features.len() > 1 {
        seq![StepView::Run(check_view(features))]
    } else {
        seq![]
    }
}

/// Checks of different features are different commands.
proof fn lemma_checks_differ(a: Seq<Seq<char>>, b: Seq<Seq<char>>)
    requires
        check_view(a) == check_view(b),
    ensures
        a == b,
{
    let x = check_view(a).args;
    let y = check_view(b).args;
    assert(x.len() == 6 + 2 * a.len());
    assert(y.len() == 6 + 2 * b.len());
    assert forall|i: int| 0 <= i < a.len() implies a[i] == b[i] by {
        let n = 6 + (2 * i + 1);
        assert(x[n] == feature_args(a)[2 * i + 1]);
        assert(y[n] == feature_args(b)[2 * i + 1]);
        assert((2 * i + 1) % 2 == 1 && (2 * i + 1) / 2 == i);
    }
    assert(a =~= b);
}

/// Where the names of the features are distinct, the task checks no selection of features twice.
pub proof fn law_check_plan_repeats_nothing(names: Seq<Seq<char>>)
    requires
        names.no_duplicates(),
    ensures
        check_plan(feature_list(names)).no_duplicates(),
{
    let features = feature_list(names);
    let steps = check_plan(features);
    let sets = seq![Seq::<Seq<char>>::empty()] + Seq::new(
        features.len(),
        |i: int| seq![features[i]],
    ) + if features.len() > 1 {
        seq![features]
    } else {
        seq![]
    };
    law_feature_list_ascends(names);
    assert(steps.len() == sets.len());
    assert forall|i: int| 0 <= i < steps.len() implies #[trigger] steps[i] == StepView::Run(
        check_view(sets[i]),
    ) by {}
    assert forall|i: int, j: int| 0 <= i < j < steps.len() implies #[trigger] steps[i]
        != #[trigger] steps[j] by {
        if check_view(sets[i]) == check_view(sets[j]) {
            lemma_checks_differ(sets[i], sets[j]);
            if i == 0 {
                assert(sets[i].len() == 0);
                assert(sets[j].len() > 0);
            } else {
                assert(sets[i] == seq![features[i - 1]]);
                assert(sets[i][0] == features[i - 1]);
                if j <= features.len() {
                    assert(sets[j] == seq![features[j - 1]]);
                    assert(sets[j][0] == features[j - 1]);
                } else {
                    assert(sets[j] == features);
                    assert(sets[i].len() == 1);
                }
            }
        }
    }
}

impl CommandCheck {
    /// The steps of the task.
    pub fn run(self, package: &Package) -> (steps: Vec<Step>)
        ensures
            plan(steps@) == check_plan(feature_list(texts(package.features@))),
            package.distinct_features() ==> plan(steps@).no_duplicates(),
    {
        let features = mea_features(package);
        let ghost names = texts(features@);
        let mut steps: Vec<Step> = Vec::new();
        let none: Vec<String> = Vec::new();
        assert(texts(none@) =~= seq![]);
        add_step(&mut steps, Step::Run(make_check_cmd(none.as_slice())));
        let ghost single = |n: nat|
            Seq::new(n, |i: int| StepView::Run(check_view(seq![names[i]])));
        let ghost first = seq![StepView::Run(check_view(seq![]))];
        let mut i: usize = 0;
        assert(plan(steps@) =~= first + single(0));
        while i < features.len()
            invariant
                i <= features.len(),
                names == texts(features@),
                single == (|n: nat|
                    Seq::new(n, |i: int| StepView::Run(check_view(seq![names[i]])))),
                plan(steps@) == first + single(i as nat),
            decreases features.len() - i,
        {
            let mut one: Vec<String> = Vec::new();
            one.push(features[i].clone());
            assert(texts(one@) =~= seq![names[i as int]]);
            add_step(&mut steps, Step::Run(make_check_cmd(one.as_slice())));
            assert(plan(steps@) =~= first + single((i + 1) as nat));
            i = i + 1;
        }
        if features.len() > 1 {
            add_step(&mut steps, Step::Run(make_check_cmd(features.as_slice())));
        }
        assert(plan(steps@) =~= check_plan(names));
        proof {
            if package.distinct_features() {
                law_check_plan_repeats_nothing(texts(package.features@));
            }
        }
        steps
    }
}

/// Run unit tests.
#[derive(Debug)]
pub struct CommandTest {
    /// Run tests serially and do not capture output.
    pub no_capture: bool,
}

impl CommandTest {
    /// The steps of the task.
    pub fn run(self, package: &Package) -> (steps: Vec<Step>)
        ensures
            plan(steps@) == seq![
                StepView::Run(
                    test_view(self.no_capture, feature_list(texts(package.features@))),
                ),
            ],
    {
        let features = mea_features(package);
        let mut steps: Vec<Step> = Vec::new();
        add_step(&mut steps, Step::Run(make_test_cmd(self.no_capture, features.as_slice())));
        assert(plan(steps@) =~= seq![
            StepView::Run(test_view(self.no_capture, feature_list(texts(package.features@)))),
        ]);
        steps
    }
}

/// Run UI tests on the MSRV toolchain.
#[derive(Debug)]
pub struct CommandTestUi {
    /// Overwrite expected compiler diagnostics.
    pub overwrite: bool,
}

impl CommandTestUi {
    /// The steps of the task. mea must declare its minimum supported Rust version: where it does
    /// not, there are none.
    pub fn run(self, package: &Package) -> (steps: Option<Vec<Step>>)
        ensures
            match package.rust_version {
                Some(version) => steps matches Some(v) && plan(v@) == seq![
                    StepView::Run(
                        ui_test_view(
                            feature_list(texts(package.features@)),
                            version@,
                            self.overwrite,
                        ),
                    ),
                ],
                None => steps is None,
            },
    {
        let features = mea_features(package);
        match &package.rust_version {
            Some(version) => {
                let cmd = make_ui_test_cmd(
                    features.as_slice(),
                    version.as_str(),
                    self.overwrite,
                );
                let mut steps: Vec<Step> = Vec::new();
                add_step(&mut steps, Step::Run(cmd));
                assert(plan(steps@) =~= seq![
                    StepView::Run(
                        ui_test_view(
                            feature_list(texts(package.features@)),
                            version@,
                            self.overwrite,
                        ),
                    ),
                ]);
                Some(steps)
            },
            None => None,
        }
    }
}

/// Run format and clippy checks.
#[derive(Debug)]
pub struct CommandLint {
    /// Automatically apply lint suggestions.
    pub fix: bool,
}

/// The steps that lint the workspace.
pub open spec fn lint_plan(fix: bool) -> Seq<StepView> {
    seq![StepView::Run(clippy_view(fix)), StepView::Run(format_view(fix))] + tool_plan(
        "taplo"@,
        "taplo-cli"@,
        taplo_view(fix),
    ) + tool_plan("typos"@, "typos-cli"@, typos_view()) + tool_plan(
        "hawkeye"@,
        "hawkeye"@,
        hawkeye_view(fix),
    )
}

impl CommandLint {
    /// The steps of the task.
    pub fn run(self) -> (steps: Vec<Step>)
        ensures
            plan(steps@) == lint_plan(self.fix),
    {
        let mut steps: Vec<Step> = Vec::new();
        add_step(&mut steps, Step::Run(make_clippy_cmd(self.fix)));
        add_step(&mut steps, Step::Run(make_format_cmd(self.fix)));
        add_steps(&mut steps, make_taplo_cmd(self.fix));
        add_steps(&mut steps, make_typos_cmd());
        add_steps(&mut steps, make_hawkeye_cmd(self.fix));
        assert(plan(steps@) =~= lint_plan(self.fix));
        steps
    }
}

/// A task.
#[derive(Debug)]
pub enum SubCommand {
    /// Compile workspace packages.
    Build(CommandBuild),
    /// Check mea under the feature matrix.
    Check(CommandCheck),
    /// Run format and clippy checks.
    Lint(CommandLint),
    /// Run unit tests.
    Test(CommandTest),
    /// Run UI tests on the MSRV toolchain.
    TestUi(CommandTestUi),
}

/// What the task runner is told to do.
#[derive(Debug)]
pub struct Command {
    /// The task.
    pub sub: SubCommand,
}

impl Command {
    /// Whether the task depends on the package mea.
    pub fn needs_package(&self) -> (needs: bool)
        ensures
            needs <==> self.sub is Check || self.sub is Test || self.sub is TestUi,
    {
        match &self.sub {
            SubCommand::Build(_) => false,
            SubCommand::Check(_) => true,
            SubCommand::Lint(_) => false,
            SubCommand::Test(_) => true,
            SubCommand::TestUi(_) => true,
        }
    }

    /// The steps of the task. There are none where the task depends on the package mea and there is
    /// no package, or on the Rust version that mea declares and it declares none.
    pub fn run(self, package: Option<&Package>) -> (steps: Option<Vec<Step>>)
        ensures
            match (self.sub, package) {
                (SubCommand::Build(cmd), _) => steps matches Some(v) && plan(v@) == seq![
                    StepView::Run(build_view(cmd.locked)),
                ],
                (SubCommand::Lint(cmd), _) => steps matches Some(v) && plan(v@) == lint_plan(cmd.fix),
                (SubCommand::Check(_), Some(p)) => steps matches Some(v) && plan(v@) == check_plan(
                    feature_list(texts(p.features@)),
                ),
                (SubCommand::Test(cmd), Some(p)) => steps matches Some(v) && plan(v@) == seq![
                    StepView::Run(test_view(cmd.no_capture, feature_list(texts(p.features@)))),
                ],
                (SubCommand::TestUi(cmd), Some(p)) => match p.rust_version {
                    Some(version) => steps matches Some(v) && plan(v@) == seq![
                        StepView::Run(
                            ui_test_view(
                                feature_list(texts(p.features@)),
                                version@,
                                cmd.overwrite,
                            ),
                        ),
                    ],
                    None => steps is None,
                },
                (_, None) => steps is None,
            },
    {
        match (self.sub, package) {
            (SubCommand::Build(cmd), _) => Some(cmd.run()),
            (SubCommand::Lint(cmd), _) => Some(cmd.run()),
            (SubCommand::Check(cmd), Some(package)) => Some(cmd.run(package)),
            (SubCommand::Test(cmd), Some(package)) => Some(cmd.run(package)),
            (SubCommand::TestUi(cmd), Some(package)) => cmd.run(package),
            (_, None) => None,
        }
    }
}

} // verus!
