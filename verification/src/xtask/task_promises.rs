//! What the tasks promise of the package that they are about and of their steps.

use vstd::prelude::*;

use crate::xtask::command::CommandLine;
use crate::xtask::command::make_build_cmd;
use crate::xtask::command::make_clippy_cmd;
use crate::xtask::command::make_format_cmd;
use crate::xtask::command::make_test_cmd;
use crate::xtask::command::make_ui_test_cmd;
use crate::xtask::package::Package;
use crate::xtask::package::feature_list;
use crate::xtask::package::law_feature_list_is_sorted;
use crate::xtask::package::mea_features;
use crate::xtask::package::mea_package;
use crate::xtask::plan::Command;
use crate::xtask::plan::CommandBuild;
use crate::xtask::plan::CommandCheck;
use crate::xtask::plan::CommandLint;
use crate::xtask::plan::CommandTest;
use crate::xtask::plan::CommandTestUi;
use crate::xtask::plan::Step;
use crate::xtask::plan::SubCommand;
use crate::xtask::plan::check_plan;
use crate::xtask::plan::make_hawkeye_cmd;
use crate::xtask::plan::make_taplo_cmd;
use crate::xtask::plan::make_typos_cmd;
use crate::xtask::plan::plan;
use crate::xtask::promises::arg;
use crate::xtask::promises::checks;
use crate::xtask::promises::has_arg;
use crate::xtask::promises::law_test_command;
use crate::xtask::promises::lemma_checks;
use crate::xtask::promises::lemma_fields;
use crate::xtask::promises::lemma_fix_words;
use crate::xtask::promises::lemma_pairs;
use crate::xtask::promises::same_command;
use crate::xtask::promises::starts;
use crate::xtask::text::is_le;
use crate::xtask::text::text_le;
use crate::xtask::text::text_order;
use crate::xtask::text::texts;

verus! {

/// `step` runs `cmd`.
pub open spec fn runs(step: Step, cmd: CommandLine) -> bool {
    step matches Step::Run(c) && same_command(c, cmd)
}

/// `step` installs `crate_name` where there is no program `bin`.
pub open spec fn provides(step: Step, bin: Seq<char>, crate_name: Seq<char>) -> bool {
    step matches Step::EnsureInstalled { bin: b, crate_name: c } && b@ == bin && c@ == crate_name
}

/// `a` and `b` are the same step.
pub open spec fn same_step(a: Step, b: Step) -> bool {
    match b {
        Step::Run(cmd) => runs(a, cmd),
        Step::EnsureInstalled { bin, crate_name } => provides(a, bin@, crate_name@),
    }
}

/// `a` and `b` are the same steps.
pub open spec fn same_steps(a: Seq<Step>, b: Seq<Step>) -> bool {
    &&& a.len() == b.len()
    &&& forall|i: int| 0 <= i < a.len() ==> same_step(#[trigger] a[i], b[i])
}

/// Commands that say the same are the same.
pub(crate) proof fn lemma_same_command(a: CommandLine, b: CommandLine)
    requires
        a@ == b@,
    ensures
        same_command(a, b),
{
    lemma_fields(a);
    lemma_fields(b);
    assert forall|i: int| 0 <= i < a.args@.len() implies #[trigger] arg(a, i) == arg(b, i) by {
        assert(arg(b, i) == b@.args[i]);
    }
    assert forall|i: int| #![trigger a.envs@[i]] 0 <= i < a.envs@.len() implies a.envs@[i].0@
        == b.envs@[i].0@ && a.envs@[i].1@ == b.envs@[i].1@ by {
        assert(a@.envs[i] == (a.envs@[i].0@, a.envs@[i].1@));
        assert(b@.envs[i] == (b.envs@[i].0@, b.envs@[i].1@));
    }
}

/// Steps that say the same are the same.
proof fn lemma_same_step(a: Step, b: Step)
    requires
        a@ == b@,
    ensures
        same_step(a, b),
{
    if let Step::Run(c) = a {
        if let Step::Run(d) = b {
            lemma_same_command(c, d);
        }
    }
}

/// Plans that say the same are the same.
proof fn lemma_same_steps(a: Seq<Step>, b: Seq<Step>)
    requires
        plan(a) == plan(b),
    ensures
        same_steps(a, b),
{
    assert(plan(a).len() == a.len() && plan(b).len() == b.len());
    assert forall|i: int| 0 <= i < a.len() implies same_step(#[trigger] a[i], b[i]) by {
        assert(plan(a)[i] == a[i]@);
        assert(plan(b)[i] == b[i]@);
        lemma_same_step(a[i], b[i]);
    }
}

/// A part of a plan that says what another plan says is that plan.
proof fn lemma_part(steps: Seq<Step>, i: int, part: Seq<Step>)
    requires
        0 <= i,
        i + 2 <= steps.len(),
        plan(part).len() == 2,
        plan(steps)[i] == plan(part)[0],
        plan(steps)[i + 1] == plan(part)[1],
    ensures
        same_steps(steps.subrange(i, i + 2), part),
{
    let p = steps.subrange(i, i + 2);
    assert(p.len() == 2);
    assert(p[0] == steps[i] && p[1] == steps[i + 1]);
    assert(plan(p).len() == 2 && plan(part).len() == part.len());
    assert(plan(p)[0] == plan(steps)[i] && plan(p)[1] == plan(steps)[i + 1]);
    assert(plan(p) =~= plan(part));
    lemma_same_steps(p, part);
}

/// [`make_hawkeye_cmd`] sees to it that there is hawkeye, and has it write licence headers or check
/// them.
pub proof fn law_hawkeye(fixing: Vec<Step>, checking: Vec<Step>)
    requires
        call_ensures(make_hawkeye_cmd, (true,), fixing),
        call_ensures(make_hawkeye_cmd, (false,), checking),
    ensures
        fixing@.len() == 2 && checking@.len() == 2,
        provides(fixing@[0], "hawkeye"@, "hawkeye"@),
        provides(checking@[0], "hawkeye"@, "hawkeye"@),
        fixing@[1] matches Step::Run(cmd) && starts(cmd, "hawkeye"@) && cmd.args@.len() == 2 && arg(
            cmd,
            0,
        ) == "format"@ && arg(cmd, 1) == "--fail-if-updated=false"@,
        checking@[1] matches Step::Run(cmd) && starts(cmd, "hawkeye"@) && cmd.args@.len() == 1
            && arg(cmd, 0) == "check"@,
{
    assert(plan(fixing@).len() == 2 && plan(checking@).len() == 2);
    assert(plan(fixing@)[0] == fixing@[0]@ && plan(fixing@)[1] == fixing@[1]@);
    assert(plan(checking@)[0] == checking@[0]@ && plan(checking@)[1] == checking@[1]@);
    lemma_fields(fixing@[1]->Run_0);
    lemma_fields(checking@[1]->Run_0);
}

/// [`make_typos_cmd`] sees to it that there is typos, and runs it as it is.
pub proof fn law_typos(steps: Vec<Step>)
    requires
        call_ensures(make_typos_cmd, (), steps),
    ensures
        steps@.len() == 2,
        provides(steps@[0], "typos"@, "typos-cli"@),
        steps@[1] matches Step::Run(cmd) && starts(cmd, "typos"@) && cmd.args@.len() == 0,
{
    assert(plan(steps@).len() == 2);
    assert(plan(steps@)[0] == steps@[0]@ && plan(steps@)[1] == steps@[1]@);
    lemma_fields(steps@[1]->Run_0);
}

/// [`make_taplo_cmd`] sees to it that there is taplo, and has it format, or adds `--check` and changes
/// nothing.
pub proof fn law_taplo(fixing: Vec<Step>, checking: Vec<Step>)
    requires
        call_ensures(make_taplo_cmd, (true,), fixing),
        call_ensures(make_taplo_cmd, (false,), checking),
    ensures
        fixing@.len() == 2 && checking@.len() == 2,
        provides(fixing@[0], "taplo"@, "taplo-cli"@),
        provides(checking@[0], "taplo"@, "taplo-cli"@),
        fixing@[1] matches Step::Run(cmd) && starts(cmd, "taplo"@) && cmd.args@.len() == 1 && arg(
            cmd,
            0,
        ) == "format"@ && !has_arg(cmd, "--check"@),
        checking@[1] matches Step::Run(cmd) && starts(cmd, "taplo"@) && cmd.args@.len() == 2 && arg(
            cmd,
            0,
        ) == "format"@ && arg(cmd, 1) == "--check"@,
{
    lemma_fix_words();
    assert(plan(fixing@).len() == 2 && plan(checking@).len() == 2);
    assert(plan(fixing@)[0] == fixing@[0]@ && plan(fixing@)[1] == fixing@[1]@);
    assert(plan(checking@)[0] == checking@[0]@ && plan(checking@)[1] == checking@[1]@);
    lemma_fields(fixing@[1]->Run_0);
    lemma_fields(checking@[1]->Run_0);
    assert(arg(fixing@[1]->Run_0, 0) == "format"@);
}

/// The lint task runs clippy, the formatter, taplo, typos and hawkeye, in this order and each as it is
/// told to fix or not, where the last three are seen to first.
pub proof fn law_lint_task(
    fix: bool,
    steps: Vec<Step>,
    clippy: CommandLine,
    format: CommandLine,
    taplo: Vec<Step>,
    typos: Vec<Step>,
    hawkeye: Vec<Step>,
)
    requires
        call_ensures(CommandLint::run, (CommandLint { fix },), steps),
        call_ensures(make_clippy_cmd, (fix,), clippy),
        call_ensures(make_format_cmd, (fix,), format),
        call_ensures(make_taplo_cmd, (fix,), taplo),
        call_ensures(make_typos_cmd, (), typos),
        call_ensures(make_hawkeye_cmd, (fix,), hawkeye),
    ensures
        steps@.len() == 8,
        runs(steps@[0], clippy),
        runs(steps@[1], format),
        same_steps(steps@.subrange(2, 4), taplo@),
        same_steps(steps@.subrange(4, 6), typos@),
        same_steps(steps@.subrange(6, 8), hawkeye@),
{
    let p = plan(steps@);
    assert(p.len() == 8);
    assert forall|i: int| 0 <= i < 8 implies #[trigger] p[i] == steps@[i]@ by {}
    assert(p[0] == Step::Run(clippy)@ && p[1] == Step::Run(format)@);
    lemma_same_step(steps@[0], Step::Run(clippy));
    lemma_same_step(steps@[1], Step::Run(format));
    lemma_part(steps@, 2, taplo@);
    lemma_part(steps@, 4, typos@);
    lemma_part(steps@, 6, hawkeye@);
}

/// Without `--fix` the lint task changes no file: the formatters have `--check`, clippy takes warnings
/// for errors and fixes nothing, and hawkeye is told to check. With it clippy fixes, the formatters
/// have no `--check`, and hawkeye is told to format.
pub proof fn law_lint_fixes_only_when_told(fixing: Vec<Step>, checking: Vec<Step>)
    requires
        call_ensures(CommandLint::run, (CommandLint { fix: true },), fixing),
        call_ensures(CommandLint::run, (CommandLint { fix: false },), checking),
    ensures
        fixing@.len() == 8 && checking@.len() == 8,
        checking@[0] matches Step::Run(cmd) && arg(cmd, 1) == "clippy"@ && has_arg(cmd, "-D"@)
            && has_arg(cmd, "warnings"@) && !has_arg(cmd, "--fix"@),
        fixing@[0] matches Step::Run(cmd) && arg(cmd, 1) == "clippy"@ && has_arg(cmd, "--fix"@),
        checking@[1] matches Step::Run(cmd) && arg(cmd, 1) == "fmt"@ && has_arg(cmd, "--check"@),
        fixing@[1] matches Step::Run(cmd) && arg(cmd, 1) == "fmt"@ && !has_arg(cmd, "--check"@),
        checking@[3] matches Step::Run(cmd) && starts(cmd, "taplo"@) && has_arg(cmd, "--check"@),
        fixing@[3] matches Step::Run(cmd) && starts(cmd, "taplo"@) && !has_arg(cmd, "--check"@),
        checking@[5] matches Step::Run(cmd) && starts(cmd, "typos"@) && cmd.args@.len() == 0,
        fixing@[5] matches Step::Run(cmd) && starts(cmd, "typos"@) && cmd.args@.len() == 0,
        checking@[7] matches Step::Run(cmd) && starts(cmd, "hawkeye"@) && has_arg(cmd, "check"@)
            && !has_arg(cmd, "format"@),
        fixing@[7] matches Step::Run(cmd) && starts(cmd, "hawkeye"@) && has_arg(cmd, "format"@),
{
    lemma_fix_words();
    let p = plan(fixing@);
    let q = plan(checking@);
    assert(p.len() == 8 && q.len() == 8);
    assert forall|i: int| 0 <= i < 8 implies #[trigger] p[i] == fixing@[i]@ by {}
    assert forall|i: int| 0 <= i < 8 implies #[trigger] q[i] == checking@[i]@ by {}
    assert(p[0] is Run && p[1] is Run && p[3] is Run && p[5] is Run && p[7] is Run);
    assert(q[0] is Run && q[1] is Run && q[3] is Run && q[5] is Run && q[7] is Run);
    let a = fixing@[0]->Run_0;
    let b = checking@[0]->Run_0;
    lemma_fields(a);
    lemma_fields(b);
    assert(arg(a, 8) == "--fix"@ && arg(a, 1) == "clippy"@);
    assert(arg(b, 0) == "+nightly"@ && arg(b, 1) == "clippy"@ && arg(b, 2) == "--tests"@ && arg(b, 3)
        == "--all-features"@ && arg(b, 4) == "--all-targets"@ && arg(b, 5) == "--workspace"@ && arg(
        b,
        6,
    ) == "--"@ && arg(b, 7) == "-D"@ && arg(b, 8) == "warnings"@);
    let a = fixing@[1]->Run_0;
    let b = checking@[1]->Run_0;
    lemma_fields(a);
    lemma_fields(b);
    assert(arg(a, 0) == "+nightly"@ && arg(a, 1) == "fmt"@ && arg(a, 2) == "--all"@);
    assert(arg(b, 1) == "fmt"@ && arg(b, 3) == "--check"@);
    let a = fixing@[3]->Run_0;
    let b = checking@[3]->Run_0;
    lemma_fields(a);
    lemma_fields(b);
    assert(arg(a, 0) == "format"@);
    assert(arg(b, 1) == "--check"@);
    lemma_fields(fixing@[5]->Run_0);
    lemma_fields(checking@[5]->Run_0);
    let a = fixing@[7]->Run_0;
    let b = checking@[7]->Run_0;
    lemma_fields(a);
    lemma_fields(b);
    assert(arg(a, 0) == "format"@);
    assert(arg(b, 0) == "check"@);
}

/// The build task builds, locked or not.
pub proof fn law_build_task(locked: bool, steps: Vec<Step>, cmd: CommandLine)
    requires
        call_ensures(CommandBuild::run, (CommandBuild { locked },), steps),
        call_ensures(make_build_cmd, (locked,), cmd),
    ensures
        steps@.len() == 1,
        runs(steps@[0], cmd),
{
    assert(plan(steps@).len() == 1);
    assert(plan(steps@)[0] == steps@[0]@);
    lemma_same_step(steps@[0], Step::Run(cmd));
}

/// `step` checks mea with the features of `names`, and no others.
pub open spec fn runs_check(step: Step, names: Seq<String>) -> bool {
    step matches Step::Run(cmd) && checks(cmd, names)
}

/// The check task checks mea without features first, then with each of its features other than
/// `default` alone, and in the end with all of them together, where there are several.
pub proof fn law_check_task(package: &Package, features: Vec<String>, steps: Vec<Step>)
    requires
        call_ensures(mea_features, (package,), features),
        call_ensures(CommandCheck::run, (CommandCheck {  }, package), steps),
    ensures
        ({
            let n = features@.len();
            &&& steps@.len() == if n > 1 {
                n + 2
            } else {
                n + 1
            }
            &&& runs_check(steps@[0], Seq::empty())
            &&& forall|i: int|
                #![trigger features@[i]]
                0 <= i < n ==> runs_check(steps@[i + 1], seq![features@[i]])
            &&& n > 1 ==> runs_check(steps@.last(), features@)
        }),
{
    let names = texts(features@);
    let n = features@.len();
    let p = plan(steps@);
    assert(p == check_plan(names));
    assert(names.len() == n);
    assert(p.len() == steps@.len());
    assert forall|i: int| 0 <= i < p.len() implies #[trigger] p[i] == steps@[i]@ by {}
    assert(p[0] is Run);
    assert(texts(Seq::<String>::empty()) =~= Seq::empty());
    lemma_checks(steps@[0]->Run_0, Seq::empty());
    assert forall|i: int| #![trigger features@[i]] 0 <= i < n implies runs_check(
        steps@[i + 1],
        seq![features@[i]],
    ) by {
        assert(p[i + 1] == steps@[i + 1]@);
        assert(p[i + 1] is Run);
        assert(texts(seq![features@[i]]) =~= seq![names[i]]);
        lemma_checks(steps@[i + 1]->Run_0, seq![features@[i]]);
    }
    assert(p.len() == if n > 1 {
        n + 2
    } else {
        n + 1
    });
    if n > 1 {
        assert(steps@.last() == steps@[(n + 1) as int]);
        assert(p[(n + 1) as int] is Run);
        lemma_checks(steps@[(n + 1) as int]->Run_0, features@);
    }
}

/// `a` and `b` have the same first `p` characters.
pub open spec fn agree(a: Seq<char>, b: Seq<char>, p: int) -> bool {
    &&& 0 <= p <= a.len()
    &&& p <= b.len()
    &&& forall|i: int| 0 <= i < p ==> #[trigger] a[i] == b[i]
}

/// `a` is `b`, or comes before it as words do in a dictionary: it is the beginning of `b`, or has the
/// smaller character where they first differ.
pub open spec fn precedes(a: Seq<char>, b: Seq<char>) -> bool {
    exists|p: int| #[trigger]
        agree(a, b, p) && (p == a.len() || (p < b.len() && (a[p] as int) < (b[p] as int)))
}

proof fn lemma_precedes(a: Seq<char>, b: Seq<char>)
    ensures
        text_le(a, b) <==> precedes(a, b),
    decreases a.len(),
{
    if a.len() == 0 {
        assert(agree(a, b, 0));
    } else if b.len() == 0 {
    } else if a[0] == b[0] {
        let x = a.drop_first();
        let y = b.drop_first();
        lemma_precedes(x, y);
        if precedes(x, y) {
            let p = choose|p: int| #[trigger]
                agree(x, y, p) && (p == x.len() || (p < y.len() && (x[p] as int) < (y[p] as int)));
            assert forall|i: int| 0 <= i < p + 1 implies #[trigger] a[i] == b[i] by {
                if i > 0 {
                    assert(x[i - 1] == y[i - 1]);
                }
            }
            assert(agree(a, b, p + 1));
            if p < x.len() {
                assert(a[p + 1] == x[p] && b[p + 1] == y[p]);
            }
        }
        if precedes(a, b) {
            let p = choose|p: int| #[trigger]
                agree(a, b, p) && (p == a.len() || (p < b.len() && (a[p] as int) < (b[p] as int)));
            assert(p > 0);
            assert forall|i: int| 0 <= i < p - 1 implies #[trigger] x[i] == y[i] by {
                assert(a[i + 1] == b[i + 1]);
            }
            assert(agree(x, y, p - 1));
            if p < a.len() {
                assert(a[p] == x[p - 1] && b[p] == y[p - 1]);
            }
        }
    } else {
        assert(agree(a, b, 0));
        if precedes(a, b) {
            let p = choose|p: int| #[trigger]
                agree(a, b, p) && (p == a.len() || (p < b.len() && (a[p] as int) < (b[p] as int)));
            assert(p == 0);
        }
    }
}

/// [`is_le`] compares as a dictionary does.
pub proof fn law_texts_are_compared(a: &str, b: &str, le: bool)
    requires
        call_ensures(is_le, (a, b), le),
    ensures
        le <==> precedes(a@, b@),
{
    lemma_precedes(a@, b@);
}

/// [`mea_package`] finds the first package of the name mea, whichever that is, and finds none only
/// where there is none.
pub proof fn law_package_is_found(packages: Vec<Package>, i: int, found: Option<Package>)
    requires
        call_ensures(mea_package, (packages,), found),
        0 <= i < packages@.len(),
        packages@[i].name@ == "mea"@,
        forall|j: int| 0 <= j < i ==> (#[trigger] packages@[j]).name@ != "mea"@,
    ensures
        found == Some(packages@[i]),
{
    let p = found->0;
    let k = choose|k: int|
        #![trigger packages@[k]]
        0 <= k < packages@.len() && p == packages@[k] && packages@[k].name@ == "mea"@ && (forall|
            j: int,
        |
            0 <= j < k ==> (#[trigger] packages@[j]).name@ != "mea"@);
    assert(k == i) by {
        if k < i {
            assert(packages@[k].name@ != "mea"@);
        }
    }
}

/// [`mea_package`] finds nothing but a package of the name mea.
pub proof fn law_no_other_package_is_found(packages: Vec<Package>, found: Option<Package>)
    requires
        call_ensures(mea_package, (packages,), found),
        forall|j: int| 0 <= j < packages@.len() ==> (#[trigger] packages@[j]).name@ != "mea"@,
    ensures
        found is None,
{
}

/// The names of `strings`.
pub open spec fn names_of(strings: Seq<String>) -> Seq<Seq<char>> {
    strings.map_values(|name: String| name@)
}

/// [`mea_features`] gives the features of the package other than `default`, each as often as the
/// package has it, in the order of a dictionary.
pub proof fn law_features(package: &Package, features: Vec<String>)
    requires
        call_ensures(mea_features, (package,), features),
    ensures
        forall|j: int|
            0 <= j < package.features@.len() && (#[trigger] package.features@[j])@ != "default"@
                ==> exists|i: int|
                0 <= i < features@.len() && (#[trigger] features@[i])@ == package.features@[j]@,
        forall|i: int|
            0 <= i < features@.len() ==> (#[trigger] features@[i])@ != "default"@ && exists|j: int|
                0 <= j < package.features@.len() && (#[trigger] package.features@[j])@
                    == features@[i]@,
        forall|i: int, j: int|
            #![trigger features@[i], features@[j]]
            0 <= i < j < features@.len() ==> precedes(features@[i]@, features@[j]@),
        names_of(features@).to_multiset() == names_of(package.features@).filter(
            |name: Seq<char>| name != "default"@,
        ).to_multiset(),
{
    let names = texts(package.features@);
    let list = texts(features@);
    law_feature_list_is_sorted(names);
    assert(list == feature_list(names));
    assert(names_of(features@) =~= list);
    assert(names_of(package.features@) =~= names);
    assert forall|j: int|
        0 <= j < package.features@.len() && (#[trigger] package.features@[j])@
            != "default"@ implies exists|i: int|
        0 <= i < features@.len() && (#[trigger] features@[i])@ == package.features@[j]@ by {
        assert(names[j] == package.features@[j]@);
        assert(names.contains(names[j]));
        assert(list.contains(names[j]));
        let i = choose|i: int| 0 <= i < list.len() && list[i] == names[j];
        assert(features@[i]@ == list[i]);
    }
    assert forall|i: int| 0 <= i < features@.len() implies (#[trigger] features@[i])@
        != "default"@ && exists|j: int|
        0 <= j < package.features@.len() && (#[trigger] package.features@[j])@
            == features@[i]@ by {
        assert(list[i] == features@[i]@);
        assert(list.contains(list[i]));
        assert(names.contains(list[i]));
        let j = choose|j: int| 0 <= j < names.len() && names[j] == list[i];
        assert(package.features@[j]@ == names[j]);
    }
    assert forall|i: int, j: int|
        #![trigger features@[i], features@[j]]
        0 <= i < j < features@.len() implies precedes(features@[i]@, features@[j]@) by {
        assert(text_order()(list[i], list[j]));
        assert(list[i] == features@[i]@ && list[j] == features@[j]@);
        lemma_precedes(list[i], list[j]);
    }
}

/// The test task tests with all features of the package other than `default`, whether or not output is
/// captured.
pub proof fn law_test_task(
    no_capture: bool,
    package: &Package,
    features: Vec<String>,
    slice: &[String],
    cmd: CommandLine,
    steps: Vec<Step>,
)
    requires
        call_ensures(mea_features, (package,), features),
        slice@ == features@,
        call_ensures(make_test_cmd, (no_capture, slice), cmd),
        call_ensures(CommandTest::run, (CommandTest { no_capture }, package), steps),
    ensures
        steps@.len() == 1,
        runs(steps@[0], cmd),
{
    assert(plan(steps@).len() == 1);
    assert(plan(steps@)[0] == steps@[0]@);
    lemma_same_step(steps@[0], Step::Run(cmd));
}

/// The UI test task tests with all features of the package other than `default`, on the toolchain of
/// the version that the package declares. Without a version there is nothing to run.
pub proof fn law_ui_test_task(
    overwrite: bool,
    package: &Package,
    features: Vec<String>,
    slice: &[String],
    version: &str,
    cmd: CommandLine,
    steps: Option<Vec<Step>>,
)
    requires
        call_ensures(mea_features, (package,), features),
        slice@ == features@,
        package.rust_version matches Some(declared) ==> declared@ == version@,
        call_ensures(make_ui_test_cmd, (slice, version, overwrite), cmd),
        call_ensures(CommandTestUi::run, (CommandTestUi { overwrite }, package), steps),
    ensures
        package.rust_version is None ==> steps is None,
        package.rust_version is Some ==> (steps matches Some(v) && v@.len() == 1 && runs(
            v@[0],
            cmd,
        )),
{
    if let Some(v) = steps {
        assert(plan(v@).len() == 1);
        assert(plan(v@)[0] == v@[0]@);
        lemma_same_step(v@[0], Step::Run(cmd));
    }
}

/// The task that was asked for is run, with the package where it needs one.
pub proof fn law_tasks_are_dispatched(
    build: CommandBuild,
    lint: CommandLint,
    check: CommandCheck,
    test: CommandTest,
    ui: CommandTestUi,
    package: &Package,
    given: Option<&Package>,
    built: Vec<Step>,
    linted: Vec<Step>,
    checked: Vec<Step>,
    tested: Vec<Step>,
    shown: Option<Vec<Step>>,
    steps: Option<Vec<Step>>,
)
    requires
        call_ensures(CommandBuild::run, (build,), built),
        call_ensures(CommandLint::run, (lint,), linted),
        call_ensures(CommandCheck::run, (check, package), checked),
        call_ensures(CommandTest::run, (test, package), tested),
        call_ensures(CommandTestUi::run, (ui, package), shown),
    ensures
        call_ensures(Command::run, (Command { sub: SubCommand::Build(build) }, given), steps) ==> (
        steps matches Some(v) && same_steps(v@, built@)),
        call_ensures(Command::run, (Command { sub: SubCommand::Lint(lint) }, given), steps) ==> (
        steps matches Some(v) && same_steps(v@, linted@)),
        call_ensures(Command::run, (Command { sub: SubCommand::Check(check) }, Some(package)), steps)
            ==> (steps matches Some(v) && same_steps(v@, checked@)),
        call_ensures(Command::run, (Command { sub: SubCommand::Test(test) }, Some(package)), steps)
            ==> (steps matches Some(v) && same_steps(v@, tested@)),
        call_ensures(Command::run, (Command { sub: SubCommand::TestUi(ui) }, Some(package)), steps)
            ==> (steps is Some <==> shown is Some) && (shown is Some ==> same_steps(
            steps->0@,
            shown->0@,
        )),
{
    if call_ensures(Command::run, (Command { sub: SubCommand::Build(build) }, given), steps) {
        lemma_same_steps(steps->0@, built@);
    }
    if call_ensures(Command::run, (Command { sub: SubCommand::Lint(lint) }, given), steps) {
        lemma_same_steps(steps->0@, linted@);
    }
    if call_ensures(
        Command::run,
        (Command { sub: SubCommand::Check(check) }, Some(package)),
        steps,
    ) {
        lemma_same_steps(steps->0@, checked@);
    }
    if call_ensures(Command::run, (Command { sub: SubCommand::Test(test) }, Some(package)), steps) {
        lemma_same_steps(steps->0@, tested@);
    }
    if call_ensures(
        Command::run,
        (Command { sub: SubCommand::TestUi(ui) }, Some(package)),
        steps,
    ) && shown is Some {
        lemma_same_steps(steps->0@, shown->0@);
    }
}

/// A task needs the package exactly where it has no steps without one.
pub proof fn law_needs_of_tasks(command: Command, needs: bool, steps: Option<Vec<Step>>)
    requires
        call_ensures(Command::needs_package, (&command,), needs),
        call_ensures(Command::run, (command, None), steps),
    ensures
        needs <==> steps is None,
        needs <==> !(command.sub is Build || command.sub is Lint),
{
}

/// The check task leaves out no feature of the package other than `default`: feature `j` is one of
/// those that [`mea_features`] gives, of which each, as number `i`, has a step of its own, with nothing
/// else. Where there are several, the last step has exactly all of them together. The first step has
/// none.
pub proof fn law_check_task_covers_the_features(
    package: &Package,
    features: Vec<String>,
    steps: Vec<Step>,
    j: int,
    i: int,
)
    requires
        call_ensures(mea_features, (package,), features),
        call_ensures(CommandCheck::run, (CommandCheck {  }, package), steps),
        0 <= j < package.features@.len(),
        package.features@[j]@ != "default"@,
        0 <= i < features@.len(),
    ensures
        exists|n: int|
            0 <= n < features@.len() && (#[trigger] features@[n])@ == package.features@[j]@,
        steps@[0] is Run,
        arg(steps@[0]->Run_0, 1) == "check"@,
        steps@[0]->Run_0.args@.len() == 6,
        steps@[i + 1] is Run,
        arg(steps@[i + 1]->Run_0, 1) == "check"@,
        steps@[i + 1]->Run_0.args@.len() == 8,
        arg(steps@[i + 1]->Run_0, 6) == "--features"@,
        arg(steps@[i + 1]->Run_0, 7) == features@[i]@,
        features@.len() > 1 ==> {
            &&& steps@.len() == features@.len() + 2
            &&& steps@.last() is Run
            &&& arg(steps@.last()->Run_0, 1) == "check"@
            &&& steps@.last()->Run_0.args@.len() == 6 + 2 * features@.len()
            &&& arg(steps@.last()->Run_0, 6 + 2 * i) == "--features"@
            &&& arg(steps@.last()->Run_0, 6 + 2 * i + 1) == features@[i]@
        },
{
    law_features(package, features);
    law_check_task(package, features, steps);
    assert(package.features@[j]@ != "default"@);
    let one = seq![features@[i]];
    let cmd = steps@[i + 1]->Run_0;
    assert(runs_check(steps@[i + 1], one));
    lemma_pairs(cmd, 6, one);
    assert(one[0] == features@[i]);
    assert(arg(cmd, 6 + 2 * 0int) == "--features"@);
    if features@.len() > 1 {
        let last = steps@.last()->Run_0;
        assert(runs_check(steps@.last(), features@));
        lemma_pairs(last, 6, features@);
        assert(features@[i] == features@[i]);
    }
}

/// The test task, with or without output, has every feature of the package other than `default`, each
/// directly behind `--features` and before what is for the tests themselves.
pub proof fn law_test_task_covers_the_features(
    no_capture: bool,
    package: &Package,
    features: Vec<String>,
    slice: &[String],
    serial: CommandLine,
    captured: CommandLine,
    steps: Vec<Step>,
    j: int,
)
    requires
        call_ensures(mea_features, (package,), features),
        slice@ == features@,
        call_ensures(make_test_cmd, (true, slice), serial),
        call_ensures(make_test_cmd, (false, slice), captured),
        call_ensures(CommandTest::run, (CommandTest { no_capture }, package), steps),
        0 <= j < package.features@.len(),
        package.features@[j]@ != "default"@,
    ensures
        steps@.len() == 1,
        steps@[0] is Run,
        exists|i: int|
            0 <= i < features@.len() && (#[trigger] features@[i])@ == package.features@[j]@ && arg(
                steps@[0]->Run_0,
                3 + 2 * i,
            ) == "--features"@ && arg(steps@[0]->Run_0, 3 + 2 * i + 1) == "mea/"@
                + package.features@[j]@,
        forall|i: int|
            0 <= i < 3 + 2 * features@.len() ==> #[trigger] arg(steps@[0]->Run_0, i) != "--"@,
{
    law_features(package, features);
    law_test_command(slice, serial, captured);
    let cmd = if no_capture {
        serial
    } else {
        captured
    };
    law_test_task(no_capture, package, features, slice, cmd, steps);
    let c = steps@[0]->Run_0;
    assert(package.features@[j]@ != "default"@);
    let i = choose|i: int|
        0 <= i < features@.len() && (#[trigger] features@[i])@ == package.features@[j]@;
    assert(slice@[i] == features@[i]);
    assert(arg(c, 3 + 2 * i) == arg(cmd, 3 + 2 * i));
    assert(arg(c, 3 + 2 * i + 1) == arg(cmd, 3 + 2 * i + 1));
    assert forall|i: int| 0 <= i < 3 + 2 * features@.len() implies #[trigger] arg(c, i)
        != "--"@ by {
        assert(arg(c, i) == arg(cmd, i));
        assert(arg(cmd, i) == arg(captured, i));
    }
}

/// Features stand in the order in which [`is_le`] compares them.
pub proof fn law_features_are_in_order(
    package: &Package,
    features: Vec<String>,
    i: int,
    j: int,
    a: &str,
    b: &str,
    le: bool,
)
    requires
        call_ensures(mea_features, (package,), features),
        0 <= i < j < features@.len(),
        a@ == features@[i]@,
        b@ == features@[j]@,
        call_ensures(is_le, (a, b), le),
    ensures
        le,
{
    law_features(package, features);
    law_texts_are_compared(a, b, le);
    assert(precedes(features@[i]@, features@[j]@));
}

/// Where two texts first differ in character `p`, the smaller one comes first. A text comes before
/// those that continue it, and those do not come before it.
pub proof fn law_first_difference_decides(a: &str, b: &str, p: int, le: bool)
    requires
        call_ensures(is_le, (a, b), le),
        0 <= p <= a@.len(),
        p <= b@.len(),
        forall|i: int| 0 <= i < p ==> #[trigger] a@[i] == b@[i],
    ensures
        p == a@.len() ==> le,
        p == b@.len() && p < a@.len() ==> !le,
        p < a@.len() && p < b@.len() && (a@[p] as int) < (b@[p] as int) ==> le,
        p < a@.len() && p < b@.len() && (b@[p] as int) < (a@[p] as int) ==> !le,
{
    law_texts_are_compared(a, b, le);
    assert(agree(a@, b@, p));
    if precedes(a@, b@) {
        let q = choose|q: int| #[trigger]
            agree(a@, b@, q) && (q == a@.len() || (q < b@.len() && (a@[q] as int) < (
            b@[q] as int)));
        if q < p {
            assert(a@[q] == b@[q]);
        }
        if p < q {
            assert(a@[p] == b@[p]);
        }
    }
}

} // verus!
