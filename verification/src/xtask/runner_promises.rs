//! What a runner promises of the steps that it goes through and of what comes of its actions.

use vstd::prelude::*;

use crate::xtask::plan::Step;
use crate::xtask::plan::StepView;
use crate::xtask::plan::plan;
use crate::xtask::promises::arg;
use crate::xtask::promises::lemma_fields;
use crate::xtask::promises::same_command;
use crate::xtask::promises::starts;
use crate::xtask::runner::Action;
use crate::xtask::runner::Outcome;
use crate::xtask::runner::Phase;
use crate::xtask::runner::Runner;
use crate::xtask::runner::RunnerView;
use crate::xtask::task_promises::lemma_same_command;

verus! {

/// A new runner has all steps before it, and is to be started.
pub proof fn law_new_runner(steps: Vec<Step>, runner: Runner, phase: Phase)
    requires
        call_ensures(Runner::new, (steps,), runner),
        call_ensures(Runner::phase, (&runner,), phase),
    ensures
        runner.wf(),
        phase == Phase::New,
        runner@.phase == phase,
        runner@.steps.len() == steps@.len(),
        forall|i: int| 0 <= i < steps@.len() ==> #[trigger] runner@.steps[i] == steps@[i]@,
{
}

/// `action` begins the first of `steps`, which `t` has before it: it looks for the program of the
/// command, or for the program that is to be there. Where nothing is left the task is done.
pub open spec fn goes_on(steps: Seq<StepView>, t: RunnerView, action: Action) -> bool {
    &&& t.steps == steps
    &&& if steps.len() == 0 {
        action is Done && t.phase is Over
    } else {
        match steps[0] {
            StepView::Run(cmd) => {
                &&& action matches Action::Find(program) && program@ == cmd.program
                &&& t.phase is Finding
            },
            StepView::EnsureInstalled { bin, crate_name: _ } => {
                &&& action matches Action::Find(program) && program@ == bin
                &&& t.phase is Probing
            },
        }
    }
}

/// The runner begins with the first step, runs a command as it is when its program is found, and goes
/// on with the next step when the command succeeds. A program that is to be there is not installed
/// when it is found, and is installed by cargo under the name of its crate when it is not. A command
/// that fails, or whose program is not found, ends the task.
pub proof fn law_runner_advances(runner: &mut Runner, outcome: Outcome, action: Action)
    requires
        old(runner).wf(),
        call_ensures(Runner::advance, (runner, outcome), action),
    ensures
        final(runner).wf(),
        ({
            let s = old(runner)@;
            let t = final(runner)@;
            match s.phase {
                Phase::New => outcome is Started ==> goes_on(s.steps, t, action),
                Phase::Running | Phase::Installing => {
                    &&& outcome == Outcome::Exited(true) ==> goes_on(s.steps, t, action)
                    &&& outcome == Outcome::Exited(false) ==> action is Failed && t.phase is Over
                },
                Phase::Finding => {
                    &&& outcome == Outcome::Found(true) ==> {
                        &&& action matches Action::Run(cmd) && StepView::Run(cmd@) == s.steps[0]
                        &&& t.phase is Running
                        &&& t.steps == s.steps.skip(1)
                    }
                    &&& outcome == Outcome::Found(false) ==> {
                        &&& action matches Action::NotFound(program) && program@
                            == s.steps[0]->Run_0.program
                        &&& t.phase is Over
                    }
                },
                Phase::Probing => {
                    &&& outcome == Outcome::Found(true) ==> goes_on(s.steps.skip(1), t, action)
                    &&& outcome == Outcome::Found(false) ==> {
                        &&& action matches Action::Find(program) && program@ == "cargo"@
                        &&& t.phase is FindingInstaller
                        &&& t.steps == s.steps
                    }
                },
                Phase::FindingInstaller => {
                    &&& outcome == Outcome::Found(true) ==> {
                        &&& action matches Action::Run(cmd) && starts(cmd, "cargo"@)
                            && cmd.args@.len() == 2 && arg(cmd, 0) == "install"@ && arg(cmd, 1)
                            == s.steps[0]->crate_name
                        &&& t.phase is Installing
                        &&& t.steps == s.steps.skip(1)
                    }
                    &&& outcome == Outcome::Found(false) ==> {
                        &&& action matches Action::NotFound(program) && program@ == "cargo"@
                        &&& t.phase is Over
                    }
                },
                Phase::Over => true,
            }
        }),
{
    let s = old(runner)@;
    if s.steps.len() > 0 {
        assert(s.steps.drop_first() =~= s.steps.skip(1));
    }
    if let Action::Run(cmd) = action {
        lemma_fields(cmd);
    }
}

/// The runner takes in whatever comes of its actions, until the task is over.
pub proof fn law_runner_accepts(runner: &mut Runner, found: bool)
    requires
        old(runner).wf(),
    ensures
        old(runner)@.phase is New ==> call_requires(Runner::advance, (runner, Outcome::Started)),
        old(runner)@.phase is Finding || old(runner)@.phase is Probing || old(
            runner,
        )@.phase is FindingInstaller ==> call_requires(
            Runner::advance,
            (runner, Outcome::Found(found)),
        ),
        old(runner)@.phase is Running || old(runner)@.phase is Installing ==> call_requires(
            Runner::advance,
            (runner, Outcome::Exited(found)),
        ),
{
}

/// A task whose first step is a command looks for its program, runs the command as it is, and goes on
/// with the rest as a task of the rest would: the next action is what that task begins with.
pub proof fn law_command_is_run(
    steps: Vec<Step>,
    rest: Vec<Step>,
    a: &mut Runner,
    b: &mut Runner,
    c: &mut Runner,
    r: &mut Runner,
    first: Action,
    second: Action,
    third: Action,
    other: Action,
)
    requires
        steps@.len() > 0,
        steps@[0] is Run,
        rest@ == steps@.skip(1),
        call_ensures(Runner::new, (steps,), *old(a)),
        call_ensures(Runner::advance, (a, Outcome::Started), first),
        *old(b) == *final(a),
        call_ensures(Runner::advance, (b, Outcome::Found(true)), second),
        *old(c) == *final(b),
        call_ensures(Runner::advance, (c, Outcome::Exited(true)), third),
        call_ensures(Runner::new, (rest,), *old(r)),
        call_ensures(Runner::advance, (r, Outcome::Started), other),
    ensures
        first matches Action::Find(program) && program@ == steps@[0]->Run_0.program@,
        second matches Action::Run(cmd) && same_command(cmd, steps@[0]->Run_0),
        third@ == other@,
        final(c)@ == final(r)@,
        rest@.len() == 0 ==> third is Done,
        rest@.len() > 0 ==> third is Find,
{
    let s = old(a)@;
    assert(s.steps[0] == steps@[0]@);
    law_runner_advances(a, Outcome::Started, first);
    law_runner_advances(b, Outcome::Found(true), second);
    lemma_same_command(second->Run_0, steps@[0]->Run_0);
    law_runner_advances(c, Outcome::Exited(true), third);
    law_runner_advances(r, Outcome::Started, other);
    assert(plan(rest@) =~= plan(steps@).skip(1));
}

/// A task whose first step sees to a program that is there runs nothing for it, and goes on with the
/// rest as a task of the rest would.
pub proof fn law_present_program_is_not_installed(
    steps: Vec<Step>,
    rest: Vec<Step>,
    a: &mut Runner,
    b: &mut Runner,
    r: &mut Runner,
    first: Action,
    second: Action,
    other: Action,
)
    requires
        steps@.len() > 0,
        steps@[0] is EnsureInstalled,
        rest@ == steps@.skip(1),
        call_ensures(Runner::new, (steps,), *old(a)),
        call_ensures(Runner::advance, (a, Outcome::Started), first),
        *old(b) == *final(a),
        call_ensures(Runner::advance, (b, Outcome::Found(true)), second),
        call_ensures(Runner::new, (rest,), *old(r)),
        call_ensures(Runner::advance, (r, Outcome::Started), other),
    ensures
        first matches Action::Find(program) && program@ == steps@[0]->bin@,
        !(second is Run),
        second@ == other@,
        final(b)@ == final(r)@,
{
    let s = old(a)@;
    assert(s.steps[0] == steps@[0]@);
    law_runner_advances(a, Outcome::Started, first);
    law_runner_advances(b, Outcome::Found(true), second);
    law_runner_advances(r, Outcome::Started, other);
    assert(plan(rest@) =~= plan(steps@).skip(1));
}

/// A task whose first step sees to a program that is missing has cargo install its crate, and goes on
/// with the rest as a task of the rest would.
pub proof fn law_missing_program_is_installed(
    steps: Vec<Step>,
    rest: Vec<Step>,
    a: &mut Runner,
    b: &mut Runner,
    c: &mut Runner,
    d: &mut Runner,
    r: &mut Runner,
    first: Action,
    second: Action,
    third: Action,
    fourth: Action,
    other: Action,
)
    requires
        steps@.len() > 0,
        steps@[0] is EnsureInstalled,
        rest@ == steps@.skip(1),
        call_ensures(Runner::new, (steps,), *old(a)),
        call_ensures(Runner::advance, (a, Outcome::Started), first),
        *old(b) == *final(a),
        call_ensures(Runner::advance, (b, Outcome::Found(false)), second),
        *old(c) == *final(b),
        call_ensures(Runner::advance, (c, Outcome::Found(true)), third),
        *old(d) == *final(c),
        call_ensures(Runner::advance, (d, Outcome::Exited(true)), fourth),
        call_ensures(Runner::new, (rest,), *old(r)),
        call_ensures(Runner::advance, (r, Outcome::Started), other),
    ensures
        first matches Action::Find(program) && program@ == steps@[0]->bin@,
        second matches Action::Find(program) && program@ == "cargo"@,
        third matches Action::Run(cmd) && starts(cmd, "cargo"@) && cmd.args@.len() == 2 && arg(
            cmd,
            0,
        ) == "install"@ && arg(cmd, 1) == steps@[0]->crate_name@,
        fourth@ == other@,
        final(d)@ == final(r)@,
{
    let s = old(a)@;
    assert(s.steps[0] == steps@[0]@);
    law_runner_advances(a, Outcome::Started, first);
    law_runner_advances(b, Outcome::Found(false), second);
    law_runner_advances(c, Outcome::Found(true), third);
    law_runner_advances(d, Outcome::Exited(true), fourth);
    law_runner_advances(r, Outcome::Started, other);
    assert(plan(rest@) =~= plan(steps@).skip(1));
}

} // verus!
