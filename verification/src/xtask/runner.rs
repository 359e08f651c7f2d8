//! Goes through the steps of a task.
//!
//! The runner decides and does not act: it is told what came of the last action, and answers with the
//! next one.

use vstd::prelude::*;

use crate::xtask::command::CommandLine;
use crate::xtask::command::CommandView;
use crate::xtask::command::install_view;
use crate::xtask::command::make_install_cmd;
use crate::xtask::plan::Step;
use crate::xtask::plan::StepView;
use crate::xtask::plan::plan;

verus! {

/// What the runner waits for.
#[derive(Debug, Clone, Copy, PartialEq, Eq, Structural)]
pub enum Phase {
    /// To be started.
    New,
    /// Whether the program of the first step can be found.
    Finding,
    /// How the command that runs ends.
    Running,
    /// Whether the program that the first step is to see to is there.
    Probing,
    /// Whether the program that installs can be found.
    FindingInstaller,
    /// How the installation ends.
    Installing,
    /// Nothing: the task is over, or was given up.
    Over,
}

/// What came of the last action.
#[derive(Debug, Clone, Copy, PartialEq, Eq, Structural)]
pub enum Outcome {
    /// The task begins.
    Started,
    /// Whether the program was found.
    Found(bool),
    /// Whether the command ended with success.
    Exited(bool),
}

/// What is to be done next.
#[derive(Debug)]
pub enum Action {
    /// Look for a program.
    Find(String),
    /// Run a command, with the program that was just found.
    Run(CommandLine),
    /// Nothing: the task is done.
    Done,
    /// Give up: this program was not found.
    NotFound(String),
    /// Give up: the command failed.
    Failed,
}

/// What an [`Action`] says.
pub enum ActionView {
    Find(Seq<char>),
    Run(CommandView),
    Done,
    NotFound(Seq<char>),
    Failed,
}

impl View for Action {
    type V = ActionView;

    open spec fn view(&self) -> ActionView {
        match *self {
            Action::Find(program) => ActionView::Find(program@),
            Action::Run(cmd) => ActionView::Run(cmd@),
            Action::Done => ActionView::Done,
            Action::NotFound(program) => ActionView::NotFound(program@),
            Action::Failed => ActionView::Failed,
        }
    }
}

/// What a [`Runner`] has before it.
pub struct RunnerView {
    /// The steps that are left, with the one that is under way unless its command runs.
    pub steps: Seq<StepView>,
    /// What it waits for.
    pub phase: Phase,
}

impl RunnerView {
    /// What the phase says of the first step.
    pub open spec fn valid(self) -> bool {
        match self.phase {
            Phase::Finding => self.steps.len() > 0 && self.steps[0] is Run,
            Phase::Probing | Phase::FindingInstaller => self.steps.len() > 0
                && self.steps[0] is EnsureInstalled,
            Phase::New | Phase::Running | Phase::Installing | Phase::Over => true,
        }
    }

    /// Whether `outcome` is what it waits for.
    pub open spec fn awaits(self, outcome: Outcome) -> bool {
        match self.phase {
            Phase::New => outcome is Started,
            Phase::Finding | Phase::Probing | Phase::FindingInstaller => outcome is Found,
            Phase::Running | Phase::Installing => outcome is Exited,
            Phase::Over => false,
        }
    }

    /// What is done when all but `steps` is done, and what the runner has before it then.
    pub open spec fn proceed(steps: Seq<StepView>) -> (RunnerView, ActionView) {
        if steps.len() == 0 {
            (RunnerView { steps, phase: Phase::Over }, ActionView::Done)
        } else {
            match steps[0] {
                StepView::Run(cmd) => (
                    RunnerView { steps, phase: Phase::Finding },
                    ActionView::Find(cmd.program),
                ),
                StepView::EnsureInstalled { bin, crate_name: _ } => (
                    RunnerView { steps, phase: Phase::Probing },
                    ActionView::Find(bin),
                ),
            }
        }
    }

    /// What the runner has before it after `outcome`, and what is done next.
    ///
    /// A command runs when its program is found. A program that is to be there is installed only
    /// when it is not found. The task is given up when the program of a command is not found, or a
    /// command fails.
    pub open spec fn react(self, outcome: Outcome) -> (RunnerView, ActionView) {
        let over = RunnerView { phase: Phase::Over, ..self };
        match (self.phase, outcome) {
            (Phase::New, Outcome::Started) => Self::proceed(self.steps),
            (Phase::Finding, Outcome::Found(true)) => (
                RunnerView { steps: self.steps.drop_first(), phase: Phase::Running },
                ActionView::Run(self.steps[0]->Run_0),
            ),
            (Phase::Finding, Outcome::Found(false)) => (
                over,
                ActionView::NotFound(self.steps[0]->Run_0.program),
            ),
            (Phase::Probing, Outcome::Found(true)) => Self::proceed(self.steps.drop_first()),
            (Phase::Probing, Outcome::Found(false)) => (
                RunnerView { phase: Phase::FindingInstaller, ..self },
                ActionView::Find("cargo"@),
            ),
            (Phase::FindingInstaller, Outcome::Found(true)) => (
                RunnerView { steps: self.steps.drop_first(), phase: Phase::Installing },
                ActionView::Run(install_view(self.steps[0]->crate_name)),
            ),
            (Phase::FindingInstaller, Outcome::Found(false)) => (
                over,
                ActionView::NotFound("cargo"@),
            ),
            (Phase::Running, Outcome::Exited(true)) => Self::proceed(self.steps),
            (Phase::Installing, Outcome::Exited(true)) => Self::proceed(self.steps),
            (_, _) => (over, ActionView::Failed),
        }
    }
}

/// Goes through the steps of a task.
#[derive(Debug)]
pub struct Runner {
    steps: Vec<Step>,
    phase: Phase,
}

impl View for Runner {
    type V = RunnerView;

    closed spec fn view(&self) -> RunnerView {
        RunnerView { steps: plan(self.steps@), phase: self.phase }
    }
}

impl Runner {
    /// What every action keeps.
    pub open spec fn wf(&self) -> bool {
        self@.valid()
    }

    /// Creates a runner of `steps`, which is to be started.
    pub fn new(steps: Vec<Step>) -> (runner: Self)
        ensures
            runner.wf(),
            runner@ == (RunnerView { steps: plan(steps@), phase: Phase::New }),
    {
        Runner { steps, phase: Phase::New }
    }

    /// What the runner waits for.
    pub fn phase(&self) -> (phase: Phase)
        ensures
            phase == self@.phase,
    {
        self.phase
    }

    /// Goes on to the first step that is left.
    fn proceed(&mut self) -> (action: Action)
        ensures
            final(self).wf(),
            (final(self)@, action@) == RunnerView::proceed(old(self)@.steps),
    {
        if self.steps.len() == 0 {
            self.phase = Phase::Over;
            return Action::Done;
        }
        assert(plan(self.steps@)[0] == self.steps@[0]@);
        match &self.steps[0] {
            Step::Run(cmd) => {
                let program: String = cmd.program.clone();
                self.phase = Phase::Finding;
                Action::Find(program)
            },
            Step::EnsureInstalled { bin, crate_name: _ } => {
                let bin: String = bin.clone();
                self.phase = Phase::Probing;
                Action::Find(bin)
            },
        }
    }

    /// Takes out the first step that is left.
    fn take_step(&mut self) -> (step: Step)
        requires
            old(self)@.steps.len() > 0,
        ensures
            step@ == old(self)@.steps[0],
            final(self)@ == (RunnerView {
                steps: old(self)@.steps.drop_first(),
                phase: old(self)@.phase,
            }),
    {
        let step = self.steps.remove(0);
        assert(plan(self.steps@) =~= old(self)@.steps.drop_first());
        step
    }

    /// Gives the task up.
    fn give_up(&mut self, action: Action) -> (given: Action)
        ensures
            final(self).wf(),
            final(self)@ == (RunnerView { steps: old(self)@.steps, phase: Phase::Over }),
            given == action,
    {
        self.phase = Phase::Over;
        action
    }

    /// Takes in what came of the last action, and returns the next one.
    pub fn advance(&mut self, outcome: Outcome) -> (action: Action)
        requires
            old(self).wf(),
            old(self)@.awaits(outcome),
        ensures
            final(self).wf(),
            (final(self)@, action@) == old(self)@.react(outcome),
    {
        match (self.phase, outcome) {
            (Phase::New, _) => self.proceed(),
            (Phase::Finding, Outcome::Found(true)) => {
                self.phase = Phase::Running;
                match self.take_step() {
                    Step::Run(cmd) => Action::Run(cmd),
                    Step::EnsureInstalled { bin: _, crate_name: _ } => Action::Failed,
                }
            },
            (Phase::Finding, _) => {
                assert(plan(self.steps@)[0] == self.steps@[0]@);
                let missing: Action = match &self.steps[0] {
                    Step::Run(cmd) => Action::NotFound(cmd.program.clone()),
                    Step::EnsureInstalled { bin: _, crate_name: _ } => Action::Failed,
                };
                self.give_up(missing)
            },
            (Phase::Probing, Outcome::Found(true)) => {
                let _step = self.take_step();
                self.proceed()
            },
            (Phase::Probing, _) => {
                self.phase = Phase::FindingInstaller;
                Action::Find("cargo".to_owned())
            },
            (Phase::FindingInstaller, Outcome::Found(true)) => {
                self.phase = Phase::Installing;
                match self.take_step() {
                    Step::EnsureInstalled { bin: _, crate_name } => Action::Run(
                        make_install_cmd(crate_name.as_str()),
                    ),
                    Step::Run(_) => Action::Failed,
                }
            },
            (Phase::FindingInstaller, _) => self.give_up(Action::NotFound("cargo".to_owned())),
            (_, Outcome::Exited(true)) => self.proceed(),
            (_, _) => self.give_up(Action::Failed),
        }
    }
}

/// What comes of the last action in a world where every command succeeds and its program is found.
///
/// Whether a program that a step is to see to is there already, `present` says of the number of steps
/// that are left.
pub open spec fn fair_outcome(view: RunnerView, present: spec_fn(nat) -> bool) -> Outcome {
    match view.phase {
        Phase::New | Phase::Over => Outcome::Started,
        Phase::Finding | Phase::FindingInstaller => Outcome::Found(true),
        Phase::Probing => Outcome::Found(present(view.steps.len())),
        Phase::Running | Phase::Installing => Outcome::Exited(true),
    }
}

/// How much of a step a runner has before it.
pub open spec fn rank(phase: Phase) -> nat {
    match phase {
        Phase::New | Phase::Running | Phase::Installing => 3,
        Phase::Probing => 2,
        Phase::Finding | Phase::FindingInstaller => 1,
        Phase::Over => 0,
    }
}

/// The commands that a runner has run in a fair world.
pub open spec fn issued(view: RunnerView, present: spec_fn(nat) -> bool) -> Seq<CommandView>
    decreases view.steps.len(), rank(view.phase),
    when view.valid()
{
    if view.phase is Over {
        Seq::empty()
    } else {
        let (next, action) = view.react(fair_outcome(view, present));
        let first = match action {
            ActionView::Run(cmd) => seq![cmd],
            _ => Seq::empty(),
        };
        first + issued(next, present)
    }
}

/// The commands of `steps`, in order, where a program that is to be there is installed unless it is
/// there.
pub open spec fn due(steps: Seq<StepView>, present: spec_fn(nat) -> bool) -> Seq<CommandView>
    decreases steps.len(),
{
    if steps.len() == 0 {
        Seq::empty()
    } else {
        let first = match steps[0] {
            StepView::Run(cmd) => seq![cmd],
            StepView::EnsureInstalled { bin: _, crate_name } => if present(steps.len()) {
                Seq::empty()
            } else {
                seq![install_view(crate_name)]
            },
        };
        first + due(steps.drop_first(), present)
    }
}

proof fn lemma_issued_when_proceeding(steps: Seq<StepView>, present: spec_fn(nat) -> bool)
    ensures
        issued(RunnerView::proceed(steps).0, present) == due(steps, present),
    decreases steps.len(),
{
    let now = RunnerView::proceed(steps).0;
    if steps.len() > 0 {
        let rest = steps.drop_first();
        lemma_issued_when_proceeding(rest, present);
        let next = now.react(fair_outcome(now, present)).0;
        let after = next.react(fair_outcome(next, present)).0;
        match steps[0] {
            StepView::Run(cmd) => {
                assert(after == RunnerView::proceed(rest).0);
                assert(issued(next, present) =~= due(rest, present));
                assert(issued(now, present) =~= due(steps, present));
            },
            StepView::EnsureInstalled { bin: _, crate_name } => {
                if present(steps.len()) {
                    assert(issued(now, present) =~= due(steps, present));
                } else {
                    let last = after.react(fair_outcome(after, present)).0;
                    assert(last == RunnerView::proceed(rest).0);
                    assert(issued(after, present) =~= due(rest, present));
                    assert(issued(next, present) =~= seq![install_view(crate_name)] + due(
                        rest,
                        present,
                    ));
                    assert(issued(now, present) =~= due(steps, present));
                }
            },
        }
    }
}

/// In a world where every command succeeds a task runs the commands of its steps, all of them and in
/// order, and installs what its steps ask for exactly where it is missing.
pub proof fn law_task_runs_its_steps(steps: Seq<StepView>, present: spec_fn(nat) -> bool)
    ensures
        issued(RunnerView { steps, phase: Phase::New }, present) == due(steps, present),
{
    let start = RunnerView { steps, phase: Phase::New };
    lemma_issued_when_proceeding(steps, present);
    assert(issued(start, present) =~= due(steps, present));
}

/// A task ends with the first command that fails, or whose program is not found: nothing is done
/// after that.
pub proof fn law_failure_ends_the_task(view: RunnerView, outcome: Outcome, later: Outcome)
    requires
        view.valid(),
        view.awaits(outcome),
        outcome == Outcome::Exited(false) || (outcome == Outcome::Found(false)
            && !(view.phase is Probing)),
    ensures
        view.react(outcome).1 is Failed || view.react(outcome).1 is NotFound,
        !view.react(outcome).0.awaits(later),
{
}

} // verus!
