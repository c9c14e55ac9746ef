//! The model of a plan being carried out: what is asked of the file system, and what
//! follows from each answer.

use crate::fir::FirCode;
use crate::location::Place;
use crate::paths::Platform;
use crate::plan::{published_at, Decision, Op, Published};
use crate::text;
use crate::warning::{Fault, Notice};
use vstd::prelude::*;

verus! {

/// One thing to be done for a plan.
pub enum Step {
    /// Move a superseded profile into the backup directory.
    MoveAside { path: Place },
    /// Write a downloaded profile, given by its place among those downloaded.
    Write { destination: Place, profile: int },
    /// Say that the profile to be written was not downloaded.
    NotDownloaded { fir: FirCode },
}

/// The step that writes the profile of `fir` under `file_name`.
pub open spec fn write_step(
    store: Place,
    canonical: Seq<Published>,
    fir: FirCode,
    file_name: Seq<char>,
) -> Step {
    match published_at(canonical, fir) {
        Some(at) => Step::Write { destination: store.join(file_name), profile: at },
        None => Step::NotDownloaded { fir },
    }
}

/// The steps of one operation: its superseded files are moved aside, in order, before
/// its profile is written.
pub open spec fn op_steps(store: Place, canonical: Seq<Published>, op: Op) -> Seq<Step> {
    let moves = op.superseded().map_values(|path: Place| Step::MoveAside { path });
    match op.written() {
        Some(file_name) => moves.push(write_step(store, canonical, op.fir(), file_name)),
        None => moves,
    }
}

/// The steps of a plan, operation by operation.
pub open spec fn plan_steps(store: Place, canonical: Seq<Published>, ops: Seq<Op>) -> Seq<Step> {
    ops.flat_map(|op: Op| op_steps(store, canonical, op))
}

/// The directory that superseded profiles are moved to.
pub open spec fn backup_of(store: Place) -> Place {
    store.join("backup"@)
}

/// The `n`th place to try in `directory` for a file called `name`: first the name
/// itself, then the name with ` (2)`, ` (3)` and so on before its extension.
pub open spec fn candidate(directory: Place, name: Seq<char>, n: nat) -> Place {
    directory.join(candidate_name(name, n))
}

/// The name of the `n`th place to try for a file called `name`.
pub open spec fn candidate_name(name: Seq<char>, n: nat) -> Seq<char> {
    if n <= 1 {
        name
    } else {
        text::stem(name) + " ("@ + text::decimal(n) + ")"@ + text::dotted_extension(name)
    }
}

/// What has been done so far.
#[verifier::ext_equal]
pub struct Summary {
    pub profiles_written: nat,
    pub files_backed_up: nat,
    pub warnings: Seq<Notice>,
}

impl Summary {
    /// The summary with one more warning.
    pub open spec fn warned(self, warning: Notice) -> Summary {
        Summary { warnings: self.warnings.push(warning), ..self }
    }

    /// The summary with one more file backed up.
    pub open spec fn backed_up(self) -> Summary {
        Summary { files_backed_up: self.files_backed_up + 1, ..self }
    }

    /// The summary with one more profile written.
    pub open spec fn wrote(self) -> Summary {
        Summary { profiles_written: self.profiles_written + 1, ..self }
    }
}

/// Why a plan was given up.
pub enum Failure {
    CreatingStore { path: Place, reason: Seq<char> },
    Writing { path: Place, reason: Seq<char> },
}

/// What is being waited for.
pub enum Stage {
    /// The store being created.
    CreatingStore,
    /// The backup directory being created, to move the next step's file there.
    CreatingBackup,
    /// Whether the `n`th place to move the next step's file to is taken.
    Probing { n: nat },
    /// The next step's file being moved to the `n`th place.
    Moving { n: nat },
    /// The next step's profile being written.
    Writing,
    /// Nothing: all is done.
    Finished,
    /// Nothing: the plan was given up.
    GivenUp { failure: Failure },
}

/// What is asked of the file system.
pub enum Request {
    /// Create a directory, and those above it; it may exist already.
    CreateDirectory { path: Place },
    /// Say whether something exists at a path.
    Probe { path: Place },
    /// Move a file.
    Move { from: Place, to: Place },
    /// Write a downloaded profile, given by its place among those downloaded.
    Write { destination: Place, profile: int },
    /// Nothing more.
    Stop,
}

/// What the file system answers.
pub enum Answer {
    /// It was done.
    Done,
    /// It could not be done.
    Failed { reason: Seq<char> },
    /// Something exists there.
    Present,
    /// Nothing exists there.
    Absent,
}

/// A plan being carried out.
#[verifier::ext_equal]
pub struct Progress {
    /// The platform whose paths these are.
    pub platform: Platform,
    pub store: Place,
    pub steps: Seq<Step>,
    /// How many of the steps are behind.
    pub next: int,
    pub stage: Stage,
    pub summary: Summary,
}

impl Progress {
    /// The beginning. An inert plan is done with at once: nothing is asked for it.
    pub open spec fn start(
        platform: Platform,
        store: Place,
        canonical: Seq<Published>,
        plan: Decision,
    ) -> Progress {
        Progress {
            platform,
            store,
            steps: plan_steps(store, canonical, plan.ops),
            next: 0,
            stage: if plan.has_work() {
                Stage::CreatingStore
            } else {
                Stage::Finished
            },
            summary: Summary {
                profiles_written: 0,
                files_backed_up: 0,
                warnings: plan.warnings,
            },
        }
    }

    /// Going on with the step at `next`: the missing profiles that come first are
    /// reported, and the file system is asked for what comes after them.
    pub open spec fn go_on(self) -> Progress
        decreases self.steps.len() - self.next,
    {
        if self.next < 0 || self.next >= self.steps.len() {
            Progress { stage: Stage::Finished, ..self }
        } else {
            match self.steps[self.next] {
                Step::MoveAside { path } => Progress { stage: Stage::CreatingBackup, ..self },
                Step::Write { destination, profile } => Progress { stage: Stage::Writing, ..self },
                Step::NotDownloaded { fir } => Progress {
                    next: self.next + 1,
                    summary: self.summary.warned(Notice::NotDownloaded { fir }),
                    ..self
                }.go_on(),
            }
        }
    }

    /// The progress behind the step at `next`, with what was done added up in `summary`.
    pub open spec fn behind(self, summary: Summary) -> Progress {
        Progress { next: self.next + 1, summary, ..self }
    }

    /// The progress behind the step at `next`, whose file stayed where it was.
    pub open spec fn behind_unmoved(self, fault: Fault) -> Progress {
        self.behind(self.summary.warned(Notice::NotBackedUp { path: self.moving(), fault }))
    }

    /// The file that the step at `next` moves aside.
    pub open spec fn moving(self) -> Place
        recommends
            0 <= self.next < self.steps.len(),
            self.steps[self.next] is MoveAside,
    {
        self.steps[self.next]->path
    }

    /// The name of the file that the step at `next` moves aside, if its path ends in one.
    pub open spec fn moving_name(self) -> Option<Seq<char>> {
        self.moving().file_name(self.platform)
    }

    /// The `n`th place for the file that the step at `next` moves aside.
    pub open spec fn moving_to(self, n: nat) -> Place {
        candidate(backup_of(self.store), self.moving_name()->0, n)
    }

    /// What is asked of the file system now.
    pub open spec fn request(self) -> Request {
        match self.stage {
            Stage::CreatingStore => Request::CreateDirectory { path: self.store },
            Stage::CreatingBackup => Request::CreateDirectory { path: backup_of(self.store) },
            Stage::Probing { n } => Request::Probe { path: self.moving_to(n) },
            Stage::Moving { n } => Request::Move { from: self.moving(), to: self.moving_to(n) },
            Stage::Writing => Request::Write {
                destination: self.steps[self.next]->destination,
                profile: self.steps[self.next]->profile,
            },
            Stage::Finished => Request::Stop,
            Stage::GivenUp { failure } => Request::Stop,
        }
    }

    /// What follows from the answer.
    pub open spec fn answered(self, answer: Answer) -> Progress {
        match self.stage {
            Stage::CreatingStore => match answer {
                Answer::Failed { reason } => Progress {
                    stage: Stage::GivenUp {
                        failure: Failure::CreatingStore { path: self.store, reason },
                    },
                    ..self
                },
                _ => self.go_on(),
            },
            Stage::CreatingBackup => match answer {
                Answer::Failed { reason } => {
                    let directory = backup_of(self.store);
                    self.behind_unmoved(Fault::CreatingDirectory { directory }).go_on()
                },
                _ => match self.moving_name() {
                    None => self.behind_unmoved(Fault::NoFileName).go_on(),
                    Some(name) => Progress { stage: Stage::Probing { n: 1 }, ..self },
                },
            },
            Stage::Probing { n } => match answer {
                Answer::Present => Progress { stage: Stage::Probing { n: n + 1 }, ..self },
                _ => Progress { stage: Stage::Moving { n }, ..self },
            },
            Stage::Moving { n } => match answer {
                Answer::Failed { reason } => {
                    self.behind_unmoved(Fault::Moving { reason }).go_on()
                },
                _ => self.behind(self.summary.backed_up()).go_on(),
            },
            Stage::Writing => match answer {
                Answer::Failed { reason } => Progress {
                    stage: Stage::GivenUp {
                        failure: Failure::Writing {
                            path: self.steps[self.next]->destination,
                            reason,
                        },
                    },
                    ..self
                },
                _ => self.behind(self.summary.wrote()).go_on(),
            },
            Stage::Finished => self,
            Stage::GivenUp { failure } => self,
        }
    }

    /// The progress that is gone on with when the answer ends what is being waited for;
    /// `None` when it leads to something else that the same step waits for, or to the end.
    pub open spec fn resumed(self, answer: Answer) -> Option<Progress> {
        match self.stage {
            Stage::CreatingStore => if answer is Failed {
                None
            } else {
                Some(self)
            },
            Stage::CreatingBackup => if answer is Failed {
                let directory = backup_of(self.store);
                Some(self.behind_unmoved(Fault::CreatingDirectory { directory }))
            } else if self.moving_name() is None {
                Some(self.behind_unmoved(Fault::NoFileName))
            } else {
                None
            },
            Stage::Moving { n } => match answer {
                Answer::Failed { reason } => Some(self.behind_unmoved(Fault::Moving { reason })),
                _ => Some(self.behind(self.summary.backed_up())),
            },
            Stage::Writing => if answer is Failed {
                None
            } else {
                Some(self.behind(self.summary.wrote()))
            },
            _ => None,
        }
    }

    /// What follows from all of `answers`, in order.
    pub open spec fn after(self, answers: Seq<Answer>) -> Progress
        decreases answers.len(),
    {
        if answers.len() == 0 {
            self
        } else {
            self.after(answers.drop_last()).answered(answers.last())
        }
    }

    /// Whether nothing more is asked.
    pub open spec fn is_over(self) -> bool {
        self.stage is Finished || self.stage is GivenUp
    }

    /// That the stage fits the step that comes next, and nothing is counted twice.
    pub open spec fn wf(self) -> bool {
        &&& 0 <= self.next <= self.steps.len()
        &&& self.summary.profiles_written + self.summary.files_backed_up <= self.next
        &&& match self.stage {
            Stage::CreatingStore => self.next == 0,
            Stage::CreatingBackup => self.next < self.steps.len()
                && self.steps[self.next] is MoveAside,
            Stage::Probing { n } => n >= 1 && self.next < self.steps.len()
                && self.steps[self.next] is MoveAside && self.moving_name() is Some,
            Stage::Moving { n } => n >= 1 && self.next < self.steps.len()
                && self.steps[self.next] is MoveAside && self.moving_name() is Some,
            Stage::Writing => self.next < self.steps.len() && self.steps[self.next] is Write,
            Stage::Finished => true,
            Stage::GivenUp { failure } => true,
        }
    }
}

/// What going on leads to: it keeps the progress in order, never steps back, never leads
/// straight to a probe or a move, stops at each step that asks for something, and finishes
/// only behind the last.
pub(crate) proof fn lemma_go_on(p: Progress)
    requires
        0 <= p.next <= p.steps.len(),
        p.summary.profiles_written + p.summary.files_backed_up <= p.next,
    ensures
        p.go_on().wf(),
        p.go_on().platform == p.platform,
        p.go_on().store == p.store,
        p.go_on().steps == p.steps,
        p.next <= p.go_on().next <= p.steps.len(),
        p.go_on().stage is CreatingBackup || p.go_on().stage is Writing || p.go_on().stage
            is Finished,
        p.go_on().stage is Finished ==> p.go_on().next == p.steps.len(),
        forall|j: int|
            p.next <= j < p.go_on().next ==> (#[trigger] p.steps[j]) is NotDownloaded,
    decreases p.steps.len() - p.next,
{
    if p.next < p.steps.len() {
        if let Step::NotDownloaded { fir } = p.steps[p.next] {
            lemma_go_on(p.behind(p.summary.warned(Notice::NotDownloaded { fir })));
        }
    }
}

/// What an answer leads to: either the run goes on from where [`Progress::resumed`] says, at
/// most one step further, or it stays at the same step.
pub(crate) proof fn lemma_answer_leads(p: Progress, answer: Answer)
    requires
        p.wf(),
    ensures
        match p.resumed(answer) {
            Some(q) => {
                &&& p.answered(answer) == q.go_on()
                &&& q == p && p.stage is CreatingStore || q.next == p.next + 1 && p.next
                    < p.steps.len()
                &&& q.platform == p.platform && q.store == p.store && q.steps == p.steps
                &&& q.summary.profiles_written + q.summary.files_backed_up <= q.next
                &&& q.go_on().wf()
            },
            None => {
                let r = p.answered(answer);
                &&& r == Progress { stage: r.stage, ..p }
                &&& r.stage is Finished ==> p.stage is Finished
                &&& r.stage is Moving ==> p.stage is Probing && !(answer is Present)
                &&& r.wf()
            },
        },
{
    if let Some(q) = p.resumed(answer) {
        lemma_go_on(q);
    }
}

/// Whatever the file system answers, the progress stays in order, and neither the store
/// nor the steps change.
pub proof fn law_answers_keep_progress_in_order(p: Progress, answer: Answer)
    requires
        p.wf(),
    ensures
        p.answered(answer).wf(),
        p.answered(answer).platform == p.platform,
        p.answered(answer).store == p.store,
        p.answered(answer).steps == p.steps,
        p.answered(answer).next >= p.next,
{
    lemma_answer_leads(p, answer);
    if let Some(q) = p.resumed(answer) {
        lemma_go_on(q);
    }
}

/// The steps of a plan hold those of each of its operations.
pub(crate) proof fn lemma_plan_holds_op(
    store: Place,
    canonical: Seq<Published>,
    ops: Seq<Op>,
    i: int,
    step: Step,
)
    requires
        0 <= i < ops.len(),
        op_steps(store, canonical, ops[i]).contains(step),
    ensures
        plan_steps(store, canonical, ops).contains(step),
    decreases ops.len(),
{
    let steps_of = |op: Op| op_steps(store, canonical, op);
    let n = ops.len() - 1;
    ops.lemma_flat_map_take_append(steps_of, n);
    assert(ops.take(n + 1) == ops);
    let front = ops.take(n).flat_map(steps_of);
    let back = steps_of(ops[n]);
    assert(plan_steps(store, canonical, ops) == front + back);
    if i == n {
        let k = choose|k: int| 0 <= k < back.len() && back[k] == step;
        assert((front + back)[front.len() + k] == step);
    } else {
        assert(ops.take(n)[i] == ops[i]);
        lemma_plan_holds_op(store, canonical, ops.take(n), i, step);
        assert(plan_steps(store, canonical, ops.take(n)) == front);
        let k = choose|k: int| 0 <= k < front.len() && front[k] == step;
        assert((front + back)[k] == step);
    }
}

/// Each step of a plan is one of some operation's.
pub(crate) proof fn lemma_step_is_of_op(
    store: Place,
    canonical: Seq<Published>,
    ops: Seq<Op>,
    step: Step,
) -> (i: int)
    requires
        plan_steps(store, canonical, ops).contains(step),
    ensures
        0 <= i < ops.len(),
        op_steps(store, canonical, ops[i]).contains(step),
    decreases ops.len(),
{
    let steps_of = |op: Op| op_steps(store, canonical, op);
    if ops.len() == 0 {
        assert(plan_steps(store, canonical, ops) =~= Seq::empty());
        0
    } else {
        let n = ops.len() - 1;
        ops.lemma_flat_map_take_append(steps_of, n);
        assert(ops.take(n + 1) == ops);
        let front = ops.take(n).flat_map(steps_of);
        let back = steps_of(ops[n]);
        let k = choose|k: int|
            0 <= k < plan_steps(store, canonical, ops).len() && plan_steps(
                store,
                canonical,
                ops,
            )[k] == step;
        assert((front + back)[k] == step);
        if k < front.len() {
            assert(front[k] == step);
            assert(plan_steps(store, canonical, ops.take(n)) == front);
            let i = lemma_step_is_of_op(store, canonical, ops.take(n), step);
            assert(ops.take(n)[i] == ops[i]);
            i
        } else {
            assert(back[k - front.len()] == step);
            n
        }
    }
}

/// An inert plan has no steps.
pub(crate) proof fn lemma_inert_plan_has_no_steps(
    store: Place,
    canonical: Seq<Published>,
    plan: Decision,
)
    requires
        !plan.has_work(),
    ensures
        plan_steps(store, canonical, plan.ops).len() == 0,
{
    let steps = plan_steps(store, canonical, plan.ops);
    if steps.len() > 0 {
        assert(steps.contains(steps[0]));
        let i = lemma_step_is_of_op(store, canonical, plan.ops, steps[0]);
        assert(!plan.ops[i].is_actionable());
        assert(op_steps(store, canonical, plan.ops[i]) =~= Seq::empty());
    }
}

/// How many of `steps` move a file aside.
pub open spec fn moves_in(steps: Seq<Step>) -> nat {
    steps.filter(|step: Step| step is MoveAside).len()
}

/// How many of `steps` write a profile.
pub open spec fn writes_in(steps: Seq<Step>) -> nat {
    steps.filter(|step: Step| step is Write).len()
}

/// How many of `steps` report a missing profile.
pub open spec fn missing_in(steps: Seq<Step>) -> nat {
    steps.filter(|step: Step| step is NotDownloaded).len()
}

/// One step more is one more of its kind.
proof fn lemma_count_step(steps: Seq<Step>, j: int)
    requires
        0 <= j < steps.len(),
    ensures
        moves_in(steps.take(j + 1)) == moves_in(steps.take(j)) + if steps[j] is MoveAside {
            1int
        } else {
            0
        },
        writes_in(steps.take(j + 1)) == writes_in(steps.take(j)) + if steps[j] is Write {
            1int
        } else {
            0
        },
        missing_in(steps.take(j + 1)) == missing_in(steps.take(j)) + if steps[j] is NotDownloaded {
            1int
        } else {
            0
        },
{
    reveal(Seq::filter);
    assert(steps.take(j + 1).drop_last() == steps.take(j));
    assert(steps.take(j + 1).last() == steps[j]);
}

/// That the summary accounts for the steps behind: each file to be moved is either
/// counted or warned of, each profile is counted, each missing one is warned of, and the
/// warnings stand behind those of the plan.
pub open spec fn adds_up(p: Progress, planned: Seq<Notice>) -> bool {
    let behind = p.steps.take(p.next);
    &&& p.summary.profiles_written == writes_in(behind)
    &&& p.summary.files_backed_up <= moves_in(behind)
    &&& planned.is_prefix_of(p.summary.warnings)
    &&& p.summary.warnings.len() - planned.len() == moves_in(behind) - p.summary.files_backed_up
        + missing_in(behind)
}

/// Going on keeps the account.
proof fn lemma_go_on_adds_up(p: Progress, planned: Seq<Notice>)
    requires
        0 <= p.next <= p.steps.len(),
        adds_up(p, planned),
    ensures
        adds_up(p.go_on(), planned),
    decreases p.steps.len() - p.next,
{
    if p.next < p.steps.len() {
        if let Step::NotDownloaded { fir } = p.steps[p.next] {
            let q = Progress {
                next: p.next + 1,
                summary: p.summary.warned(Notice::NotDownloaded { fir }),
                ..p
            };
            lemma_count_step(p.steps, p.next);
            lemma_go_on_adds_up(q, planned);
        }
    }
}

/// An answer keeps the account.
proof fn lemma_answered_adds_up(p: Progress, planned: Seq<Notice>, answer: Answer)
    requires
        p.wf(),
        adds_up(p, planned),
        p.stage is Finished ==> p.next == p.steps.len(),
    ensures
        adds_up(p.answered(answer), planned),
        p.answered(answer).stage is Finished ==> p.answered(answer).next == p.steps.len(),
{
    lemma_answer_leads(p, answer);
    if let Some(q) = p.resumed(answer) {
        if p.next < p.steps.len() {
            lemma_count_step(p.steps, p.next);
        }
        lemma_go_on_adds_up(q, planned);
        lemma_go_on(q);
    }
}

/// Whatever the file system answered, the summary of a finished run accounts for the
/// whole plan: every profile that the plan writes was written, every superseded file was
/// backed up or is warned of, and every missing download is warned of, behind the
/// warnings of the plan itself.
pub proof fn law_the_summary_adds_up(
    platform: Platform,
    store: Place,
    canonical: Seq<Published>,
    plan: Decision,
    answers: Seq<Answer>,
)
    requires
        Progress::start(platform, store, canonical, plan).after(answers).stage is Finished,
    ensures
        ({
            let end = Progress::start(platform, store, canonical, plan).after(answers);
            let steps = plan_steps(store, canonical, plan.ops);
            &&& end.summary.profiles_written == writes_in(steps)
            &&& end.summary.files_backed_up <= moves_in(steps)
            &&& plan.warnings.is_prefix_of(end.summary.warnings)
            &&& end.summary.warnings.len() == plan.warnings.len() + (moves_in(steps)
                - end.summary.files_backed_up) + missing_in(steps)
        }),
{
    let start = Progress::start(platform, store, canonical, plan);
    assert(start.steps.take(0) =~= Seq::empty());
    reveal(Seq::filter);
    assert(adds_up(start, plan.warnings));
    if !plan.has_work() {
        lemma_inert_plan_has_no_steps(store, canonical, plan);
    }
    lemma_run_adds_up(start, plan.warnings, answers);
    assert(start.steps.take(start.steps.len() as int) == start.steps);
}

/// All along a run the account is kept.
proof fn lemma_run_adds_up(start: Progress, planned: Seq<Notice>, answers: Seq<Answer>)
    requires
        start.wf(),
        adds_up(start, planned),
        start.stage is Finished ==> start.next == start.steps.len(),
    ensures
        ({
            let end = start.after(answers);
            &&& end.wf()
            &&& end.steps == start.steps
            &&& adds_up(end, planned)
            &&& end.stage is Finished ==> end.next == start.steps.len()
        }),
    decreases answers.len(),
{
    if answers.len() > 0 {
        let before = start.after(answers.drop_last());
        lemma_run_adds_up(start, planned, answers.drop_last());
        law_answers_keep_progress_in_order(before, answers.last());
        lemma_answered_adds_up(before, planned, answers.last());
    }
}

/// A plan that would change nothing asks nothing of the file system, and is over with
/// only the plan's own warnings to report.
pub proof fn law_an_inert_plan_asks_nothing(
    platform: Platform,
    store: Place,
    canonical: Seq<Published>,
    plan: Decision,
    answers: Seq<Answer>,
)
    requires
        !plan.has_work(),
    ensures
        ({
            let end = Progress::start(platform, store, canonical, plan).after(answers);
            &&& end.request() is Stop
            &&& end.stage is Finished
            &&& end.summary == (Summary {
                profiles_written: 0,
                files_backed_up: 0,
                warnings: plan.warnings,
            })
        }),
    decreases answers.len(),
{
    if answers.len() > 0 {
        law_an_inert_plan_asks_nothing(platform, store, canonical, plan, answers.drop_last());
        lemma_start_stays_finished(Progress::start(platform, store, canonical, plan), answers);
    }
}

/// What is finished stays as it is.
proof fn lemma_start_stays_finished(start: Progress, answers: Seq<Answer>)
    requires
        start.stage is Finished,
    ensures
        start.after(answers) == start,
    decreases answers.len(),
{
    if answers.len() > 0 {
        lemma_start_stays_finished(start, answers.drop_last());
    }
}

/// A move is asked for only when its destination was probed, and not found taken, just
/// before.
pub proof fn law_a_move_is_probed_first(p: Progress, answer: Answer)
    requires
        p.wf(),
        p.answered(answer).request() is Move,
    ensures
        p.request() == (Request::Probe { path: p.answered(answer).request()->to }),
        !(answer is Present),
{
    lemma_answer_leads(p, answer);
    if let Some(q) = p.resumed(answer) {
        lemma_go_on(q);
    }
}

} // verus!
