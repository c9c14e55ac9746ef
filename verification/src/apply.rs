//! Carrying out a [`VatisPlan`] on a profile store.
//!
//! [`apply`] gives a run. The run says what it wants of the file system, one
//! [`Action`] at a time; the caller does it and hands back the [`Event`] that came of it.

use crate::fir::FirCode;
use crate::location::{Location, Place};
use crate::paths::Platform;
use crate::plan::{find_published, CanonicalProfile, Op, ProfileOp, VatisPlan};
use crate::progress::{
    candidate, candidate_name, law_answers_keep_progress_in_order, lemma_go_on, op_steps,
    plan_steps, write_step, Answer, Failure, Progress, Request, Stage, Step, Summary,
};
use crate::text;
use crate::views::{lemma_views_push, views};
use crate::warning::{
    copy_warnings, text as words, BackupFault, Fragment, Notice, Piece, Warning,
};
use vstd::prelude::*;

verus! {

/// What was done, and what was passed over.
#[derive(Debug, Clone, PartialEq, Eq)]
pub struct VatisSummary {
    pub profiles_written: usize,
    pub files_backed_up: usize,
    pub warnings: Vec<Warning>,
}

impl View for VatisSummary {
    type V = Summary;

    open spec fn view(&self) -> Summary {
        Summary {
            profiles_written: self.profiles_written as nat,
            files_backed_up: self.files_backed_up as nat,
            warnings: views(self.warnings@),
        }
    }
}

impl Default for VatisSummary {
    fn default() -> (r: VatisSummary)
        ensures
            r@ == (Summary { profiles_written: 0, files_backed_up: 0, warnings: Seq::empty() }),
    {
        let r = VatisSummary { profiles_written: 0, files_backed_up: 0, warnings: Vec::new() };
        proof {
            assert(r@.warnings =~= Seq::empty());
        }
        r
    }
}

impl VatisSummary {
    /// Add `more` warnings behind those that are there.
    pub fn extend_warnings(&mut self, more: Vec<Warning>)
        ensures
            final(self)@ == (Summary {
                warnings: old(self)@.warnings + views(more@),
                ..old(self)@
            }),
    {
        let mut more = more;
        let ghost added = views(more@);
        let ghost before = views(self.warnings@);
        self.warnings.append(&mut more);
        proof {
            assert(views(self.warnings@) =~= before + added);
        }
    }

    /// Add a warning behind those that are there.
    fn warn(&mut self, warning: Warning)
        ensures
            final(self)@ == old(self)@.warned(warning@),
    {
        proof {
            lemma_views_push(self.warnings@, warning);
        }
        self.warnings.push(warning);
    }
}

/// Why a plan was given up.
#[derive(Debug, Clone, PartialEq, Eq)]
pub enum ApplyError {
    /// The profile store could not be created.
    CreatingStore { path: Location, reason: String },
    /// A profile could not be written.
    Writing { path: Location, reason: String },
}

impl View for ApplyError {
    type V = Failure;

    open spec fn view(&self) -> Failure {
        match self {
            ApplyError::CreatingStore { path, reason } => Failure::CreatingStore {
                path: path@,
                reason: reason@,
            },
            ApplyError::Writing { path, reason } => Failure::Writing {
                path: path@,
                reason: reason@,
            },
        }
    }
}

impl Failure {
    /// What was being done, in words.
    pub open spec fn message(self) -> Seq<Piece> {
        match self {
            Failure::CreatingStore { path, reason } => seq![
                Piece::Text("creating profile store "@),
                Piece::Path(path),
            ],
            Failure::Writing { path, reason } => seq![
                Piece::Text("writing "@),
                Piece::Path(path),
            ],
        }
    }
}

impl ApplyError {
    /// What was being done, in words; the reason why it failed is apart from it.
    pub fn message(&self) -> (r: Vec<Fragment>)
        ensures
            views(r@) == self@.message(),
    {
        let mut r: Vec<Fragment> = Vec::new();
        match self {
            ApplyError::CreatingStore { path, .. } => {
                r.push(words("creating profile store "));
                r.push(Fragment::Path(path.clone()));
            },
            ApplyError::Writing { path, .. } => {
                r.push(words("writing "));
                r.push(Fragment::Path(path.clone()));
            },
        }
        proof {
            assert(views(r@) =~= self@.message());
        }
        r
    }
}

/// What a run wants of the file system.
#[derive(Debug, Clone, PartialEq, Eq)]
pub enum Action {
    /// Create a directory, and those above it; it may exist already.
    CreateDirectory { path: Location },
    /// Say whether something exists at a path.
    Probe { path: Location },
    /// Move a file.
    Move { from: Location, to: Location },
    /// Write the bytes of a downloaded profile, given by its place among those downloaded.
    Write { destination: Location, profile: usize },
    /// Nothing more: the run is over.
    Stop,
}

impl View for Action {
    type V = Request;

    open spec fn view(&self) -> Request {
        match self {
            Action::CreateDirectory { path } => Request::CreateDirectory { path: path@ },
            Action::Probe { path } => Request::Probe { path: path@ },
            Action::Move { from, to } => Request::Move { from: from@, to: to@ },
            Action::Write { destination, profile } => Request::Write {
                destination: destination@,
                profile: *profile as int,
            },
            Action::Stop => Request::Stop,
        }
    }
}

/// What came of an [`Action`].
#[derive(Debug, Clone, PartialEq, Eq)]
pub enum Event {
    /// It was done.
    Done,
    /// It could not be done.
    Failed { reason: String },
    /// Something exists at the probed path.
    Present,
    /// Nothing exists at the probed path.
    Absent,
}

impl View for Event {
    type V = Answer;

    open spec fn view(&self) -> Answer {
        match self {
            Event::Done => Answer::Done,
            Event::Failed { reason } => Answer::Failed { reason: reason@ },
            Event::Present => Answer::Present,
            Event::Absent => Answer::Absent,
        }
    }
}

/// One thing to be done for a plan.
enum Task {
    MoveAside { path: Location },
    Write { destination: Location, profile: usize },
    NotDownloaded { fir: FirCode },
}

impl View for Task {
    type V = Step;

    closed spec fn view(&self) -> Step {
        match self {
            Task::MoveAside { path } => Step::MoveAside { path: path@ },
            Task::Write { destination, profile } => Step::Write {
                destination: destination@,
                profile: *profile as int,
            },
            Task::NotDownloaded { fir } => Step::NotDownloaded { fir: *fir },
        }
    }
}

/// What a run is waiting for. The number of a place is kept in decimal.
enum Waiting {
    CreatingStore,
    CreatingBackup,
    Probing { number: String, n: Ghost<nat> },
    Moving { number: String, n: Ghost<nat> },
    Writing,
    Finished,
    GivenUp { error: ApplyError },
}

impl View for Waiting {
    type V = Stage;

    closed spec fn view(&self) -> Stage {
        match self {
            Waiting::CreatingStore => Stage::CreatingStore,
            Waiting::CreatingBackup => Stage::CreatingBackup,
            Waiting::Probing { number, n } => Stage::Probing { n: n@ },
            Waiting::Moving { number, n } => Stage::Moving { n: n@ },
            Waiting::Writing => Stage::Writing,
            Waiting::Finished => Stage::Finished,
            Waiting::GivenUp { error } => Stage::GivenUp { failure: error@ },
        }
    }
}

/// A plan being carried out.
pub struct ApplyRun {
    platform: Platform,
    store: Location,
    tasks: Vec<Task>,
    next: usize,
    stage: Waiting,
    summary: VatisSummary,
}

impl View for ApplyRun {
    type V = Progress;

    closed spec fn view(&self) -> Progress {
        Progress {
            platform: self.platform,
            store: self.store@,
            steps: views(self.tasks@),
            next: self.next as int,
            stage: self.stage@,
            summary: self.summary@,
        }
    }
}

/// The step that writes the profile of `fir` under `file_name`.
fn write_task(
    store: &Location,
    canonical: &[CanonicalProfile],
    fir: FirCode,
    file_name: &str,
) -> (r: Task)
    ensures
        r@ == write_step(store@, views(canonical@), fir, file_name@),
{
    match find_published(canonical, fir) {
        Some(at) => Task::Write { destination: store.join(file_name), profile: at },
        None => Task::NotDownloaded { fir },
    }
}

/// Append the steps that move `paths` aside.
fn push_moves(tasks: &mut Vec<Task>, paths: &Vec<Location>)
    ensures
        views(final(tasks)@) == views(old(tasks)@) + views(paths@).map_values(
            |path: Place| Step::MoveAside { path },
        ),
{
    let ghost before = views(tasks@);
    let ghost moves = views(paths@).map_values(|path: Place| Step::MoveAside { path });
    let mut i: usize = 0;
    proof {
        assert(before =~= before + moves.take(0));
    }
    while i < paths.len()
        invariant
            i <= paths@.len(),
            moves == views(paths@).map_values(|path: Place| Step::MoveAside { path }),
            views(tasks@) == before + moves.take(i as int),
        decreases paths@.len() - i,
    {
        let task = Task::MoveAside { path: paths[i].clone() };
        proof {
            lemma_views_push(tasks@, task);
            assert(moves.take(i + 1) =~= moves.take(i as int).push(task@));
            assert((before + moves.take(i as int)).push(task@) =~= before + moves.take(i + 1));
        }
        tasks.push(task);
        i = i + 1;
    }
    proof {
        assert(moves.take(moves.len() as int) == moves);
    }
}

/// The steps of a plan, operation by operation.
fn list_tasks(store: &Location, canonical: &[CanonicalProfile], ops: &Vec<ProfileOp>) -> (r: Vec<
    Task,
>)
    ensures
        views(r@) == plan_steps(store@, views(canonical@), views(ops@)),
{
    let ghost all = views(ops@);
    let ghost steps_of = |op: Op| op_steps(store@, views(canonical@), op);
    let mut r: Vec<Task> = Vec::new();
    let mut i: usize = 0;
    proof {
        assert(views(r@) =~= all.take(0).flat_map(steps_of));
    }
    while i < ops.len()
        invariant
            i <= ops@.len(),
            all == views(ops@),
            steps_of == (|op: Op| op_steps(store@, views(canonical@), op)),
            views(r@) == all.take(i as int).flat_map(steps_of),
        decreases ops@.len() - i,
    {
        let ghost before = views(r@);
        proof {
            all.lemma_flat_map_take_append(steps_of, i as int);
        }
        match &ops[i] {
            ProfileOp::Skip { .. } => {
                proof {
                    assert(before =~= before + steps_of(all[i as int]));
                }
            },
            ProfileOp::Write { fir, file_name } => {
                let task = write_task(store, canonical, *fir, file_name.as_str());
                proof {
                    lemma_views_push(r@, task);
                    assert(before.push(task@) =~= before + steps_of(all[i as int]));
                }
                r.push(task);
            },
            ProfileOp::BackUp { superseded, .. } => {
                push_moves(&mut r, superseded);
            },
            ProfileOp::BackupThenReplace { fir, superseded, file_name } => {
                push_moves(&mut r, superseded);
                let task = write_task(store, canonical, *fir, file_name.as_str());
                proof {
                    lemma_views_push(r@, task);
                    assert(views(r@).push(task@) =~= before + steps_of(all[i as int]));
                }
                r.push(task);
            },
        }
        i = i + 1;
    }
    proof {
        assert(all.take(all.len() as int) == all);
    }
    r
}

/// The place numbered `number` to try in `directory` for a file called `name`. Numbers
/// from two on are put in the name, so that an earlier backup is never overwritten.
fn destination_candidate(
    directory: &Location,
    name: &str,
    number: &str,
    Ghost(n): Ghost<nat>,
) -> (r: Location)
    requires
        n >= 1,
        number@ == text::decimal(n),
    ensures
        r@ == candidate(directory@, name@, n),
{
    if is_one(number, Ghost(n)) {
        return directory.join(name);
    }
    let (stem, extension) = text::part_extension(name);
    let mut numbered = stem;
    numbered.append(" (");
    numbered.append(number);
    numbered.append(")");
    numbered.append(extension.as_str());
    proof {
        assert(numbered@ =~= candidate_name(name@, n));
    }
    directory.join(numbered.as_str())
}

/// Whether a number written in decimal is one.
fn is_one(number: &str, Ghost(n): Ghost<nat>) -> (r: bool)
    requires
        number@ == text::decimal(n),
    ensures
        r == (n == 1),
{
    proof {
        if n >= 10 {
            text::lemma_decimal_not_empty(n / 10);
        }
    }
    number.unicode_len() == 1 && number.get_char(0) == '1'
}

impl ApplyRun {
    /// The progress is in order, and the number kept in decimal is that of the place.
    #[verifier::type_invariant]
    closed spec fn in_order(self) -> bool {
        &&& self@.wf()
        &&& match self.stage {
            Waiting::Probing { number, n } => number@ == text::decimal(n@),
            Waiting::Moving { number, n } => number@ == text::decimal(n@),
            _ => true,
        }
    }

    /// Go on with the step at `next`, as `p` does.
    fn go_on(
        platform: Platform,
        store: Location,
        tasks: Vec<Task>,
        next: usize,
        summary: VatisSummary,
        Ghost(p): Ghost<Progress>,
    ) -> (r: ApplyRun)
        requires
            p.platform == platform,
            p.store == store@,
            p.steps == views(tasks@),
            p.next == next,
            p.summary == summary@,
            next <= tasks@.len(),
            summary@.profiles_written + summary@.files_backed_up <= next,
        ensures
            r@ == p.go_on(),
    {
        let ghost mut at = p;
        let mut next: usize = next;
        let mut summary = summary;
        loop
            invariant
                at.go_on() == p.go_on(),
                at.platform == platform,
                at.store == store@,
                at.steps == views(tasks@),
                at.next == next,
                at.summary == summary@,
                next <= tasks@.len(),
                summary@.profiles_written + summary@.files_backed_up <= next,
            decreases tasks@.len() - next,
        {
            proof {
                lemma_go_on(at);
            }
            if next == tasks.len() {
                return ApplyRun {
                    platform,
                    store,
                    tasks,
                    next,
                    stage: Waiting::Finished,
                    summary,
                };
            }
            match &tasks[next] {
                Task::MoveAside { .. } => {
                    return ApplyRun {
                        platform,
                        store,
                        tasks,
                        next,
                        stage: Waiting::CreatingBackup,
                        summary,
                    };
                },
                Task::Write { .. } => {
                    return ApplyRun {
                        platform,
                        store,
                        tasks,
                        next,
                        stage: Waiting::Writing,
                        summary,
                    };
                },
                Task::NotDownloaded { fir } => {
                    summary.warn(Warning::NotDownloaded { fir: *fir });
                    proof {
                        at = Progress {
                            next: at.next + 1,
                            summary: at.summary.warned(Notice::NotDownloaded { fir: *fir }),
                            ..at
                        };
                    }
                },
            }
            next = next + 1;
        }
    }

    /// The file that the step at `next` moves aside.
    fn moving(&self) -> (r: &Location)
        requires
            self@.next < self@.steps.len(),
            self@.steps[self@.next] is MoveAside,
        ensures
            r@ == self@.moving(),
    {
        proof {
            use_type_invariant(self);
            assert(self@.steps[self.next as int] == self.tasks@[self.next as int]@);
        }
        match &self.tasks[self.next] {
            Task::MoveAside { path } => path,
            Task::Write { destination, .. } => destination,
            Task::NotDownloaded { .. } => &self.store,
        }
    }

    /// The place numbered `number` for the file that the step at `next` moves aside.
    fn destination(&self, number: &str, Ghost(n): Ghost<nat>) -> (r: Location)
        requires
            self@.next < self@.steps.len(),
            self@.steps[self@.next] is MoveAside,
            self@.moving_name() is Some,
            n >= 1,
            number@ == text::decimal(n),
        ensures
            r@ == self@.moving_to(n),
    {
        let backup = self.store.join("backup");
        match self.moving().file_name(self.platform) {
            Some(name) => destination_candidate(&backup, name.as_str(), number, Ghost(n)),
            None => backup,
        }
    }

    /// What the run wants of the file system now.
    pub fn action(&self) -> (r: Action)
        ensures
            r@ == self@.request(),
    {
        proof {
            use_type_invariant(self);
        }
        match &self.stage {
            Waiting::CreatingStore => Action::CreateDirectory { path: self.store.clone() },
            Waiting::CreatingBackup => Action::CreateDirectory { path: self.store.join("backup") },
            Waiting::Probing { number, n } => {
                Action::Probe { path: self.destination(number.as_str(), *n) }
            },
            Waiting::Moving { number, n } => {
                let to = self.destination(number.as_str(), *n);
                Action::Move { from: self.moving().clone(), to }
            },
            Waiting::Writing => match &self.tasks[self.next] {
                Task::Write { destination, profile } => {
                    proof {
                        assert(self@.steps[self.next as int] == self.tasks@[self.next as int]@);
                    }
                    Action::Write { destination: destination.clone(), profile: *profile }
                },
                _ => {
                    proof {
                        assert(self@.steps[self.next as int] == self.tasks@[self.next as int]@);
                    }
                    Action::Stop
                },
            },
            Waiting::Finished => Action::Stop,
            Waiting::GivenUp { .. } => Action::Stop,
        }
    }

    /// The run after the action it wanted came to `event`.
    ///
    /// A profile that cannot be moved is not worth aborting the whole migration for: any
    /// replacement still lands, and a warning tells which file stayed put.
    pub fn advance(self, event: Event) -> (r: ApplyRun)
        ensures
            r@ == self@.answered(event@),
    {
        proof {
            use_type_invariant(&self);
            law_answers_keep_progress_in_order(self@, event@);
        }
        let ghost p = self@;
        match self.stage {
            Waiting::CreatingStore => match event {
                Event::Failed { reason } => {
                    let error = ApplyError::CreatingStore { path: self.store.clone(), reason };
                    ApplyRun {
                        platform: self.platform,
                        store: self.store,
                        tasks: self.tasks,
                        next: self.next,
                        stage: Waiting::GivenUp { error },
                        summary: self.summary,
                    }
                },
                _ => Self::go_on(
                    self.platform,
                    self.store,
                    self.tasks,
                    self.next,
                    self.summary,
                    Ghost(p),
                ),
            },
            Waiting::CreatingBackup => {
                let path = self.moving().clone();
                let failed = match event {
                    Event::Failed { .. } => true,
                    _ => false,
                };
                if !failed && path.file_name(self.platform).is_some() {
                    proof {
                        text::lemma_decimal_one();
                    }
                    return ApplyRun {
                        platform: self.platform,
                        store: self.store,
                        tasks: self.tasks,
                        next: self.next,
                        stage: Waiting::Probing { number: "1".to_owned(), n: Ghost(1) },
                        summary: self.summary,
                    };
                }
                let fault = if failed {
                    BackupFault::CreatingDirectory { directory: self.store.join("backup") }
                } else {
                    BackupFault::NoFileName
                };
                Self::not_backed_up(self, path, fault)
            },
            Waiting::Probing { number, n } => match event {
                Event::Present => {
                    let next_number = text::successor(number.as_str(), n);
                    ApplyRun {
                        platform: self.platform,
                        store: self.store,
                        tasks: self.tasks,
                        next: self.next,
                        stage: Waiting::Probing { number: next_number, n: Ghost(n@ + 1) },
                        summary: self.summary,
                    }
                },
                _ => ApplyRun {
                    platform: self.platform,
                    store: self.store,
                    tasks: self.tasks,
                    next: self.next,
                    stage: Waiting::Moving { number, n },
                    summary: self.summary,
                },
            },
            Waiting::Moving { .. } => match event {
                Event::Failed { reason } => {
                    let path = self.moving().clone();
                    self.not_backed_up(path, BackupFault::Moving { reason })
                },
                _ => {
                    let mut summary = self.summary;
                    proof {
                        assert(self.next < self.tasks.len());
                    }
                    summary.files_backed_up = summary.files_backed_up + 1;
                    let ghost done = Progress { next: p.next + 1, summary: summary@, ..p };
                    Self::go_on(
                        self.platform,
                        self.store,
                        self.tasks,
                        self.next + 1,
                        summary,
                        Ghost(done),
                    )
                },
            },
            Waiting::Writing => match event {
                Event::Failed { reason } => {
                    let path = match &self.tasks[self.next] {
                        Task::Write { destination, .. } => destination.clone(),
                        _ => self.store.clone(),
                    };
                    proof {
                        assert(p.steps[p.next] == self.tasks@[p.next]@);
                    }
                    ApplyRun {
                        platform: self.platform,
                        store: self.store,
                        tasks: self.tasks,
                        next: self.next,
                        stage: Waiting::GivenUp { error: ApplyError::Writing { path, reason } },
                        summary: self.summary,
                    }
                },
                _ => {
                    let mut summary = self.summary;
                    proof {
                        assert(self.next < self.tasks.len());
                    }
                    summary.profiles_written = summary.profiles_written + 1;
                    let ghost done = Progress { next: p.next + 1, summary: summary@, ..p };
                    Self::go_on(
                        self.platform,
                        self.store,
                        self.tasks,
                        self.next + 1,
                        summary,
                        Ghost(done),
                    )
                },
            },
            Waiting::Finished => self,
            Waiting::GivenUp { .. } => self,
        }
    }

    /// Go on behind the step at `next`, whose file stayed where it was.
    fn not_backed_up(self, path: Location, fault: BackupFault) -> (r: ApplyRun)
        requires
            self@.next < self@.steps.len(),
        ensures
            r@ == self@.behind(
                self@.summary.warned(Notice::NotBackedUp { path: path@, fault: fault@ }),
            ).go_on(),
    {
        proof {
            use_type_invariant(&self);
        }
        let ghost p = self@;
        proof {
            assert(self.next < self.tasks.len());
        }
        let mut summary = self.summary;
        summary.warn(Warning::NotBackedUp { path, fault });
        let ghost done = Progress { next: p.next + 1, summary: summary@, ..p };
        Self::go_on(
                        self.platform,
                        self.store,
                        self.tasks,
                        self.next + 1,
                        summary,
                        Ghost(done),
                    )
    }

    /// How the run ended; `None` while it goes on.
    pub fn outcome(self) -> (r: Option<Result<VatisSummary, ApplyError>>)
        ensures
            match self@.stage {
                Stage::Finished => r matches Some(Ok(summary)) && summary@ == self@.summary,
                Stage::GivenUp { failure } => r matches Some(Err(error)) && error@ == failure,
                _ => r is None,
            },
    {
        match self.stage {
            Waiting::Finished => Some(Ok(self.summary)),
            Waiting::GivenUp { error } => Some(Err(error)),
            _ => None,
        }
    }
}

/// Apply a plan to the store `profiles_dir`, moving superseded profiles into `backup/`
/// and writing the current ones under their canonical ids. The paths are those of
/// `platform`.
///
/// The store directory is created when absent: vATIS creates it at startup and reads
/// whatever it finds, so profiles can legitimately be staged before the client has ever
/// been launched.
pub fn apply_for(
    platform: Platform,
    profiles_dir: &Location,
    canonical: &[CanonicalProfile],
    plan: &VatisPlan,
) -> (r: ApplyRun)
    ensures
        r@ == Progress::start(platform, profiles_dir@, views(canonical@), plan@),
{
    let summary = VatisSummary {
        profiles_written: 0,
        files_backed_up: 0,
        warnings: copy_warnings(&plan.warnings),
    };
    let tasks = list_tasks(profiles_dir, canonical, &plan.ops);
    let stage = if plan.has_work() {
        Waiting::CreatingStore
    } else {
        Waiting::Finished
    };
    ApplyRun { platform, store: profiles_dir.clone(), tasks, next: 0, stage, summary }
}

/// Apply a plan to the store `profiles_dir` on this host.
pub fn apply(profiles_dir: &Location, canonical: &[CanonicalProfile], plan: &VatisPlan) -> (r:
    ApplyRun)
    ensures
        exists|platform: Platform|
            platform.is_host() && r@ == #[trigger] Progress::start(
                platform,
                profiles_dir@,
                views(canonical@),
                plan@,
            ),
{
    apply_for(Platform::host(), profiles_dir, canonical, plan)
}

} // verus!
