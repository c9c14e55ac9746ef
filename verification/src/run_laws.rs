//! What a run asks for and reports, said of the store, the plan and the answers alone.

use crate::fir::FirCode;
use crate::location::Place;
use crate::paths::Platform;
use crate::plain::{is_number, is_numbered, is_parted, value_of};
use crate::plan::{Decision, Op, Published};
use crate::plan_laws::{is_first_published, is_published, lemma_first_published};
use crate::progress::{
    candidate_name, law_answers_keep_progress_in_order, lemma_answer_leads, lemma_go_on,
    lemma_inert_plan_has_no_steps, lemma_step_is_of_op, op_steps, plan_steps, Answer, Failure,
    Progress, Request, Stage, Step,
};
use crate::text;
use crate::warning::{Fault, Notice};
use vstd::prelude::*;

verus! {

/// The place called `name` directly in `directory`.
pub open spec fn inside(directory: Place, name: Seq<char>) -> Place {
    Place { base: directory.base, names: directory.names.push(name) }
}

/// The directory called `backup` in the store.
pub open spec fn backup_in(store: Place) -> Place {
    inside(store, seq!['b', 'a', 'c', 'k', 'u', 'p'])
}

/// Whether the place lies directly in the directory called `backup` in the store.
pub open spec fn is_in_backup(store: Place, place: Place) -> bool {
    exists|name: Seq<char>| place == #[trigger] inside(backup_in(store), name)
}

/// Whether the operation is there to move the file at `place`.
pub open spec fn moves(op: Op, place: Place) -> bool {
    match op {
        Op::BackupThenReplace { fir, superseded, file_name } => superseded.contains(place),
        Op::BackUp { fir, superseded } => superseded.contains(place),
        Op::Write { fir, file_name } => false,
        Op::Skip { fir } => false,
    }
}

/// Whether the operation is there to write the profile of `of` under `name`.
pub open spec fn writes(op: Op, of: FirCode, name: Seq<char>) -> bool {
    match op {
        Op::BackupThenReplace { fir, superseded, file_name } => fir == of && file_name == name,
        Op::BackUp { fir, superseded } => false,
        Op::Write { fir, file_name } => fir == of && file_name == name,
        Op::Skip { fir } => false,
    }
}

/// Whether the run may ask for this: to create the store or the directory `backup` in it, to
/// look or to move a file of the plan into that directory, or to write a published profile of
/// the plan into the store under the name that the plan gives it.
pub open spec fn may_be_asked(
    store: Place,
    canonical: Seq<Published>,
    plan: Decision,
    request: Request,
) -> bool {
    match request {
        Request::CreateDirectory { path } => path == store || path == backup_in(store),
        Request::Probe { path } => is_in_backup(store, path),
        Request::Move { from, to } => is_in_backup(store, to) && exists|i: int|
            0 <= i < plan.ops.len() && moves(#[trigger] plan.ops[i], from),
        Request::Write { destination, profile } => exists|i: int, of: FirCode, name: Seq<char>|
            {
                &&& 0 <= i < plan.ops.len()
                &&& #[trigger] writes(plan.ops[i], of, name)
                &&& destination == inside(store, name)
                &&& is_first_published(canonical, of, profile)
            },
        Request::Stop => true,
    }
}

/// How a run stands after any answers.
proof fn lemma_stands(
    platform: Platform,
    store: Place,
    canonical: Seq<Published>,
    plan: Decision,
    answers: Seq<Answer>,
)
    ensures
        ({
            let p = Progress::start(platform, store, canonical, plan).after(answers);
            &&& p.wf()
            &&& p.platform == platform
            &&& p.store == store
            &&& p.steps == plan_steps(store, canonical, plan.ops)
            &&& p.stage is Finished ==> p.next == p.steps.len()
        }),
    decreases answers.len(),
{
    let start = Progress::start(platform, store, canonical, plan);
    if answers.len() == 0 {
        if !plan.has_work() {
            lemma_inert_plan_has_no_steps(store, canonical, plan);
        }
    } else {
        let before = start.after(answers.drop_last());
        lemma_stands(platform, store, canonical, plan, answers.drop_last());
        law_answers_keep_progress_in_order(before, answers.last());
        lemma_answer_leads(before, answers.last());
        if let Some(q) = before.resumed(answers.last()) {
            lemma_go_on(q);
        }
    }
}

/// What a run asks the directories and names for, by its stage.
proof fn lemma_backup_is_in(p: Progress)
    requires
        p.wf(),
    ensures
        match p.stage {
            Stage::CreatingStore => p.request() == (Request::CreateDirectory { path: p.store }),
            Stage::CreatingBackup => p.request() == (Request::CreateDirectory {
                path: backup_in(p.store),
            }),
            Stage::Probing { n } => p.request() == (Request::Probe {
                path: inside(backup_in(p.store), candidate_name(p.moving_name()->0, n)),
            }),
            Stage::Moving { n } => p.request() == (Request::Move {
                from: p.steps[p.next]->path,
                to: inside(backup_in(p.store), candidate_name(p.moving_name()->0, n)),
            }),
            Stage::Writing => p.request() == (Request::Write {
                destination: p.steps[p.next]->destination,
                profile: p.steps[p.next]->profile,
            }),
            Stage::Finished => p.request() is Stop,
            Stage::GivenUp { failure } => p.request() is Stop,
        },
{
    reveal_strlit("backup");
    assert("backup"@ =~= seq!['b', 'a', 'c', 'k', 'u', 'p']);
}

/// Whatever was answered, a run that was started on a store asks only for what is to be done
/// in that store: every place that it looks at, and every place that it moves a file to, lies
/// directly in the directory `backup` of that store; every file moved is one that the plan
/// says; and every profile written is the first published one of a region that the plan
/// writes, directly in the store under the name that the plan says.
pub proof fn law_a_run_keeps_to_its_store_and_plan(
    platform: Platform,
    store: Place,
    canonical: Seq<Published>,
    plan: Decision,
    answers: Seq<Answer>,
)
    ensures
        may_be_asked(
            store,
            canonical,
            plan,
            Progress::start(platform, store, canonical, plan).after(answers).request(),
        ),
{
    let p = Progress::start(platform, store, canonical, plan).after(answers);
    lemma_stands(platform, store, canonical, plan, answers);
    lemma_backup_is_in(p);
    let request = p.request();
    if let Request::Move { from, to } = request {
        let step = p.steps[p.next];
        assert(p.steps.contains(step));
        let i = lemma_step_is_of_op(store, canonical, plan.ops, step);
        lemma_op_steps(store, canonical, plan.ops[i]);
        let steps = op_steps(store, canonical, plan.ops[i]);
        let k = choose|k: int| 0 <= k < steps.len() && steps[k] == step;
        assert(moves(plan.ops[i], from));
    }
    if let Request::Write { destination, profile } = request {
        let step = p.steps[p.next];
        assert(p.steps.contains(step));
        let i = lemma_step_is_of_op(store, canonical, plan.ops, step);
        lemma_op_steps(store, canonical, plan.ops[i]);
        let steps = op_steps(store, canonical, plan.ops[i]);
        let k = choose|k: int| 0 <= k < steps.len() && steps[k] == step;
        let op = plan.ops[i];
        let (of, name) = match op {
            Op::BackupThenReplace { fir, superseded, file_name } => (fir, file_name),
            Op::Write { fir, file_name } => (fir, file_name),
            Op::BackUp { fir, superseded } => (fir, Seq::empty()),
            Op::Skip { fir } => (fir, Seq::empty()),
        };
        assert(writes(plan.ops[i], of, name));
    }
}

/// Whether `step` is there to write the profile of `fir` under `name`, or to say that none is
/// published.
pub open spec fn is_write_step(
    store: Place,
    canonical: Seq<Published>,
    fir: FirCode,
    name: Seq<char>,
    step: Step,
) -> bool {
    match step {
        Step::MoveAside { path } => false,
        Step::Write { destination, profile } => destination == inside(store, name)
            && is_first_published(canonical, fir, profile),
        Step::NotDownloaded { fir: of } => of == fir && !is_published(canonical, fir),
    }
}

/// Whether `steps` are what an operation comes to: each of its files is moved, in order, and
/// behind them all its profile is written.
pub open spec fn are_steps_of(
    store: Place,
    canonical: Seq<Published>,
    op: Op,
    steps: Seq<Step>,
) -> bool {
    match op {
        Op::BackupThenReplace { fir, superseded, file_name } => {
            &&& steps.len() == superseded.len() + 1
            &&& forall|k: int|
                0 <= k < superseded.len() ==> #[trigger] steps[k] == (Step::MoveAside {
                    path: superseded[k],
                })
            &&& is_write_step(store, canonical, fir, file_name, steps.last())
        },
        Op::BackUp { fir, superseded } => {
            &&& steps.len() == superseded.len()
            &&& forall|k: int|
                0 <= k < superseded.len() ==> #[trigger] steps[k] == (Step::MoveAside {
                    path: superseded[k],
                })
        },
        Op::Write { fir, file_name } => steps.len() == 1 && is_write_step(
            store,
            canonical,
            fir,
            file_name,
            steps[0],
        ),
        Op::Skip { fir } => steps.len() == 0,
    }
}

/// The steps of one operation are what it comes to.
proof fn lemma_op_steps(store: Place, canonical: Seq<Published>, op: Op)
    ensures
        are_steps_of(store, canonical, op, op_steps(store, canonical, op)),
{
    lemma_first_published(canonical, op.fir());
}

/// The steps of a plan are those of its operations, one behind the other: an operation more
/// adds its own steps at the end and changes nothing else.
pub proof fn law_each_operation_adds_its_steps(
    store: Place,
    canonical: Seq<Published>,
    ops: Seq<Op>,
    op: Op,
)
    ensures
        plan_steps(store, canonical, Seq::empty()).len() == 0,
        exists|steps: Seq<Step>| #[trigger]
            are_steps_of(store, canonical, op, steps) && plan_steps(store, canonical, ops.push(op))
                == plan_steps(store, canonical, ops) + steps,
{
    let steps_of = |op: Op| op_steps(store, canonical, op);
    assert(Seq::<Op>::empty().flat_map(steps_of) =~= Seq::empty());
    let more = ops.push(op);
    more.lemma_flat_map_take_append(steps_of, ops.len() as int);
    assert(more.take(ops.len() as int) =~= ops);
    assert(more.take(ops.len() + 1int) =~= more);
    lemma_op_steps(store, canonical, op);
    assert(are_steps_of(store, canonical, op, op_steps(store, canonical, op)));
}

/// A run begins with creating the store exactly when some operation of its plan does
/// anything, and otherwise asks for nothing; it begins with nothing counted, and with the
/// warnings of the plan.
pub proof fn law_how_a_run_begins(
    platform: Platform,
    store: Place,
    canonical: Seq<Published>,
    plan: Decision,
)
    ensures
        ({
            let p = Progress::start(platform, store, canonical, plan);
            &&& p.request() == if exists|i: int|
                0 <= i < plan.ops.len() && !(#[trigger] plan.ops[i] is Skip) {
                Request::CreateDirectory { path: store }
            } else {
                Request::Stop
            }
            &&& p.summary.profiles_written == 0
            &&& p.summary.files_backed_up == 0
            &&& p.summary.warnings == plan.warnings
        }),
{
    if plan.has_work() {
        let i = choose|i: int| 0 <= i < plan.ops.len() && #[trigger] plan.ops[i].is_actionable();
        assert(!(plan.ops[i] is Skip));
    }
    if exists|i: int| 0 <= i < plan.ops.len() && !(#[trigger] plan.ops[i] is Skip) {
        let i = choose|i: int| 0 <= i < plan.ops.len() && !(#[trigger] plan.ops[i] is Skip);
        assert(plan.ops[i].is_actionable());
    }
}

/// Whether `later` comes of going on from the step at `from` with these counts and warnings:
/// each step up to the one that it waits for says that a profile was not published, and is
/// warned of, in order; it waits for what that step does, and is finished only behind all.
pub open spec fn goes_on(
    steps: Seq<Step>,
    from: int,
    written: nat,
    backed_up: nat,
    warnings: Seq<Notice>,
    later: Progress,
) -> bool {
    &&& from <= later.next <= steps.len()
    &&& later.summary.profiles_written == written
    &&& later.summary.files_backed_up == backed_up
    &&& later.summary.warnings.len() == warnings.len() + (later.next - from)
    &&& forall|k: int|
        0 <= k < warnings.len() ==> #[trigger] later.summary.warnings[k] == warnings[k]
    &&& forall|j: int|
        from <= j < later.next ==> (#[trigger] steps[j] matches Step::NotDownloaded { fir }
            && later.summary.warnings[warnings.len() + (j - from)] == (Notice::NotDownloaded {
            fir,
        }))
    &&& if later.next == steps.len() {
        later.stage is Finished
    } else {
        match steps[later.next] {
            Step::MoveAside { path } => later.stage is CreatingBackup,
            Step::Write { destination, profile } => later.stage is Writing,
            Step::NotDownloaded { fir } => false,
        }
    }
}

/// Going on is going on.
proof fn lemma_goes_on(p: Progress)
    requires
        0 <= p.next <= p.steps.len(),
    ensures
        goes_on(
            p.steps,
            p.next,
            p.summary.profiles_written,
            p.summary.files_backed_up,
            p.summary.warnings,
            p.go_on(),
        ),
        p.go_on().steps == p.steps,
        p.go_on().store == p.store,
        p.go_on().platform == p.platform,
    decreases p.steps.len() - p.next,
{
    if p.next < p.steps.len() {
        if let Step::NotDownloaded { fir } = p.steps[p.next] {
            let q = Progress {
                next: p.next + 1,
                summary: p.summary.warned(Notice::NotDownloaded { fir }),
                ..p
            };
            lemma_goes_on(q);
            let end = p.go_on();
            assert(end == q.go_on());
            assert(q.summary.warnings[p.summary.warnings.len() as int] == (Notice::NotDownloaded {
                fir,
            }));
            assert(end.summary.warnings[p.summary.warnings.len() as int] == (
            Notice::NotDownloaded { fir }));
            assert forall|k: int| 0 <= k < p.summary.warnings.len() implies
                #[trigger] end.summary.warnings[k] == p.summary.warnings[k] by {
                assert(q.summary.warnings[k] == p.summary.warnings[k]);
            }
        }
    }
}

/// What each answer leads to. The store being created, or given up on with its path and the
/// reason; a file that the directory `backup` could not be made for, or that has no name, or
/// that could not be moved, is warned of with its path and the fault, and one that was moved
/// is counted; a profile that was written is counted, and one that could not be ends the run
/// with its path and the reason. Nothing else is counted or warned of, and the run goes on
/// with the step behind.
pub proof fn law_what_answers_lead_to(
    platform: Platform,
    store: Place,
    canonical: Seq<Published>,
    plan: Decision,
    answers: Seq<Answer>,
    answer: Answer,
)
    ensures
        ({
            let p = Progress::start(platform, store, canonical, plan).after(answers);
            let q = Progress::start(platform, store, canonical, plan).after(answers.push(answer));
            let steps = plan_steps(store, canonical, plan.ops);
            let written = p.summary.profiles_written;
            let backed_up = p.summary.files_backed_up;
            let warnings = p.summary.warnings;
            match p.request() {
                Request::CreateDirectory { path } => if path == store {
                    match answer {
                        Answer::Failed { reason } => q.summary == p.summary && q.stage == (
                        Stage::GivenUp { failure: Failure::CreatingStore { path, reason } }),
                        _ => goes_on(steps, 0, written, backed_up, warnings, q),
                    }
                } else {
                    &&& 0 <= p.next < steps.len()
                    &&& steps[p.next] matches Step::MoveAside { path: file }
                    &&& if answer is Failed {
                        goes_on(
                            steps,
                            p.next + 1,
                            written,
                            backed_up,
                            warnings.push(
                                Notice::NotBackedUp {
                                    path: file,
                                    fault: Fault::CreatingDirectory { directory: path },
                                },
                            ),
                            q,
                        )
                    } else if file.file_name(platform) is None {
                        goes_on(
                            steps,
                            p.next + 1,
                            written,
                            backed_up,
                            warnings.push(
                                Notice::NotBackedUp { path: file, fault: Fault::NoFileName },
                            ),
                            q,
                        )
                    } else {
                        &&& q.summary == p.summary
                        &&& q.next == p.next
                        &&& q.request() == (Request::Probe {
                            path: inside(path, file.file_name(platform)->0),
                        })
                    }
                },
                Request::Probe { path } => {
                    &&& q.summary == p.summary
                    &&& q.next == p.next
                    &&& 0 <= p.next < steps.len()
                    &&& steps[p.next] matches Step::MoveAside { path: file }
                    &&& if answer is Present {
                        q.request() is Probe
                    } else {
                        q.request() == (Request::Move { from: file, to: path })
                    }
                },
                Request::Move { from, to } => {
                    &&& 0 <= p.next < steps.len()
                    &&& steps[p.next] == (Step::MoveAside { path: from })
                    &&& match answer {
                        Answer::Failed { reason } => goes_on(
                            steps,
                            p.next + 1,
                            written,
                            backed_up,
                            warnings.push(
                                Notice::NotBackedUp {
                                    path: from,
                                    fault: Fault::Moving { reason },
                                },
                            ),
                            q,
                        ),
                        _ => goes_on(
                            steps,
                            p.next + 1,
                            written,
                            backed_up + 1,
                            warnings,
                            q,
                        ),
                    }
                },
                Request::Write { destination, profile } => {
                    &&& 0 <= p.next < steps.len()
                    &&& steps[p.next] == (Step::Write { destination, profile })
                    &&& match answer {
                        Answer::Failed { reason } => q.summary == p.summary && q.stage == (
                        Stage::GivenUp {
                            failure: Failure::Writing { path: destination, reason },
                        }),
                        _ => goes_on(
                            steps,
                            p.next + 1,
                            written + 1,
                            backed_up,
                            warnings,
                            q,
                        ),
                    }
                },
                Request::Stop => q == p,
            }
        }),
{
    let p = Progress::start(platform, store, canonical, plan).after(answers);
    let q = Progress::start(platform, store, canonical, plan).after(answers.push(answer));
    assert(answers.push(answer).drop_last() =~= answers);
    assert(q == p.answered(answer));
    lemma_stands(platform, store, canonical, plan, answers);
    lemma_stands(platform, store, canonical, plan, answers.push(answer));
    lemma_backup_is_in(p);
    lemma_backup_is_in(q);
    assert(store.names.push(seq!['b', 'a', 'c', 'k', 'u', 'p']).len() != store.names.len());
    assert(backup_in(store) != store);
    reveal_strlit("backup");
    assert("backup"@ =~= seq!['b', 'a', 'c', 'k', 'u', 'p']);
    lemma_answer_leads(p, answer);
    if let Some(r) = p.resumed(answer) {
        lemma_goes_on(r);
    }
}

/// Numbers are written in decimal.
pub proof fn law_numbers_are_in_decimal(n: nat)
    ensures
        is_number(text::decimal(n), n),
    decreases n,
{
    let s = text::decimal(n);
    reveal_with_fuel(value_of, 2);
    if n < 10 {
        assert(s.drop_last() =~= Seq::empty());
    } else {
        let front = text::decimal(n / 10);
        law_numbers_are_in_decimal(n / 10);
        assert(s.drop_last() =~= front);
        if front.len() == 1 {
            assert(front.drop_last() =~= Seq::empty());
            assert(value_of(front) == front[0] as int - '0' as int);
        }
        assert(s[0] == front[0]);
        assert forall|i: int| 0 <= i < s.len() implies '0' <= #[trigger] s[i] <= '9' by {
            if i < front.len() {
                assert(s[i] == front[i]);
            }
        }
    }
}

/// The places tried for a file are called by its name, and then by its name with the numbers
/// from two on, one after the other, in brackets before its extension.
pub proof fn law_places_are_numbered(name: Seq<char>, n: nat)
    requires
        n >= 1,
    ensures
        is_numbered(name, n, candidate_name(name, n)),
{
    if n > 1 {
        let stem = text::stem(name);
        let extension = text::dotted_extension(name);
        law_numbers_are_in_decimal(n);
        name.index_of_last_ensures('.');
        reveal_strlit(" (");
        reveal_strlit(")");
        assert(" ("@ =~= seq![' ', '(']);
        assert(")"@ =~= seq![')']);
        assert(name =~= stem + extension);
        assert(is_parted(name, stem, extension));
        assert(is_number(text::decimal(n), n));
    }
}

/// A file is moved under its own name, or under its name with a number; and the numbers are
/// tried one after the other, each further one exactly when the place before it is taken.
pub proof fn law_places_are_tried_in_turn(
    platform: Platform,
    store: Place,
    canonical: Seq<Published>,
    plan: Decision,
    answers: Seq<Answer>,
    answer: Answer,
)
    ensures
        ({
            let p = Progress::start(platform, store, canonical, plan).after(answers);
            let q = Progress::start(platform, store, canonical, plan).after(answers.push(answer));
            let steps = plan_steps(store, canonical, plan.ops);
            match p.request() {
                Request::Probe { path } => {
                    &&& 0 <= p.next < steps.len()
                    &&& steps[p.next] matches Step::MoveAside { path: file }
                    &&& file.file_name(platform) matches Some(name)
                    &&& exists|n: nat|
                        {
                            &&& n >= 1
                            &&& #[trigger] is_numbered(name, n, path.names.last())
                            &&& answer is Present ==> (q.request() matches Request::Probe {
                                path: other,
                            } && is_numbered(name, n + 1, other.names.last()))
                        }
                },
                Request::Move { from, to } => {
                    &&& from.file_name(platform) matches Some(name)
                    &&& exists|n: nat|
                        n >= 1 && #[trigger] is_numbered(name, n, to.names.last())
                },
                _ => true,
            }
        }),
{
    let p = Progress::start(platform, store, canonical, plan).after(answers);
    let q = Progress::start(platform, store, canonical, plan).after(answers.push(answer));
    assert(answers.push(answer).drop_last() =~= answers);
    assert(q == p.answered(answer));
    lemma_stands(platform, store, canonical, plan, answers);
    lemma_stands(platform, store, canonical, plan, answers.push(answer));
    lemma_backup_is_in(p);
    lemma_backup_is_in(q);
    match p.stage {
        Stage::Probing { n } => {
            let name = p.moving_name()->0;
            law_places_are_numbered(name, n);
            law_places_are_numbered(name, n + 1);
            assert(is_numbered(name, n, p.request()->Probe_path.names.last()));
        },
        Stage::Moving { n } => {
            let name = p.moving_name()->0;
            law_places_are_numbered(name, n);
            assert(is_numbered(name, n, p.request()->to.names.last()));
        },
        _ => {},
    }
}

} // verus!
