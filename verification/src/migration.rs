//! What a plan carried out does to the files of a profile store.
//!
//! Nothing here is executed. These are statements about [`Progress`] and the files that
//! its requests change.

use crate::fir::FirCode;
use crate::location::Place;
use crate::native::is_plain;
use crate::paths::Platform;
use crate::plan::{
    has_current, op_for, planned, planned_op, published_at, superseded_paths, Decision, Op,
    Published, Stored,
};
use crate::profile::{Header, ID_REISSUE_SERIAL};
use crate::progress::{
    candidate_name, law_a_move_is_probed_first, law_answers_keep_progress_in_order,
    lemma_answer_leads, lemma_go_on, lemma_inert_plan_has_no_steps,
    lemma_plan_holds_op, lemma_step_is_of_op, op_steps, plan_steps, write_step, Answer, Progress,
    Request, Stage, Step,
};
use crate::store::{
    files_to_read, is_profile_name, law_only_profiles_at_the_top_level_are_read, stored_profile,
    stored_profiles, Listed, Reading,
};
use crate::text;
use crate::views::lemma_filter_map_holds;
use crate::warning::Notice;
use vstd::prelude::*;

verus! {

/// The files of a profile store and of its backup directory, each by its name in that
/// directory. Names are told apart letter by letter.
///
/// A request is taken to be about the file called by what its path was joined with last.
/// It is that file when the plan keeps to the store ([`keeps_to_the_store`]).
#[verifier::ext_equal]
pub struct Files {
    pub live: Map<Seq<char>, Seq<u8>>,
    pub backup: Map<Seq<char>, Seq<u8>>,
}

impl Files {
    /// Whether `answer` is one that these files can give: a probe tells the truth, and
    /// only a file that is there can be moved. Anything but a probe can fail.
    pub open spec fn can_answer(self, request: Request, answer: Answer) -> bool {
        match request {
            Request::Probe { path } => if self.backup.contains_key(path.names.last()) {
                answer is Present
            } else {
                answer is Absent
            },
            Request::Move { from, to } => answer is Failed || (answer is Done
                && self.live.contains_key(from.names.last())),
            _ => answer is Done || answer is Failed,
        }
    }

    /// Whether `answer` finds nothing that is not there.
    pub open spec fn can_find(self, request: Request, answer: Answer) -> bool {
        match request {
            Request::Probe { path } => answer is Present ==> self.backup.contains_key(
                path.names.last(),
            ),
            _ => true,
        }
    }

    /// Whether `answer` is a failure that these files are no reason for.
    pub open spec fn is_mishap(self, request: Request, answer: Answer) -> bool {
        answer is Failed && match request {
            Request::Move { from, to } => self.live.contains_key(from.names.last()),
            _ => true,
        }
    }

    /// The files after the request came to `answer`.
    pub open spec fn after(
        self,
        request: Request,
        answer: Answer,
        canonical: Seq<Published>,
    ) -> Files {
        if answer is Failed {
            self
        } else {
            match request {
                Request::Move { from, to } => Files {
                    live: self.live.remove(from.names.last()),
                    backup: self.backup.insert(to.names.last(), self.live[from.names.last()]),
                },
                Request::Write { destination, profile } => Files {
                    live: self.live.insert(destination.names.last(), canonical[profile].bytes),
                    ..self
                },
                _ => self,
            }
        }
    }
}

/// A plan being carried out, and the files it is carried out on.
#[verifier::ext_equal]
pub struct World {
    pub progress: Progress,
    pub files: Files,
}

impl World {
    /// The world one answer later.
    pub open spec fn answered(self, answer: Answer, canonical: Seq<Published>) -> World {
        World {
            progress: self.progress.answered(answer),
            files: self.files.after(self.progress.request(), answer, canonical),
        }
    }

    /// The world after all of `answers`.
    pub open spec fn after(self, answers: Seq<Answer>, canonical: Seq<Published>) -> World
        decreases answers.len(),
    {
        if answers.len() == 0 {
            self
        } else {
            self.after(answers.drop_last(), canonical).answered(answers.last(), canonical)
        }
    }

    /// Whether each of `answers` is one that the files can give when it is given.
    pub open spec fn can_give(self, answers: Seq<Answer>, canonical: Seq<Published>) -> bool
        decreases answers.len(),
    {
        answers.len() == 0 || {
            let before = self.after(answers.drop_last(), canonical);
            &&& self.can_give(answers.drop_last(), canonical)
            &&& before.files.can_answer(before.progress.request(), answers.last())
        }
    }

    /// Whether none of `answers` finds anything that is not there when it is given.
    pub open spec fn can_find(self, answers: Seq<Answer>, canonical: Seq<Published>) -> bool
        decreases answers.len(),
    {
        answers.len() == 0 || {
            let before = self.after(answers.drop_last(), canonical);
            &&& self.can_find(answers.drop_last(), canonical)
            &&& before.files.can_find(before.progress.request(), answers.last())
        }
    }

    /// Whether none of `answers` is a mishap.
    pub open spec fn runs_smoothly(self, answers: Seq<Answer>, canonical: Seq<Published>) -> bool
        decreases answers.len(),
    {
        answers.len() == 0 || {
            let before = self.after(answers.drop_last(), canonical);
            &&& self.runs_smoothly(answers.drop_last(), canonical)
            &&& !before.files.is_mishap(before.progress.request(), answers.last())
        }
    }
}

/// What is in the store after `steps` were done on `live`, with no mishap.
pub open spec fn live_after(
    steps: Seq<Step>,
    live: Map<Seq<char>, Seq<u8>>,
    canonical: Seq<Published>,
) -> Map<Seq<char>, Seq<u8>>
    decreases steps.len(),
{
    if steps.len() == 0 {
        live
    } else {
        let before = live_after(steps.drop_last(), live, canonical);
        match steps.last() {
            Step::MoveAside { path } => before.remove(path.names.last()),
            Step::Write { destination, profile } => before.insert(
                destination.names.last(),
                canonical[profile].bytes,
            ),
            Step::NotDownloaded { fir } => before,
        }
    }
}

/// That a plan keeps to the store: what it moves aside lies directly in the store, under a
/// plain name, and what it writes is given a plain name.
pub open spec fn keeps_to_the_store(platform: Platform, store: Place, plan: Decision) -> bool {
    forall|i: int|
        0 <= i < plan.ops.len() ==> {
            &&& forall|path: Place| #[trigger]
                plan.ops[i].superseded().contains(path) ==> is_in_store(platform, store, path)
            &&& (#[trigger] plan.ops[i]).written() matches Some(name) ==> is_plain(platform, name)
        }
}

/// That a path lies directly in the store, under a plain name, and ends in that name.
pub open spec fn is_in_store(platform: Platform, store: Place, path: Place) -> bool {
    &&& path.lies_in(store)
    &&& is_plain(platform, path.names.last())
    &&& path.file_name(platform) == Some(path.names.last())
}

/// That the files which `steps` move lie directly in the store, under plain names.
spec fn moves_in_store(platform: Platform, store: Place, steps: Seq<Step>) -> bool {
    forall|j: int|
        0 <= j < steps.len() && (#[trigger] steps[j]) is MoveAside ==> is_in_store(
            platform,
            store,
            steps[j]->path,
        )
}

/// The steps of a plan that keeps to the store do so.
proof fn lemma_moves_in_store(
    platform: Platform,
    store: Place,
    canonical: Seq<Published>,
    plan: Decision,
)
    requires
        keeps_to_the_store(platform, store, plan),
    ensures
        moves_in_store(platform, store, plan_steps(store, canonical, plan.ops)),
{
    let steps = plan_steps(store, canonical, plan.ops);
    assert forall|j: int|
        0 <= j < steps.len() && (#[trigger] steps[j]) is MoveAside implies is_in_store(
        platform,
        store,
        steps[j]->path,
    ) by {
        assert(steps.contains(steps[j]));
        let i = lemma_step_is_of_op(store, canonical, plan.ops, steps[j]);
        let op = plan.ops[i];
        let all = op_steps(store, canonical, op);
        let k = choose|k: int| 0 <= k < all.len() && all[k] == steps[j];
        if k < op.superseded().len() {
            assert(op.superseded()[k] == steps[j]->path);
            assert(plan.ops[i].superseded().contains(steps[j]->path));
        } else {
            assert(all[k] == write_step(store, canonical, op.fir(), op.written()->0));
        }
    }
}

/// Whether one of `steps` writes the file called `name`.
pub open spec fn writes_to(steps: Seq<Step>, name: Seq<char>) -> bool {
    exists|j: int|
        0 <= j < steps.len() && (#[trigger] steps[j]) is Write
            && steps[j]->destination.names.last() == name
}

/// Whether `contents` are in the backup directory, under whatever name.
pub open spec fn is_backed_up(files: Files, contents: Seq<u8>) -> bool {
    exists|name: Seq<char>| #[trigger]
        files.backup.contains_key(name) && files.backup[name] == contents
}

/// That nothing of `before` is lost in `now`: earlier backups are as they were, and what
/// was in the store is there still, or in the backup directory, unless one of `done`
/// wrote a profile over it.
pub open spec fn nothing_lost(before: Files, now: Files, done: Seq<Step>) -> bool {
    &&& forall|name: Seq<char>| #[trigger]
        before.backup.contains_key(name) ==> now.backup.contains_key(name) && now.backup[name]
            == before.backup[name]
    &&& forall|name: Seq<char>| #[trigger]
        before.live.contains_key(name) ==> {
            ||| now.live.contains_key(name) && now.live[name] == before.live[name]
            ||| is_backed_up(now, before.live[name])
            ||| writes_to(done, name)
        }
}

/// What holds all along any run that began with `start` on `files`.
spec fn safe(w: World, start: Progress, files: Files) -> bool {
    &&& w.progress.wf()
    &&& w.progress.store == start.store
    &&& w.progress.steps == start.steps
    &&& nothing_lost(files, w.files, start.steps.take(w.progress.next))
    &&& w.progress.stage matches Stage::Moving { n } ==> !w.files.backup.contains_key(
        w.progress.moving_to(n).names.last(),
    )
}

/// More steps done lose nothing more by themselves.
proof fn lemma_nothing_lost_longer(before: Files, now: Files, steps: Seq<Step>, i: int, j: int)
    requires
        0 <= i <= j <= steps.len(),
        nothing_lost(before, now, steps.take(i)),
    ensures
        nothing_lost(before, now, steps.take(j)),
{
    assert forall|name: Seq<char>| writes_to(steps.take(i), name) implies writes_to(
        steps.take(j),
        name,
    ) by {
        let k = choose|k: int|
            0 <= k < i && (#[trigger] steps.take(i)[k]) is Write
                && steps.take(i)[k]->destination.names.last() == name;
        assert(steps.take(j)[k] == steps.take(i)[k]);
    }
    assert forall|name: Seq<char>| #[trigger] before.live.contains_key(name) implies {
        ||| now.live.contains_key(name) && now.live[name] == before.live[name]
        ||| is_backed_up(now, before.live[name])
        ||| writes_to(steps.take(j), name)
    } by {
        if writes_to(steps.take(i), name) {
            assert(writes_to(steps.take(j), name));
        }
    }
}

/// An answer keeps a run safe.
proof fn lemma_safe_answered(
    w: World,
    start: Progress,
    files: Files,
    answer: Answer,
    canonical: Seq<Published>,
)
    requires
        safe(w, start, files),
        w.files.can_answer(w.progress.request(), answer),
    ensures
        safe(w.answered(answer, canonical), start, files),
{
    let p = w.progress;
    let v = w.answered(answer, canonical);
    law_answers_keep_progress_in_order(p, answer);
    let steps = start.steps;
    match p.stage {
        Stage::Moving { n } => {
            if answer is Done {
                let from = p.moving().names.last();
                let to = p.moving_to(n).names.last();
                assert(!w.files.backup.contains_key(to));
                assert forall|name: Seq<char>| #[trigger]
                    files.live.contains_key(name) implies {
                    ||| v.files.live.contains_key(name) && v.files.live[name] == files.live[name]
                    ||| is_backed_up(v.files, files.live[name])
                    ||| writes_to(steps.take(p.next), name)
                } by {
                    if is_backed_up(w.files, files.live[name]) {
                        let m = choose|m: Seq<char>| #[trigger]
                            w.files.backup.contains_key(m) && w.files.backup[m]
                                == files.live[name];
                        assert(v.files.backup.contains_key(m));
                    }
                    if name == from {
                        assert(v.files.backup.contains_key(to));
                    }
                }
                assert(nothing_lost(files, v.files, steps.take(p.next)));
            }
        },
        Stage::Writing => {
            if answer is Done {
                let to = steps[p.next]->destination.names.last();
                let done = steps.take(p.next + 1);
                assert(done[p.next] == steps[p.next]);
                assert(writes_to(done, to));
                lemma_nothing_lost_longer(files, w.files, steps, p.next, p.next + 1);
                assert forall|name: Seq<char>| #[trigger]
                    files.live.contains_key(name) implies {
                    ||| v.files.live.contains_key(name) && v.files.live[name] == files.live[name]
                    ||| is_backed_up(v.files, files.live[name])
                    ||| writes_to(done, name)
                } by {
                    if is_backed_up(w.files, files.live[name]) {
                        let m = choose|m: Seq<char>| #[trigger]
                            w.files.backup.contains_key(m) && w.files.backup[m]
                                == files.live[name];
                        assert(v.files.backup.contains_key(m));
                    }
                }
                lemma_answer_leads(p, answer);
                lemma_go_on(p.behind(p.summary.wrote()));
                lemma_nothing_lost_longer(files, v.files, steps, p.next + 1, v.progress.next);
            }
        },
        _ => {},
    }
    if !(p.stage is Writing && answer is Done) {
        lemma_nothing_lost_longer(files, v.files, steps, p.next, v.progress.next);
    }
    if v.progress.stage is Moving {
        law_a_move_is_probed_first(p, answer);
    }
}

/// A run is safe all along.
proof fn lemma_safe_run(
    start: Progress,
    files: Files,
    answers: Seq<Answer>,
    canonical: Seq<Published>,
)
    requires
        start.wf(),
        !(start.stage is Moving),
        (World { progress: start, files }).can_give(answers, canonical),
    ensures
        safe((World { progress: start, files }).after(answers, canonical), start, files),
    decreases answers.len(),
{
    let w = World { progress: start, files };
    if answers.len() > 0 {
        lemma_safe_run(start, files, answers.drop_last(), canonical);
        lemma_safe_answered(
            w.after(answers.drop_last(), canonical),
            start,
            files,
            answers.last(),
            canonical,
        );
    }
}

/// Nothing is ever lost, at any point of a run and whatever fails: earlier backups stay
/// as they were, and a file of the store stays there, or is found in the backup
/// directory, unless the plan wrote a profile under its name.
pub proof fn law_nothing_is_lost(
    platform: Platform,
    store: Place,
    canonical: Seq<Published>,
    plan: Decision,
    files: Files,
    answers: Seq<Answer>,
)
    requires
        keeps_to_the_store(platform, store, plan),
        ({
            let start = Progress::start(platform, store, canonical, plan);
            (World { progress: start, files }).can_give(answers, canonical)
        }),
    ensures
        ({
            let start = Progress::start(platform, store, canonical, plan);
            let end = (World { progress: start, files }).after(answers, canonical);
            nothing_lost(files, end.files, start.steps)
        }),
{
    let start = Progress::start(platform, store, canonical, plan);
    let end = (World { progress: start, files }).after(answers, canonical);
    lemma_safe_run(start, files, answers, canonical);
    lemma_nothing_lost_longer(
        files,
        end.files,
        start.steps,
        end.progress.next,
        start.steps.len() as int,
    );
    assert(start.steps.take(start.steps.len() as int) == start.steps);
}

/// What one more step does to the store.
proof fn lemma_live_after_step(
    steps: Seq<Step>,
    j: int,
    live: Map<Seq<char>, Seq<u8>>,
    canonical: Seq<Published>,
)
    requires
        0 <= j < steps.len(),
    ensures
        ({
            let before = live_after(steps.take(j), live, canonical);
            live_after(steps.take(j + 1), live, canonical) == match steps[j] {
                Step::MoveAside { path } => before.remove(path.names.last()),
                Step::Write { destination, profile } => before.insert(
                    destination.names.last(),
                    canonical[profile].bytes,
                ),
                Step::NotDownloaded { fir } => before,
            }
        }),
{
    assert(steps.take(j + 1).drop_last() == steps.take(j));
    assert(steps.take(j + 1).last() == steps[j]);
}

/// Reporting missing profiles does nothing to the store.
proof fn lemma_go_on_live(
    p: Progress,
    live: Map<Seq<char>, Seq<u8>>,
    canonical: Seq<Published>,
)
    requires
        0 <= p.next <= p.steps.len(),
    ensures
        live_after(p.steps.take(p.go_on().next), live, canonical) == live_after(
            p.steps.take(p.next),
            live,
            canonical,
        ),
    decreases p.steps.len() - p.next,
{
    if p.next < p.steps.len() {
        if let Step::NotDownloaded { fir } = p.steps[p.next] {
            lemma_live_after_step(p.steps, p.next, live, canonical);
            lemma_go_on_live(
                p.behind(p.summary.warned(Notice::NotDownloaded { fir })),
                live,
                canonical,
            );
        }
    }
}

/// What holds all along a run without mishap that began with `start` on `files`.
spec fn on_course(w: World, start: Progress, files: Files, canonical: Seq<Published>) -> bool {
    &&& w.progress.wf()
    &&& w.progress.platform == start.platform
    &&& w.progress.store == start.store
    &&& w.progress.steps == start.steps
    &&& moves_in_store(start.platform, start.store, start.steps)
    &&& w.files.live == live_after(start.steps.take(w.progress.next), files.live, canonical)
    &&& !(w.progress.stage is GivenUp)
    &&& w.progress.stage is Finished ==> w.progress.next == start.steps.len()
}

/// An answer without a mishap keeps a run on course.
proof fn lemma_on_course_answered(
    w: World,
    start: Progress,
    files: Files,
    answer: Answer,
    canonical: Seq<Published>,
)
    requires
        on_course(w, start, files, canonical),
        w.files.can_answer(w.progress.request(), answer),
        !w.files.is_mishap(w.progress.request(), answer),
    ensures
        on_course(w.answered(answer, canonical), start, files, canonical),
{
    let p = w.progress;
    lemma_answer_leads(p, answer);
    if p.stage is CreatingBackup {
        assert(is_in_store(p.platform, p.store, p.moving()));
    }
    if p.stage is Moving && answer is Failed {
        assert(w.files.live.remove(p.moving().names.last()) =~= w.files.live);
    }
    if let Some(q) = p.resumed(answer) {
        if p.next < p.steps.len() {
            lemma_live_after_step(p.steps, p.next, files.live, canonical);
        }
        lemma_go_on_live(q, files.live, canonical);
        lemma_go_on(q);
    }
}

/// A run without a mishap is on course all along.
proof fn lemma_on_course_run(
    start: Progress,
    files: Files,
    answers: Seq<Answer>,
    canonical: Seq<Published>,
)
    requires
        on_course(World { progress: start, files }, start, files, canonical),
        (World { progress: start, files }).can_give(answers, canonical),
        (World { progress: start, files }).runs_smoothly(answers, canonical),
    ensures
        on_course(
            (World { progress: start, files }).after(answers, canonical),
            start,
            files,
            canonical,
        ),
    decreases answers.len(),
{
    let w = World { progress: start, files };
    if answers.len() > 0 {
        lemma_on_course_run(start, files, answers.drop_last(), canonical);
        lemma_on_course_answered(
            w.after(answers.drop_last(), canonical),
            start,
            files,
            answers.last(),
            canonical,
        );
    }
}

/// When all goes well, a run that is over has finished, and the store is as the plan's
/// steps, done in order, leave it.
pub proof fn law_a_smooth_run_does_the_plan(
    platform: Platform,
    store: Place,
    canonical: Seq<Published>,
    plan: Decision,
    files: Files,
    answers: Seq<Answer>,
)
    requires
        keeps_to_the_store(platform, store, plan),
        ({
            let w = World { progress: Progress::start(platform, store, canonical, plan), files };
            &&& w.can_give(answers, canonical)
            &&& w.runs_smoothly(answers, canonical)
            &&& w.after(answers, canonical).progress.is_over()
        }),
    ensures
        ({
            let w = World { progress: Progress::start(platform, store, canonical, plan), files };
            let end = w.after(answers, canonical);
            &&& end.progress.stage is Finished
            &&& end.files.live == live_after(
                plan_steps(store, canonical, plan.ops),
                files.live,
                canonical,
            )
        }),
{
    let start = Progress::start(platform, store, canonical, plan);
    assert(start.steps.take(0) =~= Seq::empty());
    lemma_moves_in_store(platform, store, canonical, plan);
    if !plan.has_work() {
        lemma_inert_plan_has_no_steps(store, canonical, plan);
    }
    lemma_on_course_run(start, files, answers, canonical);
    assert(start.steps.take(start.steps.len() as int) == start.steps);
}

/// That `stored` is what reading the store finds when it holds the files `live`, and
/// `parse` says what header a file's contents have, if any: the profile files with a
/// header, and nothing else.
pub open spec fn reads_as(
    stored: Seq<Stored>,
    store: Place,
    live: Map<Seq<char>, Seq<u8>>,
    parse: spec_fn(Seq<u8>) -> Option<Header>,
) -> bool {
    &&& forall|i: int|
        0 <= i < stored.len() ==> {
            let name = (#[trigger] stored[i]).path.names.last();
            &&& stored[i].path == store.join(name)
            &&& is_profile_name(name)
            &&& live.contains_key(name)
            &&& parse(live[name]) == Some(stored[i].header)
        }
    &&& forall|name: Seq<char>| #[trigger]
        live.contains_key(name) && is_profile_name(name) && parse(live[name]) is Some
            ==> exists|i: int|
            0 <= i < stored.len() && (#[trigger] stored[i]).path == store.join(name)
}

/// That `listing` tells of the files `live` and of no others; it may tell of directories
/// besides.
pub open spec fn lists(listing: Seq<Listed>, live: Map<Seq<char>, Seq<u8>>) -> bool {
    forall|name: Seq<char>| #[trigger]
        live.contains_key(name) <==> exists|i: int|
            0 <= i < listing.len() && (#[trigger] listing[i]).is_file && listing[i].name == name
}

/// That a file was read as `parse` says of its contents.
pub open spec fn read_by(
    reading: Reading,
    live: Map<Seq<char>, Seq<u8>>,
    parse: spec_fn(Seq<u8>) -> Option<Header>,
) -> bool {
    match parse(live[reading.path.names.last()]) {
        Some(header) => reading.header == Ok::<Header, Seq<char>>(header),
        None => reading.header is Err,
    }
}

/// Reading the files that a listing of the store gives finds every profile in the store,
/// and nothing else.
pub proof fn law_reading_finds_the_profiles(
    store: Place,
    live: Map<Seq<char>, Seq<u8>>,
    parse: spec_fn(Seq<u8>) -> Option<Header>,
    listing: Seq<Listed>,
    readings: Seq<Reading>,
)
    requires
        lists(listing, live),
        readings.map_values(|reading: Reading| reading.path) == files_to_read(
            store,
            Some(listing),
        ),
        forall|i: int|
            0 <= i < readings.len() ==> read_by(#[trigger] readings[i], live, parse),
    ensures
        reads_as(stored_profiles(readings), store, live, parse),
{
    let profile_of = |reading: Reading| stored_profile(reading);
    let paths = readings.map_values(|reading: Reading| reading.path);
    let stored = stored_profiles(readings);
    assert forall|i: int| 0 <= i < stored.len() implies {
        let name = (#[trigger] stored[i]).path.names.last();
        &&& stored[i].path == store.join(name)
        &&& is_profile_name(name)
        &&& live.contains_key(name)
        &&& parse(live[name]) == Some(stored[i].header)
    } by {
        assert(stored.contains(stored[i]));
        readings.lemma_filter_map_contains(profile_of, stored[i]);
        let reading = choose|reading: Reading| #[trigger]
            readings.contains(reading) && profile_of(reading) == Some(stored[i]);
        let k = choose|k: int| 0 <= k < readings.len() && readings[k] == reading;
        assert(read_by(readings[k], live, parse));
        assert(paths[k] == stored[i].path);
        assert(paths.contains(stored[i].path));
        law_only_profiles_at_the_top_level_are_read(store, listing, stored[i].path);
        let j = choose|j: int|
            {
                &&& 0 <= j < listing.len()
                &&& (#[trigger] listing[j]).is_file
                &&& is_profile_name(listing[j].name)
                &&& stored[i].path == store.join(listing[j].name)
            };
        assert(stored[i].path.names.last() == listing[j].name);
        assert(live.contains_key(listing[j].name));
    }
    assert forall|name: Seq<char>| #[trigger]
        live.contains_key(name) && is_profile_name(name) && parse(
            live[name],
        ) is Some implies exists|i: int|
        0 <= i < stored.len() && (#[trigger] stored[i]).path == store.join(name) by {
        let j = choose|j: int|
            0 <= j < listing.len() && (#[trigger] listing[j]).is_file && listing[j].name == name;
        assert(listing[j].is_file && is_profile_name(listing[j].name));
        law_only_profiles_at_the_top_level_are_read(store, listing, store.join(name));
        assert(paths.contains(store.join(name)));
        let k = choose|k: int| 0 <= k < paths.len() && paths[k] == store.join(name);
        assert(readings[k].path == store.join(name));
        assert(read_by(readings[k], live, parse));
        lemma_filter_map_holds(readings, profile_of, k);
        let profile = profile_of(readings[k])->0;
        let i = choose|i: int| 0 <= i < stored.len() && stored[i] == profile;
        assert(stored[i].path == store.join(name));
    }
}

/// That each profile that is to be written says of itself what is known of it, and is
/// not itself from before the reissue.
pub open spec fn release_is_reissued(
    stored: Seq<Stored>,
    canonical: Seq<Published>,
    firs: Seq<FirCode>,
    parse: spec_fn(Seq<u8>) -> Option<Header>,
) -> bool {
    forall|fir: FirCode| #[trigger]
        firs.contains(fir) && !has_current(stored, fir) ==> (published_at(
            canonical,
            fir,
        ) matches Some(at) ==> {
            &&& parse(canonical[at].bytes) == Some(canonical[at].header)
            &&& canonical[at].header.serial() >= ID_REISSUE_SERIAL
        })
}

/// What is in the store in the end was written, or was there and never moved aside.
proof fn lemma_whence(
    steps: Seq<Step>,
    live: Map<Seq<char>, Seq<u8>>,
    canonical: Seq<Published>,
    name: Seq<char>,
)
    requires
        live_after(steps, live, canonical).contains_key(name),
    ensures
        ({
            let contents = live_after(steps, live, canonical)[name];
            ||| exists|j: int|
                0 <= j < steps.len() && (#[trigger] steps[j]) is Write && contents
                    == canonical[steps[j]->profile].bytes
            ||| {
                &&& live.contains_key(name)
                &&& live[name] == contents
                &&& forall|j: int|
                    0 <= j < steps.len() && (#[trigger] steps[j]) is MoveAside
                        ==> steps[j]->path.names.last() != name
            }
        }),
    decreases steps.len(),
{
    if steps.len() > 0 {
        let n = steps.len() - 1;
        let front = steps.drop_last();
        let writes_last = steps[n] is Write && steps[n]->destination.names.last() == name;
        if !writes_last {
            lemma_whence(front, live, canonical, name);
            let contents = live_after(steps, live, canonical)[name];
            if exists|j: int|
                0 <= j < front.len() && (#[trigger] front[j]) is Write && contents
                    == canonical[front[j]->profile].bytes {
                let j = choose|j: int|
                    0 <= j < front.len() && (#[trigger] front[j]) is Write && contents
                        == canonical[front[j]->profile].bytes;
                assert(steps[j] == front[j]);
            } else {
                assert forall|j: int|
                    0 <= j < steps.len() && (#[trigger] steps[j]) is MoveAside
                        implies steps[j]->path.names.last() != name by {
                    if j < n {
                        assert(front[j] == steps[j]);
                    }
                }
            }
        }
    }
}

/// The operation that is planned for a region in scope.
proof fn lemma_planned_op_is_there(
    stored: Seq<Stored>,
    canonical: Seq<Published>,
    firs: Seq<FirCode>,
    fir: FirCode,
) -> (i: int)
    requires
        firs.contains(fir),
        published_at(canonical, fir) is Some,
    ensures
        0 <= i < planned(stored, canonical, firs).ops.len(),
        planned(stored, canonical, firs).ops[i] == op_for(
            stored,
            fir,
            canonical[published_at(canonical, fir)->0].file_name(),
        ),
{
    let op_of = |f: FirCode| planned_op(stored, canonical, f);
    let k = choose|k: int| 0 <= k < firs.len() && firs[k] == fir;
    lemma_filter_map_holds(firs, op_of, k);
    let ops = planned(stored, canonical, firs).ops;
    choose|i: int| 0 <= i < ops.len() && ops[i] == op_of(fir)->0
}

/// The region in scope that a planned operation is for.
proof fn lemma_planned_op_is_for(
    stored: Seq<Stored>,
    canonical: Seq<Published>,
    firs: Seq<FirCode>,
    i: int,
) -> (fir: FirCode)
    requires
        0 <= i < planned(stored, canonical, firs).ops.len(),
    ensures
        firs.contains(fir),
        published_at(canonical, fir) is Some,
        planned(stored, canonical, firs).ops[i] == op_for(
            stored,
            fir,
            canonical[published_at(canonical, fir)->0].file_name(),
        ),
        planned(stored, canonical, firs).ops[i].fir() == fir,
{
    let op_of = |f: FirCode| planned_op(stored, canonical, f);
    let ops = planned(stored, canonical, firs).ops;
    assert(ops.contains(ops[i]));
    firs.lemma_filter_map_contains(op_of, ops[i]);
    choose|fir: FirCode| #[trigger] firs.contains(fir) && op_of(fir) == Some(ops[i])
}

/// A superseded profile in the store is among the paths to be moved aside.
proof fn lemma_superseded_path_is_there(stored: Seq<Stored>, fir: FirCode, i: int)
    requires
        0 <= i < stored.len(),
        stored[i].header.is_superseded(fir),
    ensures
        superseded_paths(stored, fir).contains(stored[i].path),
{
    let pick = |s: Stored|
        if s.header.is_superseded(fir) {
            Some(s.path)
        } else {
            None
        };
    lemma_filter_map_holds(stored, pick, i);
}

/// A path to be moved aside is that of a superseded profile in the store.
proof fn lemma_superseded_path_is_of(stored: Seq<Stored>, fir: FirCode, path: Place) -> (i: int)
    requires
        superseded_paths(stored, fir).contains(path),
    ensures
        0 <= i < stored.len(),
        stored[i].header.is_superseded(fir),
        stored[i].path == path,
{
    let pick = |s: Stored|
        if s.header.is_superseded(fir) {
            Some(s.path)
        } else {
            None
        };
    stored.lemma_filter_map_contains(pick, path);
    let s = choose|s: Stored| #[trigger] stored.contains(s) && pick(s) == Some(path);
    choose|i: int| 0 <= i < stored.len() && stored[i] == s
}

/// After a smooth run no profile of a region in scope is left superseded.
proof fn lemma_none_left_superseded(
    store: Place,
    canonical: Seq<Published>,
    firs: Seq<FirCode>,
    parse: spec_fn(Seq<u8>) -> Option<Header>,
    live: Map<Seq<char>, Seq<u8>>,
    stored: Seq<Stored>,
    again: Seq<Stored>,
    fir: FirCode,
)
    requires
        reads_as(stored, store, live, parse),
        release_is_reissued(stored, canonical, firs, parse),
        reads_as(
            again,
            store,
            live_after(
                plan_steps(store, canonical, planned(stored, canonical, firs).ops),
                live,
                canonical,
            ),
            parse,
        ),
        firs.contains(fir),
        published_at(canonical, fir) is Some,
    ensures
        superseded_paths(again, fir).len() == 0,
{
    let ops = planned(stored, canonical, firs).ops;
    let steps = plan_steps(store, canonical, ops);
    let end = live_after(steps, live, canonical);
    if superseded_paths(again, fir).len() > 0 {
        let path = superseded_paths(again, fir)[0];
        assert(superseded_paths(again, fir).contains(path));
        let k = lemma_superseded_path_is_of(again, fir, path);
        let name = again[k].path.names.last();
        lemma_whence(steps, live, canonical, name);
        if exists|j: int|
            0 <= j < steps.len() && (#[trigger] steps[j]) is Write && end[name]
                == canonical[steps[j]->profile].bytes {
            let j = choose|j: int|
                0 <= j < steps.len() && (#[trigger] steps[j]) is Write && end[name]
                    == canonical[steps[j]->profile].bytes;
            lemma_write_is_for(store, canonical, firs, stored, steps[j]);
            assert(false);
        } else {
            let i = choose|i: int|
                0 <= i < stored.len() && (#[trigger] stored[i]).path == store.join(name);
            assert(stored[i].path.names.last() == name);
            assert(stored[i].header == again[k].header);
            lemma_superseded_path_is_there(stored, fir, i);
            let o = lemma_planned_op_is_there(stored, canonical, firs, fir);
            let moved = Step::MoveAside { path: stored[i].path };
            lemma_op_moves(store, canonical, ops[o], stored[i].path);
            lemma_plan_holds_op(store, canonical, ops, o, moved);
            let j = choose|j: int| 0 <= j < steps.len() && steps[j] == moved;
            assert(steps[j]->path.names.last() == name);
            assert(false);
        }
    }
}

/// The superseded files of an operation are moved aside.
proof fn lemma_op_moves(store: Place, canonical: Seq<Published>, op: Op, path: Place)
    requires
        op.superseded().contains(path),
    ensures
        op_steps(store, canonical, op).contains(Step::MoveAside { path }),
{
    let k = choose|k: int| 0 <= k < op.superseded().len() && op.superseded()[k] == path;
    assert(op_steps(store, canonical, op)[k] == (Step::MoveAside { path }));
}

/// A profile is written only for a region in scope that has no current one.
proof fn lemma_write_is_for(
    store: Place,
    canonical: Seq<Published>,
    firs: Seq<FirCode>,
    stored: Seq<Stored>,
    step: Step,
) -> (fir: FirCode)
    requires
        plan_steps(store, canonical, planned(stored, canonical, firs).ops).contains(step),
        step is Write,
    ensures
        firs.contains(fir),
        !has_current(stored, fir),
        published_at(canonical, fir) == Some(step->profile),
        step->destination == store.join(canonical[step->profile].file_name()),
{
    let ops = planned(stored, canonical, firs).ops;
    let o = lemma_step_is_of_op(store, canonical, ops, step);
    let fir = lemma_planned_op_is_for(stored, canonical, firs, o);
    let all = op_steps(store, canonical, ops[o]);
    let k = choose|k: int| 0 <= k < all.len() && all[k] == step;
    if k < ops[o].superseded().len() {
        assert(all[k] is MoveAside);
    }
    fir
}

/// Running again after a smooth run asks for work only where a region in scope was left
/// without a current profile: whatever was superseded is gone from the store.
pub proof fn law_second_run(
    platform: Platform,
    store: Place,
    canonical: Seq<Published>,
    firs: Seq<FirCode>,
    parse: spec_fn(Seq<u8>) -> Option<Header>,
    files: Files,
    stored: Seq<Stored>,
    answers: Seq<Answer>,
    again: Seq<Stored>,
)
    requires
        reads_as(stored, store, files.live, parse),
        release_is_reissued(stored, canonical, firs, parse),
        keeps_to_the_store(platform, store, planned(stored, canonical, firs)),
        ({
            let plan = planned(stored, canonical, firs);
            let w = World { progress: Progress::start(platform, store, canonical, plan), files };
            let end = w.after(answers, canonical);
            &&& w.can_give(answers, canonical)
            &&& w.runs_smoothly(answers, canonical)
            &&& end.progress.is_over()
            &&& reads_as(again, store, end.files.live, parse)
        }),
    ensures
        planned(again, canonical, firs).has_work() <==> exists|fir: FirCode| #[trigger]
            firs.contains(fir) && published_at(canonical, fir) is Some && !has_current(
                again,
                fir,
            ),
{
    let plan = planned(stored, canonical, firs);
    law_a_smooth_run_does_the_plan(platform, store, canonical, plan, files, answers);
    let second = planned(again, canonical, firs);
    if second.has_work() {
        let i = choose|i: int|
            0 <= i < second.ops.len() && #[trigger] second.ops[i].is_actionable();
        let fir = lemma_planned_op_is_for(again, canonical, firs, i);
        lemma_none_left_superseded(store, canonical, firs, parse, files.live, stored, again, fir);
        assert(firs.contains(fir) && published_at(canonical, fir) is Some && !has_current(
            again,
            fir,
        ));
    }
    if exists|fir: FirCode| #[trigger]
        firs.contains(fir) && published_at(canonical, fir) is Some && !has_current(again, fir) {
        let fir = choose|fir: FirCode| #[trigger]
            firs.contains(fir) && published_at(canonical, fir) is Some && !has_current(again, fir);
        let i = lemma_planned_op_is_there(again, canonical, firs, fir);
        assert(second.ops[i].is_actionable());
    }
}

/// Whether the files `live` hold a current profile of `fir` where the store is read.
pub open spec fn holds_current(
    live: Map<Seq<char>, Seq<u8>>,
    parse: spec_fn(Seq<u8>) -> Option<Header>,
    fir: FirCode,
) -> bool {
    exists|name: Seq<char>| #[trigger]
        live.contains_key(name) && is_profile_name(name) && (parse(live[name]) matches Some(header)
            && header.is_current(fir))
}

/// Reading a store finds a current profile exactly when its files hold one.
pub proof fn law_reading_finds_current_profiles(
    stored: Seq<Stored>,
    store: Place,
    live: Map<Seq<char>, Seq<u8>>,
    parse: spec_fn(Seq<u8>) -> Option<Header>,
    fir: FirCode,
)
    requires
        reads_as(stored, store, live, parse),
    ensures
        has_current(stored, fir) <==> holds_current(live, parse, fir),
{
    if has_current(stored, fir) {
        let i = choose|i: int| 0 <= i < stored.len() && #[trigger] stored[i].header.is_current(fir);
        assert(live.contains_key(stored[i].path.names.last()));
    }
    if holds_current(live, parse, fir) {
        let name = choose|name: Seq<char>| #[trigger]
            live.contains_key(name) && is_profile_name(name) && (
            parse(live[name]) matches Some(header) && header.is_current(fir));
        let i = choose|i: int|
            0 <= i < stored.len() && (#[trigger] stored[i]).path == store.join(name);
        assert(stored[i].path.names.last() == name);
        assert(stored[i].header.is_current(fir));
    }
}

/// A second run finds nothing to do exactly when the plan of the first, done on the files
/// as they were, leaves a current profile of every published region in scope.
pub proof fn law_what_stays_decides_the_second_run(
    platform: Platform,
    store: Place,
    canonical: Seq<Published>,
    firs: Seq<FirCode>,
    parse: spec_fn(Seq<u8>) -> Option<Header>,
    files: Files,
    stored: Seq<Stored>,
    answers: Seq<Answer>,
    again: Seq<Stored>,
)
    requires
        reads_as(stored, store, files.live, parse),
        release_is_reissued(stored, canonical, firs, parse),
        keeps_to_the_store(platform, store, planned(stored, canonical, firs)),
        ({
            let plan = planned(stored, canonical, firs);
            let w = World { progress: Progress::start(platform, store, canonical, plan), files };
            let end = w.after(answers, canonical);
            &&& w.can_give(answers, canonical)
            &&& w.runs_smoothly(answers, canonical)
            &&& end.progress.is_over()
            &&& reads_as(again, store, end.files.live, parse)
        }),
    ensures
        ({
            let steps = plan_steps(store, canonical, planned(stored, canonical, firs).ops);
            let left = live_after(steps, files.live, canonical);
            !planned(again, canonical, firs).has_work() <==> forall|fir: FirCode| #[trigger]
                firs.contains(fir) && published_at(canonical, fir) is Some ==> holds_current(
                    left,
                    parse,
                    fir,
                )
        }),
{
    let plan = planned(stored, canonical, firs);
    let left = live_after(plan_steps(store, canonical, plan.ops), files.live, canonical);
    law_a_smooth_run_does_the_plan(platform, store, canonical, plan, files, answers);
    law_second_run(platform, store, canonical, firs, parse, files, stored, answers, again);
    assert forall|fir: FirCode| has_current(again, fir) <==> holds_current(left, parse, fir) by {
        law_reading_finds_current_profiles(again, store, left, parse, fir);
    }
}

/// That each profile that is to be written says of itself what is known of it, is a
/// current profile of its region, and is written where the store is read.
pub open spec fn release_is_usable(
    stored: Seq<Stored>,
    canonical: Seq<Published>,
    firs: Seq<FirCode>,
    parse: spec_fn(Seq<u8>) -> Option<Header>,
) -> bool {
    forall|fir: FirCode| #[trigger]
        firs.contains(fir) && !has_current(stored, fir) ==> (published_at(
            canonical,
            fir,
        ) matches Some(at) ==> {
            &&& parse(canonical[at].bytes) == Some(canonical[at].header)
            &&& canonical[at].header.is_current(fir)
            &&& is_profile_name(canonical[at].file_name())
        })
}

/// That writing the profile of one region does not get in the way of another: no other
/// profile is to be written under its name, and no profile of the other region lies there.
pub open spec fn names_do_not_clash(
    store: Place,
    stored: Seq<Stored>,
    canonical: Seq<Published>,
    firs: Seq<FirCode>,
) -> bool {
    forall|fir: FirCode, other: FirCode| #[trigger]
        firs.contains(fir) && #[trigger] firs.contains(other) && fir != other && !has_current(
            stored,
            fir,
        ) ==> (published_at(canonical, fir) matches Some(at) ==> (published_at(
            canonical,
            other,
        ) matches Some(at2) ==> {
            &&& !has_current(stored, other) ==> canonical[at].file_name()
                != canonical[at2].file_name()
            &&& forall|i: int|
                0 <= i < stored.len() && (#[trigger] stored[i]).path == store.join(
                    canonical[at].file_name(),
                ) ==> !stored[i].header.matches_fir(other)
        }))
}

/// Whether one of `steps` moves the file called `name` aside.
pub open spec fn moves(steps: Seq<Step>, name: Seq<char>) -> bool {
    exists|j: int|
        0 <= j < steps.len() && (#[trigger] steps[j]) is MoveAside
            && steps[j]->path.names.last() == name
}

/// The step of a plan that moves a file aside is for a superseded profile.
proof fn lemma_move_is_for(
    store: Place,
    canonical: Seq<Published>,
    firs: Seq<FirCode>,
    stored: Seq<Stored>,
    step: Step,
) -> (r: (FirCode, int))
    requires
        plan_steps(store, canonical, planned(stored, canonical, firs).ops).contains(step),
        step is MoveAside,
    ensures
        firs.contains(r.0),
        published_at(canonical, r.0) is Some,
        0 <= r.1 < stored.len(),
        stored[r.1].path == step->path,
        stored[r.1].header.is_superseded(r.0),
{
    let ops = planned(stored, canonical, firs).ops;
    let o = lemma_step_is_of_op(store, canonical, ops, step);
    let fir = lemma_planned_op_is_for(stored, canonical, firs, o);
    let i = lemma_op_move_is_for(store, canonical, stored, fir, ops[o], step);
    (fir, i)
}

/// The step of an operation that moves a file aside is for a superseded profile.
proof fn lemma_op_move_is_for(
    store: Place,
    canonical: Seq<Published>,
    stored: Seq<Stored>,
    fir: FirCode,
    op: Op,
    step: Step,
) -> (i: int)
    requires
        published_at(canonical, fir) is Some,
        op == op_for(stored, fir, canonical[published_at(canonical, fir)->0].file_name()),
        op_steps(store, canonical, op).contains(step),
        step is MoveAside,
    ensures
        0 <= i < stored.len(),
        stored[i].path == step->path,
        stored[i].header.is_superseded(fir),
{
    let all = op_steps(store, canonical, op);
    let k = choose|k: int| 0 <= k < all.len() && all[k] == step;
    assert(k < op.superseded().len()) by {
        if k >= op.superseded().len() {
            assert(all[k] == write_step(store, canonical, op.fir(), op.written()->0));
        }
    }
    assert(op.superseded()[k] == step->path);
    assert(superseded_paths(stored, fir).len() > 0) by {
        if superseded_paths(stored, fir).len() == 0 {
            assert(op.superseded().len() == 0);
        }
    }
    assert(superseded_paths(stored, fir)[k] == step->path);
    assert(superseded_paths(stored, fir).contains(step->path));
    lemma_superseded_path_is_of(stored, fir, step->path)
}

/// Different numbers give different names.
proof fn lemma_candidates_differ(name: Seq<char>, m: nat, n: nat)
    requires
        1 <= m < n,
    ensures
        candidate_name(name, m) != candidate_name(name, n),
{
    let stem = text::stem(name);
    let extension = text::dotted_extension(name);
    let open = " ("@;
    let close = ")"@;
    reveal_strlit(" (");
    reveal_strlit(")");
    name.index_of_last_ensures('.');
    assert(stem + extension =~= name);
    if m == 1 {
        assert(candidate_name(name, n).len() > name.len());
    } else if candidate_name(name, m) == candidate_name(name, n) {
        let from = stem.len() + open.len() as int;
        let a = candidate_name(name, m);
        let b = candidate_name(name, n);
        let around = stem.len() + open.len() + close.len() + extension.len();
        assert(a.len() == around + text::decimal(m).len());
        assert(b.len() == around + text::decimal(n).len());
        assert(a.subrange(from, from + text::decimal(m).len()) =~= text::decimal(m));
        assert(b.subrange(from, from + text::decimal(n).len()) =~= text::decimal(n));
        text::lemma_decimal_injective(m, n);
    }
}

/// However many names are taken, one of the first few that are tried is free.
pub proof fn law_a_place_is_free(taken: Set<Seq<char>>, name: Seq<char>)
    requires
        taken.finite(),
    ensures
        exists|n: nat|
            1 <= n <= taken.len() + 1 && !taken.contains(#[trigger] candidate_name(name, n)),
{
    if forall|n: nat|
        1 <= n <= taken.len() + 1 ==> taken.contains(#[trigger] candidate_name(name, n)) {
        let tried = Seq::new(taken.len() + 1, |i: int| candidate_name(name, (i + 1) as nat));
        assert forall|i: int, j: int| 0 <= i < j < tried.len() implies tried[i] != tried[j] by {
            lemma_candidates_differ(name, (i + 1) as nat, (j + 1) as nat);
        }
        tried.unique_seq_to_set();
        assert(tried.to_set().subset_of(taken)) by {
            assert forall|t: Seq<char>| tried.to_set().contains(t) implies taken.contains(t) by {
                let i = choose|i: int| 0 <= i < tried.len() && tried[i] == t;
                assert(taken.contains(candidate_name(name, (i + 1) as nat)));
            }
        }
        vstd::set_lib::lemma_len_subset(tried.to_set(), taken);
    }
}

/// The answer of files that cause no mishap.
spec fn smooth_answer(w: World) -> Answer {
    match w.progress.request() {
        Request::Probe { path } => if w.files.backup.contains_key(path.names.last()) {
            Answer::Present
        } else {
            Answer::Absent
        },
        Request::Move { from, to } => if w.files.live.contains_key(from.names.last()) {
            Answer::Done
        } else {
            Answer::Failed { reason: Seq::empty() }
        },
        _ => Answer::Done,
    }
}

/// Giving an answer before `answers` is giving all of them in a row.
proof fn lemma_answer_first(
    w: World,
    first: Answer,
    answers: Seq<Answer>,
    canonical: Seq<Published>,
)
    requires
        w.files.can_answer(w.progress.request(), first),
        !w.files.is_mishap(w.progress.request(), first),
        w.answered(first, canonical).can_give(answers, canonical),
        w.answered(first, canonical).runs_smoothly(answers, canonical),
    ensures
        ({
            let all = seq![first] + answers;
            &&& w.after(all, canonical) == w.answered(first, canonical).after(answers, canonical)
            &&& w.can_give(all, canonical)
            &&& w.runs_smoothly(all, canonical)
        }),
    decreases answers.len(),
{
    let all = seq![first] + answers;
    assert(all.len() > 0);
    if answers.len() == 0 {
        assert(all.drop_last() =~= Seq::empty());
        assert(all.last() == first);
        assert(w.after(all.drop_last(), canonical) == w);
        assert(w.can_give(all.drop_last(), canonical));
        assert(w.runs_smoothly(all.drop_last(), canonical));
    } else {
        assert(all.drop_last() =~= seq![first] + answers.drop_last());
        assert(all.last() == answers.last());
        lemma_answer_first(w, first, answers.drop_last(), canonical);
    }
}

/// How far a stage is from the next step.
spec fn stages_left(w: World) -> int {
    let most = w.files.backup.dom().len() + 4int;
    match w.progress.stage {
        Stage::CreatingStore => most + 2,
        Stage::CreatingBackup => most + 1,
        Stage::Probing { n } => most - n,
        _ => 1,
    }
}

/// That the places tried before the one being tried were taken.
spec fn tried_in_order(w: World) -> bool {
    w.progress.stage matches Stage::Probing { n } ==> forall|m: nat|
        1 <= m < n ==> w.files.backup.contains_key(
            #[trigger] candidate_name(w.progress.moving_name()->0, m),
        )
}

/// The search for a free place has gone no further than there are backups.
proof fn lemma_probing_is_bounded(w: World, n: nat)
    requires
        w.progress.wf(),
        w.progress.stage == (Stage::Probing { n }),
        w.files.backup.dom().finite(),
        tried_in_order(w),
    ensures
        n <= w.files.backup.dom().len() + 1,
        n == w.files.backup.dom().len() + 1 ==> !w.files.backup.contains_key(
            w.progress.moving_to(n).names.last(),
        ),
        w.progress.moving_to(n).names.last() == candidate_name(w.progress.moving_name()->0, n),
{
    let name = w.progress.moving_name()->0;
    law_a_place_is_free(w.files.backup.dom(), name);
    let free = choose|m: nat|
        1 <= m <= w.files.backup.dom().len() + 1 && !w.files.backup.dom().contains(
            #[trigger] candidate_name(name, m),
        );
    assert(n <= free);
}

/// From anywhere in a run, files that cause no mishap lead to its end.
proof fn lemma_run_ends(w: World, canonical: Seq<Published>) -> (answers: Seq<Answer>)
    requires
        w.progress.wf(),
        w.files.backup.dom().finite(),
        tried_in_order(w),
    ensures
        w.can_give(answers, canonical),
        w.runs_smoothly(answers, canonical),
        w.after(answers, canonical).progress.is_over(),
    decreases w.progress.steps.len() - w.progress.next, stages_left(w),
{
    let p = w.progress;
    if p.is_over() {
        Seq::empty()
    } else {
        let answer = smooth_answer(w);
        let v = w.answered(answer, canonical);
        lemma_answer_leads(p, answer);
        if let Some(q) = p.resumed(answer) {
            lemma_go_on(q);
        }
        if let Stage::Probing { n } = p.stage {
            lemma_probing_is_bounded(w, n);
        }
        let rest = lemma_run_ends(v, canonical);
        lemma_answer_first(w, answer, rest, canonical);
        seq![answer] + rest
    }
}

/// Every plan that keeps to the store can be carried out to its end with no mishap.
pub proof fn law_every_plan_can_be_carried_out(
    platform: Platform,
    store: Place,
    canonical: Seq<Published>,
    plan: Decision,
    files: Files,
)
    requires
        keeps_to_the_store(platform, store, plan),
        files.backup.dom().finite(),
    ensures
        ({
            let w = World { progress: Progress::start(platform, store, canonical, plan), files };
            exists|answers: Seq<Answer>| #[trigger]
                w.can_give(answers, canonical) && w.runs_smoothly(answers, canonical) && w.after(
                    answers,
                    canonical,
                ).progress.is_over()
        }),
{
    let w = World { progress: Progress::start(platform, store, canonical, plan), files };
    let answers = lemma_run_ends(w, canonical);
    assert(w.can_give(answers, canonical));
}

/// How many answers a run of this many steps can take at the most, when there are this many
/// backups to begin with.
pub open spec fn longest_run(steps: nat, backups: nat) -> nat {
    (steps + 1) * (backups + steps + 7)
}

/// How many answers one step can still take, at the most.
spec fn step_left(w: World) -> int {
    match w.progress.stage {
        Stage::CreatingBackup => w.files.backup.dom().len() + 4int,
        Stage::Probing { n } => w.files.backup.dom().len() + 3 - n,
        Stage::Finished => 0,
        Stage::GivenUp { failure } => 0,
        _ => 1,
    }
}

/// How many steps are left, the creation of the store counting as one.
spec fn steps_left(w: World) -> int {
    if w.progress.stage is CreatingStore {
        w.progress.steps.len() - w.progress.next + 1
    } else {
        w.progress.steps.len() - w.progress.next
    }
}

/// More answers than one step can take, from here on.
spec fn step_bound(w: World) -> int {
    w.files.backup.dom().len() + (w.progress.steps.len() - w.progress.next) + 7
}

/// How many answers the run can still take, at the most.
spec fn run_left(w: World) -> int {
    if w.progress.is_over() {
        0
    } else {
        steps_left(w) * step_bound(w) + step_left(w)
    }
}

/// What holds all along a run whose answers are counted.
spec fn is_counted(w: World) -> bool {
    &&& w.progress.wf()
    &&& w.files.backup.dom().finite()
    &&& tried_in_order(w)
    &&& w.progress.stage matches Stage::Probing { n } ==> n <= w.files.backup.dom().len() + 1
}

/// One step fewer, each taking no more, leaves fewer answers.
proof fn lemma_fewer(k: int, bound: int, left: int, k2: int, bound2: int, left2: int)
    by (nonlinear_arith)
    requires
        0 <= k2 < k,
        0 < bound2 <= bound,
        0 <= left,
        left2 < bound2,
    ensures
        k2 * bound2 + left2 < k * bound + left,
{
}

/// A count of answers is never below zero.
proof fn lemma_product_not_negative(k: int, bound: int)
    by (nonlinear_arith)
    requires
        0 <= k,
        0 <= bound,
    ensures
        0 <= k * bound,
{
}

/// Each answer leaves fewer.
proof fn lemma_answers_run_out(w: World, answer: Answer, canonical: Seq<Published>)
    requires
        is_counted(w),
        !w.progress.is_over(),
        w.files.can_find(w.progress.request(), answer),
    ensures
        is_counted(w.answered(answer, canonical)),
        0 <= run_left(w.answered(answer, canonical)) < run_left(w),
{
    let p = w.progress;
    let v = w.answered(answer, canonical);
    lemma_answer_leads(p, answer);
    if let Some(q) = p.resumed(answer) {
        lemma_go_on(q);
    }
    if let Stage::Probing { n } = p.stage {
        lemma_probing_is_bounded(w, n);
    }
    lemma_product_not_negative(steps_left(w), step_bound(w));
    lemma_product_not_negative(steps_left(v), step_bound(v));
    if !v.progress.is_over() && steps_left(v) < steps_left(w) {
        lemma_fewer(
            steps_left(w),
            step_bound(w),
            step_left(w),
            steps_left(v),
            step_bound(v),
            step_left(v),
        );
    }
}

/// A run that is not over took fewer answers than there were.
proof fn lemma_answers_are_counted(w: World, answers: Seq<Answer>, canonical: Seq<Published>)
    requires
        is_counted(w),
        w.can_find(answers, canonical),
    ensures
        is_counted(w.after(answers, canonical)) || w.after(answers, canonical).progress.is_over(),
        !w.after(answers, canonical).progress.is_over() ==> answers.len() + run_left(
            w.after(answers, canonical),
        ) <= run_left(w),
    decreases answers.len(),
{
    if answers.len() > 0 {
        lemma_answers_are_counted(w, answers.drop_last(), canonical);
        let before = w.after(answers.drop_last(), canonical);
        if !before.progress.is_over() {
            lemma_answers_run_out(before, answers.last(), canonical);
        }
    }
}

/// Every run ends, whatever the file system answers, and after a bounded number of answers,
/// as long as no probe finds what is not there. In particular the search for a free place
/// in the backup directory does not go on for ever.
pub proof fn law_every_run_ends(
    platform: Platform,
    store: Place,
    canonical: Seq<Published>,
    plan: Decision,
    files: Files,
    answers: Seq<Answer>,
)
    requires
        files.backup.dom().finite(),
        ({
            let start = Progress::start(platform, store, canonical, plan);
            &&& (World { progress: start, files }).can_find(answers, canonical)
            &&& answers.len() > longest_run(start.steps.len(), files.backup.dom().len())
        }),
    ensures
        ({
            let start = Progress::start(platform, store, canonical, plan);
            (World { progress: start, files }).after(answers, canonical).progress.is_over()
        }),
{
    let w = World { progress: Progress::start(platform, store, canonical, plan), files };
    lemma_answers_are_counted(w, answers, canonical);
    let end = w.after(answers, canonical);
    if !end.progress.is_over() {
        lemma_product_not_negative(steps_left(end), step_bound(end));
        assert(step_left(end) > 0);
        assert(run_left(w) <= longest_run(w.progress.steps.len(), files.backup.dom().len()) + 1);
    }
}

/// A file that no step moves or writes stays as it is, at any point of a run.
proof fn lemma_untouched_run(
    start: Progress,
    files: Files,
    answers: Seq<Answer>,
    canonical: Seq<Published>,
    name: Seq<char>,
)
    requires
        start.wf(),
        files.live.contains_key(name),
        !writes_to(start.steps, name),
        !moves(start.steps, name),
    ensures
        ({
            let now = (World { progress: start, files }).after(answers, canonical);
            &&& now.progress.wf()
            &&& now.progress.steps == start.steps
            &&& now.files.live.contains_key(name)
            &&& now.files.live[name] == files.live[name]
        }),
    decreases answers.len(),
{
    if answers.len() > 0 {
        lemma_untouched_run(start, files, answers.drop_last(), canonical, name);
        let before = (World { progress: start, files }).after(answers.drop_last(), canonical);
        let p = before.progress;
        law_answers_keep_progress_in_order(p, answers.last());
        if p.stage is Moving {
            assert(start.steps[p.next] is MoveAside);
        }
        if p.stage is Writing {
            assert(start.steps[p.next] is Write);
        }
    }
}

/// Whatever happens, at any point of any run, what is not a superseded profile of a published
/// region in scope, and is not called as a profile to be written, is as it was. What is not
/// named like a profile is none.
pub proof fn law_others_are_left_alone(
    platform: Platform,
    store: Place,
    canonical: Seq<Published>,
    firs: Seq<FirCode>,
    parse: spec_fn(Seq<u8>) -> Option<Header>,
    files: Files,
    stored: Seq<Stored>,
    answers: Seq<Answer>,
    name: Seq<char>,
)
    requires
        reads_as(stored, store, files.live, parse),
        keeps_to_the_store(platform, store, planned(stored, canonical, firs)),
        files.live.contains_key(name),
        is_profile_name(name) ==> forall|fir: FirCode| #[trigger]
            firs.contains(fir) && published_at(canonical, fir) is Some ==> !(parse(
                files.live[name],
            ) matches Some(header) && header.is_superseded(fir)),
        forall|fir: FirCode| #[trigger]
            firs.contains(fir) && !has_current(stored, fir) ==> (published_at(
                canonical,
                fir,
            ) matches Some(at) ==> canonical[at].file_name() != name),
    ensures
        ({
            let plan = planned(stored, canonical, firs);
            let w = World { progress: Progress::start(platform, store, canonical, plan), files };
            let now = w.after(answers, canonical);
            now.files.live.contains_key(name) && now.files.live[name] == files.live[name]
        }),
{
    let plan = planned(stored, canonical, firs);
    let start = Progress::start(platform, store, canonical, plan);
    let steps = start.steps;
    if writes_to(steps, name) {
        let j = choose|j: int|
            0 <= j < steps.len() && (#[trigger] steps[j]) is Write
                && steps[j]->destination.names.last() == name;
        assert(steps.contains(steps[j]));
        let fir = lemma_write_is_for(store, canonical, firs, stored, steps[j]);
        assert(store.join(canonical[steps[j]->profile].file_name()).names.last()
            == canonical[steps[j]->profile].file_name());
        assert(false);
    }
    if moves(steps, name) {
        let j = choose|j: int|
            0 <= j < steps.len() && (#[trigger] steps[j]) is MoveAside
                && steps[j]->path.names.last() == name;
        assert(steps.contains(steps[j]));
        let (fir, k) = lemma_move_is_for(store, canonical, firs, stored, steps[j]);
        assert(stored[k].path.names.last() == name);
        assert(false);
    }
    lemma_untouched_run(start, files, answers, canonical, name);
}

/// Once a profile has been written that no later step moves or writes over, it stays
/// written, whatever happens.
proof fn lemma_written_run(
    start: Progress,
    files: Files,
    answers: Seq<Answer>,
    canonical: Seq<Published>,
    j: int,
)
    requires
        start.wf(),
        start.stage is Finished ==> start.next == start.steps.len(),
        start.next == 0,
        0 <= j < start.steps.len(),
        start.steps[j] is Write,
        forall|k: int|
            j < k < start.steps.len() && (#[trigger] start.steps[k]) is Write
                ==> start.steps[k]->destination.names.last()
                != start.steps[j]->destination.names.last(),
        forall|k: int|
            j < k < start.steps.len() && (#[trigger] start.steps[k]) is MoveAside
                ==> start.steps[k]->path.names.last()
                != start.steps[j]->destination.names.last(),
    ensures
        ({
            let now = (World { progress: start, files }).after(answers, canonical);
            let name = start.steps[j]->destination.names.last();
            &&& now.progress.wf()
            &&& now.progress.steps == start.steps
            &&& now.progress.stage is Finished ==> now.progress.next == start.steps.len()
            &&& now.progress.next > j ==> {
                &&& now.files.live.contains_key(name)
                &&& now.files.live[name] == canonical[start.steps[j]->profile].bytes
            }
        }),
    decreases answers.len(),
{
    if answers.len() > 0 {
        lemma_written_run(start, files, answers.drop_last(), canonical, j);
        let before = (World { progress: start, files }).after(answers.drop_last(), canonical);
        let p = before.progress;
        let answer = answers.last();
        lemma_answer_leads(p, answer);
        if let Some(q) = p.resumed(answer) {
            lemma_go_on(q);
        }
        if p.next > j {
            if p.stage is Moving {
                assert(start.steps[p.next] is MoveAside);
            }
            if p.stage is Writing {
                assert(start.steps[p.next] is Write);
            }
        }
    }
}

/// The steps of some operations and then of others are those of all of them in a row.
proof fn lemma_plan_steps_of_both(
    store: Place,
    canonical: Seq<Published>,
    one: Seq<Op>,
    two: Seq<Op>,
)
    ensures
        plan_steps(store, canonical, one + two) == plan_steps(store, canonical, one) + plan_steps(
            store,
            canonical,
            two,
        ),
    decreases two.len(),
{
    let steps_of = |op: Op| op_steps(store, canonical, op);
    if two.len() == 0 {
        assert(one + two =~= one);
        assert(plan_steps(store, canonical, two) =~= Seq::empty());
    } else {
        let n = two.len() - 1;
        let all = one + two;
        two.lemma_flat_map_take_append(steps_of, n);
        all.lemma_flat_map_take_append(steps_of, one.len() + n);
        assert(two.take(n + 1) == two);
        assert(all.take(one.len() + n + 1) == all);
        assert(all.take(one.len() + n) == one + two.take(n));
        lemma_plan_steps_of_both(store, canonical, one, two.take(n));
        let last = steps_of(two[n]);
        assert(all[one.len() + n] == two[n]);
        assert((plan_steps(store, canonical, one) + plan_steps(store, canonical, two.take(n)))
            + last =~= plan_steps(store, canonical, one) + (plan_steps(
            store,
            canonical,
            two.take(n),
        ) + last));
    }
}

/// After every run that finished, a profile that the plan writes is in the store, byte for
/// byte, under the name that the plan gives it: also where a superseded profile could not be
/// backed up. Only a later operation that writes or moves a file of that name can take it
/// away.
pub proof fn law_the_published_profile_is_written(
    platform: Platform,
    store: Place,
    canonical: Seq<Published>,
    plan: Decision,
    files: Files,
    answers: Seq<Answer>,
    o: int,
    name: Seq<char>,
)
    requires
        keeps_to_the_store(platform, store, plan),
        0 <= o < plan.ops.len(),
        plan.ops[o].written() == Some(name),
        published_at(canonical, plan.ops[o].fir()) is Some,
        forall|k: int|
            o < k < plan.ops.len() ==> {
                &&& (#[trigger] plan.ops[k]).written() != Some(name)
                &&& !plan.ops[k].superseded().contains(store.join(name))
            },
        ({
            let w = World { progress: Progress::start(platform, store, canonical, plan), files };
            w.after(answers, canonical).progress.stage is Finished
        }),
    ensures
        ({
            let w = World { progress: Progress::start(platform, store, canonical, plan), files };
            let end = w.after(answers, canonical);
            let profile = canonical[published_at(canonical, plan.ops[o].fir())->0];
            &&& end.files.live.contains_key(name)
            &&& end.files.live[name] == profile.bytes
        }),
{
    let start = Progress::start(platform, store, canonical, plan);
    let steps = start.steps;
    let at = published_at(canonical, plan.ops[o].fir())->0;
    let write = Step::Write { destination: store.join(name), profile: at };
    let earlier = plan.ops.take(o);
    let later = plan.ops.skip(o + 1);
    let its = op_steps(store, canonical, plan.ops[o]);
    let steps_of = |op: Op| op_steps(store, canonical, op);
    plan.ops.lemma_flat_map_take_append(steps_of, o);
    assert(plan.ops.take(o + 1) + later =~= plan.ops);
    lemma_plan_steps_of_both(store, canonical, plan.ops.take(o + 1), later);
    let before = plan_steps(store, canonical, earlier);
    let after = plan_steps(store, canonical, later);
    assert(steps == before + its + after);
    assert(its.last() == write);
    let j = before.len() + its.len() - 1;
    assert(steps[j] == write);
    assert(store.join(name).names.last() == name);
    assert forall|k: int| j < k < steps.len() implies {
        &&& (#[trigger] steps[k]) is Write ==> steps[k]->destination.names.last() != name
        &&& steps[k] is MoveAside ==> steps[k]->path.names.last() != name
    } by {
        assert(steps[k] == after[k - j - 1]);
        assert(after.contains(steps[k]));
        let i = lemma_step_is_of_op(store, canonical, later, steps[k]);
        let op = plan.ops[o + 1 + i];
        assert(later[i] == op);
        let all = op_steps(store, canonical, op);
        let q = choose|q: int| 0 <= q < all.len() && all[q] == steps[k];
        if q < op.superseded().len() {
            let path = op.superseded()[q];
            assert(steps[k] == (Step::MoveAside { path }));
            assert(op.superseded().contains(path));
            assert(is_in_store(platform, store, path));
        } else {
            let other = op.written()->0;
            assert(steps[k] == write_step(store, canonical, op.fir(), other));
            assert(store.join(other).names.last() == other);
        }
    }
    if !plan.has_work() {
        lemma_inert_plan_has_no_steps(store, canonical, plan);
    }
    lemma_written_run(start, files, answers, canonical, j);
}

/// The last operation planned for a region in scope.
proof fn lemma_last_planned_op(
    stored: Seq<Stored>,
    canonical: Seq<Published>,
    firs: Seq<FirCode>,
    fir: FirCode,
) -> (o: int)
    requires
        firs.contains(fir),
        published_at(canonical, fir) is Some,
    ensures
        0 <= o < planned(stored, canonical, firs).ops.len(),
        planned(stored, canonical, firs).ops[o] == op_for(
            stored,
            fir,
            canonical[published_at(canonical, fir)->0].file_name(),
        ),
        forall|k: int|
            o < k < planned(stored, canonical, firs).ops.len() ==> (#[trigger] planned(
                stored,
                canonical,
                firs,
            ).ops[k]).fir() != fir,
{
    let ops = planned(stored, canonical, firs).ops;
    let of = ops.map_values(|op: Op| op.fir());
    let i = lemma_planned_op_is_there(stored, canonical, firs, fir);
    assert(of[i] == fir);
    of.index_of_last_ensures(fir);
    let o = of.index_of_last(fir)->0;
    assert forall|k: int| o < k < ops.len() implies (#[trigger] ops[k]).fir() != fir by {
        assert(of[k] != fir);
    }
    assert(of[o] == fir);
    let other = lemma_planned_op_is_for(stored, canonical, firs, o);
    o
}

/// A region in scope that had no current profile has the published one after every run that
/// finished, byte for byte, under its canonical id, unless another region gets in its way.
pub proof fn law_a_region_gets_its_profile(
    platform: Platform,
    store: Place,
    canonical: Seq<Published>,
    firs: Seq<FirCode>,
    parse: spec_fn(Seq<u8>) -> Option<Header>,
    files: Files,
    stored: Seq<Stored>,
    answers: Seq<Answer>,
    fir: FirCode,
)
    requires
        reads_as(stored, store, files.live, parse),
        names_do_not_clash(store, stored, canonical, firs),
        keeps_to_the_store(platform, store, planned(stored, canonical, firs)),
        ({
            let plan = planned(stored, canonical, firs);
            let w = World { progress: Progress::start(platform, store, canonical, plan), files };
            w.after(answers, canonical).progress.stage is Finished
        }),
        firs.contains(fir),
        published_at(canonical, fir) is Some,
        !has_current(stored, fir),
    ensures
        ({
            let plan = planned(stored, canonical, firs);
            let w = World { progress: Progress::start(platform, store, canonical, plan), files };
            let end = w.after(answers, canonical);
            let profile = canonical[published_at(canonical, fir)->0];
            &&& end.files.live.contains_key(profile.file_name())
            &&& end.files.live[profile.file_name()] == profile.bytes
        }),
{
    let plan = planned(stored, canonical, firs);
    let name = canonical[published_at(canonical, fir)->0].file_name();
    let o = lemma_last_planned_op(stored, canonical, firs, fir);
    assert forall|k: int| o < k < plan.ops.len() implies {
        &&& (#[trigger] plan.ops[k]).written() != Some(name)
        &&& !plan.ops[k].superseded().contains(store.join(name))
    } by {
        let other = lemma_planned_op_is_for(stored, canonical, firs, k);
        assert(other != fir);
        assert(firs.contains(fir) && firs.contains(other));
        if plan.ops[k].superseded().contains(store.join(name)) {
            assert(superseded_paths(stored, other).contains(store.join(name)));
            let i = lemma_superseded_path_is_of(stored, other, store.join(name));
            assert(stored[i].path == store.join(name));
        }
    }
    law_the_published_profile_is_written(
        platform,
        store,
        canonical,
        plan,
        files,
        answers,
        o,
        name,
    );
}

/// Migrating converges: after one smooth run, running again finds nothing to do.
pub proof fn law_migration_converges(
    platform: Platform,
    store: Place,
    canonical: Seq<Published>,
    firs: Seq<FirCode>,
    parse: spec_fn(Seq<u8>) -> Option<Header>,
    files: Files,
    stored: Seq<Stored>,
    answers: Seq<Answer>,
    again: Seq<Stored>,
)
    requires
        reads_as(stored, store, files.live, parse),
        release_is_usable(stored, canonical, firs, parse),
        names_do_not_clash(store, stored, canonical, firs),
        keeps_to_the_store(platform, store, planned(stored, canonical, firs)),
        ({
            let plan = planned(stored, canonical, firs);
            let w = World { progress: Progress::start(platform, store, canonical, plan), files };
            let end = w.after(answers, canonical);
            &&& w.can_give(answers, canonical)
            &&& w.runs_smoothly(answers, canonical)
            &&& end.progress.is_over()
            &&& reads_as(again, store, end.files.live, parse)
        }),
    ensures
        !planned(again, canonical, firs).has_work(),
{
    let plan = planned(stored, canonical, firs);
    law_second_run(platform, store, canonical, firs, parse, files, stored, answers, again);
    law_a_smooth_run_does_the_plan(platform, store, canonical, plan, files, answers);
    let w = World { progress: Progress::start(platform, store, canonical, plan), files };
    let end = w.after(answers, canonical);
    assert forall|fir: FirCode| #[trigger]
        firs.contains(fir) && published_at(canonical, fir) is Some implies has_current(
        again,
        fir,
    ) by {
        let name = if has_current(stored, fir) {
            let i = choose|i: int|
                0 <= i < stored.len() && #[trigger] stored[i].header.is_current(fir);
            let name = stored[i].path.names.last();
            assert forall|other: FirCode| #[trigger]
                firs.contains(other) && !has_current(stored, other) implies (published_at(
                canonical,
                other,
            ) matches Some(at) ==> canonical[at].file_name() != name) by {
                assert(firs.contains(fir) && firs.contains(other));
                assert(stored[i].path == store.join(name));
            }
            law_others_are_left_alone(
                platform,
                store,
                canonical,
                firs,
                parse,
                files,
                stored,
                answers,
                name,
            );
            name
        } else {
            law_a_region_gets_its_profile(
                platform,
                store,
                canonical,
                firs,
                parse,
                files,
                stored,
                answers,
                fir,
            );
            canonical[published_at(canonical, fir)->0].file_name()
        };
        assert(end.files.live.contains_key(name));
        let k = choose|k: int|
            0 <= k < again.len() && (#[trigger] again[k]).path == store.join(name);
        assert(again[k].path.names.last() == name);
        assert(again[k].header.is_current(fir));
    }
}

/// That every file in the store has a plain name, as files have, which its path ends in, and
/// that each profile that is to be written has a plain name too.
pub open spec fn names_are_plain(
    platform: Platform,
    store: Place,
    live: Map<Seq<char>, Seq<u8>>,
    stored: Seq<Stored>,
    canonical: Seq<Published>,
    firs: Seq<FirCode>,
) -> bool {
    &&& forall|name: Seq<char>| #[trigger]
        live.contains_key(name) ==> is_plain(platform, name) && store.join(name).file_name(platform)
            == Some(name)
    &&& forall|fir: FirCode| #[trigger]
        firs.contains(fir) && !has_current(stored, fir) ==> (published_at(
            canonical,
            fir,
        ) matches Some(at) ==> is_plain(platform, canonical[at].file_name()))
}

/// A plan over a store whose files have plain names keeps to the store, when the profiles to
/// be written have plain names.
pub proof fn law_plans_keep_to_the_store(
    platform: Platform,
    store: Place,
    canonical: Seq<Published>,
    firs: Seq<FirCode>,
    parse: spec_fn(Seq<u8>) -> Option<Header>,
    live: Map<Seq<char>, Seq<u8>>,
    stored: Seq<Stored>,
)
    requires
        reads_as(stored, store, live, parse),
        names_are_plain(platform, store, live, stored, canonical, firs),
    ensures
        keeps_to_the_store(platform, store, planned(stored, canonical, firs)),
{
    let plan = planned(stored, canonical, firs);
    assert forall|i: int| 0 <= i < plan.ops.len() implies {
        &&& forall|path: Place| #[trigger]
            plan.ops[i].superseded().contains(path) ==> is_in_store(platform, store, path)
        &&& (#[trigger] plan.ops[i]).written() matches Some(name) ==> is_plain(platform, name)
    } by {
        let fir = lemma_planned_op_is_for(stored, canonical, firs, i);
        assert forall|path: Place| #[trigger]
            plan.ops[i].superseded().contains(path) implies is_in_store(platform, store, path) by {
            assert(superseded_paths(stored, fir).contains(path));
            let k = lemma_superseded_path_is_of(stored, fir, path);
            assert(live.contains_key(stored[k].path.names.last()));
        }
    }
}

} // verus!
