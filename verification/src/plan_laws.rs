//! What a plan and a status are for, said of the store, the release and the regions alone.

use crate::fir::FirCode;
use crate::laws::law_the_serial_parts_the_generations;
use crate::location::Place;
use crate::paths::Platform;
use crate::plain::{are_places, holds_alike, lemma_filter_map_places, lemma_same_places};
use crate::plan::{
    has_current, op_for, planned, planned_op, planned_warning, published_at, superseded_paths,
    Op, Published, Stored,
};
use crate::profile::Header;
use crate::status::{ProfileState, Status};
use crate::warning::Notice;
use vstd::prelude::*;

verus! {

/// Whether a header is of the region and from before the reissue: its name holds the region's
/// code, and it has no serial or one below the first of the reissue.
pub open spec fn is_old(header: Header, fir: FirCode) -> bool {
    holds_alike(header.name, fir.code()) && !(header.update_serial matches Some(serial) && serial
        >= 2026090401)
}

/// Whether a header is of the region and from the reissue on.
pub open spec fn is_new(header: Header, fir: FirCode) -> bool {
    holds_alike(header.name, fir.code()) && (header.update_serial matches Some(serial) && serial
        >= 2026090401)
}

/// Whether some stored profile is of the region and from before the reissue.
pub open spec fn some_old(stored: Seq<Stored>, fir: FirCode) -> bool {
    exists|j: int| 0 <= j < stored.len() && is_old((#[trigger] stored[j]).header, fir)
}

/// Whether some stored profile is of the region and from the reissue on.
pub open spec fn some_new(stored: Seq<Stored>, fir: FirCode) -> bool {
    exists|j: int| 0 <= j < stored.len() && is_new((#[trigger] stored[j]).header, fir)
}

/// Whether some stored profile is of the region at all.
pub open spec fn some_match(stored: Seq<Stored>, fir: FirCode) -> bool {
    exists|j: int|
        0 <= j < stored.len() && holds_alike((#[trigger] stored[j]).header.name, fir.code())
}

/// Whether `paths` are where the region's profiles from before the reissue lie: all of them,
/// each once, in the order of the store.
pub open spec fn are_old_paths(stored: Seq<Stored>, fir: FirCode, paths: Seq<Place>) -> bool {
    let wanted = |j: int| is_old(stored[j].header, fir);
    exists|at: Seq<int>|
        {
            &&& #[trigger] are_places(stored.len(), at, wanted)
            &&& at.len() == paths.len()
            &&& forall|k: int| 0 <= k < at.len() ==> #[trigger] paths[k] == stored[at[k]].path
        }
}

/// Whether `at` is the first published profile of the region.
pub open spec fn is_first_published(canonical: Seq<Published>, fir: FirCode, at: int) -> bool {
    &&& 0 <= at < canonical.len()
    &&& canonical[at].fir == fir
    &&& forall|i: int| 0 <= i < at ==> (#[trigger] canonical[i]).fir != fir
}

/// Whether a profile is published for the region.
pub open spec fn is_published(canonical: Seq<Published>, fir: FirCode) -> bool {
    exists|i: int| 0 <= i < canonical.len() && (#[trigger] canonical[i]).fir == fir
}

/// Whether `name` is that of the file of the first published profile of the region: its id,
/// followed by `.json`.
pub open spec fn is_published_name(
    canonical: Seq<Published>,
    fir: FirCode,
    name: Seq<char>,
) -> bool {
    exists|at: int| #[trigger]
        is_first_published(canonical, fir, at) && name == canonical[at].header.id + seq![
            '.',
            'j',
            's',
            'o',
            'n',
        ]
}

/// Whether `op` is what the region needs: its profiles from before the reissue are moved, all
/// of them, and the published one is written where none from the reissue on is there.
pub open spec fn is_needed(
    stored: Seq<Stored>,
    canonical: Seq<Published>,
    fir: FirCode,
    op: Op,
) -> bool {
    match op {
        Op::BackupThenReplace { fir: of, superseded, file_name } => {
            &&& of == fir
            &&& some_old(stored, fir)
            &&& !some_new(stored, fir)
            &&& are_old_paths(stored, fir, superseded)
            &&& is_published_name(canonical, fir, file_name)
        },
        Op::BackUp { fir: of, superseded } => {
            &&& of == fir
            &&& some_old(stored, fir)
            &&& some_new(stored, fir)
            &&& are_old_paths(stored, fir, superseded)
        },
        Op::Write { fir: of, file_name } => {
            &&& of == fir
            &&& !some_old(stored, fir)
            &&& !some_new(stored, fir)
            &&& is_published_name(canonical, fir, file_name)
        },
        Op::Skip { fir: of } => of == fir && !some_old(stored, fir) && some_new(stored, fir),
    }
}

/// Where the first published profile of a region stands.
pub(crate) proof fn lemma_first_published(canonical: Seq<Published>, fir: FirCode)
    ensures
        match published_at(canonical, fir) {
            Some(at) => is_first_published(canonical, fir, at),
            None => !is_published(canonical, fir),
        },
        published_at(canonical, fir) is Some <==> is_published(canonical, fir),
{
    let firs = canonical.map_values(|p: Published| p.fir);
    firs.index_of_first_ensures(fir);
    assert forall|i: int| 0 <= i < canonical.len() implies firs[i] == (
    #[trigger] canonical[i]).fir by {}
    if is_published(canonical, fir) {
        let i = choose|i: int| 0 <= i < canonical.len() && (#[trigger] canonical[i]).fir == fir;
        assert(firs[i] == fir);
    }
}

/// The profiles of a region that the plan takes to be superseded are those from before the
/// reissue, and it takes one to be current where one is from the reissue on.
proof fn lemma_generations(stored: Seq<Stored>, fir: FirCode)
    ensures
        are_old_paths(stored, fir, superseded_paths(stored, fir)),
        superseded_paths(stored, fir).len() > 0 <==> some_old(stored, fir),
        has_current(stored, fir) <==> some_new(stored, fir),
        some_match(stored, fir) <==> some_old(stored, fir) || some_new(stored, fir),
{
    assert forall|j: int| 0 <= j < stored.len() implies {
        let header = (#[trigger] stored[j]).header;
        &&& header.is_superseded(fir) <==> is_old(header, fir)
        &&& header.is_current(fir) <==> is_new(header, fir)
    } by {
        law_the_serial_parts_the_generations(stored[j].header, fir);
    }
    let pick = |s: Stored|
        if s.header.is_superseded(fir) {
            Some(s.path)
        } else {
            None
        };
    let wanted = |j: int| is_old(stored[j].header, fir);
    let picked = |j: int| pick(stored[j]) is Some;
    let at = lemma_filter_map_places(stored, pick);
    assert forall|j: int| 0 <= j < stored.len() implies picked(j) == #[trigger] wanted(j) by {
        assert(stored[j].header.is_superseded(fir) <==> is_old(stored[j].header, fir));
    }
    lemma_same_places(stored.len(), at, picked, wanted);
    assert(are_places(stored.len(), at, wanted));
    let paths = superseded_paths(stored, fir);
    assert(paths == stored.filter_map(pick));
    assert forall|k: int| 0 <= k < at.len() implies #[trigger] paths[k] == stored[at[k]].path by {
        assert(Some(stored.filter_map(pick)[k]) == pick(stored[at[k]]));
        assert(wanted(at[k]));
    }
    if paths.len() > 0 {
        assert(wanted(at[0]));
        assert(is_old(stored[at[0]].header, fir));
    }
    if some_old(stored, fir) {
        let j = choose|j: int| 0 <= j < stored.len() && is_old((#[trigger] stored[j]).header, fir);
        assert(wanted(j));
        assert(at.contains(j));
    }
    if has_current(stored, fir) {
        let j = choose|j: int|
            0 <= j < stored.len() && #[trigger] stored[j].header.is_current(fir);
        assert(is_new(stored[j].header, fir));
    }
    if some_new(stored, fir) {
        let j = choose|j: int| 0 <= j < stored.len() && is_new((#[trigger] stored[j]).header, fir);
        assert(stored[j].header.is_current(fir));
    }
    if some_match(stored, fir) {
        let j = choose|j: int|
            0 <= j < stored.len() && holds_alike((#[trigger] stored[j]).header.name, fir.code());
        assert(is_old(stored[j].header, fir) || is_new(stored[j].header, fir));
    }
}

/// What a plan does about one region is what the region needs.
proof fn lemma_planned_op_is_needed(stored: Seq<Stored>, canonical: Seq<Published>, fir: FirCode)
    ensures
        match planned_op(stored, canonical, fir) {
            Some(op) => is_published(canonical, fir) && is_needed(stored, canonical, fir, op),
            None => !is_published(canonical, fir),
        },
        match planned_warning(canonical, fir) {
            Some(warning) => !is_published(canonical, fir) && warning == (Notice::Unpublished {
                fir,
            }),
            None => is_published(canonical, fir),
        },
{
    lemma_first_published(canonical, fir);
    lemma_generations(stored, fir);
    reveal_strlit(".json");
    if let Some(at) = published_at(canonical, fir) {
        assert(".json"@ =~= seq!['.', 'j', 's', 'o', 'n']);
        assert(is_first_published(canonical, fir, at));
        assert(is_published(canonical, fir));
        assert(is_published_name(canonical, fir, canonical[at].file_name()));
        assert(is_needed(stored, canonical, fir, op_for(stored, fir, canonical[at].file_name())));
    }
}

/// Exactly the regions asked for that are published are acted upon, in the order in which
/// they are asked for, each as it needs.
pub proof fn law_every_published_region_gets_what_it_needs(
    stored: Seq<Stored>,
    canonical: Seq<Published>,
    firs: Seq<FirCode>,
)
    ensures
        ({
            let ops = planned(stored, canonical, firs).ops;
            let wanted = |i: int| is_published(canonical, firs[i]);
            exists|at: Seq<int>|
                {
                    &&& #[trigger] are_places(firs.len(), at, wanted)
                    &&& at.len() == ops.len()
                    &&& forall|k: int|
                        0 <= k < at.len() ==> is_needed(
                            stored,
                            canonical,
                            firs[at[k]],
                            #[trigger] ops[k],
                        )
                }
        }),
{
    let ops = planned(stored, canonical, firs).ops;
    let op_of = |fir: FirCode| planned_op(stored, canonical, fir);
    let wanted = |i: int| is_published(canonical, firs[i]);
    let picked = |i: int| op_of(firs[i]) is Some;
    let at = lemma_filter_map_places(firs, op_of);
    assert forall|i: int| 0 <= i < firs.len() implies picked(i) == #[trigger] wanted(i) by {
        lemma_planned_op_is_needed(stored, canonical, firs[i]);
    }
    lemma_same_places(firs.len(), at, picked, wanted);
    assert forall|k: int| 0 <= k < at.len() implies is_needed(
        stored,
        canonical,
        firs[at[k]],
        #[trigger] ops[k],
    ) by {
        assert(Some(firs.filter_map(op_of)[k]) == op_of(firs[at[k]]));
        lemma_planned_op_is_needed(stored, canonical, firs[at[k]]);
    }
    assert(are_places(firs.len(), at, wanted));
}

/// Exactly the regions asked for that are not published are warned about, in the order in
/// which they are asked for.
pub proof fn law_every_unpublished_region_is_warned_about(
    stored: Seq<Stored>,
    canonical: Seq<Published>,
    firs: Seq<FirCode>,
)
    ensures
        ({
            let warnings = planned(stored, canonical, firs).warnings;
            let wanted = |i: int| !is_published(canonical, firs[i]);
            exists|at: Seq<int>|
                {
                    &&& #[trigger] are_places(firs.len(), at, wanted)
                    &&& at.len() == warnings.len()
                    &&& forall|k: int|
                        0 <= k < at.len() ==> #[trigger] warnings[k] == (Notice::Unpublished {
                            fir: firs[at[k]],
                        })
                }
        }),
{
    let warnings = planned(stored, canonical, firs).warnings;
    let warning_of = |fir: FirCode| planned_warning(canonical, fir);
    let wanted = |i: int| !is_published(canonical, firs[i]);
    let picked = |i: int| warning_of(firs[i]) is Some;
    let at = lemma_filter_map_places(firs, warning_of);
    assert forall|i: int| 0 <= i < firs.len() implies picked(i) == #[trigger] wanted(i) by {
        lemma_planned_op_is_needed(stored, canonical, firs[i]);
    }
    lemma_same_places(firs.len(), at, picked, wanted);
    assert forall|k: int| 0 <= k < at.len() implies #[trigger] warnings[k] == (
    Notice::Unpublished { fir: firs[at[k]] }) by {
        assert(Some(firs.filter_map(warning_of)[k]) == warning_of(firs[at[k]]));
        lemma_planned_op_is_needed(stored, canonical, firs[at[k]]);
    }
    assert(are_places(firs.len(), at, wanted));
}

/// Whether `state` is what the store says of the region: that none of its profiles is of it,
/// that some are from before the reissue, or that there are some and none is from before it.
pub open spec fn is_state(stored: Seq<Stored>, fir: FirCode, state: ProfileState) -> bool {
    &&& state is Missing <==> !some_match(stored, fir)
    &&& state is Superseded <==> some_old(stored, fir)
    &&& state is Current <==> some_new(stored, fir) && !some_old(stored, fir)
}

/// One entry is shown for each region asked for that is published, in the order in which they
/// are asked for. It is missing exactly when no stored profile is of the region, superseded
/// exactly when one of them or more is from before the reissue, and current exactly when some
/// is from the reissue on and none from before it.
pub proof fn law_what_is_shown_is_what_is_stored(
    platform: Platform,
    home: Place,
    client_path: Place,
    stored: Seq<Stored>,
    store_warnings: Seq<Notice>,
    canonical: Seq<Published>,
    firs: Seq<FirCode>,
)
    ensures
        ({
            let entries = Status::complete(
                platform,
                home,
                client_path,
                store_warnings,
                planned(stored, canonical, firs),
            ).entries;
            let wanted = |i: int| is_published(canonical, firs[i]);
            exists|at: Seq<int>|
                {
                    &&& #[trigger] are_places(firs.len(), at, wanted)
                    &&& at.len() == entries.len()
                    &&& forall|k: int|
                        0 <= k < at.len() ==> (#[trigger] entries[k]).fir == firs[at[k]]
                            && is_state(stored, firs[at[k]], entries[k].state)
                }
        }),
{
    let plan = planned(stored, canonical, firs);
    let entries = Status::complete(platform, home, client_path, store_warnings, plan).entries;
    let wanted = |i: int| is_published(canonical, firs[i]);
    law_every_published_region_gets_what_it_needs(stored, canonical, firs);
    let at = choose|at: Seq<int>|
        {
            &&& #[trigger] are_places(firs.len(), at, wanted)
            &&& at.len() == plan.ops.len()
            &&& forall|k: int|
                0 <= k < at.len() ==> is_needed(
                    stored,
                    canonical,
                    firs[at[k]],
                    #[trigger] plan.ops[k],
                )
        };
    assert forall|k: int| 0 <= k < at.len() implies (#[trigger] entries[k]).fir == firs[at[k]]
        && is_state(stored, firs[at[k]], entries[k].state) by {
        assert(entries[k] == plan.ops[k].entry());
        assert(is_needed(stored, canonical, firs[at[k]], plan.ops[k]));
        lemma_generations(stored, firs[at[k]]);
    }
    assert(are_places(firs.len(), at, wanted));
}

/// An operation is shown for its own region: as current when it does nothing, as missing when
/// it only writes, and as superseded whenever it is there to move files, however many.
pub proof fn law_what_is_shown_of_an_operation(op: Op)
    ensures
        match op {
            Op::BackupThenReplace { fir, superseded, file_name } => op.entry().fir == fir
                && op.entry().state is Superseded,
            Op::BackUp { fir, superseded } => op.entry().fir == fir && op.entry().state
                is Superseded,
            Op::Write { fir, file_name } => op.entry().fir == fir && op.entry().state is Missing,
            Op::Skip { fir } => op.entry().fir == fir && op.entry().state is Current,
        },
        op.is_actionable() <==> !(op is Skip),
{
}

/// With a client installed it is said where; every warning about the store is shown, and
/// behind them every region asked for that is not published; and the user has something to
/// act on exactly when some region that is published is missing or superseded.
pub proof fn law_what_is_said_with_a_client(
    platform: Platform,
    home: Place,
    client_path: Place,
    stored: Seq<Stored>,
    store_warnings: Seq<Notice>,
    canonical: Seq<Published>,
    firs: Seq<FirCode>,
)
    ensures
        ({
            let status = Status::complete(
                platform,
                home,
                client_path,
                store_warnings,
                planned(stored, canonical, firs),
            );
            let wanted = |i: int| !is_published(canonical, firs[i]);
            &&& status.client_installed
            &&& status.client_path == Some(client_path)
            &&& exists|at: Seq<int>|
                {
                    &&& #[trigger] are_places(firs.len(), at, wanted)
                    &&& status.warnings.len() == store_warnings.len() + at.len()
                    &&& forall|k: int|
                        0 <= k < store_warnings.len() ==> #[trigger] status.warnings[k]
                            == store_warnings[k]
                    &&& forall|k: int|
                        0 <= k < at.len() ==> status.warnings[store_warnings.len() + k] == (
                        Notice::Unpublished { fir: firs[#[trigger] at[k]] })
                }
            &&& status.needs_attention <==> exists|i: int|
                {
                    &&& 0 <= i < firs.len()
                    &&& is_published(canonical, #[trigger] firs[i])
                    &&& some_old(stored, firs[i]) || !some_match(stored, firs[i])
                }
        }),
{
    let plan = planned(stored, canonical, firs);
    let status = Status::complete(platform, home, client_path, store_warnings, plan);
    let unpublished = |i: int| !is_published(canonical, firs[i]);
    law_every_unpublished_region_is_warned_about(stored, canonical, firs);
    let missing = choose|at: Seq<int>|
        {
            &&& #[trigger] are_places(firs.len(), at, unpublished)
            &&& at.len() == plan.warnings.len()
            &&& forall|k: int|
                0 <= k < at.len() ==> #[trigger] plan.warnings[k] == (Notice::Unpublished {
                    fir: firs[at[k]],
                })
        };
    assert forall|k: int| 0 <= k < missing.len() implies status.warnings[store_warnings.len() + k]
        == (Notice::Unpublished { fir: firs[#[trigger] missing[k]] }) by {
        assert(status.warnings[store_warnings.len() + k] == plan.warnings[k]);
    }
    assert(are_places(firs.len(), missing, unpublished));
    let wanted = |i: int| is_published(canonical, firs[i]);
    law_every_published_region_gets_what_it_needs(stored, canonical, firs);
    let at = choose|at: Seq<int>|
        {
            &&& #[trigger] are_places(firs.len(), at, wanted)
            &&& at.len() == plan.ops.len()
            &&& forall|k: int|
                0 <= k < at.len() ==> is_needed(
                    stored,
                    canonical,
                    firs[at[k]],
                    #[trigger] plan.ops[k],
                )
        };
    if status.needs_attention {
        let k = choose|k: int| 0 <= k < plan.ops.len() && #[trigger] plan.ops[k].is_actionable();
        assert(is_needed(stored, canonical, firs[at[k]], plan.ops[k]));
        lemma_generations(stored, firs[at[k]]);
        assert(wanted(at[k]));
        assert(is_published(canonical, firs[at[k]]));
    }
    assert forall|i: int|
        0 <= i < firs.len() && is_published(canonical, #[trigger] firs[i]) && (some_old(
            stored,
            firs[i],
        ) || !some_match(stored, firs[i])) implies status.needs_attention by {
        assert(wanted(i));
        let k = choose|k: int| 0 <= k < at.len() && at[k] == i;
        assert(is_needed(stored, canonical, firs[at[k]], plan.ops[k]));
        lemma_generations(stored, firs[i]);
        assert(plan.ops[k].is_actionable());
    }
}

/// Before the profiles were looked at, nothing is said of them: only whether there is a
/// client and where, and the user has something to act on exactly when there is none.
pub proof fn law_what_is_said_at_first(platform: Platform, client_path: Option<Place>)
    ensures
        ({
            let status = Status::initial(platform, client_path);
            &&& status.client_path == client_path
            &&& status.client_installed <==> client_path is Some
            &&& status.needs_attention <==> client_path is None
            &&& status.entries.len() == 0
            &&& status.warnings.len() == 0
            &&& status.profiles_dir is None
            &&& status.backup_dir is None
        }),
{
}

} // verus!
