//! What the functions of the library give back, said of their arguments and results.

use crate::apply::{apply_for, Action, ApplyError, ApplyRun, Event, VatisSummary};
use crate::archive::{
    archive_files, by_fir, extracted_files, fir_of, may_parse_all, published_profiles,
    read_profile_archive, zip_contents, ArchiveError, ArchiveFile, Parsed,
};
use crate::client::{client_source, client_source_for, launch_for, Launch};
use crate::fir::FirCode;
use crate::laws::{
    is_last_part, is_told_first, law_a_match_is_by_name, law_a_store_holds_what_its_files_hold,
    law_an_archive_is_called_zip, law_every_file_is_asked_for,
    law_exactly_the_json_files_are_read, law_files_are_read_in_the_order_of_their_names,
    law_files_are_whole_entries, law_how_archives_fail, law_profiles_are_whole_entries,
    law_the_serial_parts_the_generations, law_which_archives_are_readable,
    law_which_region_a_profile_is_of, tells_no_region,
};
use crate::location::{Location, Place};
use crate::path_laws::{
    are_denied, below, law_the_first_that_is_present_is_found, law_where_clients_are_looked_for,
    law_where_things_are_kept, was_said,
};
use crate::paths::{
    app_data_dir, app_data_dir_for, backup_dir, backup_dir_for, backup_place, client_places,
    detect_client_for, place_of, profile_path, profile_path_for, profiles_dir, profiles_dir_for,
    profiles_place, Platform,
};
use crate::plain::{are_places, comes_first, ends_alike, holds_alike, lemma_same_places};
use crate::plan::{plan, planned, CanonicalProfile, ProfileOp, StoredProfile, VatisPlan};
use crate::plan_laws::{
    is_needed, is_published, is_state, law_every_published_region_gets_what_it_needs, law_every_unpublished_region_is_warned_about,
    law_what_is_said_with_a_client, law_what_is_shown_is_what_is_stored, some_match, some_old,
};
use crate::profile::{Header, ProfileHeader};
use crate::progress::{Answer, Progress, Request, Stage};
use crate::release::{names_archive, user_agent, Release, ReleaseAsset, ReleaseError};
use crate::run_laws::{
    law_a_run_keeps_to_its_store_and_plan, law_how_a_run_begins, may_be_asked,
};
use crate::status::{
    first_step, initial_status, platform_name, platform_name_for, status_for, ProfileEntry,
    StatusStep, VatisStatus,
};
use crate::store::{
    collect_store, files_to_read, listed, may_read_all, read_store, reading_warning, store_files,
    store_warnings, stored_profile, stored_profiles, DirectoryEntry, FileRead, Reading,
};
use crate::views::{lemma_filter_maps_part, views};
use crate::warning::{Notice, Warning};
use vstd::prelude::*;

verus! {

/// A run begins with its plan's warnings and nothing counted, and first wants its store made,
/// or nothing where its plan does nothing.
pub proof fn law_apply_begins_with_the_store(
    platform: Platform,
    profiles_dir: &Location,
    canonical: &[CanonicalProfile],
    plan: &VatisPlan,
    run: ApplyRun,
    action: Action,
)
    requires
        call_ensures(apply_for, (platform, profiles_dir, canonical, plan), run),
        call_ensures(ApplyRun::action, (&run,), action),
    ensures
        run@.summary.profiles_written == 0,
        run@.summary.files_backed_up == 0,
        run@.summary.warnings == views(plan.warnings@),
        action@ == if exists|i: int|
            0 <= i < plan.ops@.len() && !(#[trigger] plan.ops@[i] is Skip) {
            Request::CreateDirectory { path: profiles_dir@ }
        } else {
            Request::Stop
        },
{
    law_how_a_run_begins(platform, profiles_dir@, views(canonical@), plan@);
    assert forall|i: int| 0 <= i < plan.ops@.len() implies (#[trigger] plan@.ops[i] is Skip
        <==> plan.ops@[i] is Skip) by {}
    if exists|i: int| 0 <= i < plan.ops@.len() && !(#[trigger] plan.ops@[i] is Skip) {
        let i = choose|i: int| 0 <= i < plan.ops@.len() && !(#[trigger] plan.ops@[i] is Skip);
        assert(!(plan@.ops[i] is Skip));
    }
}

/// Whatever it is answered, a run wants only what is to be done in the store that it was
/// started on and for the plan that it was started with: what it looks at, and what it moves
/// files to, lies directly in the directory `backup` of that store.
pub proof fn law_actions_keep_to_the_store_and_the_plan(
    platform: Platform,
    profiles_dir: &Location,
    canonical: &[CanonicalProfile],
    plan: &VatisPlan,
    start: ApplyRun,
    answers: Seq<Answer>,
    run: ApplyRun,
    action: Action,
)
    requires
        call_ensures(apply_for, (platform, profiles_dir, canonical, plan), start),
        run@ == start@.after(answers),
        call_ensures(ApplyRun::action, (&run,), action),
    ensures
        may_be_asked(profiles_dir@, views(canonical@), plan@, action@),
{
    law_a_run_keeps_to_its_store_and_plan(
        platform,
        profiles_dir@,
        views(canonical@),
        plan@,
        answers,
    );
}

/// A run that is told what came of its action stands where one answer more leads.
pub proof fn law_each_event_is_one_answer_more(
    start: Progress,
    answers: Seq<Answer>,
    run: ApplyRun,
    event: Event,
    later: ApplyRun,
)
    requires
        run@ == start.after(answers),
        call_ensures(ApplyRun::advance, (run, event), later),
    ensures
        later@ == start.after(answers.push(event@)),
{
    assert(answers.push(event@).drop_last() =~= answers);
}

/// A run has an outcome exactly when it wants nothing more: what it counted when it is finished,
/// and otherwise why it was given up.
pub proof fn law_a_run_has_an_outcome_when_it_wants_nothing(
    run: ApplyRun,
    action: Action,
    outcome: Option<Result<VatisSummary, ApplyError>>,
)
    requires
        call_ensures(ApplyRun::action, (&run,), action),
        call_ensures(ApplyRun::outcome, (run,), outcome),
    ensures
        outcome is Some <==> action is Stop,
        outcome matches Some(Ok(summary)) ==> run@.stage is Finished && summary@ == run@.summary,
        outcome matches Some(Err(error)) ==> run@.stage == (Stage::GivenUp { failure: error@ }),
{
}

/// The files had from an archive are exactly its entries whose names end in `.json`, in order,
/// each with all of its contents; and where there are none to be had, it is for the first entry
/// that cannot be opened or read.
pub proof fn law_archive_files_are_whole(
    bytes: &[u8],
    r: Result<Vec<ArchiveFile>, ArchiveError>,
)
    requires
        call_ensures(archive_files, (bytes,), r),
    ensures
        match r {
            Ok(files) => {
                &&& zip_contents(bytes@) matches Some(entries)
                &&& {
                    let wanted = |i: int|
                        entries[i] matches Some((name, Some(contents))) && ends_alike(
                            name,
                            seq!['.', 'j', 's', 'o', 'n'],
                            0,
                        );
                    exists|at: Seq<int>|
                        {
                            &&& #[trigger] are_places(entries.len(), at, wanted)
                            &&& at.len() == files@.len()
                            &&& forall|k: int|
                                0 <= k < at.len() ==> (entries[at[k]] matches Some(
                                    (name, Some(contents)),
                                ) && (#[trigger] files@[k]).bytes@ == contents && is_last_part(
                                    name,
                                    files@[k].file_name@,
                                ))
                        }
                }
            },
            Err(error) => !(zip_contents(bytes@) matches Some(entries) && forall|i: int|
                0 <= i < entries.len() ==> (#[trigger] entries[i] matches Some((name, contents))
                    && (ends_alike(name, seq!['.', 'j', 's', 'o', 'n'], 0) ==> contents is Some)))
                && (error is Opening <==> zip_contents(bytes@) is None),
        },
{
    law_which_archives_are_readable(bytes@);
    match r {
        Ok(files) => {
            let entries = zip_contents(bytes@)->0;
            let all = extracted_files(entries);
            law_files_are_whole_entries(entries);
            let wanted = |i: int|
                entries[i] matches Some((name, Some(contents))) && ends_alike(
                    name,
                    seq!['.', 'j', 's', 'o', 'n'],
                    0,
                );
            let at = choose|at: Seq<int>|
                {
                    &&& #[trigger] are_places(entries.len(), at, wanted)
                    &&& at.len() == all.len()
                    &&& forall|k: int|
                        0 <= k < at.len() ==> (entries[at[k]] matches Some((name, Some(contents)))
                            && (#[trigger] all[k]).bytes == contents && is_last_part(
                            name,
                            all[k].file_name,
                        ))
                };
            assert(views(files@) == all);
            assert forall|k: int| 0 <= k < at.len() implies (entries[at[k]] matches Some(
                (name, Some(contents)),
            ) && (#[trigger] files@[k]).bytes@ == contents && is_last_part(
                name,
                files@[k].file_name@,
            )) by {
                assert(all[k] == files@[k]@);
            }
            assert(are_places(entries.len(), at, wanted));
        },
        Err(error) => {
            law_how_archives_fail(bytes@, error);
        },
    }
}

/// Every profile had from an archive carries exactly the contents of an entry of it, and there
/// is at least one.
pub proof fn law_archive_profiles_are_whole<F: Fn(&str, &[u8]) -> Option<ProfileHeader>>(
    bytes: &[u8],
    parse: F,
    profiles: Vec<CanonicalProfile>,
    k: int,
)
    requires
        call_ensures(
            read_profile_archive::<F>,
            (bytes, parse),
            Ok::<Vec<CanonicalProfile>, ArchiveError>(profiles),
        ),
        0 <= k < profiles@.len(),
    ensures
        zip_contents(bytes@) matches Some(entries) && exists|i: int|
            {
                &&& 0 <= i < entries.len()
                &&& #[trigger] entries[i] matches Some((name, Some(contents)))
                &&& ends_alike(name, seq!['.', 'j', 's', 'o', 'n'], 0)
                &&& profiles@[k].bytes@ == contents
                &&& exists|file: &str, document: &[u8], header: ProfileHeader|
                    {
                        &&& #[trigger] call_ensures(parse, (file, document), Some(header))
                        &&& is_last_part(name, file@)
                        &&& document@ == contents
                        &&& profiles@[k].header@ == header@
                    }
            },
{
    let entries = zip_contents(bytes@)->0;
    let parsed = choose|parsed: Seq<Parsed>|
        {
            &&& #[trigger] may_parse_all(parse, extracted_files(entries), parsed)
            &&& published_profiles(parsed).len() > 0
            &&& views(profiles@) == by_fir(published_profiles(parsed))
        };
    law_profiles_are_whole_entries(parse, entries, parsed, k);
    assert(views(profiles@)[k] == profiles@[k]@);
}

/// The region of a published profile is the first whose code stands in the name of its file,
/// and only where none does, the first whose code stands in its own name.
pub proof fn law_fir_of_tells_the_first_region(
    file_name: &str,
    profile_name: &str,
    r: Option<FirCode>,
)
    requires
        call_ensures(fir_of, (file_name, profile_name), r),
    ensures
        match r {
            Some(fir) => {
                ||| is_told_first(file_name@, fir)
                ||| tells_no_region(file_name@) && is_told_first(profile_name@, fir)
            },
            None => tells_no_region(file_name@) && tells_no_region(profile_name@),
        },
{
    law_which_region_a_profile_is_of(file_name@, profile_name@);
}

/// A profile is of a region by its name alone, and superseded or current by its serial alone.
pub proof fn law_name_and_serial_decide(
    header: ProfileHeader,
    fir: FirCode,
    matches: bool,
    superseded: bool,
    current: bool,
)
    requires
        call_ensures(ProfileHeader::matches_fir, (&header, fir), matches),
        call_ensures(ProfileHeader::is_superseded, (&header, fir), superseded),
        call_ensures(ProfileHeader::is_current, (&header, fir), current),
    ensures
        matches == holds_alike(header.name@, fir.code()),
        superseded == (matches && !(header.update_serial matches Some(serial) && serial
            >= 2026090401)),
        current == (matches && (header.update_serial matches Some(serial) && serial
            >= 2026090401)),
{
    law_a_match_is_by_name(header@, fir);
    law_the_serial_parts_the_generations(header@, fir);
}

/// The files of a store that are read are exactly the regular ones listed whose names end in
/// `.json` behind at least one character, in the order of their names.
pub proof fn law_store_files_are_the_json_files(
    profiles_dir: &Location,
    entries: Vec<DirectoryEntry>,
    files: Vec<Location>,
    place: Place,
)
    requires
        call_ensures(store_files, (profiles_dir, Some(entries)), files),
    ensures
        views(files@).contains(place) <==> exists|i: int|
            {
                &&& 0 <= i < entries@.len()
                &&& (#[trigger] entries@[i]).is_file
                &&& ends_alike(entries@[i].name@, seq!['.', 'j', 's', 'o', 'n'], 1)
                &&& place == (Place {
                    base: profiles_dir@.base,
                    names: profiles_dir@.names.push(entries@[i].name@),
                })
            },
        forall|k: int, l: int|
            0 <= k <= l < files@.len() ==> comes_first(
                (#[trigger] files@[k])@.names.last(),
                (#[trigger] files@[l])@.names.last(),
            ),
{
    let listing = views(entries@);
    law_exactly_the_json_files_are_read(profiles_dir@, listing, place);
    law_files_are_read_in_the_order_of_their_names(profiles_dir@, listing);
    let all = files_to_read(profiles_dir@, Some(listing));
    assert(views(files@) == all);
    assert forall|i: int| 0 <= i < entries@.len() implies #[trigger] listing[i]
        == entries@[i]@ by {}
    assert forall|k: int| 0 <= k < files@.len() implies #[trigger] all[k] == files@[k]@ by {}
    assert forall|k: int, l: int| 0 <= k <= l < files@.len() implies comes_first(
        (#[trigger] files@[k])@.names.last(),
        (#[trigger] files@[l])@.names.last(),
    ) by {
        assert(comes_first(all[k].names.last(), all[l].names.last()));
    }
    if exists|i: int|
        {
            &&& 0 <= i < entries@.len()
            &&& (#[trigger] entries@[i]).is_file
            &&& ends_alike(entries@[i].name@, seq!['.', 'j', 's', 'o', 'n'], 1)
            &&& place == (Place {
                base: profiles_dir@.base,
                names: profiles_dir@.names.push(entries@[i].name@),
            })
        } {
        let i = choose|i: int|
            {
                &&& 0 <= i < entries@.len()
                &&& (#[trigger] entries@[i]).is_file
                &&& ends_alike(entries@[i].name@, seq!['.', 'j', 's', 'o', 'n'], 1)
                &&& place == (Place {
                    base: profiles_dir@.base,
                    names: profiles_dir@.names.push(entries@[i].name@),
                })
            };
        assert(listing[i].is_file);
    }
    if views(files@).contains(place) {
        let i = choose|i: int|
            {
                &&& 0 <= i < listing.len()
                &&& (#[trigger] listing[i]).is_file
                &&& ends_alike(listing[i].name, seq!['.', 'j', 's', 'o', 'n'], 1)
                &&& place == (Place {
                    base: profiles_dir@.base,
                    names: profiles_dir@.names.push(listing[i].name),
                })
            };
        assert(entries@[i].is_file);
    }
}

/// The profiles of a store are its files that have a header, in order, with that header; each
/// other file is warned about, with its reason.
pub proof fn law_collecting_a_store_keeps_every_file(
    files: Vec<FileRead>,
    r: (Vec<StoredProfile>, Vec<Warning>),
)
    requires
        call_ensures(collect_store, (files,), r),
    ensures
        ({
            let good = |i: int| files@[i].header is Ok;
            exists|at: Seq<int>|
                {
                    &&& #[trigger] are_places(files@.len(), at, good)
                    &&& at.len() == r.0@.len()
                    &&& forall|k: int|
                        0 <= k < at.len() ==> (#[trigger] r.0@[k]).path@ == files@[at[k]].path@
                            && r.0@[k].header@ == (files@[at[k]].header->Ok_0)@
                }
        }),
        ({
            let bad = |i: int| files@[i].header is Err;
            exists|at: Seq<int>|
                {
                    &&& #[trigger] are_places(files@.len(), at, bad)
                    &&& at.len() == r.1@.len()
                    &&& forall|k: int|
                        0 <= k < at.len() ==> (#[trigger] r.1@[k])@ == (Notice::Unreadable {
                            path: files@[at[k]].path@,
                            reason: (files@[at[k]].header->Err_0)@,
                        })
                }
        }),
{
    let readings = views(files@);
    law_a_store_holds_what_its_files_hold(readings);
    let profiles = stored_profiles(readings);
    let warnings = store_warnings(readings);
    let good = |i: int| files@[i].header is Ok;
    let well = |i: int| readings[i].header is Ok;
    let one = choose|at: Seq<int>|
        {
            &&& #[trigger] are_places(readings.len(), at, well)
            &&& at.len() == profiles.len()
            &&& forall|k: int|
                0 <= k < at.len() ==> {
                    &&& (#[trigger] profiles[k]).path == readings[at[k]].path
                    &&& readings[at[k]].header == Ok::<Header, Seq<char>>(
                        profiles[k].header,
                    )
                }
        };
    lemma_same_places(readings.len(), one, well, good);
    assert forall|k: int| 0 <= k < one.len() implies (#[trigger] r.0@[k]).path@
        == files@[one[k]].path@ && r.0@[k].header@ == (files@[one[k]].header->Ok_0)@ by {
        assert(views(r.0@)[k] == profiles[k]);
        assert(readings[one[k]] == files@[one[k]]@);
        assert(well(one[k]));
    }
    assert(are_places(files@.len(), one, good));
    let bad = |i: int| files@[i].header is Err;
    let badly = |i: int| readings[i].header is Err;
    let two = choose|at: Seq<int>|
        {
            &&& #[trigger] are_places(readings.len(), at, badly)
            &&& at.len() == warnings.len()
            &&& forall|k: int|
                0 <= k < at.len() ==> #[trigger] warnings[k] == (Notice::Unreadable {
                    path: readings[at[k]].path,
                    reason: readings[at[k]].header->Err_0,
                })
        };
    lemma_same_places(readings.len(), two, badly, bad);
    assert forall|k: int| 0 <= k < two.len() implies (#[trigger] r.1@[k])@ == (
    Notice::Unreadable {
        path: files@[two[k]].path@,
        reason: (files@[two[k]].header->Err_0)@,
    }) by {
        assert(views(r.1@)[k] == warnings[k]);
        assert(readings[two[k]] == files@[two[k]]@);
        assert(badly(two[k]));
    }
    assert(are_places(files@.len(), two, bad));
}

/// Every profile read from a store is that of one of the files to be read in it, with the
/// header that was read for that file.
pub proof fn law_a_stored_profile_was_read<F: Fn(&Location) -> Result<ProfileHeader, String>>(
    profiles_dir: &Location,
    listing: Option<Vec<DirectoryEntry>>,
    read: F,
    r: (Vec<StoredProfile>, Vec<Warning>),
    k: int,
)
    requires
        call_ensures(read_store::<F>, (profiles_dir, listing, read), r),
        0 <= k < r.0@.len(),
    ensures
        exists|path: Location, header: ProfileHeader|
            {
                &&& #[trigger] call_ensures(read, (&path,), Ok::<ProfileHeader, String>(header))
                &&& path@ == r.0@[k].path@
                &&& header@ == r.0@[k].header@
                &&& files_to_read(profiles_dir@, listed(listing)).contains(path@)
            },
        r.0@.len() + r.1@.len() == files_to_read(profiles_dir@, listed(listing)).len(),
{
    let files = files_to_read(profiles_dir@, listed(listing));
    let readings = choose|readings: Seq<Reading>|
        {
            &&& #[trigger] may_read_all(read, files, readings)
            &&& views(r.0@) == stored_profiles(readings)
            &&& views(r.1@) == store_warnings(readings)
        };
    let profiles = stored_profiles(readings);
    law_a_store_holds_what_its_files_hold(readings);
    let well = |i: int| readings[i].header is Ok;
    let at = choose|at: Seq<int>|
        {
            &&& #[trigger] are_places(readings.len(), at, well)
            &&& at.len() == profiles.len()
            &&& forall|k: int|
                0 <= k < at.len() ==> {
                    &&& (#[trigger] profiles[k]).path == readings[at[k]].path
                    &&& readings[at[k]].header == Ok::<Header, Seq<char>>(
                        profiles[k].header,
                    )
                }
        };
    let i = at[k];
    assert(views(r.0@)[k] == r.0@[k]@);
    assert(profiles[k].path == readings[i].path);
    assert(readings.map_values(|reading: Reading| reading.path).len() == readings.len());
    law_every_file_is_asked_for(read, files, readings, i);
    let (path, header) = choose|path: Location, header: Result<ProfileHeader, String>|
        {
            &&& #[trigger] call_ensures(read, (&path,), header)
            &&& path@ == files[i]
            &&& match header {
                Ok(header) => readings[i].header == Ok::<Header, Seq<char>>(
                    header@,
                ),
                Err(reason) => readings[i].header == Err::<Header, Seq<char>>(
                    reason@,
                ),
            }
        };
    assert(header is Ok);
    assert(call_ensures(read, (&path,), Ok::<ProfileHeader, String>(header->Ok_0)));
    assert(files.contains(files[i]));
    lemma_filter_maps_part(
        readings,
        |reading: Reading| stored_profile(reading),
        |reading: Reading| reading_warning(reading),
    );
}

/// A plan gives each region asked for that is published what it needs, in order, and warns of
/// each that is not.
pub proof fn law_plan_gives_what_is_needed(
    stored: &[StoredProfile],
    canonical: &[CanonicalProfile],
    firs: &[FirCode],
    r: VatisPlan,
)
    requires
        call_ensures(plan, (stored, canonical, firs), r),
    ensures
        ({
            let wanted = |i: int| is_published(views(canonical@), firs@[i]);
            exists|at: Seq<int>|
                {
                    &&& #[trigger] are_places(firs@.len(), at, wanted)
                    &&& at.len() == r.ops@.len()
                    &&& forall|k: int|
                        0 <= k < at.len() ==> is_needed(
                            views(stored@),
                            views(canonical@),
                            firs@[at[k]],
                            (#[trigger] r.ops@[k])@,
                        )
                }
        }),
        ({
            let wanted = |i: int| !is_published(views(canonical@), firs@[i]);
            exists|at: Seq<int>|
                {
                    &&& #[trigger] are_places(firs@.len(), at, wanted)
                    &&& at.len() == r.warnings@.len()
                    &&& forall|k: int|
                        0 <= k < at.len() ==> (#[trigger] r.warnings@[k])@ == (
                        Notice::Unpublished { fir: firs@[at[k]] })
                }
        }),
{
    let store = views(stored@);
    let release = views(canonical@);
    let ops = planned(store, release, firs@).ops;
    let warnings = planned(store, release, firs@).warnings;
    law_every_published_region_gets_what_it_needs(store, release, firs@);
    law_every_unpublished_region_is_warned_about(store, release, firs@);
    let yes = |i: int| is_published(release, firs@[i]);
    let one = choose|at: Seq<int>|
        {
            &&& #[trigger] are_places(firs@.len(), at, yes)
            &&& at.len() == ops.len()
            &&& forall|k: int|
                0 <= k < at.len() ==> is_needed(store, release, firs@[at[k]], #[trigger] ops[k])
        };
    assert forall|k: int| 0 <= k < one.len() implies is_needed(
        store,
        release,
        firs@[one[k]],
        (#[trigger] r.ops@[k])@,
    ) by {
        assert(views(r.ops@)[k] == ops[k]);
    }
    assert(are_places(firs@.len(), one, yes));
    let no = |i: int| !is_published(release, firs@[i]);
    let two = choose|at: Seq<int>|
        {
            &&& #[trigger] are_places(firs@.len(), at, no)
            &&& at.len() == warnings.len()
            &&& forall|k: int|
                0 <= k < at.len() ==> #[trigger] warnings[k] == (Notice::Unpublished {
                    fir: firs@[at[k]],
                })
        };
    assert forall|k: int| 0 <= k < two.len() implies (#[trigger] r.warnings@[k])@ == (
    Notice::Unpublished { fir: firs@[two[k]] }) by {
        assert(views(r.warnings@)[k] == warnings[k]);
    }
    assert(are_places(firs@.len(), two, no));
}

/// A status shows one entry for each region asked for that is published, in order: missing
/// exactly when no stored profile is of it, superseded exactly when some are from before the
/// reissue, current exactly when some are from the reissue on and none from before; and the
/// user has something to act on exactly when one is missing or superseded.
pub proof fn law_status_shows_what_is_stored(
    platform: Platform,
    home: &Location,
    client_path: Location,
    stored: &[StoredProfile],
    store_warnings: Vec<Warning>,
    canonical: &[CanonicalProfile],
    firs: &[FirCode],
    r: VatisStatus,
)
    requires
        call_ensures(
            status_for,
            (platform, home, client_path, stored, store_warnings, canonical, firs),
            r,
        ),
    ensures
        ({
            let wanted = |i: int| is_published(views(canonical@), firs@[i]);
            exists|at: Seq<int>|
                {
                    &&& #[trigger] are_places(firs@.len(), at, wanted)
                    &&& at.len() == r.entries@.len()
                    &&& forall|k: int|
                        0 <= k < at.len() ==> (#[trigger] r.entries@[k]).fir == firs@[at[k]]
                            && is_state(views(stored@), firs@[at[k]], r.entries@[k].state)
                }
        }),
        r.client_installed,
        r.client_path matches Some(path) && path@ == client_path@,
        r.needs_attention <==> exists|i: int|
            {
                &&& 0 <= i < firs@.len()
                &&& is_published(views(canonical@), #[trigger] firs@[i])
                &&& some_old(views(stored@), firs@[i]) || !some_match(views(stored@), firs@[i])
            },
        r.warnings@.len() >= store_warnings@.len(),
        forall|k: int|
            0 <= k < store_warnings@.len() ==> (#[trigger] r.warnings@[k])@ == store_warnings@[k]@,
{
    law_what_is_shown_is_what_is_stored(
        platform,
        home@,
        client_path@,
        views(stored@),
        views(store_warnings@),
        views(canonical@),
        firs@,
    );
    law_what_is_said_with_a_client(
        platform,
        home@,
        client_path@,
        views(stored@),
        views(store_warnings@),
        views(canonical@),
        firs@,
    );
    assert(r@.entries == r.entries@);
    assert(r@.warnings == views(r.warnings@));
    assert(r@.client_path == Some(client_path@));
    assert forall|k: int| 0 <= k < store_warnings@.len() implies (#[trigger] r.warnings@[k])@
        == store_warnings@[k]@ by {
        assert(r@.warnings[k] == views(store_warnings@)[k]);
    }
}

/// An operation is shown for its own region: superseded whenever it is there to move files.
pub proof fn law_entry_is_by_what_is_done(op: ProfileOp, r: ProfileEntry)
    requires
        call_ensures(ProfileOp::entry, (&op,), r),
    ensures
        match op {
            ProfileOp::BackupThenReplace { fir, superseded, file_name } => r.fir == fir && r.state
                is Superseded,
            ProfileOp::BackUp { fir, superseded } => r.fir == fir && r.state is Superseded,
            ProfileOp::Write { fir, file_name } => r.fir == fir && r.state is Missing,
            ProfileOp::Skip { fir } => r.fir == fir && r.state is Current,
        },
{
}

/// Without a client that is all that is shown, and nothing is fetched; with one, that client
/// is gone on with.
pub proof fn law_first_step_is_by_the_client(
    platform: Platform,
    client_path: Option<Location>,
    r: StatusStep,
    status: VatisStatus,
)
    requires
        call_ensures(first_step, (platform, client_path), r),
        call_ensures(initial_status, (platform, client_path), status),
    ensures
        match client_path {
            None => r matches StatusStep::Show { status: shown } && shown.needs_attention
                && !shown.client_installed && shown.entries@.len() == 0,
            Some(path) => r matches StatusStep::Fetch { client_path: found } && found@ == path@,
        },
        status.client_installed <==> client_path is Some,
        status.needs_attention <==> client_path is None,
        status.entries@.len() == 0,
        status.warnings@.len() == 0,
        client_path matches Some(path) ==> (status.client_path matches Some(shown) && shown@
            == path@),
{
    assert(status@.entries == status.entries@);
    assert(status@.warnings == views(status.warnings@));
    if client_path is None {
        assert(r->status@.entries == r->status.entries@);
        assert(r->status@.needs_attention == r->status.needs_attention);
    }
}

/// On an explicit platform everything is kept where vATIS keeps it there.
pub proof fn law_where_a_platform_keeps_things(
    platform: Platform,
    home: &Location,
    id: &str,
    data: Location,
    profiles: Location,
    backup: Location,
    profile: Location,
)
    requires
        call_ensures(app_data_dir_for, (platform, home), data),
        call_ensures(profiles_dir_for, (platform, home), profiles),
        call_ensures(backup_dir_for, (platform, home), backup),
        call_ensures(profile_path_for, (platform, home, id), profile),
    ensures
        data@ == below(
            home@,
            if platform is Windows {
                seq!["AppData"@, "Local"@, "org.vatsim.vatis"@]
            } else {
                seq!["Library"@, "Application Support"@, "org.vatsim.vatis"@]
            },
        ),
        profiles@ == below(data@, seq!["Profiles"@]),
        backup@ == below(profiles@, seq!["backup"@]),
        profile@ == below(profiles@, seq![id@ + ".json"@]),
{
    law_where_things_are_kept(home@, id@);
    assert(below(data@, seq!["Profiles"@]).names =~= profiles@.names);
    assert(below(profiles@, seq!["backup"@]).names =~= backup@.names);
    assert(below(profiles@, seq![id@ + ".json"@]).names =~= profile@.names);
}

/// The names below the home of a user where a platform keeps the data of vATIS.
pub open spec fn data_names(platform: Platform) -> Seq<Seq<char>> {
    if platform is Windows {
        seq!["AppData"@, "Local"@, "org.vatsim.vatis"@]
    } else {
        seq!["Library"@, "Application Support"@, "org.vatsim.vatis"@]
    }
}

/// On a host everything is kept where vATIS keeps it on the platform that the separator of the
/// machine tells: that of Windows for a backslash, and that of macOS for anything else.
pub proof fn law_where_a_host_keeps_things(
    home: &Location,
    id: &str,
    data: Location,
    profiles: Location,
    backup: Location,
    profile: Location,
)
    requires
        call_ensures(app_data_dir, (home,), data),
        call_ensures(profiles_dir, (home,), profiles),
        call_ensures(backup_dir, (home,), backup),
        call_ensures(profile_path, (home, id), profile),
    ensures
        is_kept_by_host(home@, Seq::empty(), data@),
        is_kept_by_host(home@, seq!["Profiles"@], profiles@),
        is_kept_by_host(home@, seq!["Profiles"@, "backup"@], backup@),
        is_kept_by_host(home@, seq!["Profiles"@, id@ + ".json"@], profile@),
{
    law_where_things_are_kept(home@, id@);
    lemma_names_kept(seq!["Profiles"@]);
    lemma_names_kept(seq!["Profiles"@, "backup"@]);
    lemma_names_kept(seq!["Profiles"@, id@ + ".json"@]);
    assert(data_names(Platform::Windows) + Seq::empty() =~= data_names(Platform::Windows));
    assert(data_names(Platform::MacOs) + Seq::empty() =~= data_names(Platform::MacOs));
    let names = seq!["Profiles"@];
    let one = choose|platform: Platform|
        platform.is_host() && profiles@ == #[trigger] profiles_place(platform, home@);
    assert(one.is_host() && profiles@ == below(home@, data_names(one) + names));
    let two = choose|platform: Platform|
        platform.is_host() && backup@ == #[trigger] backup_place(platform, home@);
    assert(two.is_host() && backup@ == below(
        home@,
        data_names(two) + seq!["Profiles"@, "backup"@],
    ));
    lemma_kept_by_host(home@, Seq::empty(), data@);
    lemma_kept_by_host(home@, seq!["Profiles"@], profiles@);
    lemma_kept_by_host(home@, seq!["Profiles"@, "backup"@], backup@);
    lemma_kept_by_host(home@, seq!["Profiles"@, id@ + ".json"@], profile@);
}

/// One or two names behind those of the data of vATIS.
proof fn lemma_names_kept(names: Seq<Seq<char>>)
    ensures
        names.len() == 1 ==> data_names(Platform::Windows) + names == seq![
            "AppData"@,
            "Local"@,
            "org.vatsim.vatis"@,
            names[0],
        ] && data_names(Platform::MacOs) + names == seq![
            "Library"@,
            "Application Support"@,
            "org.vatsim.vatis"@,
            names[0],
        ],
        names.len() == 2 ==> data_names(Platform::Windows) + names == seq![
            "AppData"@,
            "Local"@,
            "org.vatsim.vatis"@,
            names[0],
            names[1],
        ] && data_names(Platform::MacOs) + names == seq![
            "Library"@,
            "Application Support"@,
            "org.vatsim.vatis"@,
            names[0],
            names[1],
        ],
{
}

/// Whether `place` is where `names` lead to from where the platform that a separator of this
/// machine tells keeps the data of vATIS.
pub open spec fn is_kept_by_host(home: Place, names: Seq<Seq<char>>, place: Place) -> bool {
    exists|separator: char| #[trigger]
        Platform::is_machine_separator(separator) && place == below(
            home,
            data_names(
                if separator == '\\' {
                    Platform::Windows
                } else {
                    Platform::MacOs
                },
            ) + names,
        )
}

/// What is kept where a platform of this machine keeps it is kept so by the host.
proof fn lemma_kept_by_host(home: Place, names: Seq<Seq<char>>, place: Place)
    requires
        exists|platform: Platform| #[trigger]
            platform.is_host() && place == below(home, data_names(platform) + names),
    ensures
        is_kept_by_host(home, names, place),
{
    let platform = choose|platform: Platform| #[trigger]
        platform.is_host() && place == below(home, data_names(platform) + names);
    let separator = choose|separator: char| #[trigger]
        Platform::is_machine_separator(separator) && platform == Platform::parting_paths_with(
            separator,
        );
    assert(Platform::is_machine_separator(separator));
}

/// Where the installers of a platform put the client, most likely first.
pub open spec fn places_of_client(platform: Platform, home: Place) -> Seq<Place> {
    if platform is Windows {
        seq![below(home, data_names(platform) + seq!["current"@, "vATIS.exe"@])]
    } else {
        seq![
            Place { base: "/Applications"@, names: seq!["vATIS.app"@] },
            below(home, seq!["Applications"@, "vATIS.app"@]),
        ]
    }
}

/// The client found is the first place, of those where its installer puts it, at which
/// something is said to exist.
pub proof fn law_detect_client_finds_the_first<F: Fn(&Location) -> bool>(
    platform: Platform,
    home: &Location,
    present: F,
    r: Option<Location>,
)
    requires
        call_ensures(detect_client_for::<F>, (platform, home, present), r),
    ensures
        exists|i: int|
            {
                &&& 0 <= i <= places_of_client(platform, home@).len()
                &&& #[trigger] are_denied(present, places_of_client(platform, home@), i)
                &&& match r {
                    Some(found) => i < places_of_client(platform, home@).len()
                        && places_of_client(platform, home@)[i] == found@ && was_said(
                        present,
                        found@,
                        true,
                    ),
                    None => i == places_of_client(platform, home@).len(),
                }
            },
{
    law_where_clients_are_looked_for(home@);
    lemma_names_kept(seq!["current"@, "vATIS.exe"@]);
    assert(client_places(platform, home@) == places_of_client(platform, home@));
    law_the_first_that_is_present_is_found(
        present,
        client_places(platform, home@),
        place_of(r),
    );
}

/// A backslash tells Windows, and anything else macOS.
pub proof fn law_of_separator_tells_by_the_backslash(separator: char, r: Platform)
    requires
        call_ensures(Platform::of_separator, (separator,), r),
    ensures
        r is Windows <==> separator == '\\',
{
}

/// What a platform is called, where its client comes from and how its installer is handed on.
pub proof fn law_what_belongs_to_a_platform(
    platform: Platform,
    name: &'static str,
    source: (&'static str, &'static str),
    launch: Launch,
)
    requires
        call_ensures(platform_name_for, (platform,), name),
        call_ensures(client_source_for, (platform,), source),
        call_ensures(launch_for, (platform,), launch),
    ensures
        match platform {
            Platform::Windows => {
                &&& name@ == "windows"@
                &&& source.0@ == "https://hub.vatis.app/download/windows"@
                &&& source.1@ == "vATIS-Setup.exe"@
                &&& launch is Run
            },
            Platform::MacOs => {
                &&& name@ == "macos"@
                &&& source.0@ == "https://hub.vatis.app/download/macos"@
                &&& source.1@ == "vATIS.dmg"@
                &&& launch is Open
            },
        },
{
}

/// What the platform of a host is called, and where its client comes from, goes by a separator
/// of the machine.
pub proof fn law_what_belongs_to_a_host(
    name: &'static str,
    source: (&'static str, &'static str),
)
    requires
        call_ensures(platform_name, (), name),
        call_ensures(client_source, (), source),
    ensures
        exists|separator: char| #[trigger]
            Platform::is_machine_separator(separator) && name@ == if separator == '\\' {
                "windows"@
            } else {
                "macos"@
            },
        exists|separator: char| #[trigger]
            Platform::is_machine_separator(separator) && source.1@ == if separator == '\\' {
                "vATIS-Setup.exe"@
            } else {
                "vATIS.dmg"@
            },
{
}

/// The archive of a release is its first file whose name ends in `.zip`, in whatever case.
pub proof fn law_the_archive_is_the_first_zip(release: Release, asset: &ReleaseAsset)
    requires
        call_ensures(Release::archive, (&release,), Ok::<&ReleaseAsset, ReleaseError>(asset)),
    ensures
        exists|i: int|
            {
                &&& 0 <= i < release.assets@.len()
                &&& #[trigger] release.assets@[i] == *asset
                &&& ends_alike(asset.name@, seq!['.', 'z', 'i', 'p'], 0)
                &&& forall|j: int|
                    0 <= j < i ==> !ends_alike(
                        (#[trigger] release.assets@[j]).name@,
                        seq!['.', 'z', 'i', 'p'],
                        0,
                    )
            },
{
    let i = choose|i: int|
        {
            &&& 0 <= i < release.assets@.len()
            &&& #[trigger] release.assets@[i] == *asset
            &&& names_archive(asset@.name)
            &&& forall|j: int|
                0 <= j < i ==> !names_archive((#[trigger] release.assets@[j])@.name)
        };
    law_an_archive_is_called_zip(asset.name@);
    assert forall|j: int| 0 <= j < i implies !ends_alike(
        (#[trigger] release.assets@[j]).name@,
        seq!['.', 'z', 'i', 'p'],
        0,
    ) by {
        assert(!names_archive(release.assets@[j]@.name));
        law_an_archive_is_called_zip(release.assets@[j].name@);
    }
    assert(release.assets@[i] == *asset);
}

/// Requests introduce themselves by the name of the installer and its whole version, and a
/// release without an archive is told of as such.
pub proof fn law_what_is_said_to_and_of_the_publisher(
    version: &str,
    agent: String,
    error: ReleaseError,
    message: &'static str,
)
    requires
        call_ensures(user_agent, (version,), agent),
        call_ensures(ReleaseError::message, (&error,), message),
    ensures
        agent@ == "vaccfr-controller-pack-installer/"@ + version@,
        message@ == "the latest vatis-profiles release has no .zip asset"@,
{
}

/// A location is made of the whole of its path, and what is joined to it comes whole behind all
/// that is there.
pub proof fn law_locations_keep_what_they_are_made_of(
    path: &str,
    name: &str,
    location: Location,
    made: Location,
    inner: Location,
)
    requires
        call_ensures(Location::new, (path,), made),
        call_ensures(Location::join, (&location, name), inner),
    ensures
        made@.base == path@,
        made@.names.len() == 0,
        inner@.base == location@.base,
        inner@.names == location@.names + seq![name@],
{
    assert(location@.names.push(name@) =~= location@.names + seq![name@]);
}

/// A file is written under the whole of its id, followed by `.json`.
pub proof fn law_profiles_are_filed_under_their_ids(profile: CanonicalProfile, r: String)
    requires
        call_ensures(CanonicalProfile::file_name, (&profile,), r),
    ensures
        r@ == profile.header.id@ + ".json"@,
{
}

/// The serial that counts is the one that a profile has, whatever it is, and zero where it has
/// none.
pub proof fn law_the_serial_is_the_one_there_is(header: ProfileHeader, r: u64)
    requires
        call_ensures(ProfileHeader::serial, (&header,), r),
    ensures
        match header.update_serial {
            Some(serial) => r == serial,
            None => r == 0,
        },
{
}

/// An operation is for its own region, and does something unless it is there to skip it.
pub proof fn law_operations_are_for_their_regions(op: ProfileOp, fir: FirCode, acts: bool)
    requires
        call_ensures(ProfileOp::fir, (&op,), fir),
        call_ensures(ProfileOp::is_actionable, (&op,), acts),
    ensures
        match op {
            ProfileOp::BackupThenReplace { fir: of, superseded, file_name } => fir == of && acts,
            ProfileOp::BackUp { fir: of, superseded } => fir == of && acts,
            ProfileOp::Write { fir: of, file_name } => fir == of && acts,
            ProfileOp::Skip { fir: of } => fir == of && !acts,
        },
{
}

/// A plan has work exactly when some operation of it, however many there are, does something.
pub proof fn law_a_plan_works_by_its_operations(plan: VatisPlan, r: bool)
    requires
        call_ensures(VatisPlan::has_work, (&plan,), r),
    ensures
        r <==> exists|i: int| 0 <= i < plan.ops@.len() && !(#[trigger] plan.ops@[i] is Skip),
{
    if plan@.has_work() {
        let i = choose|i: int|
            0 <= i < plan@.ops.len() && #[trigger] plan@.ops[i].is_actionable();
        assert(plan@.ops[i] == plan.ops@[i]@);
        assert(!(plan.ops@[i] is Skip));
    }
    assert forall|i: int| 0 <= i < plan.ops@.len() && !(#[trigger] plan.ops@[i] is Skip) implies
        plan@.has_work() by {
        assert(plan@.ops[i] == plan.ops@[i]@);
        assert(plan@.ops[i].is_actionable());
    }
}

} // verus!
