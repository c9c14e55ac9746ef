//! Reading the profile store: every profile at the top level of a directory.

use crate::location::{Location, Place};
use crate::plan::{Stored, StoredProfile};
use crate::profile::{Header, ProfileHeader};
use crate::text;
use crate::views::{
    lemma_filter_map_holds, lemma_filter_map_remove, lemma_filter_map_reordered,
    lemma_filter_maps_part, lemma_views_push, views,
};
use crate::warning::{Notice, Warning};
use vstd::prelude::*;
use vstd::relations::{sorted_by, total_ordering};

verus! {

/// Whether a file of this name is taken for a profile: its extension is `json`, in
/// whatever case.
pub open spec fn is_profile_name(name: Seq<char>) -> bool {
    text::smalls(text::dotted_extension(name)) == ".json"@
}

/// One entry of a directory listing.
#[derive(Debug, Clone, PartialEq, Eq)]
pub struct DirectoryEntry {
    pub name: String,
    /// Whether it is a regular file, and known to be one.
    pub is_file: bool,
}

/// What a [`DirectoryEntry`] says.
pub struct Listed {
    pub name: Seq<char>,
    pub is_file: bool,
}

impl View for DirectoryEntry {
    type V = Listed;

    open spec fn view(&self) -> Listed {
        Listed { name: self.name@, is_file: self.is_file }
    }
}

/// The names of the profiles in a listing, in the order of the listing.
pub open spec fn profile_names(listing: Seq<Listed>) -> Seq<Seq<char>> {
    listing.filter_map(
        |entry: Listed|
            if entry.is_file && is_profile_name(entry.name) {
                Some(entry.name)
            } else {
                None
            },
    )
}

/// The order of names by the code points of their characters.
pub open spec fn by_name() -> spec_fn(Seq<char>, Seq<char>) -> bool {
    |a: Seq<char>, b: Seq<char>| text::not_after(a, b)
}

/// The names of the profiles in a listing, in the order in which they are read. What cannot
/// be listed holds none.
pub open spec fn names_to_read(listing: Option<Seq<Listed>>) -> Seq<Seq<char>> {
    match listing {
        Some(entries) => profile_names(entries).sort_by(by_name()),
        None => Seq::empty(),
    }
}

/// The files of the store `directory` that are read, in order.
pub open spec fn files_to_read(directory: Place, listing: Option<Seq<Listed>>) -> Seq<Place> {
    names_to_read(listing).map_values(|name: Seq<char>| directory.join(name))
}

/// Names are totally ordered.
pub(crate) proof fn lemma_by_name_is_total()
    ensures
        total_ordering(by_name()),
{
    let leq = by_name();
    assert forall|a: Seq<char>| #[trigger] leq(a, a) by {
        text::lemma_not_after_total(a, a);
    }
    assert forall|a: Seq<char>, b: Seq<char>| #[trigger] leq(a, b) && #[trigger] leq(b, a) implies a
        == b by {
        text::lemma_not_after_antisymmetric(a, b);
    }
    assert forall|a: Seq<char>, b: Seq<char>, c: Seq<char>| #[trigger]
        leq(a, b) && #[trigger] leq(b, c) implies leq(a, c) by {
        text::lemma_not_after_transitive(a, b, c);
    }
    assert forall|a: Seq<char>, b: Seq<char>| #[trigger] leq(a, b) || #[trigger] leq(b, a) by {
        text::lemma_not_after_total(a, b);
    }
}

/// Whether a file of this name is taken for a profile.
fn names_a_profile(name: &str) -> (r: bool)
    ensures
        r == is_profile_name(name@),
{
    let (_, extension) = text::part_extension(name);
    let length: usize = extension.as_str().unicode_len();
    proof {
        reveal_strlit(".json");
        let small = text::smalls(extension@);
        assert(small.len() == 5 ==> small.subrange(0, 5) == small);
    }
    length == 5 && text::ends_in_small(extension.as_str(), ".json")
}

/// Where `name` goes in `sorted`: behind every name that does not come after it.
fn sorted_position(sorted: &Vec<String>, name: &str) -> (r: usize)
    requires
        forall|i: int, j: int|
            0 <= i <= j < sorted@.len() ==> text::not_after(
                #[trigger] sorted@[i]@,
                #[trigger] sorted@[j]@,
            ),
    ensures
        r <= sorted@.len(),
        forall|i: int| 0 <= i < r ==> text::not_after(#[trigger] sorted@[i]@, name@),
        forall|i: int| r <= i < sorted@.len() ==> text::not_after(name@, #[trigger] sorted@[i]@),
{
    let mut at: usize = sorted.len();
    while at > 0 && !text::comes_not_after(sorted[at - 1].as_str(), name)
        invariant
            at <= sorted@.len(),
            forall|i: int|
                at <= i < sorted@.len() ==> text::not_after(name@, #[trigger] sorted@[i]@),
        decreases at,
    {
        proof {
            text::lemma_not_after_total(sorted@[at - 1]@, name@);
        }
        at = at - 1;
    }
    proof {
        assert forall|i: int| 0 <= i < at implies text::not_after(
            #[trigger] sorted@[i]@,
            name@,
        ) by {
            assert(text::not_after(sorted@[i]@, sorted@[at - 1]@));
            text::lemma_not_after_transitive(sorted@[i]@, sorted@[at - 1]@, name@);
        }
    }
    at
}

/// The names of the profiles in a listing, in the order in which they are read.
fn sorted_names(listing: &Vec<DirectoryEntry>) -> (r: Vec<String>)
    ensures
        views(r@) == profile_names(views(listing@)).sort_by(by_name()),
{
    let ghost all = views(listing@);
    let ghost pick = |entry: Listed|
        if entry.is_file && is_profile_name(entry.name) {
            Some(entry.name)
        } else {
            None
        };
    let mut r: Vec<String> = Vec::new();
    let mut i: usize = 0;
    proof {
        assert(views(r@) =~= all.take(0).filter_map(pick));
    }
    while i < listing.len()
        invariant
            i <= listing@.len(),
            all == views(listing@),
            pick == (|entry: Listed|
                if entry.is_file && is_profile_name(entry.name) {
                    Some(entry.name)
                } else {
                    None
                }),
            views(r@).to_multiset() == all.take(i as int).filter_map(pick).to_multiset(),
            sorted_by(views(r@), by_name()),
        decreases listing@.len() - i,
    {
        let ghost before = views(r@);
        let ghost taken = all.take(i as int).filter_map(pick);
        proof {
            all.lemma_filter_map_take_succ(pick, i as int);
        }
        if listing[i].is_file && names_a_profile(listing[i].name.as_str()) {
            let name = listing[i].name.clone();
            let ghost said = name@;
            proof {
                assert forall|a: int, b: int| 0 <= a <= b < r@.len() implies text::not_after(
                    #[trigger] r@[a]@,
                    #[trigger] r@[b]@,
                ) by {
                    text::lemma_not_after_total(r@[a]@, r@[a]@);
                    assert(before[a] == r@[a]@ && before[b] == r@[b]@);
                    assert(a < b ==> (by_name())(before[a], before[b]));
                }
            }
            let at = sorted_position(&r, name.as_str());
            let ghost names = r@;
            r.insert(at, name);
            proof {
                let after = views(r@);
                assert(after =~= before.insert(at as int, said));
                before.to_multiset_ensures();
                taken.to_multiset_ensures();
                vstd::seq_lib::to_multiset_insert(before, at as int, said);
                assert(all.take(i + 1).filter_map(pick) =~= taken.push(said));
                vstd::seq_lib::to_multiset_build(taken, said);
                assert forall|a: int, b: int| 0 <= a < b < after.len() implies #[trigger] (
                by_name())(after[a], after[b]) by {
                    let was_a = if a < at { a } else { a - 1 };
                    let was_b = if b < at { b } else { b - 1 };
                    if a != at && b != at {
                        assert((by_name())(before[was_a], before[was_b]));
                    } else if a == at {
                        assert(after[b] == names[b - 1]@);
                    } else {
                        assert(after[a] == names[a]@);
                    }
                }
            }
        } else {
            proof {
                assert(all.take(i + 1).filter_map(pick) =~= taken);
            }
        }
        i = i + 1;
    }
    proof {
        assert(all.take(all.len() as int) == all);
        let names = profile_names(all);
        lemma_by_name_is_total();
        names.lemma_sort_by_ensures(by_name());
        vstd::seq_lib::lemma_sorted_unique(views(r@), names.sort_by(by_name()), by_name());
    }
    r
}

/// What a directory listing says; `None` when the directory cannot be listed.
pub open spec fn listed(listing: Option<Vec<DirectoryEntry>>) -> Option<Seq<Listed>> {
    match listing {
        Some(entries) => Some(views(entries@)),
        None => None,
    }
}

/// The files of the store `profiles_dir` that are to be read as profiles, in order.
///
/// Non-recursive, matching vATIS, which lists `*.json` at the top level only: the `backup/`
/// subdirectory is invisible here exactly as it is to vATIS. `listing` is what the
/// directory holds, and `None` when it cannot be listed. The order is that of the names,
/// so that a plan over the same store is always the same plan.
pub fn store_files(profiles_dir: &Location, listing: Option<Vec<DirectoryEntry>>) -> (r: Vec<
    Location,
>)
    ensures
        views(r@) == files_to_read(profiles_dir@, listed(listing)),
{
    let ghost join = |name: Seq<char>| profiles_dir@.join(name);
    let mut r: Vec<Location> = Vec::new();
    match listing {
        None => {
            proof {
                assert(views(r@) =~= Seq::empty().map_values(join));
            }
            r
        },
        Some(entries) => {
            let names = sorted_names(&entries);
            let mut i: usize = 0;
            while i < names.len()
                invariant
                    i <= names@.len(),
                    join == (|name: Seq<char>| profiles_dir@.join(name)),
                    views(r@) =~= views(names@).take(i as int).map_values(join),
                decreases names@.len() - i,
            {
                let file = profiles_dir.join(names[i].as_str());
                proof {
                    lemma_views_push(r@, file);
                    assert(views(names@).take(i + 1).map_values(join) =~= views(names@).take(
                        i as int,
                    ).map_values(join).push(file@));
                }
                r.push(file);
                i = i + 1;
            }
            proof {
                assert(views(names@).take(names@.len() as int) == views(names@));
            }
            r
        },
    }
}

/// One file of the store, after it was read.
#[derive(Debug, PartialEq, Eq)]
pub struct FileRead {
    pub path: Location,
    /// Its header, or why none could be read.
    pub header: Result<ProfileHeader, String>,
}

/// What a [`FileRead`] says.
pub struct Reading {
    pub path: Place,
    pub header: Result<Header, Seq<char>>,
}

/// What the outcome of reading a header says.
pub open spec fn outcome_of(header: Result<ProfileHeader, String>) -> Result<Header, Seq<char>> {
    match header {
        Ok(header) => Ok(header@),
        Err(reason) => Err(reason@),
    }
}

impl View for FileRead {
    type V = Reading;

    open spec fn view(&self) -> Reading {
        Reading { path: self.path@, header: outcome_of(self.header) }
    }
}

/// The profile that a file of the store holds, if it holds one.
pub open spec fn stored_profile(reading: Reading) -> Option<Stored> {
    match reading.header {
        Ok(header) => Some(Stored { path: reading.path, header }),
        Err(_) => None,
    }
}

/// What is said of a file of the store, if it cannot be read as a profile.
pub open spec fn reading_warning(reading: Reading) -> Option<Notice> {
    match reading.header {
        Ok(_) => None,
        Err(reason) => Some(Notice::Unreadable { path: reading.path, reason }),
    }
}

/// The profiles of a store whose files were read.
pub open spec fn stored_profiles(readings: Seq<Reading>) -> Seq<Stored> {
    readings.filter_map(|reading: Reading| stored_profile(reading))
}

/// What is said of the files of a store that cannot be read as profiles.
pub open spec fn store_warnings(readings: Seq<Reading>) -> Seq<Notice> {
    readings.filter_map(|reading: Reading| reading_warning(reading))
}

/// The profiles of a store whose files were read, and what is said of the others.
///
/// Unparseable files are skipped rather than failing the read: a store can contain
/// anything, and one bad document must not block the migration.
pub fn collect_store(files: Vec<FileRead>) -> (r: (Vec<StoredProfile>, Vec<Warning>))
    ensures
        views(r.0@) == stored_profiles(views(files@)),
        views(r.1@) == store_warnings(views(files@)),
{
    let ghost all = views(files@);
    let ghost profile_of = |reading: Reading| stored_profile(reading);
    let ghost warning_of = |reading: Reading| reading_warning(reading);
    let mut stored: Vec<StoredProfile> = Vec::new();
    let mut warnings: Vec<Warning> = Vec::new();
    proof {
        assert(views(stored@) =~= all.take(0).filter_map(profile_of));
        assert(views(warnings@) =~= all.take(0).filter_map(warning_of));
    }
    for file in iter: files
        invariant
            iter.seq() == files@,
            all == views(files@),
            profile_of == (|reading: Reading| stored_profile(reading)),
            warning_of == (|reading: Reading| reading_warning(reading)),
            views(stored@) == all.take(iter.index() as int).filter_map(profile_of),
            views(warnings@) == all.take(iter.index() as int).filter_map(warning_of),
    {
        proof {
            all.lemma_filter_map_take_succ(profile_of, iter.index() as int);
            all.lemma_filter_map_take_succ(warning_of, iter.index() as int);
            assert(all[iter.index() as int] == file@);
        }
        let FileRead { path, header } = file;
        match header {
            Ok(header) => {
                let profile = StoredProfile { path, header };
                proof {
                    lemma_views_push(stored@, profile);
                }
                stored.push(profile);
            },
            Err(reason) => {
                let warning = Warning::Unreadable { path, reason };
                proof {
                    lemma_views_push(warnings@, warning);
                }
                warnings.push(warning);
            },
        }
    }
    proof {
        assert(all.take(all.len() as int) == all);
    }
    (stored, warnings)
}

/// Whether `read` may give this reading.
pub open spec fn may_read<F: Fn(&Location) -> Result<ProfileHeader, String>>(
    read: F,
    reading: Reading,
) -> bool {
    exists|path: Location, header: Result<ProfileHeader, String>|
        path@ == reading.path && outcome_of(header) == reading.header && #[trigger] call_ensures(
            read,
            (&path,),
            header,
        )
}

/// Whether `readings` may be what `read` gives of `files`, one by one.
pub open spec fn may_read_all<F: Fn(&Location) -> Result<ProfileHeader, String>>(
    read: F,
    files: Seq<Place>,
    readings: Seq<Reading>,
) -> bool {
    &&& readings.map_values(|reading: Reading| reading.path) == files
    &&& forall|i: int| 0 <= i < readings.len() ==> may_read(read, #[trigger] readings[i])
}

/// Read the profile store: every top-level `*.json` whose header parses.
///
/// `listing` is what the directory holds, and `None` when it cannot be listed; `read` reads
/// one of its files, and gives its header or the reason why there is none.
pub fn read_store<F: Fn(&Location) -> Result<ProfileHeader, String>>(
    profiles_dir: &Location,
    listing: Option<Vec<DirectoryEntry>>,
    read: F,
) -> (r: (Vec<StoredProfile>, Vec<Warning>))
    requires
        forall|path: Location| #[trigger] call_requires(read, (&path,)),
    ensures
        exists|readings: Seq<Reading>|
            {
                &&& #[trigger] may_read_all(
                    read,
                    files_to_read(profiles_dir@, listed(listing)),
                    readings,
                )
                &&& views(r.0@) == stored_profiles(readings)
                &&& views(r.1@) == store_warnings(readings)
            },
{
    let paths = store_files(profiles_dir, listing);
    let ghost places = views(paths@);
    let mut files: Vec<FileRead> = Vec::new();
    let ghost path_of = |reading: Reading| reading.path;
    proof {
        assert(places.take(0) =~= views(files@).map_values(path_of));
    }
    for path in iter: paths
        invariant
            iter.seq() == paths@,
            places == views(paths@),
            path_of == (|reading: Reading| reading.path),
            forall|path: Location| #[trigger] call_requires(read, (&path,)),
            views(files@).map_values(path_of) == places.take(iter.index() as int),
            forall|i: int| 0 <= i < files@.len() ==> may_read(read, #[trigger] views(files@)[i]),
    {
        let header = read(&path);
        let file = FileRead { path, header };
        let ghost before = views(files@);
        proof {
            assert(may_read(read, file@)) by {
                assert(call_ensures(read, (&path,), header));
            }
            lemma_views_push(files@, file);
            assert(before.push(file@).map_values(path_of) =~= before.map_values(path_of).push(
                file@.path,
            ));
            assert(places.take(iter.index() + 1) =~= places.take(iter.index() as int).push(
                file@.path,
            ));
        }
        files.push(file);
        proof {
            assert forall|i: int| 0 <= i < files@.len() implies may_read(
                read,
                #[trigger] views(files@)[i],
            ) by {
                if i < before.len() {
                    assert(views(files@)[i] == before[i]);
                }
            }
        }
    }
    proof {
        assert(places.take(places.len() as int) == places);
        assert(may_read_all(read, places, views(files@)));
    }
    collect_store(files)
}

/// The order in which a directory happens to be listed does not matter.
pub proof fn law_listing_order_does_not_matter(
    directory: Place,
    one: Seq<Listed>,
    two: Seq<Listed>,
)
    requires
        one.to_multiset() == two.to_multiset(),
    ensures
        files_to_read(directory, Some(one)) == files_to_read(directory, Some(two)),
{
    let pick = |entry: Listed|
        if entry.is_file && is_profile_name(entry.name) {
            Some(entry.name)
        } else {
            None
        };
    lemma_filter_map_reordered(one, two, pick);
    lemma_by_name_is_total();
    profile_names(one).lemma_sort_by_ensures(by_name());
    profile_names(two).lemma_sort_by_ensures(by_name());
    vstd::seq_lib::lemma_sorted_unique(
        names_to_read(Some(one)),
        names_to_read(Some(two)),
        by_name(),
    );
}

/// Exactly the files at the top level of the store that are named like profiles are read:
/// nothing in the backup directory, nor anywhere else, is.
pub proof fn law_only_profiles_at_the_top_level_are_read(
    directory: Place,
    listing: Seq<Listed>,
    place: Place,
)
    ensures
        files_to_read(directory, Some(listing)).contains(place) <==> exists|i: int|
            {
                &&& 0 <= i < listing.len()
                &&& (#[trigger] listing[i]).is_file
                &&& is_profile_name(listing[i].name)
                &&& place == directory.join(listing[i].name)
            },
{
    broadcast use vstd::seq_lib::group_to_multiset_ensures;

    let pick = |entry: Listed|
        if entry.is_file && is_profile_name(entry.name) {
            Some(entry.name)
        } else {
            None
        };
    let found = profile_names(listing);
    let names = names_to_read(Some(listing));
    let files = files_to_read(directory, Some(listing));
    lemma_by_name_is_total();
    found.lemma_sort_by_ensures(by_name());
    assert forall|name: Seq<char>| found.contains(name) <==> names.contains(name) by {
        assert(found.to_multiset().count(name) == names.to_multiset().count(name));
    }
    if files.contains(place) {
        let k = choose|k: int| 0 <= k < files.len() && files[k] == place;
        assert(names.contains(names[k]));
        listing.lemma_filter_map_contains(pick, names[k]);
        let entry = choose|entry: Listed| #[trigger]
            listing.contains(entry) && pick(entry) == Some(names[k]);
        let i = choose|i: int| 0 <= i < listing.len() && listing[i] == entry;
        assert(listing[i].is_file);
    }
    assert forall|i: int|
        0 <= i < listing.len() && (#[trigger] listing[i]).is_file && is_profile_name(
            listing[i].name,
        ) && place == directory.join(listing[i].name) implies files.contains(place) by {
        lemma_filter_map_holds(listing, pick, i);
        assert(names.contains(listing[i].name));
        let k = choose|k: int| 0 <= k < names.len() && names[k] == listing[i].name;
        assert(files[k] == place);
    }
}

/// Every file that was read is either a profile or warned about.
pub proof fn law_every_file_is_accounted_for(readings: Seq<Reading>)
    ensures
        stored_profiles(readings).len() + store_warnings(readings).len() == readings.len(),
{
    lemma_filter_maps_part(
        readings,
        |reading: Reading| stored_profile(reading),
        |reading: Reading| reading_warning(reading),
    );
}

/// A file that cannot be read takes nothing away from what the others hold.
pub proof fn law_unreadable_files_block_nothing(readings: Seq<Reading>, i: int)
    requires
        0 <= i < readings.len(),
        readings[i].header is Err,
    ensures
        stored_profiles(readings) == stored_profiles(readings.remove(i)),
{
    lemma_filter_map_remove(readings, |reading: Reading| stored_profile(reading), i);
}

} // verus!
