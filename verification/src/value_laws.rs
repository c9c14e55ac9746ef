//! What values say: all that they hold, and nothing else.

use crate::apply::{Action, ApplyError, Event, VatisSummary};
use crate::archive::{ArchiveError, ArchiveFile, ParsedFile};
use crate::location::{Location, Place};
use crate::paths::place_of;
use crate::plan::{CanonicalProfile, Op, ProfileOp, StoredProfile, VatisPlan};
use crate::profile::ProfileHeader;
use crate::progress::{Answer, Failure, Request};
use crate::release::ReleaseAsset;
use crate::status::VatisStatus;
use crate::store::{listed, DirectoryEntry, FileRead};
use crate::views::views;
use crate::warning::{BackupFault, Fault, Fragment, Notice, Piece, Warning};
use vstd::prelude::*;

verus! {

/// What the elements of a sequence say is said element by element.
pub proof fn law_views_are_element_by_element<T: View>(s: Seq<T>)
    ensures
        views(s).len() == s.len(),
        forall|i: int| 0 <= i < s.len() ==> #[trigger] views(s)[i] == s[i]@,
{
}

/// A location says its path to start at, and every text joined to it.
pub proof fn law_what_a_location_says(location: Location)
    ensures
        location@.base == location.base@,
        location@.names.len() == location.names@.len(),
        forall|i: int|
            0 <= i < location.names@.len() ==> #[trigger] location@.names[i] == location.names@[i]@,
{
}

/// A header says each of its fields.
pub proof fn law_what_a_header_says(header: ProfileHeader)
    ensures
        header@.id == header.id@,
        header@.name == header.name@,
        header@.update_url is Some <==> header.update_url is Some,
        header.update_url matches Some(url) ==> header@.update_url == Some(url@),
        header@.update_serial == header.update_serial,
{
}

/// What profiles say, stored, published or found in an archive.
pub proof fn law_what_profiles_say(
    stored: StoredProfile,
    published: CanonicalProfile,
    file: ArchiveFile,
    parsed: ParsedFile,
)
    ensures
        stored@.path == stored.path@,
        stored@.header == stored.header@,
        published@.fir == published.fir,
        published@.header == published.header@,
        published@.bytes == published.bytes@,
        file@.file_name == file.file_name@,
        file@.bytes == file.bytes@,
        parsed@.file_name == parsed.file_name@,
        parsed@.bytes == parsed.bytes@,
        match parsed.header {
            Some(header) => parsed@.header == Some(header@),
            None => parsed@.header is None,
        },
{
}

/// What is found in a directory, in a file of it or in a release says each of its fields.
pub proof fn law_what_is_found_says(entry: DirectoryEntry, read: FileRead, asset: ReleaseAsset)
    ensures
        entry@.name == entry.name@,
        entry@.is_file == entry.is_file,
        read@.path == read.path@,
        match read.header {
            Ok(header) => read@.header is Ok && read@.header->Ok_0 == header@,
            Err(reason) => read@.header is Err && read@.header->Err_0 == reason@,
        },
        asset@.name == asset.name@,
        asset@.browser_download_url == asset.browser_download_url@,
{
}

/// An operation says its region, all of its files and its name; a plan all of its operations
/// and warnings.
pub proof fn law_what_a_plan_says(op: ProfileOp, plan: VatisPlan)
    ensures
        op@ == match op {
            ProfileOp::BackupThenReplace { fir, superseded, file_name } => Op::BackupThenReplace {
                fir,
                superseded: Seq::new(superseded@.len(), |i: int| superseded@[i]@),
                file_name: file_name@,
            },
            ProfileOp::BackUp { fir, superseded } => Op::BackUp {
                fir,
                superseded: Seq::new(superseded@.len(), |i: int| superseded@[i]@),
            },
            ProfileOp::Write { fir, file_name } => Op::Write { fir, file_name: file_name@ },
            ProfileOp::Skip { fir } => Op::Skip { fir },
        },
        plan@.ops == Seq::new(plan.ops@.len(), |i: int| plan.ops@[i]@),
        plan@.warnings == Seq::new(plan.warnings@.len(), |i: int| plan.warnings@[i]@),
{
    match op {
        ProfileOp::BackupThenReplace { fir, superseded, file_name } => {
            assert(views(superseded@) =~= Seq::new(superseded@.len(), |i: int| superseded@[i]@));
        },
        ProfileOp::BackUp { fir, superseded } => {
            assert(views(superseded@) =~= Seq::new(superseded@.len(), |i: int| superseded@[i]@));
        },
        _ => {},
    }
}

/// What a run wants, and what it is told, is said in full.
pub proof fn law_what_a_run_says(action: Action, event: Event, error: ApplyError)
    ensures
        action@ == match action {
            Action::CreateDirectory { path } => Request::CreateDirectory { path: path@ },
            Action::Probe { path } => Request::Probe { path: path@ },
            Action::Move { from, to } => Request::Move { from: from@, to: to@ },
            Action::Write { destination, profile } => Request::Write {
                destination: destination@,
                profile: profile as int,
            },
            Action::Stop => Request::Stop,
        },
        event@ == match event {
            Event::Done => Answer::Done,
            Event::Failed { reason } => Answer::Failed { reason: reason@ },
            Event::Present => Answer::Present,
            Event::Absent => Answer::Absent,
        },
        error@ == match error {
            ApplyError::CreatingStore { path, reason } => Failure::CreatingStore {
                path: path@,
                reason: reason@,
            },
            ApplyError::Writing { path, reason } => Failure::Writing {
                path: path@,
                reason: reason@,
            },
        },
{
}

/// A warning says its region, its path and its reason; so does each part of a message.
pub proof fn law_what_a_warning_says(warning: Warning, fault: BackupFault, fragment: Fragment)
    ensures
        warning@ == match warning {
            Warning::Unpublished { fir } => Notice::Unpublished { fir },
            Warning::Unreadable { path, reason } => Notice::Unreadable {
                path: path@,
                reason: reason@,
            },
            Warning::NotDownloaded { fir } => Notice::NotDownloaded { fir },
            Warning::NotBackedUp { path, fault } => Notice::NotBackedUp {
                path: path@,
                fault: fault@,
            },
        },
        fault@ == match fault {
            BackupFault::CreatingDirectory { directory } => Fault::CreatingDirectory {
                directory: directory@,
            },
            BackupFault::NoFileName => Fault::NoFileName,
            BackupFault::Moving { reason } => Fault::Moving { reason: reason@ },
        },
        fragment@ == match fragment {
            Fragment::Text(text) => Piece::Text(text@),
            Fragment::Path(path) => Piece::Path(path@),
        },
{
}

/// What is counted and shown says each of its fields.
pub proof fn law_what_is_shown_says(summary: VatisSummary, status: VatisStatus)
    ensures
        summary@.profiles_written == summary.profiles_written,
        summary@.files_backed_up == summary.files_backed_up,
        summary@.warnings == Seq::new(summary.warnings@.len(), |i: int| summary.warnings@[i]@),
        status@.client_installed == status.client_installed,
        match status.client_path {
            Some(path) => status@.client_path == Some(path@),
            None => status@.client_path is None,
        },
        status@.platform == status.platform@,
        match status.profiles_dir {
            Some(path) => status@.profiles_dir == Some(path@),
            None => status@.profiles_dir is None,
        },
        match status.backup_dir {
            Some(path) => status@.backup_dir == Some(path@),
            None => status@.backup_dir is None,
        },
        status@.entries == status.entries@,
        status@.needs_attention == status.needs_attention,
        status@.warnings == Seq::new(status.warnings@.len(), |i: int| status.warnings@[i]@),
{
}

/// Every message tells what it is about in full: the code of the region, or the path and the
/// reason, behind the words that belong to it.
pub proof fn law_messages_tell_all(notice: Notice, fault: Fault, failure: Failure)
    ensures
        match notice {
            Notice::Unpublished { fir } => {
                &&& notice.message().len() == 3
                &&& notice.message()[0] == Piece::Text("no "@)
                &&& notice.message()[1] == Piece::Text(fir.code())
                &&& notice.message()[2] == Piece::Text(
                    " profile in the published release; skipped"@,
                )
            },
            Notice::Unreadable { path, reason } => {
                &&& notice.message().len() == 4
                &&& notice.message()[0] == Piece::Text("ignored unreadable profile "@)
                &&& notice.message()[1] == Piece::Path(path)
                &&& notice.message()[2] == Piece::Text(": "@)
                &&& notice.message()[3] == Piece::Text(reason)
            },
            Notice::NotDownloaded { fir } => {
                &&& notice.message().len() == 3
                &&& notice.message()[0] == Piece::Text("no downloaded "@)
                &&& notice.message()[1] == Piece::Text(fir.code())
                &&& notice.message()[2] == Piece::Text(" profile to write"@)
            },
            Notice::NotBackedUp { path, fault: why } => {
                &&& notice.message().len() == 3 + why.message().len()
                &&& notice.message()[0] == Piece::Text("could not back up "@)
                &&& notice.message()[1] == Piece::Path(path)
                &&& notice.message()[2] == Piece::Text(": "@)
                &&& forall|k: int|
                    0 <= k < why.message().len() ==> notice.message()[3 + k]
                        == #[trigger] why.message()[k]
            },
        },
        match fault {
            Fault::CreatingDirectory { directory } => {
                &&& fault.message().len() == 2
                &&& fault.message()[0] == Piece::Text("creating "@)
                &&& fault.message()[1] == Piece::Path(directory)
            },
            Fault::NoFileName => fault.message().len() == 1 && fault.message()[0] == Piece::Text(
                "superseded profile has no file name"@,
            ),
            Fault::Moving { reason } => fault.message().len() == 1 && fault.message()[0]
                == Piece::Text(reason),
        },
        match failure {
            Failure::CreatingStore { path, reason } => {
                &&& failure.message().len() == 2
                &&& failure.message()[0] == Piece::Text("creating profile store "@)
                &&& failure.message()[1] == Piece::Path(path)
            },
            Failure::Writing { path, reason } => {
                &&& failure.message().len() == 2
                &&& failure.message()[0] == Piece::Text("writing "@)
                &&& failure.message()[1] == Piece::Path(path)
            },
        },
{
}

/// What is told of a release archive: that it cannot be read, or holds nothing, and otherwise
/// nothing beside the archive's own error.
pub proof fn law_what_is_told_of_an_archive(error: ArchiveError)
    ensures
        error.context() == match error {
            ArchiveError::Opening { error: why } => "reading the vatis-profiles release archive"@,
            ArchiveError::Entry { error: why } => ""@,
            ArchiveError::Reading { error: why } => ""@,
            ArchiveError::NoProfiles => {
                "the vatis-profiles release archive contained no recognisable profiles"@
            },
        },
{
}

/// A listing says each of its entries, and a location that may be missing says where it is.
pub proof fn law_what_may_be_missing_says(
    listing: Option<Vec<DirectoryEntry>>,
    location: Option<Location>,
)
    ensures
        match listing {
            Some(entries) => listed(listing) == Some(
                Seq::new(entries@.len(), |i: int| entries@[i]@),
            ),
            None => listed(listing) is None,
        },
        match location {
            Some(location) => place_of(Some(location)) == Some(location@),
            None => place_of(None) is None,
        },
{
    if let Some(entries) = listing {
        assert(views(entries@) =~= Seq::new(entries@.len(), |i: int| entries@[i]@));
    }
}

/// What is joined to a place is kept whole behind what is there, and a file is published under
/// its id.
pub proof fn law_joining_keeps_names_whole(place: Place, name: Seq<char>, profile: CanonicalProfile)
    ensures
        place.join(name).base == place.base,
        place.join(name).names == place.names + seq![name],
        profile@.file_name() == profile.header.id@ + ".json"@,
{
    assert(place.join(name).names =~= place.names + seq![name]);
}

} // verus!
