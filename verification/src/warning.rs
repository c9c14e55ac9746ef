//! What the user is told about when something was left out or could not be done.

use crate::fir::FirCode;
use crate::location::{Location, Place};
use crate::views::views;
use vstd::prelude::*;

verus! {

/// Why a profile could not be moved into the backup directory.
#[derive(Debug, PartialEq, Eq)]
pub enum BackupFault {
    /// The backup directory could not be created.
    CreatingDirectory { directory: Location },
    /// The profile's path does not end in a file name.
    NoFileName,
    /// The file could not be moved.
    Moving { reason: String },
}

/// What a [`BackupFault`] says.
pub enum Fault {
    CreatingDirectory { directory: Place },
    NoFileName,
    Moving { reason: Seq<char> },
}

/// Something that was passed over, and why.
#[derive(Debug, PartialEq, Eq)]
pub enum Warning {
    /// The published release holds no profile for the region.
    Unpublished { fir: FirCode },
    /// A file in the profile store could not be read as a profile.
    Unreadable { path: Location, reason: String },
    /// A profile was to be written for the region, and none was downloaded.
    NotDownloaded { fir: FirCode },
    /// A superseded profile stayed where it was.
    NotBackedUp { path: Location, fault: BackupFault },
}

/// What a [`Warning`] says.
pub enum Notice {
    Unpublished { fir: FirCode },
    Unreadable { path: Place, reason: Seq<char> },
    NotDownloaded { fir: FirCode },
    NotBackedUp { path: Place, fault: Fault },
}

/// A part of a message: text, or a path for the operating system to display.
#[derive(Debug, PartialEq, Eq)]
pub enum Fragment {
    Text(String),
    Path(Location),
}

/// What a [`Fragment`] says.
pub enum Piece {
    Text(Seq<char>),
    Path(Place),
}

impl View for BackupFault {
    type V = Fault;

    open spec fn view(&self) -> Fault {
        match self {
            BackupFault::CreatingDirectory { directory } => Fault::CreatingDirectory {
                directory: directory@,
            },
            BackupFault::NoFileName => Fault::NoFileName,
            BackupFault::Moving { reason } => Fault::Moving { reason: reason@ },
        }
    }
}

impl View for Warning {
    type V = Notice;

    open spec fn view(&self) -> Notice {
        match self {
            Warning::Unpublished { fir } => Notice::Unpublished { fir: *fir },
            Warning::Unreadable { path, reason } => Notice::Unreadable {
                path: path@,
                reason: reason@,
            },
            Warning::NotDownloaded { fir } => Notice::NotDownloaded { fir: *fir },
            Warning::NotBackedUp { path, fault } => Notice::NotBackedUp {
                path: path@,
                fault: fault@,
            },
        }
    }
}

impl View for Fragment {
    type V = Piece;

    open spec fn view(&self) -> Piece {
        match self {
            Fragment::Text(text) => Piece::Text(text@),
            Fragment::Path(path) => Piece::Path(path@),
        }
    }
}

impl Clone for BackupFault {
    fn clone(&self) -> (r: BackupFault)
        ensures
            r@ == self@,
    {
        match self {
            BackupFault::CreatingDirectory { directory } => BackupFault::CreatingDirectory {
                directory: directory.clone(),
            },
            BackupFault::NoFileName => BackupFault::NoFileName,
            BackupFault::Moving { reason } => BackupFault::Moving { reason: reason.clone() },
        }
    }
}

impl Clone for Warning {
    fn clone(&self) -> (r: Warning)
        ensures
            r@ == self@,
    {
        match self {
            Warning::Unpublished { fir } => Warning::Unpublished { fir: *fir },
            Warning::Unreadable { path, reason } => Warning::Unreadable {
                path: path.clone(),
                reason: reason.clone(),
            },
            Warning::NotDownloaded { fir } => Warning::NotDownloaded { fir: *fir },
            Warning::NotBackedUp { path, fault } => Warning::NotBackedUp {
                path: path.clone(),
                fault: fault.clone(),
            },
        }
    }
}

impl Fault {
    /// The fault in words.
    pub open spec fn message(self) -> Seq<Piece> {
        match self {
            Fault::CreatingDirectory { directory } => seq![
                Piece::Text("creating "@),
                Piece::Path(directory),
            ],
            Fault::NoFileName => seq![Piece::Text("superseded profile has no file name"@)],
            Fault::Moving { reason } => seq![Piece::Text(reason)],
        }
    }
}

impl Notice {
    /// The warning in words.
    pub open spec fn message(self) -> Seq<Piece> {
        match self {
            Notice::Unpublished { fir } => seq![
                Piece::Text("no "@),
                Piece::Text(fir.code()),
                Piece::Text(" profile in the published release; skipped"@),
            ],
            Notice::Unreadable { path, reason } => seq![
                Piece::Text("ignored unreadable profile "@),
                Piece::Path(path),
                Piece::Text(": "@),
                Piece::Text(reason),
            ],
            Notice::NotDownloaded { fir } => seq![
                Piece::Text("no downloaded "@),
                Piece::Text(fir.code()),
                Piece::Text(" profile to write"@),
            ],
            Notice::NotBackedUp { path, fault } => seq![
                Piece::Text("could not back up "@),
                Piece::Path(path),
                Piece::Text(": "@),
            ] + fault.message(),
        }
    }
}

/// A piece of text.
pub(crate) fn text(s: &str) -> (r: Fragment)
    ensures
        r@ == Piece::Text(s@),
{
    Fragment::Text(s.to_owned())
}

impl BackupFault {
    /// The fault in words.
    pub fn message(&self) -> (r: Vec<Fragment>)
        ensures
            views(r@) == self@.message(),
    {
        let mut r: Vec<Fragment> = Vec::new();
        match self {
            BackupFault::CreatingDirectory { directory } => {
                r.push(text("creating "));
                r.push(Fragment::Path(directory.clone()));
            },
            BackupFault::NoFileName => {
                r.push(text("superseded profile has no file name"));
            },
            BackupFault::Moving { reason } => {
                r.push(text(reason.as_str()));
            },
        }
        proof {
            assert(views(r@) =~= self@.message());
        }
        r
    }
}

impl Warning {
    /// The warning in words.
    pub fn message(&self) -> (r: Vec<Fragment>)
        ensures
            views(r@) == self@.message(),
    {
        let mut r: Vec<Fragment> = Vec::new();
        match self {
            Warning::Unpublished { fir } => {
                r.push(text("no "));
                r.push(text(fir.as_str()));
                r.push(text(" profile in the published release; skipped"));
            },
            Warning::Unreadable { path, reason } => {
                r.push(text("ignored unreadable profile "));
                r.push(Fragment::Path(path.clone()));
                r.push(text(": "));
                r.push(text(reason.as_str()));
            },
            Warning::NotDownloaded { fir } => {
                r.push(text("no downloaded "));
                r.push(text(fir.as_str()));
                r.push(text(" profile to write"));
            },
            Warning::NotBackedUp { path, fault } => {
                r.push(text("could not back up "));
                r.push(Fragment::Path(path.clone()));
                r.push(text(": "));
                let mut rest = fault.message();
                let ghost end = views(rest@);
                r.append(&mut rest);
                proof {
                    assert(views(r@) =~= views(r@.take(3)) + end);
                }
            },
        }
        proof {
            assert(views(r@) =~= self@.message());
        }
        r
    }
}

/// A copy of the warnings.
pub(crate) fn copy_warnings(warnings: &Vec<Warning>) -> (r: Vec<Warning>)
    ensures
        views(r@) == views(warnings@),
{
    let r = warnings.clone();
    proof {
        assert forall|i: int| 0 <= i < warnings@.len() implies r@[i]@ == warnings@[i]@ by {
            assert(cloned(warnings@[i], r@[i]));
        }
        assert(views(r@) =~= views(warnings@));
    }
    r
}

} // verus!
