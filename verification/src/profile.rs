//! The handful of fields read out of a vATIS profile, and the rule for deciding whether
//! one predates the ID reissue.

use crate::fir::FirCode;
use crate::text;
use vstd::prelude::*;

verus! {

/// Profiles at or above this `updateSerial` carry the canonical vaccfr IDs.
/// Below it they predate the 2026-09-04 reissue and must be replaced.
///
/// This is a **generation watermark, not a freshness check**: it does not move when new
/// profile content is published. vATIS refreshes content by itself; what it cannot do is
/// change a profile's identity, and the file is named after the id. A controller on a
/// pre-reissue id stays there no matter how many updates arrive, so only a new reissue
/// upstream justifies changing this constant.
pub const ID_REISSUE_SERIAL: u64 = 2026090401;

/// The metadata needed from a profile document. Everything else in the file (stations,
/// presets, formats) is of no concern here.
#[derive(Debug, Clone, PartialEq, Eq)]
pub struct ProfileHeader {
    pub id: String,
    pub name: String,
    pub update_url: Option<String>,
    /// Absent on anything published before the auto-update fields were introduced. The
    /// values are `YYYYMMDDNN`.
    pub update_serial: Option<u64>,
}

/// What a [`ProfileHeader`] says.
pub struct Header {
    pub id: Seq<char>,
    pub name: Seq<char>,
    pub update_url: Option<Seq<char>>,
    pub update_serial: Option<u64>,
}

impl Header {
    /// The serial that counts: zero when there is none.
    pub open spec fn serial(self) -> u64 {
        match self.update_serial {
            Some(serial) => serial,
            None => 0,
        }
    }

    /// Whether the name holds the region's code, in whatever case.
    pub open spec fn matches_fir(self, fir: FirCode) -> bool {
        text::occurs(text::capitals(self.name), fir.code())
    }

    /// Whether this is a profile of the region from before the reissue.
    pub open spec fn is_superseded(self, fir: FirCode) -> bool {
        self.matches_fir(fir) && self.serial() < ID_REISSUE_SERIAL
    }

    /// Whether this is a profile of the region from the current generation.
    pub open spec fn is_current(self, fir: FirCode) -> bool {
        self.matches_fir(fir) && self.serial() >= ID_REISSUE_SERIAL
    }
}

impl View for ProfileHeader {
    type V = Header;

    open spec fn view(&self) -> Header {
        Header {
            id: self.id@,
            name: self.name@,
            update_url: match self.update_url {
                Some(url) => Some(url@),
                None => None,
            },
            update_serial: self.update_serial,
        }
    }
}

impl ProfileHeader {
    /// The serial for comparison purposes. A profile with no serial predates the
    /// auto-update feature entirely, which puts it well below the watermark.
    pub fn serial(&self) -> (r: u64)
        ensures
            r == self@.serial(),
    {
        self.update_serial.unwrap_or(0)
    }

    /// Whether this profile looks like the French vACC profile for `fir`.
    ///
    /// Matched on the name because it is the only field that survives every generation:
    /// ids have been reissued, vATIS assigns a fresh one on each import through its UI,
    /// and `updateUrl` is missing from exactly the oldest profiles.
    pub fn matches_fir(&self, fir: FirCode) -> (r: bool)
        ensures
            r == self@.matches_fir(fir),
    {
        text::mentions(self.name.as_str(), fir.as_str())
    }

    /// Whether this profile is a French vACC profile from before the reissue, and so must
    /// be replaced rather than left to vATIS's updater.
    pub fn is_superseded(&self, fir: FirCode) -> (r: bool)
        ensures
            r == self@.is_superseded(fir),
    {
        self.matches_fir(fir) && self.serial() < ID_REISSUE_SERIAL
    }

    /// Whether this profile is a French vACC profile from the current generation: the
    /// same match as [`Self::is_superseded`], on the other side of the watermark.
    ///
    /// This, and not the file's name, is what says a store is already migrated: a profile
    /// imported through vATIS's UI is filed under an id that was never published.
    pub fn is_current(&self, fir: FirCode) -> (r: bool)
        ensures
            r == self@.is_current(fir),
    {
        self.matches_fir(fir) && self.serial() >= ID_REISSUE_SERIAL
    }
}

/// A profile that matches a region is either superseded or current for it, never both;
/// one that does not match is neither.
pub proof fn law_generations_part_the_matches(header: Header, fir: FirCode)
    ensures
        header.matches_fir(fir) <==> header.is_superseded(fir) || header.is_current(fir),
        !(header.is_superseded(fir) && header.is_current(fir)),
{
}

/// A profile without a serial is never current.
pub proof fn law_no_serial_is_below_the_watermark(header: Header, fir: FirCode)
    requires
        header.update_serial is None,
    ensures
        !header.is_current(fir),
        header.matches_fir(fir) ==> header.is_superseded(fir),
{
}

/// Two profiles whose names differ only in the case of ASCII letters match the same
/// regions.
pub proof fn law_matching_ignores_case(a: Header, b: Header, fir: FirCode)
    requires
        text::smalls(a.name) == text::smalls(b.name),
    ensures
        a.matches_fir(fir) == b.matches_fir(fir),
{
    text::lemma_capitals_of_smalls(a.name);
    text::lemma_capitals_of_smalls(b.name);
}

/// Only the name and the serial decide: neither the id nor the update address does.
pub proof fn law_identity_does_not_decide(a: Header, b: Header, fir: FirCode)
    requires
        a.name == b.name,
        a.update_serial == b.update_serial,
    ensures
        a.is_superseded(fir) == b.is_superseded(fir),
        a.is_current(fir) == b.is_current(fir),
{
}

} // verus!
