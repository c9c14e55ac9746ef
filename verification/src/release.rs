//! Where the published profiles are downloaded from.

use crate::text;
use vstd::prelude::*;

verus! {

/// Who publishes the profiles.
pub const PROFILES_OWNER: &'static str = "vaccfr";

/// The repository that they are published from.
pub const PROFILES_REPO: &'static str = "vatis-profiles";

/// How requests introduce themselves: the installer's name, and its `version`.
pub fn user_agent(version: &str) -> (r: String)
    ensures
        r@ == "vaccfr-controller-pack-installer/"@ + version@,
{
    let mut r = "vaccfr-controller-pack-installer/".to_owned();
    r.append(version);
    r
}

/// Where the latest release is described.
pub open spec fn release_address() -> Seq<char> {
    "https://api.github.com/repos/"@ + PROFILES_OWNER@ + "/"@ + PROFILES_REPO@
        + "/releases/latest"@
}

/// Where the latest release is described.
pub fn release_url() -> (r: String)
    ensures
        r@ == release_address(),
{
    let mut r = "https://api.github.com/repos/".to_owned();
    r.append(PROFILES_OWNER);
    r.append("/");
    r.append(PROFILES_REPO);
    r.append("/releases/latest");
    r
}

/// A file of a release.
#[derive(Debug, Clone, PartialEq, Eq)]
pub struct ReleaseAsset {
    pub name: String,
    pub browser_download_url: String,
}

/// What a [`ReleaseAsset`] says.
pub struct Asset {
    pub name: Seq<char>,
    pub browser_download_url: Seq<char>,
}

impl View for ReleaseAsset {
    type V = Asset;

    open spec fn view(&self) -> Asset {
        Asset { name: self.name@, browser_download_url: self.browser_download_url@ }
    }
}

/// A release, as far as it matters here.
#[derive(Debug, Clone, PartialEq, Eq)]
pub struct Release {
    pub assets: Vec<ReleaseAsset>,
}

/// Why a release is of no use.
#[derive(Debug, Clone, Copy, PartialEq, Eq, Structural)]
pub enum ReleaseError {
    /// None of its files is a zip archive.
    NoArchive,
}

impl ReleaseError {
    /// The error in words.
    pub fn message(&self) -> (r: &'static str)
        ensures
            r@ == "the latest vatis-profiles release has no .zip asset"@,
    {
        "the latest vatis-profiles release has no .zip asset"
    }
}

/// Whether a file of this name is taken for the archive: it ends in `.zip`, in whatever
/// case.
pub open spec fn names_archive(name: Seq<char>) -> bool {
    text::ends_in(text::smalls(name), ".zip"@)
}

impl Release {
    /// The file of the release that holds the profiles: the first that is a zip archive.
    pub fn archive(&self) -> (r: Result<&ReleaseAsset, ReleaseError>)
        ensures
            match r {
                Ok(asset) => exists|i: int|
                    {
                        &&& 0 <= i < self.assets@.len()
                        &&& #[trigger] self.assets@[i] == *asset
                        &&& names_archive(asset@.name)
                        &&& forall|j: int|
                            0 <= j < i ==> !names_archive((#[trigger] self.assets@[j])@.name)
                    },
                Err(error) => error is NoArchive && forall|j: int|
                    0 <= j < self.assets@.len() ==> !names_archive(
                        (#[trigger] self.assets@[j])@.name,
                    ),
            },
    {
        let mut i: usize = 0;
        while i < self.assets.len()
            invariant
                i <= self.assets@.len(),
                forall|j: int| 0 <= j < i ==> !names_archive((#[trigger] self.assets@[j])@.name),
            decreases self.assets@.len() - i,
        {
            if text::ends_in_small(self.assets[i].name.as_str(), ".zip") {
                return Ok(&self.assets[i]);
            }
            i = i + 1;
        }
        Err(ReleaseError::NoArchive)
    }
}

} // verus!
