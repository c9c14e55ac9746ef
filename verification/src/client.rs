//! The vATIS client's own installer.

use crate::paths::Platform;
use vstd::prelude::*;

verus! {

/// Where the Windows installer is downloaded from.
pub const CLIENT_WINDOWS_URL: &'static str = "https://hub.vatis.app/download/windows";

/// Where the macOS disk image is downloaded from.
pub const CLIENT_MACOS_URL: &'static str = "https://hub.vatis.app/download/macos";

/// Where the client installer comes from, and what it is called.
pub open spec fn source_of(platform: Platform) -> (Seq<char>, Seq<char>) {
    match platform {
        Platform::Windows => (CLIENT_WINDOWS_URL@, "vATIS-Setup.exe"@),
        Platform::MacOs => (CLIENT_MACOS_URL@, "vATIS.dmg"@),
    }
}

/// Where the client installer for `platform` comes from, and the file name to give it.
pub fn client_source_for(platform: Platform) -> (r: (&'static str, &'static str))
    ensures
        (r.0@, r.1@) == source_of(platform),
{
    match platform {
        Platform::Windows => (CLIENT_WINDOWS_URL, "vATIS-Setup.exe"),
        Platform::MacOs => (CLIENT_MACOS_URL, "vATIS.dmg"),
    }
}

/// Where the client installer for this host comes from, and the file name to give it.
pub fn client_source() -> (r: (&'static str, &'static str))
    ensures
        exists|platform: Platform|
            platform.is_host() && (r.0@, r.1@) == #[trigger] source_of(platform),
{
    client_source_for(Platform::host())
}

/// How the downloaded installer is handed to the operating system.
#[derive(Debug, Clone, Copy, PartialEq, Eq, Structural)]
pub enum Launch {
    /// It is run.
    Run,
    /// It is given to the program `open`.
    Open,
}

/// How the downloaded installer is handed to the operating system.
///
/// Windows gets a Velopack setup executable, which is run directly (a per-user install, so
/// no elevation). macOS gets a disk image, which is opened so the user can drag the bundle
/// out: vATIS refuses to launch from `/Volumes`, so the drag is not optional and cannot be
/// done for them.
pub fn launch_for(platform: Platform) -> (r: Launch)
    ensures
        r == match platform {
            Platform::Windows => Launch::Run,
            Platform::MacOs => Launch::Open,
        },
{
    match platform {
        Platform::Windows => Launch::Run,
        Platform::MacOs => Launch::Open,
    }
}

} // verus!
