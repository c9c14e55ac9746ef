//! Where vATIS keeps its data, and how to tell whether it is installed.
//!
//! vATIS derives everything from one directory, `org.vatsim.vatis` in the local
//! application data. That is not the same idea on both platforms: on Windows it is
//! `%LOCALAPPDATA%`, on macOS `~/Library/Application Support` and *not* the XDG
//! `~/.local/share`. Getting that wrong would silently write profiles somewhere vATIS
//! never reads.
//!
//! Both the platform and the home directory are parameters, so each platform's layout
//! can be looked at on any host.

use crate::location::{Location, Place};
use crate::native::is_plain;
use crate::plan::Published;
use crate::progress::backup_of;
use crate::views::views;
use vstd::prelude::*;

verus! {

/// The Velopack pack id, which is also the name of vATIS's data directory.
pub const APP_ID: &'static str = "org.vatsim.vatis";

/// A platform vATIS ships for. Linux is not a target: the client is published as a
/// Windows installer and a macOS disk image only.
#[derive(Debug, Clone, Copy, PartialEq, Eq, Structural)]
pub enum Platform {
    Windows,
    MacOs,
}

/// `std::path::MAIN_SEPARATOR`, the character that parts the components of a path on the
/// machine that this runs on. Nothing is claimed of it.
#[verifier::external_body]
fn main_separator() -> (r: char) {
    std::path::MAIN_SEPARATOR
}

/// What `ask` answers, which is one of the answers that it can give.
fn answer_of<F: Fn() -> char>(ask: F) -> (r: char)
    requires
        call_requires(ask, ()),
    ensures
        call_ensures(ask, (), r),
{
    ask()
}

impl Platform {
    /// The platform on which `separator` parts the components of a path.
    pub open spec fn parting_paths_with(separator: char) -> Platform {
        if separator == '\\' {
            Platform::Windows
        } else {
            Platform::MacOs
        }
    }

    /// Whether `separator` is what this machine gives for the separator of its paths.
    pub closed spec fn is_machine_separator(separator: char) -> bool {
        call_ensures(main_separator, (), separator)
    }

    /// Whether this is the platform that the machine's separator tells.
    pub open spec fn is_host(self) -> bool {
        exists|separator: char| #[trigger]
            Platform::is_machine_separator(separator) && self == Platform::parting_paths_with(
                separator,
            )
    }

    /// The platform on which `separator` parts the components of a path: Windows for a
    /// backslash, macOS for anything else.
    pub fn of_separator(separator: char) -> (r: Platform)
        ensures
            r == Platform::parting_paths_with(separator),
    {
        if separator == '\\' {
            Platform::Windows
        } else {
            Platform::MacOs
        }
    }

    /// The platform this build is running on.
    pub fn host() -> (r: Platform)
        ensures
            r.is_host(),
    {
        let separator = answer_of(main_separator);
        proof {
            assert(Platform::is_machine_separator(separator));
        }
        Platform::of_separator(separator)
    }
}

/// What is taken for the separator of this machine is what it answers when it is asked.
proof fn lemma_the_machine_was_asked(separator: char)
    ensures
        Platform::is_machine_separator(separator) ==> call_ensures(main_separator, (), separator),
{
}

/// vATIS's application data directory.
pub open spec fn app_data_place(platform: Platform, home: Place) -> Place {
    match platform {
        Platform::Windows => home.join("AppData"@).join("Local"@).join(APP_ID@),
        Platform::MacOs => home.join("Library"@).join("Application Support"@).join(APP_ID@),
    }
}

/// The profile store.
pub open spec fn profiles_place(platform: Platform, home: Place) -> Place {
    app_data_place(platform, home).join("Profiles"@)
}

/// Where superseded profiles are moved.
pub open spec fn backup_place(platform: Platform, home: Place) -> Place {
    backup_of(profiles_place(platform, home))
}

/// The file of the profile with this id.
pub open spec fn profile_place(platform: Platform, home: Place, id: Seq<char>) -> Place {
    profiles_place(platform, home).join(id + ".json"@)
}

/// Where macOS keeps the applications of all users.
pub open spec fn applications_place() -> Place {
    Place { base: "/Applications"@, names: Seq::empty() }
}

/// Where a vATIS client may be installed, most likely first.
pub open spec fn client_places(platform: Platform, home: Place) -> Seq<Place> {
    match platform {
        Platform::Windows => seq![
            app_data_place(platform, home).join("current"@).join("vATIS.exe"@),
        ],
        Platform::MacOs => seq![
            applications_place().join("vATIS.app"@),
            home.join("Applications"@).join("vATIS.app"@),
        ],
    }
}

/// vATIS's application data directory, for an explicit platform.
///
/// On Windows this is also the Velopack install root, so the client binary and the user's
/// profiles share a folder.
pub fn app_data_dir_for(platform: Platform, home: &Location) -> (r: Location)
    ensures
        r@ == app_data_place(platform, home@),
{
    match platform {
        Platform::Windows => home.join("AppData").join("Local").join(APP_ID),
        Platform::MacOs => home.join("Library").join("Application Support").join(APP_ID),
    }
}

/// The profile store, for an explicit platform. vATIS reads `*.json` from here,
/// non-recursively.
pub fn profiles_dir_for(platform: Platform, home: &Location) -> (r: Location)
    ensures
        r@ == profiles_place(platform, home@),
{
    app_data_dir_for(platform, home).join("Profiles")
}

/// Where superseded profiles are moved, for an explicit platform. A subdirectory of the
/// store, which vATIS therefore never enumerates: it globs the top level only.
pub fn backup_dir_for(platform: Platform, home: &Location) -> (r: Location)
    ensures
        r@ == backup_place(platform, home@),
        r@ == profiles_place(platform, home@).join("backup"@),
{
    profiles_dir_for(platform, home).join("backup")
}

/// The file vATIS stores a profile in, for an explicit platform, named by the profile's own
/// id.
pub fn profile_path_for(platform: Platform, home: &Location, id: &str) -> (r: Location)
    ensures
        r@ == profile_place(platform, home@, id@),
{
    let name = id.to_owned().concat(".json");
    profiles_dir_for(platform, home).join(name.as_str())
}

/// Locations a vATIS client may be installed at, most likely first.
///
/// Windows installs are Velopack, which lays the app down at `<pack id>/current/`. macOS
/// ships a disk image with a portable bundle, so it lands wherever the user dragged it:
/// conventionally `/Applications`, but a per-user `~/Applications` is just as valid.
pub fn client_probes_for(platform: Platform, home: &Location) -> (r: Vec<Location>)
    ensures
        views(r@) == client_places(platform, home@),
{
    let mut r: Vec<Location> = Vec::new();
    match platform {
        Platform::Windows => {
            r.push(app_data_dir_for(platform, home).join("current").join("vATIS.exe"));
        },
        Platform::MacOs => {
            r.push(Location::new("/Applications").join("vATIS.app"));
            r.push(home.join("Applications").join("vATIS.app"));
        },
    }
    proof {
        assert(views(r@) =~= client_places(platform, home@));
    }
    r
}

/// vATIS's application data directory on this host.
pub fn app_data_dir(home: &Location) -> (r: Location)
    ensures
        exists|platform: Platform|
            platform.is_host() && r@ == #[trigger] app_data_place(platform, home@),
{
    app_data_dir_for(Platform::host(), home)
}

/// The profile store on this host.
pub fn profiles_dir(home: &Location) -> (r: Location)
    ensures
        exists|platform: Platform|
            platform.is_host() && r@ == #[trigger] profiles_place(platform, home@),
{
    profiles_dir_for(Platform::host(), home)
}

/// Where superseded profiles are moved on this host: the store's `backup` subdirectory.
pub fn backup_dir(home: &Location) -> (r: Location)
    ensures
        exists|platform: Platform|
            platform.is_host() && r@ == #[trigger] backup_place(platform, home@),
{
    backup_dir_for(Platform::host(), home)
}

/// The file vATIS stores a profile in on this host, named by the profile's own id.
pub fn profile_path(home: &Location, id: &str) -> (r: Location)
    ensures
        exists|platform: Platform|
            platform.is_host() && r@ == #[trigger] profile_place(platform, home@, id@),
{
    profile_path_for(Platform::host(), home, id)
}

/// The place of a location, if there is one.
pub open spec fn place_of(location: Option<Location>) -> Option<Place> {
    match location {
        Some(location) => Some(location@),
        None => None,
    }
}

/// Whether `present` may say `said` of `place`.
pub open spec fn may_say<F: Fn(&Location) -> bool>(present: F, place: Place, said: bool) -> bool {
    exists|location: Location|
        location@ == place && #[trigger] call_ensures(present, (&location,), said)
}

/// Whether `found` is the first of `places` of which `present` said that it exists, having
/// denied it of those before; `None` when it denied it of all.
pub open spec fn first_existing<F: Fn(&Location) -> bool>(
    present: F,
    places: Seq<Place>,
    found: Option<Place>,
) -> bool {
    match found {
        Some(place) => exists|i: int|
            {
                &&& 0 <= i < places.len()
                &&& #[trigger] places[i] == place
                &&& may_say(present, place, true)
                &&& forall|j: int| 0 <= j < i ==> may_say(present, #[trigger] places[j], false)
            },
        None => forall|j: int|
            0 <= j < places.len() ==> may_say(present, #[trigger] places[j], false),
    }
}

/// The installed vATIS client, if one is present, for an explicit platform.
///
/// `present` tells whether something exists at a location.
pub fn detect_client_for<F: Fn(&Location) -> bool>(
    platform: Platform,
    home: &Location,
    present: F,
) -> (r: Option<Location>)
    requires
        forall|location: Location| #[trigger] call_requires(present, (&location,)),
    ensures
        first_existing(
            present,
            client_places(platform, home@),
            place_of(r),
        ),
{
    let probes = client_probes_for(platform, home);
    let ghost places = client_places(platform, home@);
    let mut i: usize = 0;
    while i < probes.len()
        invariant
            i <= probes@.len(),
            places == client_places(platform, home@),
            views(probes@) == places,
            forall|location: Location| #[trigger] call_requires(present, (&location,)),
            forall|j: int| 0 <= j < i ==> may_say(present, #[trigger] places[j], false),
        decreases probes@.len() - i,
    {
        proof {
            assert(places[i as int] == probes@[i as int]@);
        }
        if present(&probes[i]) {
            proof {
                assert(may_say(present, places[i as int], true));
            }
            return Some(probes[i].clone());
        }
        proof {
            assert(may_say(present, places[i as int], false));
        }
        i = i + 1;
    }
    None
}

/// The installed vATIS client on this host, if one is present.
///
/// `present` tells whether something exists at a location. Deliberately does *not* accept
/// the application data directory as proof: it outlives an uninstall, and vATIS also
/// points its crash reporter's cache there, so the folder can exist on a machine that has
/// no client at all.
pub fn detect_client<F: Fn(&Location) -> bool>(home: &Location, present: F) -> (r: Option<Location>)
    requires
        forall|location: Location| #[trigger] call_requires(present, (&location,)),
    ensures
        exists|platform: Platform|
            platform.is_host() && #[trigger] first_existing(
                present,
                client_places(platform, home@),
                place_of(r),
            ),
{
    detect_client_for(Platform::host(), home, present)
}

/// Everything that is kept for a user lies under the home that was given; a profile does
/// where its id makes a plain name.
pub proof fn law_paths_lie_under_the_home(platform: Platform, home: Place, id: Seq<char>)
    requires
        is_plain(platform, id + ".json"@),
    ensures
        app_data_place(platform, home).lies_under(home),
        profiles_place(platform, home).lies_under(home),
        backup_place(platform, home).lies_under(home),
        profile_place(platform, home, id).lies_under(home),
{
}

/// Two homes never share a data directory, nor a profile store.
pub proof fn law_homes_are_kept_apart(platform: Platform, one: Place, two: Place)
    requires
        one != two,
    ensures
        app_data_place(platform, one) != app_data_place(platform, two),
        profiles_place(platform, one) != profiles_place(platform, two),
{
    if app_data_place(platform, one) == app_data_place(platform, two) {
        let a = app_data_place(platform, one).names;
        let b = app_data_place(platform, two).names;
        assert(one.names =~= a.take(a.len() - 3));
        assert(two.names =~= b.take(b.len() - 3));
    }
    if profiles_place(platform, one) == profiles_place(platform, two) {
        let a = profiles_place(platform, one).names;
        let b = profiles_place(platform, two).names;
        assert(one.names =~= a.take(a.len() - 4));
        assert(two.names =~= b.take(b.len() - 4));
    }
}

/// A published profile is written where the profile of its id is looked for.
pub proof fn law_a_profile_is_filed_under_its_id(
    platform: Platform,
    home: Place,
    profile: Published,
)
    ensures
        profiles_place(platform, home).join(profile.file_name()) == profile_place(
            platform,
            home,
            profile.header.id,
        ),
{
}

/// The two platforms do not share a layout.
pub proof fn law_platforms_do_not_share_a_layout(home: Place)
    ensures
        app_data_place(Platform::Windows, home) != app_data_place(Platform::MacOs, home),
        profiles_place(Platform::Windows, home) != profiles_place(Platform::MacOs, home),
{
    reveal_strlit("AppData");
    reveal_strlit("Library");
    let at = home.names.len() as int;
    assert(app_data_place(Platform::Windows, home).names[at] == "AppData"@);
    assert(app_data_place(Platform::MacOs, home).names[at] == "Library"@);
    assert(profiles_place(Platform::Windows, home).names[at] == "AppData"@);
    assert(profiles_place(Platform::MacOs, home).names[at] == "Library"@);
    assert("AppData"@[0] != "Library"@[0]);
}

/// On every platform the backup directory is the directory called `backup` in the store.
pub proof fn law_backup_is_a_subdirectory_of_the_store(platform: Platform, home: Place)
    ensures
        backup_place(platform, home) == profiles_place(platform, home).join("backup"@),
        backup_place(platform, home).lies_in(profiles_place(platform, home)),
{
}

/// Nothing that lies in the backup directory lies directly in the store.
pub proof fn law_backups_are_out_of_sight(platform: Platform, home: Place, name: Seq<char>)
    requires
        is_plain(platform, name),
    ensures
        backup_place(platform, home).join(name).lies_in(backup_place(platform, home)),
        !backup_place(platform, home).join(name).lies_in(profiles_place(platform, home)),
{
}

/// Neither the data directory nor anything in the profile store is taken for a client.
pub proof fn law_data_is_no_client(platform: Platform, home: Place, i: int)
    requires
        0 <= i < client_places(platform, home).len(),
    ensures
        client_places(platform, home)[i] != app_data_place(platform, home),
        !client_places(platform, home)[i].lies_under(profiles_place(platform, home)),
{
    let probe = client_places(platform, home)[i];
    let at = home.names.len() + 3int;
    reveal_strlit("current");
    reveal_strlit("Profiles");
    assert(profiles_place(platform, home).names[at] == "Profiles"@);
    if platform is Windows {
        assert(probe.names[at] == "current"@);
        assert("current"@[0] != "Profiles"@[0]);
    }
}

} // verus!
