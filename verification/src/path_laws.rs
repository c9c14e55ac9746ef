//! Where things are kept and what they are called, said in full.

use crate::client::source_of;
use crate::location::{Location, Place};
use crate::paths::{
    app_data_place, backup_place, client_places, first_existing, may_say, profile_place,
    profiles_place, Platform,
};
use crate::plan::Decision;
use crate::release::release_address;
use crate::status::{name_of, Status};
use crate::warning::Notice;
use vstd::prelude::*;

verus! {

/// The place that `names` lead to from the home of a user.
pub open spec fn below(home: Place, names: Seq<Seq<char>>) -> Place {
    Place { base: home.base, names: home.names + names }
}

/// On each platform everything is kept for a user where vATIS keeps it, whatever the home.
pub proof fn law_where_things_are_kept(home: Place, id: Seq<char>)
    ensures
        app_data_place(Platform::Windows, home) == below(
            home,
            seq!["AppData"@, "Local"@, "org.vatsim.vatis"@],
        ),
        profiles_place(Platform::Windows, home) == below(
            home,
            seq!["AppData"@, "Local"@, "org.vatsim.vatis"@, "Profiles"@],
        ),
        backup_place(Platform::Windows, home) == below(
            home,
            seq!["AppData"@, "Local"@, "org.vatsim.vatis"@, "Profiles"@, "backup"@],
        ),
        profile_place(Platform::Windows, home, id) == below(
            home,
            seq!["AppData"@, "Local"@, "org.vatsim.vatis"@, "Profiles"@, id + ".json"@],
        ),
        app_data_place(Platform::MacOs, home) == below(
            home,
            seq!["Library"@, "Application Support"@, "org.vatsim.vatis"@],
        ),
        profiles_place(Platform::MacOs, home) == below(
            home,
            seq!["Library"@, "Application Support"@, "org.vatsim.vatis"@, "Profiles"@],
        ),
        backup_place(Platform::MacOs, home) == below(
            home,
            seq!["Library"@, "Application Support"@, "org.vatsim.vatis"@, "Profiles"@, "backup"@],
        ),
        profile_place(Platform::MacOs, home, id) == below(
            home,
            seq![
                "Library"@,
                "Application Support"@,
                "org.vatsim.vatis"@,
                "Profiles"@,
                id + ".json"@,
            ],
        ),
{
    let windows = seq!["AppData"@, "Local"@, "org.vatsim.vatis"@];
    let macos = seq!["Library"@, "Application Support"@, "org.vatsim.vatis"@];
    assert(app_data_place(Platform::Windows, home).names =~= home.names + windows);
    assert(app_data_place(Platform::MacOs, home).names =~= home.names + macos);
}

/// A client is looked for where its installer puts it on Windows, and on macOS among the
/// applications of all users before those of the user.
pub proof fn law_where_clients_are_looked_for(home: Place)
    ensures
        client_places(Platform::Windows, home) == seq![
            below(
                home,
                seq!["AppData"@, "Local"@, "org.vatsim.vatis"@, "current"@, "vATIS.exe"@],
            ),
        ],
        client_places(Platform::MacOs, home) == seq![
            Place { base: "/Applications"@, names: seq!["vATIS.app"@] },
            below(home, seq!["Applications"@, "vATIS.app"@]),
        ],
{
    let windows = seq!["AppData"@, "Local"@, "org.vatsim.vatis"@, "current"@, "vATIS.exe"@];
    assert(client_places(Platform::Windows, home)[0].names =~= home.names + windows);
    assert(client_places(Platform::MacOs, home)[0].names =~= seq!["vATIS.app"@]);
    assert(client_places(Platform::MacOs, home)[1].names =~= home.names + seq![
        "Applications"@,
        "vATIS.app"@,
    ]);
}

/// Whether something exists is asked place by place: what is found is one of the places, of
/// which it was affirmed, and it was denied of all that come before it, or of all of them
/// where nothing is found.
pub proof fn law_the_first_that_is_present_is_found<F: Fn(&Location) -> bool>(
    present: F,
    places: Seq<Place>,
    found: Option<Place>,
)
    requires
        first_existing(present, places, found),
    ensures
        exists|i: int|
            {
                &&& 0 <= i <= places.len()
                &&& #[trigger] are_denied(present, places, i)
                &&& match found {
                    Some(place) => i < places.len() && places[i] == place && was_said(
                        present,
                        place,
                        true,
                    ),
                    None => i == places.len(),
                }
            },
{
    match found {
        Some(place) => {
            let i = choose|i: int|
                {
                    &&& 0 <= i < places.len()
                    &&& #[trigger] places[i] == place
                    &&& may_say(present, place, true)
                    &&& forall|j: int|
                        0 <= j < i ==> may_say(present, #[trigger] places[j], false)
                };
            lemma_denied(present, places, i);
        },
        None => {
            lemma_denied(present, places, places.len() as int);
        },
    }
}

/// Whether `present`, asked of this place, can have given this answer.
pub open spec fn was_said<F: Fn(&Location) -> bool>(
    present: F,
    place: Place,
    answer: bool,
) -> bool {
    exists|location: Location|
        location@ == place && #[trigger] call_ensures(present, (&location,), answer)
}

/// Whether it was denied of the first `n` places that something exists there.
pub open spec fn are_denied<F: Fn(&Location) -> bool>(
    present: F,
    places: Seq<Place>,
    n: int,
) -> bool {
    forall|j: int| 0 <= j < n ==> was_said(present, #[trigger] places[j], false)
}

/// What may be said of the first places was denied of them.
proof fn lemma_denied<F: Fn(&Location) -> bool>(present: F, places: Seq<Place>, n: int)
    requires
        forall|j: int| 0 <= j < n ==> may_say(present, #[trigger] places[j], false),
    ensures
        are_denied(present, places, n),
{
    assert forall|j: int| 0 <= j < n implies was_said(present, #[trigger] places[j], false) by {
        assert(may_say(present, places[j], false));
    }
}

/// A backslash parts the paths of Windows, and anything else those of macOS.
pub proof fn law_the_separator_tells_the_platform(separator: char)
    ensures
        Platform::parting_paths_with(separator) is Windows <==> separator == '\\',
        Platform::parting_paths_with(separator) is MacOs <==> separator != '\\',
{
}

/// A host is Windows when its machine parts paths with a backslash, and macOS when it does
/// not: a machine that has but one separator has but one platform, and keeps its profiles
/// where that platform does.
pub proof fn law_a_host_keeps_to_its_platform(separator: char, platform: Platform, home: Place)
    requires
        platform.is_host(),
        forall|other: char| #[trigger]
            Platform::is_machine_separator(other) ==> other == separator,
    ensures
        Platform::is_machine_separator(separator),
        platform is Windows <==> separator == '\\',
        profiles_place(platform, home) == if separator == '\\' {
            below(home, seq!["AppData"@, "Local"@, "org.vatsim.vatis"@, "Profiles"@])
        } else {
            below(home, seq!["Library"@, "Application Support"@, "org.vatsim.vatis"@, "Profiles"@])
        },
{
    law_where_things_are_kept(home, Seq::empty());
}

/// What is shown names the platform, and the directories of that platform, in full.
pub proof fn law_what_is_said_of_a_machine(
    platform: Platform,
    home: Place,
    client_path: Place,
    store_warnings: Seq<Notice>,
    plan: Decision,
)
    ensures
        ({
            let status = Status::complete(platform, home, client_path, store_warnings, plan);
            &&& status.platform == if platform is Windows {
                "windows"@
            } else {
                "macos"@
            }
            &&& status.profiles_dir == Some(
                below(
                    home,
                    if platform is Windows {
                        seq!["AppData"@, "Local"@, "org.vatsim.vatis"@, "Profiles"@]
                    } else {
                        seq!["Library"@, "Application Support"@, "org.vatsim.vatis"@, "Profiles"@]
                    },
                ),
            )
            &&& status.backup_dir == Some(
                Place {
                    base: home.base,
                    names: (status.profiles_dir->0).names.push("backup"@),
                },
            )
        }),
        Status::initial(platform, None).platform == name_of(platform),
        Status::initial(platform, Some(client_path)).platform == name_of(platform),
        name_of(platform) == if platform is Windows {
            "windows"@
        } else {
            "macos"@
        },
{
    law_where_things_are_kept(home, Seq::empty());
}

/// The installer of the client comes from vATIS itself, under the name that fits the platform.
pub proof fn law_where_the_client_comes_from(platform: Platform)
    ensures
        source_of(platform) == if platform is Windows {
            ("https://hub.vatis.app/download/windows"@, "vATIS-Setup.exe"@)
        } else {
            ("https://hub.vatis.app/download/macos"@, "vATIS.dmg"@)
        },
{
}

/// The release is looked up under its owner and its repository.
pub proof fn law_where_the_release_is_described()
    ensures
        release_address() == "https://api.github.com/repos/"@ + "vaccfr"@ + "/"@
            + "vatis-profiles"@ + "/releases/latest"@,
{
}

} // verus!
