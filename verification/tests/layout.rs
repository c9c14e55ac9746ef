//! Where vATIS keeps its data, and where its client is looked for.

use std::path::{Path, PathBuf};
use vatis_profiles::location::Location;
use vatis_profiles::paths::{
    app_data_dir_for, backup_dir_for, client_probes_for, detect_client_for, profile_path_for,
    profiles_dir_for,
};
use vatis_profiles::{
    app_data_dir, backup_dir, detect_client, profile_path, profiles_dir, Platform, APP_ID,
};

/// The path of a location on this machine.
fn native(location: &Location) -> PathBuf {
    let mut path = PathBuf::from(&location.base);
    for name in &location.names {
        path.push(name);
    }
    path
}

fn natives(locations: &[Location]) -> Vec<PathBuf> {
    locations.iter().map(native).collect()
}

#[test]
fn windows_data_directory_is_under_local_appdata() {
    let home = Location::new("/fake/home");
    assert_eq!(
        native(&app_data_dir_for(Platform::Windows, &home)),
        Path::new("/fake/home").join("AppData/Local/org.vatsim.vatis")
    );
}

/// The macOS store is under Application Support, never in the XDG data directory. Writing
/// to `.local/share` would put profiles somewhere vATIS never looks.
#[test]
fn macos_profile_store_is_under_application_support_not_xdg() {
    let home = Location::new("/fake/home");
    let profiles = native(&profiles_dir_for(Platform::MacOs, &home));

    assert_eq!(
        profiles,
        Path::new("/fake/home").join("Library/Application Support/org.vatsim.vatis/Profiles")
    );
    let shown = profiles.to_string_lossy();
    assert!(!shown.contains(".local/share"), "resolved to XDG: {shown}");
    assert!(!shown.contains(".config"), "resolved to XDG config: {shown}");
}

#[test]
fn the_two_platforms_do_not_share_a_layout() {
    let home = Location::new("/fake/home");
    assert_ne!(
        native(&app_data_dir_for(Platform::Windows, &home)),
        native(&app_data_dir_for(Platform::MacOs, &home))
    );
}

#[test]
fn windows_probes_the_velopack_current_directory() {
    let home = Location::new("/fake/home");
    assert_eq!(
        natives(&client_probes_for(Platform::Windows, &home)),
        vec![Path::new("/fake/home").join("AppData/Local/org.vatsim.vatis/current/vATIS.exe")]
    );
}

#[test]
fn macos_probes_both_applications_folders_in_order() {
    let home = Location::new("/fake/home");
    assert_eq!(
        natives(&client_probes_for(Platform::MacOs, &home)),
        vec![
            PathBuf::from("/Applications/vATIS.app"),
            Path::new("/fake/home").join("Applications/vATIS.app"),
        ]
    );
}

#[test]
fn backup_is_a_subdirectory_of_the_store() {
    let home = Location::new("/fake/home");
    assert_eq!(backup_dir(&home), profiles_dir(&home).join("backup"));
    assert_eq!(native(&backup_dir(&home)), native(&profiles_dir(&home)).join("backup"));
}

#[test]
fn profile_is_named_by_its_id() {
    let home = Location::new("/fake/home");
    assert_eq!(
        native(&profile_path(&home, "47f4bce0-29f8-4f3f-ae20-a6255b861f88")),
        native(&profiles_dir(&home)).join("47f4bce0-29f8-4f3f-ae20-a6255b861f88.json"),
    );
}

#[test]
fn client_detected_at_its_platform_location() {
    let home = Location::new("/fake/home");
    assert_eq!(detect_client(&home, |_| false), None);

    let probe = match Platform::host() {
        Platform::Windows => app_data_dir(&home).join("current").join("vATIS.exe"),
        Platform::MacOs => home.join("Applications").join("vATIS.app"),
    };
    let present = native(&probe);
    assert_eq!(detect_client(&home, |path| native(path) == present), Some(probe));
}

/// The data directory survives an uninstall and doubles as a crash-reporter cache, so on
/// its own it proves nothing.
#[test]
fn app_data_directory_alone_is_not_an_installed_client() {
    let home = Location::new("/fake/home");
    let present = vec![
        native(&profiles_dir(&home)),
        native(&app_data_dir(&home)),
        native(&app_data_dir(&home).join("AppConfig.json")),
    ];
    assert_eq!(detect_client(&home, |path| present.contains(&native(path))), None);
}

#[test]
fn paths_are_relative_to_the_home_they_are_given() {
    for platform in [Platform::Windows, Platform::MacOs] {
        let a = native(&app_data_dir_for(platform, &Location::new("/home/one")));
        let b = native(&app_data_dir_for(platform, &Location::new("/home/two")));
        assert_ne!(a, b);
        assert!(a.starts_with("/home/one"));
    }
}

#[test]
fn the_first_probe_that_exists_is_the_client() {
    let home = Location::new("/fake/home");
    let probes = client_probes_for(Platform::MacOs, &home);
    let all = detect_client_for(Platform::MacOs, &home, |_| true);
    assert_eq!(all, Some(probes[0].clone()));
    let second = native(&probes[1]);
    let only = detect_client_for(Platform::MacOs, &home, |path| native(path) == second);
    assert_eq!(only, Some(probes[1].clone()));
    let windows = detect_client_for(Platform::Windows, &home, |_| true);
    let data = home.join("AppData").join("Local").join(APP_ID);
    assert_eq!(windows, Some(data.join("current").join("vATIS.exe")));
}

/// The platform goes by the separator of this machine's paths.
#[test]
fn the_host_is_the_platform_that_parts_paths_as_this_machine_does() {
    assert_eq!(Platform::of_separator('\\'), Platform::Windows);
    assert_eq!(Platform::of_separator('/'), Platform::MacOs);
    let joined = Path::new("a").join("b");
    let backslash = joined.to_string_lossy().contains('\\');
    assert_eq!(Platform::host() == Platform::Windows, backslash);
    let home = Location::new("/fake/home");
    assert_eq!(app_data_dir(&home), app_data_dir_for(Platform::host(), &home));
    assert_eq!(profiles_dir(&home), profiles_dir_for(Platform::host(), &home));
}

#[test]
fn the_backup_directory_and_the_profiles_are_in_the_store_on_both_platforms() {
    let home = Location::new("/fake/home");
    for platform in [Platform::Windows, Platform::MacOs] {
        let store = profiles_dir_for(platform, &home);
        assert_eq!(backup_dir_for(platform, &home), store.join("backup"));
        assert_eq!(profile_path_for(platform, &home, "a"), store.join("a.json"));
    }
    assert_eq!(
        native(&backup_dir_for(Platform::MacOs, &home)),
        Path::new("/fake/home")
            .join("Library/Application Support/org.vatsim.vatis/Profiles/backup")
    );
    assert_eq!(backup_dir(&home), backup_dir_for(Platform::host(), &home));
    assert_eq!(profile_path(&home, "a"), profile_path_for(Platform::host(), &home, "a"));
}

/// The file name of a location is that of its path, however it was put together.
#[test]
fn a_location_ends_in_the_last_component_of_its_path() {
    let base = |text: &str| Location::new(text);
    let locations = vec![
        base("/"),
        base(""),
        base("."),
        base(".."),
        base("old.json"),
        base("/store/old.json"),
        base("/store/"),
        base("/store//"),
        base("/store/."),
        base("/store/.."),
        base("/store/../."),
        base("/store/..x"),
        base("/").join("old.json"),
        base("/store").join("old.json"),
        base("/store").join("sub/old.json"),
        base("/store").join("sub/"),
        base("/store").join(""),
        base("/store").join("."),
        base("/store").join("./."),
        base("/store").join(".."),
        base("/store").join("/"),
        base("/store").join("/old.json"),
        base("/store").join("é ü.json"),
        base("").join("").join("."),
    ];
    for location in locations {
        let path = native(&location);
        let expected = path.file_name().map(|name| name.to_string_lossy().into_owned());
        assert_eq!(location.file_name(Platform::MacOs), expected, "{location:?}");
        assert_eq!(location.path(Platform::MacOs), path.to_string_lossy(), "{location:?}");
    }
}

#[test]
fn backslashes_and_drives_count_on_windows_only() {
    let whole = Location::new("C:\\Users\\me\\old.json");
    assert_eq!(whole.file_name(Platform::Windows), Some("old.json".to_string()));
    assert_eq!(
        whole.file_name(Platform::MacOs),
        Some("C:\\Users\\me\\old.json".to_string())
    );
    assert_eq!(Location::new("C:").file_name(Platform::Windows), None);
    assert_eq!(Location::new("C:\\").file_name(Platform::Windows), None);
    let relative = Location::new("c:old.json");
    assert_eq!(relative.file_name(Platform::Windows), Some("old.json".to_string()));
    assert_eq!(Location::new("/store").join("C:").file_name(Platform::Windows), None);
    assert_eq!(Location::new("/store").join("\\").file_name(Platform::Windows), None);
    let no_drive = Location::new("/store").join("ab:c");
    assert_eq!(no_drive.file_name(Platform::Windows), Some("ab:c".to_string()));
}

/// A path that is a prefix and nothing else has no file name.
#[test]
fn windows_prefixes_are_no_file_names() {
    for (path, expected) in [
        (r"\\server\share", None),
        (r"\\server\share\", None),
        (r"//server/share", None),
        (r"\\server\share\old.json", Some("old.json")),
        (r"\\server\share\a\..", None),
        (r"\\server", Some("server")),
        (r"\\server\", Some("server")),
        (r"\\\share", Some("share")),
        (r"\\.\COM42", None),
        (r"\\.\COM42\old.json", Some("old.json")),
        (r"\\?\C:", None),
        (r"\\?\C:\", None),
        (r"\\?\C:\old.json", Some("old.json")),
        (r"\\?\C:\a/b", Some("a/b")),
        (r"\\?\C:\a\.", None),
        (r"\\?\C:\a\..", None),
        (r"\\?\pictures", None),
        (r"\\?\pictures\old.json", Some("old.json")),
        (r"\\?\UNC\server\share", None),
        (r"\\?\UNC\server\share\old.json", Some("old.json")),
        (r"\\?\UNC\server", None),
        (r"//?/C:/old.json", Some("old.json")),
        (r"//?/C:", None),
        (r"\old.json", Some("old.json")),
        (r"a\b/", Some("b")),
    ] {
        let found = Location::new(path).file_name(Platform::Windows);
        assert_eq!(found, expected.map(|name| name.to_string()), "{path}");
    }
}

#[test]
fn texts_are_joined_as_windows_joins_them() {
    for (base, text, path) in [
        (r"C:\a", "b", r"C:\a\b"),
        (r"C:\a\", "b", r"C:\a\b"),
        (r"C:\a/", "b", r"C:\a/b"),
        ("C:", "b", "C:b"),
        ("", "b", "b"),
        (r"C:\a", r"\b", r"C:\b"),
        (r"C:\a", r"D:b", r"D:b"),
        (r"C:\a", r"\\server\share", r"\\server\share"),
        (r"C:\a", "", r"C:\a\"),
        (r"\\server\share\a", r"\b", r"\\server\share\b"),
        (r"\\server", "share", r"\\server\share"),
        (r"\\?\C:\a\b", "..", r"\\?\C:\a"),
        (r"\\?\C:\a\b", "../..", r"\\?\C:"),
        (r"\\?\C:\a\b", "c/./d", r"\\?\C:\a\b\c\d"),
        (r"\\?\C:\a\\b\", r"\c", r"\\?\C:\c"),
        (r"\\?\C:", "x", r"\\?\C:\x"),
    ] {
        let location = Location::new(base).join(text);
        assert_eq!(location.path(Platform::Windows), path);
    }
    let share = Location::new(r"\\server").join("share");
    assert_eq!(share.file_name(Platform::Windows), None);
    let up = Location::new(r"\\?\C:\a\b").join("..");
    assert_eq!(up.file_name(Platform::Windows), Some("a".to_string()));
}

#[test]
fn a_location_is_what_was_joined() {
    let home = Location::new("/fake/home");
    assert_eq!(home.join("a").join("b.json").clone(), home.join("a").join("b.json"));
    assert_ne!(home.join("a"), home.join("b"));
}
