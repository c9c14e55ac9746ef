//! Release archives, the release they come from, and what is shown.

use std::io::{Cursor, Write};
use vatis_profiles::archive::{
    archive_files, collect_profiles, fir_of, read_profile_archive, ArchiveError, ParsedFile,
};
use vatis_profiles::client::{client_source, client_source_for, launch_for, Launch};
use vatis_profiles::fir::FirCode;
use vatis_profiles::location::Location;
use vatis_profiles::paths::profiles_dir_for;
use vatis_profiles::release::{
    release_url, user_agent, Release, ReleaseAsset, ReleaseError, PROFILES_OWNER, PROFILES_REPO,
};
use vatis_profiles::status::{
    first_step, initial_status, platform_name, platform_name_for, status_for, ProfileEntry,
    ProfileState, StatusStep, VatisStatus,
};
use vatis_profiles::warning::Warning;
use vatis_profiles::{CanonicalProfile, Platform, ProfileHeader, StoredProfile};

fn parse_header(_file_name: &str, bytes: &[u8]) -> Option<ProfileHeader> {
    let document: serde_json::Value = serde_json::from_slice(bytes).ok()?;
    Some(ProfileHeader {
        id: document["id"].as_str()?.to_string(),
        name: document["name"].as_str().unwrap_or("").to_string(),
        update_url: document["updateUrl"].as_str().map(|url| url.to_string()),
        update_serial: document["updateSerial"].as_u64(),
    })
}

/// An archive of these files.
fn archive(files: &[(&str, &[u8])]) -> Vec<u8> {
    let mut buf = Vec::new();
    {
        let mut w = zip::ZipWriter::new(Cursor::new(&mut buf));
        let opts = zip::write::SimpleFileOptions::default();
        for (name, contents) in files {
            w.start_file::<_, ()>(*name, opts).unwrap();
            w.write_all(contents).unwrap();
        }
        w.finish().unwrap();
    }
    buf
}

fn header(name: &str, id: &str, serial: u64) -> ProfileHeader {
    ProfileHeader {
        id: id.to_string(),
        name: name.to_string(),
        update_url: None,
        update_serial: Some(serial),
    }
}

#[test]
fn fir_is_read_from_the_published_file_name() {
    assert_eq!(fir_of("vATIS Profile - LFBB.json", ""), Some(FirCode::LFBB));
    assert_eq!(fir_of("vATIS Profile - LFRR.json", ""), Some(FirCode::LFRR));
}

#[test]
fn fir_falls_back_to_the_profile_name() {
    assert_eq!(fir_of("renamed.json", "LFMM Marseille FIR"), Some(FirCode::LFMM));
}

#[test]
fn an_unrecognised_profile_names_no_fir() {
    assert_eq!(fir_of("notes.json", "Something else"), None);
}

#[test]
fn the_file_name_decides_and_the_profile_name_is_the_fallback() {
    assert_eq!(fir_of("LFRR.json", "LFBB"), Some(FirCode::LFRR));
    assert_eq!(
        fir_of("vATIS Profile - LFRR.json", "LFBB Bordeaux FIR"),
        Some(FirCode::LFRR)
    );
    assert_eq!(fir_of("lfff.json", ""), Some(FirCode::LFFF));
    assert_eq!(fir_of("", "lfee"), Some(FirCode::LFEE));
    // Within one name the first region in order is taken.
    assert_eq!(fir_of("LFRR and LFMM.json", ""), Some(FirCode::LFMM));
    assert_eq!(fir_of("renamed.json", "LFRR and LFBB"), Some(FirCode::LFBB));
    // The two names do not run together.
    assert_eq!(fir_of("LF", "BB"), None);
}

/// A profile published for Brest is Brest's, whatever it calls itself.
#[test]
fn a_published_profile_is_keyed_by_its_file_name() {
    let buf = archive(&[(
        "vATIS Profile - LFRR.json",
        br#"{"name":"LFBB Bordeaux FIR","id":"a","updateSerial":2026090401}"#,
    )]);
    let profiles = read_profile_archive(&buf, parse_header).unwrap();
    assert_eq!(profiles.len(), 1);
    assert_eq!(profiles[0].fir, FirCode::LFRR);
}

/// The header is read from the contents of the file that is named.
#[test]
fn a_header_is_asked_for_by_file_name_and_contents() {
    let buf = archive(&[("x/LFBB.json", b"one"), ("LFEE.json", b"two")]);
    let profiles = read_profile_archive(&buf, |name, bytes| {
        Some(header(name, std::str::from_utf8(bytes).unwrap(), 1))
    })
    .unwrap();
    let found: Vec<(&str, &str)> =
        profiles.iter().map(|p| (p.header.name.as_str(), p.header.id.as_str())).collect();
    assert_eq!(found, vec![("LFBB.json", "one"), ("LFEE.json", "two")]);
}

#[test]
fn the_client_source_matches_the_host_platform() {
    let (url, name) = client_source();
    match Platform::host() {
        Platform::Windows => {
            assert!(url.ends_with("/windows"));
            assert_eq!(name, "vATIS-Setup.exe");
        }
        Platform::MacOs => {
            assert!(url.ends_with("/macos"));
            assert_eq!(name, "vATIS.dmg");
        }
    }
}

#[test]
fn each_platform_has_its_own_installer() {
    assert_eq!(
        client_source_for(Platform::Windows),
        ("https://hub.vatis.app/download/windows", "vATIS-Setup.exe")
    );
    assert_eq!(
        client_source_for(Platform::MacOs),
        ("https://hub.vatis.app/download/macos", "vATIS.dmg")
    );
    assert_eq!(launch_for(Platform::Windows), Launch::Run);
    assert_eq!(launch_for(Platform::MacOs), Launch::Open);
}

#[test]
fn an_archive_without_profiles_is_an_error() {
    let buf = archive(&[("README.md", b"")]);
    let outcome = read_profile_archive(&buf, parse_header);
    assert!(outcome.is_err());
    let error = outcome.unwrap_err();
    assert!(matches!(error, ArchiveError::NoProfiles));
    assert_eq!(
        error.message(),
        "the vatis-profiles release archive contained no recognisable profiles"
    );
}

#[test]
fn profiles_are_read_out_of_an_archive_keyed_by_fir() {
    let lfbb = br#"{"name":"LFBB Bordeaux FIR","id":"a","updateSerial":2026090401}"#;
    let lfrr = br#"{"name":"LFRR Brest FIR","id":"b","updateSerial":2026090401}"#;

    let buf = archive(&[
        ("vATIS Profile - LFBB.json", lfbb),
        ("vATIS Profile - LFRR.json", lfrr),
    ]);

    let profiles = read_profile_archive(&buf, parse_header).unwrap();
    assert_eq!(profiles.len(), 2);
    assert_eq!(profiles[0].fir, FirCode::LFBB);
    assert_eq!(profiles[0].bytes, lfbb.to_vec(), "bytes must be preserved verbatim");
    assert_eq!(profiles[1].fir, FirCode::LFRR);
}

#[test]
fn bytes_that_are_no_archive_are_an_error() {
    let error = read_profile_archive(b"no archive at all", parse_header).unwrap_err();
    assert!(matches!(error, ArchiveError::Opening { .. }));
    assert_eq!(error.message(), "reading the vatis-profiles release archive");
}

#[test]
fn a_profile_whose_contents_are_damaged_is_an_error() {
    let document = br#"{"name":"LFBB Bordeaux FIR","id":"abcdefghijklmnopqrstuvwxyz"}"#;
    let mut w = zip::ZipWriter::new(Cursor::new(Vec::new()));
    let opts = zip::write::SimpleFileOptions::default()
        .compression_method(zip::CompressionMethod::Stored);
    w.start_file::<_, ()>("LFBB.json", opts).unwrap();
    w.write_all(document).unwrap();
    let whole = w.finish().unwrap().into_inner();
    assert_eq!(read_profile_archive(&whole, parse_header).unwrap().len(), 1);

    // Change one letter of the contents, which the checksum then betrays.
    let at = whole.windows(3).position(|part| part == b"xyz").unwrap();
    let mut damaged = whole;
    damaged[at] = b'X';
    let error = read_profile_archive(&damaged, parse_header).unwrap_err();
    assert!(matches!(error, ArchiveError::Reading { .. }));
    assert_eq!(error.message(), "");
}

#[test]
fn an_entry_that_cannot_be_opened_is_an_error() {
    let mut damaged = archive(&[("LFBB.json", b"{}")]);
    // The signature of the entry's own header, which starts the archive.
    assert_eq!(&damaged[0..4], b"PK\x03\x04");
    damaged[3] = 0;
    let error = read_profile_archive(&damaged, parse_header).unwrap_err();
    assert!(matches!(error, ArchiveError::Entry { .. }));
    assert_eq!(error.message(), "");
}

#[test]
fn damage_to_what_is_no_profile_is_not_looked_at() {
    let mut w = zip::ZipWriter::new(Cursor::new(Vec::new()));
    let opts = zip::write::SimpleFileOptions::default()
        .compression_method(zip::CompressionMethod::Stored);
    w.start_file::<_, ()>("README.md", opts).unwrap();
    w.write_all(b"xyz").unwrap();
    w.start_file::<_, ()>("LFBB.json", opts).unwrap();
    w.write_all(br#"{"id":"a"}"#).unwrap();
    let mut damaged = w.finish().unwrap().into_inner();
    let at = damaged.windows(3).position(|part| part == b"xyz").unwrap();
    damaged[at] = b'X';
    assert_eq!(read_profile_archive(&damaged, parse_header).unwrap().len(), 1);
}

#[test]
fn profiles_come_in_the_order_of_their_regions() {
    let buf = archive(&[
        ("profiles/LFRR.json", br#"{"id":"1"}"#),
        ("profiles\\LFBB.JSON", br#"{"id":"2"}"#),
        ("LFMM.json", br#"{"id":"3"}"#),
        ("second LFBB.json", br#"{"id":"4"}"#),
        ("LFEE.json", br#"{"id":"5"}"#),
        ("x.json", br#"{"id":"6","name":"lfff Paris"}"#),
    ]);
    let profiles = read_profile_archive(&buf, parse_header).unwrap();
    let found: Vec<(&str, &str)> =
        profiles.iter().map(|p| (p.fir.as_str(), p.header.id.as_str())).collect();
    assert_eq!(
        found,
        vec![
            ("LFBB", "2"),
            ("LFBB", "4"),
            ("LFEE", "5"),
            ("LFFF", "6"),
            ("LFMM", "3"),
            ("LFRR", "1"),
        ]
    );
}

#[test]
fn what_is_no_profile_is_passed_over() {
    let mut buf = Vec::new();
    {
        let mut w = zip::ZipWriter::new(Cursor::new(&mut buf));
        let opts = zip::write::SimpleFileOptions::default();
        w.add_directory::<_, ()>("LFBB.json/", opts).unwrap();
        w.start_file::<_, ()>("LFBB.json/LFEE.txt", opts).unwrap();
        w.start_file::<_, ()>("malformed LFBB.json", opts).unwrap();
        w.write_all(b"not json at all").unwrap();
        w.start_file::<_, ()>("LFBB/nowhere.json", opts).unwrap();
        w.write_all(br#"{"id":"nowhere"}"#).unwrap();
        w.start_file::<_, ()>("LFRR.json", opts).unwrap();
        w.write_all(br#"{"id":"good"}"#).unwrap();
        w.finish().unwrap();
    }
    let files = archive_files(&buf).unwrap();
    let names: Vec<&str> = files.iter().map(|file| file.file_name.as_str()).collect();
    assert_eq!(names, vec!["malformed LFBB.json", "nowhere.json", "LFRR.json"]);
    let profiles = read_profile_archive(&buf, parse_header).unwrap();
    assert_eq!(profiles.len(), 1);
    assert_eq!(profiles[0].fir, FirCode::LFRR);
    assert_eq!(profiles[0].header.id, "good");
}

#[test]
fn a_malformed_document_takes_nothing_away() {
    let file = |name: &str, parsed: Option<ProfileHeader>| ParsedFile {
        file_name: name.to_string(),
        bytes: name.as_bytes().to_vec(),
        header: parsed,
    };
    let with = collect_profiles(vec![
        file("LFMM.json", Some(header("", "m", 1))),
        file("LFBB.json", None),
        file("LFEE.json", Some(header("", "e", 1))),
    ])
    .unwrap();
    assert_eq!(with.len(), 2);
    assert_eq!(with[0].fir, FirCode::LFEE);
    assert_eq!(with[0].bytes, b"LFEE.json".to_vec());
    assert_eq!(with[1].fir, FirCode::LFMM);
    assert!(matches!(
        collect_profiles(vec![file("LFBB.json", None)]),
        Err(ArchiveError::NoProfiles)
    ));
}

#[test]
fn the_release_is_asked_for_by_its_repository() {
    assert_eq!(PROFILES_OWNER, "vaccfr");
    assert_eq!(PROFILES_REPO, "vatis-profiles");
    assert_eq!(
        release_url(),
        "https://api.github.com/repos/vaccfr/vatis-profiles/releases/latest"
    );
    assert_eq!(user_agent("1.2.3"), "vaccfr-controller-pack-installer/1.2.3");
}

#[test]
fn the_first_zip_asset_holds_the_profiles() {
    let asset = |name: &str| ReleaseAsset {
        name: name.to_string(),
        browser_download_url: format!("https://example/{name}"),
    };
    let release = Release {
        assets: vec![asset("notes.txt"), asset("zip"), asset("Profiles.ZIP"), asset("b.zip")],
    };
    assert_eq!(release.archive(), Ok(&asset("Profiles.ZIP")));
    let none = Release { assets: vec![asset("notes.txt"), asset("a.zip.sig")] };
    assert_eq!(none.archive(), Err(ReleaseError::NoArchive));
    assert_eq!(
        ReleaseError::NoArchive.message(),
        "the latest vatis-profiles release has no .zip asset"
    );
}

#[test]
fn without_a_client_only_that_is_shown() {
    let status = initial_status(Platform::MacOs, None);
    assert_eq!(
        status,
        VatisStatus {
            client_installed: false,
            client_path: None,
            platform: "macos",
            profiles_dir: None,
            backup_dir: None,
            entries: vec![],
            needs_attention: true,
            warnings: vec![],
        }
    );
    let client = Location::new("/Applications").join("vATIS.app");
    let status = initial_status(Platform::Windows, Some(client.clone()));
    assert!(status.client_installed && !status.needs_attention);
    assert_eq!(status.client_path, Some(client));
    assert_eq!(status.platform, "windows");
}

#[test]
fn nothing_is_fetched_without_a_client() {
    for platform in [Platform::Windows, Platform::MacOs] {
        let status = initial_status(platform, None);
        assert_eq!(first_step(platform, None), StatusStep::Show { status });
        let client_path = Location::new("/Applications").join("vATIS.app");
        let step = first_step(platform, Some(client_path.clone()));
        assert_eq!(step, StatusStep::Fetch { client_path });
    }
}

#[test]
fn with_a_client_each_region_is_shown() {
    let home = Location::new("/fake/home");
    let client = home.join("Applications").join("vATIS.app");
    let store = profiles_dir_for(Platform::MacOs, &home);
    let profile = |name: &str, serial: u64| StoredProfile {
        path: store.join(name),
        header: header(name, name, serial),
    };
    let published = |fir: FirCode| CanonicalProfile {
        fir,
        header: header(fir.as_str(), "new", 2026090401),
        bytes: vec![],
    };
    let stored = vec![
        profile("LFBB", 1),
        profile("LFEE", 2026090401),
        profile("LFMM", 1),
        profile("LFMM second", 2026090401),
    ];
    let canonical = vec![
        published(FirCode::LFBB),
        published(FirCode::LFEE),
        published(FirCode::LFFF),
        published(FirCode::LFMM),
    ];
    let warning = Warning::Unreadable { path: store.join("x"), reason: "no json".to_string() };

    let status = status_for(
        Platform::MacOs,
        &home,
        client.clone(),
        &stored,
        vec![warning.clone()],
        &canonical,
        &FirCode::ALL,
    );

    assert_eq!(
        status,
        VatisStatus {
            client_installed: true,
            client_path: Some(client.clone()),
            platform: "macos",
            profiles_dir: Some(store.clone()),
            backup_dir: Some(store.join("backup")),
            entries: vec![
                ProfileEntry { fir: FirCode::LFBB, state: ProfileState::Superseded },
                ProfileEntry { fir: FirCode::LFEE, state: ProfileState::Current },
                ProfileEntry { fir: FirCode::LFFF, state: ProfileState::Missing },
                ProfileEntry { fir: FirCode::LFMM, state: ProfileState::Superseded },
            ],
            needs_attention: true,
            warnings: vec![warning, Warning::Unpublished { fir: FirCode::LFRR }],
        }
    );

    let converged = status_for(
        Platform::MacOs,
        &home,
        client,
        &stored,
        vec![],
        &canonical,
        &[FirCode::LFEE],
    );
    assert!(!converged.needs_attention);
    assert_eq!(converged.entries.len(), 1);
}

#[test]
fn a_platform_goes_by_its_name() {
    assert_eq!(platform_name_for(Platform::Windows), "windows");
    assert_eq!(platform_name_for(Platform::MacOs), "macos");
    assert_eq!(platform_name(), platform_name_for(Platform::host()));
}
