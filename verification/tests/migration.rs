//! Reading a store, planning, and carrying a plan out, on a disk held in memory.

use std::collections::{BTreeMap, BTreeSet};
use std::path::{Path, PathBuf};
use vatis_profiles::apply::{apply_for, Action, ApplyError, Event};
use vatis_profiles::fir::FirCode;
use vatis_profiles::location::Location;
use vatis_profiles::store::{collect_store, store_files, DirectoryEntry, FileRead};
use vatis_profiles::warning::{BackupFault, Fragment, Warning};
use vatis_profiles::{
    apply, plan, read_store, CanonicalProfile, Platform, ProfileHeader, ProfileOp, StoredProfile,
    VatisPlan, VatisSummary,
};

/// The path of a location on this machine.
fn native(location: &Location) -> PathBuf {
    let mut path = PathBuf::from(&location.base);
    for name in &location.names {
        path.push(name);
    }
    path
}

/// A message as it is shown.
fn shown(message: &[Fragment]) -> String {
    let mut out = String::new();
    for fragment in message {
        match fragment {
            Fragment::Text(text) => out.push_str(text),
            Fragment::Path(path) => out.push_str(&native(path).to_string_lossy()),
        }
    }
    out
}

fn parse_header(bytes: &[u8]) -> Result<ProfileHeader, String> {
    let document: serde_json::Value =
        serde_json::from_slice(bytes).map_err(|error| error.to_string())?;
    let id = document["id"].as_str().ok_or("missing field `id`".to_string())?;
    Ok(ProfileHeader {
        id: id.to_string(),
        name: document["name"].as_str().unwrap_or("").to_string(),
        update_url: document["updateUrl"].as_str().map(|url| url.to_string()),
        update_serial: document["updateSerial"].as_u64(),
    })
}

fn canonical(fir: FirCode, id: &str) -> CanonicalProfile {
    let code = fir.as_str();
    let json =
        format!(r#"{{"name":"{code} Something FIR","id":"{id}","updateSerial":2026090401}}"#);
    CanonicalProfile {
        fir,
        header: parse_header(json.as_bytes()).unwrap(),
        bytes: json.into_bytes(),
    }
}

fn in_store(name: &str) -> Location {
    Location::new("/store").join(name)
}

fn stored(path: &str, json: &str) -> StoredProfile {
    StoredProfile { path: Location::new(path), header: parse_header(json.as_bytes()).unwrap() }
}

/// A disk, with the paths on which it refuses to work.
#[derive(Default)]
struct Disk {
    directories: BTreeSet<PathBuf>,
    files: BTreeMap<PathBuf, Vec<u8>>,
    refused: BTreeSet<PathBuf>,
}

impl Disk {
    /// A disk with the store `/store`, holding these files.
    fn with(files: &[(&str, &str)]) -> Disk {
        let mut disk = Disk::default();
        disk.directories.insert(PathBuf::from("/store"));
        for (name, text) in files {
            disk.files.insert(Path::new("/store").join(name), text.as_bytes().to_vec());
        }
        disk
    }

    fn holds(&self, path: &str) -> bool {
        self.directories.contains(Path::new(path)) || self.is_file(path)
    }

    fn is_file(&self, path: &str) -> bool {
        self.files.contains_key(Path::new(path))
    }

    fn text(&self, path: &str) -> String {
        String::from_utf8(self.files[Path::new(path)].clone()).unwrap()
    }

    /// What a directory holds, in no useful order.
    fn listing(&self, directory: &Location) -> Option<Vec<DirectoryEntry>> {
        let directory = native(directory);
        if !self.directories.contains(&directory) {
            return None;
        }
        let mut out = Vec::new();
        for (paths, is_file) in [
            (self.directories.iter().collect::<Vec<_>>(), false),
            (self.files.keys().collect::<Vec<_>>(), true),
        ] {
            for path in paths {
                if path.parent() == Some(directory.as_path()) {
                    let name = path.file_name().unwrap().to_string_lossy().into_owned();
                    out.push(DirectoryEntry { name, is_file });
                }
            }
        }
        out.reverse();
        Some(out)
    }

    fn read_store(&self, directory: &Location) -> (Vec<StoredProfile>, Vec<Warning>) {
        read_store(directory, self.listing(directory), |path| {
            parse_header(&self.files[&native(path)])
        })
    }

    /// Do what a run wants.
    fn perform(&mut self, action: &Action, canon: &[CanonicalProfile]) -> Event {
        let refused = Event::Failed { reason: "permission denied".to_string() };
        match action {
            Action::CreateDirectory { path } => {
                let path = native(path);
                if self.refused.contains(&path) {
                    return refused;
                }
                for directory in path.ancestors() {
                    self.directories.insert(directory.to_path_buf());
                }
                Event::Done
            }
            Action::Probe { path } => {
                if self.holds(&native(path).to_string_lossy()) {
                    Event::Present
                } else {
                    Event::Absent
                }
            }
            Action::Move { from, to } => {
                if self.refused.contains(&native(from)) {
                    return refused;
                }
                let contents = self.files.remove(&native(from)).unwrap();
                let over = self.files.insert(native(to), contents);
                assert!(over.is_none(), "a backup was overwritten");
                Event::Done
            }
            Action::Write { destination, profile } => {
                if self.refused.contains(&native(destination)) {
                    return refused;
                }
                self.files.insert(native(destination), canon[*profile].bytes.clone());
                Event::Done
            }
            Action::Stop => panic!("nothing to do"),
        }
    }

    /// Carry a plan out.
    fn carry_out(
        &mut self,
        directory: &Location,
        canon: &[CanonicalProfile],
        decided: &VatisPlan,
    ) -> Result<VatisSummary, ApplyError> {
        let mut run = apply(directory, canon, decided);
        loop {
            let action = run.action();
            if action == Action::Stop {
                return run.outcome().unwrap();
            }
            let event = self.perform(&action, canon);
            run = run.advance(event);
        }
    }

    /// A whole cycle of planning and carrying out.
    fn migrate(&mut self, canon: &[CanonicalProfile], firs: &[FirCode]) -> VatisSummary {
        let directory = Location::new("/store");
        let (store, _) = self.read_store(&directory);
        let decided = plan(&store, canon, firs);
        self.carry_out(&directory, canon, &decided).unwrap()
    }
}

#[test]
fn missing_profile_is_written() {
    let current = canonical(FirCode::LFBB, "new-lfbb");
    let p = plan(&[], &[current], &[FirCode::LFBB]);

    assert_eq!(
        p.ops,
        vec![ProfileOp::Write { fir: FirCode::LFBB, file_name: "new-lfbb.json".into() }]
    );
    assert!(p.has_work());
}

#[test]
fn pre_reissue_profile_is_backed_up_then_replaced() {
    let old = stored(
        "/store/149be2dc.json",
        r#"{"name":"LFBB Bordeaux FIR","id":"149be2dc","updateSerial":2026042301}"#,
    );
    let p = plan(&[old], &[canonical(FirCode::LFBB, "new-lfbb")], &[FirCode::LFBB]);

    assert_eq!(
        p.ops,
        vec![ProfileOp::BackupThenReplace {
            fir: FirCode::LFBB,
            superseded: vec![Location::new("/store/149be2dc.json")],
            file_name: "new-lfbb.json".into(),
        }]
    );
}

#[test]
fn canonical_profile_already_present_is_skipped() {
    let current = stored(
        "/store/new-lfbb.json",
        r#"{"name":"LFBB Bordeaux FIR","id":"new-lfbb","updateSerial":2026090401}"#,
    );
    let p = plan(&[current], &[canonical(FirCode::LFBB, "new-lfbb")], &[FirCode::LFBB]);

    assert_eq!(p.ops, vec![ProfileOp::Skip { fir: FirCode::LFBB }]);
    assert!(!p.has_work(), "a converged store must not raise the modal");
}

/// A controller may have imported the profile several times; vATIS hands each copy a fresh
/// id, so all of them look distinct on disk.
#[test]
fn several_superseded_files_for_one_fir_are_all_collected() {
    let a = stored("/store/a.json", r#"{"name":"LFBB","id":"a"}"#);
    let b = stored(
        "/store/b.json",
        r#"{"name":"LFBB Bordeaux FIR","id":"b","updateSerial":2026090301}"#,
    );
    let p = plan(&[a, b], &[canonical(FirCode::LFBB, "new")], &[FirCode::LFBB]);

    match &p.ops[0] {
        ProfileOp::BackupThenReplace { superseded, .. } => assert_eq!(superseded.len(), 2),
        other => panic!("expected a backup op, got {other:?}"),
    }
}

/// vATIS mints a fresh id for every profile imported through its UI, so a perfectly current
/// profile normally sits on disk under an id that was never published. What says it is
/// current is its serial, never its file name.
#[test]
fn a_current_profile_under_a_locally_assigned_id_is_skipped() {
    let imported = stored(
        "/store/8e68da40-2c0f-4bc2-ad1e-ed9443030030.json",
        r#"{"name":"LFEE Reims FIR","id":"8e68da40-2c0f-4bc2-ad1e-ed9443030030",
            "updateSerial":2026090401}"#,
    );
    let p = plan(
        &[imported],
        &[canonical(FirCode::LFEE, "35457410-afe2-4272-9adb-d149385a3d10")],
        &[FirCode::LFEE],
    );

    assert_eq!(p.ops, vec![ProfileOp::Skip { fir: FirCode::LFEE }]);
    assert!(!p.has_work(), "a converged store must not raise the modal");
}

/// A stale copy next to a current one still has to go, but writing the published profile
/// as well would leave the controller with two live copies of the same FIR.
#[test]
fn a_stale_copy_beside_a_current_one_is_backed_up_without_a_second_write() {
    let stale = stored(
        "/store/old.json",
        r#"{"name":"LFEE Reims FIR","id":"old","updateSerial":2026042301}"#,
    );
    let imported = stored(
        "/store/local.json",
        r#"{"name":"LFEE Reims FIR","id":"local","updateSerial":2026090401}"#,
    );
    let p = plan(&[stale, imported], &[canonical(FirCode::LFEE, "published")], &[FirCode::LFEE]);

    assert_eq!(
        p.ops,
        vec![ProfileOp::BackUp {
            fir: FirCode::LFEE,
            superseded: vec![Location::new("/store/old.json")],
        }]
    );
    assert!(p.has_work());
}

#[test]
fn other_firs_profiles_are_untouched() {
    let lfmm = stored("/store/lfmm.json", r#"{"name":"LFMM Marseille FIR","id":"m"}"#);
    let p = plan(&[lfmm], &[canonical(FirCode::LFBB, "new")], &[FirCode::LFBB]);

    assert_eq!(
        p.ops,
        vec![ProfileOp::Write { fir: FirCode::LFBB, file_name: "new.json".into() }]
    );
}

#[test]
fn a_fir_absent_from_the_release_warns_and_continues() {
    let p = plan(&[], &[canonical(FirCode::LFBB, "new")], &[FirCode::LFBB, FirCode::LFRR]);

    assert_eq!(p.ops.len(), 1, "only the FIR that had a profile is planned");
    assert_eq!(p.ops[0].fir(), FirCode::LFBB);
    assert_eq!(p.warnings.len(), 1);
    assert!(shown(&p.warnings[0].message()).contains("LFRR"), "{:?}", p.warnings);
    assert_eq!(
        shown(&p.warnings[0].message()),
        "no LFRR profile in the published release; skipped"
    );
}

#[test]
fn planning_touches_nothing_on_disk() {
    let disk = Disk::with(&[(
        "old.json",
        r#"{"name":"LFBB Bordeaux FIR","id":"old","updateSerial":2026042301}"#,
    )]);
    let directory = Location::new("/store");
    let before = disk.text("/store/old.json");
    let listing_before = disk.listing(&directory);

    let (store, _) = disk.read_store(&directory);
    let p = plan(&store, &[canonical(FirCode::LFBB, "new")], &[FirCode::LFBB]);
    assert!(p.has_work());

    assert_eq!(listing_before, disk.listing(&directory), "plan created or removed a file");
    assert_eq!(before, disk.text("/store/old.json"), "plan modified a file");
}

#[test]
fn read_store_ignores_the_backup_subdirectory() {
    let mut disk = Disk::with(&[("live.json", r#"{"name":"LFBB","id":"live"}"#)]);
    disk.directories.insert(PathBuf::from("/store/backup"));
    disk.files.insert(
        PathBuf::from("/store/backup/old.json"),
        br#"{"name":"LFBB","id":"old"}"#.to_vec(),
    );

    let (store, _) = disk.read_store(&Location::new("/store"));
    assert_eq!(store.len(), 1);
    assert_eq!(store[0].header.id, "live");
}

#[test]
fn read_store_skips_unparseable_files_with_a_warning() {
    let disk = Disk::with(&[
        ("broken.json", "not json at all"),
        ("good.json", r#"{"name":"LFBB","id":"good"}"#),
    ]);

    let (store, warnings) = disk.read_store(&Location::new("/store"));
    assert_eq!(store.len(), 1);
    assert_eq!(store[0].header.id, "good");
    assert_eq!(warnings.len(), 1);
    let said = shown(&warnings[0].message());
    assert!(said.starts_with("ignored unreadable profile /store/broken.json: "), "{said}");
}

#[test]
fn a_missing_store_reads_as_empty() {
    let disk = Disk::with(&[]);
    let (store, warnings) = disk.read_store(&Location::new("/store").join("does-not-exist"));
    assert!(store.is_empty());
    assert!(warnings.is_empty());
}

#[test]
fn writes_the_profile_under_its_canonical_id() {
    let mut disk = Disk::with(&[]);
    let canon = vec![canonical(FirCode::LFBB, "47f4bce0")];

    let summary = disk.migrate(&canon, &[FirCode::LFBB]);

    assert_eq!(summary.profiles_written, 1);
    assert_eq!(summary.files_backed_up, 0);
    assert!(disk.is_file("/store/47f4bce0.json"));
}

#[test]
fn written_bytes_are_identical_to_the_download() {
    let mut disk = Disk::with(&[]);
    let canon = vec![canonical(FirCode::LFBB, "47f4bce0")];

    disk.migrate(&canon, &[FirCode::LFBB]);

    let written = disk.files[Path::new("/store/47f4bce0.json")].clone();
    assert_eq!(written, canon[0].bytes, "profile was rewritten, not copied");
}

#[test]
fn pre_reissue_profile_is_moved_aside_and_replaced() {
    let mut disk = Disk::with(&[(
        "149be2dc.json",
        r#"{"name":"LFBB Bordeaux FIR","id":"149be2dc","updateSerial":2026042301}"#,
    )]);
    let canon = vec![canonical(FirCode::LFBB, "47f4bce0")];

    let summary = disk.migrate(&canon, &[FirCode::LFBB]);

    assert_eq!(summary.files_backed_up, 1);
    assert_eq!(summary.profiles_written, 1);
    assert!(!disk.holds("/store/149be2dc.json"), "old profile still live");
    assert!(disk.is_file("/store/backup/149be2dc.json"));
    assert!(disk.is_file("/store/47f4bce0.json"));
}

/// The case name matching cannot distinguish. Moving instead of deleting is what keeps it
/// from destroying a controller's own work.
#[test]
fn a_hand_made_profile_survives_intact_in_backup() {
    let body = r#"{"name":"LFBB tests perso","id":"mine-0001"}"#;
    let mut disk = Disk::with(&[("mine-0001.json", body)]);
    let canon = vec![canonical(FirCode::LFBB, "47f4bce0")];

    disk.migrate(&canon, &[FirCode::LFBB]);

    let backed_up = disk.text("/store/backup/mine-0001.json");
    assert_eq!(backed_up, body, "the controller's own profile was altered");
}

#[test]
fn a_backup_name_collision_does_not_overwrite() {
    let mut disk = Disk::with(&[(
        "dup.json",
        r#"{"name":"LFBB Bordeaux FIR","id":"dup","updateSerial":2026042301}"#,
    )]);
    disk.directories.insert(PathBuf::from("/store/backup"));
    disk.files.insert(PathBuf::from("/store/backup/dup.json"), b"an earlier backup".to_vec());

    let canon = vec![canonical(FirCode::LFBB, "47f4bce0")];
    disk.migrate(&canon, &[FirCode::LFBB]);

    let first = disk.text("/store/backup/dup.json");
    assert_eq!(first, "an earlier backup", "the earlier backup was clobbered");
    assert!(disk.is_file("/store/backup/dup (2).json"));
}

/// After one migration the store is converged: vATIS's own updater takes over and there is
/// nothing left to do.
#[test]
fn a_second_run_does_nothing() {
    let mut disk = Disk::with(&[(
        "149be2dc.json",
        r#"{"name":"LFBB Bordeaux FIR","id":"149be2dc","updateSerial":2026042301}"#,
    )]);
    let canon = vec![canonical(FirCode::LFBB, "47f4bce0")];

    disk.migrate(&canon, &[FirCode::LFBB]);

    let directory = Location::new("/store");
    let (store, _) = disk.read_store(&directory);
    let second = plan(&store, &canon, &[FirCode::LFBB]);
    assert!(!second.has_work(), "second run still wants to act: {:?}", second.ops);

    let summary = disk.carry_out(&directory, &canon, &second).unwrap();
    assert_eq!(summary.profiles_written, 0);
    assert_eq!(summary.files_backed_up, 0);
}

/// The store a controller reaches after importing the new profile through vATIS's own UI:
/// current content, but under the id that was assigned there. The stale file still goes to
/// backup; nothing new is written, because a second live copy of the FIR is the one outcome
/// worse than the stale one.
#[test]
fn a_stale_copy_beside_a_locally_imported_current_one_leaves_no_duplicate() {
    let mut disk = Disk::with(&[
        (
            "149be2dc.json",
            r#"{"name":"LFBB Bordeaux FIR","id":"149be2dc","updateSerial":2026042301}"#,
        ),
        (
            "8e68da40.json",
            r#"{"name":"LFBB Bordeaux FIR","id":"8e68da40","updateSerial":2026090401}"#,
        ),
    ]);
    let canon = vec![canonical(FirCode::LFBB, "47f4bce0")];

    let summary = disk.migrate(&canon, &[FirCode::LFBB]);

    assert_eq!(summary.files_backed_up, 1);
    assert_eq!(summary.profiles_written, 0);
    assert!(disk.is_file("/store/backup/149be2dc.json"));
    assert!(disk.is_file("/store/8e68da40.json"), "the live profile was disturbed");
    assert!(!disk.holds("/store/47f4bce0.json"), "a duplicate was written");

    let (store, _) = disk.read_store(&Location::new("/store"));
    assert!(!plan(&store, &canon, &[FirCode::LFBB]).has_work(), "store has not converged");
}

/// The same store one run later, and every run after that. A profile vATIS keeps current
/// under its own id must never raise anything again.
#[test]
fn a_locally_imported_current_profile_is_left_alone() {
    let mut disk = Disk::with(&[(
        "8e68da40.json",
        r#"{"name":"LFBB Bordeaux FIR","id":"8e68da40","updateSerial":2026090401}"#,
    )]);
    let canon = vec![canonical(FirCode::LFBB, "47f4bce0")];

    let summary = disk.migrate(&canon, &[FirCode::LFBB]);

    assert_eq!(summary, VatisSummary::default());
    assert!(!disk.holds("/store/47f4bce0.json"), "a duplicate was written");
    assert!(!disk.holds("/store/backup"));
}

#[test]
fn the_store_is_created_when_absent() {
    let mut disk = Disk::default();
    let directory = Location::new("/data").join("Profiles");
    assert!(!disk.holds("/data/Profiles"));

    let canon = vec![canonical(FirCode::LFBB, "47f4bce0")];
    let (store, _) = disk.read_store(&directory);
    let decided = plan(&store, &canon, &[FirCode::LFBB]);
    disk.carry_out(&directory, &canon, &decided).unwrap();

    assert!(disk.holds("/data/Profiles"));
    assert!(disk.is_file("/data/Profiles/47f4bce0.json"));
}

#[test]
fn only_in_scope_firs_are_touched() {
    let mut disk = Disk::with(&[(
        "old-lfmm.json",
        r#"{"name":"LFMM Marseille FIR","id":"old-lfmm","updateSerial":2026042301}"#,
    )]);
    let canon = vec![canonical(FirCode::LFBB, "new-lfbb"), canonical(FirCode::LFMM, "new-lfmm")];

    // Only LFBB was installed this run.
    let summary = disk.migrate(&canon, &[FirCode::LFBB]);

    assert_eq!(summary.files_backed_up, 0);
    assert!(disk.is_file("/store/old-lfmm.json"), "out-of-scope FIR was touched");
    assert!(!disk.holds("/store/new-lfmm.json"));
    assert!(disk.is_file("/store/new-lfbb.json"));
}

#[test]
fn nothing_is_created_when_the_plan_is_inert() {
    let mut disk = Disk::default();
    let directory = Location::new("/data").join("Profiles");

    let summary = disk.carry_out(&directory, &[], &VatisPlan::default()).unwrap();

    assert_eq!(summary, VatisSummary::default());
    assert!(!disk.holds("/data/Profiles"), "an inert plan created the store");
}

#[test]
fn a_run_asks_for_one_thing_after_another() {
    let old = stored("/store/old.json", r#"{"name":"LFBB","id":"old"}"#);
    let canon = vec![canonical(FirCode::LFBB, "new")];
    let decided = plan(&[old], &canon, &[FirCode::LFBB]);
    let store = Location::new("/store");
    let backup = store.join("backup");

    let run = apply(&store, &canon, &decided);
    assert_eq!(run.action(), Action::CreateDirectory { path: store.clone() });
    let run = run.advance(Event::Done);
    assert_eq!(run.action(), Action::CreateDirectory { path: backup.clone() });
    let run = run.advance(Event::Done);
    assert_eq!(run.action(), Action::Probe { path: backup.join("old.json") });
    let run = run.advance(Event::Present);
    assert_eq!(run.action(), Action::Probe { path: backup.join("old (2).json") });
    let run = run.advance(Event::Present);
    assert_eq!(run.action(), Action::Probe { path: backup.join("old (3).json") });
    let run = run.advance(Event::Absent);
    assert_eq!(
        run.action(),
        Action::Move { from: Location::new("/store/old.json"), to: backup.join("old (3).json") }
    );
    let run = run.advance(Event::Done);
    assert_eq!(run.action(), Action::Write { destination: store.join("new.json"), profile: 0 });
    let run = run.advance(Event::Done);
    assert_eq!(run.action(), Action::Stop);
    let summary = run.outcome().unwrap().unwrap();
    assert_eq!((summary.profiles_written, summary.files_backed_up), (1, 1));
    assert!(summary.warnings.is_empty());
}

#[test]
fn a_run_that_goes_on_has_no_outcome() {
    let canon = vec![canonical(FirCode::LFBB, "new")];
    let decided = plan(&[], &canon, &[FirCode::LFBB]);
    assert!(apply(&Location::new("/store"), &canon, &decided).outcome().is_none());
}

#[test]
fn numbers_in_backup_names_carry_over() {
    let old = stored("/store/old.json", r#"{"name":"LFBB","id":"old"}"#);
    let canon = vec![canonical(FirCode::LFBB, "new")];
    let decided = plan(&[old], &canon, &[FirCode::LFBB]);
    let backup = Location::new("/store").join("backup");

    let mut run = apply(&Location::new("/store"), &canon, &decided);
    run = run.advance(Event::Done);
    run = run.advance(Event::Done);
    for n in 1..=111 {
        let name = if n == 1 { "old.json".to_string() } else { format!("old ({n}).json") };
        assert_eq!(run.action(), Action::Probe { path: backup.join(&name) });
        run = run.advance(Event::Present);
    }
}

#[test]
fn a_number_goes_in_front_of_the_extension() {
    for (name, second) in [
        ("a.b.json", "a.b (2).json"),
        ("noext", "noext (2)"),
        (".hidden", ".hidden (2)"),
        ("trailing.", "trailing (2)."),
    ] {
        let old = stored(&format!("/store/{name}"), r#"{"name":"LFBB","id":"old"}"#);
        let canon = vec![canonical(FirCode::LFBB, "new")];
        let decided = plan(&[old], &canon, &[FirCode::LFBB]);
        let backup = Location::new("/store").join("backup");
        let run = apply(&Location::new("/store"), &canon, &decided)
            .advance(Event::Done)
            .advance(Event::Done)
            .advance(Event::Present);
        assert_eq!(run.action(), Action::Probe { path: backup.join(second) });
    }
}

#[test]
fn a_file_that_cannot_be_moved_is_reported_and_the_replacement_still_lands() {
    let mut disk = Disk::with(&[
        ("a.json", r#"{"name":"LFBB","id":"a"}"#),
        ("b.json", r#"{"name":"LFBB","id":"b"}"#),
    ]);
    disk.refused.insert(PathBuf::from("/store/a.json"));
    let canon = vec![canonical(FirCode::LFBB, "new")];

    let summary = disk.migrate(&canon, &[FirCode::LFBB]);

    assert_eq!((summary.profiles_written, summary.files_backed_up), (1, 1));
    assert_eq!(
        summary.warnings,
        vec![Warning::NotBackedUp {
            path: in_store("a.json"),
            fault: BackupFault::Moving { reason: "permission denied".to_string() },
        }]
    );
    assert_eq!(
        shown(&summary.warnings[0].message()),
        "could not back up /store/a.json: permission denied"
    );
    assert!(disk.is_file("/store/a.json"));
    assert!(disk.is_file("/store/backup/b.json"));
    assert!(disk.is_file("/store/new.json"));
}

#[test]
fn a_backup_directory_that_cannot_be_created_is_reported() {
    let mut disk = Disk::with(&[("a.json", r#"{"name":"LFBB","id":"a"}"#)]);
    disk.refused.insert(PathBuf::from("/store/backup"));
    let canon = vec![canonical(FirCode::LFBB, "new")];

    let summary = disk.migrate(&canon, &[FirCode::LFBB]);

    assert_eq!((summary.profiles_written, summary.files_backed_up), (1, 0));
    assert_eq!(
        shown(&summary.warnings[0].message()),
        "could not back up /store/a.json: creating /store/backup"
    );
}

/// A superseded path may be given whole, or with more than a name joined to the store.
#[test]
fn a_superseded_path_is_backed_up_under_its_file_name() {
    for path in [
        Location::new("/store/old.json"),
        Location::new("/store").join("old.json"),
        Location::new("/").join("store/old.json"),
        Location::new("/store").join("old.json").join("."),
    ] {
        let mut disk = Disk::with(&[("old.json", r#"{"name":"LFBB","id":"old"}"#)]);
        let header = parse_header(br#"{"name":"LFBB","id":"old"}"#).unwrap();
        let canon = vec![canonical(FirCode::LFBB, "new")];
        let decided = plan(&[StoredProfile { path, header }], &canon, &[FirCode::LFBB]);
        let summary = disk.carry_out(&Location::new("/store"), &canon, &decided).unwrap();
        assert_eq!((summary.profiles_written, summary.files_backed_up), (1, 1));
        assert!(summary.warnings.is_empty());
        assert!(disk.is_file("/store/backup/old.json"));
        assert!(!disk.holds("/store/old.json"));
    }
}

/// The file name that is looked for in the backup directory is the platform's.
#[test]
fn a_run_goes_by_the_paths_of_its_platform() {
    let old = stored("C:\\store\\old.json", r#"{"name":"LFBB","id":"old"}"#);
    let canon = vec![canonical(FirCode::LFBB, "new")];
    let decided = plan(&[old], &canon, &[FirCode::LFBB]);
    let store = Location::new("C:\\store");
    for (platform, name) in
        [(Platform::Windows, "old.json"), (Platform::MacOs, "C:\\store\\old.json")]
    {
        let run = apply_for(platform, &store, &canon, &decided)
            .advance(Event::Done)
            .advance(Event::Done);
        assert_eq!(run.action(), Action::Probe { path: store.join("backup").join(name) });
    }
}

/// What is only the prefix of a path is reported, and neither probed nor moved.
#[test]
fn a_network_share_has_no_file_name() {
    let old = stored("\\\\server\\share", r#"{"name":"LFBB","id":"old"}"#);
    let canon = vec![canonical(FirCode::LFBB, "new")];
    let decided = plan(&[old.clone()], &canon, &[FirCode::LFBB]);
    let store = Location::new("C:\\store");
    let run = apply_for(Platform::Windows, &store, &canon, &decided)
        .advance(Event::Done)
        .advance(Event::Done);
    assert_eq!(run.action(), Action::Write { destination: store.join("new.json"), profile: 0 });
    let summary = run.advance(Event::Done).outcome().unwrap().unwrap();
    assert_eq!(
        summary.warnings,
        vec![Warning::NotBackedUp { path: old.path, fault: BackupFault::NoFileName }]
    );
}

/// A file is left alone where its region is not published, or where it is not named like a
/// profile.
#[test]
fn only_profiles_of_published_regions_are_moved() {
    let mut disk = Disk::with(&[
        ("lfmm.json", r#"{"name":"LFMM","id":"m"}"#),
        ("lfbb.txt", r#"{"name":"LFBB","id":"b"}"#),
    ]);
    let canon = vec![canonical(FirCode::LFBB, "new")];
    let summary = disk.migrate(&canon, &[FirCode::LFBB, FirCode::LFMM]);
    assert_eq!((summary.profiles_written, summary.files_backed_up), (1, 0));
    assert!(disk.is_file("/store/lfmm.json"));
    assert!(disk.is_file("/store/lfbb.txt"));
}

/// Of two operations that write under one name, the later one counts.
#[test]
fn the_last_operation_that_writes_a_name_counts() {
    let mut disk = Disk::with(&[]);
    let canon = vec![canonical(FirCode::LFBB, "same"), canonical(FirCode::LFEE, "same")];
    disk.migrate(&canon, &[FirCode::LFBB, FirCode::LFEE]);
    assert_eq!(disk.files[Path::new("/store/same.json")], canon[1].bytes);
}

/// Also where a backup fails, the published profile is written and the rest left alone.
#[test]
fn a_failed_backup_keeps_nothing_else_from_being_done() {
    let own = r#"{"name":"EDGG","id":"own"}"#;
    let mut disk = Disk::with(&[
        ("a.json", r#"{"name":"LFBB","id":"a"}"#),
        ("own.json", own),
    ]);
    disk.refused.insert(PathBuf::from("/store/backup"));
    let canon = vec![canonical(FirCode::LFBB, "new")];
    let summary = disk.migrate(&canon, &[FirCode::LFBB]);
    assert_eq!(summary.warnings.len(), 1);
    assert_eq!(disk.files[Path::new("/store/new.json")], canon[0].bytes);
    assert_eq!(disk.text("/store/own.json"), own);
}

#[test]
fn a_superseded_path_without_a_file_name_is_reported() {
    let mut disk = Disk::with(&[]);
    let nameless = StoredProfile {
        path: Location::new("/"),
        header: parse_header(br#"{"name":"LFBB","id":"a"}"#).unwrap(),
    };
    let canon = vec![canonical(FirCode::LFBB, "new")];
    let decided = plan(&[nameless], &canon, &[FirCode::LFBB]);

    let summary = disk.carry_out(&Location::new("/store"), &canon, &decided).unwrap();

    assert_eq!((summary.profiles_written, summary.files_backed_up), (1, 0));
    assert_eq!(
        shown(&summary.warnings[0].message()),
        "could not back up /: superseded profile has no file name"
    );
}

#[test]
fn a_store_that_cannot_be_created_ends_the_run() {
    let mut disk = Disk::default();
    disk.refused.insert(PathBuf::from("/store"));
    let canon = vec![canonical(FirCode::LFBB, "new")];
    let decided = plan(&[], &canon, &[FirCode::LFBB]);

    let error = disk.carry_out(&Location::new("/store"), &canon, &decided).unwrap_err();

    assert_eq!(
        error,
        ApplyError::CreatingStore {
            path: Location::new("/store"),
            reason: "permission denied".to_string(),
        }
    );
    assert_eq!(shown(&error.message()), "creating profile store /store");
    assert!(disk.files.is_empty());
}

#[test]
fn a_profile_that_cannot_be_written_ends_the_run() {
    let mut disk = Disk::with(&[]);
    disk.refused.insert(PathBuf::from("/store/b.json"));
    let canon = vec![
        canonical(FirCode::LFBB, "a"),
        canonical(FirCode::LFEE, "b"),
        canonical(FirCode::LFFF, "c"),
    ];
    let decided = plan(&[], &canon, &[FirCode::LFBB, FirCode::LFEE, FirCode::LFFF]);

    let error = disk.carry_out(&Location::new("/store"), &canon, &decided).unwrap_err();

    assert_eq!(
        error,
        ApplyError::Writing { path: in_store("b.json"), reason: "permission denied".to_string() }
    );
    assert_eq!(shown(&error.message()), "writing /store/b.json");
    assert!(disk.is_file("/store/a.json"));
    assert!(!disk.is_file("/store/c.json"));
}

#[test]
fn a_profile_that_was_not_downloaded_is_reported() {
    let mut disk = Disk::with(&[]);
    let canon = vec![canonical(FirCode::LFBB, "a")];
    let decided = plan(&[], &canon, &[FirCode::LFBB]);

    let summary = disk.carry_out(&Location::new("/store"), &[], &decided).unwrap();

    assert_eq!(summary.profiles_written, 0);
    assert_eq!(summary.warnings, vec![Warning::NotDownloaded { fir: FirCode::LFBB }]);
    assert_eq!(shown(&summary.warnings[0].message()), "no downloaded LFBB profile to write");
}

#[test]
fn what_was_done_starts_with_the_warnings_of_the_plan() {
    let mut disk = Disk::with(&[]);
    let canon = vec![canonical(FirCode::LFBB, "a")];
    let decided = plan(&[], &canon, &[FirCode::LFRR, FirCode::LFBB]);
    let mut summary = disk.carry_out(&Location::new("/store"), &canon, &decided).unwrap();
    let unreadable =
        Warning::Unreadable { path: in_store("x.json"), reason: "no json".to_string() };
    summary.extend_warnings(vec![unreadable.clone()]);

    assert_eq!(summary.profiles_written, 1);
    assert_eq!(summary.warnings, vec![Warning::Unpublished { fir: FirCode::LFRR }, unreadable]);
}

#[test]
fn the_first_published_profile_of_a_region_counts() {
    let mut disk = Disk::with(&[]);
    let canon = vec![canonical(FirCode::LFBB, "first"), canonical(FirCode::LFBB, "second")];
    disk.migrate(&canon, &[FirCode::LFBB]);
    assert!(disk.is_file("/store/first.json"));
    assert!(!disk.holds("/store/second.json"));
}

/// Nothing is lost, whatever happens: what was in the store is there still or in backup.
#[test]
fn everything_is_kept_somewhere() {
    let mine = r#"{"name":"LFBB mine","id":"one"}"#;
    let mut disk = Disk::with(&[
        ("one.json", mine),
        ("two.json", r#"{"name":"LFMM","id":"two"}"#),
        ("notes.txt", "notes"),
        ("other.json", r#"{"name":"EDGG","id":"other"}"#),
    ]);
    let canon = vec![canonical(FirCode::LFBB, "a"), canonical(FirCode::LFMM, "b")];
    let summary = disk.migrate(&canon, &FirCode::ALL);

    assert_eq!((summary.profiles_written, summary.files_backed_up), (2, 2));
    assert_eq!(summary.warnings.len(), 3);
    assert_eq!(disk.text("/store/backup/one.json"), mine);
    assert!(disk.is_file("/store/backup/two.json"));
    assert_eq!(disk.text("/store/notes.txt"), "notes");
    assert!(disk.is_file("/store/other.json"));
}

#[test]
fn every_region_is_planned_or_warned_about() {
    let canon = vec![canonical(FirCode::LFBB, "a"), canonical(FirCode::LFMM, "b")];
    let p = plan(&[], &canon, &FirCode::ALL);
    assert_eq!(p.ops.len() + p.warnings.len(), 5);
    assert!(p.ops.iter().all(|op| op.is_actionable()));
    assert!(!plan(&[], &canon, &[]).has_work());
    assert!(!ProfileOp::Skip { fir: FirCode::LFBB }.is_actionable());
    assert_eq!(canon[0].file_name(), "a.json");
}

#[test]
fn the_order_of_a_listing_does_not_matter() {
    let names = ["b.json", "B.JSON", "a.json", "é.json", "a (2).json", "aa.json", "Z.json"];
    let entries = |order: &[&str]| -> Option<Vec<DirectoryEntry>> {
        Some(
            order
                .iter()
                .map(|name| DirectoryEntry { name: name.to_string(), is_file: true })
                .collect(),
        )
    };
    let mut reversed = names;
    reversed.reverse();
    let directory = Location::new("/store");
    let files = store_files(&directory, entries(&names));
    assert_eq!(files, store_files(&directory, entries(&reversed)));

    let mut expected: Vec<PathBuf> =
        names.iter().map(|name| Path::new("/store").join(name)).collect();
    expected.sort();
    assert_eq!(files.iter().map(native).collect::<Vec<_>>(), expected);
}

#[test]
fn only_files_named_like_profiles_are_read() {
    let entries = vec![
        DirectoryEntry { name: "a.json".to_string(), is_file: true },
        DirectoryEntry { name: "b.JsOn".to_string(), is_file: true },
        DirectoryEntry { name: "c.json".to_string(), is_file: false },
        DirectoryEntry { name: ".json".to_string(), is_file: true },
        DirectoryEntry { name: "json".to_string(), is_file: true },
        DirectoryEntry { name: "d.json.bak".to_string(), is_file: true },
        DirectoryEntry { name: "e.jsonx".to_string(), is_file: true },
        DirectoryEntry { name: "f.".to_string(), is_file: true },
        DirectoryEntry { name: "..json".to_string(), is_file: true },
    ];
    let files = store_files(&Location::new("/store"), Some(entries));
    let names: Vec<String> =
        files.iter().map(|file| file.file_name(Platform::host()).unwrap()).collect();
    assert_eq!(names, vec!["..json", "a.json", "b.JsOn"]);
    assert!(store_files(&Location::new("/store"), None).is_empty());
}

#[test]
fn every_file_read_is_a_profile_or_warned_about() {
    let good = parse_header(br#"{"name":"LFBB","id":"good"}"#).unwrap();
    let files = vec![
        FileRead { path: in_store("a.json"), header: Err("no json".to_string()) },
        FileRead { path: in_store("b.json"), header: Ok(good.clone()) },
        FileRead { path: in_store("c.json"), header: Err("gone".to_string()) },
    ];
    let (profiles, warnings) = collect_store(files);
    assert_eq!(profiles.len(), 1);
    assert_eq!(profiles[0].path, in_store("b.json"));
    assert_eq!(profiles[0].header, good);
    assert_eq!(shown(&warnings[0].message()), "ignored unreadable profile /store/a.json: no json");
    assert_eq!(shown(&warnings[1].message()), "ignored unreadable profile /store/c.json: gone");
}
