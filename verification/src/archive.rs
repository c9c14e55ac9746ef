//! Reading the published profiles out of a release archive.

use crate::fir::FirCode;
use crate::plan::{CanonicalProfile, Published};
use crate::profile::{Header, ProfileHeader};
use crate::text;
use crate::text::Separators;
use crate::views::{lemma_filter_map_remove, lemma_views_push, views};
use std::io::{Cursor, Read};
use vstd::prelude::*;
use zip::result::ZipError;
use zip::ZipArchive;

verus! {

/// `zip::ZipArchive`, an opened archive.
#[verifier::external_type_specification]
#[verifier::external_body]
#[verifier::reject_recursive_types(R)]
pub struct ExZipArchive<R>(zip::ZipArchive<R>);

/// `zip::result::ZipError`, why an archive or an entry cannot be read.
#[verifier::external_type_specification]
#[verifier::external_body]
pub struct ExZipError(zip::result::ZipError);

/// `std::io::Cursor`, bytes to be read at any position.
#[verifier::external_type_specification]
#[verifier::external_body]
#[verifier::reject_recursive_types(T)]
pub struct ExCursor<T>(std::io::Cursor<T>);

/// What an opened archive holds, entry by entry, in the order of its directory: the name
/// of the entry with its contents, or with `None` where these cannot be read; `None` for an
/// entry that cannot be opened.
pub uninterp spec fn archive_entries(archive: ZipArchive<Cursor<&[u8]>>) -> Seq<
    Option<(Seq<char>, Option<Seq<u8>>)>,
>;

/// What the archive made of these bytes holds; `None` when they are no archive.
pub uninterp spec fn zip_contents(bytes: Seq<u8>) -> Option<
    Seq<Option<(Seq<char>, Option<Seq<u8>>)>>,
>;

/// Whether an entry of this name is a directory: its name ends in a slash or a backslash.
pub open spec fn names_directory(name: Seq<char>) -> bool {
    name.len() > 0 && Separators::Both.part_at(name.last())
}

/// `zip::ZipArchive::new` on a cursor over `bytes`: whether they can be opened as an
/// archive, and what it then holds, depends on the bytes alone.
#[verifier::external_body]
fn open_archive(bytes: &[u8]) -> (r: Result<ZipArchive<Cursor<&[u8]>>, ZipError>)
    ensures
        match r {
            Ok(archive) => zip_contents(bytes@) == Some(archive_entries(archive)),
            Err(_) => zip_contents(bytes@) is None,
        },
{
    ZipArchive::new(Cursor::new(bytes))
}

/// `zip::ZipArchive::len`: how many entries the archive holds.
#[verifier::external_body]
fn entry_count(archive: &ZipArchive<Cursor<&[u8]>>) -> (r: usize)
    ensures
        r == archive_entries(*archive).len(),
{
    archive.len()
}

/// `zip::ZipArchive::by_index`, then `name` and `is_dir` of the entry: what the entry is
/// called, and whether it is a directory, which its name alone decides. Opening an entry
/// does not change what the archive holds.
#[verifier::external_body]
fn entry_head(archive: &mut ZipArchive<Cursor<&[u8]>>, index: usize) -> (r: Result<
    (String, bool),
    ZipError,
>)
    requires
        index < archive_entries(*old(archive)).len(),
    ensures
        archive_entries(*final(archive)) == archive_entries(*old(archive)),
        match r {
            Ok((name, is_dir)) => {
                &&& archive_entries(*old(archive))[index as int] is Some
                &&& (archive_entries(*old(archive))[index as int]->0).0 == name@
                &&& is_dir == names_directory(name@)
            },
            Err(_) => archive_entries(*old(archive))[index as int] is None,
        },
{
    let entry = archive.by_index(index)?;
    Ok((entry.name().to_string(), entry.is_dir()))
}

/// `zip::ZipArchive::by_index`, then `read_to_end` of the entry: its contents, all of them.
/// It is asked of an entry that can be opened. Reading does not change what the archive
/// holds.
#[verifier::external_body]
fn entry_bytes(archive: &mut ZipArchive<Cursor<&[u8]>>, index: usize) -> (r: Result<
    Vec<u8>,
    ZipError,
>)
    requires
        index < archive_entries(*old(archive)).len(),
        archive_entries(*old(archive))[index as int] is Some,
    ensures
        archive_entries(*final(archive)) == archive_entries(*old(archive)),
        match r {
            Ok(bytes) => (archive_entries(*old(archive))[index as int]->0).1 == Some(bytes@),
            Err(_) => (archive_entries(*old(archive))[index as int]->0).1 is None,
        },
{
    let mut bytes = Vec::new();
    archive.by_index(index)?.read_to_end(&mut bytes)?;
    Ok(bytes)
}

/// Why no profiles could be had from a release archive.
#[derive(Debug)]
pub enum ArchiveError {
    /// The bytes cannot be opened as an archive.
    Opening { error: ZipError },
    /// An entry of the archive cannot be opened.
    Entry { error: ZipError },
    /// The contents of a profile cannot be read.
    Reading { error: ZipError },
    /// The archive holds no recognisable profile.
    NoProfiles,
}

impl ArchiveError {
    /// What the error is in the library's own words; empty where the archive's own error
    /// says it all.
    pub open spec fn context(&self) -> Seq<char> {
        match self {
            ArchiveError::Opening { .. } => "reading the vatis-profiles release archive"@,
            ArchiveError::Entry { .. } => ""@,
            ArchiveError::Reading { .. } => ""@,
            ArchiveError::NoProfiles => {
                "the vatis-profiles release archive contained no recognisable profiles"@
            },
        }
    }

    /// What the error is in the library's own words; empty where the archive's own error
    /// says it all.
    pub fn message(&self) -> (r: &'static str)
        ensures
            r@ == self.context(),
    {
        match self {
            ArchiveError::Opening { .. } => "reading the vatis-profiles release archive",
            ArchiveError::Entry { .. } => "",
            ArchiveError::Reading { .. } => "",
            ArchiveError::NoProfiles => {
                "the vatis-profiles release archive contained no recognisable profiles"
            },
        }
    }
}

/// The first region, in the order of [`FirCode::ALL`], whose code stands in `s`.
pub open spec fn first_region_in(s: Seq<char>) -> Option<FirCode> {
    if text::occurs(s, FirCode::LFBB.code()) {
        Some(FirCode::LFBB)
    } else if text::occurs(s, FirCode::LFEE.code()) {
        Some(FirCode::LFEE)
    } else if text::occurs(s, FirCode::LFFF.code()) {
        Some(FirCode::LFFF)
    } else if text::occurs(s, FirCode::LFMM.code()) {
        Some(FirCode::LFMM)
    } else if text::occurs(s, FirCode::LFRR.code()) {
        Some(FirCode::LFRR)
    } else {
        None
    }
}

/// The region of a published profile: the one that the name of its file tells, and only
/// where that tells none, the one that its own name tells.
pub open spec fn region_of(file_name: Seq<char>, profile_name: Seq<char>) -> Option<FirCode> {
    match first_region_in(text::capitals(file_name)) {
        Some(fir) => Some(fir),
        None => first_region_in(text::capitals(profile_name)),
    }
}

/// The first region whose code stands in `s`, in whatever case.
fn first_region(s: &str) -> (r: Option<FirCode>)
    ensures
        r == first_region_in(text::capitals(s@)),
{
    let ghost searched = text::capitals(s@);
    let mut i: usize = 0;
    while i < 5
        invariant
            i <= 5,
            searched == text::capitals(s@),
            forall|j: int|
                0 <= j < i ==> !text::occurs(searched, #[trigger] FirCode::ALL@[j].code()),
        decreases 5 - i,
    {
        let fir = FirCode::ALL[i];
        if text::mentions(s, fir.as_str()) {
            proof {
                lemma_first_region(searched, i as int);
            }
            return Some(fir);
        }
        i = i + 1;
    }
    proof {
        assert(!text::occurs(searched, FirCode::ALL@[0].code()));
        assert(!text::occurs(searched, FirCode::ALL@[1].code()));
        assert(!text::occurs(searched, FirCode::ALL@[2].code()));
        assert(!text::occurs(searched, FirCode::ALL@[3].code()));
        assert(!text::occurs(searched, FirCode::ALL@[4].code()));
    }
    None
}

/// Which FIR a published profile file belongs to.
///
/// Upstream names them `vATIS Profile - <FIR>.json`, so the code is in the file name. Falls
/// back to the profile's own `name` field, which carries the code too: belt and braces
/// against an upstream rename.
pub fn fir_of(file_name: &str, profile_name: &str) -> (r: Option<FirCode>)
    ensures
        r == region_of(file_name@, profile_name@),
{
    match first_region(file_name) {
        Some(fir) => Some(fir),
        None => first_region(profile_name),
    }
}

/// The region at `i` is the first whose code stands in `s`, when none before it does.
proof fn lemma_first_region(s: Seq<char>, i: int)
    requires
        0 <= i < 5,
        text::occurs(s, FirCode::ALL@[i].code()),
        forall|j: int| 0 <= j < i ==> !text::occurs(s, #[trigger] FirCode::ALL@[j].code()),
    ensures
        first_region_in(s) == Some(FirCode::ALL@[i]),
{
    assert(0 < i ==> !text::occurs(s, FirCode::ALL@[0].code()));
    assert(1 < i ==> !text::occurs(s, FirCode::ALL@[1].code()));
    assert(2 < i ==> !text::occurs(s, FirCode::ALL@[2].code()));
    assert(3 < i ==> !text::occurs(s, FirCode::ALL@[3].code()));
}

/// A file out of an archive that may be a profile.
#[derive(Debug, Clone, PartialEq, Eq)]
pub struct ArchiveFile {
    /// The last segment of the name of its entry.
    pub file_name: String,
    pub bytes: Vec<u8>,
}

/// What an [`ArchiveFile`] says.
pub struct Extracted {
    pub file_name: Seq<char>,
    pub bytes: Seq<u8>,
}

impl View for ArchiveFile {
    type V = Extracted;

    open spec fn view(&self) -> Extracted {
        Extracted { file_name: self.file_name@, bytes: self.bytes@ }
    }
}

/// Whether an entry of this name may be a profile: it is no directory, and the last segment
/// of its name ends in `.json`, in whatever case.
pub open spec fn may_be_profile(name: Seq<char>) -> bool {
    &&& !names_directory(name)
    &&& text::ends_in(text::smalls(text::last_segment(name, Separators::Both)), ".json"@)
}

/// Whether the archive cannot be read on account of this entry: it cannot be opened, or it
/// may be a profile and its contents cannot be read.
pub open spec fn is_broken(entry: Option<(Seq<char>, Option<Seq<u8>>)>) -> bool {
    match entry {
        None => true,
        Some((name, contents)) => may_be_profile(name) && contents is None,
    }
}

/// The file that an entry gives, if it may be a profile.
pub open spec fn extracted(entry: Option<(Seq<char>, Option<Seq<u8>>)>) -> Option<Extracted> {
    match entry {
        Some((name, Some(bytes))) => if may_be_profile(name) {
            Some(Extracted { file_name: text::last_segment(name, Separators::Both), bytes })
        } else {
            None
        },
        _ => None,
    }
}

/// The files of an archive that may be profiles, in order.
pub open spec fn extracted_files(
    entries: Seq<Option<(Seq<char>, Option<Seq<u8>>)>>,
) -> Seq<Extracted> {
    entries.filter_map(|entry: Option<(Seq<char>, Option<Seq<u8>>)>| extracted(entry))
}

/// Whether the archive breaks off at the entry at `i`: it is the first that is broken.
pub open spec fn breaks_at(
    entries: Seq<Option<(Seq<char>, Option<Seq<u8>>)>>,
    i: int,
) -> bool {
    &&& 0 <= i < entries.len()
    &&& is_broken(entries[i])
    &&& forall|j: int| 0 <= j < i ==> !is_broken(#[trigger] entries[j])
}

/// Whether `error` is why the archive of these bytes cannot be read.
pub open spec fn fails_with(bytes: Seq<u8>, error: ArchiveError) -> bool {
    match zip_contents(bytes) {
        None => error is Opening,
        Some(entries) => exists|i: int| #[trigger]
            breaks_at(entries, i) && if entries[i] is None {
                error is Entry
            } else {
                error is Reading
            },
    }
}

/// Whether the archive of these bytes can be read: it can be opened, and no entry is broken.
pub open spec fn is_readable(bytes: Seq<u8>) -> bool {
    match zip_contents(bytes) {
        None => false,
        Some(entries) => forall|i: int|
            0 <= i < entries.len() ==> !is_broken(#[trigger] entries[i]),
    }
}

/// The files of a release archive that may be profiles, in the order of its directory.
pub fn archive_files(bytes: &[u8]) -> (r: Result<Vec<ArchiveFile>, ArchiveError>)
    ensures
        match r {
            Ok(files) => is_readable(bytes@) && views(files@) == extracted_files(
                zip_contents(bytes@)->0,
            ),
            Err(error) => fails_with(bytes@, error),
        },
{
    let mut archive = match open_archive(bytes) {
        Ok(archive) => archive,
        Err(error) => return Err(ArchiveError::Opening { error }),
    };
    let ghost entries = archive_entries(archive);
    let ghost file_of = |entry: Option<(Seq<char>, Option<Seq<u8>>)>| extracted(entry);
    let count: usize = entry_count(&archive);
    let mut files: Vec<ArchiveFile> = Vec::new();
    let mut i: usize = 0;
    proof {
        assert(views(files@) =~= entries.take(0).filter_map(file_of));
    }
    while i < count
        invariant
            i <= count,
            count == entries.len(),
            zip_contents(bytes@) == Some(entries),
            archive_entries(archive) == entries,
            file_of == (|entry: Option<(Seq<char>, Option<Seq<u8>>)>| extracted(entry)),
            forall|j: int| 0 <= j < i ==> !is_broken(#[trigger] entries[j]),
            views(files@) == entries.take(i as int).filter_map(file_of),
        decreases count - i,
    {
        proof {
            entries.lemma_filter_map_take_succ(file_of, i as int);
        }
        let (name, is_dir) = match entry_head(&mut archive, i) {
            Ok(head) => head,
            Err(error) => {
                proof {
                    assert(breaks_at(entries, i as int));
                }
                return Err(ArchiveError::Entry { error });
            },
        };
        if !is_dir {
            let file_name = text::last_segment_of(name.as_str(), Separators::Both);
            if text::ends_in_small(file_name.as_str(), ".json") {
                let contents = match entry_bytes(&mut archive, i) {
                    Ok(contents) => contents,
                    Err(error) => {
                        proof {
                            assert(breaks_at(entries, i as int));
                        }
                        return Err(ArchiveError::Reading { error });
                    },
                };
                let file = ArchiveFile { file_name, bytes: contents };
                proof {
                    lemma_views_push(files@, file);
                }
                files.push(file);
            }
        }
        i = i + 1;
    }
    proof {
        assert(entries.take(entries.len() as int) == entries);
    }
    Ok(files)
}

/// A file out of an archive, after its header was read.
#[derive(Debug, Clone, PartialEq, Eq)]
pub struct ParsedFile {
    pub file_name: String,
    pub bytes: Vec<u8>,
    /// Its header; `None` when it is no profile document.
    pub header: Option<ProfileHeader>,
}

/// What a [`ParsedFile`] says.
pub struct Parsed {
    pub file_name: Seq<char>,
    pub bytes: Seq<u8>,
    pub header: Option<Header>,
}

/// What a header says, if there is one.
pub open spec fn header_of(header: Option<ProfileHeader>) -> Option<Header> {
    match header {
        Some(header) => Some(header@),
        None => None,
    }
}

impl View for ParsedFile {
    type V = Parsed;

    open spec fn view(&self) -> Parsed {
        Parsed {
            file_name: self.file_name@,
            bytes: self.bytes@,
            header: header_of(self.header),
        }
    }
}

/// The profile that a file holds, if it has a header and a region can be told.
pub open spec fn published(file: Parsed) -> Option<Published> {
    match file.header {
        Some(header) => match region_of(file.file_name, header.name) {
            Some(fir) => Some(Published { fir, header, bytes: file.bytes }),
            None => None,
        },
        None => None,
    }
}

/// The profiles that the files hold, in order.
pub open spec fn published_profiles(files: Seq<Parsed>) -> Seq<Published> {
    files.filter_map(|file: Parsed| published(file))
}

/// The profiles of one region, in order.
pub open spec fn profiles_of(profiles: Seq<Published>, fir: FirCode) -> Seq<Published> {
    profiles.filter(|profile: Published| profile.fir == fir)
}

/// The profiles region by region, in the order of [`FirCode::ALL`]; those of one region stay
/// in their order.
pub open spec fn by_fir(profiles: Seq<Published>) -> Seq<Published> {
    profiles_of(profiles, FirCode::LFBB) + profiles_of(profiles, FirCode::LFEE) + profiles_of(
        profiles,
        FirCode::LFFF,
    ) + profiles_of(profiles, FirCode::LFMM) + profiles_of(profiles, FirCode::LFRR)
}

/// The profiles of one region after one more profile.
proof fn lemma_profiles_of_push(profiles: Seq<Published>, profile: Published, fir: FirCode)
    ensures
        profiles_of(profiles.push(profile), fir) == if profile.fir == fir {
            profiles_of(profiles, fir).push(profile)
        } else {
            profiles_of(profiles, fir)
        },
{
    reveal(Seq::filter);
    assert(profiles.push(profile).drop_last() =~= profiles);
}

/// The profiles region by region, in the order of [`FirCode::ALL`].
fn sort_by_fir(profiles: Vec<CanonicalProfile>) -> (r: Vec<CanonicalProfile>)
    ensures
        views(r@) == by_fir(views(profiles@)),
{
    let ghost all = views(profiles@);
    let mut lfbb: Vec<CanonicalProfile> = Vec::new();
    let mut lfee: Vec<CanonicalProfile> = Vec::new();
    let mut lfff: Vec<CanonicalProfile> = Vec::new();
    let mut lfmm: Vec<CanonicalProfile> = Vec::new();
    let mut lfrr: Vec<CanonicalProfile> = Vec::new();
    proof {
        reveal(Seq::filter);
        assert(views(lfbb@) =~= Seq::empty());
        assert(all.take(0) =~= Seq::empty());
    }
    for profile in iter: profiles
        invariant
            iter.seq() == profiles@,
            all == views(profiles@),
            views(lfbb@) == profiles_of(all.take(iter.index() as int), FirCode::LFBB),
            views(lfee@) == profiles_of(all.take(iter.index() as int), FirCode::LFEE),
            views(lfff@) == profiles_of(all.take(iter.index() as int), FirCode::LFFF),
            views(lfmm@) == profiles_of(all.take(iter.index() as int), FirCode::LFMM),
            views(lfrr@) == profiles_of(all.take(iter.index() as int), FirCode::LFRR),
    {
        proof {
            let taken = all.take(iter.index() as int);
            assert(all.take(iter.index() + 1) =~= taken.push(profile@));
            lemma_profiles_of_push(taken, profile@, FirCode::LFBB);
            lemma_profiles_of_push(taken, profile@, FirCode::LFEE);
            lemma_profiles_of_push(taken, profile@, FirCode::LFFF);
            lemma_profiles_of_push(taken, profile@, FirCode::LFMM);
            lemma_profiles_of_push(taken, profile@, FirCode::LFRR);
            lemma_views_push(lfbb@, profile);
            lemma_views_push(lfee@, profile);
            lemma_views_push(lfff@, profile);
            lemma_views_push(lfmm@, profile);
            lemma_views_push(lfrr@, profile);
        }
        match profile.fir {
            FirCode::LFBB => lfbb.push(profile),
            FirCode::LFEE => lfee.push(profile),
            FirCode::LFFF => lfff.push(profile),
            FirCode::LFMM => lfmm.push(profile),
            FirCode::LFRR => lfrr.push(profile),
        }
    }
    let ghost groups = views(lfbb@) + views(lfee@) + views(lfff@) + views(lfmm@) + views(lfrr@);
    let mut r = lfbb;
    r.append(&mut lfee);
    r.append(&mut lfff);
    r.append(&mut lfmm);
    r.append(&mut lfrr);
    proof {
        assert(all.take(all.len() as int) == all);
        assert(views(r@) =~= groups);
    }
    r
}

/// The profiles among the files of a release archive, keyed by FIR.
///
/// A file that is no profile document is skipped rather than fatal: one malformed document
/// upstream must not block the other regions. So is one that names no known region.
pub fn collect_profiles(files: Vec<ParsedFile>) -> (r: Result<Vec<CanonicalProfile>, ArchiveError>)
    ensures
        match r {
            Ok(profiles) => published_profiles(views(files@)).len() > 0 && views(profiles@)
                == by_fir(published_profiles(views(files@))),
            Err(error) => published_profiles(views(files@)).len() == 0 && error is NoProfiles,
        },
{
    let ghost all = views(files@);
    let ghost profile_of = |file: Parsed| published(file);
    let mut out: Vec<CanonicalProfile> = Vec::new();
    proof {
        assert(views(out@) =~= all.take(0).filter_map(profile_of));
    }
    for file in iter: files
        invariant
            iter.seq() == files@,
            all == views(files@),
            profile_of == (|file: Parsed| published(file)),
            views(out@) == all.take(iter.index() as int).filter_map(profile_of),
    {
        proof {
            all.lemma_filter_map_take_succ(profile_of, iter.index() as int);
            assert(all[iter.index() as int] == file@);
        }
        let ParsedFile { file_name, bytes, header } = file;
        if let Some(header) = header {
            if let Some(fir) = fir_of(file_name.as_str(), header.name.as_str()) {
                let profile = CanonicalProfile { fir, header, bytes };
                proof {
                    lemma_views_push(out@, profile);
                }
                out.push(profile);
            }
        }
    }
    proof {
        assert(all.take(all.len() as int) == all);
    }
    if out.len() == 0 {
        return Err(ArchiveError::NoProfiles);
    }
    Ok(sort_by_fir(out))
}

/// Whether `parse` may read this header out of the bytes of the file of this name.
pub open spec fn may_parse<F: Fn(&str, &[u8]) -> Option<ProfileHeader>>(
    parse: F,
    file_name: Seq<char>,
    bytes: Seq<u8>,
    header: Option<Header>,
) -> bool {
    exists|name: &str, document: &[u8], outcome: Option<ProfileHeader>|
        name@ == file_name && document@ == bytes && header_of(outcome) == header
            && #[trigger] call_ensures(parse, (name, document), outcome)
}

/// Whether `parsed` may be what `parse` makes of the files, one by one.
pub open spec fn may_parse_all<F: Fn(&str, &[u8]) -> Option<ProfileHeader>>(
    parse: F,
    files: Seq<Extracted>,
    parsed: Seq<Parsed>,
) -> bool {
    &&& parsed.map_values(
        |file: Parsed| Extracted { file_name: file.file_name, bytes: file.bytes },
    ) == files
    &&& forall|i: int|
        0 <= i < parsed.len() ==> may_parse(
            parse,
            (#[trigger] parsed[i]).file_name,
            parsed[i].bytes,
            parsed[i].header,
        )
}

/// Pull every profile out of a release archive, keyed by FIR.
///
/// `parse_header` is given the name of a file and its contents; it reads the header of a
/// profile document, and gives `None` for what is no such document.
pub fn read_profile_archive<F: Fn(&str, &[u8]) -> Option<ProfileHeader>>(
    bytes: &[u8],
    parse_header: F,
) -> (r: Result<Vec<CanonicalProfile>, ArchiveError>)
    requires
        forall|name: &str, document: &[u8]| #[trigger]
            call_requires(parse_header, (name, document)),
    ensures
        match r {
            Ok(profiles) => is_readable(bytes@) && exists|parsed: Seq<Parsed>|
                {
                    &&& #[trigger] may_parse_all(
                        parse_header,
                        extracted_files(zip_contents(bytes@)->0),
                        parsed,
                    )
                    &&& published_profiles(parsed).len() > 0
                    &&& views(profiles@) == by_fir(published_profiles(parsed))
                },
            Err(ArchiveError::NoProfiles) => is_readable(bytes@) && exists|parsed: Seq<Parsed>|
                {
                    &&& #[trigger] may_parse_all(
                        parse_header,
                        extracted_files(zip_contents(bytes@)->0),
                        parsed,
                    )
                    &&& published_profiles(parsed).len() == 0
                },
            Err(error) => fails_with(bytes@, error),
        },
{
    let files = match archive_files(bytes) {
        Ok(files) => files,
        Err(error) => return Err(error),
    };
    let ghost all = views(files@);
    let ghost file_of = |file: Parsed| Extracted { file_name: file.file_name, bytes: file.bytes };
    let mut parsed: Vec<ParsedFile> = Vec::new();
    proof {
        assert(all.take(0) =~= views(parsed@).map_values(file_of));
    }
    for file in iter: files
        invariant
            iter.seq() == files@,
            all == views(files@),
            file_of == (|file: Parsed| Extracted { file_name: file.file_name, bytes: file.bytes }),
            forall|name: &str, document: &[u8]| #[trigger]
            call_requires(parse_header, (name, document)),
            views(parsed@).map_values(file_of) == all.take(iter.index() as int),
            forall|i: int|
                0 <= i < parsed@.len() ==> may_parse(
                    parse_header,
                    (#[trigger] views(parsed@)[i]).file_name,
                    views(parsed@)[i].bytes,
                    views(parsed@)[i].header,
                ),
    {
        let ghost before = views(parsed@);
        let ArchiveFile { file_name, bytes: contents } = file;
        let document = contents.as_slice();
        let name = file_name.as_str();
        let header = parse_header(name, document);
        let ghost read = may_parse(parse_header, file_name@, contents@, header_of(header));
        proof {
            assert(read) by {
                assert(call_ensures(parse_header, (name, document), header));
            }
        }
        let one = ParsedFile { file_name, bytes: contents, header };
        proof {
            lemma_views_push(parsed@, one);
            assert(before.push(one@).map_values(file_of) =~= before.map_values(file_of).push(
                file@,
            ));
            assert(all.take(iter.index() + 1) =~= all.take(iter.index() as int).push(file@));
        }
        parsed.push(one);
        proof {
            assert forall|i: int| 0 <= i < parsed@.len() implies may_parse(
                parse_header,
                (#[trigger] views(parsed@)[i]).file_name,
                views(parsed@)[i].bytes,
                views(parsed@)[i].header,
            ) by {
                if i < before.len() {
                    assert(views(parsed@)[i] == before[i]);
                }
            }
        }
    }
    proof {
        assert(all.take(all.len() as int) == all);
        assert(may_parse_all(parse_header, all, views(parsed@)));
    }
    collect_profiles(parsed)
}

/// The file name decides: where it holds the code of a region, the profile's own name does
/// not matter, and where it holds none, the profile's own name alone tells the region.
pub proof fn law_the_file_name_decides(
    file_name: Seq<char>,
    profile_name: Seq<char>,
    other_name: Seq<char>,
    fir: FirCode,
)
    ensures
        text::occurs(text::capitals(file_name), fir.code()) ==> region_of(file_name, profile_name)
            is Some && region_of(file_name, profile_name) == region_of(file_name, other_name),
        (forall|any: FirCode|
            !text::occurs(text::capitals(file_name), #[trigger] any.code())) ==> region_of(
            file_name,
            profile_name,
        ) == first_region_in(text::capitals(profile_name)),
{
    let searched = text::capitals(file_name);
    if forall|any: FirCode| !text::occurs(searched, #[trigger] any.code()) {
        assert(!text::occurs(searched, FirCode::LFBB.code()));
        assert(!text::occurs(searched, FirCode::LFEE.code()));
        assert(!text::occurs(searched, FirCode::LFFF.code()));
        assert(!text::occurs(searched, FirCode::LFMM.code()));
        assert(!text::occurs(searched, FirCode::LFRR.code()));
    }
}

/// A region is told only by its own code, and one is told wherever either name holds a
/// code, in whatever case.
pub proof fn law_either_name_tells_a_region(file_name: Seq<char>, profile_name: Seq<char>)
    ensures
        region_of(file_name, profile_name) matches Some(fir) ==> text::occurs(
            text::capitals(file_name),
            fir.code(),
        ) || text::occurs(text::capitals(profile_name), fir.code()),
        region_of(file_name, profile_name) is None ==> forall|fir: FirCode|
            !text::occurs(text::capitals(file_name), #[trigger] fir.code()) && !text::occurs(
                text::capitals(profile_name),
                fir.code(),
            ),
{
}

/// Keying profiles by region loses none and adds none.
pub proof fn law_keying_keeps_every_profile(profiles: Seq<Published>)
    ensures
        by_fir(profiles).to_multiset() == profiles.to_multiset(),
    decreases profiles.len(),
{
    broadcast use vstd::seq_lib::group_to_multiset_ensures;

    if profiles.len() == 0 {
        reveal(Seq::filter);
        assert(by_fir(profiles) =~= profiles);
    } else {
        let front = profiles.drop_last();
        let last = profiles.last();
        assert(profiles =~= front.push(last));
        law_keying_keeps_every_profile(front);
        lemma_profiles_of_push(front, last, FirCode::LFBB);
        lemma_profiles_of_push(front, last, FirCode::LFEE);
        lemma_profiles_of_push(front, last, FirCode::LFFF);
        lemma_profiles_of_push(front, last, FirCode::LFMM);
        lemma_profiles_of_push(front, last, FirCode::LFRR);
        let at = profiles_upto(front, last.fir);
        assert(by_fir(profiles) =~= by_fir(front).insert(at, last));
        vstd::seq_lib::to_multiset_insert(by_fir(front), at, last);
    }
}

/// How many profiles are of `fir` or of a region before it.
spec fn profiles_upto(profiles: Seq<Published>, fir: FirCode) -> int {
    profiles_of(profiles, FirCode::LFBB).len() + (if fir.rank() >= 1 {
        profiles_of(profiles, FirCode::LFEE).len() as int
    } else {
        0
    }) + (if fir.rank() >= 2 {
        profiles_of(profiles, FirCode::LFFF).len() as int
    } else {
        0
    }) + (if fir.rank() >= 3 {
        profiles_of(profiles, FirCode::LFMM).len() as int
    } else {
        0
    }) + (if fir.rank() >= 4 {
        profiles_of(profiles, FirCode::LFRR).len() as int
    } else {
        0
    })
}

/// Keyed profiles stand in the order of their regions.
pub proof fn law_keyed_profiles_are_in_order(profiles: Seq<Published>, i: int, j: int)
    requires
        0 <= i <= j < by_fir(profiles).len(),
    ensures
        by_fir(profiles)[i].fir.rank() <= by_fir(profiles)[j].fir.rank(),
{
    lemma_profiles_of_are_of(profiles, FirCode::LFBB);
    lemma_profiles_of_are_of(profiles, FirCode::LFEE);
    lemma_profiles_of_are_of(profiles, FirCode::LFFF);
    lemma_profiles_of_are_of(profiles, FirCode::LFMM);
    lemma_profiles_of_are_of(profiles, FirCode::LFRR);
}

/// The profiles of one region are of that region.
proof fn lemma_profiles_of_are_of(profiles: Seq<Published>, fir: FirCode)
    ensures
        forall|i: int|
            0 <= i < profiles_of(profiles, fir).len() ==> (#[trigger] profiles_of(
                profiles,
                fir,
            )[i]).fir == fir,
    decreases profiles.len(),
{
    reveal(Seq::filter);
    if profiles.len() > 0 {
        lemma_profiles_of_are_of(profiles.drop_last(), fir);
        assert(profiles =~= profiles.drop_last().push(profiles.last()));
        lemma_profiles_of_push(profiles.drop_last(), profiles.last(), fir);
    }
}

/// A document that cannot be parsed takes nothing away from what the others give.
pub proof fn law_malformed_documents_block_nothing(files: Seq<Parsed>, i: int)
    requires
        0 <= i < files.len(),
        files[i].header is None,
    ensures
        published_profiles(files) == published_profiles(files.remove(i)),
{
    lemma_filter_map_remove(files, |file: Parsed| published(file), i);
}

/// Every profile carries the bytes of the file that it was read from, unchanged, and the
/// header that was read out of them.
pub proof fn law_published_bytes_are_verbatim(files: Seq<Parsed>, profile: Published)
    requires
        by_fir(published_profiles(files)).contains(profile),
    ensures
        exists|i: int|
            {
                &&& 0 <= i < files.len()
                &&& (#[trigger] files[i]).bytes == profile.bytes
                &&& files[i].header == Some(profile.header)
                &&& region_of(files[i].file_name, profile.header.name) == Some(profile.fir)
            },
{
    broadcast use vstd::seq_lib::group_to_multiset_ensures;

    let profiles = published_profiles(files);
    let profile_of = |file: Parsed| published(file);
    law_keying_keeps_every_profile(profiles);
    assert(by_fir(profiles).to_multiset().count(profile) > 0);
    assert(profiles.contains(profile));
    files.lemma_filter_map_contains(profile_of, profile);
    let file = choose|file: Parsed| #[trigger]
        files.contains(file) && profile_of(file) == Some(profile);
    let i = choose|i: int| 0 <= i < files.len() && files[i] == file;
    assert(files[i].bytes == profile.bytes);
}

} // verus!
