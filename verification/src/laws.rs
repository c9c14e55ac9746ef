//! What the operations are for, said of their inputs and results alone.

use crate::archive::{
    breaks_at, by_fir, extracted, extracted_files, fails_with, first_region_in, is_broken,
    is_readable, law_keying_keeps_every_profile, may_be_profile, may_parse, may_parse_all,
    profiles_of, published, published_profiles, region_of, zip_contents, ArchiveError, Extracted,
    Parsed,
};
use crate::fir::FirCode;
use crate::location::{Location, Place};
use crate::plain::{
    alike, are_places, comes_first, ends_alike, holds_alike, lemma_filter_is_filter_map,
    lemma_filter_map_places, lemma_same_places, same_letter,
};
use crate::plan::Published;
use crate::profile::{Header, ProfileHeader};
use crate::release::names_archive;
use crate::store::{
    by_name, files_to_read, is_profile_name, lemma_by_name_is_total,
    law_only_profiles_at_the_top_level_are_read, may_read, may_read_all, names_to_read,
    profile_names, reading_warning, store_warnings, stored_profile, stored_profiles, Listed,
    Reading,
};
use crate::text;
use crate::text::Separators;
use crate::warning::Notice;
use vstd::prelude::*;

verus! {

/// A capital of a character is a given capital exactly when both are the same letter.
proof fn lemma_capital_alike(c: char, d: char)
    requires
        'A' <= d <= 'Z',
    ensures
        text::capital(c) == d <==> same_letter(c, d),
{
}

/// The small letter of a character is a given one, or something that has no case, exactly
/// when both are the same letter.
proof fn lemma_small_alike(c: char, d: char)
    requires
        !('A' <= d <= 'Z'),
    ensures
        text::small(c) == d <==> same_letter(c, d),
{
}

/// A code in capitals stands in the capitals of a text exactly when something like it stands
/// in the text.
proof fn lemma_occurs_alike(s: Seq<char>, code: Seq<char>)
    requires
        forall|i: int| 0 <= i < code.len() ==> 'A' <= #[trigger] code[i] <= 'Z',
    ensures
        text::occurs(text::capitals(s), code) <==> holds_alike(s, code),
{
    let n = code.len();
    assert forall|at: int| 0 <= at <= s.len() - n implies (text::occurs_at(
        text::capitals(s),
        code,
        at,
    ) <==> alike(#[trigger] s.subrange(at, at + n), code)) by {
        let part = s.subrange(at, at + n);
        let large = text::capitals(s).subrange(at, at + n);
        assert forall|i: int| 0 <= i < n implies (large[i] == code[i] <==> same_letter(
            #[trigger] part[i],
            code[i],
        )) by {
            lemma_capital_alike(part[i], code[i]);
        }
        if alike(part, code) {
            assert forall|i: int| 0 <= i < n implies large[i] == code[i] by {
                assert(same_letter(part[i], code[i]));
            }
            assert(large =~= code);
        }
        if large == code {
            assert(alike(part, code));
        }
    }
    if text::occurs(text::capitals(s), code) {
        let at = choose|at: int| text::occurs_at(text::capitals(s), code, at);
        assert(alike(s.subrange(at, at + n), code));
    }
    if holds_alike(s, code) {
        let at = choose|at: int|
            0 <= at <= s.len() - n && alike(#[trigger] s.subrange(at, at + n), code);
        assert(text::occurs_at(text::capitals(s), code, at));
    }
}

/// The small letters of a text end in something without capitals exactly when the text ends
/// in something like it.
proof fn lemma_ends_alike(s: Seq<char>, end: Seq<char>)
    requires
        forall|i: int| 0 <= i < end.len() ==> !('A' <= #[trigger] end[i] <= 'Z'),
    ensures
        text::ends_in(text::smalls(s), end) <==> ends_alike(s, end, 0),
{
    if s.len() >= end.len() {
        let from = s.len() - end.len();
        let part = s.skip(from);
        let small = text::smalls(s).subrange(from, from + end.len());
        assert forall|i: int| 0 <= i < end.len() implies (small[i] == end[i] <==> same_letter(
            #[trigger] part[i],
            end[i],
        )) by {
            lemma_small_alike(part[i], end[i]);
        }
        if alike(part, end) {
            assert forall|i: int| 0 <= i < end.len() implies small[i] == end[i] by {
                assert(same_letter(part[i], end[i]));
            }
            assert(small =~= end);
        }
        if small == end {
            assert(alike(part, end));
        }
    }
}

/// The codes of the regions are four capitals each.
proof fn lemma_codes(fir: FirCode)
    ensures
        fir.code().len() == 4,
        forall|i: int| 0 <= i < fir.code().len() ==> 'A' <= #[trigger] fir.code()[i] <= 'Z',
{
    reveal_strlit("LFBB");
    reveal_strlit("LFEE");
    reveal_strlit("LFFF");
    reveal_strlit("LFMM");
    reveal_strlit("LFRR");
}

/// A profile is a region's exactly when its name, however long, holds the region's code
/// somewhere, in whatever case; nothing else of it counts.
pub proof fn law_a_match_is_by_name(header: Header, fir: FirCode)
    ensures
        header.matches_fir(fir) <==> holds_alike(header.name, fir.code()),
{
    lemma_codes(fir);
    lemma_occurs_alike(header.name, fir.code());
}

/// A profile of a region is superseded exactly when it has no serial, or one below the first
/// of the reissue, and current exactly when it has one from that on.
pub proof fn law_the_serial_parts_the_generations(header: Header, fir: FirCode)
    ensures
        header.is_superseded(fir) <==> holds_alike(header.name, fir.code())
            && !(header.update_serial matches Some(serial) && serial >= 2026090401),
        header.is_current(fir) <==> holds_alike(header.name, fir.code()) && (
        header.update_serial matches Some(serial) && serial >= 2026090401),
{
    law_a_match_is_by_name(header, fir);
}

/// A file of a release is its archive exactly when its name, however long, ends in `.zip`, in
/// whatever case.
pub proof fn law_an_archive_is_called_zip(name: Seq<char>)
    ensures
        names_archive(name) <==> ends_alike(name, seq!['.', 'z', 'i', 'p'], 0),
{
    reveal_strlit(".zip");
    assert(".zip"@ =~= seq!['.', 'z', 'i', 'p']);
    lemma_ends_alike(name, ".zip"@);
}

/// Every text of at least one character followed by `.json`, in whatever case, is the name of
/// a profile, and no other text is.
pub proof fn law_profile_names_end_in_json(name: Seq<char>)
    ensures
        is_profile_name(name) <==> ends_alike(name, seq!['.', 'j', 's', 'o', 'n'], 1),
{
    let end = seq!['.', 'j', 's', 'o', 'n'];
    reveal_strlit(".json");
    assert(".json"@ =~= end);
    name.index_of_last_ensures('.');
    let extension = text::dotted_extension(name);
    let small = text::smalls(extension);
    if is_profile_name(name) {
        let at = text::extension_dot(name)->0;
        assert(extension == name.skip(at));
        assert(small.len() == 5);
        assert forall|i: int| 0 <= i < 5 implies same_letter(
            #[trigger] name.skip(at)[i],
            end[i],
        ) by {
            assert(small[i] == end[i]);
            lemma_small_alike(name.skip(at)[i], end[i]);
        }
        assert(name.len() - 5 == at);
    }
    if ends_alike(name, end, 1) {
        let at = name.len() - 5;
        let part = name.skip(at);
        assert(same_letter(part[0], end[0]) && same_letter(part[1], end[1]) && same_letter(
            part[2],
            end[2],
        ) && same_letter(part[3], end[3]) && same_letter(part[4], end[4]));
        assert(name[at] == '.' && name[at + 1] != '.' && name[at + 2] != '.' && name[at + 3] != '.'
            && name[at + 4] != '.');
        assert(name.index_of_last('.') == Some(at));
        assert(extension == part);
        assert forall|i: int| 0 <= i < 5 implies small[i] == end[i] by {
            lemma_small_alike(part[i], end[i]);
        }
        assert(small =~= end);
    }
}

/// Exactly the regular files of a listing whose names end in `.json` behind at least one
/// character, in whatever case, are read: each in the directory that was listed, under its
/// own name. Of what cannot be listed, nothing is read.
pub proof fn law_exactly_the_json_files_are_read(
    directory: Place,
    listing: Seq<Listed>,
    place: Place,
)
    ensures
        files_to_read(directory, Some(listing)).contains(place) <==> exists|i: int|
            {
                &&& 0 <= i < listing.len()
                &&& (#[trigger] listing[i]).is_file
                &&& ends_alike(listing[i].name, seq!['.', 'j', 's', 'o', 'n'], 1)
                &&& place == (Place {
                    base: directory.base,
                    names: directory.names.push(listing[i].name),
                })
            },
        files_to_read(directory, None).len() == 0,
{
    law_only_profiles_at_the_top_level_are_read(directory, listing, place);
    assert forall|i: int| 0 <= i < listing.len() implies (is_profile_name(
        (#[trigger] listing[i]).name,
    ) <==> ends_alike(listing[i].name, seq!['.', 'j', 's', 'o', 'n'], 1)) by {
        law_profile_names_end_in_json(listing[i].name);
    }
    if files_to_read(directory, Some(listing)).contains(place) {
        let i = choose|i: int|
            {
                &&& 0 <= i < listing.len()
                &&& (#[trigger] listing[i]).is_file
                &&& is_profile_name(listing[i].name)
                &&& place == directory.join(listing[i].name)
            };
        assert(listing[i].is_file);
    }
    if exists|i: int|
        {
            &&& 0 <= i < listing.len()
            &&& (#[trigger] listing[i]).is_file
            &&& ends_alike(listing[i].name, seq!['.', 'j', 's', 'o', 'n'], 1)
            &&& place == (Place {
                base: directory.base,
                names: directory.names.push(listing[i].name),
            })
        } {
        let i = choose|i: int|
            {
                &&& 0 <= i < listing.len()
                &&& (#[trigger] listing[i]).is_file
                &&& ends_alike(listing[i].name, seq!['.', 'j', 's', 'o', 'n'], 1)
                &&& place == (Place {
                    base: directory.base,
                    names: directory.names.push(listing[i].name),
                })
            };
        assert(listing[i].is_file && is_profile_name(listing[i].name));
    }
}

/// Texts that are in order one by one are so by the first character in which they differ.
proof fn lemma_not_after_comes_first(a: Seq<char>, b: Seq<char>)
    requires
        text::not_after(a, b),
    ensures
        comes_first(a, b),
    decreases a.len(),
{
    if a.len() == 0 {
        assert(a.take(0) =~= b.take(0));
    } else if a[0] == b[0] {
        let c = a.drop_first();
        let d = b.drop_first();
        lemma_not_after_comes_first(c, d);
        let k = choose|k: int|
            {
                &&& 0 <= k <= c.len()
                &&& k <= d.len()
                &&& #[trigger] c.take(k) == d.take(k)
                &&& k == c.len() || (k < d.len() && c[k] < d[k])
            };
        assert(a.take(k + 1) =~= seq![a[0]] + c.take(k));
        assert(b.take(k + 1) =~= seq![b[0]] + d.take(k));
        assert(a.take(k + 1) == b.take(k + 1));
    } else {
        assert(a.take(0) =~= b.take(0));
    }
}

/// Files are read in the order of their names, character by character, whatever the order of
/// the listing, and each as often as it is listed.
pub proof fn law_files_are_read_in_the_order_of_their_names(directory: Place, listing: Seq<Listed>)
    ensures
        ({
            let files = files_to_read(directory, Some(listing));
            let wanted = |i: int|
                listing[i].is_file && ends_alike(
                    listing[i].name,
                    seq!['.', 'j', 's', 'o', 'n'],
                    1,
                );
            &&& forall|k: int, l: int|
                0 <= k <= l < files.len() ==> comes_first(
                    (#[trigger] files[k]).names.last(),
                    (#[trigger] files[l]).names.last(),
                )
            &&& exists|at: Seq<int>| #[trigger]
                are_places(listing.len(), at, wanted) && at.len() == files.len()
        }),
{
    let pick = |entry: Listed|
        if entry.is_file && is_profile_name(entry.name) {
            Some(entry.name)
        } else {
            None
        };
    let found = profile_names(listing);
    let names = names_to_read(Some(listing));
    let files = files_to_read(directory, Some(listing));
    lemma_by_name_is_total();
    found.lemma_sort_by_ensures(by_name());
    vstd::seq_lib::to_multiset_len(found);
    vstd::seq_lib::to_multiset_len(names);
    assert forall|k: int, l: int| 0 <= k <= l < files.len() implies comes_first(
        (#[trigger] files[k]).names.last(),
        (#[trigger] files[l]).names.last(),
    ) by {
        if k < l {
            assert((by_name())(names[k], names[l]));
        } else {
            text::lemma_not_after_total(names[k], names[k]);
        }
        lemma_not_after_comes_first(names[k], names[l]);
        assert(files[k].names.last() == names[k]);
        assert(files[l].names.last() == names[l]);
    }
    let at = lemma_filter_map_places(listing, pick);
    let wanted = |i: int|
        listing[i].is_file && ends_alike(listing[i].name, seq!['.', 'j', 's', 'o', 'n'], 1);
    let picked = |i: int| pick(listing[i]) is Some;
    assert forall|i: int| 0 <= i < listing.len() implies wanted(i) == #[trigger] picked(i) by {
        law_profile_names_end_in_json(listing[i].name);
    }
    assert forall|i: int| 0 <= i < listing.len() && #[trigger] wanted(i) implies at.contains(i) by {
        assert(picked(i));
    }
    assert forall|k: int| 0 <= k < at.len() implies 0 <= #[trigger] at[k] < listing.len() && wanted(
        at[k],
    ) by {
        assert(picked(at[k]));
    }
    assert(are_places(listing.len(), at, wanted));
}

/// Every file is read once, by its own place, and its reading says what came of that.
pub proof fn law_every_file_is_asked_for<F: Fn(&Location) -> Result<ProfileHeader, String>>(
    read: F,
    files: Seq<Place>,
    readings: Seq<Reading>,
    i: int,
)
    requires
        may_read_all(read, files, readings),
        0 <= i < files.len(),
    ensures
        readings.len() == files.len(),
        readings[i].path == files[i],
        exists|path: Location, header: Result<ProfileHeader, String>|
            {
                &&& #[trigger] call_ensures(read, (&path,), header)
                &&& path@ == files[i]
                &&& match header {
                    Ok(header) => readings[i].header == Ok::<Header, Seq<char>>(header@),
                    Err(reason) => readings[i].header == Err::<Header, Seq<char>>(reason@),
                }
            },
{
    let paths = readings.map_values(|reading: Reading| reading.path);
    assert(paths.len() == readings.len());
    assert(paths[i] == readings[i].path);
    assert(may_read(read, readings[i]));
}

/// The profiles of a store are those of its files that have a header, in the order of the
/// files, each with the path and the header of its file; every other file is warned about, in
/// order, with its path and the reason.
pub proof fn law_a_store_holds_what_its_files_hold(readings: Seq<Reading>)
    ensures
        ({
            let profiles = stored_profiles(readings);
            let wanted = |i: int| readings[i].header is Ok;
            exists|at: Seq<int>|
                {
                    &&& #[trigger] are_places(readings.len(), at, wanted)
                    &&& at.len() == profiles.len()
                    &&& forall|k: int|
                        0 <= k < at.len() ==> {
                            &&& (#[trigger] profiles[k]).path == readings[at[k]].path
                            &&& readings[at[k]].header == Ok::<Header, Seq<char>>(
                                profiles[k].header,
                            )
                        }
                }
        }),
        ({
            let warnings = store_warnings(readings);
            let wanted = |i: int| readings[i].header is Err;
            exists|at: Seq<int>|
                {
                    &&& #[trigger] are_places(readings.len(), at, wanted)
                    &&& at.len() == warnings.len()
                    &&& forall|k: int|
                        0 <= k < at.len() ==> #[trigger] warnings[k] == (Notice::Unreadable {
                            path: readings[at[k]].path,
                            reason: readings[at[k]].header->Err_0,
                        })
                }
        }),
{
    let profile_of = |reading: Reading| stored_profile(reading);
    let good = |i: int| readings[i].header is Ok;
    let one = lemma_filter_map_places(readings, profile_of);
    lemma_same_places(readings.len(), one, |i: int| profile_of(readings[i]) is Some, good);
    assert(are_places(readings.len(), one, good));
    let warning_of = |reading: Reading| reading_warning(reading);
    let bad = |i: int| readings[i].header is Err;
    let two = lemma_filter_map_places(readings, warning_of);
    lemma_same_places(readings.len(), two, |i: int| warning_of(readings[i]) is Some, bad);
    assert(are_places(readings.len(), two, bad));
}

/// An entry of an archive may be a profile exactly when its name, however long, ends in
/// `.json`, in whatever case.
pub proof fn law_entries_that_may_be_profiles(name: Seq<char>)
    ensures
        may_be_profile(name) <==> ends_alike(name, seq!['.', 'j', 's', 'o', 'n'], 0),
{
    let end = seq!['.', 'j', 's', 'o', 'n'];
    let last = text::last_segment(name, Separators::Both);
    reveal_strlit(".json");
    assert(".json"@ =~= end);
    text::lemma_last_segment_ends(name, Separators::Both);
    lemma_ends_alike(last, end);
    if ends_alike(last, end, 0) {
        assert(name.skip(name.len() - 5) =~= last.skip(last.len() - 5));
    }
    if ends_alike(name, end, 0) {
        let from = name.len() - 5;
        let part = name.skip(from);
        assert(same_letter(part[0], end[0]) && same_letter(part[1], end[1]) && same_letter(
            part[2],
            end[2],
        ) && same_letter(part[3], end[3]) && same_letter(part[4], end[4]));
        lemma_last_segment_reaches(name, part);
        assert(part =~= last.skip(last.len() - 5));
        assert(name.last() == part[4]);
    }
}

/// The last segment reaches at least as far back as an end without separators.
proof fn lemma_last_segment_reaches(name: Seq<char>, end: Seq<char>)
    requires
        end.len() <= name.len(),
        end == name.skip(name.len() - end.len()),
        forall|i: int| 0 <= i < end.len() ==> !Separators::Both.part_at(#[trigger] end[i]),
    ensures
        text::last_segment(name, Separators::Both).len() >= end.len(),
    decreases end.len(),
{
    if end.len() > 0 {
        let front = name.drop_last();
        assert(name.last() == end.last());
        assert(end.drop_last() =~= front.skip(front.len() - end.drop_last().len()));
        lemma_last_segment_reaches(front, end.drop_last());
    }
}

/// Whether `file` is what stands in `name` behind its last slash or backslash.
pub open spec fn is_last_part(name: Seq<char>, file: Seq<char>) -> bool {
    &&& file.len() <= name.len()
    &&& name.skip(name.len() - file.len()) == file
    &&& forall|i: int| 0 <= i < file.len() ==> #[trigger] file[i] != '/' && file[i] != '\\'
    &&& file.len() < name.len() ==> name[name.len() - file.len() - 1] == '/' || name[name.len()
        - file.len() - 1] == '\\'
}

/// The last segment is what stands behind the last separator.
proof fn lemma_last_segment_is_last_part(name: Seq<char>)
    ensures
        is_last_part(name, text::last_segment(name, Separators::Both)),
    decreases name.len(),
{
    let file = text::last_segment(name, Separators::Both);
    text::lemma_last_segment_ends(name, Separators::Both);
    if name.len() > 0 && !Separators::Both.part_at(name.last()) {
        let front = name.drop_last();
        lemma_last_segment_is_last_part(front);
        let before = text::last_segment(front, Separators::Both);
        assert(file =~= before.push(name.last()));
        assert forall|i: int| 0 <= i < file.len() implies #[trigger] file[i] != '/' && file[i]
            != '\\' by {
            if i < before.len() {
                assert(file[i] == before[i]);
            }
        }
        if file.len() < name.len() {
            assert(name[name.len() - file.len() - 1] == front[front.len() - before.len() - 1]);
        }
    } else {
        assert(file =~= Seq::empty());
    }
}

/// Every entry whose name ends in `.json` is handed on whole: exactly its contents, however
/// long, under what stands behind the last slash or backslash of its name. The files come in
/// the order of the archive, and there are no others.
pub proof fn law_files_are_whole_entries(entries: Seq<Option<(Seq<char>, Option<Seq<u8>>)>>)
    ensures
        ({
            let files = extracted_files(entries);
            let wanted = |i: int|
                entries[i] matches Some((name, Some(bytes))) && ends_alike(
                    name,
                    seq!['.', 'j', 's', 'o', 'n'],
                    0,
                );
            exists|at: Seq<int>|
                {
                    &&& #[trigger] are_places(entries.len(), at, wanted)
                    &&& at.len() == files.len()
                    &&& forall|k: int|
                        0 <= k < at.len() ==> (entries[at[k]] matches Some((name, Some(bytes)))
                            && (#[trigger] files[k]).bytes == bytes && is_last_part(
                            name,
                            files[k].file_name,
                        ))
                }
        }),
{
    let files = extracted_files(entries);
    let file_of = |entry: Option<(Seq<char>, Option<Seq<u8>>)>| extracted(entry);
    let wanted = |i: int|
        entries[i] matches Some((name, Some(bytes))) && ends_alike(
            name,
            seq!['.', 'j', 's', 'o', 'n'],
            0,
        );
    let picked = |i: int| file_of(entries[i]) is Some;
    let at = lemma_filter_map_places(entries, file_of);
    assert forall|i: int| 0 <= i < entries.len() implies picked(i) == #[trigger] wanted(i) by {
        if let Some((name, contents)) = entries[i] {
            law_entries_that_may_be_profiles(name);
        }
    }
    lemma_same_places(entries.len(), at, picked, wanted);
    assert forall|k: int| 0 <= k < at.len() implies (entries[at[k]] matches Some(
        (name, Some(bytes)),
    ) && (#[trigger] files[k]).bytes == bytes && is_last_part(name, files[k].file_name)) by {
        assert(Some(files[k]) == file_of(entries[at[k]]));
        assert(picked(at[k]));
        if let Some((name, contents)) = entries[at[k]] {
            lemma_last_segment_is_last_part(name);
        }
    }
    assert(are_places(entries.len(), at, wanted));
}

/// An archive can be read exactly when it can be opened, each of its entries can be opened,
/// and the contents of each whose name ends in `.json` can be read.
pub proof fn law_which_archives_are_readable(bytes: Seq<u8>)
    ensures
        is_readable(bytes) <==> (zip_contents(bytes) matches Some(entries) && forall|i: int|
            0 <= i < entries.len() ==> (#[trigger] entries[i] matches Some((name, contents)) && (
            ends_alike(name, seq!['.', 'j', 's', 'o', 'n'], 0) ==> contents is Some))),
{
    if let Some(entries) = zip_contents(bytes) {
        assert forall|i: int| 0 <= i < entries.len() implies (is_broken(
            #[trigger] entries[i],
        ) <==> !(entries[i] matches Some((name, contents)) && (ends_alike(
            name,
            seq!['.', 'j', 's', 'o', 'n'],
            0,
        ) ==> contents is Some))) by {
            if let Some((name, contents)) = entries[i] {
                law_entries_that_may_be_profiles(name);
            }
        }
    }
}

/// An archive that cannot be opened fails as such. One that can fails at the first of its
/// entries that cannot be opened, or whose name ends in `.json` and whose contents cannot be
/// read, and fails as one or the other.
pub proof fn law_how_archives_fail(bytes: Seq<u8>, error: ArchiveError)
    requires
        fails_with(bytes, error),
    ensures
        !is_readable(bytes),
        error is Opening <==> zip_contents(bytes) is None,
        zip_contents(bytes) matches Some(entries) ==> exists|i: int|
            {
                &&& 0 <= i < entries.len()
                &&& match #[trigger] entries[i] {
                    None => error is Entry,
                    Some((name, contents)) => error is Reading && contents is None && ends_alike(
                        name,
                        seq!['.', 'j', 's', 'o', 'n'],
                        0,
                    ),
                }
                &&& forall|j: int|
                    0 <= j < i ==> (#[trigger] entries[j] matches Some((name, contents)) && (
                    ends_alike(name, seq!['.', 'j', 's', 'o', 'n'], 0) ==> contents is Some))
            },
{
    if let Some(entries) = zip_contents(bytes) {
        let i = choose|i: int| #[trigger]
            breaks_at(entries, i) && if entries[i] is None {
                error is Entry
            } else {
                error is Reading
            };
        if let Some((name, contents)) = entries[i] {
            law_entries_that_may_be_profiles(name);
        }
        assert forall|j: int| 0 <= j < i implies (#[trigger] entries[j] matches Some(
            (name, contents),
        ) && (ends_alike(name, seq!['.', 'j', 's', 'o', 'n'], 0) ==> contents is Some)) by {
            assert(!is_broken(entries[j]));
            if let Some((name, contents)) = entries[j] {
                law_entries_that_may_be_profiles(name);
            }
        }
        assert(is_broken(entries[i]));
    }
}

/// The header of every file is asked for, with the name of the file and all of its bytes, and
/// what came of it is the file's header.
pub proof fn law_every_header_is_asked_for<F: Fn(&str, &[u8]) -> Option<ProfileHeader>>(
    parse: F,
    files: Seq<Extracted>,
    parsed: Seq<Parsed>,
    i: int,
)
    requires
        may_parse_all(parse, files, parsed),
        0 <= i < files.len(),
    ensures
        parsed.len() == files.len(),
        parsed[i].file_name == files[i].file_name,
        parsed[i].bytes == files[i].bytes,
        exists|name: &str, document: &[u8], header: Option<ProfileHeader>|
            {
                &&& #[trigger] call_ensures(parse, (name, document), header)
                &&& name@ == files[i].file_name
                &&& document@ == files[i].bytes
                &&& match header {
                    Some(header) => parsed[i].header == Some(header@),
                    None => parsed[i].header is None,
                }
            },
{
    let whole = parsed.map_values(
        |file: Parsed| Extracted { file_name: file.file_name, bytes: file.bytes },
    );
    assert(whole.len() == parsed.len());
    assert(whole[i] == files[i]);
    assert(may_parse(parse, parsed[i].file_name, parsed[i].bytes, parsed[i].header));
}

/// Whether `fir` is the first region whose code stands in `s`, in whatever case.
pub open spec fn is_told_first(s: Seq<char>, fir: FirCode) -> bool {
    &&& holds_alike(s, fir.code())
    &&& forall|other: FirCode|
        other.rank() < fir.rank() ==> !holds_alike(s, #[trigger] other.code())
}

/// Whether no region's code stands in `s`.
pub open spec fn tells_no_region(s: Seq<char>) -> bool {
    forall|fir: FirCode| !holds_alike(s, #[trigger] fir.code())
}

/// The first region of a text, said of the text itself.
proof fn lemma_first_region_is_told(s: Seq<char>)
    ensures
        match first_region_in(text::capitals(s)) {
            Some(fir) => is_told_first(s, fir),
            None => tells_no_region(s),
        },
{
    assert forall|fir: FirCode| (text::occurs(text::capitals(s), #[trigger] fir.code())
        <==> holds_alike(s, fir.code())) by {
        lemma_codes(fir);
        lemma_occurs_alike(s, fir.code());
    }
    assert(text::occurs(text::capitals(s), FirCode::LFBB.code()) <==> holds_alike(
        s,
        FirCode::LFBB.code(),
    ));
    assert(text::occurs(text::capitals(s), FirCode::LFEE.code()) <==> holds_alike(
        s,
        FirCode::LFEE.code(),
    ));
    assert(text::occurs(text::capitals(s), FirCode::LFFF.code()) <==> holds_alike(
        s,
        FirCode::LFFF.code(),
    ));
    assert(text::occurs(text::capitals(s), FirCode::LFMM.code()) <==> holds_alike(
        s,
        FirCode::LFMM.code(),
    ));
    assert(text::occurs(text::capitals(s), FirCode::LFRR.code()) <==> holds_alike(
        s,
        FirCode::LFRR.code(),
    ));
}

/// The region of a published profile is the first whose code stands in the name of its file,
/// however long; only where none does, the first whose code stands in its own name; and there
/// is none exactly where neither name holds a code.
pub proof fn law_which_region_a_profile_is_of(file_name: Seq<char>, profile_name: Seq<char>)
    ensures
        match region_of(file_name, profile_name) {
            Some(fir) => {
                ||| is_told_first(file_name, fir)
                ||| tells_no_region(file_name) && is_told_first(profile_name, fir)
            },
            None => tells_no_region(file_name) && tells_no_region(profile_name),
        },
{
    lemma_first_region_is_told(file_name);
    lemma_first_region_is_told(profile_name);
}

/// Exactly the files that have a header, and a name or a header that tells a region, are
/// published: in order, each for that region, with its header and all of its bytes.
pub proof fn law_every_file_of_a_region_is_published(files: Seq<Parsed>)
    ensures
        ({
            let profiles = published_profiles(files);
            let wanted = |i: int|
                files[i].header matches Some(header) && !(tells_no_region(files[i].file_name)
                    && tells_no_region(header.name));
            exists|at: Seq<int>|
                {
                    &&& #[trigger] are_places(files.len(), at, wanted)
                    &&& at.len() == profiles.len()
                    &&& forall|k: int|
                        0 <= k < at.len() ==> {
                            &&& (#[trigger] profiles[k]).bytes == files[at[k]].bytes
                            &&& files[at[k]].header == Some(profiles[k].header)
                            &&& is_told_first(files[at[k]].file_name, profiles[k].fir) || (
                            tells_no_region(files[at[k]].file_name) && is_told_first(
                                profiles[k].header.name,
                                profiles[k].fir,
                            ))
                        }
                }
        }),
{
    let profiles = published_profiles(files);
    let profile_of = |file: Parsed| published(file);
    let wanted = |i: int|
        files[i].header matches Some(header) && !(tells_no_region(files[i].file_name)
            && tells_no_region(header.name));
    let picked = |i: int| profile_of(files[i]) is Some;
    let at = lemma_filter_map_places(files, profile_of);
    assert forall|i: int| 0 <= i < files.len() implies picked(i) == #[trigger] wanted(i) by {
        if let Some(header) = files[i].header {
            law_which_region_a_profile_is_of(files[i].file_name, header.name);
        }
    }
    lemma_same_places(files.len(), at, picked, wanted);
    assert forall|k: int| 0 <= k < at.len() implies {
        &&& (#[trigger] profiles[k]).bytes == files[at[k]].bytes
        &&& files[at[k]].header == Some(profiles[k].header)
        &&& is_told_first(files[at[k]].file_name, profiles[k].fir) || (tells_no_region(
            files[at[k]].file_name,
        ) && is_told_first(profiles[k].header.name, profiles[k].fir))
    } by {
        assert(Some(profiles[k]) == profile_of(files[at[k]]));
        if let Some(header) = files[at[k]].header {
            law_which_region_a_profile_is_of(files[at[k]].file_name, header.name);
        }
    }
    assert(are_places(files.len(), at, wanted));
}

/// Whether `at` are the places of the profiles whose regions rank from `low` up to, not at,
/// `high`: region by region, and for one region in order.
pub open spec fn are_keyed_places(
    profiles: Seq<Published>,
    at: Seq<int>,
    low: int,
    high: int,
) -> bool {
    &&& forall|k: int|
        0 <= k < at.len() ==> 0 <= #[trigger] at[k] < profiles.len() && low
            <= profiles[at[k]].fir.rank() < high
    &&& forall|k: int, l: int|
        0 <= k < l < at.len() ==> {
            let one = profiles[#[trigger] at[k]].fir.rank();
            let two = profiles[#[trigger] at[l]].fir.rank();
            one < two || (one == two && at[k] < at[l])
        }
    &&& forall|i: int|
        0 <= i < profiles.len() && low <= (#[trigger] profiles[i]).fir.rank() < high
            ==> at.contains(i)
}

/// The profiles of one region, by their places.
proof fn lemma_profiles_of_places(profiles: Seq<Published>, fir: FirCode) -> (at: Seq<int>)
    ensures
        are_keyed_places(profiles, at, fir.rank(), fir.rank() + 1),
        profiles_of(profiles, fir) == at.map_values(|i: int| profiles[i]),
{
    let wanted = |profile: Published| profile.fir == fir;
    let pick = |profile: Published|
        if wanted(profile) {
            Some(profile)
        } else {
            None
        };
    lemma_filter_is_filter_map(profiles, wanted);
    assert(profiles.filter(wanted) == profiles.filter_map(pick));
    let at = lemma_filter_map_places(profiles, pick);
    let picked = |i: int| pick(profiles[i]) is Some;
    assert forall|k: int| 0 <= k < at.len() implies 0 <= #[trigger] at[k] < profiles.len()
        && profiles[at[k]].fir == fir by {
        assert(picked(at[k]));
    }
    assert forall|i: int|
        0 <= i < profiles.len() && (#[trigger] profiles[i]).fir == fir implies at.contains(i) by {
        assert(picked(i));
    }
    assert(profiles_of(profiles, fir) =~= at.map_values(|i: int| profiles[i]));
    at
}

/// Places of some regions, and then those of the next.
proof fn lemma_keyed_places_join(
    profiles: Seq<Published>,
    one: Seq<int>,
    two: Seq<int>,
    low: int,
    middle: int,
    high: int,
)
    requires
        low <= middle <= high,
        are_keyed_places(profiles, one, low, middle),
        are_keyed_places(profiles, two, middle, high),
    ensures
        are_keyed_places(profiles, one + two, low, high),
{
    let at = one + two;
    assert forall|k: int| 0 <= k < at.len() implies 0 <= #[trigger] at[k] < profiles.len() && low
        <= profiles[at[k]].fir.rank() < high by {
        if k < one.len() {
            assert(at[k] == one[k]);
        } else {
            assert(at[k] == two[k - one.len()]);
        }
    }
    assert forall|k: int, l: int| 0 <= k < l < at.len() implies {
        let first = profiles[#[trigger] at[k]].fir.rank();
        let second = profiles[#[trigger] at[l]].fir.rank();
        first < second || (first == second && at[k] < at[l])
    } by {
        if l < one.len() {
            assert(at[k] == one[k] && at[l] == one[l]);
        } else if k < one.len() {
            assert(at[k] == one[k] && at[l] == two[l - one.len()]);
        } else {
            assert(at[k] == two[k - one.len()] && at[l] == two[l - one.len()]);
        }
    }
    assert forall|i: int|
        0 <= i < profiles.len() && low <= (#[trigger] profiles[i]).fir.rank()
            < high implies at.contains(i) by {
        if profiles[i].fir.rank() < middle {
            let k = choose|k: int| 0 <= k < one.len() && one[k] == i;
            assert(at[k] == i);
        } else {
            let k = choose|k: int| 0 <= k < two.len() && two[k] == i;
            assert(at[one.len() + k] == i);
        }
    }
}

/// Keyed profiles are all the profiles, each once and unchanged, region by region in the
/// order of [`FirCode::ALL`], and for one region in the order in which they came.
pub proof fn law_keying_only_rearranges(profiles: Seq<Published>)
    ensures
        exists|at: Seq<int>|
            {
                &&& #[trigger] are_keyed_places(profiles, at, 0, 5)
                &&& at.len() == by_fir(profiles).len()
                &&& forall|k: int|
                    0 <= k < at.len() ==> #[trigger] by_fir(profiles)[k] == profiles[at[k]]
            },
        by_fir(profiles).len() == profiles.len(),
{
    let element = |i: int| profiles[i];
    let one = lemma_profiles_of_places(profiles, FirCode::LFBB);
    let two = lemma_profiles_of_places(profiles, FirCode::LFEE);
    let three = lemma_profiles_of_places(profiles, FirCode::LFFF);
    let four = lemma_profiles_of_places(profiles, FirCode::LFMM);
    let five = lemma_profiles_of_places(profiles, FirCode::LFRR);
    lemma_keyed_places_join(profiles, one, two, 0, 1, 2);
    lemma_keyed_places_join(profiles, one + two, three, 0, 2, 3);
    lemma_keyed_places_join(profiles, one + two + three, four, 0, 3, 4);
    lemma_keyed_places_join(profiles, one + two + three + four, five, 0, 4, 5);
    let at = one + two + three + four + five;
    assert(by_fir(profiles) =~= at.map_values(element));
    assert(are_keyed_places(profiles, at, 0, 5));
    law_keying_keeps_every_profile(profiles);
    vstd::seq_lib::to_multiset_len(profiles);
    vstd::seq_lib::to_multiset_len(by_fir(profiles));
}

/// Every profile had from an archive carries exactly the contents of an entry of it, however
/// long, whose name ends in `.json`, and the header that was read out of all of them.
pub proof fn law_profiles_are_whole_entries<F: Fn(&str, &[u8]) -> Option<ProfileHeader>>(
    parse: F,
    entries: Seq<Option<(Seq<char>, Option<Seq<u8>>)>>,
    parsed: Seq<Parsed>,
    k: int,
)
    requires
        may_parse_all(parse, extracted_files(entries), parsed),
        0 <= k < by_fir(published_profiles(parsed)).len(),
    ensures
        ({
            let profile = by_fir(published_profiles(parsed))[k];
            exists|i: int|
                {
                    &&& 0 <= i < entries.len()
                    &&& #[trigger] entries[i] matches Some((name, Some(contents)))
                    &&& ends_alike(name, seq!['.', 'j', 's', 'o', 'n'], 0)
                    &&& profile.bytes == contents
                    &&& exists|file: &str, document: &[u8], header: ProfileHeader|
                        {
                            &&& #[trigger] call_ensures(parse, (file, document), Some(header))
                            &&& is_last_part(name, file@)
                            &&& document@ == contents
                            &&& profile.header == header@
                        }
                }
        }),
{
    let files = extracted_files(entries);
    let profiles = published_profiles(parsed);
    law_keying_only_rearranges(profiles);
    let order = choose|at: Seq<int>|
        {
            &&& #[trigger] are_keyed_places(profiles, at, 0, 5)
            &&& at.len() == by_fir(profiles).len()
            &&& forall|k: int|
                0 <= k < at.len() ==> #[trigger] by_fir(profiles)[k] == profiles[at[k]]
        };
    let profile = by_fir(profiles)[k];
    let j = order[k];
    assert(profile == profiles[j]);
    let profile_of = |file: Parsed| published(file);
    let at = lemma_filter_map_places(parsed, profile_of);
    let f = at[j];
    assert(Some(profiles[j]) == profile_of(parsed[f]));
    assert(parsed.map_values(
        |file: Parsed| Extracted { file_name: file.file_name, bytes: file.bytes },
    ).len() == parsed.len());
    law_every_header_is_asked_for(parse, files, parsed, f);
    let wanted = |i: int|
        entries[i] matches Some((name, Some(bytes))) && ends_alike(
            name,
            seq!['.', 'j', 's', 'o', 'n'],
            0,
        );
    law_files_are_whole_entries(entries);
    let places = choose|at: Seq<int>|
        {
            &&& #[trigger] are_places(entries.len(), at, wanted)
            &&& at.len() == files.len()
            &&& forall|k: int|
                0 <= k < at.len() ==> (entries[at[k]] matches Some((name, Some(bytes)))
                    && (#[trigger] files[k]).bytes == bytes && is_last_part(
                    name,
                    files[k].file_name,
                ))
        };
    let i = places[f];
    assert(files[f].bytes == parsed[f].bytes);
    assert(wanted(i));
    let (name, document, header) = choose|name: &str, document: &[u8], header: Option<
        ProfileHeader,
    >|
        {
            &&& #[trigger] call_ensures(parse, (name, document), header)
            &&& name@ == files[f].file_name
            &&& document@ == files[f].bytes
            &&& match header {
                Some(header) => parsed[f].header == Some(header@),
                None => parsed[f].header is None,
            }
        };
    assert(header is Some);
    assert(call_ensures(parse, (name, document), Some(header->0)));
    assert(entries[i] is Some);
}

/// A region goes by the code that it is named after.
pub proof fn law_regions_go_by_their_codes(fir: FirCode)
    ensures
        fir.code() == match fir {
            FirCode::LFBB => seq!['L', 'F', 'B', 'B'],
            FirCode::LFEE => seq!['L', 'F', 'E', 'E'],
            FirCode::LFFF => seq!['L', 'F', 'F', 'F'],
            FirCode::LFMM => seq!['L', 'F', 'M', 'M'],
            FirCode::LFRR => seq!['L', 'F', 'R', 'R'],
        },
        FirCode::ALL@ == seq![
            FirCode::LFBB,
            FirCode::LFEE,
            FirCode::LFFF,
            FirCode::LFMM,
            FirCode::LFRR,
        ],
{
    reveal_strlit("LFBB");
    reveal_strlit("LFEE");
    reveal_strlit("LFFF");
    reveal_strlit("LFMM");
    reveal_strlit("LFRR");
}

} // verus!
