//! Paths as a platform writes and reads them.

use crate::paths::Platform;
use crate::text;
use crate::text::Separators;
use crate::views::{lemma_views_push, views};
use vstd::prelude::*;

verus! {

/// Whether `c` is an ASCII letter, as drives are called.
pub open spec fn is_drive_letter(c: char) -> bool {
    'a' <= c <= 'z' || 'A' <= c <= 'Z'
}

/// Whether a drive, such as `C:`, stands in `text` at `at`.
pub open spec fn has_drive_at(text: Seq<char>, at: int) -> bool {
    text.len() >= at + 2 && is_drive_letter(text[at]) && text[at + 1] == ':'
}

/// Whether `text` has a separator of Windows at `at`.
pub open spec fn has_separator_at(text: Seq<char>, at: int) -> bool {
    at < text.len() && Separators::Both.part_at(text[at])
}

/// Whether `text` starts with two separators of Windows.
pub open spec fn starts_doubly(text: Seq<char>) -> bool {
    has_separator_at(text, 0) && has_separator_at(text, 1)
}

/// How far the server and the share of a network path reach that start at `from`: nowhere
/// beyond the server when there is no share.
pub open spec fn share_end(text: Seq<char>, from: int, separators: Separators) -> int {
    let server = text::first_segment(text.skip(from), separators).len();
    let share = text::second_segment(text.skip(from), separators).len();
    from + server + if share > 0 {
        1 + share as int
    } else {
        0
    }
}

/// The prefix of a Windows path: how long it is, and whether it is a verbatim one (behind
/// which only the backslash parts segments, and a dot is a name like any other). A path
/// without a prefix has one of length zero.
///
/// The prefixes are `\\?\UNC\server\share`, `\\?\C:` and `\\?\name`, which are verbatim,
/// and `\\.\device`, `\\server\share` and `C:`, which are not.
pub open spec fn windows_prefix(text: Seq<char>) -> (int, bool) {
    if starts_doubly(text) {
        if is_verbatim(text) {
            if text.len() >= 8 && text[4] == 'U' && text[5] == 'N' && text[6] == 'C'
                && has_separator_at(text, 7) {
                (share_end(text, 8, Separators::Backslash), true)
            } else if has_drive_at(text, 4) && (text.len() == 6 || has_separator_at(text, 6)) {
                (6, true)
            } else {
                (4int + text::first_segment(text.skip(4), Separators::Backslash).len(), true)
            }
        } else if text.len() >= 4 && text[2] == '.' && has_separator_at(text, 3) {
            (4int + text::first_segment(text.skip(4), Separators::Both).len(), false)
        } else if text::first_segment(text.skip(2), Separators::Both).len() > 0
            && text::second_segment(text.skip(2), Separators::Both).len() > 0 {
            (share_end(text, 2, Separators::Both), false)
        } else {
            (0, false)
        }
    } else if has_drive_at(text, 0) {
        (2, false)
    } else {
        (0, false)
    }
}

/// Whether `text` starts with `\\?\`, written with backslashes.
pub open spec fn is_verbatim(text: Seq<char>) -> bool {
    text.len() >= 4 && text[0] == '\\' && text[1] == '\\' && text[2] == '?' && text[3] == '\\'
}

/// What a Windows path names behind its prefix and its root.
pub open spec fn windows_body(text: Seq<char>) -> Seq<char> {
    let start = windows_prefix(text).0;
    text.skip(
        if has_separator_at(text, start) {
            start + 1
        } else {
            start
        },
    )
}

/// The last component that a path names.
pub open spec fn last_component_in(platform: Platform, path: Seq<char>) -> Option<Seq<char>> {
    match platform {
        Platform::MacOs => text::last_component(path, Separators::Slash, false),
        Platform::Windows => if windows_prefix(path).1 {
            text::last_component(windows_body(path), Separators::Backslash, true)
        } else {
            text::last_component(windows_body(path), Separators::Both, false)
        },
    }
}

/// The name that a path ends in: that of its last component. `None` when it has none, or when
/// that leads to where the path is or above it.
pub open spec fn file_name_in(platform: Platform, path: Seq<char>) -> Option<Seq<char>> {
    match last_component_in(platform, path) {
        Some(name) => if name == seq!['.'] || name == seq!['.', '.'] {
            None
        } else {
            Some(name)
        },
        None => None,
    }
}

/// The path that comes of joining `text` to `path`.
pub open spec fn joined(platform: Platform, path: Seq<char>, text: Seq<char>) -> Seq<char> {
    match platform {
        Platform::MacOs => if text.len() > 0 && text[0] == '/' {
            text
        } else if path.len() == 0 || path.last() == '/' {
            path + text
        } else {
            path.push('/') + text
        },
        Platform::Windows => if windows_prefix(text).0 > 0 {
            text
        } else if windows_prefix(path).1 && text.len() > 0 {
            verbatim_joined(path, text)
        } else if has_separator_at(text, 0) {
            path.take(windows_prefix(path).0) + text
        } else if path.len() == 0 || Separators::Both.part_at(path.last()) || path.len() == 2
            && has_drive_at(path, 0) {
            path + text
        } else {
            path.push('\\') + text
        },
    }
}

/// The path that comes of joining `text` to a verbatim path: no component of it is left for
/// the file system to resolve.
pub open spec fn verbatim_joined(path: Seq<char>, text: Seq<char>) -> Seq<char> {
    let held = if has_separator_at(text, 0) {
        Seq::empty()
    } else {
        verbatim_components(windows_body(path))
    };
    path.take(windows_prefix(path).0) + written(resolved(held, text))
}

/// The components of a verbatim path, behind its prefix and its root.
pub open spec fn verbatim_components(body: Seq<char>) -> Seq<Seq<char>>
    decreases body.len(),
{
    let last = text::last_segment(body, Separators::Backslash);
    let before = match text::before_last_segment(body, Separators::Backslash) {
        Some(front) => if front.len() < body.len() {
            verbatim_components(front)
        } else {
            Seq::empty()
        },
        None => Seq::empty(),
    };
    if last.len() > 0 {
        before.push(last)
    } else {
        before
    }
}

/// The components `held`, and then those of `text`, in which one dot changes nothing and two
/// take the last name away.
pub open spec fn resolved(held: Seq<Seq<char>>, text: Seq<char>) -> Seq<Seq<char>>
    decreases text.len(),
{
    let last = text::last_segment(text, Separators::Both);
    let before = match text::before_last_segment(text, Separators::Both) {
        Some(front) => if front.len() < text.len() {
            resolved(held, front)
        } else {
            held
        },
        None => held,
    };
    if last.len() == 0 || last == seq!['.'] {
        before
    } else if last != seq!['.', '.'] {
        before.push(last)
    } else if before.len() > 0 && before.last() != seq!['.'] && before.last() != seq!['.', '.'] {
        before.drop_last()
    } else {
        before
    }
}

/// Components as they are written, each behind a backslash.
pub open spec fn written(components: Seq<Seq<char>>) -> Seq<char>
    decreases components.len(),
{
    if components.len() == 0 {
        Seq::empty()
    } else {
        written(components.drop_last()).push('\\') + components.last()
    }
}

/// Whether `name` names one file or directory in the directory that it is joined to, and
/// nothing elsewhere: it holds no separator, starts with no drive, and is neither empty nor
/// `.` nor `..`.
pub open spec fn is_plain(platform: Platform, name: Seq<char>) -> bool {
    &&& name.len() > 0
    &&& name != seq!['.']
    &&& name != seq!['.', '.']
    &&& platform is Windows ==> !has_drive_at(name, 0)
    &&& forall|i: int|
        0 <= i < name.len() ==> !separators_of(platform).part_at(#[trigger] name[i])
}

/// What parts the segments of a path.
pub open spec fn separators_of(platform: Platform) -> Separators {
    match platform {
        Platform::MacOs => Separators::Slash,
        Platform::Windows => Separators::Both,
    }
}

/// A Windows path that does not start with two separators has a drive for its prefix, or none.
proof fn lemma_short_prefix(path: Seq<char>)
    requires
        !starts_doubly(path),
    ensures
        windows_prefix(path) == (if has_drive_at(path, 0) {
            2int
        } else {
            0
        }, false),
{
}

/// What a plain name joined to a Windows path gives: the path, a separator where one is
/// missing, and the name.
proof fn lemma_windows_joined(path: Seq<char>, name: Seq<char>) -> (front: Seq<char>)
    requires
        is_plain(Platform::Windows, name),
        !starts_doubly(path),
    ensures
        joined(Platform::Windows, path, name) == front + name,
        !starts_doubly(front + name),
        has_drive_at(front + name, 0) <==> has_drive_at(front, 0),
        front.len() == 0 || Separators::Both.part_at(front.last()) || front.len() == 2
            && has_drive_at(front, 0),
{
    assert(!Separators::Both.part_at(name[0]));
    lemma_short_prefix(name);
    lemma_short_prefix(path);
    if path.len() == 0 || Separators::Both.part_at(path.last()) || path.len() == 2
        && has_drive_at(path, 0) {
        path
    } else {
        path.push('\\')
    }
}

/// A path that a plain name is joined to ends in that name. On Windows the path must not start
/// with two separators: what is joined to the name of a server is taken for its share.
pub proof fn law_a_plain_name_is_the_file_name(
    platform: Platform,
    path: Seq<char>,
    name: Seq<char>,
)
    requires
        is_plain(platform, name),
        platform is Windows ==> !starts_doubly(path),
    ensures
        file_name_in(platform, joined(platform, path, name)) == Some(name),
{
    match platform {
        Platform::MacOs => {
            assert(!Separators::Slash.part_at(name[0]));
            let front = if path.len() == 0 || path.last() == '/' {
                path
            } else {
                path.push('/')
            };
            text::lemma_last_segment_of_joined(front, name, Separators::Slash);
        },
        Platform::Windows => {
            let front = lemma_windows_joined(path, name);
            let all = front + name;
            lemma_short_prefix(all);
            let prefix = windows_prefix(all).0;
            assert(!Separators::Both.part_at(name[0]));
            let start = if has_separator_at(all, prefix) {
                prefix + 1
            } else {
                prefix
            };
            assert(start <= front.len());
            let rest = front.skip(start);
            assert(all.skip(start) =~= rest + name);
            text::lemma_last_segment_of_joined(rest, name, Separators::Both);
        },
    }
}

/// Whether the characters have a separator of Windows at `at`.
fn separator_at(all: &Vec<char>, at: usize) -> (r: bool)
    ensures
        r == has_separator_at(all@, at as int),
{
    at < all.len() && Separators::Both.includes(all[at])
}

/// Whether a drive stands in the characters at `at`, which is one of the first few.
fn drive_at(all: &Vec<char>, at: usize) -> (r: bool)
    requires
        at <= 4,
    ensures
        r == has_drive_at(all@, at as int),
{
    if all.len() < at + 2 {
        return false;
    }
    let c = all[at];
    (('a' <= c && c <= 'z') || ('A' <= c && c <= 'Z')) && all[at + 1] == ':'
}

/// How long the server and the share are that start at `from`.
fn share_of(all: &Vec<char>, from: usize, separators: Separators) -> (r: (usize, usize))
    requires
        from <= all@.len(),
    ensures
        r.0 == text::first_segment(all@.skip(from as int), separators).len(),
        r.1 == text::second_segment(all@.skip(from as int), separators).len(),
        from + r.0 <= all@.len(),
        r.1 > 0 ==> from + r.0 + 1 + r.1 <= all@.len(),
{
    let total: usize = all.len();
    let server = text::first_segment_length(all, from, separators);
    if from + server < total {
        let share = text::first_segment_length(all, from + server + 1, separators);
        proof {
            assert(all@.skip(from as int).skip(server + 1) =~= all@.skip(from + server + 1));
        }
        (server, share)
    } else {
        (server, 0)
    }
}

/// The prefix of a Windows path: how long it is, and whether it is a verbatim one.
fn prefix_of(all: &Vec<char>) -> (r: (usize, bool))
    ensures
        (r.0 as int, r.1) == windows_prefix(all@),
        r.0 <= all@.len(),
{
    if separator_at(all, 0) && separator_at(all, 1) {
        let verbatim = all.len() >= 4 && all[0] == '\\' && all[1] == '\\' && all[2] == '?'
            && all[3] == '\\';
        if verbatim {
            if all.len() >= 8 && all[4] == 'U' && all[5] == 'N' && all[6] == 'C' && separator_at(
                all,
                7,
            ) {
                let (server, share) = share_of(all, 8, Separators::Backslash);
                if share > 0 {
                    (8 + server + 1 + share, true)
                } else {
                    (8 + server, true)
                }
            } else if drive_at(all, 4) && (all.len() == 6 || separator_at(all, 6)) {
                (6, true)
            } else {
                (4 + text::first_segment_length(all, 4, Separators::Backslash), true)
            }
        } else if all.len() >= 4 && all[2] == '.' && separator_at(all, 3) {
            (4 + text::first_segment_length(all, 4, Separators::Both), false)
        } else {
            let (server, share) = share_of(all, 2, Separators::Both);
            if server > 0 && share > 0 {
                (2 + server + 1 + share, false)
            } else {
                (0, false)
            }
        }
    } else if drive_at(all, 0) {
        (2, false)
    } else {
        (0, false)
    }
}

/// What a Windows path names behind its prefix and its root.
fn body_of(path: &str) -> (r: &str)
    ensures
        r@ == windows_body(path@),
{
    let all = text::characters(path);
    let (prefix, _) = prefix_of(&all);
    let start: usize = if separator_at(&all, prefix) {
        prefix + 1
    } else {
        prefix
    };
    let r = path.substring_char(start, all.len());
    proof {
        assert(r@ =~= path@.skip(start as int));
    }
    r
}

/// The name that a path ends in on `platform`, if it ends in one.
pub(crate) fn file_name_of(platform: Platform, path: &str) -> (r: Option<String>)
    ensures
        match r {
            Some(name) => file_name_in(platform, path@) == Some(name@),
            None => file_name_in(platform, path@) is None,
        },
{
    let last = match platform {
        Platform::MacOs => text::last_component_of(path, Separators::Slash, false),
        Platform::Windows => {
            let (_, verbatim) = prefix_of(&text::characters(path));
            if verbatim {
                text::last_component_of(body_of(path), Separators::Backslash, true)
            } else {
                text::last_component_of(body_of(path), Separators::Both, false)
            }
        },
    };
    match last {
        Some(name) => {
            proof {
                lemma_dots();
            }
            if text::is_dots(name.as_str(), 1) || text::is_dots(name.as_str(), 2) {
                None
            } else {
                Some(name)
            }
        },
        None => None,
    }
}

/// One dot and two dots, spelled out.
proof fn lemma_dots()
    ensures
        Seq::new(1, |i: int| '.') == seq!['.'],
        Seq::new(2, |i: int| '.') == seq!['.', '.'],
{
    assert(Seq::new(1, |i: int| '.') =~= seq!['.']);
    assert(Seq::new(2, |i: int| '.') =~= seq!['.', '.']);
}

/// The components of a verbatim path, behind its prefix and its root.
fn components_of(body: &str) -> (r: Vec<String>)
    ensures
        views(r@) == verbatim_components(body@),
    decreases body@.len(),
{
    let last = text::last_segment_of(body, Separators::Backslash);
    let mut r = match text::before_last_segment_of(body, Separators::Backslash) {
        Some(front) => components_of(front),
        None => {
            let none: Vec<String> = Vec::new();
            proof {
                assert(views(none@) =~= Seq::empty());
            }
            none
        },
    };
    if last.as_str().unicode_len() > 0 {
        proof {
            lemma_views_push(r@, last);
        }
        r.push(last);
    }
    r
}

/// The components `held`, and then those of `text`, resolved.
fn resolve(held: Vec<String>, text: &str) -> (r: Vec<String>)
    ensures
        views(r@) == resolved(views(held@), text@),
    decreases text@.len(),
{
    let last = text::last_segment_of(text, Separators::Both);
    let mut r = match text::before_last_segment_of(text, Separators::Both) {
        Some(front) => resolve(held, front),
        None => held,
    };
    proof {
        lemma_dots();
        lemma_views_push(r@, last);
    }
    if last.as_str().unicode_len() == 0 || text::is_dots(last.as_str(), 1) {
        return r;
    }
    if !text::is_dots(last.as_str(), 2) {
        r.push(last);
        return r;
    }
    if r.len() > 0 && !text::is_dots(r[r.len() - 1].as_str(), 1) && !text::is_dots(
        r[r.len() - 1].as_str(),
        2,
    ) {
        let ghost before = views(r@);
        r.pop();
        proof {
            assert(views(r@) =~= before.drop_last());
        }
    }
    r
}

/// Components as they are written behind `front`.
fn write_components(front: &str, components: &Vec<String>) -> (r: String)
    ensures
        r@ == front@ + written(views(components@)),
{
    let ghost all = views(components@);
    let mut r = front.to_owned();
    let mut i: usize = 0;
    proof {
        assert(all.take(0) =~= Seq::empty());
        assert(front@ + written(all.take(0)) =~= front@);
        reveal_strlit("\\");
    }
    while i < components.len()
        invariant
            i <= components@.len(),
            all == views(components@),
            "\\"@ == seq!['\\'],
            r@ == front@ + written(all.take(i as int)),
        decreases components@.len() - i,
    {
        proof {
            assert(all.take(i + 1).drop_last() =~= all.take(i as int));
            assert(all.take(i + 1).last() == components@[i as int]@);
        }
        r.append("\\");
        r.append(components[i].as_str());
        proof {
            assert(r@ =~= front@ + written(all.take(i + 1)));
        }
        i = i + 1;
    }
    proof {
        assert(all.take(all.len() as int) == all);
    }
    r
}

/// The path that comes of joining `text` to `path`.
pub(crate) fn join_text(platform: Platform, path: &str, text: &str) -> (r: String)
    ensures
        r@ == joined(platform, path@, text@),
{
    let before = text::characters(path);
    let behind = text::characters(text);
    let mut r = path.to_owned();
    proof {
        reveal_strlit("/");
        reveal_strlit("\\");
    }
    match platform {
        Platform::MacOs => {
            if behind.len() > 0 && behind[0] == '/' {
                return text.to_owned();
            }
            if before.len() > 0 && before[before.len() - 1] != '/' {
                r.append("/");
            }
        },
        Platform::Windows => {
            if prefix_of(&behind).0 > 0 {
                return text.to_owned();
            }
            let (prefix, verbatim) = prefix_of(&before);
            let rooted = separator_at(&behind, 0);
            let front = path.substring_char(0, prefix);
            proof {
                assert(front@ =~= path@.take(prefix as int));
            }
            if verbatim && behind.len() > 0 {
                let held = if rooted {
                    let none: Vec<String> = Vec::new();
                    proof {
                        assert(views(none@) =~= Seq::empty());
                    }
                    none
                } else {
                    components_of(body_of(path))
                };
                return write_components(front, &resolve(held, text));
            }
            if rooted {
                r = front.to_owned();
            } else if before.len() > 0 && !Separators::Both.includes(before[before.len() - 1])
                && !(before.len() == 2 && drive_at(&before, 0)) {
                r.append("\\");
            }
        },
    }
    r.append(text);
    proof {
        assert(r@ =~= joined(platform, path@, text@));
    }
    r
}

} // verus!
