//! What paths are, said of their characters.

use crate::location::Place;
use crate::native::{
    file_name_in, has_drive_at, has_separator_at, joined, resolved, starts_doubly,
    verbatim_components, windows_body, windows_prefix, written,
};
use crate::paths::Platform;
use crate::text;
use crate::text::Separators;
use vstd::prelude::*;

verus! {

/// What each kind of separators is.
pub proof fn law_what_separators_are(c: char)
    ensures
        Separators::Slash.part_at(c) <==> c == '/',
        Separators::Backslash.part_at(c) <==> c == '\\',
        Separators::Both.part_at(c) <==> c == '/' || c == '\\',
{
}

/// Whether a segment of `s` that starts at `from` reaches up to `to`.
pub open spec fn reaches(s: Seq<char>, from: int, to: int, separators: Separators) -> bool {
    &&& 0 <= from <= to <= s.len()
    &&& forall|i: int| from <= i < to ==> !separators.part_at(#[trigger] s[i])
    &&& to == s.len() || separators.part_at(s[to])
}

/// The first segment reaches up to the first separator.
proof fn lemma_first_segment_reaches(s: Seq<char>, separators: Separators)
    ensures
        reaches(s, 0, text::first_segment(s, separators).len() as int, separators),
    decreases s.len(),
{
    if s.len() > 0 && !separators.part_at(s[0]) {
        let rest = s.drop_first();
        lemma_first_segment_reaches(rest, separators);
        let n = text::first_segment(rest, separators).len();
        assert forall|i: int| 0 <= i < n + 1 implies !separators.part_at(#[trigger] s[i]) by {
            if i > 0 {
                assert(rest[i - 1] == s[i]);
            }
        }
        if n < rest.len() {
            assert(rest[n as int] == s[n + 1int]);
        }
    }
}

/// The segment from `from` on reaches up to the next separator.
proof fn lemma_segment_reaches(s: Seq<char>, from: int, separators: Separators)
    requires
        0 <= from <= s.len(),
    ensures
        reaches(
            s,
            from,
            from + text::first_segment(s.skip(from), separators).len(),
            separators,
        ),
{
    let rest = s.skip(from);
    lemma_first_segment_reaches(rest, separators);
    let n = text::first_segment(rest, separators).len();
    assert forall|i: int| from <= i < from + n implies !separators.part_at(#[trigger] s[i]) by {
        assert(rest[i - from] == s[i]);
    }
    if n < rest.len() {
        assert(rest[n as int] == s[from + n]);
    }
}

/// Whether `text` has a slash or a backslash at `at`.
pub open spec fn parts_at(text: Seq<char>, at: int) -> bool {
    0 <= at < text.len() && (text[at] == '/' || text[at] == '\\')
}

/// Whether a letter and a colon stand in `text` at `at`.
pub open spec fn drive_stands_at(text: Seq<char>, at: int) -> bool {
    &&& 0 <= at < text.len() - 1
    &&& 'a' <= text[at] <= 'z' || 'A' <= text[at] <= 'Z'
    &&& text[at + 1] == ':'
}

/// Whether a server that starts at `from` reaches up to `middle`, and a share behind it that
/// is not empty up to `end`.
pub open spec fn is_share(
    text: Seq<char>,
    from: int,
    middle: int,
    end: int,
    separators: Separators,
) -> bool {
    &&& reaches(text, from, middle, separators)
    &&& middle + 1 < end
    &&& reaches(text, middle + 1, end, separators)
}

/// Whether the prefix of a Windows path reaches up to `end`, and whether it is a verbatim one.
pub open spec fn is_prefix(text: Seq<char>, end: int, verbatim: bool) -> bool {
    let n = text.len();
    if !(parts_at(text, 0) && parts_at(text, 1)) {
        !verbatim && end == if drive_stands_at(text, 0) {
            2int
        } else {
            0
        }
    } else if n >= 4 && text.take(4) == seq!['\\', '\\', '?', '\\'] {
        &&& verbatim
        &&& if n >= 8 && text.subrange(4, 7) == seq!['U', 'N', 'C'] && parts_at(text, 7) {
            ||| exists|middle: int| #[trigger]
                is_share(text, 8, middle, end, Separators::Backslash)
            ||| reaches(text, 8, end, Separators::Backslash) && !(exists|share: int| #[trigger]
                is_share(text, 8, end, share, Separators::Backslash))
        } else if drive_stands_at(text, 4) && (n == 6 || parts_at(text, 6)) {
            end == 6
        } else {
            reaches(text, 4, end, Separators::Backslash)
        }
    } else if n >= 4 && text[2] == '.' && parts_at(text, 3) {
        !verbatim && reaches(text, 4, end, Separators::Both)
    } else {
        &&& !verbatim
        &&& {
            ||| exists|middle: int|
                middle > 2 && #[trigger] is_share(text, 2, middle, end, Separators::Both)
            ||| end == 0 && !(exists|middle: int, share: int|
                middle > 2 && #[trigger] is_share(text, 2, middle, share, Separators::Both))
        }
    }
}

/// A segment reaches to one place only.
proof fn lemma_reaches_once(s: Seq<char>, from: int, one: int, two: int, separators: Separators)
    requires
        reaches(s, from, one, separators),
        reaches(s, from, two, separators),
    ensures
        one == two,
{
    if one < two {
        assert(!separators.part_at(s[one]));
    } else if two < one {
        assert(!separators.part_at(s[two]));
    }
}

/// How far a server and a share reach.
proof fn lemma_share_reaches(text: Seq<char>, from: int, separators: Separators)
    requires
        0 <= from <= text.len(),
    ensures
        ({
            let server = text::first_segment(text.skip(from), separators).len();
            let share = text::second_segment(text.skip(from), separators).len();
            let middle = from + server;
            &&& reaches(text, from, middle, separators)
            &&& if share > 0 {
                is_share(text, from, middle, middle + 1 + share, separators)
            } else {
                forall|other: int, end: int| !#[trigger] is_share(
                    text,
                    from,
                    other,
                    end,
                    separators,
                )
            }
        }),
{
    let server = text::first_segment(text.skip(from), separators).len();
    let share = text::second_segment(text.skip(from), separators).len();
    let middle = from + server;
    lemma_segment_reaches(text, from, separators);
    if middle < text.len() {
        assert(text.skip(from).skip(server + 1int) =~= text.skip(middle + 1));
        lemma_segment_reaches(text, middle + 1, separators);
        assert(share == text::first_segment(text.skip(middle + 1), separators).len());
    }
    if share == 0 {
        assert forall|other: int, end: int| !#[trigger] is_share(
            text,
            from,
            other,
            end,
            separators,
        ) by {
            if is_share(text, from, other, end, separators) {
                lemma_reaches_once(text, from, other, middle, separators);
                lemma_reaches_once(text, middle + 1, end, middle + 1, separators);
            }
        }
    }
}

/// The prefix of a Windows path is a drive, the server and the share of a network path, a
/// device, or one of the verbatim ones, however long; and a path without any has none.
pub proof fn law_what_the_prefix_of_a_path_is(path: Seq<char>)
    ensures
        is_prefix(path, windows_prefix(path).0, windows_prefix(path).1),
{
    let n = path.len();
    assert(starts_doubly(path) <==> parts_at(path, 0) && parts_at(path, 1));
    assert(has_drive_at(path, 0) <==> drive_stands_at(path, 0));
    if starts_doubly(path) {
        let head = seq!['\\', '\\', '?', '\\'];
        if n >= 4 {
            assert(path.take(4) == head <==> path[0] == '\\' && path[1] == '\\' && path[2] == '?'
                && path[3] == '\\') by {
                if path[0] == '\\' && path[1] == '\\' && path[2] == '?' && path[3] == '\\' {
                    assert(path.take(4) =~= head);
                }
                if path.take(4) == head {
                    assert(path.take(4)[0] == '\\' && path.take(4)[1] == '\\' && path.take(4)[2]
                        == '?' && path.take(4)[3] == '\\');
                }
            }
        }
        if n >= 4 && path.take(4) == head {
            assert(has_drive_at(path, 4) <==> drive_stands_at(path, 4));
            lemma_segment_reaches(path, 4, Separators::Backslash);
            if n >= 8 {
                let word = seq!['U', 'N', 'C'];
                assert(path.subrange(4, 7) == word <==> path[4] == 'U' && path[5] == 'N'
                    && path[6] == 'C') by {
                    if path[4] == 'U' && path[5] == 'N' && path[6] == 'C' {
                        assert(path.subrange(4, 7) =~= word);
                    }
                    if path.subrange(4, 7) == word {
                        assert(path.subrange(4, 7)[0] == 'U' && path.subrange(4, 7)[1] == 'N'
                            && path.subrange(4, 7)[2] == 'C');
                    }
                }
                lemma_share_reaches(path, 8, Separators::Backslash);
            }
        } else {
            if n >= 4 {
                lemma_segment_reaches(path, 4, Separators::Both);
            }
            lemma_share_reaches(path, 2, Separators::Both);
            let server = text::first_segment(path.skip(2), Separators::Both).len();
            let share = text::second_segment(path.skip(2), Separators::Both).len();
            if server == 0 {
                assert forall|middle: int, end: int| middle > 2 implies !#[trigger] is_share(
                    path,
                    2,
                    middle,
                    end,
                    Separators::Both,
                ) by {
                    if is_share(path, 2, middle, end, Separators::Both) {
                        lemma_reaches_once(path, 2, middle, 2, Separators::Both);
                    }
                }
            } else if share > 0 {
                assert(is_share(
                    path,
                    2,
                    2int + server,
                    2int + server + 1 + share,
                    Separators::Both,
                ));
            }
        }
    }
}

/// Whether nothing in `tail` names anything: separators, and single dots where these do not
/// count.
pub open spec fn names_nothing(tail: Seq<char>, separators: Separators, dot_counts: bool) -> bool {
    &&& tail.len() == 0 || separators.part_at(tail[0])
    &&& forall|i: int|
        0 <= i < tail.len() ==> separators.part_at(#[trigger] tail[i]) || {
            &&& !dot_counts
            &&& tail[i] == '.'
            &&& i > 0
            &&& separators.part_at(tail[i - 1])
            &&& i + 1 == tail.len() || separators.part_at(tail[i + 1])
        }
}

/// Whether `name` is the last thing named in `s`, between `front` and `tail`.
pub open spec fn names_last(
    s: Seq<char>,
    front: Seq<char>,
    name: Seq<char>,
    tail: Seq<char>,
    separators: Separators,
    dot_counts: bool,
) -> bool {
    &&& s == front + name + tail
    &&& front.len() == 0 || separators.part_at(front.last())
    &&& name.len() > 0
    &&& dot_counts || name != seq!['.']
    &&& forall|i: int| 0 <= i < name.len() ==> !separators.part_at(#[trigger] name[i])
    &&& names_nothing(tail, separators, dot_counts)
}

/// What the last segment is.
proof fn lemma_last_segment_stands(s: Seq<char>, separators: Separators)
    ensures
        ({
            let last = text::last_segment(s, separators);
            &&& last.len() <= s.len()
            &&& last == s.skip(s.len() - last.len())
            &&& forall|i: int| 0 <= i < last.len() ==> !separators.part_at(#[trigger] last[i])
            &&& last.len() == s.len() || separators.part_at(s[s.len() - last.len() - 1])
        }),
    decreases s.len(),
{
    text::lemma_last_segment_ends(s, separators);
    if s.len() > 0 && !separators.part_at(s.last()) {
        let front = s.drop_last();
        lemma_last_segment_stands(front, separators);
        let last = text::last_segment(s, separators);
        let before = text::last_segment(front, separators);
        assert(last == before.push(s.last()));
        assert forall|i: int| 0 <= i < last.len() implies !separators.part_at(
            #[trigger] last[i],
        ) by {
            if i < before.len() {
                assert(last[i] == before[i]);
            }
        }
    }
}

/// The last component is the last thing named.
proof fn lemma_last_component_is_named(
    s: Seq<char>,
    separators: Separators,
    dot_counts: bool,
) -> (parts: (Seq<char>, Seq<char>))
    requires
        !separators.part_at('.'),
    ensures
        text::last_component(s, separators, dot_counts) matches Some(name) ==> names_last(
            s,
            parts.0,
            name,
            parts.1,
            separators,
            dot_counts,
        ),
    decreases s.len(),
{
    let last = text::last_segment(s, separators);
    lemma_last_segment_stands(s, separators);
    let at = s.len() - last.len();
    if last.len() > 0 && (dot_counts || last != seq!['.']) {
        let front = s.take(at);
        assert(s =~= front + last + Seq::empty());
        (front, Seq::empty())
    } else if at > 0 {
        let before = s.take(at - 1);
        let (front, tail) = lemma_last_component_is_named(before, separators, dot_counts);
        let longer = tail.push(s[at - 1]) + last;
        if let Some(name) = text::last_component(before, separators, dot_counts) {
            assert(s =~= before.push(s[at - 1]) + last);
            assert(s =~= front + name + longer);
            assert forall|i: int| 0 <= i < longer.len() implies separators.part_at(
                #[trigger] longer[i],
            ) || {
                &&& !dot_counts
                &&& longer[i] == '.'
                &&& i > 0
                &&& separators.part_at(longer[i - 1])
                &&& i + 1 == longer.len() || separators.part_at(longer[i + 1])
            } by {
                if i < tail.len() {
                    assert(longer[i] == tail[i]);
                    if i > 0 {
                        assert(longer[i - 1] == tail[i - 1]);
                    }
                    if i + 1 < tail.len() {
                        assert(longer[i + 1] == tail[i + 1]);
                    }
                } else if i > tail.len() {
                    assert(last == seq!['.']);
                    assert(longer[i] == last[i - tail.len() - 1]);
                }
            }
            if tail.len() > 0 {
                assert(longer[0] == tail[0]);
            }
        }
        (front, longer)
    } else {
        (Seq::empty(), Seq::empty())
    }
}

/// The last thing named is the last component.
proof fn lemma_named_is_last_component(
    s: Seq<char>,
    front: Seq<char>,
    name: Seq<char>,
    tail: Seq<char>,
    separators: Separators,
    dot_counts: bool,
)
    requires
        !separators.part_at('.'),
        names_last(s, front, name, tail, separators, dot_counts),
    ensures
        text::last_component(s, separators, dot_counts) == Some(name),
    decreases tail.len(),
{
    let n = tail.len();
    if n == 0 {
        assert(s =~= front + name);
        text::lemma_last_segment_of_joined(front, name, separators);
    } else {
        let end = tail[n - 1];
        let (shorter, last) = if separators.part_at(end) {
            (tail.take(n - 1), Seq::empty())
        } else {
            (tail.take(n - 2), seq!['.'])
        };
        let whole = front + name + shorter;
        let glue = tail[shorter.len() as int];
        assert(separators.part_at(glue));
        assert(tail =~= shorter.push(glue) + last);
        assert(s =~= whole.push(glue) + last);
        text::lemma_last_segment_of_joined(whole.push(glue), last, separators);
        assert(text::last_segment(s, separators) == last);
        assert(s.take(s.len() - last.len() - 1) =~= whole);
        assert forall|i: int| 0 <= i < shorter.len() implies separators.part_at(
            #[trigger] shorter[i],
        ) || {
            &&& !dot_counts
            &&& shorter[i] == '.'
            &&& i > 0
            &&& separators.part_at(shorter[i - 1])
            &&& i + 1 == shorter.len() || separators.part_at(shorter[i + 1])
        } by {
            assert(shorter[i] == tail[i]);
            if i > 0 {
                assert(shorter[i - 1] == tail[i - 1]);
            }
            if i + 1 < shorter.len() {
                assert(shorter[i + 1] == tail[i + 1]);
            }
        }
        if shorter.len() > 0 {
            assert(shorter[0] == tail[0]);
        }
        lemma_named_is_last_component(whole, front, name, shorter, separators, dot_counts);
    }
}

/// Where a Windows path goes on behind its prefix, and behind the separator that follows it.
pub open spec fn behind_prefix(path: Seq<char>, end: int) -> Seq<char> {
    path.skip(
        if parts_at(path, end) {
            end + 1
        } else {
            end
        },
    )
}

/// A path ends in a name exactly when that is the last thing that it names, however long: what
/// follows it are separators and, but behind a verbatim prefix, single dots; and it is none of
/// the names of one or two dots. On Windows, what is named starts behind the prefix.
pub proof fn law_what_a_path_ends_in(platform: Platform, path: Seq<char>, name: Seq<char>)
    ensures
        file_name_in(platform, path) == Some(name) <==> {
            &&& name != seq!['.']
            &&& name != seq!['.', '.']
            &&& match platform {
                Platform::MacOs => is_named_last(path, name, Separators::Slash, false),
                Platform::Windows => {
                    let (end, verbatim) = windows_prefix(path);
                    is_named_last(
                        behind_prefix(path, end),
                        name,
                        if verbatim {
                            Separators::Backslash
                        } else {
                            Separators::Both
                        },
                        verbatim,
                    )
                },
            }
        },
{
    match platform {
        Platform::MacOs => lemma_named_last(path, name, Separators::Slash, false),
        Platform::Windows => {
            let (end, verbatim) = windows_prefix(path);
            law_what_the_prefix_of_a_path_is(path);
            lemma_prefix_fits(path);
            assert(windows_body(path) == behind_prefix(path, end));
            lemma_named_last(
                behind_prefix(path, end),
                name,
                if verbatim {
                    Separators::Backslash
                } else {
                    Separators::Both
                },
                verbatim,
            );
        },
    }
}

/// A prefix ends within its path.
proof fn lemma_prefix_fits(path: Seq<char>)
    ensures
        0 <= windows_prefix(path).0 <= path.len(),
{
    law_what_the_prefix_of_a_path_is(path);
}

/// Whether `name` is the last thing named in `s`.
pub open spec fn is_named_last(
    s: Seq<char>,
    name: Seq<char>,
    separators: Separators,
    dot_counts: bool,
) -> bool {
    exists|front: Seq<char>, tail: Seq<char>| #[trigger]
        names_last(s, front, name, tail, separators, dot_counts)
}

/// The last thing named, and nothing else, is the last component.
proof fn lemma_named_last(
    s: Seq<char>,
    name: Seq<char>,
    separators: Separators,
    dot_counts: bool,
)
    requires
        !separators.part_at('.'),
    ensures
        text::last_component(s, separators, dot_counts) == Some(name) <==> is_named_last(
            s,
            name,
            separators,
            dot_counts,
        ),
{
    let (front, tail) = lemma_last_component_is_named(s, separators, dot_counts);
    if text::last_component(s, separators, dot_counts) == Some(name) {
        assert(names_last(s, front, name, tail, separators, dot_counts));
    }
    if is_named_last(s, name, separators, dot_counts) {
        let (front, tail) = choose|front: Seq<char>, tail: Seq<char>| #[trigger]
            names_last(s, front, name, tail, separators, dot_counts);
        lemma_named_is_last_component(s, front, name, tail, separators, dot_counts);
    }
}

/// Whether `whole` is `front`, at most one `glue`, and `back`: with the glue exactly where it
/// is `needed`.
pub open spec fn is_glued(
    whole: Seq<char>,
    front: Seq<char>,
    glue: char,
    needed: bool,
    back: Seq<char>,
) -> bool {
    &&& whole.len() == front.len() + back.len() + if needed {
        1int
    } else {
        0
    }
    &&& forall|i: int| 0 <= i < front.len() ==> #[trigger] whole[i] == front[i]
    &&& needed ==> whole[front.len() as int] == glue
    &&& forall|i: int|
        0 <= i < back.len() ==> whole[whole.len() - back.len() + i] == #[trigger] back[i]
}

/// On macOS what starts with a slash replaces what it is joined to; anything else comes behind
/// it, and behind a slash unless there is one already or nothing before.
pub proof fn law_joining_on_macos(path: Seq<char>, text: Seq<char>)
    ensures
        if text.len() > 0 && text[0] == '/' {
            joined(Platform::MacOs, path, text) == text
        } else {
            is_glued(
                joined(Platform::MacOs, path, text),
                path,
                '/',
                path.len() > 0 && path[path.len() - 1] != '/',
                text,
            )
        },
{
}

/// On Windows what has a prefix of its own replaces what it is joined to, and what starts with
/// a separator replaces what is behind the prefix; anything else comes behind the path, and
/// behind a backslash unless a separator is there already, or nothing, or a drive alone. Behind
/// a verbatim prefix the names are written one by one.
pub proof fn law_joining_on_windows(path: Seq<char>, text: Seq<char>)
    ensures
        ({
            let whole = joined(Platform::Windows, path, text);
            let (end, verbatim) = windows_prefix(path);
            if windows_prefix(text).0 > 0 {
                whole == text
            } else if verbatim && text.len() > 0 {
                whole == path.take(end) + written(
                    resolved(
                        if parts_at(text, 0) {
                            Seq::empty()
                        } else {
                            verbatim_components(behind_prefix(path, end))
                        },
                        text,
                    ),
                )
            } else if parts_at(text, 0) {
                is_glued(whole, path.take(end), '\\', false, text)
            } else {
                is_glued(
                    whole,
                    path,
                    '\\',
                    path.len() > 0 && !parts_at(path, path.len() - 1) && !(path.len() == 2
                        && drive_stands_at(path, 0)),
                    text,
                )
            }
        }),
{
    lemma_prefix_fits(path);
    lemma_prefix_fits(text);
    let end = windows_prefix(path).0;
    assert(windows_body(path) == behind_prefix(path, end));
    assert(has_separator_at(text, 0) <==> parts_at(text, 0));
}

/// Whether resolving one more segment leads from the names `before` to the names `after`: an
/// empty one or a single dot changes nothing, two dots take away the last name, and anything
/// else is one name more.
pub open spec fn is_resolved(
    before: Seq<Seq<char>>,
    segment: Seq<char>,
    after: Seq<Seq<char>>,
) -> bool {
    if segment.len() == 0 || segment == seq!['.'] {
        after == before
    } else if segment == seq!['.', '.'] {
        if before.len() == 0 || before.last() == seq!['.'] || before.last() == seq!['.', '.'] {
            after == before
        } else {
            &&& after.len() == before.len() - 1
            &&& forall|i: int| 0 <= i < after.len() ==> #[trigger] after[i] == before[i]
        }
    } else {
        &&& after.len() == before.len() + 1
        &&& forall|i: int| 0 <= i < before.len() ==> #[trigger] after[i] == before[i]
        &&& after.last() == segment
    }
}

/// A text is resolved segment by segment, however many there are.
pub proof fn law_resolving_goes_segment_by_segment(
    held: Seq<Seq<char>>,
    front: Seq<char>,
    separator: char,
    segment: Seq<char>,
)
    requires
        separator == '/' || separator == '\\',
        forall|i: int| 0 <= i < segment.len() ==> !parts_at(segment, i),
    ensures
        is_resolved(held, segment, resolved(held, segment)),
        is_resolved(
            resolved(held, front),
            segment,
            resolved(held, front.push(separator) + segment),
        ),
{
    assert forall|i: int| 0 <= i < segment.len() implies !Separators::Both.part_at(
        #[trigger] segment[i],
    ) by {
        assert(!parts_at(segment, i));
    }
    lemma_alone(segment, Separators::Both);
    lemma_behind(front, separator, segment, Separators::Both);
    assert(seq!['.'].len() == 1);
    assert(seq!['.', '.'].len() == 2);
}

/// A text without separators is its own last segment, and nothing comes before it.
proof fn lemma_alone(segment: Seq<char>, separators: Separators)
    requires
        forall|i: int| 0 <= i < segment.len() ==> !separators.part_at(#[trigger] segment[i]),
    ensures
        text::last_segment(segment, separators) == segment,
        text::before_last_segment(segment, separators) is None,
{
    text::lemma_last_segment_of_joined(Seq::empty(), segment, separators);
    assert(Seq::empty() + segment =~= segment);
}

/// A segment behind a separator is the last one, and all that is before comes before it.
proof fn lemma_behind(
    front: Seq<char>,
    separator: char,
    segment: Seq<char>,
    separators: Separators,
)
    requires
        separators.part_at(separator),
        forall|i: int| 0 <= i < segment.len() ==> !separators.part_at(#[trigger] segment[i]),
    ensures
        text::last_segment(front.push(separator) + segment, separators) == segment,
        text::before_last_segment(front.push(separator) + segment, separators) == Some(front),
{
    let whole = front.push(separator) + segment;
    text::lemma_last_segment_of_joined(front.push(separator), segment, separators);
    assert(whole.take(whole.len() - segment.len() - 1) =~= front);
}

/// The names behind a verbatim prefix are what its backslashes part, but for the empty ones.
pub proof fn law_verbatim_names_are_between_backslashes(front: Seq<char>, segment: Seq<char>)
    requires
        forall|i: int| 0 <= i < segment.len() ==> #[trigger] segment[i] != '\\',
    ensures
        verbatim_components(segment) == if segment.len() == 0 {
            Seq::empty()
        } else {
            seq![segment]
        },
        verbatim_components(front.push('\\') + segment) == if segment.len() == 0 {
            verbatim_components(front)
        } else {
            verbatim_components(front).push(segment)
        },
{
    lemma_alone(segment, Separators::Backslash);
    lemma_behind(front, '\\', segment, Separators::Backslash);
    assert(Seq::empty().push(segment) =~= seq![segment]);
}

/// Names are written behind a backslash each, whole and in order.
pub proof fn law_names_are_written_behind_backslashes(names: Seq<Seq<char>>, name: Seq<char>)
    ensures
        written(Seq::empty()).len() == 0,
        written(names.push(name)) == written(names) + seq!['\\'] + name,
{
    assert(names.push(name).drop_last() =~= names);
    assert(written(names).push('\\') =~= written(names) + seq!['\\']);
}

/// The path of a place is the path that it starts at, with each text joined to it in order.
pub proof fn law_paths_are_joined_in_order(platform: Platform, place: Place, name: Seq<char>)
    ensures
        place.names.len() == 0 ==> place.path(platform) == place.base,
        (Place { base: place.base, names: place.names.push(name) }).path(platform) == joined(
            platform,
            place.path(platform),
            name,
        ),
        place.file_name(platform) == file_name_in(platform, place.path(platform)),
{
    reveal(Place::file_name);
    let more = Place { base: place.base, names: place.names.push(name) };
    assert(more.names.drop_last() =~= place.names);
}

} // verus!
