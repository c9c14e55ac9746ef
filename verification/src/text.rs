//! Text operations, on strings seen as sequences of characters.

use vstd::prelude::*;

verus! {

/// `c`, or its capital when it is an ASCII small letter.
pub open spec fn capital(c: char) -> char {
    if 'a' <= c <= 'z' {
        ((c as u32) - 32) as char
    } else {
        c
    }
}

/// `c`, or its small letter when it is an ASCII capital.
pub open spec fn small(c: char) -> char {
    if 'A' <= c <= 'Z' {
        ((c as u32) + 32) as char
    } else {
        c
    }
}

/// `s` with every ASCII small letter capitalised.
pub open spec fn capitals(s: Seq<char>) -> Seq<char> {
    s.map_values(|c: char| capital(c))
}

/// `s` with every ASCII capital made small.
pub open spec fn smalls(s: Seq<char>) -> Seq<char> {
    s.map_values(|c: char| small(c))
}

/// Whether `needle` stands in `s` from position `at` on.
pub open spec fn occurs_at(s: Seq<char>, needle: Seq<char>, at: int) -> bool {
    0 <= at <= s.len() - needle.len() && s.subrange(at, at + needle.len()) == needle
}

/// Whether `needle` stands somewhere in `s`.
pub open spec fn occurs(s: Seq<char>, needle: Seq<char>) -> bool {
    exists|at: int| occurs_at(s, needle, at)
}

/// Whether `s` ends in `suffix`.
pub open spec fn ends_in(s: Seq<char>, suffix: Seq<char>) -> bool {
    occurs_at(s, suffix, s.len() - suffix.len())
}

/// Making letters small first does not change what making them capital gives.
pub(crate) proof fn lemma_capitals_of_smalls(s: Seq<char>)
    ensures
        capitals(smalls(s)) == capitals(s),
{
    assert(capitals(smalls(s)) =~= capitals(s));
}

/// The characters of `s`, in order.
pub(crate) fn characters(s: &str) -> (r: Vec<char>)
    ensures
        r@ == s@,
{
    let mut r: Vec<char> = Vec::new();
    for c in iter: s.chars()
        invariant
            iter.seq() == s@,
            r@ == s@.take(iter.index() as int),
    {
        proof {
            assert(s@.take(iter.index() + 1) == s@.take(iter.index() as int).push(c));
        }
        r.push(c);
    }
    proof {
        assert(s@.take(s@.len() as int) == s@);
    }
    r
}

/// `c`, or its capital when it is an ASCII small letter.
pub(crate) fn capitalised(c: char) -> (r: char)
    ensures
        r == capital(c),
{
    if 'a' <= c && c <= 'z' {
        (c as u8 - 32) as char
    } else {
        c
    }
}

/// `c`, or its small letter when it is an ASCII capital.
pub(crate) fn lowered(c: char) -> (r: char)
    ensures
        r == small(c),
{
    if 'A' <= c && c <= 'Z' {
        (c as u8 + 32) as char
    } else {
        c
    }
}

/// Whether `code` stands in `s` once the small ASCII letters of `s` are made capital.
pub(crate) fn mentions(s: &str, code: &str) -> (r: bool)
    ensures
        r == occurs(capitals(s@), code@),
{
    let hay = characters(s);
    let needle = characters(code);
    if needle.len() > hay.len() {
        return false;
    }
    let last: usize = hay.len() - needle.len();
    let mut at: usize = 0;
    loop
        invariant
            hay@ == s@,
            needle@ == code@,
            last == hay.len() - needle.len(),
            at <= last,
            forall|i: int| 0 <= i < at ==> !occurs_at(capitals(s@), code@, i),
        decreases last - at,
    {
        let mut k: usize = 0;
        while k < needle.len() && capitalised(hay[at + k]) == needle[k]
            invariant
                hay@ == s@,
                needle@ == code@,
                last == hay.len() - needle.len(),
                at <= last,
                k <= needle.len(),
                forall|i: int| 0 <= i < k ==> #[trigger] code@[i] == capitals(s@)[at + i],
            decreases needle.len() - k,
        {
            k = k + 1;
        }
        let ghost part = capitals(s@).subrange(at as int, at + code@.len());
        if k == needle.len() {
            proof {
                assert(part =~= code@);
                assert(occurs_at(capitals(s@), code@, at as int));
            }
            return true;
        }
        proof {
            assert(part[k as int] != code@[k as int]);
            assert(!occurs_at(capitals(s@), code@, at as int));
        }
        if at == last {
            return false;
        }
        at = at + 1;
    }
}

/// Whether `s` ends in `suffix` once the ASCII capitals of `s` are made small.
pub(crate) fn ends_in_small(s: &str, suffix: &str) -> (r: bool)
    ensures
        r == ends_in(smalls(s@), suffix@),
{
    let hay = characters(s);
    let needle = characters(suffix);
    if needle.len() > hay.len() {
        return false;
    }
    let at: usize = hay.len() - needle.len();
    let ghost part = smalls(s@).subrange(at as int, at + suffix@.len());
    let mut k: usize = 0;
    while k < needle.len()
        invariant
            hay@ == s@,
            needle@ == suffix@,
            at == hay.len() - needle.len(),
            k <= needle.len(),
            part == smalls(s@).subrange(at as int, at + suffix@.len()),
            forall|i: int| 0 <= i < k ==> #[trigger] suffix@[i] == smalls(s@)[at + i],
        decreases needle.len() - k,
    {
        if lowered(hay[at + k]) != needle[k] {
            proof {
                assert(part[k as int] != suffix@[k as int]);
            }
            return false;
        }
        k = k + 1;
    }
    proof {
        assert(part =~= suffix@);
    }
    true
}

/// What parts the segments of a path.
#[derive(Debug, Clone, Copy, PartialEq, Eq, Structural)]
pub enum Separators {
    Slash,
    Backslash,
    Both,
}

impl Separators {
    /// Whether `c` parts segments.
    pub open spec fn part_at(self, c: char) -> bool {
        match self {
            Separators::Slash => c == '/',
            Separators::Backslash => c == '\\',
            Separators::Both => c == '/' || c == '\\',
        }
    }

    /// Whether `c` parts segments.
    pub(crate) fn includes(self, c: char) -> (r: bool)
        ensures
            r == self.part_at(c),
    {
        match self {
            Separators::Slash => c == '/',
            Separators::Backslash => c == '\\',
            Separators::Both => c == '/' || c == '\\',
        }
    }
}

/// What comes before the first separator of `s`; all of `s` when there is none.
pub open spec fn first_segment(s: Seq<char>, separators: Separators) -> Seq<char>
    decreases s.len(),
{
    if s.len() == 0 || separators.part_at(s[0]) {
        Seq::empty()
    } else {
        seq![s[0]] + first_segment(s.drop_first(), separators)
    }
}

/// What follows the first separator of `s`, up to the next one; nothing when there is none.
pub open spec fn second_segment(s: Seq<char>, separators: Separators) -> Seq<char> {
    let first = first_segment(s, separators).len();
    if first < s.len() {
        first_segment(s.skip(first + 1int), separators)
    } else {
        Seq::empty()
    }
}

/// What follows the last separator of `s`; all of `s` when there is none.
pub open spec fn last_segment(s: Seq<char>, separators: Separators) -> Seq<char>
    decreases s.len(),
{
    if s.len() == 0 || separators.part_at(s.last()) {
        Seq::empty()
    } else {
        last_segment(s.drop_last(), separators).push(s.last())
    }
}

/// What comes before the last separator of `s`, when there is one.
pub open spec fn before_last_segment(s: Seq<char>, separators: Separators) -> Option<Seq<char>> {
    let last = last_segment(s, separators);
    if last.len() < s.len() {
        Some(s.take(s.len() - last.len() - 1))
    } else {
        None
    }
}

/// The last segment of `s` that names something: an empty one does not, nor does a single
/// dot unless `dot_counts`.
pub open spec fn last_component(
    s: Seq<char>,
    separators: Separators,
    dot_counts: bool,
) -> Option<Seq<char>>
    decreases s.len(),
{
    let last = last_segment(s, separators);
    if last.len() > 0 && (dot_counts || last != seq!['.']) {
        Some(last)
    } else {
        match before_last_segment(s, separators) {
            Some(front) => if front.len() < s.len() {
                last_component(front, separators, dot_counts)
            } else {
                None
            },
            None => None,
        }
    }
}

/// The last segment is the end of the text.
pub(crate) proof fn lemma_last_segment_ends(s: Seq<char>, separators: Separators)
    ensures
        last_segment(s, separators).len() <= s.len(),
        last_segment(s, separators) == s.skip(s.len() - last_segment(s, separators).len()),
    decreases s.len(),
{
    if s.len() > 0 && !separators.part_at(s.last()) {
        lemma_last_segment_ends(s.drop_last(), separators);
        let front = last_segment(s.drop_last(), separators);
        assert(s.skip(s.len() - front.len() - 1) =~= front.push(s.last()));
    } else {
        assert(s.skip(s.len() as int) =~= Seq::empty());
    }
}

/// A name behind a separator, or behind nothing, is the last segment.
pub(crate) proof fn lemma_last_segment_of_joined(
    front: Seq<char>,
    name: Seq<char>,
    separators: Separators,
)
    requires
        front.len() == 0 || separators.part_at(front.last()),
        forall|i: int| 0 <= i < name.len() ==> !separators.part_at(#[trigger] name[i]),
    ensures
        last_segment(front + name, separators) == name,
    decreases name.len(),
{
    if name.len() == 0 {
        assert(front + name =~= front);
    } else {
        lemma_last_segment_of_joined(front, name.drop_last(), separators);
        assert((front + name).drop_last() =~= front + name.drop_last());
        assert((front + name).last() == name.last());
        assert(name.drop_last().push(name.last()) =~= name);
    }
}

/// How long the first segment of the characters from `from` on is.
pub(crate) fn first_segment_length(
    characters: &Vec<char>,
    from: usize,
    separators: Separators,
) -> (r: usize)
    requires
        from <= characters@.len(),
    ensures
        r == first_segment(characters@.skip(from as int), separators).len(),
        from + r <= characters@.len(),
{
    let ghost rest = characters@.skip(from as int);
    let total: usize = characters.len();
    let mut length: usize = 0;
    proof {
        assert(rest.skip(0) =~= rest);
    }
    while from + length < total && !separators.includes(characters[from + length])
        invariant
            from + length <= total,
            total == characters@.len(),
            rest == characters@.skip(from as int),
            first_segment(rest, separators).len() == length + first_segment(
                rest.skip(length as int),
                separators,
            ).len(),
        decreases total - from - length,
    {
        proof {
            assert(rest.skip(length as int).drop_first() =~= rest.skip(length + 1));
        }
        length = length + 1;
    }
    length
}

/// What follows the last separator of `s`; all of `s` when there is none.
pub(crate) fn last_segment_of(s: &str, separators: Separators) -> (r: String)
    ensures
        r@ == last_segment(s@, separators),
{
    let all = characters(s);
    let mut from: usize = all.len();
    proof {
        assert(s@.take(s@.len() as int) == s@);
    }
    while from > 0 && !separators.includes(all[from - 1])
        invariant
            all@ == s@,
            from <= all.len(),
            last_segment(s@, separators) == last_segment(s@.take(from as int), separators)
                + s@.skip(from as int),
        decreases from,
    {
        proof {
            let shorter = s@.take(from as int);
            assert(shorter.drop_last() == s@.take(from - 1));
            assert(s@.skip(from - 1) == seq![s@[from - 1]] + s@.skip(from as int));
            assert(last_segment(shorter, separators) + s@.skip(from as int) == last_segment(
                s@.take(from - 1),
                separators,
            ) + s@.skip(from - 1));
        }
        from = from - 1;
    }
    proof {
        assert(last_segment(s@.take(from as int), separators) =~= Seq::<char>::empty());
        assert(s@.subrange(from as int, s@.len() as int) == s@.skip(from as int));
    }
    s.substring_char(from, all.len()).to_owned()
}

/// What comes before the last separator of `s`, when there is one.
pub(crate) fn before_last_segment_of(s: &str, separators: Separators) -> (r: Option<&str>)
    ensures
        match r {
            Some(front) => before_last_segment(s@, separators) == Some(front@) && front@.len()
                < s@.len(),
            None => before_last_segment(s@, separators) is None,
        },
{
    let last: usize = last_segment_of(s, separators).as_str().unicode_len();
    let whole: usize = s.unicode_len();
    proof {
        lemma_last_segment_ends(s@, separators);
    }
    if last < whole {
        let front = s.substring_char(0, whole - last - 1);
        proof {
            assert(front@ =~= s@.take(s@.len() - last - 1));
        }
        Some(front)
    } else {
        None
    }
}

/// Whether `s` is made of `count` dots and nothing else.
pub(crate) fn is_dots(s: &str, count: usize) -> (r: bool)
    ensures
        r == (s@ == Seq::new(count as nat, |i: int| '.')),
{
    let all = characters(s);
    let ghost dots = Seq::new(count as nat, |i: int| '.');
    if all.len() != count {
        return false;
    }
    let mut i: usize = 0;
    while i < count
        invariant
            i <= count,
            all@ == s@,
            all@.len() == count,
            dots == Seq::new(count as nat, |i: int| '.'),
            forall|j: int| 0 <= j < i ==> s@[j] == '.',
        decreases count - i,
    {
        if all[i] != '.' {
            proof {
                assert(dots[i as int] == '.');
            }
            return false;
        }
        i = i + 1;
    }
    proof {
        assert(s@ =~= dots);
    }
    true
}

/// The last segment of `s` that names something, if any does.
pub(crate) fn last_component_of(s: &str, separators: Separators, dot_counts: bool) -> (r: Option<
    String,
>)
    ensures
        match r {
            Some(component) => last_component(s@, separators, dot_counts) == Some(component@),
            None => last_component(s@, separators, dot_counts) is None,
        },
    decreases s@.len(),
{
    let last = last_segment_of(s, separators);
    let dot = is_dots(last.as_str(), 1);
    proof {
        assert(Seq::new(1, |i: int| '.') =~= seq!['.']);
    }
    if last.as_str().unicode_len() > 0 && (dot_counts || !dot) {
        return Some(last);
    }
    match before_last_segment_of(s, separators) {
        Some(front) => last_component_of(front, separators, dot_counts),
        None => None,
    }
}

/// Where the extension of the file name `name` is parted off: its last dot, unless that
/// is also its first character.
pub open spec fn extension_dot(name: Seq<char>) -> Option<int> {
    match name.index_of_last('.') {
        Some(at) => if at > 0 { Some(at) } else { None },
        None => None,
    }
}

/// The file name `name` without its extension.
pub open spec fn stem(name: Seq<char>) -> Seq<char> {
    match extension_dot(name) {
        Some(at) => name.take(at),
        None => name,
    }
}

/// The extension of the file name `name`, with the dot that starts it; empty when it
/// has none.
pub open spec fn dotted_extension(name: Seq<char>) -> Seq<char> {
    match extension_dot(name) {
        Some(at) => name.skip(at),
        None => Seq::empty(),
    }
}

/// A file name parted into its stem and its dotted extension.
pub(crate) fn part_extension(name: &str) -> (r: (String, String))
    ensures
        r.0@ == stem(name@),
        r.1@ == dotted_extension(name@),
{
    let all = characters(name);
    proof {
        name@.index_of_last_ensures('.');
    }
    let mut at: usize = all.len();
    while at > 0 && all[at - 1] != '.'
        invariant
            all@ == name@,
            at <= all.len(),
            forall|i: int| at <= i < name@.len() ==> name@[i] != '.',
        decreases at,
    {
        at = at - 1;
    }
    if at > 1 {
        let dot: usize = at - 1;
        proof {
            assert(name@[dot as int] == '.');
            assert(extension_dot(name@) == Some(dot as int));
            assert(name@.subrange(0, dot as int) == name@.take(dot as int));
            assert(name@.subrange(dot as int, name@.len() as int) == name@.skip(dot as int));
        }
        (name.substring_char(0, dot).to_owned(), name.substring_char(dot, all.len()).to_owned())
    } else {
        proof {
            assert(extension_dot(name@) is None);
        }
        (name.to_owned(), String::new())
    }
}

/// The decimal digit of value `d`.
pub open spec fn digit(d: nat) -> char {
    (('0' as u32) + d) as char
}

/// `n` written in decimal.
pub open spec fn decimal(n: nat) -> Seq<char>
    decreases n,
{
    if n < 10 {
        seq![digit(n)]
    } else {
        decimal(n / 10).push(digit(n % 10))
    }
}

/// A number has at least one digit.
pub(crate) proof fn lemma_decimal_not_empty(n: nat)
    ensures
        decimal(n).len() > 0,
{
}

/// Different numbers are written differently.
pub(crate) proof fn lemma_decimal_injective(a: nat, b: nat)
    requires
        decimal(a) == decimal(b),
    ensures
        a == b,
    decreases a,
{
    assert(decimal(a).last() == digit(a % 10));
    assert(decimal(b).last() == digit(b % 10));
    if a >= 10 && b >= 10 {
        assert(decimal(a).drop_last() =~= decimal(a / 10));
        assert(decimal(b).drop_last() =~= decimal(b / 10));
        lemma_decimal_injective(a / 10, b / 10);
    } else if a >= 10 {
        lemma_decimal_not_empty(a / 10);
    } else if b >= 10 {
        lemma_decimal_not_empty(b / 10);
    }
}

/// One, written in decimal.
pub(crate) proof fn lemma_decimal_one()
    ensures
        "1"@ == decimal(1),
{
    reveal_strlit("1");
    assert("1"@ =~= decimal(1));
}

/// From a number written in decimal, the next one.
pub(crate) fn successor(number: &str, Ghost(n): Ghost<nat>) -> (r: String)
    requires
        number@ == decimal(n),
    ensures
        r@ == decimal(n + 1),
    decreases n,
{
    let length: usize = number.unicode_len();
    let last = number.get_char(length - 1);
    proof {
        reveal_strlit("0123456789");
        reveal_strlit("10");
        reveal_strlit("0");
        assert(last == digit(n % 10));
    }
    if last != '9' {
        let d: usize = (last as u32 - '0' as u32) as usize;
        let mut r = number.substring_char(0, length - 1).to_owned();
        r.append("0123456789".substring_char(d + 1, d + 2));
        proof {
            assert((n + 1) / 10 == n / 10 && (n + 1) % 10 == n % 10 + 1);
            assert(r@ =~= decimal(n + 1));
        }
        r
    } else if length == 1 {
        proof {
            assert(decimal(n / 10).len() > 0);
            assert(n == 9);
            assert(decimal(1) == seq!['1']);
            assert("10"@ =~= decimal(10));
        }
        "10".to_owned()
    } else {
        let front = number.substring_char(0, length - 1);
        proof {
            assert(n >= 10);
            assert(front@ =~= decimal(n / 10));
            assert((n + 1) / 10 == n / 10 + 1 && (n + 1) % 10 == 0);
        }
        let mut r = successor(front, Ghost(n / 10));
        r.append("0");
        proof {
            assert(r@ =~= decimal(n + 1));
        }
        r
    }
}

/// Whether `a` comes before `b`, or is equal to it, in the order of their characters'
/// code points.
pub open spec fn not_after(a: Seq<char>, b: Seq<char>) -> bool
    decreases a.len(),
{
    if a.len() == 0 {
        true
    } else if b.len() == 0 {
        false
    } else if a[0] == b[0] {
        not_after(a.drop_first(), b.drop_first())
    } else {
        a[0] < b[0]
    }
}

/// Any two texts are in order one way or the other.
pub(crate) proof fn lemma_not_after_total(a: Seq<char>, b: Seq<char>)
    ensures
        not_after(a, b) || not_after(b, a),
    decreases a.len(),
{
    if a.len() > 0 && b.len() > 0 && a[0] == b[0] {
        lemma_not_after_total(a.drop_first(), b.drop_first());
    }
}

/// The order carries over from one pair of texts to the next.
pub(crate) proof fn lemma_not_after_transitive(a: Seq<char>, b: Seq<char>, c: Seq<char>)
    requires
        not_after(a, b),
        not_after(b, c),
    ensures
        not_after(a, c),
    decreases a.len(),
{
    if a.len() > 0 && b.len() > 0 && c.len() > 0 && a[0] == b[0] && b[0] == c[0] {
        lemma_not_after_transitive(a.drop_first(), b.drop_first(), c.drop_first());
    }
}

/// Texts that are in order both ways are equal.
pub(crate) proof fn lemma_not_after_antisymmetric(a: Seq<char>, b: Seq<char>)
    requires
        not_after(a, b),
        not_after(b, a),
    ensures
        a == b,
    decreases a.len(),
{
    if a.len() > 0 && b.len() > 0 {
        lemma_not_after_antisymmetric(a.drop_first(), b.drop_first());
        assert(a =~= seq![a[0]] + a.drop_first());
        assert(b =~= seq![b[0]] + b.drop_first());
    } else {
        assert(a =~= b);
    }
}

/// Whether `a` comes before `b`, or is equal to it, in the order of their characters'
/// code points.
pub(crate) fn comes_not_after(a: &str, b: &str) -> (r: bool)
    ensures
        r == not_after(a@, b@),
{
    let left = characters(a);
    let right = characters(b);
    let mut k: usize = 0;
    proof {
        assert(a@.skip(0) == a@);
        assert(b@.skip(0) == b@);
    }
    while k < left.len() && k < right.len() && left[k] == right[k]
        invariant
            left@ == a@,
            right@ == b@,
            k <= left.len(),
            k <= right.len(),
            not_after(a@, b@) == not_after(a@.skip(k as int), b@.skip(k as int)),
        decreases left.len() - k,
    {
        proof {
            assert(a@.skip(k as int).drop_first() == a@.skip(k + 1));
            assert(b@.skip(k as int).drop_first() == b@.skip(k + 1));
        }
        k = k + 1;
    }
    if k == left.len() {
        true
    } else if k == right.len() {
        false
    } else {
        left[k] < right[k]
    }
}

} // verus!
