//! A few words to say things with, that depend on nothing else here.

use vstd::prelude::*;

verus! {

/// Whether two characters are the same, or the same ASCII letter in two cases.
pub open spec fn same_letter(a: char, b: char) -> bool {
    ||| a == b
    ||| 'A' <= a <= 'Z' && b as int == a as int + 32
    ||| 'A' <= b <= 'Z' && a as int == b as int + 32
}

/// Whether two texts are the same but for the case of ASCII letters.
pub open spec fn alike(s: Seq<char>, t: Seq<char>) -> bool {
    s.len() == t.len() && forall|i: int|
        0 <= i < s.len() ==> same_letter(#[trigger] s[i], #[trigger] t[i])
}

/// Whether something like `part` stands in `s`.
pub open spec fn holds_alike(s: Seq<char>, part: Seq<char>) -> bool {
    exists|at: int|
        0 <= at <= s.len() - part.len() && alike(#[trigger] s.subrange(at, at + part.len()), part)
}

/// Whether `s` ends in something like `end`, behind at least `least` other characters.
pub open spec fn ends_alike(s: Seq<char>, end: Seq<char>, least: int) -> bool {
    s.len() >= end.len() + least && alike(s.skip(s.len() - end.len()), end)
}

/// Whether `a` is `b`, or comes before it by the first character in which they differ.
pub open spec fn comes_first(a: Seq<char>, b: Seq<char>) -> bool {
    exists|k: int|
        {
            &&& 0 <= k <= a.len()
            &&& k <= b.len()
            &&& #[trigger] a.take(k) == b.take(k)
            &&& k == a.len() || (k < b.len() && a[k] < b[k])
        }
}

/// What digits come to.
pub open spec fn value_of(digits: Seq<char>) -> int
    decreases digits.len(),
{
    if digits.len() == 0 {
        0
    } else {
        10 * value_of(digits.drop_last()) + (digits.last() as int - '0' as int)
    }
}

/// Whether `s` is the number `n` in decimal digits, without needless zeros before them.
pub open spec fn is_number(s: Seq<char>, n: nat) -> bool {
    &&& s.len() > 0
    &&& forall|i: int| 0 <= i < s.len() ==> '0' <= #[trigger] s[i] <= '9'
    &&& s.len() > 1 ==> s[0] != '0'
    &&& value_of(s) == n
}

/// Whether a file name parts into a stem and an extension: from its last dot on, if there is
/// one that does not come first, and otherwise there is none.
pub open spec fn is_parted(name: Seq<char>, stem: Seq<char>, extension: Seq<char>) -> bool {
    &&& name == stem + extension
    &&& if extension.len() == 0 {
        forall|i: int| 1 <= i < name.len() ==> #[trigger] name[i] != '.'
    } else {
        &&& stem.len() > 0
        &&& extension[0] == '.'
        &&& forall|i: int| 1 <= i < extension.len() ==> #[trigger] extension[i] != '.'
    }
}

/// Whether `other` is the `n`th name to try for a file called `name`: the name itself, and
/// from the second on with the number, in brackets behind a space, before its extension.
pub open spec fn is_numbered(name: Seq<char>, n: nat, other: Seq<char>) -> bool {
    if n == 1 {
        other == name
    } else {
        exists|stem: Seq<char>, digits: Seq<char>, extension: Seq<char>|
            {
                &&& #[trigger] is_parted(name, stem, extension)
                &&& #[trigger] is_number(digits, n)
                &&& other == stem + seq![' ', '('] + digits + seq![')'] + extension
            }
    }
}

/// Whether `at` are the places in `s` of what is `wanted`: all of them, each once, in order.
pub open spec fn are_places(len: nat, at: Seq<int>, wanted: spec_fn(int) -> bool) -> bool {
    &&& forall|k: int| 0 <= k < at.len() ==> 0 <= #[trigger] at[k] < len && wanted(at[k])
    &&& forall|k: int, l: int| 0 <= k < l < at.len() ==> #[trigger] at[k] < #[trigger] at[l]
    &&& forall|i: int| 0 <= i < len && #[trigger] wanted(i) ==> at.contains(i)
}

/// What filtering and mapping keeps: what each wanted element is mapped to, in order.
pub(crate) proof fn lemma_filter_map_places<A, B>(
    s: Seq<A>,
    f: spec_fn(A) -> Option<B>,
) -> (at: Seq<int>)
    ensures
        are_places(s.len(), at, |i: int| f(s[i]) is Some),
        s.filter_map(f).len() == at.len(),
        forall|k: int|
            0 <= k < at.len() ==> Some(#[trigger] s.filter_map(f)[k]) == f(s[at[k]]),
    decreases s.len(),
{
    let wanted = |i: int| f(s[i]) is Some;
    if s.len() == 0 {
        Seq::empty()
    } else {
        let front = s.drop_last();
        let n = front.len() as int;
        let before = lemma_filter_map_places(front, f);
        assert(forall|i: int| 0 <= i < n ==> #[trigger] s[i] == front[i]);
        let front_wanted = |i: int| f(front[i]) is Some;
        let at = if f(s.last()) is Some {
            before.push(n)
        } else {
            before
        };
        assert forall|i: int| 0 <= i < s.len() && #[trigger] wanted(i) implies at.contains(i) by {
            if i < n {
                assert(front_wanted(i));
                let k = choose|k: int| 0 <= k < before.len() && before[k] == i;
                assert(at[k] == i);
            } else {
                assert(at[before.len() as int] == i);
            }
        }
        assert forall|k: int| 0 <= k < at.len() implies 0 <= #[trigger] at[k] < s.len() && wanted(
            at[k],
        ) by {
            if k < before.len() {
                assert(at[k] == before[k]);
                assert(front_wanted(before[k]));
            }
        }
        assert forall|k: int| 0 <= k < at.len() implies Some(#[trigger] s.filter_map(f)[k]) == f(
            s[at[k]],
        ) by {
            if k < before.len() {
                assert(at[k] == before[k]);
                assert(Some(front.filter_map(f)[k]) == f(front[before[k]]));
                assert(s.filter_map(f)[k] == front.filter_map(f)[k]);
            }
        }
        at
    }
}

/// Places of what is wanted are places of whatever is wanted where that is.
pub(crate) proof fn lemma_same_places(
    len: nat,
    at: Seq<int>,
    one: spec_fn(int) -> bool,
    two: spec_fn(int) -> bool,
)
    requires
        are_places(len, at, one),
        forall|i: int| 0 <= i < len ==> #[trigger] one(i) == two(i),
    ensures
        are_places(len, at, two),
{
    assert forall|i: int| 0 <= i < len && #[trigger] two(i) implies at.contains(i) by {
        assert(one(i));
    }
    assert forall|k: int| 0 <= k < at.len() implies 0 <= #[trigger] at[k] < len && two(at[k]) by {
        assert(one(at[k]));
    }
}

/// Filtering is filtering and mapping each element to itself.
pub(crate) proof fn lemma_filter_is_filter_map<A>(s: Seq<A>, wanted: spec_fn(A) -> bool)
    ensures
        s.filter(wanted) == s.filter_map(
            |a: A|
                if wanted(a) {
                    Some(a)
                } else {
                    None
                },
        ),
    decreases s.len(),
{
    reveal(Seq::filter);
    if s.len() > 0 {
        lemma_filter_is_filter_map(s.drop_last(), wanted);
    }
}

} // verus!
