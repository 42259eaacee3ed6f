//! Text: typed strings, their order, and substring search.
use core::marker::PhantomData;

use vstd::prelude::*;

use crate::model::Duplicate;

verus! {

/// A piece of text of one kind. The kind is a marker type, so that a repository
/// name and a commit message are different types over the same contents.
#[derive(Debug, PartialEq, Eq)]
pub struct Text<Kind> {
    value: String,
    kind: PhantomData<Kind>,
}

impl<Kind> View for Text<Kind> {
    type V = Seq<char>;

    closed spec fn view(&self) -> Seq<char> {
        self.value@
    }
}

impl<Kind> Text<Kind> {
    /// The text that holds the characters of `value`.
    pub fn new(value: &str) -> (text: Self)
        ensures
            text@ == value@,
    {
        Self { value: value.to_owned(), kind: PhantomData }
    }

    /// The text that takes over `value`.
    pub fn from_string(value: String) -> (text: Self)
        ensures
            text@ == value@,
    {
        Self { value, kind: PhantomData }
    }

    pub fn as_str(&self) -> (value: &str)
        ensures
            value@ == self@,
    {
        self.value.as_str()
    }

    pub fn into_string(self) -> (value: String)
        ensures
            value@ == self@,
    {
        self.value
    }

    /// Whether both texts hold the same characters.
    pub fn same(&self, other: &Self) -> (same: bool)
        ensures
            same == (self@ == other@),
    {
        self.value == other.value
    }

    /// Whether this text comes strictly before `other`, character by character.
    pub fn precedes(&self, other: &Self) -> (before: bool)
        ensures
            before == text_precedes(self@, other@),
    {
        str_precedes(self.value.as_str(), other.value.as_str())
    }
}

impl<Kind> Duplicate for Text<Kind> {
    fn duplicate(&self) -> (copy: Self) {
        Self { value: self.value.clone(), kind: PhantomData }
    }
}

/// The lexicographic order of texts: the first character in which two texts
/// differ decides, by its code point; a proper prefix comes first.
pub open spec fn text_precedes(left: Seq<char>, right: Seq<char>) -> bool
    decreases left.len(),
{
    if right.len() == 0 {
        false
    } else if left.len() == 0 {
        true
    } else if left[0] != right[0] {
        left[0] < right[0]
    } else {
        text_precedes(left.drop_first(), right.drop_first())
    }
}

/// No text comes before itself.
pub proof fn lemma_precedes_irreflexive(text: Seq<char>)
    ensures
        !text_precedes(text, text),
    decreases text.len(),
{
    if text.len() > 0 {
        lemma_precedes_irreflexive(text.drop_first());
    }
}

/// The order of texts is transitive.
pub proof fn lemma_precedes_transitive(a: Seq<char>, b: Seq<char>, c: Seq<char>)
    requires
        text_precedes(a, b),
        text_precedes(b, c),
    ensures
        text_precedes(a, c),
    decreases a.len(),
{
    if a.len() > 0 && a[0] == b[0] && b[0] == c[0] {
        lemma_precedes_transitive(a.drop_first(), b.drop_first(), c.drop_first());
    }
}

/// Of two different texts, exactly one comes before the other.
pub proof fn lemma_precedes_total(a: Seq<char>, b: Seq<char>)
    requires
        a != b,
    ensures
        text_precedes(a, b) != text_precedes(b, a),
    decreases a.len(),
{
    if a.len() == 0 {
        assert(b.len() > 0) by {
            if b.len() == 0 {
                assert(a =~= b);
            }
        }
    } else if b.len() > 0 && a[0] == b[0] {
        if a.drop_first() == b.drop_first() {
            assert(a =~= seq![a[0]] + a.drop_first());
            assert(b =~= seq![b[0]] + b.drop_first());
        }
        lemma_precedes_total(a.drop_first(), b.drop_first());
    }
}

/// The order of texts, in full: one comes before another exactly where the two agree
/// up to some place, and there the first ends and the second goes on, or the first
/// holds the lower character.
pub proof fn lemma_precedes_decided(left: Seq<char>, right: Seq<char>)
    ensures
        text_precedes(left, right) <==> exists|at: int|
            {
                &&& 0 <= at <= left.len()
                &&& at < right.len()
                &&& #[trigger] left.take(at) == right.take(at)
                &&& at < left.len() ==> left[at] < right[at]
            },
    decreases left.len(),
{
    if left.len() > 0 && right.len() > 0 && left[0] == right[0] {
        let l = left.drop_first();
        let r = right.drop_first();
        lemma_precedes_decided(l, r);
        if text_precedes(left, right) {
            let at = choose|at: int|
                {
                    &&& 0 <= at <= l.len()
                    &&& at < r.len()
                    &&& #[trigger] l.take(at) == r.take(at)
                    &&& at < l.len() ==> l[at] < r[at]
                };
            assert(left.take(at + 1) =~= right.take(at + 1)) by {
                assert forall|i: int| 0 <= i < at + 1 implies left[i] == right[i] by {
                    if i > 0 {
                        assert(l.take(at)[i - 1] == r.take(at)[i - 1]);
                    }
                }
            }
        }
        if exists|at: int|
            {
                &&& 0 <= at <= left.len()
                &&& at < right.len()
                &&& #[trigger] left.take(at) == right.take(at)
                &&& at < left.len() ==> left[at] < right[at]
            } {
            let at = choose|at: int|
                {
                    &&& 0 <= at <= left.len()
                    &&& at < right.len()
                    &&& #[trigger] left.take(at) == right.take(at)
                    &&& at < left.len() ==> left[at] < right[at]
                };
            assert(at > 0);
            assert(l.take(at - 1) =~= r.take(at - 1)) by {
                assert forall|i: int| 0 <= i < at - 1 implies l[i] == r[i] by {
                    assert(left.take(at)[i + 1] == right.take(at)[i + 1]);
                }
            }
        }
    } else {
        assert(left.take(0) =~= right.take(0));
        if exists|at: int|
            {
                &&& 0 <= at <= left.len()
                &&& at < right.len()
                &&& #[trigger] left.take(at) == right.take(at)
                &&& at < left.len() ==> left[at] < right[at]
            } {
            let at = choose|at: int|
                {
                    &&& 0 <= at <= left.len()
                    &&& at < right.len()
                    &&& #[trigger] left.take(at) == right.take(at)
                    &&& at < left.len() ==> left[at] < right[at]
                };
            if at > 0 {
                assert(left.take(at)[0] == right.take(at)[0]);
            }
        }
    }
}

/// The characters of `text`, in order.
pub fn chars_of(text: &str) -> (chars: Vec<char>)
    ensures
        chars@ == text@,
{
    let mut chars: Vec<char> = Vec::new();
    for c in it: text.chars()
        invariant
            it.seq() == text@,
            chars@ == text@.take(it.index()),
    {
        chars.push(c);
    }
    assert(text@.take(text@.len() as int) =~= text@);
    chars
}

/// Whether `left` comes strictly before `right`.
pub fn str_precedes(left: &str, right: &str) -> (before: bool)
    ensures
        before == text_precedes(left@, right@),
{
    let a = chars_of(left);
    let b = chars_of(right);
    let mut i: usize = 0;
    assert(a@.skip(0) =~= a@);
    assert(b@.skip(0) =~= b@);
    while i < a.len() && i < b.len() && a[i] == b[i]
        invariant
            i <= a.len(),
            i <= b.len(),
            a@ == left@,
            b@ == right@,
            text_precedes(left@, right@) == text_precedes(a@.skip(i as int), b@.skip(i as int)),
        decreases a.len() - i,
    {
        assert(a@.skip(i as int).drop_first() =~= a@.skip(i + 1));
        assert(b@.skip(i as int).drop_first() =~= b@.skip(i + 1));
        i += 1;
    }
    if i == b.len() {
        false
    } else if i == a.len() {
        true
    } else {
        a[i] < b[i]
    }
}

/// Whether `needle` occurs in `haystack` as a run of neighbouring characters.
pub open spec fn text_contains(haystack: Seq<char>, needle: Seq<char>) -> bool {
    exists|at: int|
        0 <= at && at + needle.len() <= haystack.len() && #[trigger] haystack.subrange(
            at,
            at + needle.len(),
        ) == needle
}

/// Whether `needle` stands in `haystack` from index `at` on.
fn stands_at(haystack: &Vec<char>, needle: &Vec<char>, at: usize) -> (found: bool)
    requires
        at + needle@.len() <= haystack@.len(),
    ensures
        found == (haystack@.subrange(at as int, at + needle@.len()) == needle@),
{
    let length: usize = haystack.len();
    let mut i: usize = 0;
    while i < needle.len()
        invariant
            i <= needle.len(),
            length == haystack@.len(),
            at + needle@.len() <= length,
            forall|j: int| 0 <= j < i ==> haystack@[at + j] == needle@[j],
        decreases needle.len() - i,
    {
        if haystack[at + i] != needle[i] {
            assert(haystack@.subrange(at as int, at + needle@.len())[i as int] != needle@[i as int]);
            return false;
        }
        i += 1;
    }
    assert(haystack@.subrange(at as int, at + needle@.len()) =~= needle@);
    true
}

/// Whether `needle` occurs in `haystack`.
pub fn contains_text(haystack: &str, needle: &str) -> (found: bool)
    ensures
        found == text_contains(haystack@, needle@),
{
    let h = chars_of(haystack);
    let n = chars_of(needle);
    if n.len() > h.len() {
        return false;
    }
    let last: usize = h.len() - n.len();
    let mut at: usize = 0;
    while at <= last
        invariant
            h@ == haystack@,
            n@ == needle@,
            last + n@.len() == h@.len(),
            at <= last + 1,
            forall|j: int|
                0 <= j < at ==> #[trigger] haystack@.subrange(j, j + needle@.len()) != needle@,
        decreases last + 1 - at,
    {
        if stands_at(&h, &n, at) {
            return true;
        }
        if at == last {
            return false;
        }
        at += 1;
    }
    false
}

/// Whether a text holds ASCII characters alone.
pub open spec fn is_ascii_text(text: Seq<char>) -> bool {
    forall|i: int| 0 <= i < text.len() ==> #[trigger] text[i] <= '\u{7f}'
}

/// An ASCII character with its case taken away: `A` to `Z` become `a` to `z`, and
/// every other character stays.
pub open spec fn ascii_lowered(c: char) -> char {
    if 'A' <= c <= 'Z' {
        (c as u32 + 32) as char
    } else {
        c
    }
}

/// An ASCII text with its case taken away.
pub open spec fn ascii_lowercase(text: Seq<char>) -> Seq<char> {
    text.map_values(|c: char| ascii_lowered(c))
}

/// What `str::to_lowercase` gives for a text.
pub uninterp spec fn lowercase_of(text: Seq<char>) -> Seq<char>;

/// `str::to_lowercase` of the standard library: the lowercase equivalent of the
/// text by the Unicode properties, which depends on the text alone. Of ASCII
/// characters these change `A` to `Z` alone, each to the one letter `a` to `z`.
#[verifier::external_body]
fn lowercase(text: &str) -> (lowered: String)
    ensures
        lowered@ == lowercase_of(text@),
        is_ascii_text(text@) ==> lowered@ == ascii_lowercase(text@),
{
    text.to_lowercase()
}

/// A text with its case taken away.
pub open spec fn caseless(text: Seq<char>) -> Seq<char> {
    if is_ascii_text(text) {
        ascii_lowercase(text)
    } else {
        lowercase_of(text)
    }
}

/// Whether `needle` occurs in `haystack` once both are lowercased.
pub open spec fn text_contains_ignoring_case(haystack: Seq<char>, needle: Seq<char>) -> bool {
    text_contains(caseless(haystack), caseless(needle))
}

/// A search takes the case of both texts away, and finds the one exactly where it
/// stands in the other then as a run of neighbouring characters. An ASCII text loses
/// its case letter by letter: each from `A` to `Z` becomes the one from `a` to `z` at
/// the same place of the alphabet, and no other character changes.
pub proof fn lemma_search(haystack: Seq<char>, needle: Seq<char>)
    ensures
        text_contains_ignoring_case(haystack, needle) <==> exists|at: int|
            0 <= at && at + caseless(needle).len() <= caseless(haystack).len()
                && #[trigger] caseless(haystack).subrange(at, at + caseless(needle).len())
                == caseless(needle),
        (exists|i: int| 0 <= i < haystack.len() && (#[trigger] haystack[i]) as int > 127)
            ==> caseless(haystack) == lowercase_of(haystack),
        (forall|i: int| 0 <= i < haystack.len() ==> (#[trigger] haystack[i]) as int <= 127) ==> {
            &&& caseless(haystack).len() == haystack.len()
            &&& forall|i: int|
                0 <= i < haystack.len() ==> (#[trigger] caseless(haystack)[i]) as int == if 65
                    <= haystack[i] as int <= 90 {
                    haystack[i] as int + 32
                } else {
                    haystack[i] as int
                }
        },
{
}

/// Whether two ASCII texts differ at most in the case of their letters.
pub open spec fn same_ignoring_ascii_case(left: Seq<char>, right: Seq<char>) -> bool {
    &&& left.len() == right.len()
    &&& forall|i: int|
        0 <= i < left.len() ==> ascii_lowered(#[trigger] left[i]) == ascii_lowered(right[i])
}

/// Searching one ASCII text for another finds it exactly where a run of the first
/// differs from it at most in the case of letters.
pub proof fn lemma_ascii_search(haystack: Seq<char>, needle: Seq<char>)
    requires
        is_ascii_text(haystack),
        is_ascii_text(needle),
    ensures
        text_contains_ignoring_case(haystack, needle) <==> exists|at: int|
            0 <= at && at + needle.len() <= haystack.len() && same_ignoring_ascii_case(
                #[trigger] haystack.subrange(at, at + needle.len()),
                needle,
            ),
{
    let h = ascii_lowercase(haystack);
    let n = ascii_lowercase(needle);
    assert forall|at: int| 0 <= at && at + needle.len() <= haystack.len() implies (
    #[trigger] h.subrange(at, at + needle.len()) == n) == same_ignoring_ascii_case(
        haystack.subrange(at, at + needle.len()),
        needle,
    ) by {
        let run = haystack.subrange(at, at + needle.len());
        let lowered = h.subrange(at, at + needle.len());
        assert forall|i: int| 0 <= i < needle.len() implies lowered[i] == ascii_lowered(
            #[trigger] run[i],
        ) && n[i] == ascii_lowered(needle[i]) by {}
        if same_ignoring_ascii_case(run, needle) {
            assert forall|i: int| 0 <= i < needle.len() implies lowered[i] == n[i] by {
                assert(lowered[i] == ascii_lowered(run[i]));
            }
            assert(lowered =~= n);
        }
        if lowered == n {
            assert forall|i: int| 0 <= i < run.len() implies ascii_lowered(#[trigger] run[i])
                == ascii_lowered(needle[i]) by {
                assert(lowered[i] == n[i]);
            }
        }
    }
    if text_contains(h, n) {
        let at = choose|at: int|
            0 <= at && at + n.len() <= h.len() && #[trigger] h.subrange(at, at + n.len()) == n;
        assert(h.subrange(at, at + needle.len()) == n);
        assert(same_ignoring_ascii_case(haystack.subrange(at, at + needle.len()), needle));
    }
    if exists|at: int|
        0 <= at && at + needle.len() <= haystack.len() && same_ignoring_ascii_case(
            #[trigger] haystack.subrange(at, at + needle.len()),
            needle,
        ) {
        let at = choose|at: int|
            0 <= at && at + needle.len() <= haystack.len() && same_ignoring_ascii_case(
                #[trigger] haystack.subrange(at, at + needle.len()),
                needle,
            );
        assert(h.subrange(at, at + n.len()) == n);
    }
}

/// Changing the case of letters in ASCII texts never changes what a search finds.
pub proof fn lemma_case_does_not_matter(
    haystack: Seq<char>,
    needle: Seq<char>,
    other_haystack: Seq<char>,
    other_needle: Seq<char>,
)
    requires
        is_ascii_text(haystack),
        is_ascii_text(needle),
        is_ascii_text(other_haystack),
        is_ascii_text(other_needle),
        same_ignoring_ascii_case(haystack, other_haystack),
        same_ignoring_ascii_case(needle, other_needle),
    ensures
        text_contains_ignoring_case(haystack, needle) == text_contains_ignoring_case(
            other_haystack,
            other_needle,
        ),
{
    assert(ascii_lowercase(haystack) =~= ascii_lowercase(other_haystack));
    assert(ascii_lowercase(needle) =~= ascii_lowercase(other_needle));
}

/// The empty search is met by every text.
pub proof fn lemma_empty_search(haystack: Seq<char>)
    ensures
        text_contains_ignoring_case(haystack, Seq::empty()),
{
    let h = caseless(haystack);
    let n = caseless(Seq::empty());
    assert(n =~= Seq::empty());
    let at = 0int;
    assert(h.subrange(at, at + n.len()) =~= n);
}

/// Whether `needle` occurs in `haystack` once both are lowercased.
pub fn contains_case_insensitive(haystack: &str, needle: &str) -> (found: bool)
    ensures
        found == text_contains_ignoring_case(haystack@, needle@),
{
    let lowered_haystack = lowercase(haystack);
    let lowered_needle = lowercase(needle);
    contains_text(lowered_haystack.as_str(), lowered_needle.as_str())
}

/// Comparing two texts says which comes first, by the first character in which they
/// differ, and searching one in another finds it wherever it stands.
pub proof fn lemma_texts_compared(
    left: &str,
    right: &str,
    before: bool,
    found: bool,
    found_caseless: bool,
)
    requires
        call_ensures(str_precedes, (left, right), before),
        call_ensures(contains_text, (left, right), found),
        call_ensures(contains_case_insensitive, (left, right), found_caseless),
    ensures
        before <==> exists|at: int|
            {
                &&& 0 <= at <= left@.len()
                &&& at < right@.len()
                &&& #[trigger] left@.take(at) == right@.take(at)
                &&& at < left@.len() ==> left@[at] < right@[at]
            },
        found <==> exists|at: int|
            0 <= at && at + right@.len() <= left@.len() && #[trigger] left@.subrange(
                at,
                at + right@.len(),
            ) == right@,
        found_caseless <==> exists|at: int|
            0 <= at && at + caseless(right@).len() <= caseless(left@).len() && #[trigger] caseless(
                left@,
            ).subrange(at, at + caseless(right@).len()) == caseless(right@),
{
    lemma_precedes_decided(left@, right@);
    lemma_search(left@, right@);
}

} // verus!
