//! Texts as sequences of characters: equality, search and lists of texts.

use vstd::prelude::*;

verus! {

/// Whether `needle` stands somewhere in `haystack`, character for character.
pub open spec fn is_substring(haystack: Seq<char>, needle: Seq<char>) -> bool {
    exists|k: int|
        0 <= k && k + needle.len() <= haystack.len() && #[trigger] haystack.subrange(
            k,
            k + needle.len(),
        ) == needle
}

/// Whether `needle` stands at index `k` of `haystack`.
fn stands_at(haystack: &Vec<char>, needle: &Vec<char>, k: usize) -> (b: bool)
    requires
        k + needle@.len() <= haystack@.len(),
    ensures
        b == (haystack@.subrange(k as int, k + needle@.len()) == needle@),
{
    let n = haystack.len();
    let mut j: usize = 0;
    while j < needle.len()
        invariant
            j <= needle@.len(),
            n == haystack@.len(),
            k + needle@.len() <= haystack@.len(),
            forall|i: int| 0 <= i < j ==> haystack@[k + i] == needle@[i],
        decreases needle.len() - j,
    {
        if haystack[k + j] != needle[j] {
            proof {
                assert(haystack@.subrange(k as int, k + needle@.len())[j as int] == haystack@[k
                    + j]);
            }
            return false;
        }
        j += 1;
    }
    proof {
        assert(haystack@.subrange(k as int, k + needle@.len()) =~= needle@);
    }
    true
}

/// Whether `needle` stands somewhere in `haystack`.
pub fn contains_chars(haystack: &Vec<char>, needle: &Vec<char>) -> (b: bool)
    ensures
        b == is_substring(haystack@, needle@),
{
    if needle.len() > haystack.len() {
        return false;
    }
    let last = haystack.len() - needle.len();
    let mut k: usize = 0;
    while k < last
        invariant
            k <= last,
            last + needle@.len() == haystack@.len(),
            forall|i: int|
                0 <= i < k ==> #[trigger] haystack@.subrange(i, i + needle@.len()) != needle@,
        decreases last - k,
    {
        if stands_at(haystack, needle, k) {
            return true;
        }
        k += 1;
    }
    stands_at(haystack, needle, last)
}

/// Whether `needle` stands somewhere in `haystack`.
pub fn contains_text(haystack: &str, needle: &str) -> (b: bool)
    ensures
        b == is_substring(haystack@, needle@),
{
    contains_chars(&chars_of(haystack), &chars_of(needle))
}

/// The characters of `s`.
pub fn chars_of(s: &str) -> (v: Vec<char>)
    ensures
        v@ == s@,
{
    let mut v: Vec<char> = Vec::new();
    for c in it: s.chars()
        invariant
            it.seq() == s@,
            v@ == it.seq().subrange(0, it.index()),
    {
        v.push(c);
    }
    v
}

/// The texts of `strings`.
pub open spec fn texts(strings: Seq<String>) -> Seq<Seq<char>> {
    Seq::new(strings.len(), |i: int| strings[i]@)
}

/// Whether `needle` is among `strings`, by its text.
pub fn contains_string(strings: &Vec<String>, needle: &String) -> (b: bool)
    ensures
        b == texts(strings@).contains(needle@),
{
    let mut i: usize = 0;
    while i < strings.len()
        invariant
            i <= strings.len(),
            forall|k: int| 0 <= k < i ==> (#[trigger] strings@[k])@ != needle@,
        decreases strings.len() - i,
    {
        if strings[i] == *needle {
            proof {
                assert(texts(strings@)[i as int] == needle@);
            }
            return true;
        }
        i += 1;
    }
    proof {
        if texts(strings@).contains(needle@) {
            let k = choose|k: int| 0 <= k < texts(strings@).len() && texts(strings@)[k] == needle@;
            assert(strings@[k]@ == needle@);
        }
    }
    false
}

/// Whether `a` and `b` are the same text.
pub fn same_text(a: &str, b: &str) -> (r: bool)
    ensures
        r == (a@ == b@),
{
    a.to_owned() == b.to_owned()
}

} // verus!
