//! Object paths: the names under which a store knows its objects.
//!
//! A path is a string of segments parted by `/`, with no empty segment and no
//! character that object stores take badly. A prefix stands for a directory:
//! the paths below it are those that continue it by at least one segment.

use object_store::path::Path;
use vstd::prelude::*;
use vstd::string::StringExecFns;

verus! {

/// Whether a segment of a path may hold `c`.
pub open spec fn is_legal_path_char(c: char) -> bool {
    c == '%' || (' ' <= c <= '}' && c != '/' && c != '\\' && c != '{' && c != '^' && c != '}' && c
        != '`' && c != ']' && c != '"' && c != '>' && c != '[' && c != '<' && c != '#' && c != '|'
        && c != '*' && c != '?')
}

/// Whether a segment begins at index `i` of `s`.
pub open spec fn segment_begins(s: Seq<char>, i: int) -> bool {
    i == 0 || (0 < i <= s.len() && s[i - 1] == '/')
}

/// Whether a segment ends before index `i` of `s`.
pub open spec fn segment_ends(s: Seq<char>, i: int) -> bool {
    i == s.len() || (0 <= i < s.len() && s[i] == '/')
}

/// Whether the segment that begins at index `i` of `s` is empty, `.` or `..`.
pub open spec fn is_bad_segment_at(s: Seq<char>, i: int) -> bool {
    segment_begins(s, i) && 0 <= i <= s.len() && {
        ||| segment_ends(s, i)
        ||| (i + 1 <= s.len() && s[i] == '.' && segment_ends(s, i + 1))
        ||| (i + 2 <= s.len() && s[i] == '.' && s[i + 1] == '.' && segment_ends(s, i + 2))
    }
}

/// Whether `s` is made of segments that a path accepts: none is empty, `.` or
/// `..`, and each holds legal characters only.
pub open spec fn has_legal_segments(s: Seq<char>) -> bool {
    &&& forall|i: int| 0 <= i < s.len() ==> #[trigger] s[i] == '/' || is_legal_path_char(s[i])
    &&& forall|i: int| 0 <= i <= s.len() ==> !#[trigger] is_bad_segment_at(s, i)
}

/// `s` without one `/` at its start, if it has one there.
pub open spec fn without_leading_slash(s: Seq<char>) -> Seq<char> {
    if s.len() > 0 && s[0] == '/' {
        s.subrange(1, s.len() as int)
    } else {
        s
    }
}

/// `s` without one `/` at its end, if it has one there.
pub open spec fn without_trailing_slash(s: Seq<char>) -> Seq<char> {
    if s.len() > 0 && s[s.len() - 1] == '/' {
        s.subrange(0, s.len() - 1)
    } else {
        s
    }
}

/// The path that `raw` writes, if it writes one: `raw` without a `/` at its
/// start and at its end, where what is left is empty or made of legal segments.
pub open spec fn parsed_path(raw: Seq<char>) -> Option<Seq<char>> {
    let stripped = without_leading_slash(raw);
    if stripped.len() == 0 {
        Some(stripped)
    } else if has_legal_segments(without_trailing_slash(stripped)) {
        Some(without_trailing_slash(stripped))
    } else {
        None
    }
}

/// `object_store::path::Path::parse`, with the path handed back as its string.
/// The call drops one `/` at the start and one at the end, and refuses what is
/// left if a segment between `/` is empty, is `.` or `..`, or holds a byte that
/// is not ASCII, is a control character, or is one of the characters
/// `/ \ { ^ } ] " > [ ~ < # | * ?` and the backtick; a `%` is accepted.
#[verifier::external_body]
fn parse_path(raw: &str) -> (r: Option<String>)
    ensures
        r.deep_view() == parsed_path(raw@),
{
    Path::parse(raw).ok().map(String::from)
}

/// The object path that `raw` writes, if it writes one.
pub fn canonical_path(raw: &str) -> (r: Option<String>)
    ensures
        r.deep_view() == parsed_path(raw@),
{
    parse_path(raw)
}

/// What is left of `location` below the directory `prefix`: `location` without
/// `prefix` and without the `/` that parts them. `None` where `location` does
/// not continue `prefix` in this way. Below the empty prefix every location is
/// left whole.
pub open spec fn remainder_below(location: Seq<char>, prefix: Seq<char>) -> Option<Seq<char>> {
    if !prefix.is_prefix_of(location) {
        None
    } else if prefix.len() == 0 || prefix.len() == location.len() {
        Some(location.subrange(prefix.len() as int, location.len() as int))
    } else if location[prefix.len() as int] == '/' {
        Some(location.subrange(prefix.len() as int + 1, location.len() as int))
    } else {
        None
    }
}

/// Whether `location` lies below the directory `prefix`, by one segment or
/// more. A location does not lie below itself.
pub open spec fn is_below(location: Seq<char>, prefix: Seq<char>) -> bool {
    remainder_below(location, prefix) matches Some(rest) && rest.len() > 0
}

/// Whether the first `/` of `s` stands at index `k`, or `s` has none and `k` is
/// its length.
pub open spec fn is_first_slash(s: Seq<char>, k: int) -> bool {
    &&& 0 <= k <= s.len()
    &&& k < s.len() ==> s[k] == '/'
    &&& forall|j: int| 0 <= j < k ==> s[j] != '/'
}

/// The index of the first `/` of `s`, or the length of `s` where it has none.
pub open spec fn first_slash(s: Seq<char>) -> int {
    choose|k: int| is_first_slash(s, k)
}

/// The first segment of `s`: what stands before its first `/`.
pub open spec fn first_segment(s: Seq<char>) -> Seq<char> {
    s.subrange(0, first_slash(s))
}

/// Whether `rest`, what is left of a location below a directory, goes on after
/// its first segment: the location lies in a subdirectory.
pub open spec fn is_nested(rest: Seq<char>) -> bool {
    first_slash(rest) + 1 < rest.len()
}

/// The path of the entry `part` of the directory `prefix`.
pub open spec fn child_path(prefix: Seq<char>, part: Seq<char>) -> Seq<char> {
    if prefix.len() == 0 {
        part
    } else {
        prefix + seq!['/'] + part
    }
}

/// Every string has a first `/` or none, and only one index answers to that.
pub proof fn lemma_first_slash(s: Seq<char>)
    ensures
        is_first_slash(s, first_slash(s)),
        forall|k: int| is_first_slash(s, k) ==> k == first_slash(s),
{
    lemma_first_slash_exists(s, 0);
    let f = first_slash(s);
    assert forall|k: int| is_first_slash(s, k) implies k == f by {
        if k < f {
            assert(s[k] != '/');
        } else if f < k {
            assert(s[f] != '/');
        }
    }
}

/// If no `/` stands before `from`, the first `/` stands at or after it, or at
/// the end.
proof fn lemma_first_slash_exists(s: Seq<char>, from: int)
    requires
        0 <= from <= s.len(),
        forall|j: int| 0 <= j < from ==> s[j] != '/',
    ensures
        exists|k: int| is_first_slash(s, k),
    decreases s.len() - from,
{
    if from == s.len() || s[from] == '/' {
        assert(is_first_slash(s, from));
    } else {
        lemma_first_slash_exists(s, from + 1);
    }
}

/// Where in `location` begins what is left of it below the directory
/// `prefix`, if `location` continues `prefix`.
pub fn remainder_start(location: &Vec<char>, prefix: &Vec<char>) -> (r: Option<usize>)
    ensures
        match r {
            Some(start) => start <= location@.len() && remainder_below(location@, prefix@) == Some(
                location@.subrange(start as int, location@.len() as int),
            ),
            None => remainder_below(location@, prefix@) is None,
        },
{
    if prefix.len() > location.len() {
        return None;
    }
    let mut i: usize = 0;
    while i < prefix.len()
        invariant
            i <= prefix.len() <= location.len(),
            forall|k: int| 0 <= k < i ==> location@[k] == prefix@[k],
        decreases prefix.len() - i,
    {
        if location[i] != prefix[i] {
            proof {
                if prefix@.is_prefix_of(location@) {
                    assert(location@.subrange(0, prefix@.len() as int)[i as int] == prefix@[i as int]);
                }
            }
            return None;
        }
        i += 1;
    }
    proof {
        assert(location@.subrange(0, prefix@.len() as int) =~= prefix@);
    }
    if prefix.len() == 0 || prefix.len() == location.len() {
        Some(prefix.len())
    } else if location[prefix.len()] == '/' {
        Some(prefix.len() + 1)
    } else {
        None
    }
}

/// The index of the first `/` of `s` at or after `from`, or the length of `s`
/// where none follows.
pub fn find_first_slash(s: &Vec<char>, from: usize) -> (k: usize)
    requires
        from <= s@.len(),
    ensures
        from <= k <= s@.len(),
        k - from == first_slash(s@.subrange(from as int, s@.len() as int)),
{
    let mut k: usize = from;
    while k < s.len() && s[k] != '/'
        invariant
            from <= k <= s@.len(),
            forall|j: int| from <= j < k ==> s@[j] != '/',
        decreases s.len() - k,
    {
        k += 1;
    }
    proof {
        let rest = s@.subrange(from as int, s@.len() as int);
        assert forall|j: int| 0 <= j < k - from implies rest[j] != '/' by {
            assert(rest[j] == s@[from + j]);
        }
        assert(is_first_slash(rest, k - from));
        lemma_first_slash(rest);
    }
    k
}

/// The path of the entry `part` of the directory `prefix`.
pub fn child_of(prefix: &str, part: &str) -> (child: String)
    ensures
        child@ == child_path(prefix@, part@),
{
    if prefix.unicode_len() == 0 {
        String::from_str(part)
    } else {
        proof {
            reveal_strlit("/");
        }
        let mut child = String::from_str(prefix);
        child.append("/");
        child.append(part);
        proof {
            assert("/"@ =~= seq!['/']);
        }
        child
    }
}

} // verus!
