//! The date token of an archive path and of a logical location.
//!
//! A path names its day by a token `YYYY-MM-DD`; a logical location has the
//! form `date=YYYY-MM-DD/adam.parquet`. Both are found with regular
//! expressions, whose digits are those of Unicode. On ASCII text this module
//! says exactly which token is found; on other text it names what the
//! expression finds.

use crate::date::{
    is_calendar_date, is_digit, is_iso_shape, iso_text, lemma_iso_text_round_trip, Date,
};
use crate::object_path::{
    has_legal_segments, is_bad_segment_at, is_legal_path_char, parsed_path, segment_begins,
    segment_ends, without_leading_slash, without_trailing_slash,
};
use regex::Regex;
use vstd::prelude::*;
use vstd::string::StringExecFns;
use vstd::utf8::is_ascii_chars;

verus! {

/// The expression that finds the date token of an archive path.
pub const DATE_PATTERN: &'static str = r"(\d{4}-\d{2}-\d{2})";

/// The expression that a logical location matches.
pub const LOCATION_PATTERN: &'static str = r"date=(\d{4}-\d{2}-\d{2})/adam.parquet";

/// What the first capture group of the expression `pattern` holds at the first
/// match in `haystack`, if there is a match.
pub uninterp spec fn regex_first_group(pattern: Seq<char>, haystack: Seq<char>) -> Option<
    Seq<char>,
>;

/// Whether a date token `dddd-dd-dd` stands at index `i` of `h`.
pub open spec fn date_token_at(h: Seq<char>, i: int) -> bool {
    0 <= i && i + 10 <= h.len() && is_iso_shape(h.subrange(i, i + 10))
}

/// Whether the first date token of `h` stands at index `i`.
pub open spec fn is_first_date_token(h: Seq<char>, i: int) -> bool {
    date_token_at(h, i) && forall|j: int| 0 <= j < i ==> !date_token_at(h, j)
}

/// The first date token of `h`.
pub open spec fn first_date_token(h: Seq<char>) -> Option<Seq<char>> {
    if exists|i: int| is_first_date_token(h, i) {
        let i = choose|i: int| is_first_date_token(h, i);
        Some(h.subrange(i, i + 10))
    } else {
        None
    }
}

/// Whether a location `date=dddd-dd-dd/adam.parquet` stands at index `i` of
/// `h`. In place of the dot any character but a line feed may stand.
pub open spec fn location_at(h: Seq<char>, i: int) -> bool {
    &&& 0 <= i && i + 28 <= h.len()
    &&& h.subrange(i, i + 5) == seq!['d', 'a', 't', 'e', '=']
    &&& is_iso_shape(h.subrange(i + 5, i + 15))
    &&& h.subrange(i + 15, i + 20) == seq!['/', 'a', 'd', 'a', 'm']
    &&& h[i + 20] != '\n'
    &&& h.subrange(i + 21, i + 28) == seq!['p', 'a', 'r', 'q', 'u', 'e', 't']
}

/// Whether the first location in `h` stands at index `i`.
pub open spec fn is_first_location(h: Seq<char>, i: int) -> bool {
    location_at(h, i) && forall|j: int| 0 <= j < i ==> !location_at(h, j)
}

/// The date token of the first location in `h`.
pub open spec fn first_location_token(h: Seq<char>) -> Option<Seq<char>> {
    if exists|i: int| is_first_location(h, i) {
        let i = choose|i: int| is_first_location(h, i);
        Some(h.subrange(i + 5, i + 15))
    } else {
        None
    }
}

/// The location of the data of the day `ymd`: `date=YYYY-MM-DD/adam.parquet`.
pub open spec fn location_text(ymd: (int, int, int)) -> Seq<char> {
    seq!['d', 'a', 't', 'e', '='] + iso_text(ymd) + seq![
        '/',
        'a',
        'd',
        'a',
        'm',
        '.',
        'p',
        'a',
        'r',
        'q',
        'u',
        'e',
        't',
    ]
}

/// The date token of the archive path `path`.
pub open spec fn date_token(path: Seq<char>) -> Option<Seq<char>> {
    if is_ascii_chars(path) {
        first_date_token(path)
    } else {
        regex_first_group(DATE_PATTERN@, path)
    }
}

/// The date token of the logical location `location`, if it is one.
pub open spec fn location_token(location: Seq<char>) -> Option<Seq<char>> {
    if is_ascii_chars(location) {
        first_location_token(location)
    } else {
        regex_first_group(LOCATION_PATTERN@, location)
    }
}

/// `regex::Regex::new` and `Regex::captures`: the text of the first capture
/// group at the leftmost match of `pattern` in `haystack`. In both patterns
/// `\d` is a decimal digit of Unicode, which within ASCII is `0` to `9`, and
/// `.` is any character but a line feed.
#[verifier::external_body]
fn regex_capture(pattern: &str, haystack: &str) -> (r: Option<String>)
    requires
        pattern@ == DATE_PATTERN@ || pattern@ == LOCATION_PATTERN@,
    ensures
        r.deep_view() == regex_first_group(pattern@, haystack@),
        pattern@ == DATE_PATTERN@ && is_ascii_chars(haystack@) ==> r.deep_view()
            == first_date_token(haystack@),
        pattern@ == LOCATION_PATTERN@ && is_ascii_chars(haystack@) ==> r.deep_view()
            == first_location_token(haystack@),
{
    Regex::new(pattern).unwrap().captures(haystack).map(|c| c[1].to_string())
}

/// The date token of an archive path.
pub fn find_date_token(path: &str) -> (r: Option<String>)
    ensures
        r.deep_view() == date_token(path@),
{
    regex_capture(DATE_PATTERN, path)
}

/// The date token of a logical location.
pub fn find_location_token(location: &str) -> (r: Option<String>)
    ensures
        r.deep_view() == location_token(location@),
{
    regex_capture(LOCATION_PATTERN, location)
}

/// The location of the data of the day `date`.
pub fn location_of(date: &Date) -> (location: String)
    ensures
        location@ == location_text(date@),
{
    proof {
        reveal_strlit("date=");
        reveal_strlit("/adam.parquet");
    }
    let mut location = String::from_str("date=");
    location.append(date.iso_string().as_str());
    location.append("/adam.parquet");
    proof {
        assert("date="@ =~= seq!['d', 'a', 't', 'e', '=']);
        assert("/adam.parquet"@ =~= seq![
            '/',
            'a',
            'd',
            'a',
            'm',
            '.',
            'p',
            'a',
            'r',
            'q',
            'u',
            'e',
            't',
        ]);
    }
    location
}

/// The characters of the location of a day, place by place.
proof fn lemma_location_text_chars(ymd: (int, int, int))
    requires
        is_calendar_date(ymd.0, ymd.1, ymd.2),
    ensures
        location_text(ymd).len() == 28,
        location_text(ymd).subrange(0, 5) == seq!['d', 'a', 't', 'e', '='],
        location_text(ymd).subrange(5, 15) == iso_text(ymd),
        location_text(ymd).subrange(15, 20) == seq!['/', 'a', 'd', 'a', 'm'],
        location_text(ymd)[20] == '.',
        location_text(ymd).subrange(21, 28) == seq!['p', 'a', 'r', 'q', 'u', 'e', 't'],
        location_text(ymd)[0] == 'd',
        location_text(ymd)[1] == 'a',
        location_text(ymd)[2] == 't',
        location_text(ymd)[3] == 'e',
        location_text(ymd)[4] == '=',
        forall|i: int| 5 <= i < 15 ==> location_text(ymd)[i] == iso_text(ymd)[i - 5],
        location_text(ymd)[15] == '/',
        forall|i: int|
            16 <= i < 28 ==> 'a' <= #[trigger] location_text(ymd)[i] <= 'z' || location_text(
                ymd,
            )[i] == '.',
{
    let head = seq!['d', 'a', 't', 'e', '='];
    let tail = seq!['/', 'a', 'd', 'a', 'm', '.', 'p', 'a', 'r', 'q', 'u', 'e', 't'];
    let l = location_text(ymd);
    lemma_iso_text_round_trip(ymd);
    assert(iso_text(ymd).len() == 10);
    assert(l == head + iso_text(ymd) + tail);
    assert(l.len() == 28);
    assert forall|i: int| 0 <= i < 28 implies l[i] == (if i < 5 {
        head[i]
    } else if i < 15 {
        iso_text(ymd)[i - 5]
    } else {
        tail[i - 15]
    }) by {}
    assert(l.subrange(0, 5) =~= head);
    assert(l.subrange(5, 15) =~= iso_text(ymd));
    assert(l.subrange(15, 20) =~= seq!['/', 'a', 'd', 'a', 'm']);
    assert(l.subrange(21, 28) =~= seq!['p', 'a', 'r', 'q', 'u', 'e', 't']);
    assert forall|i: int| 16 <= i < 28 implies 'a' <= #[trigger] l[i] <= 'z' || l[i] == '.' by {
        assert(l[i] == tail[i - 15]);
    }
}

/// The location of a day is ASCII text. As a location it holds the day's date
/// token, and as an archive path it holds the same token.
pub proof fn lemma_location_text_tokens(ymd: (int, int, int))
    requires
        is_calendar_date(ymd.0, ymd.1, ymd.2),
    ensures
        is_ascii_chars(location_text(ymd)),
        location_token(location_text(ymd)) == Some(iso_text(ymd)),
        date_token(location_text(ymd)) == Some(iso_text(ymd)),
{
    let l = location_text(ymd);
    lemma_location_text_chars(ymd);
    lemma_iso_text_round_trip(ymd);
    let t = iso_text(ymd);
    assert forall|i: int| 0 <= i < l.len() implies '\0' <= #[trigger] l[i] <= '\u{7f}' by {
        if 5 <= i < 15 {
            assert(l[i] == t[i - 5]);
            assert(is_digit(t[i - 5]) || t[i - 5] == '-');
        }
    }
    assert(location_at(l, 0));
    assert(is_first_location(l, 0));
    let c = choose|i: int| is_first_location(l, i);
    assert(c == 0) by {
        if c > 0 {
            assert(!location_at(l, 0));
        }
    }
    assert(date_token_at(l, 5));
    assert forall|j: int| 0 <= j < 5 implies !date_token_at(l, j) by {
        assert(l.subrange(j, j + 10)[0] == l[j]);
    }
    assert(is_first_date_token(l, 5));
    let d = choose|i: int| is_first_date_token(l, i);
    assert(d == 5) by {
        if d < 5 {
            assert(!date_token_at(l, d));
        } else if d > 5 {
            assert(!date_token_at(l, 5));
        }
    }
}

/// The location of a day writes an object path, and the path is the location
/// itself.
pub proof fn lemma_location_text_is_path(ymd: (int, int, int))
    requires
        is_calendar_date(ymd.0, ymd.1, ymd.2),
    ensures
        parsed_path(location_text(ymd)) == Some(location_text(ymd)),
{
    let l = location_text(ymd);
    lemma_location_text_chars(ymd);
    lemma_iso_text_round_trip(ymd);
    let t = iso_text(ymd);
    assert forall|i: int| 0 <= i < l.len() implies (#[trigger] l[i] == '/' || is_legal_path_char(
        l[i],
    )) && (l[i] == '/' <==> i == 15) by {
        if 5 <= i < 15 {
            assert(l[i] == t[i - 5]);
            assert(is_digit(t[i - 5]) || t[i - 5] == '-');
        }
    }
    assert(l[16] == 'a') by {
        assert(l.subrange(15, 20)[1] == l[16]);
    }
    assert forall|i: int| 0 <= i <= l.len() implies !#[trigger] is_bad_segment_at(l, i) by {
        if i == 0 {
            assert(!segment_ends(l, 0));
        } else if i == 16 {
            assert(!segment_ends(l, 16));
        } else {
            assert(!segment_begins(l, i));
        }
    }
    assert(has_legal_segments(l));
    assert(without_leading_slash(l) == l);
    assert(without_trailing_slash(l) == l);
}

} // verus!
