//! Picking the files of one month out of an archive, and the columns of
//! observations that are averaged when the files are combined.

use crate::text::{contains_text, is_substring, same_text, texts};
use vstd::prelude::*;
use vstd::string::StrSliceExecFns;
use vstd::string::StringExecFns;

verus! {

/// The extension of the files that are combined.
pub const DATA_EXTENSION: &'static str = "pq";

/// The column that names the station of an observation.
pub const STATION_COLUMN: &'static str = "STN_NUM";

/// The column that holds the time of an observation.
pub const TIME_COLUMN: &'static str = "TM";

/// The column that holds the start of the bin of an observation.
pub const TIME_BIN_COLUMN: &'static str = "TM_BIN";

/// The end of the name of every column that holds a quality flag.
pub const QUALITY_SUFFIX: &'static str = "QUAL";

/// The length of the bins into which observations are gathered.
pub const TEN_MINUTES: &'static str = "10 minutes";

/// `n` written in decimal.
pub open spec fn decimal_text(n: nat) -> Seq<char>
    decreases n,
{
    if n < 10 {
        seq![crate::date::digit_char(n as int)]
    } else {
        decimal_text(n / 10).push(crate::date::digit_char((n % 10) as int))
    }
}

/// The token by which the path of a file names its month: the year, a `-`, and
/// the month in two digits.
pub open spec fn year_month_text(year: nat, month: nat) -> Seq<char> {
    decimal_text(year) + seq!['-'] + if month < 10 {
        seq!['0'] + decimal_text(month)
    } else {
        decimal_text(month)
    }
}

/// Whether a file with the extension `extension` and the path `path` holds
/// data of the month that `token` names.
pub open spec fn is_wanted(extension: Option<Seq<char>>, path: Seq<char>, token: Seq<char>) -> bool {
    extension == Some(DATA_EXTENSION@) && is_substring(path, token)
}

/// The digit `d` as a text.
fn digit_str(d: u32) -> (r: &'static str)
    requires
        d < 10,
    ensures
        r@ == seq![crate::date::digit_char(d as int)],
{
    proof {
        reveal_strlit("0");
        reveal_strlit("1");
        reveal_strlit("2");
        reveal_strlit("3");
        reveal_strlit("4");
        reveal_strlit("5");
        reveal_strlit("6");
        reveal_strlit("7");
        reveal_strlit("8");
        reveal_strlit("9");
    }
    let r = if d == 0 {
        "0"
    } else if d == 1 {
        "1"
    } else if d == 2 {
        "2"
    } else if d == 3 {
        "3"
    } else if d == 4 {
        "4"
    } else if d == 5 {
        "5"
    } else if d == 6 {
        "6"
    } else if d == 7 {
        "7"
    } else if d == 8 {
        "8"
    } else {
        "9"
    };
    proof {
        assert(r@ =~= seq![crate::date::digit_char(d as int)]);
    }
    r
}

/// `n` written in decimal, without sign or padding.
pub fn decimal(n: u32) -> (r: String)
    ensures
        r@ == decimal_text(n as nat),
    decreases n,
{
    if n < 10 {
        String::from_str(digit_str(n))
    } else {
        let mut r = decimal(n / 10);
        r.append(digit_str(n % 10));
        r
    }
}

/// The token by which the path of a file names the month `month` of `year`.
pub fn year_month_token(year: u32, month: u32) -> (token: String)
    requires
        month <= 12,
    ensures
        token@ == year_month_text(year as nat, month as nat),
{
    proof {
        reveal_strlit("-");
        reveal_strlit("0");
        assert("-"@ =~= seq!['-']);
        assert("0"@ =~= seq!['0']);
    }
    let mut token = decimal(year);
    token.append("-");
    if month < 10 {
        token.append("0");
    }
    token.append(decimal(month).as_str());
    token
}

/// Whether a file with the extension `extension` and the path `path` holds
/// data of the month that `token` names.
pub fn has_extension_and_token(extension: Option<&str>, path: &str, token: &str) -> (r: bool)
    ensures
        r == is_wanted(
            match extension {
                Some(e) => Some(e@),
                None => None,
            },
            path@,
            token@,
        ),
{
    match extension {
        Some(e) => same_text(e, DATA_EXTENSION) && contains_text(path, token),
        None => false,
    }
}

/// Whether the last `.` of `s` stands at index `k`.
pub open spec fn is_last_dot(s: Seq<char>, k: int) -> bool {
    &&& 0 <= k < s.len()
    &&& s[k] == '.'
    &&& forall|j: int| k < j < s.len() ==> s[j] != '.'
}

/// Whether the `.` at index `k` of `path` begins the extension of a file name:
/// it is the last `.`, it stands in the last segment and not at its start,
/// and the segment is not `..`.
pub open spec fn begins_extension(path: Seq<char>, k: int) -> bool {
    &&& is_last_dot(path, k)
    &&& forall|j: int| k < j < path.len() ==> path[j] != '/'
    &&& k > 0 && path[k - 1] != '/'
    &&& !(k == path.len() - 1 && path[k - 1] == '.' && (k == 1 || path[k - 2] == '/'))
}

/// The extension of the file that `path` names: what stands after the last
/// `.` of its last segment. A name that has its only `.` at its start has
/// none, nor has `..`, nor a path that ends with `/`.
pub open spec fn path_extension(path: Seq<char>) -> Option<Seq<char>> {
    if exists|k: int| begins_extension(path, k) {
        let k = choose|k: int| begins_extension(path, k);
        Some(path.subrange(k + 1, path.len() as int))
    } else {
        None
    }
}

/// The extension of the file that `path` names, if it has one.
pub fn file_extension(path: &str) -> (r: Option<String>)
    ensures
        r.deep_view() == path_extension(path@),
{
    let chars = crate::text::chars_of(path);
    let n = chars.len();
    let mut k: usize = n;
    while k > 0 && chars[k - 1] != '.' && chars[k - 1] != '/'
        invariant
            k <= n,
            n == chars.len(),
            chars@ == path@,
            forall|j: int| k <= j < n ==> chars@[j] != '.' && chars@[j] != '/',
        decreases k,
    {
        k -= 1;
    }
    let found = k >= 2 && chars[k - 1] == '.' && chars[k - 2] != '/' && !(k == n && chars[k - 2]
        == '.' && (k == 2 || chars[k - 3] == '/'));
    if found {
        proof {
            assert(begins_extension(path@, k - 1));
            let d = choose|d: int| begins_extension(path@, d);
            assert(d == k - 1) by {
                if d < k - 1 {
                    assert(path@[k - 1] != '.');
                } else if d > k - 1 {
                    assert(chars@[d] != '.');
                }
            }
        }
        Some(String::from_str(path.substring_char(k, n)))
    } else {
        proof {
            if exists|d: int| begins_extension(path@, d) {
                let d = choose|d: int| begins_extension(path@, d);
                if d >= k {
                    assert(chars@[d] != '.');
                } else if d < k - 1 {
                    assert(path@[k - 1] != '.' && path@[k - 1] != '/');
                }
            }
        }
        None
    }
}

/// Whether the file at `path` is a data file of the month `month` of `year`.
pub fn is_year_month_file(path: &str, year: u32, month: u32) -> (r: bool)
    requires
        month <= 12,
    ensures
        r == is_wanted(path_extension(path@), path@, year_month_text(year as nat, month as nat)),
{
    let token = year_month_token(year, month);
    match file_extension(path) {
        Some(e) => has_extension_and_token(Some(e.as_str()), path, token.as_str()),
        None => has_extension_and_token(None, path, token.as_str()),
    }
}

/// The name of a column without the table that qualifies it: what stands
/// after the last `.`.
pub open spec fn unqualified(column: Seq<char>) -> Seq<char> {
    if exists|k: int| is_last_dot(column, k) {
        let k = choose|k: int| is_last_dot(column, k);
        column.subrange(k + 1, column.len() as int)
    } else {
        column
    }
}

/// Whether `name` names one of the columns that hold a time.
pub open spec fn is_time_field(name: Seq<char>) -> bool {
    name == "LSD"@ || name == "DATE_CREATED"@ || name == "LAST_UPDATE"@ || name == "TM"@ || name
        == "LCT"@ || name == "CMT"@
}

/// Whether `name` ends with `suffix`.
pub open spec fn ends_with(name: Seq<char>, suffix: Seq<char>) -> bool {
    suffix.len() <= name.len() && name.subrange(name.len() - suffix.len(), name.len() as int)
        == suffix
}

/// Whether the column `name` holds a value that is averaged: it holds no
/// quality flag, no time and not the station.
pub open spec fn is_value_column(name: Seq<char>) -> bool {
    !(ends_with(name, QUALITY_SUFFIX@) || is_time_field(name) || name == STATION_COLUMN@)
}

/// The names of the value columns among `columns`, unqualified, in their
/// order.
pub open spec fn value_columns_of(columns: Seq<Seq<char>>) -> Seq<Seq<char>>
    decreases columns.len(),
{
    if columns.len() == 0 {
        Seq::empty()
    } else {
        let before = value_columns_of(columns.drop_last());
        if is_value_column(unqualified(columns.last())) {
            before.push(unqualified(columns.last()))
        } else {
            before
        }
    }
}

/// The name of a column without the table that qualifies it.
pub fn unqualified_name(column: &str) -> (name: String)
    ensures
        name@ == unqualified(column@),
{
    let chars = crate::text::chars_of(column);
    let mut k: usize = chars.len();
    while k > 0 && chars[k - 1] != '.'
        invariant
            k <= chars.len(),
            chars@ == column@,
            forall|j: int| k <= j < chars.len() ==> chars@[j] != '.',
        decreases k,
    {
        k -= 1;
    }
    if k == 0 {
        proof {
            if exists|d: int| is_last_dot(column@, d) {
                let d = choose|d: int| is_last_dot(column@, d);
                assert(chars@[d] != '.');
            }
        }
        String::from_str(column)
    } else {
        proof {
            assert(is_last_dot(column@, k - 1));
            let d = choose|d: int| is_last_dot(column@, d);
            assert(d == k - 1) by {
                if d < k - 1 {
                    assert(column@[k - 1] != '.');
                } else if d > k - 1 {
                    assert(chars@[d] != '.');
                }
            }
        }
        String::from_str(column.substring_char(k, chars.len()))
    }
}

/// Whether `name` ends with `suffix`.
pub fn name_ends_with(name: &str, suffix: &str) -> (r: bool)
    ensures
        r == ends_with(name@, suffix@),
{
    let n = name.unicode_len();
    let m = suffix.unicode_len();
    if m > n {
        return false;
    }
    same_text(name.substring_char(n - m, n), suffix)
}

/// Whether the column `name` holds a value that is averaged.
pub fn holds_value(name: &str) -> (r: bool)
    ensures
        r == is_value_column(name@),
{
    !(name_ends_with(name, QUALITY_SUFFIX) || same_text(name, "LSD") || same_text(
        name,
        "DATE_CREATED",
    ) || same_text(name, "LAST_UPDATE") || same_text(name, "TM") || same_text(name, "LCT")
        || same_text(name, "CMT") || same_text(name, STATION_COLUMN))
}

/// The names of the value columns among `columns`, unqualified, in their
/// order.
pub fn value_columns(columns: &Vec<String>) -> (r: Vec<String>)
    ensures
        texts(r@) == value_columns_of(texts(columns@)),
{
    let mut r: Vec<String> = Vec::new();
    let mut i: usize = 0;
    while i < columns.len()
        invariant
            i <= columns.len(),
            texts(r@) == value_columns_of(texts(columns@).subrange(0, i as int)),
        decreases columns.len() - i,
    {
        proof {
            let now = texts(columns@).subrange(0, i + 1);
            assert(now.drop_last() == texts(columns@).subrange(0, i as int));
            assert(now.last() == columns@[i as int]@);
        }
        let name = unqualified_name(columns[i].as_str());
        if holds_value(name.as_str()) {
            let ghost before = texts(r@);
            r.push(name);
            proof {
                assert(texts(r@) =~= before.push(name@));
            }
        }
        i += 1;
    }
    proof {
        assert(texts(columns@).subrange(0, i as int) == texts(columns@));
    }
    r
}

/// The columns that are read when files are combined: the value columns, and
/// then the station, the time and the bin.
pub fn keep_columns(value_cols: &Vec<String>) -> (r: Vec<String>)
    ensures
        texts(r@) == texts(value_cols@) + seq![STATION_COLUMN@, TIME_COLUMN@, TIME_BIN_COLUMN@],
{
    let mut r: Vec<String> = Vec::new();
    let mut i: usize = 0;
    while i < value_cols.len()
        invariant
            i <= value_cols.len(),
            texts(r@) == texts(value_cols@).subrange(0, i as int),
        decreases value_cols.len() - i,
    {
        let ghost before = texts(r@);
        r.push(value_cols[i].clone());
        proof {
            assert(texts(r@) =~= before.push(value_cols@[i as int]@));
            assert(texts(value_cols@).subrange(0, i + 1) =~= before.push(value_cols@[i as int]@));
        }
        i += 1;
    }
    proof {
        assert(texts(value_cols@).subrange(0, i as int) == texts(value_cols@));
    }
    let ghost before = texts(r@);
    r.push(String::from_str(STATION_COLUMN));
    r.push(String::from_str(TIME_COLUMN));
    r.push(String::from_str(TIME_BIN_COLUMN));
    proof {
        assert(texts(r@) =~= before + seq![STATION_COLUMN@, TIME_COLUMN@, TIME_BIN_COLUMN@]);
    }
    r
}

} // verus!
