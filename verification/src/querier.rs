//! The layout of a query over a directory of data files, and the values that
//! stand for what a record lacks.

use crate::text::chars_of;
use vstd::prelude::*;
use vstd::string::StringExecFns;

verus! {

/// The format of parquet files.
pub const PARQUET_FORMAT: &'static str = "parquet";

/// The format of files of comma-separated values.
pub const CSV_FORMAT: &'static str = "csv";

/// The name of the output table where the caller names none.
pub const DEFAULT_OUTPUT_TABLE: &'static str = "output_table";

/// The text that stands for a missing text.
pub const MISSING_TEXT: &'static str = "NA";

/// `c` as a small letter, if it is a capital letter of ASCII.
pub open spec fn ascii_lower(c: char) -> char {
    if 'A' <= c <= 'Z' {
        ((c as u8) + 32) as char
    } else {
        c
    }
}

/// Whether `a` and `b` are the same text but for the case of ASCII letters.
pub open spec fn eq_ignoring_ascii_case(a: Seq<char>, b: Seq<char>) -> bool {
    &&& a.len() == b.len()
    &&& forall|i: int| 0 <= i < a.len() ==> ascii_lower(#[trigger] a[i]) == ascii_lower(b[i])
}

/// Whether `data_format` names a format that a query can read and write.
pub open spec fn is_supported_format(data_format: Seq<char>) -> bool {
    eq_ignoring_ascii_case(data_format, PARQUET_FORMAT@) || eq_ignoring_ascii_case(
        data_format,
        CSV_FORMAT@,
    )
}

/// `c` as a small letter, if it is a capital letter of ASCII.
fn to_ascii_lower(c: char) -> (r: char)
    ensures
        r == ascii_lower(c),
{
    if 'A' <= c && c <= 'Z' {
        ((c as u8) + 32) as char
    } else {
        c
    }
}

/// Whether `a` and `b` are the same text but for the case of ASCII letters.
pub fn eq_ignore_ascii_case(a: &str, b: &str) -> (r: bool)
    ensures
        r == eq_ignoring_ascii_case(a@, b@),
{
    let a_chars = chars_of(a);
    let b_chars = chars_of(b);
    if a_chars.len() != b_chars.len() {
        return false;
    }
    let mut i: usize = 0;
    while i < a_chars.len()
        invariant
            i <= a_chars.len(),
            a_chars@ == a@,
            b_chars@ == b@,
            a_chars.len() == b_chars.len(),
            forall|k: int| 0 <= k < i ==> ascii_lower(#[trigger] a@[k]) == ascii_lower(b@[k]),
        decreases a_chars.len() - i,
    {
        if to_ascii_lower(a_chars[i]) != to_ascii_lower(b_chars[i]) {
            return false;
        }
        i += 1;
    }
    true
}

/// Whether `data_format` names a format that a query can read and write.
pub fn supports_format(data_format: &str) -> (r: bool)
    ensures
        r == is_supported_format(data_format@),
{
    eq_ignore_ascii_case(data_format, PARQUET_FORMAT) || eq_ignore_ascii_case(
        data_format,
        CSV_FORMAT,
    )
}

/// The layout of a query: the table that it reads, and where its result goes.
#[derive(Debug)]
pub struct DfQuerier {
    /// The directory or the files that hold the input; may be a glob
    /// expression.
    pub input_path: String,
    /// The name under which the query knows the input.
    pub input_table_name: String,
    /// Where the result is written; nowhere if it is handed back in memory.
    pub output_path: Option<String>,
    /// The name under which the query knows the output.
    pub output_table_name: String,
    /// The format of the input and of the output.
    pub data_format: Option<String>,
    /// Whether the result is only shown.
    pub preview_only: bool,
}

impl DfQuerier {
    /// The layout of a query that reads the table `input_table_name` from
    /// `input_path` and hands its result back in memory.
    pub fn new_from_data_dir(input_path: &str, input_table_name: &str) -> (r: Self)
        ensures
            r.input_path@ == input_path@,
            r.input_table_name@ == input_table_name@,
            r.output_path is None,
            r.data_format is None,
            r.output_table_name@ == DEFAULT_OUTPUT_TABLE@,
            !r.preview_only,
    {
        DfQuerier {
            input_path: String::from_str(input_path),
            input_table_name: String::from_str(input_table_name),
            output_path: None,
            data_format: None,
            output_table_name: String::from_str(DEFAULT_OUTPUT_TABLE),
            preview_only: false,
        }
    }

    /// The same layout with the result written to `path` as the table `name`.
    /// Without a path the result is handed back in memory, and without a name
    /// the table has the default name.
    pub fn with_output_path(self, path: Option<&str>, name: Option<&str>) -> (r: Self)
        ensures
            r.output_path.deep_view() == match path {
                Some(p) => Some(p@),
                None => None,
            },
            r.output_table_name@ == match name {
                Some(n) => n@,
                None => DEFAULT_OUTPUT_TABLE@,
            },
            r.input_path == self.input_path,
            r.input_table_name == self.input_table_name,
            r.data_format == self.data_format,
            r.preview_only == self.preview_only,
    {
        let output_path = match path {
            Some(p) => Some(String::from_str(p)),
            None => None,
        };
        let output_table_name = match name {
            Some(n) => String::from_str(n),
            None => String::from_str(DEFAULT_OUTPUT_TABLE),
        };
        DfQuerier {
            input_path: self.input_path,
            input_table_name: self.input_table_name,
            output_path,
            output_table_name,
            data_format: self.data_format,
            preview_only: self.preview_only,
        }
    }

    /// The same layout with the result only shown, if `preview` says so.
    pub fn with_preview_only(self, preview: bool) -> (r: Self)
        ensures
            r.preview_only == preview,
            r.input_path == self.input_path,
            r.input_table_name == self.input_table_name,
            r.output_path == self.output_path,
            r.output_table_name == self.output_table_name,
            r.data_format == self.data_format,
    {
        DfQuerier {
            input_path: self.input_path,
            input_table_name: self.input_table_name,
            output_path: self.output_path,
            output_table_name: self.output_table_name,
            data_format: self.data_format,
            preview_only: preview,
        }
    }

    /// The same layout for data of the format `data_format`, which a query
    /// must support.
    pub fn with_data_format(self, data_format: &str) -> (r: Self)
        requires
            is_supported_format(data_format@),
        ensures
            r.data_format.deep_view() == Some(data_format@),
            r.input_path == self.input_path,
            r.input_table_name == self.input_table_name,
            r.output_path == self.output_path,
            r.output_table_name == self.output_table_name,
            r.preview_only == self.preview_only,
    {
        DfQuerier {
            input_path: self.input_path,
            input_table_name: self.input_table_name,
            output_path: self.output_path,
            output_table_name: self.output_table_name,
            data_format: Some(String::from_str(data_format)),
            preview_only: self.preview_only,
        }
    }
}

/// A value that may lack, with a value that stands for what lacks.
pub trait ForceDefaultOpt: Sized {
    /// The value itself, or the one that stands for what lacks.
    fn force_default(self) -> Self;
}

/// A missing number is the least number.
impl ForceDefaultOpt for Option<i64> {
    fn force_default(self) -> (r: Self)
        ensures
            r == Some(
                match self {
                    Some(v) => v,
                    None => i64::MIN,
                },
            ),
    {
        match self {
            Some(v) => Some(v),
            None => Some(i64::MIN),
        }
    }
}

/// A missing text is `NA`.
impl ForceDefaultOpt for Option<String> {
    fn force_default(self) -> (r: Self)
        ensures
            r.deep_view() == Some(
                match self {
                    Some(v) => v@,
                    None => MISSING_TEXT@,
                },
            ),
    {
        match self {
            Some(v) => Some(v),
            None => Some(String::from_str(MISSING_TEXT)),
        }
    }
}

/// A missing truth value is false.
impl ForceDefaultOpt for Option<bool> {
    fn force_default(self) -> (r: Self)
        ensures
            r == Some(
                match self {
                    Some(v) => v,
                    None => false,
                },
            ),
    {
        match self {
            Some(v) => Some(v),
            None => Some(false),
        }
    }
}

} // verus!
