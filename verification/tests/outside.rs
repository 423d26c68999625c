use tar_object_store::date::Date;
use tar_object_store::object_path::canonical_path;
use tar_object_store::pattern::{find_date_token, find_location_token};

fn is_leap(y: i32) -> bool {
    y % 4 == 0 && (y % 100 != 0 || y % 400 == 0)
}

fn month_len(y: i32, m: u32) -> u32 {
    match m {
        2 => {
            if is_leap(y) {
                29
            } else {
                28
            }
        }
        4 | 6 | 9 | 11 => 30,
        _ => 31,
    }
}

fn in_calendar(y: i32, m: u32, d: u32) -> bool {
    (0..=9999).contains(&y) && (1..=12).contains(&m) && d >= 1 && d <= month_len(y, m)
}

const YEARS: [i32; 14] = [-1, 0, 1, 4, 99, 100, 400, 1900, 1999, 2000, 2023, 2024, 9999, 10000];

#[test]
fn dates_are_the_days_of_the_calendar() {
    for y in YEARS {
        for m in 0..=13u32 {
            for d in 0..=32u32 {
                let date = Date::from_ymd_opt(y, m, d);
                assert_eq!(date.is_some(), in_calendar(y, m, d), "{y}-{m}-{d}");
                if let Some(date) = date {
                    assert_eq!((date.year(), date.month(), date.day()), (y, m, d));
                }
            }
        }
    }
}

#[test]
fn the_next_day_is_the_next_of_the_calendar() {
    for y in YEARS {
        for m in 1..=12u32 {
            for d in 1..=month_len(y, m) {
                let Some(date) = Date::from_ymd_opt(y, m, d) else { continue };
                let next = if d < month_len(y, m) {
                    (y, m, d + 1)
                } else if m < 12 {
                    (y, m + 1, 1)
                } else {
                    (y + 1, 1, 1)
                };
                assert_eq!(date.succ_opt(), Date::from_ymd_opt(next.0, next.1, next.2));
            }
        }
    }
}

#[test]
fn dates_are_written_with_four_two_and_two_digits_and_read_back() {
    for y in YEARS {
        for m in 1..=12u32 {
            for d in [1, 9, 10, 28] {
                let Some(date) = Date::from_ymd_opt(y, m, d) else { continue };
                assert_eq!(date.iso_string(), format!("{:04}-{:02}-{:02}", y, m, d));
                assert_eq!(date.compact_string(), format!("{:04}{:02}{:02}", y, m, d));
                assert_eq!(Date::parse_iso(&date.iso_string()), Some(date));
            }
        }
    }
}

#[test]
fn texts_of_the_date_shape_are_read_as_their_numbers() {
    for y in [0, 7, 1987, 9999] {
        for m in 0..=13u32 {
            for d in [0, 1, 28, 29, 30, 31, 32] {
                let text = format!("{:04}-{:02}-{:02}", y, m, d);
                assert_eq!(Date::parse_iso(&text), Date::from_ymd_opt(y, m, d), "{text}");
            }
        }
    }
}

fn is_legal(c: char) -> bool {
    c == '%' || ((' '..='}').contains(&c) && !"/\\{^}`]\">[<#|*?".contains(c))
}

#[test]
fn a_path_segment_takes_the_legal_characters_only() {
    for code in 0..=0x7fu32 {
        let c = char::from_u32(code).unwrap();
        if c == '/' {
            continue;
        }
        let raw = format!("a{c}b/c{c}");
        let expected = if is_legal(c) { Some(raw.clone()) } else { None };
        assert_eq!(canonical_path(&raw), expected, "code {code}");
    }
    for c in ['\u{80}', 'é', 'ß', '٢', '日', '😀'] {
        assert_eq!(canonical_path(&format!("a{c}")), None);
    }
}

#[test]
fn dots_are_refused_only_as_whole_segments() {
    for (raw, expected) in [
        ("a/.b", true),
        ("a/b.", true),
        ("a/..b", true),
        ("a/...", true),
        ("...", true),
        (".", false),
        ("..", false),
        ("a/.", false),
        ("./a", false),
        ("a/./b", false),
        ("a/..", false),
        ("../a", false),
        ("/./", false),
        ("/../", false),
    ] {
        assert_eq!(canonical_path(raw).is_some(), expected, "{raw}");
    }
}

fn is_date_shape(t: &[u8]) -> bool {
    t.len() == 10
        && t.iter().enumerate().all(|(i, b)| {
            if i == 4 || i == 7 {
                *b == b'-'
            } else {
                b.is_ascii_digit()
            }
        })
}

fn first_date_token(h: &str) -> Option<String> {
    let b = h.as_bytes();
    (0..b.len().saturating_sub(9))
        .find(|i| is_date_shape(&b[*i..*i + 10]))
        .map(|i| h[i..i + 10].to_string())
}

fn first_location_token(h: &str) -> Option<String> {
    let b = h.as_bytes();
    (0..b.len().saturating_sub(27))
        .find(|i| {
            let at = &b[*i..*i + 28];
            &at[0..5] == b"date="
                && is_date_shape(&at[5..15])
                && &at[15..20] == b"/adam"
                && at[20] != b'\n'
                && &at[21..28] == b"parquet"
        })
        .map(|i| h[i + 5..i + 15].to_string())
}

const PIECES: [&str; 12] = [
    "date=",
    "2022-04-01",
    "1999-12-31",
    "/adam.parquet",
    "/adam\nparquet",
    "/adam\rparquet",
    "/adamxparquet",
    "-",
    "7",
    "date=20",
    "/",
    "x",
];

#[test]
fn date_tokens_in_ascii_text_are_the_leftmost() {
    for a in PIECES {
        for b in PIECES {
            for c in PIECES {
                let h = format!("{a}{b}{c}");
                assert_eq!(find_date_token(&h), first_date_token(&h), "{h:?}");
            }
        }
    }
}

#[test]
fn location_tokens_in_ascii_text_are_the_leftmost() {
    for a in PIECES {
        for b in PIECES {
            for c in PIECES {
                let h = format!("{a}{b}{c}");
                assert_eq!(find_location_token(&h), first_location_token(&h), "{h:?}");
            }
        }
    }
}

#[test]
fn a_location_may_follow_a_broken_one() {
    for h in [
        "date=date=2022-04-01/adam.parquet",
        "date=2022-04-01/adam\nparquet date=1999-12-31/adam.parquet",
        "date=2022-04-0date=1999-12-31/adam.parquet/adam.parquet",
        "2022-04-01date=1999-12-31/adam:parquetx",
    ] {
        assert_eq!(find_location_token(h), first_location_token(h), "{h:?}");
        assert!(find_location_token(h).is_some());
    }
}
