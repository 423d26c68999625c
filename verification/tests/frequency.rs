use tar_object_store::resampler::{DataFreq, InputDataFreq, Seconds, SqlDateBinKind};

#[test]
fn main_test_cmp_seconds() {
    assert_eq!(
        Seconds::from(SqlDateBinKind::TenMins) <= Seconds::from(InputDataFreq::Seconds),
        false
    );

    assert_eq!(
        Seconds::from(SqlDateBinKind::ThirtyMinutes) <= Seconds::from(InputDataFreq::Minutes),
        false
    );

    assert_eq!(
        Seconds::from(SqlDateBinKind::OneHour) <= Seconds::from(InputDataFreq::Hours),
        true
    );

    assert_eq!(
        Seconds::from(SqlDateBinKind::SixHours) <= Seconds::from(InputDataFreq::Days),
        true
    );
}

#[test]
fn data_freq_seconds_compare_by_length() {
    assert_eq!(
        Seconds::from(DataFreq::TenMins) >= Seconds::from(DataFreq::CustomFreqSeconds(6)),
        true
    );
    assert_eq!(
        Seconds::from(DataFreq::TenMins) >= Seconds::from(DataFreq::CustomFreqSeconds(601)),
        false
    );
    assert_eq!(
        Seconds::from(DataFreq::OneHour) >= Seconds::from(DataFreq::OneMin),
        true
    );
    assert!(Seconds::from(DataFreq::OneDay) == Seconds::from(InputDataFreq::Days));
    assert!(Seconds::from(DataFreq::OneMin) == Seconds(60));
    assert!(Seconds::from(DataFreq::OneDay) == Seconds(86400));
    assert!(Seconds::from(SqlDateBinKind::SixHours) == Seconds(21600));
}
