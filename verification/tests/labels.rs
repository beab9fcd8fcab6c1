use video_gallery::stamp::{decode_epoch, label_at_offset, label_for, parse_ts, stamp_prefix};

fn local_time(seconds: i64) -> String {
    chrono::DateTime::from_timestamp(seconds, 0)
        .unwrap()
        .with_timezone(&chrono::Local)
        .format("%e %b %Y %T")
        .to_string()
}

#[test]
fn stamp_prefix_stops_at_first_dot() {
    assert_eq!(stamp_prefix("1700000000.mp4"), "1700000000");
    assert_eq!(stamp_prefix("a.b.c"), "a");
    assert_eq!(stamp_prefix("noext"), "noext");
    assert_eq!(stamp_prefix(".hidden"), "");
    assert_eq!(stamp_prefix(""), "");
    assert_eq!(stamp_prefix("\u{e9}t\u{e9}.mp4"), "\u{e9}t\u{e9}");
}

#[test]
fn decode_epoch_reads_seconds() {
    assert_eq!(decode_epoch("1700000000.mp4"), Some(1700000000));
    assert_eq!(decode_epoch("0.mkv"), Some(0));
    assert_eq!(decode_epoch("42"), Some(42));
}

#[test]
fn decode_epoch_rejects_other_names() {
    assert_eq!(decode_epoch("myvideo.mp4"), None);
    assert_eq!(decode_epoch(".mp4"), None);
    assert_eq!(decode_epoch(""), None);
    assert_eq!(decode_epoch("12ab.mp4"), None);
    assert_eq!(decode_epoch("99999999999999999999999999.mp4"), None);
}

#[test]
fn parse_ts_decodes_epoch_name() {
    let label = parse_ts("1700000000.mp4");
    assert_eq!(label, local_time(1700000000));
    assert_ne!(label, "1700000000.mp4");
    assert_ne!(label, "1700000000");
    assert_eq!(label.len(), 20);
    assert!(label.contains(" Nov 2023 "));
}

#[test]
fn parse_ts_pads_the_day_with_a_space() {
    let label = parse_ts("1704290709.mp4");
    assert_eq!(label, local_time(1704290709));
    assert!(label.contains(" Jan 2024 "));
    assert!(label.starts_with(' '));
}

#[test]
fn parse_ts_keeps_other_names() {
    assert_eq!(parse_ts("myvideo.mp4"), "myvideo.mp4");
    assert_eq!(parse_ts("noext"), "noext");
    assert_eq!(parse_ts(""), "");
    assert_eq!(parse_ts(".mp4"), ".mp4");
    assert_eq!(parse_ts("17x.mp4"), "17x.mp4");
}

#[test]
fn parse_ts_without_dot_reads_whole_name() {
    assert_eq!(parse_ts("1700000000"), local_time(1700000000));
}

#[test]
fn label_for_prefers_the_stamp() {
    assert_eq!(label_for("a.mp4", Some(String::from(" 3 Jan 2024 14:05:09"))), " 3 Jan 2024 14:05:09");
    assert_eq!(label_for("a.mp4", None), "a.mp4");
}

fn is_digit(c: u8) -> bool {
    c.is_ascii_digit()
}

fn has_stamp_shape(text: &str) -> bool {
    let t = text.as_bytes();
    let n = t.len();
    n >= 20
        && (t[0] == b' ' || is_digit(t[0]))
        && is_digit(t[1])
        && t[2] == b' '
        && t[3].is_ascii_alphabetic()
        && t[4].is_ascii_alphabetic()
        && t[5].is_ascii_alphabetic()
        && t[6] == b' '
        && (is_digit(t[7]) || t[7] == b'+' || t[7] == b'-')
        && t[8..n - 9].iter().all(|c| is_digit(*c))
        && t[n - 9] == b' '
        && is_digit(t[n - 8])
        && is_digit(t[n - 7])
        && t[n - 6] == b':'
        && is_digit(t[n - 5])
        && is_digit(t[n - 4])
        && t[n - 3] == b':'
        && is_digit(t[n - 2])
        && is_digit(t[n - 1])
}

#[test]
fn parse_ts_gives_a_stamp_of_twenty_characters_for_plain_digits() {
    for name in ["0.mp4", "1700000000.mp4", "99999999999.mp4", "86399", "00000000000000000000000017.mkv"] {
        let label = parse_ts(name);
        assert!(has_stamp_shape(&label), "{}", label);
        assert_eq!(label.len(), 20);
        assert_ne!(label, name);
        assert!(!label.contains('.'));
    }
}

#[test]
fn parse_ts_writes_far_years_with_a_sign() {
    let label = parse_ts("253402387200.mp4");
    assert_eq!(label, local_time(253402387200));
    assert!(has_stamp_shape(&label), "{}", label);
    assert_eq!(label.len(), 22);
    assert!(label.contains(" +10000 "));
}

#[test]
fn parse_ts_keeps_names_out_of_range() {
    assert_eq!(decode_epoch("99999999999999999.mp4"), None);
    assert_eq!(parse_ts("99999999999999999.mp4"), "99999999999999999.mp4");
}

#[test]
fn decode_epoch_reads_plain_digits_as_their_number() {
    assert_eq!(decode_epoch("99999999999.mp4"), Some(99999999999));
    assert_eq!(decode_epoch("00000000000000000000000017.mkv"), Some(17));
    assert_eq!(decode_epoch("0"), Some(0));
    assert_eq!(decode_epoch("007.a.b"), Some(7));
}

#[test]
fn decode_epoch_skips_leading_blanks_only() {
    assert_eq!(decode_epoch(" 17.mp4"), Some(17));
    assert_eq!(decode_epoch("\t 17.mp4"), Some(17));
    assert_eq!(decode_epoch("17 .mp4"), None);
    assert_eq!(decode_epoch("1 7.mp4"), None);
    assert_eq!(decode_epoch("+17.mp4"), None);
    assert_eq!(decode_epoch("-17.mp4"), None);
    assert_eq!(decode_epoch("17:00.mp4"), None);
    assert_eq!(decode_epoch(" .mp4"), None);
}

#[test]
fn a_stamp_is_never_decoded_again() {
    let label = parse_ts("1700000000.mp4");
    assert_eq!(decode_epoch(&label), None);
    assert_eq!(parse_ts(&label), label);
}

fn local_offset(seconds: i64) -> i32 {
    chrono::DateTime::from_timestamp(seconds, 0)
        .unwrap()
        .with_timezone(&chrono::Local)
        .offset()
        .local_minus_utc()
}

fn is_white_space(c: char) -> bool {
    let u = c as u32;
    (0x09..=0x0d).contains(&u)
        || u == 0x20
        || u == 0x85
        || u == 0xa0
        || u == 0x1680
        || (0x2000..=0x200a).contains(&u)
        || u == 0x2028
        || u == 0x2029
        || u == 0x202f
        || u == 0x205f
        || u == 0x3000
}

#[test]
fn label_at_offset_writes_the_civil_time() {
    assert_eq!(label_at_offset("1704290709.mp4", 0), " 3 Jan 2024 14:05:09");
    assert_eq!(label_at_offset("1704290709.mp4", 3600), " 3 Jan 2024 15:05:09");
    assert_eq!(label_at_offset("1704290709.mp4", -18000), " 3 Jan 2024 09:05:09");
    assert_eq!(label_at_offset("1704290709.mp4", 36000), " 4 Jan 2024 00:05:09");
    assert_eq!(label_at_offset("1700000000.mp4", 0), "14 Nov 2023 22:13:20");
    assert_eq!(label_at_offset("1700000000.mp4", 7200), "15 Nov 2023 00:13:20");
    assert_eq!(label_at_offset("0", 0), " 1 Jan 1970 00:00:00");
    assert_eq!(label_at_offset("0", -1), "31 Dec 1969 23:59:59");
    assert_eq!(label_at_offset("99999999999.mkv", 0), "16 Nov 5138 09:46:39");
    assert_eq!(label_at_offset("951782400.a.b", 0), "29 Feb 2000 00:00:00");
}

#[test]
fn label_at_offset_keeps_the_name_for_no_clock() {
    assert_eq!(label_at_offset("1700000000.mp4", 86400), "1700000000.mp4");
    assert_eq!(label_at_offset("1700000000.mp4", -86400), "1700000000.mp4");
    assert_eq!(label_at_offset("1700000000.mp4", i32::MAX), "1700000000.mp4");
    assert_eq!(label_at_offset("1700000000.mp4", i32::MIN), "1700000000.mp4");
    assert_eq!(label_at_offset("1700000000.mp4", 86399), "15 Nov 2023 22:13:19");
    assert_eq!(label_at_offset("1700000000.mp4", -86399), "13 Nov 2023 22:13:21");
}

#[test]
fn label_at_offset_keeps_names_that_do_not_decode() {
    assert_eq!(label_at_offset("myvideo.mp4", 0), "myvideo.mp4");
    assert_eq!(label_at_offset("", 3600), "");
    assert_eq!(label_at_offset(".hidden", 3600), ".hidden");
    assert_eq!(label_at_offset("\u{e9}1.mp4", 0), "\u{e9}1.mp4");
    assert_eq!(label_at_offset("\u{1}17.mp4", 0), "\u{1}17.mp4");
}

#[test]
fn parse_ts_is_the_label_at_the_local_offset() {
    for name in ["0.mp4", "1700000000.mp4", "1704290709.mp4", "99999999999", " 17.x", "8210266876799.mp4", "nope.mp4"] {
        let offset = match decode_epoch(name) {
            Some(seconds) => local_offset(seconds),
            None => 0,
        };
        assert_eq!(parse_ts(name), label_at_offset(name, offset));
    }
}

#[test]
fn decode_epoch_reaches_the_last_second_and_no_further() {
    assert_eq!(decode_epoch("8210266876799.mp4"), Some(8210266876799));
    assert_eq!(decode_epoch("8210266876800.mp4"), None);
    assert_eq!(decode_epoch("9223372036854775807.mp4"), None);
    assert_eq!(decode_epoch("9223372036854775808.mp4"), None);
    assert_eq!(decode_epoch("99999999999999999999.mp4"), None);
    assert_eq!(parse_ts("99999999999999999999.mp4"), "99999999999999999999.mp4");
    assert_eq!(parse_ts("8210266876800.mp4"), "8210266876800.mp4");
    assert_eq!(label_at_offset("8210266876799.mp4", 0), "31 Dec +262142 23:59:59");
    assert!(has_stamp_shape(&label_at_offset("8210266876799.mp4", 86399)));
    assert!(has_stamp_shape(&parse_ts("8210266876799.mp4")));
}

#[test]
fn moments_span_the_stated_range() {
    assert!(chrono::DateTime::from_timestamp(8210266876799, 0).is_some());
    assert!(chrono::DateTime::from_timestamp(8210266876800, 0).is_none());
    assert!(chrono::DateTime::from_timestamp(-8334601228800, 0).is_some());
    assert!(chrono::DateTime::from_timestamp(-8334601228801, 0).is_none());
    assert!(chrono::DateTime::from_timestamp(i64::MAX, 0).is_none());
    assert!(chrono::DateTime::from_timestamp(i64::MIN, 0).is_none());
}

#[test]
fn white_space_is_the_stated_set() {
    let mut u: u32 = 0;
    while u <= 0x10ffff {
        if let Some(c) = char::from_u32(u) {
            assert_eq!(c.is_whitespace(), is_white_space(c), "{:x}", u);
        }
        u += 1;
    }
}

#[test]
fn decode_epoch_accepts_white_space_then_digits_and_nothing_else() {
    let mut u: u32 = 0;
    while u <= 0x10ffff {
        if let Some(c) = char::from_u32(u) {
            let before = format!("{}17", c);
            let expected = if is_white_space(c) {
                Some(17)
            } else if c.is_ascii_digit() {
                Some((c as i64 - '0' as i64) * 100 + 17)
            } else {
                None
            };
            assert_eq!(decode_epoch(&before), expected, "{:x}", u);
            if c != '.' {
                assert_eq!(decode_epoch(&format!("1{}7", c)), if c.is_ascii_digit() { Some(107 + (c as i64 - '0' as i64) * 10) } else { None }, "{:x}", u);
            }
        }
        u += if u < 0x3100 { 1 } else { 97 };
    }
}
