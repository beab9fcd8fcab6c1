//! Labels for files that are named by the second they were recorded at.

use vstd::prelude::*;
use vstd::string::*;

verus! {

/// Index of the first `.` in `s`, or its length where it has none.
pub open spec fn first_dot(s: Seq<char>) -> nat
    decreases s.len(),
{
    if s.len() == 0 || s[0] == '.' {
        0
    } else {
        1 + first_dot(s.drop_first())
    }
}

/// The part of a name before its first `.`; the whole name where it has none.
pub open spec fn stamp_prefix_of(name: Seq<char>) -> Seq<char> {
    name.take(first_dot(name) as int)
}

/// The label shown for `name`: the local time it decodes to, if any.
pub open spec fn label_of(name: Seq<char>, stamp: Option<Seq<char>>) -> Seq<char> {
    match stamp {
        Some(text) => text,
        None => name,
    }
}

/// The text that chrono writes for the moment `seconds` after the epoch on
/// a clock that runs `offset` seconds ahead of UTC; `None` where it has no
/// such moment or no such clock.
pub uninterp spec fn civil_text(seconds: i64, offset: i32) -> Option<Seq<char>>;

/// The last second of the last year that chrono's dates reach.
pub open spec fn max_stamp() -> int {
    8_210_266_876_799
}

/// The first second of the first year that chrono's dates reach.
pub open spec fn min_stamp() -> int {
    -8_334_601_228_800
}

/// Whether chrono can make a moment of this count of seconds.
pub open spec fn stamp_in_range(seconds: int) -> bool {
    min_stamp() <= seconds <= max_stamp()
}

/// Whether a clock can run this many seconds ahead of UTC: less than a day
/// either way.
pub open spec fn offset_in_range(offset: int) -> bool {
    -86_400 < offset < 86_400
}

/// Whether chrono writes a text for this moment on this clock.
pub open spec fn has_civil_text(seconds: int, offset: int) -> bool {
    stamp_in_range(seconds) && offset_in_range(offset)
}

/// The greatest count of seconds that is written with eleven digits. Every
/// count from zero to this one is a moment with a year of four digits.
pub open spec fn plain_limit() -> int {
    99_999_999_999
}

/// A character with Unicode's property White_Space.
pub open spec fn is_white_space(c: char) -> bool {
    let u = c as u32;
    ||| 0x09 <= u <= 0x0d
    ||| u == 0x20
    ||| u == 0x85
    ||| u == 0xa0
    ||| u == 0x1680
    ||| 0x2000 <= u <= 0x200a
    ||| u == 0x2028
    ||| u == 0x2029
    ||| u == 0x202f
    ||| u == 0x205f
    ||| u == 0x3000
}

/// Number of white-space characters that `text` starts with.
pub open spec fn blank_len(text: Seq<char>) -> nat
    decreases text.len(),
{
    if text.len() > 0 && is_white_space(text[0]) {
        1 + blank_len(text.drop_first())
    } else {
        0
    }
}

/// One of the digits `0` to `9`.
pub open spec fn is_digit(c: char) -> bool {
    0x30 <= c as u32 <= 0x39
}

/// One of the letters `A` to `Z` and `a` to `z`.
pub open spec fn is_letter(c: char) -> bool {
    0x41 <= c as u32 <= 0x5a || 0x61 <= c as u32 <= 0x7a
}

/// The number that the digit stands for.
pub open spec fn digit_value(c: char) -> int {
    c as u32 - 0x30
}

/// Made of digits only, and of one at least.
pub open spec fn is_plain_digits(text: Seq<char>) -> bool {
    text.len() > 0 && forall|i: int| 0 <= i < text.len() ==> is_digit(#[trigger] text[i])
}

/// The number that a text of digits writes in decimal.
pub open spec fn digits_value(text: Seq<char>) -> int
    decreases text.len(),
{
    if text.len() == 0 {
        0
    } else {
        digits_value(text.drop_last()) * 10 + digit_value(text.last())
    }
}

/// The count of seconds since the epoch that `text` reads as: after any
/// white space it starts with, digits to its end that write a count in
/// chrono's range. `None` for every other text.
pub open spec fn epoch_seconds(text: Seq<char>) -> Option<i64> {
    let digits = text.skip(blank_len(text) as int);
    if is_plain_digits(digits) && digits_value(digits) <= max_stamp() {
        Some(digits_value(digits) as i64)
    } else {
        None
    }
}

/// The text of a string, if there is one.
pub open spec fn text_of(stamp: Option<String>) -> Option<Seq<char>> {
    match stamp {
        Some(text) => Some(text@),
        None => None,
    }
}

/// The label of `name` on a clock that runs `offset` seconds ahead of UTC:
/// the moment that its prefix reads as, written for that clock, else the
/// name.
pub open spec fn stamp_label(name: Seq<char>, offset: i32) -> Seq<char> {
    label_of(
        name,
        match epoch_seconds(stamp_prefix_of(name)) {
            Some(seconds) => civil_text(seconds, offset),
            None => None,
        },
    )
}

/// The shape of a moment written in local time: the day in two columns, a
/// month's name of three letters, the year in four digits or with a sign
/// and more, and the time of day as `HH:MM:SS`, each parted by one space.
pub open spec fn is_local_stamp(t: Seq<char>) -> bool {
    let n = t.len() as int;
    &&& n >= 20
    &&& (t[0] == ' ' || is_digit(t[0]))
    &&& is_digit(t[1])
    &&& t[2] == ' '
    &&& is_letter(t[3])
    &&& is_letter(t[4])
    &&& is_letter(t[5])
    &&& t[6] == ' '
    &&& (is_digit(t[7]) || t[7] == '+' || t[7] == '-')
    &&& forall|i: int| 8 <= i < n - 9 ==> is_digit(#[trigger] t[i])
    &&& t[n - 9] == ' '
    &&& is_digit(t[n - 8])
    &&& is_digit(t[n - 7])
    &&& t[n - 6] == ':'
    &&& is_digit(t[n - 5])
    &&& is_digit(t[n - 4])
    &&& t[n - 3] == ':'
    &&& is_digit(t[n - 2])
    &&& is_digit(t[n - 1])
}

/// What `parse_ts` owes for `name`: its label on some clock, which is the
/// name itself where its prefix does not read as seconds, and else a moment
/// in local time, which no name that reads as seconds can be.
pub open spec fn is_label(name: Seq<char>, label: Seq<char>) -> bool {
    let prefix = stamp_prefix_of(name);
    &&& exists|offset: i32| offset_in_range(offset as int) && label == #[trigger] stamp_label(name, offset)
    &&& epoch_seconds(prefix) is None ==> label == name
    &&& epoch_seconds(prefix) is Some ==> is_local_stamp(label) && label != name
    &&& epoch_seconds(prefix) is Some && epoch_seconds(prefix).unwrap() <= plain_limit()
        ==> label.len() == 20
}

/// `first_dot` is the one index that is at most the length, has no `.`
/// before it and is either the length or the place of a `.`.
pub proof fn lemma_first_dot(s: Seq<char>, k: int)
    requires
        0 <= k <= s.len(),
        forall|j: int| 0 <= j < k ==> s[j] != '.',
        k < s.len() ==> s[k] == '.',
    ensures
        first_dot(s) == k,
    decreases k,
{
    if k > 0 {
        lemma_first_dot(s.drop_first(), k - 1);
    }
}

/// The prefix is the start of the name, holds no `.`, and ends at the
/// name's end or right before a `.`.
pub proof fn lemma_stamp_prefix(name: Seq<char>)
    ensures
        first_dot(name) <= name.len(),
        stamp_prefix_of(name) == name.subrange(0, first_dot(name) as int),
        forall|j: int| 0 <= j < first_dot(name) ==> name[j] != '.',
        first_dot(name) < name.len() ==> name[first_dot(name) as int] == '.',
    decreases name.len(),
{
    if name.len() > 0 && name[0] != '.' {
        let rest = name.drop_first();
        lemma_stamp_prefix(rest);
        assert forall|j: int| 0 <= j < first_dot(name) implies name[j] != '.' by {
            if j > 0 {
                assert(name[j] == rest[j - 1]);
            }
        }
    }
}

/// Before `blank_len` every character is white space, and the first one
/// after is none.
pub proof fn lemma_blank_len(text: Seq<char>)
    ensures
        blank_len(text) <= text.len(),
        forall|i: int| 0 <= i < blank_len(text) ==> is_white_space(#[trigger] text[i]),
        blank_len(text) < text.len() ==> !is_white_space(text[blank_len(text) as int]),
    decreases text.len(),
{
    if text.len() > 0 && is_white_space(text[0]) {
        let rest = text.drop_first();
        lemma_blank_len(rest);
        assert forall|i: int| 0 <= i < blank_len(text) implies is_white_space(
            #[trigger] text[i],
        ) by {
            if i > 0 {
                assert(text[i] == rest[i - 1]);
            }
        }
    }
}

/// A text of digits writes no negative number.
pub proof fn lemma_digits_value_is_natural(text: Seq<char>)
    requires
        forall|i: int| 0 <= i < text.len() ==> is_digit(#[trigger] text[i]),
    ensures
        digits_value(text) >= 0,
    decreases text.len(),
{
    if text.len() > 0 {
        let front = text.drop_last();
        assert forall|i: int| 0 <= i < front.len() implies is_digit(#[trigger] front[i]) by {
            assert(front[i] == text[i]);
        }
        lemma_digits_value_is_natural(front);
        assert(is_digit(text.last()));
    }
}

/// A text that reads as seconds is white space, then digits, and nothing
/// else; the count it reads as is none below zero and in chrono's range.
pub proof fn lemma_epoch_seconds_shape(text: Seq<char>)
    requires
        epoch_seconds(text) is Some,
    ensures
        blank_len(text) < text.len(),
        forall|i: int|
            0 <= i < text.len() ==> is_white_space(#[trigger] text[i]) || is_digit(text[i]),
        0 <= epoch_seconds(text).unwrap() <= max_stamp(),
        stamp_in_range(epoch_seconds(text).unwrap() as int),
{
    lemma_blank_len(text);
    let k = blank_len(text) as int;
    let digits = text.skip(k);
    lemma_digits_value_is_natural(digits);
    assert forall|i: int| 0 <= i < text.len() implies is_white_space(#[trigger] text[i])
        || is_digit(text[i]) by {
        if i >= k {
            assert(text[i] == digits[i - k]);
        }
    }
}

/// A text of digits that write a count in chrono's range reads as that
/// count; one that writes a greater count does not read as seconds.
pub proof fn lemma_plain_digits_read(text: Seq<char>)
    requires
        is_plain_digits(text),
    ensures
        digits_value(text) <= max_stamp() ==> epoch_seconds(text) == Some(
            digits_value(text) as i64,
        ),
        digits_value(text) > max_stamp() ==> epoch_seconds(text) is None,
{
    assert(is_digit(text[0]));
    assert(text.skip(0) =~= text);
}

/// A moment written in local time holds no `.` and does not read as
/// seconds.
pub proof fn lemma_local_stamp_has_no_dot(t: Seq<char>)
    requires
        is_local_stamp(t),
    ensures
        forall|i: int| 0 <= i < t.len() ==> t[i] != '.',
        first_dot(t) == t.len(),
        stamp_prefix_of(t) == t,
        epoch_seconds(t) is None,
{
    let n = t.len() as int;
    assert forall|i: int| 0 <= i < n implies t[i] != '.' by {
        if 8 <= i < n - 9 {
            assert(is_digit(t[i]));
        }
    }
    lemma_first_dot(t, n);
    assert(t.take(n) =~= t);
    if epoch_seconds(t) is Some {
        lemma_epoch_seconds_shape(t);
        assert(is_white_space(t[n - 3]) || is_digit(t[n - 3]));
    }
}

/// A name that reads as seconds is not a moment written in local time.
pub proof fn lemma_local_stamp_is_no_name(name: Seq<char>, label: Seq<char>)
    requires
        epoch_seconds(stamp_prefix_of(name)) is Some,
        is_local_stamp(label),
    ensures
        label != name,
{
    if label == name {
        lemma_local_stamp_has_no_dot(name);
    }
}

/// Cuts a name at its first `.`.
pub fn stamp_prefix<'a>(name: &'a str) -> (r: &'a str)
    ensures
        r@ == stamp_prefix_of(name@),
{
    let n: usize = name.unicode_len();
    let mut i: usize = 0;
    while i < n && name.get_char(i) != '.'
        invariant
            i <= n,
            n == name@.len(),
            forall|j: int| 0 <= j < i ==> name@[j] != '.',
        decreases n - i,
    {
        i += 1;
    }
    proof {
        lemma_first_dot(name@, i as int);
    }
    name.substring_char(0, i)
}

/// Calls chrono's `DateTime::parse_from_str` with the format `%s` and takes
/// the seconds of what it parsed with `DateTime::timestamp`. Of the parser
/// this is claimed: it trims white space from the start of the text, reads
/// digits, fails where none stands first, where the count overflows or
/// where anything follows, and fails where `DateTime::from_timestamp_secs`
/// has no moment for the count.
#[verifier::external_body]
fn read_epoch(text: &str) -> (r: Option<i64>)
    ensures
        r == epoch_seconds(text@),
{
    match chrono::DateTime::parse_from_str(text, "%s") {
        Ok(moment) => Some(moment.timestamp()),
        Err(_) => None,
    }
}

/// Calls chrono's `DateTime::from_timestamp`, moves the moment to the
/// machine's time zone with `DateTime::with_timezone` and reads how far
/// that zone is ahead of UTC then, with `DateTime::offset` and
/// `FixedOffset::local_minus_utc`. The offset depends on the machine: only
/// its range is claimed, and that there is one for every moment in range.
#[verifier::external_body]
fn local_offset(seconds: i64) -> (r: Option<i32>)
    ensures
        r is Some <==> stamp_in_range(seconds as int),
        r is Some ==> offset_in_range(r.unwrap() as int),
{
    match chrono::DateTime::from_timestamp(seconds, 0) {
        Some(moment) => Some(moment.with_timezone(&chrono::Local).offset().local_minus_utc()),
        None => None,
    }
}

/// Calls chrono's `DateTime::from_timestamp` and `FixedOffset::east_opt`,
/// moves the moment to that offset with `DateTime::with_timezone` and
/// writes it with `DateTime::format` as day, month name, year and time of
/// day. The text is given its name; claimed are its shape, that it has
/// twenty characters where the year has four digits, and that it is there
/// exactly for a moment and an offset in range.
#[verifier::external_body]
fn civil_text_at(seconds: i64, offset: i32) -> (r: Option<String>)
    ensures
        text_of(r) == civil_text(seconds, offset),
        r is Some <==> has_civil_text(seconds as int, offset as int),
        r is Some ==> is_local_stamp(r.unwrap()@),
        r is Some && 0 <= seconds <= plain_limit() ==> r.unwrap()@.len() == 20,
{
    match (chrono::DateTime::from_timestamp(seconds, 0), chrono::FixedOffset::east_opt(offset)) {
        (Some(moment), Some(zone)) => Some(
            moment.with_timezone(&zone).format("%e %b %Y %T").to_string(),
        ),
        _ => None,
    }
}

/// Reads the prefix of `name` as seconds since the epoch.
pub fn decode_epoch(name: &str) -> (r: Option<i64>)
    ensures
        r == epoch_seconds(stamp_prefix_of(name@)),
{
    read_epoch(stamp_prefix(name))
}

/// Chooses what is shown for `name`: the decoded time where there is one,
/// else the name as it is.
pub fn label_for(name: &str, stamp: Option<String>) -> (r: String)
    ensures
        r@ == label_of(name@, text_of(stamp)),
{
    match stamp {
        Some(text) => text,
        None => String::from_str(name),
    }
}

/// The label of a file on a clock that runs `offset` seconds ahead of UTC:
/// where the part of its name before the first `.` reads as seconds since
/// the epoch, that moment on that clock; else the name unchanged.
pub fn label_at_offset(name: &str, offset: i32) -> (r: String)
    ensures
        r@ == stamp_label(name@, offset),
        epoch_seconds(stamp_prefix_of(name@)) is None || !offset_in_range(offset as int) ==> r@
            == name@,
        epoch_seconds(stamp_prefix_of(name@)) is Some && offset_in_range(offset as int)
            ==> is_local_stamp(r@) && r@ != name@,
        epoch_seconds(stamp_prefix_of(name@)) is Some && offset_in_range(offset as int)
            && epoch_seconds(stamp_prefix_of(name@)).unwrap() <= plain_limit() ==> r@.len() == 20,
{
    match decode_epoch(name) {
        Some(seconds) => {
            let stamp = civil_text_at(seconds, offset);
            proof {
                lemma_epoch_seconds_shape(stamp_prefix_of(name@));
                if stamp is Some {
                    lemma_local_stamp_is_no_name(name@, stamp.unwrap()@);
                }
            }
            label_for(name, stamp)
        },
        None => label_for(name, None),
    }
}

/// The label of a file: where the part of its name before the first `.`
/// reads as seconds since the epoch, that moment in local time; else the
/// name unchanged.
pub fn parse_ts(name: &str) -> (r: String)
    ensures
        is_label(name@, r@),
        exists|offset: i32|
            offset_in_range(offset as int) && r@ == #[trigger] stamp_label(name@, offset),
        epoch_seconds(stamp_prefix_of(name@)) is None ==> r@ == name@,
        epoch_seconds(stamp_prefix_of(name@)) is Some ==> is_local_stamp(r@) && r@ != name@,
{
    match decode_epoch(name) {
        Some(seconds) => {
            proof {
                lemma_epoch_seconds_shape(stamp_prefix_of(name@));
            }
            match local_offset(seconds) {
                Some(offset) => {
                    let stamp = civil_text_at(seconds, offset);
                    proof {
                        lemma_local_stamp_is_no_name(name@, stamp.unwrap()@);
                        assert(stamp.unwrap()@ == stamp_label(name@, offset));
                    }
                    label_for(name, stamp)
                },
                None => label_for(name, None),
            }
        },
        None => {
            let r = label_for(name, None);
            proof {
                assert(r@ == stamp_label(name@, 0i32));
            }
            r
        },
    }
}

} // verus!
