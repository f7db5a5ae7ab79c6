use crate::markup::{escape, lemma_escape_plain};
use crate::text::{
    all_digits, all_zeros, count_digits, digit, is_digit, zeros_between, COLON, DOT, MINUS, PLUS,
    UPPER_T, UPPER_Z, ZERO,
};
use vstd::prelude::*;
use vstd::std_specs::convert::TryFromSpecImpl;
use vstd::utf8::encode_utf8;

verus! {

/// Two digits that read a number from `lo` to `hi`.
pub open spec fn two_digits(s: Seq<u8>, lo: int, hi: int) -> bool {
    &&& s.len() == 2
    &&& is_digit(s[0])
    &&& is_digit(s[1])
    &&& lo <= (s[0] - ZERO) * 10 + (s[1] - ZERO) <= hi
}

/// A year: four digits, or more than four that do not begin with a zero.
pub open spec fn is_year(s: Seq<u8>) -> bool {
    &&& s.len() >= 4
    &&& all_digits(s)
    &&& s.len() > 4 ==> s[0] != ZERO
}

/// A calendar date: an optional `-`, a year, then `-MM-DD` with a month from
/// 01 to 12 and a day from 01 to 31.
pub open spec fn is_date(s: Seq<u8>) -> bool {
    let body = if s.len() > 0 && s[0] == MINUS {
        s.skip(1)
    } else {
        s
    };
    let n = body.len() as int;
    &&& n >= 10
    &&& is_year(body.take(n - 6))
    &&& body[n - 6] == MINUS
    &&& two_digits(body.subrange(n - 5, n - 3), 1, 12)
    &&& body[n - 3] == MINUS
    &&& two_digits(body.skip(n - 2), 1, 31)
}

/// A time of day: `HH:MM:SS` from 00:00:00 to 23:59:59 with an optional
/// fraction of one or more digits, or `24:00:00` with an optional fraction
/// of one or more zeros.
pub open spec fn is_time(s: Seq<u8>) -> bool {
    &&& s.len() >= 8
    &&& s[2] == COLON
    &&& s[5] == COLON
    &&& s.len() > 8 ==> s.len() >= 10 && s[8] == DOT && all_digits(s.skip(9))
    &&& {
        ||| {
            &&& two_digits(s.take(2), 0, 23)
            &&& two_digits(s.subrange(3, 5), 0, 59)
            &&& two_digits(s.subrange(6, 8), 0, 59)
        }
        ||| {
            &&& two_digits(s.take(2), 24, 24)
            &&& two_digits(s.subrange(3, 5), 0, 0)
            &&& two_digits(s.subrange(6, 8), 0, 0)
            &&& s.len() > 8 ==> all_zeros(s.skip(9))
        }
    }
}

/// A time zone, which may be left out: `Z`, or `+hh:mm` or `-hh:mm` from
/// 00:00 to 13:59, or 14:00.
pub open spec fn is_timezone(s: Seq<u8>) -> bool {
    ||| s.len() == 0
    ||| s.len() == 1 && s[0] == UPPER_Z
    ||| {
        &&& s.len() == 6
        &&& s[0] == PLUS || s[0] == MINUS
        &&& s[3] == COLON
        &&& {
            ||| two_digits(s.subrange(1, 3), 0, 13) && two_digits(s.skip(4), 0, 59)
            ||| two_digits(s.subrange(1, 3), 14, 14) && two_digits(s.skip(4), 0, 0)
        }
    }
}

/// A date followed by a time zone: the first `k` bytes are the date.
pub open spec fn splits_as_date(s: Seq<u8>, k: int) -> bool {
    &&& 0 <= k <= s.len()
    &&& is_date(s.take(k))
    &&& is_timezone(s.skip(k))
}

/// A date, `T`, a time and a time zone: the date ends at `k`, the time at
/// `j`.
pub open spec fn splits_as_date_time(s: Seq<u8>, k: int, j: int) -> bool {
    &&& 0 <= k < j <= s.len()
    &&& is_date(s.take(k))
    &&& s[k] == UPPER_T
    &&& is_time(s.subrange(k + 1, j))
    &&& is_timezone(s.skip(j))
}

/// The lexical form of a date or of a date with a time, as XML Schema has
/// them, each with an optional time zone.
pub open spec fn is_lastmod(s: Seq<u8>) -> bool {
    ||| exists|k: int| splits_as_date(s, k)
    ||| exists|k: int, j: int| splits_as_date_time(s, k, j)
}

/// The length of the sign that a date may begin with.
spec fn sign_len(s: Seq<u8>) -> int {
    if s.len() > 0 && s[0] == MINUS {
        1
    } else {
        0
    }
}

/// `is_date` of the first `k` bytes of `s`, said of the positions in `s`.
spec fn date_ends_at(s: Seq<u8>, k: int) -> bool {
    let i0 = sign_len(s);
    &&& i0 + 10 <= k <= s.len()
    &&& forall|i: int| i0 <= i < k - 6 ==> is_digit(#[trigger] s[i])
    &&& k - 6 - i0 > 4 ==> s[i0] != ZERO
    &&& s[k - 6] == MINUS
    &&& two_digits(s.subrange(k - 5, k - 3), 1, 12)
    &&& s[k - 3] == MINUS
    &&& two_digits(s.subrange(k - 2, k), 1, 31)
}

proof fn lemma_date_ends_at(s: Seq<u8>, k: int)
    requires
        0 <= k <= s.len(),
    ensures
        is_date(s.take(k)) == date_ends_at(s, k),
{
    let t = s.take(k);
    if k > 0 {
        assert(t[0] == s[0]);
        let i0 = sign_len(s);
        let body = if t.len() > 0 && t[0] == MINUS {
            t.skip(1)
        } else {
            t
        };
        assert(body == t.skip(i0));
        let n = body.len() as int;
        assert(n == k - i0);
        if n >= 10 {
            let year = body.take(n - 6);
            assert(body.subrange(n - 5, n - 3) == s.subrange(k - 5, k - 3));
            assert(body.skip(n - 2) == s.subrange(k - 2, k));
            assert(body[n - 6] == s[k - 6]);
            assert(body[n - 3] == s[k - 3]);
            assert(year[0] == s[i0]);
            if all_digits(year) {
                assert forall|i: int| i0 <= i < k - 6 implies is_digit(#[trigger] s[i]) by {
                    assert(year[i - i0] == s[i]);
                }
            }
            if forall|i: int| i0 <= i < k - 6 ==> is_digit(#[trigger] s[i]) {
                assert forall|j: int| 0 <= j < year.len() implies is_digit(#[trigger] year[j]) by {
                    assert(year[j] == s[i0 + j]);
                }
            }
        }
    }
}

/// Whether the two bytes at `i` are digits that read a number from `lo` to
/// `hi`.
fn two_digits_at(s: &[u8], i: usize, lo: u8, hi: u8) -> (r: bool)
    requires
        i + 2 <= s.len(),
    ensures
        r == two_digits(s@.subrange(i as int, i + 2), lo as int, hi as int),
{
    if digit(s[i]) && digit(s[i + 1]) {
        let v: u8 = (s[i] - ZERO) * 10 + (s[i + 1] - ZERO);
        lo <= v && v <= hi
    } else {
        false
    }
}

/// Where the date that `s` begins with ends, if it begins with one.
fn scan_date(s: &[u8]) -> (r: Option<usize>)
    ensures
        r matches Some(k) ==> date_ends_at(s@, k as int),
        forall|k: int| date_ends_at(s@, k) ==> r == Some(k as usize),
{
    let i0: usize = if s.len() > 0 && s[0] == MINUS {
        1
    } else {
        0
    };
    let n = count_digits(s, i0);
    proof {
        assert forall|k: int| date_ends_at(s@, k) implies k - 6 == i0 + n by {
            if k - 6 < i0 + n {
                assert(is_digit(s@[k - 6]));
            }
            if k - 6 > i0 + n {
                assert(is_digit(s@[i0 + n]));
            }
        }
    }
    if n < 4 || s.len() - i0 - n < 6 {
        return None;
    }
    if n > 4 && s[i0] == ZERO {
        return None;
    }
    let m = i0 + n;
    if s[m] == MINUS && two_digits_at(s, m + 1, 1, 12) && s[m + 3] == MINUS && two_digits_at(
        s,
        m + 4,
        1,
        31,
    ) {
        Some(m + 6)
    } else {
        None
    }
}

/// Whether what follows position `k` is a time zone or nothing.
fn timezone_at(s: &[u8], k: usize) -> (r: bool)
    requires
        k <= s.len(),
    ensures
        r == is_timezone(s@.skip(k as int)),
{
    let n = s.len() - k;
    let ghost z = s@.skip(k as int);
    if n == 0 {
        true
    } else if n == 1 {
        s[k] == UPPER_Z
    } else if n == 6 {
        proof {
            assert(z.subrange(1, 3) == s@.subrange(k + 1, k + 3));
            assert(z.skip(4) == s@.subrange(k + 4, k + 6));
        }
        (s[k] == PLUS || s[k] == MINUS) && s[k + 3] == COLON && ((two_digits_at(s, k + 1, 0, 13)
            && two_digits_at(s, k + 4, 0, 59)) || (two_digits_at(s, k + 1, 14, 14)
            && two_digits_at(s, k + 4, 0, 0)))
    } else {
        false
    }
}

/// `is_time` of the bytes of `s` from `from` to `j`, said of the positions
/// in `s`.
spec fn time_spans(s: Seq<u8>, from: int, j: int) -> bool {
    &&& 0 <= from
    &&& from + 8 <= j <= s.len()
    &&& s[from + 2] == COLON
    &&& s[from + 5] == COLON
    &&& j > from + 8 ==> {
        &&& j >= from + 10
        &&& s[from + 8] == DOT
        &&& forall|i: int| from + 9 <= i < j ==> is_digit(#[trigger] s[i])
    }
    &&& {
        ||| {
            &&& two_digits(s.subrange(from, from + 2), 0, 23)
            &&& two_digits(s.subrange(from + 3, from + 5), 0, 59)
            &&& two_digits(s.subrange(from + 6, from + 8), 0, 59)
        }
        ||| {
            &&& two_digits(s.subrange(from, from + 2), 24, 24)
            &&& two_digits(s.subrange(from + 3, from + 5), 0, 0)
            &&& two_digits(s.subrange(from + 6, from + 8), 0, 0)
            &&& forall|i: int| from + 9 <= i < j ==> #[trigger] s[i] == ZERO
        }
    }
}

proof fn lemma_time_spans(s: Seq<u8>, from: int, j: int)
    requires
        0 <= from <= j <= s.len(),
    ensures
        is_time(s.subrange(from, j)) == time_spans(s, from, j),
{
    let t = s.subrange(from, j);
    if j - from >= 8 {
        assert(t.take(2) == s.subrange(from, from + 2));
        assert(t.subrange(3, 5) == s.subrange(from + 3, from + 5));
        assert(t.subrange(6, 8) == s.subrange(from + 6, from + 8));
        assert(t[2] == s[from + 2]);
        assert(t[5] == s[from + 5]);
        if j - from >= 10 {
            assert(t[8] == s[from + 8]);
            let f = t.skip(9);
            if all_digits(f) {
                assert forall|i: int| from + 9 <= i < j implies is_digit(#[trigger] s[i]) by {
                    assert(f[i - from - 9] == s[i]);
                }
            }
            if forall|i: int| from + 9 <= i < j ==> is_digit(#[trigger] s[i]) {
                assert forall|i: int| 0 <= i < f.len() implies is_digit(#[trigger] f[i]) by {
                    assert(f[i] == s[from + 9 + i]);
                }
            }
            if all_zeros(f) {
                assert forall|i: int| from + 9 <= i < j implies #[trigger] s[i] == ZERO by {
                    assert(f[i - from - 9] == s[i]);
                }
            }
            if forall|i: int| from + 9 <= i < j ==> #[trigger] s[i] == ZERO {
                assert forall|i: int| 0 <= i < f.len() implies #[trigger] f[i] == ZERO by {
                    assert(f[i] == s[from + 9 + i]);
                }
            }
        }
    }
}

/// Where the time that stands at `from` ends, if one stands there: after
/// the seconds, or after the last digit of the fraction.
fn scan_time(s: &[u8], from: usize) -> (r: Option<usize>)
    requires
        from <= s.len(),
    ensures
        r matches Some(j) ==> time_spans(s@, from as int, j as int),
        forall|j: int|
            #[trigger] time_spans(s@, from as int, j) && (j == s.len() || !(is_digit(s@[j])
                || s@[j] == DOT)) ==> r == Some(j as usize),
{
    if s.len() - from < 8 {
        return None;
    }
    if s[from + 2] != COLON || s[from + 5] != COLON {
        return None;
    }
    let midnight = two_digits_at(s, from, 24, 24) && two_digits_at(s, from + 3, 0, 0)
        && two_digits_at(s, from + 6, 0, 0);
    let clock = two_digits_at(s, from, 0, 23) && two_digits_at(s, from + 3, 0, 59)
        && two_digits_at(s, from + 6, 0, 59);
    if !midnight && !clock {
        return None;
    }
    let end: usize = if s.len() - from > 8 && s[from + 8] == DOT {
        let n = count_digits(s, from + 9);
        proof {
            assert forall|j: int|
                #[trigger] time_spans(s@, from as int, j) && (j == s.len() || !(is_digit(s@[j])
                    || s@[j] == DOT)) implies j == from + 9 + n by {
                if j < from + 9 + n && j >= from + 9 {
                    assert(is_digit(s@[j]));
                }
                if j > from + 9 + n {
                    assert(is_digit(s@[from + 9 + n]));
                }
            }
        }
        if n == 0 {
            return None;
        }
        from + 9 + n
    } else {
        from + 8
    };
    if clock || end == from + 8 || zeros_between(s, from + 9, end) {
        Some(end)
    } else {
        None
    }
}

/// Whether `s` is a date or a date with a time, as `is_lastmod` defines
/// them.
pub fn matches_lastmod(s: &[u8]) -> (r: bool)
    ensures
        r == is_lastmod(s@),
{
    proof {
        assert forall|k: int| splits_as_date(s@, k) implies date_ends_at(s@, k) by {
            lemma_date_ends_at(s@, k);
        }
        assert forall|k: int, j: int| splits_as_date_time(s@, k, j) implies date_ends_at(s@, k)
            && time_spans(s@, k + 1, j) && (j == s.len() || !(is_digit(s@[j]) || s@[j] == DOT)) by {
            lemma_date_ends_at(s@, k);
            lemma_time_spans(s@, k + 1, j);
            if j < s.len() {
                assert(s@.skip(j)[0] == s@[j]);
            }
        }
    }
    match scan_date(s) {
        None => false,
        Some(k) => {
            proof {
                lemma_date_ends_at(s@, k as int);
            }
            if timezone_at(s, k) {
                assert(splits_as_date(s@, k as int));
                true
            } else if k < s.len() && s[k] == UPPER_T {
                match scan_time(s, k + 1) {
                    None => false,
                    Some(j) => {
                        proof {
                            lemma_time_spans(s@, k + 1, j as int);
                        }
                        let r = timezone_at(s, j);
                        assert(r ==> splits_as_date_time(s@, k as int, j as int));
                        r
                    },
                }
            } else {
                false
            }
        },
    }
}

/// A byte that a valid date or date with a time can hold.
pub open spec fn is_lastmod_byte(b: u8) -> bool {
    is_digit(b) || b == MINUS || b == PLUS || b == COLON || b == DOT || b == UPPER_T || b
        == UPPER_Z
}

proof fn lemma_timezone_bytes(s: Seq<u8>, j: int)
    requires
        0 <= j <= s.len(),
        is_timezone(s.skip(j)),
    ensures
        forall|i: int| j <= i < s.len() ==> is_lastmod_byte(#[trigger] s[i]),
{
    let z = s.skip(j);
    assert forall|i: int| j <= i < s.len() implies is_lastmod_byte(#[trigger] s[i]) by {
        assert(z[i - j] == s[i]);
        if z.len() == 6 {
            assert(z.subrange(1, 3)[0] == z[1]);
            assert(z.subrange(1, 3)[1] == z[2]);
            assert(z.skip(4)[0] == z[4]);
            assert(z.skip(4)[1] == z[5]);
        }
    }
}

proof fn lemma_date_bytes(s: Seq<u8>, k: int)
    requires
        date_ends_at(s, k),
    ensures
        forall|i: int| 0 <= i < k ==> is_lastmod_byte(#[trigger] s[i]),
{
    assert forall|i: int| 0 <= i < k implies is_lastmod_byte(#[trigger] s[i]) by {
        assert(s.subrange(k - 5, k - 3)[0] == s[k - 5]);
        assert(s.subrange(k - 5, k - 3)[1] == s[k - 4]);
        assert(s.subrange(k - 2, k)[0] == s[k - 2]);
        assert(s.subrange(k - 2, k)[1] == s[k - 1]);
    }
}

proof fn lemma_time_bytes(s: Seq<u8>, from: int, j: int)
    requires
        time_spans(s, from, j),
    ensures
        forall|i: int| from <= i < j ==> is_lastmod_byte(#[trigger] s[i]),
{
    assert forall|i: int| from <= i < j implies is_lastmod_byte(#[trigger] s[i]) by {
        assert(s.subrange(from, from + 2)[0] == s[from]);
        assert(s.subrange(from, from + 2)[1] == s[from + 1]);
        assert(s.subrange(from + 3, from + 5)[0] == s[from + 3]);
        assert(s.subrange(from + 3, from + 5)[1] == s[from + 4]);
        assert(s.subrange(from + 6, from + 8)[0] == s[from + 6]);
        assert(s.subrange(from + 6, from + 8)[1] == s[from + 7]);
    }
}

/// A valid date or date with a time holds digits and the marks `-`, `+`,
/// `:`, `.`, `T` and `Z`, and nothing else.
pub proof fn lemma_lastmod_bytes(s: Seq<u8>)
    requires
        is_lastmod(s),
    ensures
        forall|i: int| 0 <= i < s.len() ==> is_lastmod_byte(#[trigger] s[i]),
{
    if exists|k: int| splits_as_date(s, k) {
        let k = choose|k: int| splits_as_date(s, k);
        lemma_date_ends_at(s, k);
        lemma_date_bytes(s, k);
        lemma_timezone_bytes(s, k);
    } else {
        let (k, j) = choose|k: int, j: int| splits_as_date_time(s, k, j);
        lemma_date_ends_at(s, k);
        lemma_time_spans(s, k + 1, j);
        lemma_date_bytes(s, k);
        lemma_time_bytes(s, k + 1, j);
        lemma_timezone_bytes(s, j);
    }
}

/// A valid date or date with a time reaches the document byte for byte as
/// it was given: validation keeps the text, and escaping finds nothing in it
/// to replace.
pub proof fn lemma_lastmod_written_unchanged(s: Seq<u8>)
    requires
        is_lastmod(s),
    ensures
        escape(s) == s,
{
    lemma_lastmod_bytes(s);
    lemma_escape_plain(s);
}

/// The text is neither a date nor a date with a time.
#[derive(Clone, Copy, Debug, PartialEq, Eq)]
pub struct Error;

/// The content of a `lastmod` element: a date, or a date with a time, in
/// the text that was given for it.
#[derive(Debug, PartialEq, Eq)]
pub struct Lastmod {
    text: String,
}

impl Clone for Lastmod {
    fn clone(&self) -> (r: Self)
        ensures
            r@ == self@,
    {
        proof {
            use_type_invariant(self);
        }
        Lastmod { text: self.text.clone() }
    }
}

impl View for Lastmod {
    type V = Seq<char>;

    closed spec fn view(&self) -> Seq<char> {
        self.text@
    }
}

impl Lastmod {
    #[verifier::type_invariant]
    spec fn valid(self) -> bool {
        is_lastmod(encode_utf8(self.text@))
    }

    /// The text, which is valid.
    pub fn into_inner(self) -> (r: String)
        ensures
            r@ == self@,
            is_lastmod(encode_utf8(r@)),
    {
        proof {
            use_type_invariant(&self);
        }
        self.text
    }

    /// Takes a text that was checked against the grammar. This is the one
    /// way in which a value is made, whatever the text was rendered from.
    pub fn from_string(text: String) -> (r: Result<Lastmod, Error>)
        ensures
            r is Ok <==> is_lastmod(encode_utf8(text@)),
            r matches Ok(l) ==> l@ == text@,
    {
        if matches_lastmod(text.as_str().as_bytes()) {
            Ok(Lastmod { text })
        } else {
            Err(Error)
        }
    }
}

impl<'a> TryFrom<&'a str> for Lastmod {
    type Error = Error;

    /// Accepts a date or a date with a time and keeps the text as it is;
    /// refuses every other text.
    fn try_from(value: &'a str) -> (r: Result<Lastmod, Error>)
        ensures
            r is Ok <==> is_lastmod(encode_utf8(value@)),
            r matches Ok(l) ==> l@ == value@,
    {
        if matches_lastmod(value.as_bytes()) {
            Ok(Lastmod { text: value.to_owned() })
        } else {
            Err(Error)
        }
    }
}

/// The conversion is described by the `ensures` of `try_from`, over the
/// view of the value: the text itself has no value in specifications that
/// an equation could name.
impl<'a> TryFromSpecImpl<&'a str> for Lastmod {
    open spec fn obeys_try_from_spec() -> bool {
        false
    }

    open spec fn try_from_spec(v: &'a str) -> Result<Self, Self::Error> {
        arbitrary()
    }
}

#[verifier::external_type_specification]
#[verifier::external_body]
pub struct ExNaiveDate(chrono::NaiveDate);

#[verifier::external_type_specification]
#[verifier::external_body]
pub struct ExNaiveDateTime(chrono::NaiveDateTime);

#[verifier::external_type_specification]
#[verifier::external_body]
pub struct ExFixedOffset(chrono::FixedOffset);

#[verifier::external_type_specification]
#[verifier::external_body]
pub struct ExDate(time::Date);

#[verifier::external_type_specification]
#[verifier::external_body]
pub struct ExOffsetDateTime(time::OffsetDateTime);

#[verifier::external_type_specification]
#[verifier::external_body]
pub struct ExFormatError(time::error::Format);

// What another crate writes for a date is not computed here. Each rendering
// has a name; the function that makes the call is trusted to return what
// the name stands for; and the text is then held to the grammar like any
// other text. A name takes the date itself, which has no view: all that a
// contract knows of a date is whether it is the same date. None of the
// renderings reads a clock, a locale or the time zone of the machine, so
// the same date gives the same text wherever it is written.

/// The text that `chrono` writes for a date that is formatted with `{:?}`:
/// the year, the month and the day with hyphens between them, the year
/// with its sign where it is not from 0 to 9999.
pub uninterp spec fn naive_date_debug(value: chrono::NaiveDate) -> Seq<char>;

/// The text that `chrono::DateTime::to_rfc3339` writes for the date-time
/// that is `utc` in UTC and is shown at `offset`: the date, `T`, the time,
/// a fraction where the nanoseconds are not zero, and the offset as
/// `+hh:mm` or `-hh:mm`.
pub uninterp spec fn rfc3339(utc: chrono::NaiveDateTime, offset: chrono::FixedOffset) -> Seq<char>;

/// The text that `time::Date::format` writes for a date with the
/// description `[year]-[month]-[day]`: the year, the month and the day with
/// hyphens between them. It is nothing where the crate reports an error in
/// reading the description or in writing the date.
pub uninterp spec fn date_format(value: time::Date) -> Option<Seq<char>>;

/// The text that `time::OffsetDateTime::format` writes for a date-time with
/// `Iso8601::DEFAULT`: the date, `T`, the time with nine digits of
/// fraction, and `Z` or the offset as `+hh:mm` or `-hh:mm`. It is nothing
/// where the crate reports an error, as it does for a year that is not from
/// 0 to 9999 and for an offset that has seconds.
pub uninterp spec fn iso8601_format(value: time::OffsetDateTime) -> Option<Seq<char>>;

impl TryFrom<chrono::NaiveDate> for Lastmod {
    type Error = Error;

    /// Takes the date as `chrono` writes it, if that is a valid date.
    fn try_from(value: chrono::NaiveDate) -> (r: Result<Lastmod, Error>)
        ensures
            r is Ok <==> is_lastmod(encode_utf8(naive_date_debug(value))),
            r matches Ok(l) ==> l@ == naive_date_debug(value),
    {
        Lastmod::from_string(naive_date_text(&value))
    }
}

/// The conversion is described by the `ensures` of `try_from`, over the
/// view of the value and the name of the text that is written for it.
impl TryFromSpecImpl<chrono::NaiveDate> for Lastmod {
    open spec fn obeys_try_from_spec() -> bool {
        false
    }

    open spec fn try_from_spec(v: chrono::NaiveDate) -> Result<Self, Self::Error> {
        arbitrary()
    }
}

impl TryFrom<(chrono::NaiveDateTime, chrono::FixedOffset)> for Lastmod {
    type Error = Error;

    /// Takes a date with a time, given as its date and time in UTC and the
    /// offset from UTC at which it is shown, as `chrono` writes it in the
    /// form of RFC 3339, if that is a valid date with a time.
    fn try_from(value: (chrono::NaiveDateTime, chrono::FixedOffset)) -> (r: Result<Lastmod, Error>)
        ensures
            r is Ok <==> is_lastmod(encode_utf8(rfc3339(value.0, value.1))),
            r matches Ok(l) ==> l@ == rfc3339(value.0, value.1),
    {
        Lastmod::from_string(rfc3339_text(&value.0, &value.1))
    }
}

/// The conversion is described by the `ensures` of `try_from`, over the
/// view of the value and the name of the text that is written for it.
impl TryFromSpecImpl<(chrono::NaiveDateTime, chrono::FixedOffset)> for Lastmod {
    open spec fn obeys_try_from_spec() -> bool {
        false
    }

    open spec fn try_from_spec(v: (chrono::NaiveDateTime, chrono::FixedOffset)) -> Result<
        Self,
        Self::Error,
    > {
        arbitrary()
    }
}

impl TryFrom<time::Date> for Lastmod {
    type Error = Error;

    /// Takes the date as `time` writes it, if that is a valid date.
    fn try_from(value: time::Date) -> (r: Result<Lastmod, Error>)
        ensures
            r is Ok <==> (date_format(value) matches Some(t) && is_lastmod(encode_utf8(t))),
            r matches Ok(l) ==> date_format(value) == Some(l@),
    {
        match date_text(value) {
            Some(text) => Lastmod::from_string(text),
            None => Err(Error),
        }
    }
}

/// The conversion is described by the `ensures` of `try_from`, over the
/// view of the value and the name of the text that is written for it.
impl TryFromSpecImpl<time::Date> for Lastmod {
    open spec fn obeys_try_from_spec() -> bool {
        false
    }

    open spec fn try_from_spec(v: time::Date) -> Result<Self, Self::Error> {
        arbitrary()
    }
}

impl TryFrom<time::OffsetDateTime> for Lastmod {
    type Error = Error;

    /// Takes the date with its time as `time` writes it in the form of ISO
    /// 8601, if that is a valid date with a time.
    fn try_from(value: time::OffsetDateTime) -> (r: Result<Lastmod, Error>)
        ensures
            r is Ok <==> (iso8601_format(value) matches Some(t) && is_lastmod(encode_utf8(t))),
            r matches Ok(l) ==> iso8601_format(value) == Some(l@),
    {
        match offset_date_time_text(value) {
            Ok(text) => Lastmod::from_string(text),
            Err(_) => Err(Error),
        }
    }
}

/// The conversion is described by the `ensures` of `try_from`, over the
/// view of the value and the name of the text that is written for it.
impl TryFromSpecImpl<time::OffsetDateTime> for Lastmod {
    open spec fn obeys_try_from_spec() -> bool {
        false
    }

    open spec fn try_from_spec(v: time::OffsetDateTime) -> Result<Self, Self::Error> {
        arbitrary()
    }
}

/// `format!` with `{:?}` on a `chrono::NaiveDate`, which calls the date's
/// `Debug`. The text that comes back is `naive_date_debug` of the date;
/// nothing else is claimed of it.
#[verifier::external_body]
fn naive_date_text(value: &chrono::NaiveDate) -> (r: String)
    ensures
        r@ == naive_date_debug(*value),
{
    format!("{:?}", value)
}

/// `chrono::DateTime::to_rfc3339` of the date-time that
/// `DateTime::from_naive_utc_and_offset` makes of `utc` and `offset`. The
/// text that comes back is `rfc3339` of the two; nothing else is claimed of
/// it.
#[verifier::external_body]
fn rfc3339_text(utc: &chrono::NaiveDateTime, offset: &chrono::FixedOffset) -> (r: String)
    ensures
        r@ == rfc3339(*utc, *offset),
{
    chrono::DateTime::<chrono::FixedOffset>::from_naive_utc_and_offset(*utc, *offset).to_rfc3339()
}

/// `time::Date::format` with the description that
/// `time::format_description::parse_borrowed` reads from
/// `[year]-[month]-[day]`. What comes back is `date_format` of the date:
/// the text, or nothing where either call reports an error. Nothing else is
/// claimed of it.
#[verifier::external_body]
fn date_text(value: time::Date) -> (r: Option<String>)
    ensures
        r matches Some(text) ==> date_format(value) == Some(text@),
        r is None ==> date_format(value) is None,
{
    let format = time::format_description::parse_borrowed::<1>("[year]-[month]-[day]").ok()?;
    value.format(&format).ok()
}

/// `time::OffsetDateTime::format` with `Iso8601::DEFAULT`. What comes back
/// is `iso8601_format` of the date-time: the text, or the error of the
/// crate where the name stands for nothing. Nothing else is claimed of it.
#[verifier::external_body]
fn offset_date_time_text(value: time::OffsetDateTime) -> (r: Result<String, time::error::Format>)
    ensures
        r matches Ok(text) ==> iso8601_format(value) == Some(text@),
        r is Err ==> iso8601_format(value) is None,
{
    value.format(&time::format_description::well_known::Iso8601::DEFAULT)
}

} // verus!
