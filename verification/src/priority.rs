use crate::markup::{escape, lemma_escape_plain, AMPERSAND, GREATER_THAN, LESS_THAN, QUOTE};
use crate::text::{
    all_digits, all_zeros, count_digits, is_digit, zeros_between, DOT, MINUS, PLUS, ZERO,
};
use vstd::prelude::*;
use vstd::std_specs::convert::TryFromSpecImpl;
use vstd::utf8::encode_utf8;

verus! {

/// `1`
pub const ONE: u8 = 0x31;

/// The number that a string of digits reads.
pub open spec fn digits_value(s: Seq<u8>) -> nat
    decreases s.len(),
{
    if s.len() == 0 {
        0
    } else {
        digits_value(s.drop_last()) * 10 + (s.last() - ZERO) as nat
    }
}

/// Ten to the power of `n`.
pub open spec fn pow10(n: nat) -> nat
    decreases n,
{
    if n == 0 {
        1
    } else {
        10 * pow10((n - 1) as nat)
    }
}

/// Whether the number with the given sign, digits before the point and
/// digits after it lies from 0 to 1, both included. With `f` digits after
/// the point, the number times ten to the `f` is the whole number that all
/// the digits read together.
pub open spec fn in_unit_interval(negative: bool, whole: Seq<u8>, fraction: Seq<u8>) -> bool {
    let scale = pow10(fraction.len());
    let scaled = digits_value(whole) * scale + digits_value(fraction);
    if negative {
        scaled == 0
    } else {
        scaled <= scale
    }
}

/// The length of the sign that a number may begin with.
pub open spec fn sign_len(s: Seq<u8>) -> int {
    if s.len() > 0 && (s[0] == MINUS || s[0] == PLUS) {
        1
    } else {
        0
    }
}

/// A decimal number from 0 to 1 whose digits before the point end at `d`:
/// an optional sign, digits, and optionally a point and more digits, with a
/// digit on at least one side of the point.
pub open spec fn splits_as_priority(s: Seq<u8>, d: int) -> bool {
    let whole = s.subrange(sign_len(s), d);
    let fraction = if d < s.len() {
        s.skip(d + 1)
    } else {
        Seq::empty()
    };
    &&& sign_len(s) <= d <= s.len()
    &&& all_digits(whole)
    &&& d < s.len() ==> s[d] == DOT
    &&& all_digits(fraction)
    &&& whole.len() + fraction.len() >= 1
    &&& in_unit_interval(s.len() > 0 && s[0] == MINUS, whole, fraction)
}

/// A decimal number from 0.0 to 1.0.
pub open spec fn is_priority(s: Seq<u8>) -> bool {
    exists|d: int| splits_as_priority(s, d)
}

/// Digits read zero exactly when all of them are zeros.
proof fn lemma_value_zero(s: Seq<u8>)
    requires
        all_digits(s),
    ensures
        digits_value(s) == 0 <==> all_zeros(s),
    decreases s.len(),
{
    if s.len() > 0 {
        let t = s.drop_last();
        assert(is_digit(s[s.len() - 1]));
        assert forall|i: int| 0 <= i < t.len() implies is_digit(#[trigger] t[i]) by {
            assert(t[i] == s[i]);
        }
        lemma_value_zero(t);
        if all_zeros(t) && s.last() == ZERO {
            assert forall|i: int| 0 <= i < s.len() implies #[trigger] s[i] == ZERO by {
                if i < t.len() {
                    assert(t[i] == s[i]);
                }
            }
        }
        if all_zeros(s) {
            assert(s[s.len() - 1] == ZERO);
            assert forall|i: int| 0 <= i < t.len() implies #[trigger] t[i] == ZERO by {
                assert(t[i] == s[i]);
            }
        }
    }
}

/// Digits read one exactly when they are zeros followed by a single `1`.
proof fn lemma_value_one(s: Seq<u8>)
    requires
        all_digits(s),
    ensures
        digits_value(s) == 1 <==> s.len() > 0 && s.last() == ONE && all_zeros(s.drop_last()),
{
    if s.len() > 0 {
        let t = s.drop_last();
        assert(is_digit(s[s.len() - 1]));
        assert forall|i: int| 0 <= i < t.len() implies is_digit(#[trigger] t[i]) by {
            assert(t[i] == s[i]);
        }
        lemma_value_zero(t);
    }
}

/// `n` digits read a number below ten to the `n`.
proof fn lemma_value_bound(s: Seq<u8>)
    requires
        all_digits(s),
    ensures
        digits_value(s) < pow10(s.len()),
    decreases s.len(),
{
    if s.len() > 0 {
        let t = s.drop_last();
        assert(is_digit(s[s.len() - 1]));
        assert forall|i: int| 0 <= i < t.len() implies is_digit(#[trigger] t[i]) by {
            assert(t[i] == s[i]);
        }
        lemma_value_bound(t);
    }
}

/// How the digits decide whether the number lies from 0 to 1: below one,
/// the digits before the point are all zeros; at one, they read one and
/// those after the point are all zeros; and a negative number lies there
/// only as zero.
pub proof fn lemma_in_unit_interval(negative: bool, whole: Seq<u8>, fraction: Seq<u8>)
    requires
        all_digits(whole),
        all_digits(fraction),
    ensures
        in_unit_interval(negative, whole, fraction) <==> if negative {
            all_zeros(whole) && all_zeros(fraction)
        } else {
            all_zeros(whole) || (digits_value(whole) == 1 && all_zeros(fraction))
        },
{
    lemma_value_zero(whole);
    lemma_value_zero(fraction);
    lemma_value_bound(fraction);
    let w = digits_value(whole);
    let f = digits_value(fraction);
    let scale = pow10(fraction.len());
    assert(w == 0 ==> w * scale == 0) by (nonlinear_arith);
    assert(w == 1 ==> w * scale == scale) by (nonlinear_arith);
    assert(w >= 2 && scale >= 1 ==> w * scale >= 2 * scale) by (nonlinear_arith);
    assert(w >= 1 && scale >= 1 ==> w * scale >= 1) by (nonlinear_arith);
}

/// Whether `s` is a decimal number from 0.0 to 1.0, as `is_priority`
/// defines it.
pub fn matches_priority(s: &[u8]) -> (r: bool)
    ensures
        r == is_priority(s@),
{
    let negative = s.len() > 0 && s[0] == MINUS;
    let i0: usize = if s.len() > 0 && (s[0] == MINUS || s[0] == PLUS) {
        1
    } else {
        0
    };
    let n = count_digits(s, i0);
    let d = i0 + n;
    let ghost whole = s@.subrange(i0 as int, d as int);
    proof {
        assert forall|d2: int| splits_as_priority(s@, d2) implies d2 == d by {
            let w2 = s@.subrange(i0 as int, d2);
            if d2 < d {
                assert(is_digit(s@[d2]));
            }
            if d2 > d {
                assert(w2[d - i0] == s@[d as int]);
            }
        }
        assert forall|i: int| 0 <= i < whole.len() implies is_digit(#[trigger] whole[i]) by {
            assert(whole[i] == s@[i0 + i]);
        }
    }
    let end: usize = if d < s.len() {
        if s[d] != DOT {
            return false;
        }
        let m = count_digits(s, d + 1);
        if d + 1 + m < s.len() {
            proof {
                let f = s@.skip(d + 1);
                assert(f[m as int] == s@[d + 1 + m]);
            }
            return false;
        }
        d + 1
    } else {
        d
    };
    let ghost fraction = if d < s.len() {
        s@.skip(d + 1)
    } else {
        Seq::empty()
    };
    proof {
        assert forall|i: int| 0 <= i < fraction.len() implies is_digit(#[trigger] fraction[i]) by {
            assert(fraction[i] == s@[end + i]);
        }
        lemma_in_unit_interval(negative, whole, fraction);
        lemma_value_one(whole);
    }
    if n + (s.len() - end) < 1 {
        return false;
    }
    let whole_zero = zeros_between(s, i0, d);
    let fraction_zero = zeros_between(s, end, s.len());
    proof {
        if whole_zero {
            assert forall|i: int| 0 <= i < whole.len() implies #[trigger] whole[i] == ZERO by {
                assert(whole[i] == s@[i0 + i]);
            }
        }
        if all_zeros(whole) {
            assert forall|i: int| i0 <= i < d implies #[trigger] s@[i] == ZERO by {
                assert(whole[i - i0] == s@[i]);
            }
        }
        if fraction_zero {
            assert forall|i: int| 0 <= i < fraction.len() implies #[trigger] fraction[i]
                == ZERO by {
                assert(fraction[i] == s@[end + i]);
            }
        }
        if all_zeros(fraction) {
            assert forall|i: int| end <= i < s.len() implies #[trigger] s@[i] == ZERO by {
                assert(fraction[i - end] == s@[i]);
            }
        }
    }
    let r = if negative {
        whole_zero && fraction_zero
    } else if whole_zero {
        true
    } else {
        let whole_one = s[d - 1] == ONE && zeros_between(s, i0, d - 1);
        proof {
            let t = whole.drop_last();
            assert(whole.last() == s@[d - 1]);
            if whole_one {
                assert forall|i: int| 0 <= i < t.len() implies #[trigger] t[i] == ZERO by {
                    assert(t[i] == s@[i0 + i]);
                }
            }
            if all_zeros(t) {
                assert forall|i: int| i0 <= i < d - 1 implies #[trigger] s@[i] == ZERO by {
                    assert(t[i - i0] == s@[i]);
                }
            }
        }
        whole_one && fraction_zero
    };
    proof {
        if r {
            assert(splits_as_priority(s@, d as int));
        }
    }
    r
}

/// A valid priority reaches the document byte for byte as it was given: it
/// holds digits, a sign and a point, and escaping finds nothing in it to
/// replace.
pub proof fn lemma_priority_written_unchanged(s: Seq<u8>)
    requires
        is_priority(s),
    ensures
        escape(s) == s,
{
    let d = choose|d: int| splits_as_priority(s, d);
    let i0 = sign_len(s);
    let whole = s.subrange(i0, d);
    assert forall|i: int| 0 <= i < s.len() implies {
        let b = #[trigger] s[i];
        b != AMPERSAND && b != LESS_THAN && b != GREATER_THAN && b != QUOTE
    } by {
        if i0 <= i < d {
            assert(whole[i - i0] == s[i]);
        } else if i > d {
            assert(s.skip(d + 1)[i - d - 1] == s[i]);
        }
    }
    lemma_escape_plain(s);
}

/// The text is not a decimal number from 0.0 to 1.0.
#[derive(Clone, Copy, Debug, PartialEq, Eq)]
pub struct Error;

/// The content of a `priority` element: a decimal number from 0.0 to 1.0,
/// in the text that was given for it.
#[derive(Debug, PartialEq, Eq)]
pub struct Priority {
    text: String,
}

impl View for Priority {
    type V = Seq<char>;

    closed spec fn view(&self) -> Seq<char> {
        self.text@
    }
}

impl Clone for Priority {
    fn clone(&self) -> (r: Self)
        ensures
            r@ == self@,
    {
        proof {
            use_type_invariant(self);
        }
        Priority { text: self.text.clone() }
    }
}

impl Priority {
    #[verifier::type_invariant]
    spec fn valid(self) -> bool {
        is_priority(encode_utf8(self.text@))
    }

    /// The text, which is valid.
    pub fn into_inner(self) -> (r: String)
        ensures
            r@ == self@,
            is_priority(encode_utf8(r@)),
    {
        proof {
            use_type_invariant(&self);
        }
        self.text
    }
}

impl<'a> TryFrom<&'a str> for Priority {
    type Error = Error;

    /// Accepts a decimal number from 0.0 to 1.0 and keeps the text as it
    /// is; refuses every other text.
    fn try_from(value: &'a str) -> (r: Result<Priority, Error>)
        ensures
            r is Ok <==> is_priority(encode_utf8(value@)),
            r matches Ok(p) ==> p@ == value@,
    {
        if matches_priority(value.as_bytes()) {
            Ok(Priority { text: value.to_owned() })
        } else {
            Err(Error)
        }
    }
}

/// The conversion is described by the `ensures` of `try_from`, over the
/// view of the value: the text itself has no value in specifications that
/// an equation could name.
impl<'a> TryFromSpecImpl<&'a str> for Priority {
    open spec fn obeys_try_from_spec() -> bool {
        false
    }

    open spec fn try_from_spec(v: &'a str) -> Result<Self, Self::Error> {
        arbitrary()
    }
}

} // verus!
