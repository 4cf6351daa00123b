//! The configuration surface the adapter consumes: the outbound-queue
//! capacity setting (a positive decimal integer; anything else falls back
//! to the default) and the supervisor's fixed retry delay.

use vstd::prelude::*;
use vstd::string::StrSliceExecFns;

verus! {

/// Outbound-queue capacity used when the setting is absent or not a
/// positive integer.
pub const DEFAULT_CAPACITY: usize = 10;

/// Fixed delay before the supervisor retries a failed or ended
/// connection, in milliseconds.
pub const RETRY_DELAY_MS: u64 = 1000;

/// A decimal digit.
pub open spec fn is_decimal_digit(c: char) -> bool {
    48 <= c as int <= 57
}

pub open spec fn all_decimal_digits(s: Seq<char>) -> bool {
    forall|i: int| 0 <= i < s.len() ==> is_decimal_digit(#[trigger] s[i])
}

/// The value of a decimal digit string, most significant digit first.
pub open spec fn decimal_value(s: Seq<char>) -> int
    decreases s.len(),
{
    if s.len() == 0 {
        0
    } else {
        decimal_value(s.drop_last()) * 10 + (s.last() as int - 48)
    }
}

/// The digit part of a setting: an integer parse accepts one optional
/// leading `+` sign before the digits.
pub open spec fn digits_part(s: Seq<char>) -> Seq<char> {
    if s.len() > 0 && s[0] == '+' {
        s.drop_first()
    } else {
        s
    }
}

/// What a capacity setting means: its decimal value when it is a positive
/// integer no larger than 65535 (an optional leading `+` accepted), the
/// default otherwise.
pub open spec fn capacity_setting(s: Seq<char>) -> int {
    let d = digits_part(s);
    if d.len() > 0 && all_decimal_digits(d) && 1 <= decimal_value(d) <= 65535 {
        decimal_value(d)
    } else {
        DEFAULT_CAPACITY as int
    }
}

proof fn lemma_decimal_value_nonneg(s: Seq<char>)
    requires
        all_decimal_digits(s),
    ensures
        decimal_value(s) >= 0,
    decreases s.len(),
{
    if s.len() > 0 {
        assert(all_decimal_digits(s.drop_last())) by {
            assert(forall|i: int|
                0 <= i < s.len() - 1 ==> #[trigger] s.drop_last()[i] == s[i]);
        }
        lemma_decimal_value_nonneg(s.drop_last());
    }
}

/// A prefix of a digit string is worth no more than the whole string.
proof fn lemma_decimal_prefix_le(s: Seq<char>, k: int)
    requires
        all_decimal_digits(s),
        0 <= k <= s.len(),
    ensures
        decimal_value(s.take(k)) <= decimal_value(s),
    decreases s.len() - k,
{
    if k < s.len() {
        lemma_decimal_prefix_le(s, k + 1);
        assert(s.take(k + 1).drop_last() =~= s.take(k));
        assert(s.take(k + 1).last() == s[k]);
        assert(all_decimal_digits(s.take(k))) by {
            assert(forall|i: int| 0 <= i < k ==> #[trigger] s.take(k)[i] == s[i]);
        }
        lemma_decimal_value_nonneg(s.take(k));
        assert(decimal_value(s.take(k + 1)) == decimal_value(s.take(k)) * 10 + (s[k] as int - 48));
    } else {
        assert(s.take(k) =~= s);
    }
}

/// The outbound-queue capacity for a given setting: the setting's value
/// when it names a positive integer up to 65535, the default otherwise
/// or when no setting was given.
pub fn outbound_capacity(setting: Option<&str>) -> (r: usize)
    ensures
        match setting {
            Option::Some(s) => r == capacity_setting(s@),
            Option::None => r == DEFAULT_CAPACITY,
        },
        1 <= r <= 65535,
{
    match setting {
        Option::None => DEFAULT_CAPACITY,
        Option::Some(s) => {
            let n = s.unicode_len();
            let mut start: usize = 0;
            if n > 0 && s.get_char(0) == '+' {
                start = 1;
            }
            proof {
                assert(digits_part(s@) =~= s@.subrange(start as int, n as int));
            }
            if start >= n {
                return DEFAULT_CAPACITY;
            }
            let mut i: usize = start;
            let mut acc: u32 = 0;
            proof {
                assert(s@.subrange(start as int, start as int) =~= Seq::<char>::empty());
            }
            while i < n
                invariant
                    setting == Option::Some(s),
                    n == s@.len(),
                    start <= i <= n,
                    start <= 1,
                    digits_part(s@) =~= s@.subrange(start as int, n as int),
                    forall|j: int| start <= j < i ==> is_decimal_digit(#[trigger] s@[j]),
                    acc == decimal_value(s@.subrange(start as int, i as int)),
                    acc <= 65535,
                decreases n - i,
            {
                let c = s.get_char(i);
                let d: u32 = c as u32;
                proof {
                    assert(s@[i as int] == c);
                    assert(d as int == c as int);
                }
                if d < 48 || d > 57 {
                    proof {
                        assert(!is_decimal_digit(s@[i as int]));
                        assert(!all_decimal_digits(digits_part(s@))) by {
                            if all_decimal_digits(digits_part(s@)) {
                                assert(is_decimal_digit(digits_part(s@)[i - start as int]));
                            }
                        }
                    }
                    return DEFAULT_CAPACITY;
                }
                proof {
                    assert(s@.subrange(start as int, i + 1).drop_last() =~= s@.subrange(
                        start as int,
                        i as int,
                    ));
                    assert(s@.subrange(start as int, i + 1).last() == s@[i as int]);
                }
                acc = acc * 10 + (d - 48);
                proof {
                    assert(acc == decimal_value(s@.subrange(start as int, i + 1)));
                }
                if acc > 65535 {
                    proof {
                        if all_decimal_digits(digits_part(s@)) {
                            lemma_decimal_prefix_le(digits_part(s@), i + 1 - start as int);
                            assert(digits_part(s@).take(i + 1 - start as int) =~= s@.subrange(
                                start as int,
                                i + 1,
                            ));
                            assert(decimal_value(digits_part(s@)) > 65535);
                        }
                    }
                    return DEFAULT_CAPACITY;
                }
                i += 1;
            }
            proof {
                assert(acc == decimal_value(digits_part(s@)));
                assert(all_decimal_digits(digits_part(s@))) by {
                    assert forall|j: int|
                        0 <= j < digits_part(s@).len() implies is_decimal_digit(
                        #[trigger] digits_part(s@)[j],
                    ) by {
                        assert(digits_part(s@)[j] == s@[start + j]);
                    }
                }
                assert(digits_part(s@).len() > 0);
            }
            if acc == 0 {
                return DEFAULT_CAPACITY;
            }
            acc as usize
        },
    }
}

} // verus!
