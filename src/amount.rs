//! Fixed-point amounts: a decimal text with at most four places after the
//! dot is held as an `i64` count of ten-thousandths.

use vstd::prelude::*;
use vstd::string::StringSliceAdditionalSpecFns;

verus! {

/// Why a text could not be read as an amount.
#[derive(Debug, Clone, Copy, PartialEq, Eq, Structural)]
pub enum AmountError {
    /// The text is not a plain decimal with at most four fractional digits.
    Malformed,
    /// The text is a decimal whose value does not fit in the representation.
    TooLarge,
}

pub open spec fn is_digit(b: u8) -> bool {
    48 <= b && b <= 57
}

pub open spec fn all_digits(s: Seq<u8>) -> bool {
    forall|i: int| 0 <= i < s.len() ==> is_digit(#[trigger] s[i])
}

/// The number that a string of ASCII digits spells, most significant first.
pub open spec fn digits_value(s: Seq<u8>) -> nat
    decreases s.len(),
{
    if s.len() == 0 {
        0
    } else {
        digits_value(s.drop_last()) * 10 + (s.last() - 48) as nat
    }
}

/// `n` ASCII zeros.
pub open spec fn zeros(n: nat) -> Seq<u8> {
    Seq::new(n, |i: int| 48u8)
}

/// `s` is a decimal whose only dot stands at index `k`, with at most four
/// digits after it and at least one digit in all.
pub open spec fn dot_at(s: Seq<u8>, k: int) -> bool {
    &&& 0 <= k < s.len()
    &&& s[k] == 46
    &&& all_digits(s.take(k))
    &&& all_digits(s.skip(k + 1))
    &&& s.len() - k - 1 <= 4
    &&& s.len() >= 2
}

/// The digits of the amount in ten-thousandths: the dot removed and the
/// fraction padded to four places. An empty text is zero.
pub open spec fn unit_digits(s: Seq<u8>) -> Option<Seq<u8>> {
    if all_digits(s) {
        Some(s + zeros(4))
    } else if exists|k: int| dot_at(s, k) {
        let k = choose|k: int| dot_at(s, k);
        Some(s.take(k) + s.skip(k + 1) + zeros((4 - (s.len() - k - 1)) as nat))
    } else {
        None
    }
}

/// The amount, in ten-thousandths, that the text `s` spells.
pub open spec fn amount_value(s: Seq<u8>) -> Option<int> {
    match unit_digits(s) {
        Some(d) => Some(digits_value(d) as int),
        None => None,
    }
}

/// What reading the text `s` as an amount gives.
pub open spec fn amount_result(s: Seq<u8>) -> Result<i64, AmountError> {
    match amount_value(s) {
        Some(v) => if v <= i64::MAX {
            Ok(v as i64)
        } else {
            Err(AmountError::TooLarge)
        },
        None => Err(AmountError::Malformed),
    }
}

proof fn lemma_digits_prefix_monotone(s: Seq<u8>, i: int, j: int)
    requires
        0 <= i <= j <= s.len(),
    ensures
        digits_value(s.take(i)) <= digits_value(s.take(j)),
    decreases j - i,
{
    if i < j {
        lemma_digits_prefix_monotone(s, i, j - 1);
        assert(s.take(j).drop_last() =~= s.take(j - 1));
    }
}

/// The value of a digit string in an `i64`, or `None` where it does not fit.
fn digits_to_i64(ds: &Vec<u8>) -> (r: Option<i64>)
    requires
        all_digits(ds@),
    ensures
        r == (if digits_value(ds@) <= i64::MAX {
            Some(digits_value(ds@) as i64)
        } else {
            None::<i64>
        }),
{
    let mut acc: i64 = 0;
    let mut i: usize = 0;
    while i < ds.len()
        invariant
            i <= ds@.len(),
            all_digits(ds@),
            acc as int == digits_value(ds@.take(i as int)),
        decreases ds@.len() - i,
    {
        let d = (ds[i] - 48) as i64;
        assert(is_digit(ds@[i as int]));
        assert(ds@.take(i as int + 1).drop_last() =~= ds@.take(i as int));
        if acc > (i64::MAX - d) / 10 {
            proof {
                lemma_digits_prefix_monotone(ds@, i as int + 1, ds@.len() as int);
                assert(ds@.take(ds@.len() as int) =~= ds@);
            }
            return None;
        }
        acc = acc * 10 + d;
        i = i + 1;
    }
    assert(ds@.take(i as int) =~= ds@);
    Some(acc)
}

/// Reads a decimal text (digits, at most one dot, at most four digits after
/// it) as a count of ten-thousandths. The empty text reads as zero.
pub fn parse_amount(text: &str) -> (r: Result<i64, AmountError>)
    ensures
        r == amount_result(text.spec_bytes()),
{
    let bytes = text.as_bytes();
    let ghost s = bytes@;
    let n = bytes.len();
    let mut dot: Option<usize> = None;
    let mut i: usize = 0;
    while i < n
        invariant
            s == bytes@,
            s == text.spec_bytes(),
            n == s.len(),
            i <= n,
            match dot {
                Some(k) => k < i && s[k as int] == 46,
                None => true,
            },
            forall|j: int| 0 <= j < i && dot != Some(j as usize) ==> is_digit(#[trigger] s[j]),
        decreases n - i,
    {
        let b = bytes[i];
        if b == 46 {
            if let Some(k) = dot {
                proof {
                    assert(!is_digit(s[k as int]));
                    assert forall|k2: int| !dot_at(s, k2) by {
                        if 0 <= k2 < s.len() && s[k2] == 46 {
                            if k2 < k {
                                assert(s.skip(k2 + 1)[k - k2 - 1] == s[k as int]);
                            } else if k2 == k {
                                assert(s.skip(k2 + 1)[i - k2 - 1] == s[i as int]);
                            } else {
                                assert(s.take(k2)[k as int] == s[k as int]);
                            }
                        }
                    }
                    assert(!all_digits(s));
                    assert(unit_digits(s) is None);
                }
                return Err(AmountError::Malformed);
            }
            dot = Some(i);
        } else if b < 48 || b > 57 {
            proof {
                assert(!is_digit(s[i as int]));
                assert forall|k2: int| !dot_at(s, k2) by {
                    if 0 <= k2 < s.len() && s[k2] == 46 {
                        if k2 < i {
                            assert(s.skip(k2 + 1)[i - k2 - 1] == s[i as int]);
                        } else {
                            assert(s.take(k2)[i as int] == s[i as int]);
                        }
                    }
                }
                assert(!all_digits(s));
                assert(unit_digits(s) is None);
            }
            return Err(AmountError::Malformed);
        }
        i = i + 1;
    }
    let mut ds: Vec<u8> = Vec::new();
    let mut fraction: usize = 0;
    match dot {
        None => {
            assert(all_digits(s));
        },
        Some(k) => {
            if n < 2 || n - k - 1 > 4 {
                proof {
                    assert(!is_digit(s[k as int]));
                    assert forall|k2: int| !dot_at(s, k2) by {
                        if 0 <= k2 < s.len() && s[k2] == 46 && k2 != k {
                            assert(is_digit(s[k2]));
                        }
                    }
                }
                return Err(AmountError::Malformed);
            }
            fraction = n - k - 1;
            proof {
                assert(all_digits(s.take(k as int)));
                assert(all_digits(s.skip(k + 1)));
                assert(dot_at(s, k as int));
                assert forall|k2: int| dot_at(s, k2) implies k2 == k by {
                    if k2 != k {
                        assert(is_digit(s[k2]));
                    }
                }
            }
        },
    }
    let mut j: usize = 0;
    while j < n
        invariant
            s == bytes@,
            s == text.spec_bytes(),
            n == s.len(),
            j <= n,
            forall|m: int| 0 <= m < n && dot != Some(m as usize) ==> is_digit(#[trigger] s[m]),
            match dot {
                Some(k) => ds@ == (if j <= k { s.take(j as int) } else { s.take(k as int) + s.subrange(k + 1, j as int) }),
                None => ds@ == s.take(j as int),
            },
        decreases n - j,
    {
        if dot != Some(j) {
            ds.push(bytes[j]);
        }
        proof {
            match dot {
                Some(k) => {
                    if j < k {
                        assert(s.take(j + 1) =~= s.take(j as int).push(s[j as int]));
                    } else if j == k {
                    } else {
                        assert(s.take(k as int) + s.subrange(k + 1, j + 1) =~= (s.take(k as int) + s.subrange(k + 1, j as int)).push(s[j as int]));
                    }
                },
                None => {
                    assert(s.take(j + 1) =~= s.take(j as int).push(s[j as int]));
                },
            }
        }
        j = j + 1;
    }
    let ghost base = ds@;
    proof {
        match dot {
            Some(k) => {
                assert(s.subrange(k + 1, n as int) =~= s.skip(k + 1));
            },
            None => {
                assert(s.take(n as int) =~= s);
            },
        }
    }
    let mut pad: usize = fraction;
    while pad < 4
        invariant
            fraction <= pad <= 4,
            ds@ == base + zeros((pad - fraction) as nat),
        decreases 4 - pad,
    {
        ds.push(48);
        pad = pad + 1;
        assert(ds@ =~= base + zeros((pad - fraction) as nat));
    }
    proof {
        assert(ds@ == unit_digits(s)->Some_0);
        assert(all_digits(ds@));
    }
    match digits_to_i64(&ds) {
        Some(v) => Ok(v),
        None => Err(AmountError::TooLarge),
    }
}

/// The ASCII digits of `n`, most significant first, with no leading zero.
pub open spec fn decimal_digits(n: nat) -> Seq<u8>
    decreases n,
{
    if n < 10 {
        seq![(48 + n) as u8]
    } else {
        decimal_digits(n / 10).push((48 + n % 10) as u8)
    }
}

/// The four ASCII digits of `f`, which is below ten thousand.
pub open spec fn four_digits(f: nat) -> Seq<u8> {
    seq![
        (48 + f / 1000) as u8,
        (48 + f / 100 % 10) as u8,
        (48 + f / 10 % 10) as u8,
        (48 + f % 10) as u8,
    ]
}

/// The text of the amount `v` ten-thousandths: a minus sign where it is
/// negative, the whole part, a dot and exactly four fractional digits.
pub open spec fn amount_text(v: int) -> Seq<u8> {
    let a: nat = if v < 0 {
        (-v) as nat
    } else {
        v as nat
    };
    let sign: Seq<u8> = if v < 0 {
        seq![45u8]
    } else {
        seq![]
    };
    sign + decimal_digits(a / 10000) + seq![46u8] + four_digits(a % 10000)
}

/// Writes the amount `v` ten-thousandths as ASCII text with four places
/// after the dot (`-5.0000`, `10.2500`).
pub fn format_amount(v: i128) -> (r: Vec<u8>)
    ensures
        r@ == amount_text(v as int),
{
    let a: u128 = if v < 0 {
        (-(v + 1)) as u128 + 1
    } else {
        v as u128
    };
    let whole = a / 10000;
    let fraction = a % 10000;
    let mut n: u128 = whole;
    let mut digits: Vec<u8> = Vec::new();
    while n >= 10
        invariant
            decimal_digits(whole as nat) == decimal_digits(n as nat) + digits@,
        decreases n,
    {
        let d = (48 + n % 10) as u8;
        let ghost before = digits@;
        digits.insert(0, d);
        assert(decimal_digits(n as nat) == decimal_digits((n / 10) as nat).push(d));
        assert(decimal_digits((n / 10) as nat).push(d) + before =~= decimal_digits(
            (n / 10) as nat,
        ) + digits@);
        n = n / 10;
    }
    digits.insert(0, (48 + n) as u8);
    assert(decimal_digits(whole as nat) =~= digits@);
    let mut r: Vec<u8> = Vec::new();
    if v < 0 {
        r.push(45);
    }
    r.append(&mut digits);
    r.push(46);
    r.push((48 + fraction / 1000) as u8);
    r.push((48 + fraction / 100 % 10) as u8);
    r.push((48 + fraction / 10 % 10) as u8);
    r.push((48 + fraction % 10) as u8);
    assert(r@ =~= amount_text(v as int));
    r
}

} // verus!
