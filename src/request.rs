//! Validation of the options of a processing request.
use vstd::prelude::*;

use vstd::string::StringSliceAdditionalSpecFns;

use crate::error::Error;

verus! {

/// ASCII decimal digit.
pub open spec fn is_digit(b: u8) -> bool {
    48 <= b <= 57
}

/// Value of a string of decimal digits.
pub open spec fn digits_value(s: Seq<u8>) -> nat
    decreases s.len(),
{
    if s.len() == 0 {
        0
    } else {
        digits_value(s.drop_last()) * 10 + (s.last() - 48) as nat
    }
}

/// The keyword that keeps the original size: `original`.
pub open spec fn original_keyword() -> Seq<u8> {
    seq![111u8, 114, 105, 103, 105, 110, 97, 108]
}

/// The digits of a size, after an optional leading `+`.
pub open spec fn size_digits(s: Seq<u8>) -> Seq<u8> {
    if s.len() > 0 && s[0] == 43 {
        s.subrange(1, s.len() as int)
    } else {
        s
    }
}

/// A size written in decimal that fits a `usize`, or `None`.
pub open spec fn parsed_size(s: Seq<u8>) -> Option<nat> {
    let d = size_digits(s);
    if d.len() > 0 && (forall|i: int| 0 <= i < d.len() ==> is_digit(#[trigger] d[i]))
        && digits_value(d) <= usize::MAX {
        Some(digits_value(d))
    } else {
        None
    }
}

proof fn lemma_digits_value_grows(d: Seq<u8>, j: int, k: int)
    requires
        0 <= j <= k <= d.len(),
        forall|i: int| 0 <= i < d.len() ==> is_digit(#[trigger] d[i]),
    ensures
        digits_value(d.take(j)) <= digits_value(d.take(k)),
    decreases k - j,
{
    if j < k {
        lemma_digits_value_grows(d, j, k - 1);
        assert(d.take(k).drop_last() =~= d.take(k - 1));
    }
}

/// Reads the target long side of a request: `original` keeps the original size (`None`);
/// a positive decimal number (an optional leading `+` allowed) is the target; zero is
/// refused with `ZeroSize`, anything else with `InvalidArgument`.
pub fn parse_target_size(size: &str) -> (r: Result<Option<usize>, Error>)
    ensures
        size.spec_bytes() == original_keyword() ==> r == Ok::<Option<usize>, Error>(None),
        size.spec_bytes() != original_keyword() ==> match parsed_size(size.spec_bytes()) {
            Some(v) => if v == 0 {
                r == Err::<Option<usize>, Error>(Error::ZeroSize { size: 0 })
            } else {
                r is Ok && r->Ok_0 == Some(v as usize)
            },
            None => r is Err && (match r->Err_0 {
                Error::InvalidArgument { arg, value } => arg@ == "size"@ && value@ == size@,
                _ => false,
            }),
        },
{
    let bytes: &[u8] = size.as_bytes();
    let n: usize = bytes.len();
    if n == 8 && bytes[0] == 111 && bytes[1] == 114 && bytes[2] == 105 && bytes[3] == 103
        && bytes[4] == 105 && bytes[5] == 110 && bytes[6] == 97 && bytes[7] == 108 {
        assert(bytes@ =~= original_keyword());
        return Ok(None);
    }
    let start: usize = if n > 0 && bytes[0] == 43 {
        1
    } else {
        0
    };
    let ghost d = size_digits(bytes@);
    assert(d =~= bytes@.subrange(start as int, n as int));
    let mut value: usize = 0;
    let mut valid: bool = n > start;
    let mut i: usize = start;
    while valid && i < n
        invariant
            n == bytes@.len(),
            d == bytes@.subrange(start as int, n as int),
            d == size_digits(bytes@),
            start <= i <= n,
            valid ==> forall|k: int| 0 <= k < i - start ==> is_digit(#[trigger] d[k]),
            valid ==> value as nat == digits_value(d.take(i - start)),
            valid ==> d.len() > 0,
            !valid ==> parsed_size(bytes@) is None,
        decreases n - i,
    {
        let b: u8 = bytes[i];
        proof {
            assert(d[i - start] == b);
            assert(d.take(i - start + 1).drop_last() =~= d.take(i - start));
            assert(d.take(i - start + 1).last() == b);
        }
        if b < 48 || b > 57 {
            assert(!is_digit(d[i - start]));
            valid = false;
        } else {
            match value.checked_mul(10) {
                Some(tens) => match tens.checked_add((b - 48) as usize) {
                    Some(next) => {
                        value = next;
                    },
                    None => {
                        proof {
                            lemma_rest_digits_or_invalid(d, i - start + 1);
                        }
                        valid = false;
                    },
                },
                None => {
                    proof {
                        lemma_rest_digits_or_invalid(d, i - start + 1);
                    }
                    valid = false;
                },
            }
        }
        i = i + 1;
    }
    if valid {
        assert(d.take(n - start) =~= d);
        if value == 0 {
            Err(Error::ZeroSize { size: 0 })
        } else {
            Ok(Some(value))
        }
    } else {
        let arg = String::from_str("size");
        proof {
            reveal_strlit("size");
        }
        Err(Error::InvalidArgument { arg, value: size.to_owned() })
    }
}

/// Once a prefix of the digits exceeds `usize::MAX`, the whole size cannot be read.
proof fn lemma_rest_digits_or_invalid(d: Seq<u8>, j: int)
    requires
        0 < j <= d.len(),
        digits_value(d.take(j)) > usize::MAX,
    ensures
        !((forall|i: int| 0 <= i < d.len() ==> is_digit(#[trigger] d[i])) && digits_value(d)
            <= usize::MAX),
{
    if forall|i: int| 0 <= i < d.len() ==> is_digit(#[trigger] d[i]) {
        lemma_digits_value_grows(d, j, d.len() as int);
        assert(d.take(d.len() as int) =~= d);
    }
}

} // verus!
