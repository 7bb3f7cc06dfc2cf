//! Parsing of the status-bar update interval: a whole number of seconds
//! given on the command line.

use vstd::prelude::*;
use vstd::string::{StringExecFns, StringSliceAdditionalSpecFns};
use vstd::arithmetic::div_mod::{lemma_fundamental_div_mod, lemma_mod_division_less_than_divisor};

verus! {

/// Whether a byte is an ASCII decimal digit.
pub open spec fn is_digit_byte(b: u8) -> bool {
    48 <= b <= 57
}

/// Whether every byte is an ASCII decimal digit.
pub open spec fn all_digit_bytes(s: Seq<u8>) -> bool {
    forall|i: int| 0 <= i < s.len() ==> is_digit_byte(#[trigger] s[i])
}

/// The number a run of digit bytes spells.
pub open spec fn digit_bytes_val(s: Seq<u8>) -> int
    decreases s.len(),
{
    if s.len() == 0 {
        0
    } else {
        digit_bytes_val(s.drop_last()) * 10 + (s.last() - 48)
    }
}

/// The digit part of the input: everything after one optional leading plus
/// sign.
pub open spec fn number_body(s: Seq<u8>) -> Seq<u8> {
    if s.len() > 0 && s[0] == 43 {
        s.drop_first()
    } else {
        s
    }
}

/// What parsing the input as a number of seconds yields: the value, when
/// the input is an optional plus sign followed by at least one ASCII digit
/// and the value fits 64 unsigned bits; nothing otherwise.
pub open spec fn spec_parse_secs(s: Seq<u8>) -> Option<int> {
    let body = number_body(s);
    if body.len() > 0 && all_digit_bytes(body) && digit_bytes_val(body) <= u64::MAX {
        Some(digit_bytes_val(body))
    } else {
        None
    }
}

proof fn lemma_digit_bytes_val_nonneg(s: Seq<u8>)
    requires
        all_digit_bytes(s),
    ensures
        digit_bytes_val(s) >= 0,
    decreases s.len(),
{
    if s.len() > 0 {
        assert(all_digit_bytes(s.drop_last())) by {
            assert forall|i: int| 0 <= i < s.drop_last().len() implies is_digit_byte(
                #[trigger] s.drop_last()[i],
            ) by {
                assert(s.drop_last()[i] == s[i]);
            }
        }
        lemma_digit_bytes_val_nonneg(s.drop_last());
    }
}

/// A digit string is worth at least any of its prefixes.
proof fn lemma_digit_bytes_val_prefix(s: Seq<u8>, j: int)
    requires
        all_digit_bytes(s),
        0 <= j <= s.len(),
    ensures
        digit_bytes_val(s.subrange(0, j)) <= digit_bytes_val(s),
    decreases s.len() - j,
{
    if j == s.len() {
        assert(s.subrange(0, j) =~= s);
    } else {
        lemma_digit_bytes_val_prefix(s, j + 1);
        let p = s.subrange(0, j);
        let q = s.subrange(0, j + 1);
        assert(q.drop_last() =~= p);
        assert(all_digit_bytes(p)) by {
            assert forall|i: int| 0 <= i < p.len() implies is_digit_byte(#[trigger] p[i]) by {
                assert(p[i] == s[i]);
            }
        }
        lemma_digit_bytes_val_nonneg(p);
        assert(digit_bytes_val(q) == digit_bytes_val(p) * 10 + (s[j] - 48));
        assert(digit_bytes_val(p) * 10 >= digit_bytes_val(p)) by (nonlinear_arith)
            requires
                digit_bytes_val(p) >= 0,
        ;
    }
}

fn parse_error_message() -> (m: String)
    ensures
        m@ == "value not a valid integer"@,
{
    let mut m = String::new();
    m.append("value not a valid integer");
    m
}

/// Parse the update interval: a whole number of seconds. Relays exactly the
/// numbers that fit an unsigned 64-bit count, and rejects anything else
/// with a fixed message.
pub fn dur_from_str_secs(s: &str) -> (r: Result<u64, String>)
    ensures
        match r {
            Ok(n) => spec_parse_secs(s.spec_bytes()) == Some(n as int),
            Err(m) => {
                &&& spec_parse_secs(s.spec_bytes()) is None
                &&& m@ == "value not a valid integer"@
            },
        },
{
    let b = s.as_bytes();
    let n = b.len();
    let ghost bs = s.spec_bytes();
    let start: usize = if n > 0 && b[0] == 43 {
        1
    } else {
        0
    };
    proof {
        assert(number_body(bs) =~= bs.subrange(start as int, n as int));
    }
    if start == n {
        return Err(parse_error_message());
    }
    let mut val: u64 = 0;
    let mut i: usize = start;
    proof {
        assert(bs.subrange(start as int, start as int) =~= Seq::<u8>::empty());
    }
    while i < n
        invariant
            start <= i <= n,
            n == bs.len(),
            b@ == bs,
            bs == s.spec_bytes(),
            start < n,
            number_body(bs) == bs.subrange(start as int, n as int),
            all_digit_bytes(bs.subrange(start as int, i as int)),
            val as int == digit_bytes_val(bs.subrange(start as int, i as int)),
        decreases n - i,
    {
        let c = b[i];
        if c < 48 || c > 57 {
            proof {
                assert(!is_digit_byte(number_body(bs)[i - start]));
            }
            return Err(parse_error_message());
        }
        let d = (c - 48) as u64;
        let limit = (u64::MAX - d) / 10;
        proof {
            lemma_fundamental_div_mod(u64::MAX - d, 10);
            lemma_mod_division_less_than_divisor(u64::MAX - d, 10);
        }
        if val > limit {
            proof {
                let body = number_body(bs);
                if all_digit_bytes(body) {
                    let p = bs.subrange(start as int, i + 1);
                    assert(p.drop_last() =~= bs.subrange(start as int, i as int));
                    assert(digit_bytes_val(p) == val * 10 + d);
                    assert(digit_bytes_val(p) > u64::MAX);
                    assert(p =~= body.subrange(0, i + 1 - start));
                    lemma_digit_bytes_val_prefix(body, i + 1 - start);
                    assert(digit_bytes_val(body) > u64::MAX);
                }
            }
            return Err(parse_error_message());
        }
        proof {
            assert(10 * (val as int) <= 10 * (limit as int)) by (nonlinear_arith)
                requires
                    val as int <= limit as int,
            ;
        }
        val = val * 10 + d;
        i = i + 1;
        proof {
            let p = bs.subrange(start as int, i as int);
            assert(p.drop_last() =~= bs.subrange(start as int, i - 1));
            assert(all_digit_bytes(p)) by {
                assert forall|k: int| 0 <= k < p.len() implies is_digit_byte(#[trigger] p[k]) by {
                    assert(p[k] == bs[start + k]);
                }
            }
        }
    }
    proof {
        assert(bs.subrange(start as int, n as int) == number_body(bs));
    }
    Ok(val)
}

} // verus!
