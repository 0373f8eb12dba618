//! The persisted config record: a one-field JSON object holding the
//! total number of (point, value) pairs counted at build time.

use vstd::prelude::*;
use vstd::slice::slice_subrange;
use vstd::arithmetic::div_mod::lemma_fundamental_div_mod;

verus! {

/// Decimal digits of `n`, most significant first, no leading zeros.
pub open spec fn spec_decimal(n: nat) -> Seq<u8>
    decreases n,
{
    if n < 10 {
        seq![(n + 48) as u8]
    } else {
        spec_decimal(n / 10).push(((n % 10) + 48) as u8)
    }
}

pub proof fn lemma_decimal_len_pos(n: nat)
    ensures
        spec_decimal(n).len() >= 1,
{
    if n < 10 {
    } else {
    }
}

/// Writes `n` in decimal.
pub fn encode_decimal(n: usize) -> (r: Vec<u8>)
    ensures
        r@ == spec_decimal(n as nat),
    decreases n,
{
    if n < 10 {
        let mut v: Vec<u8> = Vec::new();
        v.push((n + 48) as u8);
        assert(v@ =~= spec_decimal(n as nat));
        v
    } else {
        let mut v = encode_decimal(n / 10);
        v.push(((n % 10) + 48) as u8);
        v
    }
}

/// The number a digit string denotes, when every digit is a digit, the
/// value stays within `usize` range, and the writing is canonical — no
/// leading zero unless the number is exactly zero; `None` otherwise.
pub open spec fn spec_parse_decimal(s: Seq<u8>) -> Option<int>
    decreases s.len(),
{
    if s.len() == 0 {
        None
    } else if s.len() > 1 && s[0] == 48 {
        None
    } else {
        let d = s.last();
        if !(48 <= d <= 57) {
            None
        } else if s.len() == 1 {
            Some((d - 48) as int)
        } else {
            match spec_parse_decimal(s.drop_last()) {
                Some(m) => if m * 10 + (d - 48) <= usize::MAX {
                    Some(m * 10 + (d - 48))
                } else {
                    None
                },
                None => None,
            }
        }
    }
}

/// Parses a digit string, mirroring `spec_parse_decimal`.
pub fn parse_decimal(s: &[u8]) -> (r: Option<usize>)
    ensures
        (match r {
            Some(v) => spec_parse_decimal(s@) == Some(v as int),
            None => spec_parse_decimal(s@) is None,
        }),
    decreases s@.len(),
{
    if s.len() == 0 {
        return None;
    }
    if s.len() > 1 && s[0] == 48 {
        return None;
    }
    let d = s[s.len() - 1];
    if d < 48 || d > 57 {
        return None;
    }
    if s.len() == 1 {
        return Some((d - 48) as usize);
    }
    let init = slice_subrange(s, 0, s.len() - 1);
    assert(init@ =~= s@.drop_last());
    match parse_decimal(init) {
        None => None,
        Some(m) => {
            let dd = (d - 48) as usize;
            let limit = (usize::MAX - dd) / 10;
            proof {
                lemma_fundamental_div_mod(usize::MAX - dd, 10);
                assert(m <= limit ==> m * 10 <= limit * 10) by (nonlinear_arith);
                assert(m > limit ==> m * 10 >= (limit + 1) * 10) by (nonlinear_arith);
            }
            if m <= limit {
                Some(m * 10 + dd)
            } else {
                None
            }
        },
    }
}

/// A positive number's decimal writing never begins with a zero digit.
pub proof fn lemma_decimal_no_leading_zero(n: nat)
    requires
        n >= 1,
    ensures
        spec_decimal(n)[0] != 48,
    decreases n,
{
    if n >= 10 {
        lemma_decimal_no_leading_zero(n / 10);
        lemma_decimal_len_pos(n / 10);
        assert(spec_decimal(n)[0] == spec_decimal(n / 10)[0]);
    }
}

/// Parsing the decimal writing of `n` gives back `n`.
pub proof fn lemma_decimal_round_trip(n: nat)
    requires
        n <= usize::MAX,
    ensures
        spec_parse_decimal(spec_decimal(n)) == Some(n as int),
    decreases n,
{
    if n < 10 {
    } else {
        lemma_decimal_round_trip(n / 10);
        lemma_decimal_len_pos(n / 10);
        lemma_decimal_no_leading_zero(n / 10);
        let s = spec_decimal(n);
        assert(s.drop_last() =~= spec_decimal(n / 10));
        assert(s[0] == spec_decimal(n / 10)[0]);
        lemma_fundamental_div_mod(n as int, 10);
    }
}

/// The bytes of `{"total_key_value_pairs":`, the config record's opening.
pub open spec fn spec_config_prefix() -> Seq<u8> {
    seq![
        123u8, 34u8, 116u8, 111u8, 116u8, 97u8, 108u8, 95u8, 107u8, 101u8, 121u8, 95u8, 118u8,
        97u8, 108u8, 117u8, 101u8, 95u8, 112u8, 97u8, 105u8, 114u8, 115u8, 34u8, 58u8,
    ]
}

fn config_prefix() -> (r: Vec<u8>)
    ensures
        r@ == spec_config_prefix(),
{
    let mut v: Vec<u8> = Vec::new();
    v.push(123u8);
    v.push(34u8);
    v.push(116u8);
    v.push(111u8);
    v.push(116u8);
    v.push(97u8);
    v.push(108u8);
    v.push(95u8);
    v.push(107u8);
    v.push(101u8);
    v.push(121u8);
    v.push(95u8);
    v.push(118u8);
    v.push(97u8);
    v.push(108u8);
    v.push(117u8);
    v.push(101u8);
    v.push(95u8);
    v.push(112u8);
    v.push(97u8);
    v.push(105u8);
    v.push(114u8);
    v.push(115u8);
    v.push(34u8);
    v.push(58u8);
    assert(v@ =~= spec_config_prefix());
    v
}

/// The config file image for a pair total of `n`.
pub open spec fn spec_config_bytes(n: nat) -> Seq<u8> {
    spec_config_prefix() + spec_decimal(n) + seq![125u8]
}

/// Serializes the config record.
pub fn encode_config(n: usize) -> (r: Vec<u8>)
    ensures
        r@ == spec_config_bytes(n as nat),
{
    let mut v = config_prefix();
    let mut digits = encode_decimal(n);
    let mut i: usize = 0;
    while i < digits.len()
        invariant
            i <= digits.len(),
            digits@ == spec_decimal(n as nat),
            v@ == spec_config_prefix() + digits@.take(i as int),
        decreases digits.len() - i,
    {
        let b = digits[i];
        v.push(b);
        assert(digits@.take(i + 1) == digits@.take(i as int).push(digits@[i as int]));
        i += 1;
    }
    assert(digits@.take(digits@.len() as int) == digits@);
    v.push(125u8);
    assert(v@ =~= spec_config_bytes(n as nat));
    v
}

/// What parsing a config file image yields: the recorded total, or nothing
/// when the image is not a well-formed config record.
pub open spec fn spec_parse_config(s: Seq<u8>) -> Option<int> {
    if s.len() >= 27 && s.subrange(0, 25) == spec_config_prefix() && s.last() == 125 {
        spec_parse_decimal(s.subrange(25, s.len() - 1))
    } else {
        None
    }
}

/// Parses a config file image, mirroring `spec_parse_config`.
pub fn parse_config(s: &[u8]) -> (r: Option<usize>)
    ensures
        (match r {
            Some(v) => spec_parse_config(s@) == Some(v as int),
            None => spec_parse_config(s@) is None,
        }),
{
    if s.len() < 27 {
        return None;
    }
    let prefix = config_prefix();
    let mut i: usize = 0;
    while i < 25
        invariant
            i <= 25,
            s@.len() >= 27,
            prefix@ == spec_config_prefix(),
            forall|j: int| 0 <= j < i ==> s@[j] == spec_config_prefix()[j],
        decreases 25 - i,
    {
        if s[i] != prefix[i] {
            assert(s@.subrange(0, 25)[i as int] != spec_config_prefix()[i as int]);
            return None;
        }
        i += 1;
    }
    assert(s@.subrange(0, 25) =~= spec_config_prefix());
    if s[s.len() - 1] != 125u8 {
        return None;
    }
    parse_decimal(slice_subrange(s, 25, s.len() - 1))
}

/// Parsing the config image written for `n` gives back `n`.
pub proof fn lemma_config_round_trip(n: nat)
    requires
        n <= usize::MAX,
    ensures
        spec_parse_config(spec_config_bytes(n)) == Some(n as int),
{
    lemma_decimal_len_pos(n);
    let s = spec_config_bytes(n);
    assert(s.subrange(0, 25) =~= spec_config_prefix());
    assert(s.last() == 125u8);
    assert(s.subrange(25, s.len() - 1) =~= spec_decimal(n));
    lemma_decimal_round_trip(n);
}

} // verus!
