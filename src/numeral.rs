use vstd::prelude::*;

verus! {

/// An ASCII decimal digit.
pub open spec fn is_dec_digit(c: u8) -> bool {
    0x30 <= c <= 0x39
}

/// An ASCII hexadecimal digit, either case.
pub open spec fn is_hex_digit(c: u8) -> bool {
    is_dec_digit(c) || (0x41 <= c <= 0x46) || (0x61 <= c <= 0x66)
}

/// The value of a hexadecimal (or decimal) digit.
pub open spec fn digit_value(c: u8) -> nat {
    if is_dec_digit(c) {
        (c - 0x30) as nat
    } else if 0x41 <= c <= 0x46 {
        (c - 0x41 + 10) as nat
    } else {
        (c - 0x61 + 10) as nat
    }
}

/// A digit of the given radix (10 or 16).
pub open spec fn is_digit_of(c: u8, radix: nat) -> bool {
    if radix == 16 {
        is_hex_digit(c)
    } else {
        is_dec_digit(c)
    }
}

/// A non-empty run of digits of the given radix, nothing else.
pub open spec fn is_numeral(s: Seq<u8>, radix: nat) -> bool {
    s.len() > 0 && forall|i: int| 0 <= i < s.len() ==> is_digit_of(#[trigger] s[i], radix)
}

/// The number that a run of digits writes, most significant digit first.
pub open spec fn numeral_value(s: Seq<u8>, radix: nat) -> nat
    decreases s.len(),
{
    if s.len() == 0 {
        0
    } else {
        numeral_value(s.drop_last(), radix) * radix + digit_value(s.last())
    }
}

/// What `parse_digits` returns: the value of a numeral that does not exceed `limit`.
pub open spec fn numeral_within(s: Seq<u8>, radix: nat, limit: nat) -> Option<nat> {
    if is_numeral(s, radix) && numeral_value(s, radix) <= limit {
        Some(numeral_value(s, radix))
    } else {
        None
    }
}

proof fn lemma_numeral_prefix_grows(s: Seq<u8>, radix: nat, i: int, j: int)
    requires
        0 <= i <= j <= s.len(),
        radix >= 1,
    ensures
        numeral_value(s.take(i), radix) <= numeral_value(s.take(j), radix),
    decreases j - i,
{
    if i < j {
        lemma_numeral_prefix_grows(s, radix, i, j - 1);
        assert(s.take(j).drop_last() =~= s.take(j - 1));
        let v = numeral_value(s.take(j - 1), radix);
        assert(v <= v * radix) by (nonlinear_arith)
            requires
                radix >= 1,
        ;
    }
}

/// Reads `s` as an unsigned numeral in base `radix` (10 or 16): digits only,
/// at least one, no sign, no prefix, no surrounding space. Gives `None` where
/// `s` is not such a numeral or its value exceeds `limit`.
pub fn parse_digits(s: &[u8], radix: u8, limit: u64) -> (r: Option<u64>)
    requires
        radix == 10 || radix == 16,
    ensures
        r matches Some(v) ==> numeral_within(s@, radix as nat, limit as nat) == Some(v as nat),
        r is None ==> numeral_within(s@, radix as nat, limit as nat) is None,
{
    let ghost rad = radix as nat;
    if s.len() == 0 {
        return None;
    }
    let mut acc: u64 = 0;
    let mut i: usize = 0;
    while i < s.len()
        invariant
            0 <= i <= s@.len(),
            radix == 10 || radix == 16,
            rad == radix as nat,
            acc as nat == numeral_value(s@.take(i as int), rad),
            acc <= limit,
            forall|k: int| 0 <= k < i ==> is_digit_of(#[trigger] s@[k], rad),
        decreases s@.len() - i,
    {
        let c = s[i];
        let d: u64;
        if 0x30 <= c && c <= 0x39 {
            d = (c - 0x30) as u64;
        } else if radix == 16 && 0x41 <= c && c <= 0x46 {
            d = (c - 0x41 + 10) as u64;
        } else if radix == 16 && 0x61 <= c && c <= 0x66 {
            d = (c - 0x61 + 10) as u64;
        } else {
            assert(!is_digit_of(s@[i as int], rad));
            return None;
        }
        assert(d as nat == digit_value(c));
        assert(s@.take(i as int + 1).drop_last() =~= s@.take(i as int));
        let r64 = radix as u64;
        if d > limit || acc > (limit - d) / r64 {
            proof {
                let q = (limit - d) as int / r64 as int;
                if d <= limit {
                    assert(acc as int * r64 as int + d as int > limit as int) by (nonlinear_arith)
                        requires
                            acc as int >= q + 1,
                            q == (limit - d) as int / r64 as int,
                            r64 >= 1,
                            d <= limit,
                    ;
                }
                if is_numeral(s@, rad) {
                    lemma_numeral_prefix_grows(s@, rad, i as int + 1, s@.len() as int);
                    assert(s@.take(s@.len() as int) =~= s@);
                }
            }
            return None;
        }
        proof {
            let q = (limit - d) as int / r64 as int;
            assert(acc as int * r64 as int + d as int <= limit as int) by (nonlinear_arith)
                requires
                    acc as int <= q,
                    q == (limit - d) as int / r64 as int,
                    r64 >= 1,
                    d <= limit,
            ;
        }
        acc = acc * r64 + d;
        i = i + 1;
    }
    assert(s@.take(s@.len() as int) =~= s@);
    Some(acc)
}

} // verus!
