//! Decimal text for monetary amounts.
//!
//! An amount field is decimal text with up to four fractional digits
//! ("12.34", "0.0001", "10.", ".5"); surrounding whitespace is ignored and
//! an empty or all-whitespace field stands for zero, as dispute, resolve
//! and chargeback rows carry no amount. [`parse_amount`] turns such text
//! into an [`crate::types::Amount`] — a count of 1/10000 units — and
//! rejects everything else: a sign, stray characters, more than four
//! fractional digits, more than sixteen integer digits, or a value beyond
//! the representable range.

use vstd::prelude::*;

verus! {

/// An ASCII decimal digit, `'0'` through `'9'`.
pub open spec fn is_ascii_digit(c: u8) -> bool {
    48 <= c <= 57
}

/// ASCII whitespace as it occurs around a field: space, tab, line feed or
/// carriage return.
pub open spec fn is_ascii_space(c: u8) -> bool {
    c == 32 || c == 9 || c == 10 || c == 13
}

/// Every byte of `s` is a decimal digit.
pub open spec fn all_digits(s: Seq<u8>) -> bool {
    forall|i: int| 0 <= i < s.len() ==> is_ascii_digit(#[trigger] s[i])
}

/// The number that a string of decimal digits denotes, most significant
/// digit first.
pub open spec fn digits_value(s: Seq<u8>) -> nat
    decreases s.len(),
{
    if s.len() == 0 {
        0
    } else {
        digits_value(s.drop_last()) * 10 + ((s.last() - 48) as nat)
    }
}

/// Ten to the `n`th power.
pub open spec fn pow10(n: nat) -> nat
    decreases n,
{
    if n == 0 {
        1
    } else {
        10 * pow10((n - 1) as nat)
    }
}

/// `s` with leading and trailing ASCII whitespace removed.
pub open spec fn trimmed(s: Seq<u8>) -> Seq<u8>
    decreases s.len(),
{
    if s.len() > 0 && is_ascii_space(s[0]) {
        trimmed(s.drop_first())
    } else if s.len() > 0 && is_ascii_space(s.last()) {
        trimmed(s.drop_last())
    } else {
        s
    }
}

/// The index of the first `'.'` in `s`, if any.
pub open spec fn dot_position(s: Seq<u8>) -> Option<int>
    decreases s.len(),
{
    if s.len() == 0 {
        None
    } else if s[0] == 46 {
        Some(0int)
    } else {
        match dot_position(s.drop_first()) {
            Some(i) => Some(i + 1),
            None => None,
        }
    }
}

/// What one unit of the fractional part is worth, in 1/10000 units, when
/// the fractional part has `n` digits.
pub open spec fn frac_scale(n: nat) -> nat {
    if n == 0 {
        10000
    } else if n == 1 {
        1000
    } else if n == 2 {
        100
    } else if n == 3 {
        10
    } else {
        1
    }
}

/// The amount denoted by an integer part `ip` and a fractional part `fp`
/// (the digits before and after the decimal point): both must be all
/// digits, at least one digit long together, with at most sixteen integer
/// and four fractional digits, and the value must be representable.
pub open spec fn parse_parts(ip: Seq<u8>, fp: Seq<u8>) -> Option<u64> {
    if all_digits(ip) && all_digits(fp) && ip.len() <= 16 && fp.len() <= 4 && ip.len() + fp.len()
        > 0 && digits_value(ip) * 10000 + digits_value(fp) * frac_scale(fp.len()) <= u64::MAX {
        Some((digits_value(ip) * 10000 + digits_value(fp) * frac_scale(fp.len())) as u64)
    } else {
        None
    }
}

/// The amount denoted by a whole text field: whitespace is trimmed, an
/// empty result stands for zero, and otherwise the text splits at the
/// first `'.'` into the two digit parts of [`parse_parts`].
pub open spec fn amount_from_text(s: Seq<u8>) -> Option<u64> {
    let t = trimmed(s);
    if t.len() == 0 {
        Some(0u64)
    } else {
        match dot_position(t) {
            Some(i) => parse_parts(t.take(i), t.skip(i + 1)),
            None => parse_parts(t, Seq::<u8>::empty()),
        }
    }
}

/// A digit string of length `n` denotes a value below `pow10(n)`.
proof fn lemma_digits_value_bound(s: Seq<u8>)
    requires
        all_digits(s),
    ensures
        digits_value(s) < pow10(s.len() as nat),
    decreases s.len(),
{
    if s.len() > 0 {
        assert(all_digits(s.drop_last()));
        lemma_digits_value_bound(s.drop_last());
    }
}

/// `pow10` grows with its argument.
proof fn lemma_pow10_mono(a: nat, b: nat)
    requires
        a <= b,
    ensures
        pow10(a) <= pow10(b),
    decreases b,
{
    if a < b {
        lemma_pow10_mono(a, (b - 1) as nat);
    }
}

/// The concrete powers of ten that the parser's bounds rest on.
proof fn lemma_pow10_values()
    ensures
        pow10(3) == 1000,
        pow10(4) == 10000,
        pow10(15) == 0x38d7ea4c68000,
        pow10(16) == 0x2386f26fc10000,
{
    assert(pow10(0) == 1);
    assert(pow10(1) == 10);
    assert(pow10(2) == 100);
    assert(pow10(3) == 1000);
    assert(pow10(4) == 10000);
    assert(pow10(5) == 100000);
    assert(pow10(6) == 1000000);
    assert(pow10(7) == 10000000);
    assert(pow10(8) == 100000000);
    assert(pow10(9) == 1000000000);
    assert(pow10(10) == 10000000000);
    assert(pow10(11) == 100000000000);
    assert(pow10(12) == 1000000000000);
    assert(pow10(13) == 10000000000000);
    assert(pow10(14) == 100000000000000);
    assert(pow10(15) == 1000000000000000);
    assert(pow10(16) == 10000000000000000);
}

/// What [`dot_position`] returns: `None` when `s` has no `'.'`, and
/// otherwise the index of the first one.
proof fn lemma_dot_position_spec(s: Seq<u8>)
    ensures
        match dot_position(s) {
            None => forall|k: int| 0 <= k < s.len() ==> s[k] != 46,
            Some(p) => 0 <= p < s.len() && s[p] == 46 && forall|k: int| 0 <= k < p ==> s[k] != 46,
        },
    decreases s.len(),
{
    if s.len() > 0 && s[0] != 46 {
        lemma_dot_position_spec(s.drop_first());
        assert forall|k: int| 0 <= k < s.len() && (match dot_position(s.drop_first()) {
            None => true,
            Some(p) => k < p + 1,
        }) implies s[k] != 46 by {
            if k > 0 {
                assert(s.drop_first()[k - 1] == s[k]);
            }
        }
    }
}

/// Prepending a digit multiplies the value of the rest by its place.
proof fn lemma_digits_value_prepend(d: u8, s: Seq<u8>)
    requires
        is_ascii_digit(d),
    ensures
        digits_value(seq![d] + s) == ((d - 48) as nat) * pow10(s.len() as nat) + digits_value(s),
    decreases s.len(),
{
    if s.len() == 0 {
        assert((seq![d] + s) =~= seq![d]);
        assert(seq![d].drop_last() =~= Seq::<u8>::empty());
        assert(digits_value(Seq::<u8>::empty()) == 0);
        assert(digits_value(seq![d]) == (d - 48) as nat);
        assert(digits_value(s) == 0);
        assert(pow10(s.len() as nat) == 1);
        assert(((d - 48) as nat) * pow10(s.len() as nat) == (d - 48) as nat) by (nonlinear_arith)
            requires
                pow10(s.len() as nat) == 1,
        ;
    } else {
        assert((seq![d] + s).drop_last() =~= seq![d] + s.drop_last());
        assert((seq![d] + s).last() == s.last());
        lemma_digits_value_prepend(d, s.drop_last());
        assert(digits_value(seq![d] + s) == digits_value(seq![d] + s.drop_last()) * 10 + ((
        s.last() - 48) as nat));
        assert(digits_value(seq![d] + s.drop_last()) == ((d - 48) as nat) * pow10(
            (s.len() - 1) as nat,
        ) + digits_value(s.drop_last()));
        assert(digits_value(s) == digits_value(s.drop_last()) * 10 + ((s.last() - 48) as nat));
        assert(pow10(s.len() as nat) == 10 * pow10((s.len() - 1) as nat));
        assert((((d - 48) as nat) * pow10((s.len() - 1) as nat)) * 10 == ((d - 48) as nat) * pow10(
            s.len() as nat,
        )) by (nonlinear_arith)
            requires
                pow10(s.len() as nat) == 10 * pow10((s.len() - 1) as nat),
        ;
    }
}

/// Whether `c` is an ASCII whitespace byte.
fn is_space_byte(c: u8) -> (r: bool)
    ensures
        r == is_ascii_space(c),
{
    c == 32 || c == 9 || c == 10 || c == 13
}

/// Parses a decimal amount field, exactly as [`amount_from_text`]
/// describes: the amount in 1/10000 units, zero for an empty field, and
/// `None` for text that is not a representable non-negative decimal with
/// at most four fractional digits.
pub fn parse_amount(s: &[u8]) -> (r: Option<u64>)
    ensures
        r == amount_from_text(s@),
{
    let mut lo: usize = 0;
    let mut hi: usize = s.len();
    proof {
        assert(s@.subrange(0, s@.len() as int) =~= s@);
    }
    while lo < hi && (is_space_byte(s[lo]) || is_space_byte(s[hi - 1]))
        invariant
            0 <= lo <= hi <= s@.len(),
            trimmed(s@) == trimmed(s@.subrange(lo as int, hi as int)),
        decreases hi - lo,
    {
        if is_space_byte(s[lo]) {
            proof {
                assert(s@.subrange(lo as int, hi as int).drop_first() =~= s@.subrange(
                    lo as int + 1,
                    hi as int,
                ));
            }
            lo = lo + 1;
        } else {
            proof {
                assert(s@.subrange(lo as int, hi as int).drop_last() =~= s@.subrange(
                    lo as int,
                    hi as int - 1,
                ));
            }
            hi = hi - 1;
        }
    }
    proof {
        assert(trimmed(s@) == s@.subrange(lo as int, hi as int));
    }
    if lo == hi {
        return Some(0);
    }
    let ghost t = s@.subrange(lo as int, hi as int);

    // the integer part: digits up to the first dot or the end
    let mut j: usize = lo;
    let mut int_acc: u64 = 0;
    let mut int_len: usize = 0;
    while j < hi && s[j] != 46
        invariant
            0 <= lo <= j <= hi <= s@.len(),
            lo < hi,
            t == s@.subrange(lo as int, hi as int),
            trimmed(s@) == t,
            int_len == j - lo,
            int_len <= 16,
            all_digits(s@.subrange(lo as int, j as int)),
            forall|k: int| lo <= k < j ==> s@[k] != 46,
            int_acc == digits_value(s@.subrange(lo as int, j as int)),
        decreases hi - j,
    {
        let c: u8 = s[j];
        if !(48 <= c && c <= 57) {
            proof {
                lemma_dot_position_spec(t);
                match dot_position(t) {
                    Some(p) => {
                        assert(t[j - lo] == c);
                        assert(p > j - lo);
                        assert(t.take(p)[j - lo] == c);
                        assert(!all_digits(t.take(p)));
                    },
                    None => {
                        assert(t[j - lo] == c);
                        assert(!all_digits(t));
                    },
                }
            }
            return None;
        }
        if int_len == 16 {
            proof {
                lemma_dot_position_spec(t);
                match dot_position(t) {
                    Some(p) => {
                        assert(p > j - lo);
                        assert(t.take(p).len() > 16);
                    },
                    None => {
                        assert(t.len() > 16);
                    },
                }
            }
            return None;
        }
        proof {
            lemma_digits_value_bound(s@.subrange(lo as int, j as int));
            lemma_pow10_mono(int_len as nat, 15);
            lemma_pow10_values();
            assert(s@.subrange(lo as int, j as int + 1).drop_last() =~= s@.subrange(
                lo as int,
                j as int,
            ));
        }
        int_acc = int_acc * 10 + ((c - 48) as u64);
        int_len = int_len + 1;
        j = j + 1;
    }

    let ghost ip = s@.subrange(lo as int, j as int);
    let mut frac_acc: u64 = 0;
    let mut frac_len: usize = 0;
    if j < hi {
        // a dot: the fractional part runs from after it to the end
        proof {
            lemma_dot_position_spec(t);
            assert(t[j - lo] == 46);
            assert(dot_position(t) == Some(j - lo));
            assert(t.take(j - lo) =~= ip);
        }
        let mut k: usize = j + 1;
        while k < hi
            invariant
                0 <= lo <= j < k <= hi <= s@.len(),
                t == s@.subrange(lo as int, hi as int),
                trimmed(s@) == t,
                dot_position(t) == Some(j - lo),
                t.take(j - lo) =~= ip,
                all_digits(ip),
                ip.len() <= 16,
                int_acc == digits_value(ip),
                frac_len == k - j - 1,
                frac_len <= 4,
                all_digits(s@.subrange(j as int + 1, k as int)),
                frac_acc == digits_value(s@.subrange(j as int + 1, k as int)),
            decreases hi - k,
        {
            let c: u8 = s[k];
            if !(48 <= c && c <= 57) {
                proof {
                    assert(t.skip(j - lo + 1)[k - j - 1] == c);
                    assert(!all_digits(t.skip(j - lo + 1)));
                }
                return None;
            }
            if frac_len == 4 {
                proof {
                    assert(t.skip(j - lo + 1).len() > 4);
                }
                return None;
            }
            proof {
                lemma_digits_value_bound(s@.subrange(j as int + 1, k as int));
                lemma_pow10_mono(frac_len as nat, 3);
                lemma_pow10_values();
                assert(s@.subrange(j as int + 1, k as int + 1).drop_last() =~= s@.subrange(
                    j as int + 1,
                    k as int,
                ));
            }
            frac_acc = frac_acc * 10 + ((c - 48) as u64);
            frac_len = frac_len + 1;
            k = k + 1;
        }
        proof {
            assert(t.skip(j - lo + 1) =~= s@.subrange(j as int + 1, hi as int));
        }
    } else {
        proof {
            lemma_dot_position_spec(t);
            assert(dot_position(t) is None);
            assert(t =~= ip);
        }
    }
    let ghost fp = if j < hi {
        s@.subrange(j as int + 1, hi as int)
    } else {
        Seq::<u8>::empty()
    };

    if int_len == 0 && frac_len == 0 {
        // just a dot with no digits on either side
        return None;
    }
    let scale: u64 = if frac_len == 0 {
        10000
    } else if frac_len == 1 {
        1000
    } else if frac_len == 2 {
        100
    } else if frac_len == 3 {
        10
    } else {
        1
    };
    proof {
        lemma_digits_value_bound(fp);
        lemma_pow10_mono(fp.len() as nat, 4);
        lemma_pow10_values();
        assert((frac_acc as u128) * (scale as u128) <= 100000000) by (nonlinear_arith)
            requires
                frac_acc < 10000,
                scale <= 10000,
        ;
    }
    let value: u128 = (int_acc as u128) * 10000 + (frac_acc as u128) * (scale as u128);
    proof {
        assert((frac_acc as u128) * (scale as u128) == digits_value(fp) * frac_scale(
            fp.len() as nat,
        ));
        assert(value == digits_value(ip) * 10000 + digits_value(fp) * frac_scale(fp.len() as nat));
    }
    if value <= u64::MAX as u128 {
        Some(value as u64)
    } else {
        None
    }
}

/// Renders an amount as decimal text: the whole part without leading
/// zeros (a single `'0'` below one unit) and, when the fractional part is
/// not zero, a `'.'` followed by exactly four fractional digits. Parsing
/// the result gives back exactly the amount.
pub fn format_amount(a: u64) -> (r: Vec<u8>)
    ensures
        amount_from_text(r@) == Some(a),
        r@.len() > 0,
        a >= 10000 ==> r@[0] != 48,
{
    let whole: u64 = a / 10000;
    let frac: u64 = a % 10000;
    let mut digits: Vec<u8> = Vec::new();
    if whole == 0 {
        digits.push(48);
        proof {
            assert(digits@ =~= seq![48u8]);
            assert(digits@.drop_last() =~= Seq::<u8>::empty());
            assert(digits_value(digits@) == 0);
        }
    } else {
        let mut w: u64 = whole;
        proof {
            assert(digits@ =~= Seq::<u8>::empty());
            assert(digits_value(digits@) == 0);
            assert(pow10(0) == 1);
        }
        while w > 0
            invariant
                w <= whole,
                whole <= u64::MAX / 10000,
                digits@.len() <= 16,
                all_digits(digits@),
                (w as nat) * pow10(digits@.len() as nat) + digits_value(digits@) == whole,
                digits@.len() > 0 || w > 0,
                digits@.len() == 0 || w > 0 || digits@[0] != 48,
            decreases w,
        {
            let ghost pre = digits@;
            let ghost len: nat = digits@.len() as nat;
            let d: u8 = 48 + (w % 10) as u8;
            proof {
                lemma_pow10_values();
                if len >= 16 {
                    lemma_pow10_mono(16, len);
                    assert((w as nat) * pow10(len) >= pow10(len)) by (nonlinear_arith)
                        requires
                            w >= 1,
                    ;
                    assert(false);
                }
                lemma_digits_value_prepend(d, pre);
                assert(((w / 10) as nat) * pow10(len + 1) + ((w % 10) as nat) * pow10(len) == (
                w as nat) * pow10(len)) by (nonlinear_arith)
                    requires
                        pow10(len + 1) == 10 * pow10(len),
                        w == 10 * (w / 10) + (w % 10),
                        w >= 0,
                ;
            }
            digits.insert(0, d);
            proof {
                assert(digits@ =~= seq![d] + pre);
            }
            w = w / 10;
        }
    }
    let ghost ipseq = digits@;
    if frac > 0 {
        digits.push(46);
        let r1: u64 = frac % 1000;
        let r2: u64 = r1 % 100;
        let d1: u8 = 48 + (frac / 1000) as u8;
        let d2: u8 = 48 + (r1 / 100) as u8;
        let d3: u8 = 48 + (r2 / 10) as u8;
        let d4: u8 = 48 + (r2 % 10) as u8;
        digits.push(d1);
        digits.push(d2);
        digits.push(d3);
        digits.push(d4);
        proof {
            let r = digits@;
            let fpseq = seq![d1, d2, d3, d4];
            assert(r =~= ipseq + seq![46u8] + fpseq);
            assert(trimmed(r) == r);
            lemma_dot_position_spec(r);
            let p: int = ipseq.len() as int;
            assert(r[p] == 46);
            assert(forall|k: int| 0 <= k < p ==> r[k] == ipseq[k] && r[k] != 46);
            assert(dot_position(r) == Some(p));
            assert(r.take(p) =~= ipseq);
            assert(r.skip(p + 1) =~= fpseq);
            assert(fpseq.drop_last() =~= seq![d1, d2, d3]);
            assert(seq![d1, d2, d3].drop_last() =~= seq![d1, d2]);
            assert(seq![d1, d2].drop_last() =~= seq![d1]);
            assert(seq![d1].drop_last() =~= Seq::<u8>::empty());
            assert(digits_value(Seq::<u8>::empty()) == 0);
            assert(digits_value(seq![d1]) == frac / 1000);
            assert(digits_value(seq![d1, d2]) == (frac / 1000) * 10 + r1 / 100);
            assert(digits_value(seq![d1, d2, d3]) == ((frac / 1000) * 10 + r1 / 100) * 10 + r2
                / 10);
            assert(digits_value(fpseq) == (((frac / 1000) * 10 + r1 / 100) * 10 + r2 / 10) * 10 + r2
                % 10);
            assert((((frac / 1000) * 10 + r1 / 100) * 10 + r2 / 10) * 10 + r2 % 10 == frac);
            assert(frac_scale(fpseq.len() as nat) == 1);
            assert(digits_value(fpseq) * frac_scale(fpseq.len() as nat) == digits_value(fpseq))
                by (nonlinear_arith)
                requires
                    frac_scale(fpseq.len() as nat) == 1,
            ;
            assert(digits_value(ipseq) * 10000 + digits_value(fpseq) * frac_scale(fpseq.len() as nat)
                == a);
        }
    } else {
        proof {
            let r = digits@;
            assert(trimmed(r) == r);
            lemma_dot_position_spec(r);
            assert(dot_position(r) is None);
            assert(digits_value(r) * 10000 + digits_value(Seq::<u8>::empty()) * frac_scale(0) == a);
        }
    }
    digits
}

} // verus!
