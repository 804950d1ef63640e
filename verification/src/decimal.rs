//! Exact decimal numbers. The effects grammar carries fractional values
//! (transition times, trajectory parameters, float offsets) as decimal
//! literals such as `3.5`; the library keeps them exactly as a sign, an
//! integer mantissa and a fraction length, so `3.5` is mantissa 35 at scale
//! 1, and never rounds.

use vstd::prelude::*;

use crate::strutil::{
    append_str, dec_string, dec_val, digit_val, is_dec_digits, push_char, spec_split, split_on,
    u64_to_string,
};

verus! {

/// An exact decimal literal: the value is `mantissa / 10^scale`, negated
/// when `neg` holds.
#[derive(Debug, Clone, Copy, PartialEq, Eq, Structural)]
pub struct Decimal {
    pub neg: bool,
    pub mantissa: u64,
    pub scale: usize,
}

/// The shape and content of a decimal literal: an optional leading minus,
/// digits, and optionally a dot followed by more digits. The result is the
/// sign, the value of all digits run together, and the number of fraction
/// digits; `None` for any other shape.
pub open spec fn spec_decimal(s: Seq<char>) -> Option<(bool, nat, nat)> {
    let neg = s.len() > 0 && s[0] == '-';
    let t = if neg {
        s.skip(1)
    } else {
        s
    };
    let parts = spec_split(t, set!['.']);
    if parts.len() == 1 && is_dec_digits(parts[0]) {
        Some((neg, dec_val(parts[0]), 0 as nat))
    } else if parts.len() == 2 && is_dec_digits(parts[0]) && is_dec_digits(parts[1]) {
        Some((neg, dec_val(parts[0] + parts[1]), parts[1].len()))
    } else {
        None
    }
}

/// The decimal a literal denotes, when its shape is right and its digits fit
/// a `u64` mantissa.
pub open spec fn dec_of(s: Seq<char>) -> Option<Decimal> {
    match spec_decimal(s) {
        Some((neg, m, k)) => if m <= u64::MAX && k <= usize::MAX {
            Some(Decimal { neg, mantissa: m as u64, scale: k as usize })
        } else {
            None
        },
        None => None,
    }
}

/// A decimal with the given whole-number value.
pub open spec fn whole(n: u64) -> Decimal {
    Decimal { neg: false, mantissa: n, scale: 0 }
}

fn is_digits(s: &str) -> (r: bool)
    ensures
        r == is_dec_digits(s@),
{
    let n = s.unicode_len();
    if n == 0 {
        return false;
    }
    let mut i: usize = 0;
    while i < n
        invariant
            i <= n,
            n == s@.len(),
            forall|k: int| 0 <= k < i ==> '0' <= #[trigger] s@[k] <= '9',
        decreases n - i,
    {
        let c = s.get_char(i);
        if c < '0' || c > '9' {
            return false;
        }
        i = i + 1;
    }
    true
}

fn parse_u64(s: &str) -> (r: Option<u64>)
    ensures
        r is Some <==> is_dec_digits(s@) && dec_val(s@) <= u64::MAX,
        r matches Some(v) ==> v == dec_val(s@),
{
    let n = s.unicode_len();
    if n == 0 {
        return None;
    }
    let mut acc: u64 = 0;
    let mut i: usize = 0;
    while i < n
        invariant
            i <= n,
            n == s@.len(),
            n > 0,
            forall|k: int| 0 <= k < i ==> '0' <= #[trigger] s@[k] <= '9',
            acc == dec_val(s@.take(i as int)),
        decreases n - i,
    {
        let c = s.get_char(i);
        if c < '0' || c > '9' {
            return None;
        }
        let d: u64 = (c as u32 as u64) - ('0' as u32 as u64);
        proof {
            assert(s@.take(i + 1 as int).drop_last() =~= s@.take(i as int));
        }
        acc = match acc.checked_mul(10) {
            Some(t) => match t.checked_add(d) {
                Some(t2) => t2,
                None => {
                    proof {
                        lemma_dec_val_prefix(s@, i + 1 as int);
                    }
                    return None;
                },
            },
            None => {
                proof {
                    lemma_dec_val_prefix(s@, i + 1 as int);
                }
                return None;
            },
        };
        i = i + 1;
    }
    proof {
        assert(s@.take(n as int) =~= s@);
    }
    Some(acc)
}

proof fn lemma_dec_val_prefix(s: Seq<char>, i: int)
    requires
        0 <= i <= s.len(),
    ensures
        dec_val(s.take(i)) <= dec_val(s),
    decreases s.len() - i,
{
    if i < s.len() {
        lemma_dec_val_prefix(s, i + 1);
        assert(s.take(i + 1).drop_last() =~= s.take(i));
    } else {
        assert(s.take(i) =~= s);
    }
}

/// Parses a decimal literal. `None` exactly when the shape is wrong or the
/// digits overflow the mantissa.
pub fn parse_decimal(s: &str) -> (r: Option<Decimal>)
    ensures
        r is Some <==> dec_of(s@) is Some,
        r matches Some(d) ==> dec_of(s@) == Some(d),
{
    let n = s.unicode_len();
    let neg = n > 0 && s.get_char(0) == '-';
    let t: &str = if neg {
        s.substring_char(1, n)
    } else {
        s
    };
    proof {
        if neg {
            assert(t@ =~= s@.skip(1));
        }
        assert forall|c: char| seq!['.'].to_set().contains(c) <==> set!['.'].contains(c) by {
            assert(seq!['.'][0] == '.');
            if seq!['.'].contains(c) {
                let i = choose|i: int| 0 <= i < seq!['.'].len() && seq!['.'][i] == c;
                assert(i == 0);
            }
        }
        assert(seq!['.'].to_set() =~= set!['.']);
    }
    let seps = vec!['.'];
    let parts = split_on(t, &seps);
    proof {
        assert(seps@ =~= seq!['.']);
    }
    if parts.len() == 1 {
        match parse_u64(parts[0].as_str()) {
            Some(v) => Some(Decimal { neg, mantissa: v, scale: 0 }),
            None => None,
        }
    } else if parts.len() == 2 {
        if !is_digits(parts[0].as_str()) || !is_digits(parts[1].as_str()) {
            return None;
        }
        let mut digits = parts[0].clone();
        append_str(&mut digits, parts[1].as_str());
        let scale = parts[1].as_str().unicode_len();
        match parse_u64(digits.as_str()) {
            Some(v) => Some(Decimal { neg, mantissa: v, scale }),
            None => None,
        }
    } else {
        None
    }
}

/// A run of `n` zero characters.
pub open spec fn zero_chars(n: nat) -> Seq<char>
    decreases n,
{
    if n == 0 {
        Seq::<char>::empty()
    } else {
        zero_chars((n - 1) as nat).push('0')
    }
}

/// The canonical rendering of a decimal: sign, integer digits, and for a
/// positive scale a dot with the fraction zero-padded on the left.
pub open spec fn decimal_chars(d: Decimal) -> Seq<char> {
    let ds = dec_string(d.mantissa as nat);
    let sign: Seq<char> = if d.neg {
        seq!['-']
    } else {
        Seq::<char>::empty()
    };
    if d.scale == 0 {
        sign + ds
    } else if ds.len() <= d.scale {
        sign + seq!['0', '.'] + zero_chars((d.scale - ds.len()) as nat) + ds
    } else {
        sign + ds.take(ds.len() - d.scale) + seq!['.'] + ds.skip(ds.len() - d.scale)
    }
}

/// `dec_string` always yields at least one character.
pub proof fn lemma_dec_string_len(n: nat)
    ensures
        dec_string(n).len() >= 1,
    decreases n,
{
    if n >= 10 {
        lemma_dec_string_len(n / 10);
    }
}

impl Decimal {
    /// Renders the decimal in its canonical form.
    pub fn to_string(&self) -> (r: String)
        ensures
            r@ == decimal_chars(*self),
    {
        let mut r = String::new();
        if self.neg {
            push_char(&mut r, '-');
        }
        let ghost sign: Seq<char> = if self.neg {
            seq!['-']
        } else {
            Seq::<char>::empty()
        };
        proof {
            assert(r@ =~= sign);
        }
        let ds = u64_to_string(self.mantissa);
        let dl = ds.as_str().unicode_len();
        proof {
            lemma_dec_string_len(self.mantissa as nat);
        }
        if self.scale == 0 {
            append_str(&mut r, ds.as_str());
            proof {
                assert(r@ =~= decimal_chars(*self));
            }
        } else if dl <= self.scale {
            push_char(&mut r, '0');
            push_char(&mut r, '.');
            let mut j: usize = 0;
            let pad = self.scale - dl;
            while j < pad
                invariant
                    j <= pad,
                    r@ == sign + seq!['0', '.'] + zero_chars(j as nat),
                decreases pad - j,
            {
                push_char(&mut r, '0');
                proof {
                    assert(r@ =~= sign + seq!['0', '.'] + zero_chars((j + 1) as nat));
                }
                j = j + 1;
            }
            append_str(&mut r, ds.as_str());
            proof {
                assert(r@ =~= decimal_chars(*self));
            }
        } else {
            let split = dl - self.scale;
            let intpart = ds.as_str().substring_char(0, split);
            append_str(&mut r, intpart);
            push_char(&mut r, '.');
            let frac = ds.as_str().substring_char(split, dl);
            append_str(&mut r, frac);
            proof {
                assert(ds@.subrange(0, split as int) =~= ds@.take(ds@.len() - self.scale));
                assert(ds@.subrange(split as int, dl as int) =~= ds@.skip(ds@.len() - self.scale));
                assert(r@ =~= decimal_chars(*self));
            }
        }
        r
    }
}

} // verus!
