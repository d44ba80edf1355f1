//! Job priorities: exact decimal fractions such as `0.00001234`.
use vstd::prelude::*;

use crate::text::{
    all_digits, chars_of, decimal, digits_value, is_digit, lemma_decimal, parse_u64,
    push_char, split_chars, split_on, string_of, unsigned_digits, views,
};
use crate::time::{lemma_padded, padded, pow10, push_padded};

verus! {

/// The decimal number `mantissa / 10^scale`, kept in its shortest form: the
/// last fractional digit is not zero.
#[derive(Clone, Copy, Debug, PartialEq, Eq, Structural, Hash)]
pub struct Priority {
    pub mantissa: u64,
    pub scale: u8,
}

impl Priority {
    /// The shortest form, so that equal values are equal structs.
    pub open spec fn normal(self) -> bool {
        self.scale == 0 || self.mantissa % 10 != 0
    }
}

/// `m / 10^k` with the trailing fractional zeros dropped.
pub open spec fn normalized(m: nat, k: nat) -> (nat, nat)
    decreases k,
{
    if k > 0 && m % 10 == 0 {
        normalized(m / 10, (k - 1) as nat)
    } else {
        (m, k)
    }
}

/// The priority that `s` writes: digits, optionally a `.` and more digits,
/// with at least one digit in all, at most 255 after the point, and all the
/// digits together read as a `u64`.
pub open spec fn priority_of(s: Seq<char>) -> Option<Priority> {
    let p = split_on(s, '.');
    let int_part = p[0];
    let frac = if p.len() == 2 {
        p[1]
    } else {
        Seq::empty()
    };
    let ds = int_part + frac;
    if (p.len() == 1 || p.len() == 2) && ds.len() > 0 && all_digits(ds) && frac.len() <= 255
        && digits_value(ds) <= u64::MAX {
        let n = normalized(digits_value(ds), frac.len());
        Some(Priority { mantissa: n.0 as u64, scale: n.1 as u8 })
    } else {
        None
    }
}

/// The width at which `p` is written before the point is placed: its digits,
/// with leading zeros up to one more than the scale.
pub open spec fn priority_width(p: Priority) -> nat {
    let n = decimal(p.mantissa as nat).len();
    if n > p.scale + 1 {
        n
    } else {
        (p.scale + 1) as nat
    }
}

/// The writing of `p`: its digits, with the point before the last `scale` of
/// them where `scale` is not zero.
pub open spec fn priority_text(p: Priority) -> Seq<char> {
    let w = priority_width(p);
    let ds = padded(p.mantissa as nat, w);
    if p.scale == 0 {
        ds
    } else {
        ds.take(w - p.scale).push('.') + ds.skip(w - p.scale)
    }
}

proof fn lemma_normalized_no_op(m: nat, k: nat)
    requires
        k == 0 || m % 10 != 0,
    ensures
        normalized(m, k) == (m, k),
{
}

proof fn lemma_decimal_bound(n: nat)
    ensures
        n < pow10(decimal(n).len()),
    decreases n,
{
    if n >= 10 {
        lemma_decimal_bound(n / 10);
        assert(decimal(n).len() == decimal(n / 10).len() + 1);
        assert(pow10(decimal(n).len()) == 10 * pow10(decimal(n / 10).len()));
    } else {
        assert(pow10(1) == 10) by {
            reveal_with_fuel(pow10, 2);
        }
    }
}

proof fn lemma_pow10_mono(a: nat, b: nat)
    requires
        a <= b,
    ensures
        pow10(a) <= pow10(b),
    decreases b,
{
    if a < b {
        lemma_pow10_mono(a, (b - 1) as nat);
    }
}

impl Priority {
    /// Reads a priority as `squeue` prints it, such as `0.00001234`.
    pub fn parse(s: &str) -> (r: Option<Priority>)
        ensures
            r == priority_of(s@),
            r matches Some(p) ==> p.normal(),
    {
        let cs = chars_of(s);
        let parts = split_chars(&cs, '.');
        proof {
            crate::text::lemma_split_len(cs@, '.');
        }
        assert(views(parts@).len() == parts@.len());
        if parts.len() != 1 && parts.len() != 2 {
            return None;
        }
        let int_chars = chars_of(parts[0].as_str());
        assert(int_chars@ == views(parts@)[0]);
        let mut ds = int_chars;
        let mut frac_len: usize = 0;
        if parts.len() == 2 {
            let frac_chars = chars_of(parts[1].as_str());
            assert(frac_chars@ == views(parts@)[1]);
            frac_len = frac_chars.len();
            let mut i: usize = 0;
            let ghost start = ds@;
            while i < frac_chars.len()
                invariant
                    i <= frac_chars@.len(),
                    ds@ == start + frac_chars@.take(i as int),
                decreases frac_chars@.len() - i,
            {
                ds.push(frac_chars[i]);
                assert(frac_chars@.take(i + 1) =~= frac_chars@.take(i as int).push(frac_chars@[i as int]));
                i = i + 1;
            }
            assert(frac_chars@.take(frac_chars@.len() as int) =~= frac_chars@);
        } else {
            assert(ds@ =~= views(parts@)[0] + Seq::<char>::empty());
        }
        let ghost frac = if parts@.len() == 2 {
            views(parts@)[1]
        } else {
            Seq::<char>::empty()
        };
        assert(ds@ == views(parts@)[0] + frac);
        assert(frac.len() == frac_len);
        if ds.len() == 0 || frac_len > 255 {
            return None;
        }
        if !crate::text::all_digit_chars(&ds) {
            return None;
        }
        assert(ds@[0] != '+');
        assert(unsigned_digits(ds@) == Some(ds@));
        let text = string_of(&ds, 0, ds.len());
        assert(ds@.subrange(0, ds@.len() as int) =~= ds@);
        let mut m = match parse_u64(text.as_str()) {
            Some(v) => v,
            None => {
                return None;
            },
        };
        let mut k: u8 = frac_len as u8;
        while k > 0 && m % 10 == 0
            invariant
                normalized(m as nat, k as nat) == normalized(digits_value(ds@), frac_len as nat),
            decreases k,
        {
            m = m / 10;
            k = k - 1;
        }
        Some(Priority { mantissa: m, scale: k })
    }

    /// Writes the priority as digits with a point, such as `0.00001234`.
    pub fn format(&self) -> (r: String)
        ensures
            r@ == priority_text(*self),
    {
        let mut digits = String::new();
        crate::text::push_decimal(&mut digits, self.mantissa);
        let n = chars_of(digits.as_str()).len();
        let w: usize = if n > self.scale as usize + 1 {
            n
        } else {
            self.scale as usize + 1
        };
        assert(w == priority_width(*self));
        let mut full = String::new();
        push_padded(&mut full, self.mantissa, w as u64);
        if self.scale == 0 {
            return full;
        }
        let cs = chars_of(full.as_str());
        proof {
            lemma_decimal_bound(self.mantissa as nat);
            lemma_pow10_mono(decimal(self.mantissa as nat).len(), w as nat);
            lemma_padded(self.mantissa as nat, w as nat);
        }
        let split = w - self.scale as usize;
        let mut r = string_of(&cs, 0, split);
        push_char(&mut r, '.');
        let rest = string_of(&cs, split, w);
        crate::text::push_str_of(&mut r, &rest);
        assert(cs@.subrange(0, split as int) =~= cs@.take(split as int));
        assert(cs@.subrange(split as int, w as int) =~= cs@.skip(split as int));
        r
    }
}

/// `a` and `b` stand for the same number.
pub open spec fn same_value(a: Priority, b: Priority) -> bool {
    a.mantissa as nat * pow10(b.scale as nat) == b.mantissa as nat * pow10(a.scale as nat)
}

/// The shortest form of `p`.
pub open spec fn normal_of(p: Priority) -> Priority {
    let n = normalized(p.mantissa as nat, p.scale as nat);
    Priority { mantissa: n.0 as u64, scale: n.1 as u8 }
}

proof fn lemma_normalized_value(m: nat, k: nat)
    ensures
        normalized(m, k).0 * pow10(k) == m * pow10(normalized(m, k).1),
        normalized(m, k).0 <= m,
        normalized(m, k).1 <= k,
    decreases k,
{
    if k > 0 && m % 10 == 0 {
        lemma_normalized_value(m / 10, (k - 1) as nat);
        let a = normalized(m / 10, (k - 1) as nat).0;
        let b = normalized(m / 10, (k - 1) as nat).1;
        let pk1 = pow10((k - 1) as nat);
        let pb = pow10(b);
        assert(pow10(k) == 10 * pk1);
        assert(m == 10 * (m / 10));
        assert(a * (10 * pk1) == m * pb) by (nonlinear_arith)
            requires
                a * pk1 == (m / 10) * pb,
                m == 10 * (m / 10),
        ;
    }
}

/// Reading back what `format` wrote gives the same number, in its shortest
/// form; a priority already in that form comes back as itself.
pub proof fn lemma_priority_round_trip(p: Priority)
    ensures
        priority_of(priority_text(p)) == Some(normal_of(p)),
        same_value(normal_of(p), p),
        p.normal() ==> normal_of(p) == p,
{
    lemma_normalized_value(p.mantissa as nat, p.scale as nat);
    if p.normal() {
        lemma_normalized_no_op(p.mantissa as nat, p.scale as nat);
    }
    let m = p.mantissa as nat;
    let w = priority_width(p);
    lemma_decimal_bound(m);
    lemma_decimal(m);
    lemma_pow10_mono(decimal(m).len(), w);
    lemma_padded(m, w);
    let ds = padded(m, w);
    assert(!ds.contains('.')) by {
        assert forall|i: int| 0 <= i < ds.len() implies ds[i] != '.' by {
            assert(is_digit(ds[i]));
        }
    }
    if p.scale == 0 {
        crate::text::lemma_split_append_free(Seq::empty(), ds, '.');
        assert(Seq::<char>::empty() + ds =~= ds);
        assert(split_on(ds, '.') =~= seq![ds]);
        assert(ds + Seq::<char>::empty() =~= ds);
    } else {
        let a = ds.take(w - p.scale);
        let b = ds.skip(w - p.scale);
        assert(!a.contains('.')) by {
            assert forall|i: int| 0 <= i < a.len() implies a[i] != '.' by {
                assert(a[i] == ds[i]);
            }
        }
        assert(!b.contains('.')) by {
            assert forall|i: int| 0 <= i < b.len() implies b[i] != '.' by {
                assert(b[i] == ds[i + w - p.scale]);
            }
        }
        crate::text::lemma_join2(a, b, '.');
        crate::text::lemma_split_join(seq![a, b], '.');
        assert(a + b =~= ds);
    }
}

} // verus!
