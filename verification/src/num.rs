//! Decimal and hexadecimal text of integers: what `Display` writes for an
//! integer and what `str::parse::<i64>` accepts.
use vstd::prelude::*;

verus! {

/// The ASCII digit of `d` (0..=9).
pub open spec fn digit_char(d: int) -> char {
    ('0' as int + d) as char
}

/// `c` is an ASCII decimal digit.
pub open spec fn is_digit(c: char) -> bool {
    '0' <= c && c <= '9'
}

/// Decimal digits of `m`, most significant first, without leading zeros.
pub open spec fn nat_digits(m: nat) -> Seq<char>
    decreases m,
{
    if m < 10 {
        seq![digit_char(m as int)]
    } else {
        nat_digits(m / 10).push(digit_char((m % 10) as int))
    }
}

/// What `Display` writes for the integer `n`.
pub open spec fn dec(n: int) -> Seq<char> {
    if n < 0 {
        seq!['-'] + nat_digits((-n) as nat)
    } else {
        nat_digits(n as nat)
    }
}

/// Every character of `s` is a decimal digit.
pub open spec fn all_digits(s: Seq<char>) -> bool {
    forall|i: int| 0 <= i < s.len() ==> is_digit(#[trigger] s[i])
}

/// The number that the decimal digits `s` denote.
pub open spec fn digits_value(s: Seq<char>) -> int
    decreases s.len(),
{
    if s.len() == 0 {
        0
    } else {
        digits_value(s.drop_last()) * 10 + (s.last() as int - '0' as int)
    }
}

/// What `str::parse::<i64>` gives for `s`: an optional sign, then one or more
/// decimal digits, with the value in range.
pub open spec fn parse_i64_spec(s: Seq<char>) -> Option<int> {
    if s.len() == 0 {
        None
    } else {
        let neg = s[0] == '-';
        let ds = if s[0] == '-' || s[0] == '+' {
            s.drop_first()
        } else {
            s
        };
        if ds.len() == 0 || !all_digits(ds) {
            None
        } else {
            let v = if neg {
                -digits_value(ds)
            } else {
                digits_value(ds)
            };
            if i64::MIN <= v && v <= i64::MAX {
                Some(v)
            } else {
                None
            }
        }
    }
}

pub proof fn lemma_nat_digits(m: nat)
    ensures
        nat_digits(m).len() >= 1,
        all_digits(nat_digits(m)),
        digits_value(nat_digits(m)) == m,
        is_digit(nat_digits(m)[0]),
    decreases m,
{
    assert(forall|d: int| 0 <= d < 10 ==> #[trigger] digit_char(d) as int == '0' as int + d);
    if m >= 10 {
        lemma_nat_digits(m / 10);
        let s = nat_digits(m);
        assert(s.last() == digit_char((m % 10) as int));
        assert(s.drop_last() =~= nat_digits(m / 10));
        assert(s[0] == nat_digits(m / 10)[0]);
        let d = (m % 10) as int;
        assert(digit_char(d) as int == '0' as int + d);
        assert(digits_value(s) == digits_value(s.drop_last()) * 10 + (s.last() as int - '0' as int));
        assert((m / 10) * 10 + d == m);
    } else {
        let s = nat_digits(m);
        assert(s.drop_last() =~= Seq::<char>::empty());
        assert(digit_char(m as int) as int == '0' as int + m);
        assert(digits_value(s) == digits_value(s.drop_last()) * 10 + (s.last() as int - '0' as int));
    }
}

/// Parsing what `Display` writes for an `i64` gives the number back.
pub proof fn lemma_parse_dec(n: i64)
    ensures
        parse_i64_spec(dec(n as int)) == Some(n as int),
        !dec(n as int).contains(':'),
{
    let m: nat = if n < 0 {
        (-n) as nat
    } else {
        n as nat
    };
    lemma_nat_digits(m);
    let s = dec(n as int);
    if n < 0 {
        assert(s.drop_first() =~= nat_digits(m));
    }
    assert forall|i: int| 0 <= i < s.len() implies s[i] != ':' by {
        if n < 0 && i > 0 {
            assert(s[i] == nat_digits(m)[i - 1]);
        }
        if n >= 0 {
            assert(is_digit(nat_digits(m)[i]));
        }
    }
}

pub proof fn lemma_digits_value_mono(s: Seq<char>, k: int)
    requires
        0 <= k <= s.len(),
        all_digits(s),
    ensures
        digits_value(s.take(k)) <= digits_value(s),
        0 <= digits_value(s.take(k)),
    decreases s.len() - k,
{
    if k < s.len() {
        lemma_digits_value_mono(s, k + 1);
        assert(s.take(k + 1).drop_last() =~= s.take(k));
        assert(is_digit(s[k]));
    } else {
        assert(s.take(k) =~= s);
        lemma_digits_value_nonneg(s);
    }
}

pub proof fn lemma_digits_value_nonneg(s: Seq<char>)
    requires
        all_digits(s),
    ensures
        0 <= digits_value(s),
    decreases s.len(),
{
    if s.len() > 0 {
        assert(all_digits(s.drop_last())) by {
            assert forall|i: int| 0 <= i < s.len() - 1 implies is_digit(#[trigger] s.drop_last()[i]) by {
                assert(s.drop_last()[i] == s[i]);
            }
        }
        lemma_digits_value_nonneg(s.drop_last());
        assert(is_digit(s[s.len() - 1]));
    }
}

/// `str::parse::<i64>` on a character sequence.
pub fn parse_i64(v: &[char]) -> (res: Option<i64>)
    ensures
        res matches Some(x) ==> parse_i64_spec(v@) == Some(x as int),
        res is None ==> parse_i64_spec(v@) is None,
{
    if v.len() == 0 {
        return None;
    }
    let neg = v[0] == '-';
    let start: usize = if v[0] == '-' || v[0] == '+' {
        1
    } else {
        0
    };
    let ghost ds = if v@[0] == '-' || v@[0] == '+' {
        v@.drop_first()
    } else {
        v@
    };
    assert(ds =~= v@.skip(start as int));
    if start == v.len() {
        return None;
    }
    let mut acc: u128 = 0;
    let mut k: usize = start;
    let bound: u128 = 0x8000_0000_0000_0000;
    while k < v.len()
        invariant
            start <= k <= v.len(),
            v@.len() > 0,
            ds == (if v@[0] == '-' || v@[0] == '+' {
                v@.drop_first()
            } else {
                v@
            }),
            ds =~= v@.skip(start as int),
            forall|i: int| start <= i < k ==> is_digit(#[trigger] v@[i]),
            acc as int == digits_value(ds.take(k - start)),
            acc <= bound,
            bound == 0x8000_0000_0000_0000u128,
        decreases v.len() - k,
    {
        let c = v[k];
        if !('0' <= c && c <= '9') {
            assert(!is_digit(ds[k - start]));
            assert(!all_digits(ds));
            return None;
        }
        let d = (c as u32 - '0' as u32) as u128;
        proof {
            assert(ds.take(k - start + 1).drop_last() =~= ds.take(k - start));
            assert(ds.take(k - start + 1).last() == c);
        }
        acc = acc * 10 + d;
        k = k + 1;
        if acc > bound {
            proof {
                if all_digits(ds) {
                    lemma_digits_value_mono(ds, k - start);
                    assert(digits_value(ds) > 0x8000_0000_0000_0000);
                }
            }
            return None;
        }
    }
    proof {
        assert(ds.take(ds.len() as int) =~= ds);
        assert(all_digits(ds)) by {
            assert forall|i: int| 0 <= i < ds.len() implies is_digit(#[trigger] ds[i]) by {
                assert(ds[i] == v@[i + start]);
            }
        }
    }
    if neg {
        if acc == bound {
            Some(i64::MIN)
        } else {
            Some(-(acc as i64))
        }
    } else {
        if acc == bound {
            None
        } else {
            Some(acc as i64)
        }
    }
}

/// The decimal digits of `m`.
pub fn nat_digit_chars(m: u64) -> (res: Vec<char>)
    ensures
        res@ == nat_digits(m as nat),
{
    let mut m: u64 = m;
    let ghost m0: nat = m as nat;
    let mut suffix: Vec<char> = Vec::new();
    while m >= 10
        invariant
            nat_digits(m0) == nat_digits(m as nat) + suffix@,
        decreases m,
    {
        let d = (m % 10) as u8;
        let c = ((48u8 + d) as char);
        assert(c == digit_char((m % 10) as int));
        suffix.insert(0, c);
        proof {
            assert(nat_digits(m as nat) == nat_digits((m / 10) as nat).push(c));
            assert(nat_digits((m / 10) as nat) + suffix@ =~= nat_digits((m / 10) as nat).push(c)
                + suffix@.drop_first());
        }
        m = m / 10;
    }
    let c = ((48u8 + (m as u8)) as char);
    assert(nat_digits(m as nat) == seq![c]);
    let mut res: Vec<char> = Vec::new();
    res.push(c);
    let mut i: usize = 0;
    while i < suffix.len()
        invariant
            i <= suffix.len(),
            res@ == seq![c] + suffix@.take(i as int),
        decreases suffix.len() - i,
    {
        res.push(suffix[i]);
        i = i + 1;
        assert(suffix@.take(i as int) =~= suffix@.take(i - 1).push(suffix@[i - 1]));
    }
    assert(suffix@.take(suffix@.len() as int) =~= suffix@);
    assert(res@ =~= nat_digits(m0));
    res
}

/// The characters that `Display` writes for `n`.
pub fn dec_chars(n: i64) -> (res: Vec<char>)
    ensures
        res@ == dec(n as int),
{
    let neg = n < 0;
    let m: u64 = if neg {
        (-(n as i128)) as u64
    } else {
        n as u64
    };
    let digits = nat_digit_chars(m);
    if neg {
        let mut res: Vec<char> = Vec::new();
        res.push('-');
        crate::chars::append_chars(&mut res, digits.as_slice());
        assert(res@ =~= dec(n as int));
        res
    } else {
        digits
    }
}

// ---------------------------------------------------------------------------
// Hexadecimal
// ---------------------------------------------------------------------------

/// Lower-case hexadecimal digit of `d` (0..=15).
pub open spec fn hex_digit(d: int) -> char {
    if d < 10 {
        ('0' as int + d) as char
    } else {
        ('a' as int + d - 10) as char
    }
}

/// Lower-case hexadecimal text of `bytes`, two digits per byte (`hex::encode`).
pub open spec fn hex_lower(bytes: Seq<u8>) -> Seq<char>
    decreases bytes.len(),
{
    if bytes.len() == 0 {
        seq![]
    } else {
        hex_lower(bytes.drop_last()) + seq![
            hex_digit(bytes.last() as int / 16),
            hex_digit(bytes.last() as int % 16),
        ]
    }
}

/// `count` lower-case hexadecimal digits of `n`, zero padded (`{:016x}`).
pub open spec fn hex_fixed(n: nat, count: nat) -> Seq<char>
    decreases count,
{
    if count == 0 {
        seq![]
    } else {
        hex_fixed(n / 16, (count - 1) as nat).push(hex_digit((n % 16) as int))
    }
}

pub proof fn lemma_hex_lower_no_colon(bytes: Seq<u8>)
    ensures
        !hex_lower(bytes).contains(':'),
    decreases bytes.len(),
{
    if bytes.len() > 0 {
        lemma_hex_lower_no_colon(bytes.drop_last());
        let h = hex_lower(bytes);
        let h0 = hex_lower(bytes.drop_last());
        assert forall|i: int| 0 <= i < h.len() implies h[i] != ':' by {
            if i < h0.len() {
                assert(h[i] == h0[i]);
            }
        }
    }
}

/// The digit character of `d` (0..=15), lower case.
pub fn hex_digit_exec(d: u64) -> (c: char)
    requires
        d < 16,
    ensures
        c == hex_digit(d as int),
{
    if d < 10 {
        ((48u8 + d as u8) as char)
    } else {
        ((97u8 + (d as u8 - 10)) as char)
    }
}

/// `format!("{:016x}", n)`: sixteen lower-case hexadecimal digits.
pub fn hex16(n: u64) -> (res: Vec<char>)
    ensures
        res@ == hex_fixed(n as nat, 16),
        res@.len() == 16,
{
    let mut res: Vec<char> = Vec::new();
    let mut m: u64 = n;
    let mut k: usize = 0;
    while k < 16
        invariant
            k <= 16,
            hex_fixed(n as nat, 16) == hex_fixed(m as nat, (16 - k) as nat) + res@,
            res@.len() == k,
        decreases 16 - k,
    {
        let c = hex_digit_exec(m % 16);
        res.insert(0, c);
        proof {
            assert(hex_fixed(m as nat, (16 - k) as nat) == hex_fixed((m / 16) as nat, (16 - k - 1) as nat).push(c));
            assert(hex_fixed((m / 16) as nat, (16 - k - 1) as nat) + res@ =~= hex_fixed((m / 16) as nat, (16 - k - 1) as nat).push(c) + res@.drop_first());
        }
        m = m / 16;
        k = k + 1;
    }
    assert(hex_fixed(m as nat, 0) + res@ =~= res@);
    res
}

/// `c` is a lower-case hexadecimal digit.
pub open spec fn is_hex_char(c: char) -> bool {
    is_digit(c) || ('a' <= c && c <= 'f')
}

/// The decimal text of an integer is not empty and holds only digits and `-`.
pub proof fn lemma_dec_chars(n: int)
    ensures
        dec(n).len() >= 1,
        forall|i: int| 0 <= i < dec(n).len() ==> is_digit(#[trigger] dec(n)[i]) || dec(n)[i] == '-',
{
    let m: nat = if n < 0 {
        (-n) as nat
    } else {
        n as nat
    };
    lemma_nat_digits(m);
    let s = dec(n);
    assert forall|i: int| 0 <= i < s.len() implies is_digit(#[trigger] s[i]) || s[i] == '-' by {
        if n < 0 && i > 0 {
            assert(s[i] == nat_digits(m)[i - 1]);
        }
        if n >= 0 {
            assert(is_digit(nat_digits(m)[i]));
        }
    }
}

/// Hexadecimal text holds only lower-case hexadecimal digits.
pub proof fn lemma_hex_lower_chars(bytes: Seq<u8>)
    ensures
        forall|i: int| 0 <= i < hex_lower(bytes).len() ==> is_hex_char(#[trigger] hex_lower(bytes)[i]),
        hex_lower(bytes).len() == 2 * bytes.len(),
    decreases bytes.len(),
{
    if bytes.len() > 0 {
        lemma_hex_lower_chars(bytes.drop_last());
        let h = hex_lower(bytes);
        let h0 = hex_lower(bytes.drop_last());
        let b = bytes.last() as int;
        assert(0 <= b / 16 < 16 && 0 <= b % 16 < 16);
        assert forall|d: int| 0 <= d < 16 implies is_hex_char(#[trigger] hex_digit(d)) by {}
        assert forall|i: int| 0 <= i < h.len() implies is_hex_char(#[trigger] h[i]) by {
            if i < h0.len() {
                assert(h[i] == h0[i]);
            } else if i == h0.len() {
                assert(h[i] == hex_digit(b / 16));
            } else {
                assert(h[i] == hex_digit(b % 16));
            }
        }
    }
}

} // verus!
