//! Byte-level text helpers: decimal formatting and parsing, hexadecimal
//! encoding and decoding, and small slice utilities.
//!
//! These are the building blocks of the wire formats: the decimal port
//! header, the `agent_id|expiry|signature` token layout, and the hex form
//! of signatures.

use vstd::prelude::*;
use vstd::string::StringSliceAdditionalSpecFns;

verus! {

/// Decimal digits of a nonnegative number, most significant first.
pub open spec fn spec_dec_nat(n: nat) -> Seq<u8>
    decreases n,
{
    if n < 10 {
        seq![(0x30 + n) as u8]
    } else {
        spec_dec_nat(n / 10) + seq![(0x30 + n % 10) as u8]
    }
}

/// Decimal text of a signed number: a minus sign for negatives, then digits.
pub open spec fn spec_dec_int(n: int) -> Seq<u8> {
    if n < 0 {
        seq![0x2Du8] + spec_dec_nat((-n) as nat)
    } else {
        spec_dec_nat(n as nat)
    }
}

/// Append the decimal digits of `m` to `out`.
pub fn push_dec_u64(m: u64, out: &mut Vec<u8>)
    ensures
        final(out)@ == old(out)@ + spec_dec_nat(m as nat),
    decreases m,
{
    if m < 10 {
        out.push((0x30 + m) as u8);
        proof {
            assert(out@ =~= old(out)@ + spec_dec_nat(m as nat));
        }
    } else {
        push_dec_u64(m / 10, out);
        out.push((0x30 + m % 10) as u8);
        proof {
            assert(out@ =~= old(out)@ + spec_dec_nat(m as nat));
        }
    }
}

/// Append the decimal text of `n` to `out`.
pub fn push_dec_i64(n: i64, out: &mut Vec<u8>)
    ensures
        final(out)@ == old(out)@ + spec_dec_int(n as int),
{
    if n >= 0 {
        push_dec_u64(n as u64, out);
    } else {
        out.push(0x2Du8);
        let m: u64 = ((-(n + 1)) as u64) + 1;
        proof {
            assert(m as int == -(n as int));
        }
        push_dec_u64(m, out);
        proof {
            assert(out@ =~= old(out)@ + spec_dec_int(n as int));
        }
    }
}

/// True when every byte of `s` is an ASCII decimal digit.
pub open spec fn spec_all_digits(s: Seq<u8>) -> bool {
    forall|i: int| 0 <= i < s.len() ==> 0x30 <= #[trigger] s[i] <= 0x39
}

/// The number denoted by a digit sequence, most significant first.
pub open spec fn spec_digits_value(s: Seq<u8>) -> int
    decreases s.len(),
{
    if s.len() == 0 {
        0
    } else {
        spec_digits_value(s.drop_last()) * 10 + (s.last() - 0x30)
    }
}

/// What `str::parse::<i64>` accepts: an optional sign, then one or more
/// digits, denoting a value within the range of the type.
pub open spec fn spec_parse_i64(s: Seq<u8>) -> Option<int> {
    let ds = if s.len() > 0 && (s[0] == 0x2Du8 || s[0] == 0x2Bu8) {
        s.drop_first()
    } else {
        s
    };
    let neg = s.len() > 0 && s[0] == 0x2Du8;
    if ds.len() == 0 || !spec_all_digits(ds) {
        None
    } else {
        let v = if neg {
            -spec_digits_value(ds)
        } else {
            spec_digits_value(ds)
        };
        if i64::MIN <= v <= i64::MAX {
            Some(v)
        } else {
            None
        }
    }
}

/// A digit sequence denotes a nonnegative value.
pub proof fn lemma_digits_value_nonneg(s: Seq<u8>)
    requires
        spec_all_digits(s),
    ensures
        spec_digits_value(s) >= 0,
    decreases s.len(),
{
    if s.len() > 0 {
        lemma_digits_value_nonneg(s.drop_last());
    }
}

/// Extending a digit sequence on the right never shrinks its value.
pub proof fn lemma_digits_value_extend(s: Seq<u8>, t: Seq<u8>)
    requires
        spec_all_digits(s),
        spec_all_digits(t),
        s.len() <= t.len(),
        t.subrange(0, s.len() as int) == s,
    ensures
        spec_digits_value(t) >= spec_digits_value(s),
    decreases t.len() - s.len(),
{
    if t.len() == s.len() {
        assert(t =~= s);
    } else {
        let t1 = t.drop_last();
        assert(t1.subrange(0, s.len() as int) =~= s);
        assert forall|k: int| 0 <= k < t1.len() implies 0x30 <= #[trigger] t1[k] <= 0x39 by {
            assert(t1[k] == t[k]);
        }
        lemma_digits_value_extend(s, t1);
        lemma_digits_value_nonneg(t1);
        assert(0x30 <= t.last() <= 0x39);
        assert(spec_digits_value(t) == spec_digits_value(t1) * 10 + (t.last() - 0x30));
    }
}

/// Parse a decimal integer, as `str::parse::<i64>` would.
pub fn parse_i64_dec(s: &[u8]) -> (r: Option<i64>)
    ensures
        match r {
            Some(v) => spec_parse_i64(s@) == Some(v as int),
            None => spec_parse_i64(s@) is None,
        },
{
    let n = s.len();
    let ghost whole = s@;
    let mut start: usize = 0;
    let mut neg = false;
    if n > 0 && (s[0] == 0x2D || s[0] == 0x2B) {
        start = 1;
        neg = s[0] == 0x2D;
    }
    let ghost ds = if start == 1 {
        whole.drop_first()
    } else {
        whole
    };
    if start >= n {
        return None;
    }
    let mut acc: u64 = 0;
    let mut i: usize = start;
    while i < n
        invariant
            start <= i <= n,
            n == whole.len(),
            s@ == whole,
            start == 0 || start == 1,
            start < n,
            start == 1 ==> ds == whole.drop_first(),
            start == 0 ==> ds == whole,
            (start == 1) <==> (n > 0 && (whole[0] == 0x2Du8 || whole[0] == 0x2Bu8)),
            neg <==> (n > 0 && whole[0] == 0x2Du8),
            spec_all_digits(ds.subrange(0, i - start)),
            acc as int == spec_digits_value(ds.subrange(0, i - start)),
            acc <= 0x8000_0000_0000_0000u64,
        decreases n - i,
    {
        let c = s[i];
        if c < 0x30 || c > 0x39 {
            proof {
                assert(ds[i - start] == c);
            }
            return None;
        }
        let d = (c - 0x30) as u64;
        proof {
            let pre = ds.subrange(0, i - start + 1);
            assert(pre.drop_last() =~= ds.subrange(0, i - start));
            assert(pre.last() == c);
            assert forall|k: int| 0 <= k < pre.len() implies 0x30 <= #[trigger] pre[k]
                <= 0x39 by {
                if k < pre.len() - 1 {
                    assert(pre[k] == ds.subrange(0, i - start)[k]);
                }
            }
        }
        if acc > 0x0CCC_CCCC_CCCC_CCCCu64 {
            // the next multiplication would pass 2^63; the value cannot fit
            proof {
                let pre = ds.subrange(0, i - start + 1);
                lemma_digits_value_nonneg(pre);
                assert(spec_digits_value(pre) > 0x8000_0000_0000_0000);
                if spec_all_digits(ds) {
                    assert(ds.subrange(0, pre.len() as int) =~= pre);
                    lemma_digits_value_extend(pre, ds);
                }
            }
            return None;
        }
        acc = acc * 10 + d;
        if acc > 0x8000_0000_0000_0000u64 {
            proof {
                let pre = ds.subrange(0, i - start + 1);
                assert(spec_digits_value(pre) == acc as int);
                lemma_digits_value_nonneg(pre);
                if spec_all_digits(ds) {
                    assert(ds.subrange(0, pre.len() as int) =~= pre);
                    lemma_digits_value_extend(pre, ds);
                }
            }
            return None;
        }
        i = i + 1;
    }
    proof {
        assert(ds.subrange(0, n - start) =~= ds);
    }
    if neg {
        if acc == 0x8000_0000_0000_0000u64 {
            Some(i64::MIN)
        } else {
            Some(-(acc as i64))
        }
    } else {
        if acc > i64::MAX as u64 {
            return None;
        }
        Some(acc as i64)
    }
}

/// The decimal text of a number parses back to the same number.
pub proof fn lemma_dec_nat_digits(n: nat)
    ensures
        spec_all_digits(spec_dec_nat(n)),
        spec_digits_value(spec_dec_nat(n)) == n,
        spec_dec_nat(n).len() >= 1,
        spec_dec_nat(n)[0] != 0x2Du8 && spec_dec_nat(n)[0] != 0x2Bu8,
    decreases n,
{
    if n < 10 {
        let s = spec_dec_nat(n);
        assert(s.drop_last() =~= Seq::<u8>::empty());
        assert(spec_digits_value(Seq::<u8>::empty()) == 0);
        assert(spec_digits_value(s) == n);
    } else {
        lemma_dec_nat_digits(n / 10);
        let s = spec_dec_nat(n);
        let a = spec_dec_nat(n / 10);
        let d = (0x30 + n % 10) as u8;
        assert(s == a + seq![d]);
        assert(s.drop_last() =~= a);
        assert(s.last() == d);
        assert(spec_digits_value(s) == spec_digits_value(a) * 10 + (d - 0x30));
        assert(n == (n / 10) * 10 + n % 10) by (nonlinear_arith);
        assert forall|k: int| 0 <= k < s.len() implies 0x30 <= #[trigger] s[k] <= 0x39 by {
            if k < a.len() {
                assert(s[k] == a[k]);
            } else {
                assert(s[k] == d);
            }
        }
        assert(s[0] == a[0]);
    }
}

/// Round trip: `spec_dec_int` followed by `spec_parse_i64` is the identity.
pub proof fn lemma_dec_int_round_trip(n: int)
    requires
        i64::MIN <= n <= i64::MAX,
    ensures
        spec_parse_i64(spec_dec_int(n)) == Some(n),
{
    if n < 0 {
        lemma_dec_nat_digits((-n) as nat);
        let s = spec_dec_int(n);
        assert(s.drop_first() =~= spec_dec_nat((-n) as nat));
    } else {
        lemma_dec_nat_digits(n as nat);
    }
}

/// Hex digit for a value below 16, lowercase.
pub open spec fn spec_hex_digit(n: u8) -> u8 {
    if n < 10 {
        (0x30 + n) as u8
    } else {
        (0x61 + (n - 10)) as u8
    }
}

/// Lowercase hex text of a byte string, two digits per byte.
pub open spec fn spec_hex_bytes(s: Seq<u8>) -> Seq<u8>
    decreases s.len(),
{
    if s.len() == 0 {
        seq![]
    } else {
        seq![spec_hex_digit(s[0] / 16), spec_hex_digit(s[0] % 16)] + spec_hex_bytes(s.drop_first())
    }
}

/// Hex text is twice as long as its bytes.
pub proof fn lemma_hex_bytes_len(s: Seq<u8>)
    ensures
        spec_hex_bytes(s).len() == 2 * s.len(),
    decreases s.len(),
{
    if s.len() > 0 {
        lemma_hex_bytes_len(s.drop_first());
    }
}

/// Appending one byte appends its two hex digits.
pub proof fn lemma_hex_bytes_push(s: Seq<u8>, x: u8)
    ensures
        spec_hex_bytes(s.push(x)) == spec_hex_bytes(s) + seq![
            spec_hex_digit(x / 16),
            spec_hex_digit(x % 16),
        ],
    decreases s.len(),
{
    let p = s.push(x);
    if s.len() == 0 {
        assert(p[0] == x);
        assert(p.drop_first() =~= Seq::<u8>::empty());
        assert(spec_hex_bytes(p) == seq![spec_hex_digit(x / 16), spec_hex_digit(x % 16)]
            + spec_hex_bytes(p.drop_first()));
        assert(spec_hex_bytes(p) =~= spec_hex_bytes(s) + seq![
            spec_hex_digit(x / 16),
            spec_hex_digit(x % 16),
        ]);
    } else {
        assert(p[0] == s[0]);
        assert(p.drop_first() =~= s.drop_first().push(x));
        lemma_hex_bytes_push(s.drop_first(), x);
        assert(spec_hex_bytes(p) == seq![spec_hex_digit(s[0] / 16), spec_hex_digit(s[0] % 16)]
            + spec_hex_bytes(p.drop_first()));
        assert(spec_hex_bytes(p) =~= spec_hex_bytes(s) + seq![
            spec_hex_digit(x / 16),
            spec_hex_digit(x % 16),
        ]);
    }
}

/// Encode bytes as lowercase hex digits.
pub fn hex_encode_bytes(v: &[u8]) -> (r: Vec<u8>)
    ensures
        r@ == spec_hex_bytes(v@),
{
    let mut out: Vec<u8> = Vec::new();
    let mut i: usize = 0;
    proof {
        assert(v@.subrange(0, 0) =~= Seq::<u8>::empty());
    }
    while i < v.len()
        invariant
            i <= v.len(),
            out@ == spec_hex_bytes(v@.subrange(0, i as int)),
        decreases v.len() - i,
    {
        let b = v[i];
        let hi = b / 16;
        let lo = b % 16;
        out.push(if hi < 10 {
            (0x30 + hi) as u8
        } else {
            (0x61 + (hi - 10)) as u8
        });
        out.push(if lo < 10 {
            (0x30 + lo) as u8
        } else {
            (0x61 + (lo - 10)) as u8
        });
        proof {
            assert(v@.subrange(0, i + 1) =~= v@.subrange(0, i as int).push(b));
            lemma_hex_bytes_push(v@.subrange(0, i as int), b);
        }
        i = i + 1;
    }
    proof {
        assert(v@.subrange(0, v@.len() as int) =~= v@);
    }
    out
}

/// Value of one hex digit, accepting both cases; `None` for other bytes.
pub open spec fn spec_hex_val(c: u8) -> Option<u8> {
    if 0x30 <= c <= 0x39 {
        Some((c - 0x30) as u8)
    } else if 0x61 <= c <= 0x66 {
        Some((c - 0x61 + 10) as u8)
    } else if 0x41 <= c <= 0x46 {
        Some((c - 0x41 + 10) as u8)
    } else {
        None
    }
}

/// Decode hex text: pairs of digits, either case; `None` on odd length or a
/// byte that is no hex digit.
pub open spec fn spec_parse_hex(s: Seq<u8>) -> Option<Seq<u8>>
    decreases s.len(),
{
    if s.len() == 0 {
        Some(seq![])
    } else if s.len() == 1 {
        None
    } else {
        match (spec_hex_val(s[0]), spec_hex_val(s[1])) {
            (Some(hi), Some(lo)) => match spec_parse_hex(s.subrange(2, s.len() as int)) {
                Some(rest) => Some(seq![(hi * 16 + lo) as u8] + rest),
                None => None,
            },
            _ => None,
        }
    }
}

/// Decode hex text to bytes, as `hex::decode` would.
pub fn hex_decode_bytes(v: &[u8]) -> (r: Option<Vec<u8>>)
    ensures
        match r {
            Some(b) => spec_parse_hex(v@) == Some(b@),
            None => spec_parse_hex(v@) is None,
        },
{
    let n = v.len();
    if n % 2 != 0 {
        proof {
            lemma_parse_hex_odd(v@);
        }
        return None;
    }
    let mut out: Vec<u8> = Vec::new();
    let mut i: usize = 0;
    proof {
        assert(v@.subrange(0, n as int) =~= v@);
        if spec_parse_hex(v@) is Some {
            let rest = spec_parse_hex(v@)->Some_0;
            assert(Seq::<u8>::empty() + rest =~= rest);
        }
    }
    while i < n
        invariant
            i <= n,
            n == v@.len(),
            i % 2 == 0,
            n % 2 == 0,
            spec_parse_hex(v@) is Some <==> spec_parse_hex(v@.subrange(i as int, n as int))
                is Some,
            spec_parse_hex(v@.subrange(i as int, n as int)) matches Some(rest)
                ==> spec_parse_hex(v@) == Some(out@ + rest),
        decreases n - i,
    {
        let c0 = v[i];
        let c1 = v[i + 1];
        let h0 = hex_val(c0);
        let h1 = hex_val(c1);
        proof {
            let rest = v@.subrange(i as int, n as int);
            assert(rest[0] == c0 && rest[1] == c1);
            assert(rest.subrange(2, rest.len() as int) =~= v@.subrange(i + 2, n as int));
        }
        match (h0, h1) {
            (Some(hi), Some(lo)) => {
                let ghost prev = out@;
                out.push(hi * 16 + lo);
                proof {
                    let rest = v@.subrange(i as int, n as int);
                    let tail = v@.subrange(i + 2, n as int);
                    if spec_parse_hex(tail) is Some {
                        let t = spec_parse_hex(tail)->Some_0;
                        assert(spec_parse_hex(rest) == Some(seq![(hi * 16 + lo) as u8] + t));
                        assert(out@ + t =~= prev + (seq![(hi * 16 + lo) as u8] + t));
                    }
                }
                i = i + 2;
            },
            _ => {
                return None;
            },
        }
    }
    proof {
        assert(v@.subrange(n as int, n as int) =~= Seq::<u8>::empty());
    }
    Some(out)
}

/// Odd-length hex text never parses.
proof fn lemma_parse_hex_odd(s: Seq<u8>)
    requires
        s.len() % 2 == 1,
    ensures
        spec_parse_hex(s) is None,
    decreases s.len(),
{
    if s.len() > 1 {
        lemma_parse_hex_odd(s.subrange(2, s.len() as int));
    }
}

/// Executable hex-digit value.
pub fn hex_val(c: u8) -> (r: Option<u8>)
    ensures
        r == spec_hex_val(c),
{
    if 0x30 <= c && c <= 0x39 {
        Some(c - 0x30)
    } else if 0x61 <= c && c <= 0x66 {
        Some(c - 0x61 + 10)
    } else if 0x41 <= c && c <= 0x46 {
        Some(c - 0x41 + 10)
    } else {
        None
    }
}

/// Hex encoding decodes back to the original bytes.
pub proof fn lemma_hex_round_trip(t: Seq<u8>)
    ensures
        spec_parse_hex(spec_hex_bytes(t)) == Some(t),
    decreases t.len(),
{
    if t.len() == 0 {
    } else {
        let s = spec_hex_bytes(t);
        assert(s.subrange(2, s.len() as int) =~= spec_hex_bytes(t.drop_first()));
        lemma_hex_round_trip(t.drop_first());
        assert(spec_hex_val(spec_hex_digit(t[0] / 16)) == Some((t[0] / 16) as u8));
        assert(spec_hex_val(spec_hex_digit(t[0] % 16)) == Some((t[0] % 16) as u8));
        assert(seq![t[0]] + t.drop_first() =~= t);
    }
}

/// Find the first occurrence of a byte.
pub fn find_byte(s: &[u8], b: u8) -> (r: Option<usize>)
    ensures
        match r {
            Some(i) => i < s@.len() && s@[i as int] == b && forall|j: int|
                0 <= j < i ==> s@[j] != b,
            None => forall|j: int| 0 <= j < s@.len() ==> s@[j] != b,
        },
{
    let mut i: usize = 0;
    while i < s.len()
        invariant
            i <= s@.len(),
            forall|j: int| 0 <= j < i ==> s@[j] != b,
        decreases s.len() - i,
    {
        if s[i] == b {
            return Some(i);
        }
        i = i + 1;
    }
    None
}

/// Copy the bytes `v[i..j]` into a fresh vector.
pub fn copy_subrange(v: &[u8], i: usize, j: usize) -> (r: Vec<u8>)
    requires
        i <= j <= v@.len(),
    ensures
        r@ == v@.subrange(i as int, j as int),
{
    let s = vstd::slice::slice_subrange(v, i, j);
    vstd::slice::slice_to_vec(s)
}

/// Copy the characters `v[i..j]` into a fresh vector.
pub fn copy_subrange_chars(v: &[char], i: usize, j: usize) -> (r: Vec<char>)
    requires
        i <= j <= v@.len(),
    ensures
        r@ == v@.subrange(i as int, j as int),
{
    let s = vstd::slice::slice_subrange(v, i, j);
    vstd::slice::slice_to_vec(s)
}

/// Compare two strings by their text.
pub fn str_eq(a: &str, b: &str) -> (r: bool)
    ensures
        r == (a@ == b@),
{
    let r = bytes_eq(a.as_bytes(), b.as_bytes());
    proof {
        if a.spec_bytes() == b.spec_bytes() {
            vstd::utf8::encode_utf8_decode_utf8(a@);
            vstd::utf8::encode_utf8_decode_utf8(b@);
        }
    }
    r
}

/// Compare two byte strings.
pub fn bytes_eq(a: &[u8], b: &[u8]) -> (r: bool)
    ensures
        r == (a@ == b@),
{
    if a.len() != b.len() {
        return false;
    }
    let mut i: usize = 0;
    while i < a.len()
        invariant
            i <= a@.len(),
            a@.len() == b@.len(),
            forall|j: int| 0 <= j < i ==> a@[j] == b@[j],
        decreases a.len() - i,
    {
        if a[i] != b[i] {
            return false;
        }
        i = i + 1;
    }
    proof {
        assert(a@ =~= b@);
    }
    true
}

} // verus!
