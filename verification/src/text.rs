//! ASCII text: decimal and hexadecimal numbers, fields split on a separator, and tokens
//! separated by whitespace.
use vstd::prelude::*;

verus! {

// ---------------------------------------------------------------- decimal numbers

pub open spec fn is_digit(b: u8) -> bool {
    48 <= b <= 57
}

pub open spec fn all_digits(s: Seq<u8>) -> bool {
    forall|i: int| 0 <= i < s.len() ==> is_digit(#[trigger] s[i])
}

/// The number written by the decimal digits `s` (most significant first).
pub open spec fn digits_value(s: Seq<u8>) -> nat
    decreases s.len(),
{
    if s.len() == 0 {
        0
    } else {
        digits_value(s.drop_last()) * 10 + (s.last() - 48) as nat
    }
}

/// `s` without one leading `+`.
pub open spec fn strip_plus(s: Seq<u8>) -> Seq<u8> {
    if s.len() > 0 && s[0] == 43 {
        s.drop_first()
    } else {
        s
    }
}

/// An unsigned integer at most `max` written in decimal, as Rust's integer parsing reads it:
/// an optional `+`, then one or more ASCII digits and nothing else.
pub open spec fn parse_uint_text(s: Seq<u8>, max: nat) -> Option<nat> {
    let t = strip_plus(s);
    if t.len() > 0 && all_digits(t) && digits_value(t) <= max {
        Some(digits_value(t))
    } else {
        None
    }
}

/// The shortest decimal text of `n`.
pub open spec fn decimal_text(n: nat) -> Seq<u8>
    decreases n,
{
    if n < 10 {
        seq![(48 + n) as u8]
    } else {
        decimal_text(n / 10).push((48 + n % 10) as u8)
    }
}

pub proof fn lemma_digits_value_push(s: Seq<u8>, d: u8)
    ensures
        digits_value(s.push(d)) == digits_value(s) * 10 + (d - 48) as nat,
{
    assert(s.push(d).drop_last() =~= s);
}

/// A prefix of a digit string never writes a larger number.
pub proof fn lemma_digits_value_prefix(s: Seq<u8>, k: int)
    requires
        all_digits(s),
        0 <= k <= s.len(),
    ensures
        digits_value(s.take(k)) <= digits_value(s),
    decreases s.len(),
{
    if k < s.len() {
        assert(s.drop_last().take(k) =~= s.take(k));
        lemma_digits_value_prefix(s.drop_last(), k);
        assert(all_digits(s.drop_last())) by {
            assert forall|i: int| 0 <= i < s.drop_last().len() implies is_digit(#[trigger] s.drop_last()[i]) by {
                assert(s.drop_last()[i] == s[i]);
            }
        }
    } else {
        assert(s.take(k) =~= s);
    }
}

pub proof fn lemma_decimal_text(n: nat)
    ensures
        decimal_text(n).len() > 0,
        all_digits(decimal_text(n)),
        digits_value(decimal_text(n)) == n,
        n > 0 ==> decimal_text(n)[0] != 48,
        n < 10 ==> decimal_text(n).len() == 1,
        n < 100 ==> decimal_text(n).len() <= 2,
        n < 1000 ==> decimal_text(n).len() <= 3,
    decreases n,
{
    if n < 10 {
        lemma_digits_value_push(Seq::empty(), (48 + n) as u8);
        assert(seq![(48 + n) as u8] =~= Seq::<u8>::empty().push((48 + n) as u8));
    } else {
        lemma_decimal_text(n / 10);
        lemma_digits_value_push(decimal_text(n / 10), (48 + n % 10) as u8);
        let t = decimal_text(n);
        assert forall|i: int| 0 <= i < t.len() implies is_digit(#[trigger] t[i]) by {
            if i < t.len() - 1 {
                assert(t[i] == decimal_text(n / 10)[i]);
            }
        }
        assert(t[0] == decimal_text(n / 10)[0]);
    }
}

/// Parsing the decimal text of a number gives back the number.
pub proof fn lemma_parse_decimal_text(n: nat, max: nat)
    requires
        n <= max,
    ensures
        parse_uint_text(decimal_text(n), max) == Some(n),
{
    lemma_decimal_text(n);
    assert(strip_plus(decimal_text(n)) == decimal_text(n));
}

/// Appends the decimal text of `n`.
pub fn push_decimal(out: &mut Vec<u8>, n: u64)
    ensures
        final(out)@ == old(out)@ + decimal_text(n as nat),
    decreases n,
{
    if n >= 10 {
        push_decimal(out, n / 10);
    }
    out.push(48 + (n % 10) as u8);
    proof {
        if n >= 10 {
            assert(final(out)@ =~= old(out)@ + decimal_text(n as nat));
        } else {
            assert(final(out)@ =~= old(out)@ + decimal_text(n as nat));
        }
    }
}

/// Reads `bytes[start..end]` as an unsigned decimal integer at most `max`.
pub fn parse_uint(bytes: &[u8], start: usize, end: usize, max: u64) -> (r: Option<u64>)
    requires
        start <= end <= bytes@.len(),
    ensures
        match parse_uint_text(bytes@.subrange(start as int, end as int), max as nat) {
            Some(v) => r == Some(v as u64),
            None => r is None,
        },
{
    let ghost s = bytes@.subrange(start as int, end as int);
    let mut i = start;
    if i < end && bytes[i] == 43 {
        i = i + 1;
    }
    let first = i;
    let ghost t = strip_plus(s);
    assert(t =~= bytes@.subrange(first as int, end as int));
    if first == end {
        return None;
    }
    let mut v: u64 = 0;
    while i < end
        invariant
            first <= i <= end <= bytes@.len(),
            t == bytes@.subrange(first as int, end as int),
            t == strip_plus(s),
            s == bytes@.subrange(start as int, end as int),
            all_digits(t.take(i as int - first as int)),
            v as nat == digits_value(t.take(i as int - first as int)),
            v <= max,
        decreases end - i,
    {
        let b = bytes[i];
        let ghost k = i as int - first as int;
        if !(48 <= b && b <= 57) {
            assert(t[k] == b);
            assert(!is_digit(t[k]));
            assert(!all_digits(t));
            return None;
        }
        let nv: u128 = (v as u128) * 10 + ((b - 48) as u128);
        assert(t.take(k + 1) =~= t.take(k).push(b));
        proof {
            lemma_digits_value_push(t.take(k), b);
        }
        assert(all_digits(t.take(k + 1))) by {
            assert forall|j: int| 0 <= j < k + 1 implies is_digit(#[trigger] t.take(k + 1)[j]) by {
                if j < k {
                    assert(t.take(k + 1)[j] == t.take(k)[j]);
                }
            }
        }
        if nv > max as u128 {
            assert(digits_value(t.take(k + 1)) > max);
            proof {
                if all_digits(t) {
                    lemma_digits_value_prefix(t, k + 1);
                }
            }
            return None;
        }
        v = nv as u64;
        i = i + 1;
    }
    assert(t.take(end as int - first as int) =~= t);
    Some(v)
}

// ---------------------------------------------------------------- hexadecimal numbers

/// The value of hexadecimal digit `b` (either case), if it is one.
pub open spec fn hex_digit_value(b: u8) -> Option<nat> {
    if 48 <= b <= 57 {
        Some((b - 48) as nat)
    } else if 97 <= b <= 102 {
        Some((b - 87) as nat)
    } else if 65 <= b <= 70 {
        Some((b - 55) as nat)
    } else {
        None
    }
}

pub open spec fn all_hex(s: Seq<u8>) -> bool {
    forall|i: int| 0 <= i < s.len() ==> (#[trigger] hex_digit_value(s[i])) is Some
}

/// The number written by the hexadecimal digits `s`.
pub open spec fn hex_value(s: Seq<u8>) -> nat
    decreases s.len(),
{
    if s.len() == 0 {
        0
    } else {
        hex_value(s.drop_last()) * 16 + hex_digit_value(s.last())->0
    }
}

/// A byte written in hexadecimal, as Rust's radix-16 parsing reads it: an optional `+`,
/// then one or more hexadecimal digits of either case, with a value below 256.
pub open spec fn parse_hex_u8_text(s: Seq<u8>) -> Option<u8> {
    let t = strip_plus(s);
    if t.len() > 0 && all_hex(t) && hex_value(t) <= 255 {
        Some(hex_value(t) as u8)
    } else {
        None
    }
}

/// The lowercase hexadecimal digit for `d < 16`.
pub open spec fn hex_char(d: nat) -> u8 {
    if d < 10 {
        (48 + d) as u8
    } else {
        (87 + d) as u8
    }
}

/// `b` as two lowercase hexadecimal digits.
pub open spec fn hex2_text(b: u8) -> Seq<u8> {
    seq![hex_char((b / 16) as nat), hex_char((b % 16) as nat)]
}

/// Parsing the two-digit text of a byte gives back the byte.
pub proof fn lemma_parse_hex2_text(b: u8)
    ensures
        parse_hex_u8_text(hex2_text(b)) == Some(b),
{
    let s = hex2_text(b);
    let hi = (b / 16) as nat;
    let lo = (b % 16) as nat;
    assert(hex_digit_value(hex_char(hi)) == Some(hi));
    assert(hex_digit_value(hex_char(lo)) == Some(lo));
    assert(strip_plus(s) == s);
    assert(s.drop_last() =~= seq![hex_char((b / 16) as nat)]);
    assert(s.drop_last().drop_last() =~= Seq::<u8>::empty());
    assert(all_hex(s)) by {
        assert forall|i: int| 0 <= i < s.len() implies (#[trigger] hex_digit_value(s[i])) is Some by {}
    }
    let one = s.drop_last();
    assert(one.drop_last() =~= Seq::<u8>::empty());
    assert(hex_value(one.drop_last()) == 0);
    assert(one.last() == hex_char(hi));
    assert(hex_value(one) == hi);
    assert(hex_value(s) == hi * 16 + lo);
}

/// Appends `b` as two lowercase hexadecimal digits.
pub fn push_hex2(out: &mut Vec<u8>, b: u8)
    ensures
        final(out)@ == old(out)@ + hex2_text(b),
{
    let hi = b / 16;
    let lo = b % 16;
    out.push(if hi < 10 { 48 + hi } else { 87 + hi });
    out.push(if lo < 10 { 48 + lo } else { 87 + lo });
    assert(final(out)@ =~= old(out)@ + hex2_text(b));
}

/// Reads `bytes[start..end]` as a byte written in hexadecimal.
pub fn parse_hex_u8(bytes: &[u8], start: usize, end: usize) -> (r: Option<u8>)
    requires
        start <= end <= bytes@.len(),
    ensures
        r == parse_hex_u8_text(bytes@.subrange(start as int, end as int)),
{
    let ghost s = bytes@.subrange(start as int, end as int);
    let mut i = start;
    if i < end && bytes[i] == 43 {
        i = i + 1;
    }
    let first = i;
    let ghost t = strip_plus(s);
    assert(t =~= bytes@.subrange(first as int, end as int));
    if first == end {
        return None;
    }
    let mut v: u32 = 0;
    while i < end
        invariant
            first <= i <= end <= bytes@.len(),
            t == bytes@.subrange(first as int, end as int),
            t == strip_plus(s),
            s == bytes@.subrange(start as int, end as int),
            all_hex(t.take(i as int - first as int)),
            v as nat == hex_value(t.take(i as int - first as int)),
            v <= 255,
        decreases end - i,
    {
        let b = bytes[i];
        let ghost k = i as int - first as int;
        let d: u32 = if 48 <= b && b <= 57 {
            (b - 48) as u32
        } else if 97 <= b && b <= 102 {
            (b - 87) as u32
        } else if 65 <= b && b <= 70 {
            (b - 55) as u32
        } else {
            assert(t[k] == b);
            assert(hex_digit_value(t[k]) is None);
            assert(!all_hex(t));
            return None;
        };
        let nv = v * 16 + d;
        assert(t.take(k + 1) =~= t.take(k).push(b));
        assert(t.take(k + 1).drop_last() =~= t.take(k));
        assert(all_hex(t.take(k + 1))) by {
            assert forall|j: int| 0 <= j < k + 1 implies (#[trigger] hex_digit_value(t.take(k + 1)[j])) is Some by {
                if j < k {
                    assert(t.take(k + 1)[j] == t.take(k)[j]);
                }
            }
        }
        if nv > 255 {
            assert(hex_value(t.take(k + 1)) > 255);
            proof {
                if all_hex(t) {
                    lemma_hex_value_prefix(t, k + 1);
                }
            }
            return None;
        }
        v = nv;
        i = i + 1;
    }
    assert(t.take(end as int - first as int) =~= t);
    Some(v as u8)
}

pub proof fn lemma_hex_value_prefix(s: Seq<u8>, k: int)
    requires
        all_hex(s),
        0 <= k <= s.len(),
    ensures
        hex_value(s.take(k)) <= hex_value(s),
    decreases s.len(),
{
    if k < s.len() {
        assert(s.drop_last().take(k) =~= s.take(k));
        assert(all_hex(s.drop_last())) by {
            assert forall|i: int| 0 <= i < s.drop_last().len() implies (#[trigger] hex_digit_value(s.drop_last()[i])) is Some by {
                assert(s.drop_last()[i] == s[i]);
            }
        }
        lemma_hex_value_prefix(s.drop_last(), k);
    } else {
        assert(s.take(k) =~= s);
    }
}

// ---------------------------------------------------------------- fields split on a separator

/// The fields of `s` between occurrences of byte `c`, as `str::split` gives them: there is
/// always at least one field, and fields may be empty.
pub open spec fn split_on(s: Seq<u8>, c: u8) -> Seq<Seq<u8>>
    decreases s.len(),
{
    if s.len() == 0 {
        seq![Seq::<u8>::empty()]
    } else {
        let p = split_on(s.drop_last(), c);
        if s.last() == c {
            p.push(Seq::<u8>::empty())
        } else {
            p.update(p.len() - 1, p.last().push(s.last()))
        }
    }
}

pub proof fn lemma_split_on_len(s: Seq<u8>, c: u8)
    ensures
        split_on(s, c).len() >= 1,
    decreases s.len(),
{
    if s.len() > 0 {
        lemma_split_on_len(s.drop_last(), c);
    }
}

/// Fields of a text without the separator: just the text.
pub proof fn lemma_split_on_plain(s: Seq<u8>, c: u8)
    requires
        forall|i: int| 0 <= i < s.len() ==> s[i] != c,
    ensures
        split_on(s, c) == seq![s],
    decreases s.len(),
{
    if s.len() > 0 {
        lemma_split_on_plain(s.drop_last(), c);
        assert(s.drop_last().push(s.last()) =~= s);
        assert(split_on(s, c) =~= seq![s]);
    } else {
        assert(s =~= Seq::<u8>::empty());
    }
}

/// Splitting `p ++ [c] ++ q` gives the fields of `p` followed by the fields of `q`.
pub proof fn lemma_split_on_concat(p: Seq<u8>, q: Seq<u8>, c: u8)
    ensures
        split_on(p + seq![c] + q, c) == split_on(p, c) + split_on(q, c),
    decreases q.len(),
{
    lemma_split_on_len(p, c);
    if q.len() == 0 {
        let s = p + seq![c];
        assert(s.drop_last() =~= p);
        assert(p + seq![c] + q =~= s);
        assert(split_on(q, c) =~= seq![Seq::<u8>::empty()]);
        assert(split_on(s, c) =~= split_on(p, c) + split_on(q, c));
    } else {
        let s = p + seq![c] + q;
        lemma_split_on_concat(p, q.drop_last(), c);
        assert(s.drop_last() =~= p + seq![c] + q.drop_last());
        assert(s.last() == q.last());
        lemma_split_on_len(q.drop_last(), c);
        let a = split_on(p, c);
        let b = split_on(q.drop_last(), c);
        if q.last() == c {
            assert(split_on(s, c) =~= a + b.push(Seq::<u8>::empty()));
        } else {
            assert((a + b).update((a + b).len() - 1, (a + b).last().push(q.last())) =~= a + b.update(b.len() - 1, b.last().push(q.last())));
        }
    }
}

/// Computes the field boundaries of `bytes` split on `c`, as (start, end) pairs.
pub fn split_ranges(bytes: &[u8], c: u8) -> (r: Vec<(usize, usize)>)
    ensures
        r@.len() == split_on(bytes@, c).len(),
        forall|j: int| 0 <= j < r@.len() ==> {
            &&& (#[trigger] r@[j]).0 <= r@[j].1 <= bytes@.len()
            &&& bytes@.subrange(r@[j].0 as int, r@[j].1 as int) == split_on(bytes@, c)[j]
        },
{
    let mut r: Vec<(usize, usize)> = Vec::new();
    let mut start: usize = 0;
    let mut i: usize = 0;
    while i < bytes.len()
        invariant
            i <= bytes@.len(),
            start <= i,
            r@.len() + 1 == split_on(bytes@.take(i as int), c).len(),
            forall|j: int| 0 <= j < r@.len() ==> {
                &&& (#[trigger] r@[j]).0 <= r@[j].1 <= bytes@.len()
                &&& bytes@.subrange(r@[j].0 as int, r@[j].1 as int) == split_on(bytes@.take(i as int), c)[j]
            },
            bytes@.subrange(start as int, i as int) == split_on(bytes@.take(i as int), c).last(),
        decreases bytes@.len() - i,
    {
        proof {
            lemma_split_on_len(bytes@.take(i as int), c);
            assert(bytes@.take(i + 1).drop_last() =~= bytes@.take(i as int));
            assert(bytes@.take(i + 1).last() == bytes@[i as int]);
        }
        if bytes[i] == c {
            r.push((start, i));
            start = i + 1;
            assert(bytes@.subrange(start as int, i + 1) =~= Seq::<u8>::empty());
        } else {
            assert(bytes@.subrange(start as int, i + 1) =~= bytes@.subrange(start as int, i as int).push(bytes@[i as int]));
        }
        i = i + 1;
    }
    r.push((start, i));
    assert(bytes@.take(i as int) =~= bytes@);
    r
}

// ---------------------------------------------------------------- IPv4 and MAC text

/// One octet of a dotted IPv4 address as Rust's address parser reads it: one to three
/// ASCII digits, no leading zero unless the octet is `0`, value at most 255.
pub open spec fn octet_text_value(t: Seq<u8>) -> Option<u8> {
    if 1 <= t.len() <= 3 && all_digits(t) && (t.len() == 1 || t[0] != 48) && digits_value(t) <= 255 {
        Some(digits_value(t) as u8)
    } else {
        None
    }
}

/// The dotted-decimal text of an address `a.b.c.d`.
pub open spec fn ipv4_text(a: u8, b: u8, c: u8, d: u8) -> Seq<u8> {
    decimal_text(a as nat) + seq![46u8] + decimal_text(b as nat) + seq![46u8] + decimal_text(c as nat) + seq![46u8] + decimal_text(d as nat)
}

/// The four octets of a dotted-decimal IPv4 address, if `s` is one.
pub open spec fn parse_ipv4_text(s: Seq<u8>) -> Option<(u8, u8, u8, u8)> {
    let f = split_on(s, 46);
    if f.len() == 4 && octet_text_value(f[0]) is Some && octet_text_value(f[1]) is Some && octet_text_value(f[2]) is Some
        && octet_text_value(f[3]) is Some {
        Some((octet_text_value(f[0])->0, octet_text_value(f[1])->0, octet_text_value(f[2])->0, octet_text_value(f[3])->0))
    } else {
        None
    }
}

pub proof fn lemma_octet_text(n: u8)
    ensures
        octet_text_value(decimal_text(n as nat)) == Some(n),
        forall|i: int| 0 <= i < decimal_text(n as nat).len() ==> is_digit(#[trigger] decimal_text(n as nat)[i]),
{
    lemma_decimal_text(n as nat);
}

/// Parsing the dotted-decimal text of an address gives back its octets.
pub proof fn lemma_parse_ipv4_text(a: u8, b: u8, c: u8, d: u8)
    ensures
        parse_ipv4_text(ipv4_text(a, b, c, d)) == Some((a, b, c, d)),
{
    let (ta, tb, tc, td) = (decimal_text(a as nat), decimal_text(b as nat), decimal_text(c as nat), decimal_text(d as nat));
    lemma_octet_text(a);
    lemma_octet_text(b);
    lemma_octet_text(c);
    lemma_octet_text(d);
    lemma_split_on_plain(ta, 46);
    lemma_split_on_plain(tb, 46);
    lemma_split_on_plain(tc, 46);
    lemma_split_on_plain(td, 46);
    lemma_split_on_concat(ta, tb, 46);
    lemma_split_on_concat(ta + seq![46u8] + tb, tc, 46);
    lemma_split_on_concat(ta + seq![46u8] + tb + seq![46u8] + tc, td, 46);
    assert(split_on(ipv4_text(a, b, c, d), 46) =~= seq![ta, tb, tc, td]);
}

/// Appends the dotted-decimal text of `a.b.c.d`.
pub fn push_ipv4_text(out: &mut Vec<u8>, a: u8, b: u8, c: u8, d: u8)
    ensures
        final(out)@ == old(out)@ + ipv4_text(a, b, c, d),
{
    push_decimal(out, a as u64);
    out.push(46);
    push_decimal(out, b as u64);
    out.push(46);
    push_decimal(out, c as u64);
    out.push(46);
    push_decimal(out, d as u64);
    assert(final(out)@ =~= old(out)@ + ipv4_text(a, b, c, d));
}

/// Reads `bytes[start..end]` as one octet of a dotted-decimal address.
pub fn parse_octet(bytes: &[u8], start: usize, end: usize) -> (r: Option<u8>)
    requires
        start <= end <= bytes@.len(),
    ensures
        r == octet_text_value(bytes@.subrange(start as int, end as int)),
{
    let ghost t = bytes@.subrange(start as int, end as int);
    let len = end - start;
    if len < 1 || len > 3 {
        return None;
    }
    if len > 1 && bytes[start] == 48 {
        return None;
    }
    if bytes[start] == 43 {
        assert(t[0] == 43);
        assert(!is_digit(t[0]));
        return None;
    }
    assert(strip_plus(t) == t);
    match parse_uint(bytes, start, end, 255) {
        Some(v) => Some(v as u8),
        None => None,
    }
}

/// Reads `bytes[start..end]` as a dotted-decimal IPv4 address.
pub fn parse_ipv4(bytes: &[u8], start: usize, end: usize) -> (r: Option<(u8, u8, u8, u8)>)
    requires
        start <= end <= bytes@.len(),
    ensures
        r == parse_ipv4_text(bytes@.subrange(start as int, end as int)),
{
    let sub = slice_range(bytes, start, end);
    let f = split_ranges(sub, 46);
    if f.len() != 4 {
        return None;
    }
    let a = parse_octet(sub, f[0].0, f[0].1);
    let b = parse_octet(sub, f[1].0, f[1].1);
    let c = parse_octet(sub, f[2].0, f[2].1);
    let d = parse_octet(sub, f[3].0, f[3].1);
    match (a, b, c, d) {
        (Some(a), Some(b), Some(c), Some(d)) => Some((a, b, c, d)),
        _ => None,
    }
}

/// The colon-separated lowercase hexadecimal text of a hardware address.
pub open spec fn mac_text(o: Seq<u8>) -> Seq<u8> {
    hex2_text(o[0]) + seq![58u8] + hex2_text(o[1]) + seq![58u8] + hex2_text(o[2]) + seq![58u8] + hex2_text(o[3])
        + seq![58u8] + hex2_text(o[4]) + seq![58u8] + hex2_text(o[5])
}

/// The six octets of a hardware address written as six colon-separated hexadecimal
/// bytes, as the library's address parser reads it.
pub open spec fn parse_mac_text(s: Seq<u8>) -> Option<Seq<u8>> {
    let f = split_on(s, 58);
    if f.len() == 6 && (forall|i: int| 0 <= i < 6 ==> (#[trigger] parse_hex_u8_text(f[i])) is Some) {
        Some(Seq::new(6, |i: int| parse_hex_u8_text(f[i])->0))
    } else {
        None
    }
}

/// Parsing the text of a hardware address gives back its octets.
pub proof fn lemma_parse_mac_text(o: Seq<u8>)
    requires
        o.len() == 6,
    ensures
        parse_mac_text(mac_text(o)) == Some(o),
{
    let h = |i: int| hex2_text(o[i]);
    assert forall|i: int| 0 <= i < 6 implies parse_hex_u8_text(#[trigger] hex2_text(o[i])) == Some(o[i]) by {
        lemma_parse_hex2_text(o[i]);
    }
    assert forall|i: int| 0 <= i < 6 implies split_on(#[trigger] hex2_text(o[i]), 58) == seq![hex2_text(o[i])] by {
        let t = hex2_text(o[i]);
        assert(t[0] != 58u8 && t[1] != 58u8);
        lemma_split_on_plain(t, 58);
    }
    let (t0, t1, t2, t3, t4, t5) = (hex2_text(o[0]), hex2_text(o[1]), hex2_text(o[2]), hex2_text(o[3]), hex2_text(o[4]), hex2_text(o[5]));
    let c = seq![58u8];
    lemma_split_on_concat(t0, t1, 58);
    lemma_split_on_concat(t0 + c + t1, t2, 58);
    lemma_split_on_concat(t0 + c + t1 + c + t2, t3, 58);
    lemma_split_on_concat(t0 + c + t1 + c + t2 + c + t3, t4, 58);
    lemma_split_on_concat(t0 + c + t1 + c + t2 + c + t3 + c + t4, t5, 58);
    let f = split_on(mac_text(o), 58);
    assert(f =~= seq![t0, t1, t2, t3, t4, t5]);
    assert(Seq::new(6, |i: int| parse_hex_u8_text(f[i])->0) =~= o);
}

/// Appends the text of the hardware address with octets `o`.
pub fn push_mac_text(out: &mut Vec<u8>, o: [u8; 6])
    ensures
        final(out)@ == old(out)@ + mac_text(o@),
{
    push_hex2(out, o[0]);
    out.push(58);
    push_hex2(out, o[1]);
    out.push(58);
    push_hex2(out, o[2]);
    out.push(58);
    push_hex2(out, o[3]);
    out.push(58);
    push_hex2(out, o[4]);
    out.push(58);
    push_hex2(out, o[5]);
    assert(final(out)@ =~= old(out)@ + mac_text(o@));
}

/// Reads `bytes[start..end]` as the text of a hardware address.
pub fn parse_mac(bytes: &[u8], start: usize, end: usize) -> (r: Option<[u8; 6]>)
    requires
        start <= end <= bytes@.len(),
    ensures
        match r {
            Some(o) => parse_mac_text(bytes@.subrange(start as int, end as int)) == Some(o@),
            None => parse_mac_text(bytes@.subrange(start as int, end as int)) is None,
        },
{
    let sub = slice_range(bytes, start, end);
    let f = split_ranges(sub, 58);
    if f.len() != 6 {
        return None;
    }
    let ghost fs = split_on(sub@, 58);
    let mut o: [u8; 6] = [0; 6];
    let mut i: usize = 0;
    while i < 6
        invariant
            f@.len() == 6,
            sub@ == bytes@.subrange(start as int, end as int),
            fs == split_on(sub@, 58),
            fs.len() == 6,
            i <= 6,
            forall|j: int| 0 <= j < 6 ==> {
                &&& (#[trigger] f@[j]).0 <= f@[j].1 <= sub@.len()
                &&& sub@.subrange(f@[j].0 as int, f@[j].1 as int) == fs[j]
            },
            forall|j: int| 0 <= j < i ==> parse_hex_u8_text(fs[j]) == Some(#[trigger] o@[j]),
        decreases 6 - i,
    {
        match parse_hex_u8(sub, f[i].0, f[i].1) {
            Some(v) => {
                o[i] = v;
            },
            None => {
                assert(parse_hex_u8_text(fs[i as int]) is None);
                assert(!(forall|j: int| 0 <= j < 6 ==> (#[trigger] parse_hex_u8_text(fs[j])) is Some));
                return None;
            },
        }
        i = i + 1;
    }
    assert(forall|j: int| 0 <= j < 6 ==> (#[trigger] parse_hex_u8_text(fs[j])) is Some) by {
        assert forall|j: int| 0 <= j < 6 implies (#[trigger] parse_hex_u8_text(fs[j])) is Some by {
            assert(parse_hex_u8_text(fs[j]) == Some(o@[j]));
        }
    }
    assert(Seq::new(6, |j: int| parse_hex_u8_text(fs[j])->0) =~= o@);
    Some(o)
}

/// The subslice `bytes[start..end]`.
pub fn slice_range(bytes: &[u8], start: usize, end: usize) -> (r: &[u8])
    requires
        start <= end <= bytes@.len(),
    ensures
        r@ == bytes@.subrange(start as int, end as int),
{
    vstd::slice::slice_subrange(bytes, start, end)
}

// ---------------------------------------------------------------- whitespace-separated tokens

/// The length of the whitespace character at the start of UTF-8 text `s`, or 0 when it does
/// not start with one. The characters are those Rust's `char::is_whitespace` accepts:
/// U+0009..U+000D, U+0020, U+0085, U+00A0, U+1680, U+2000..U+200A, U+2028, U+2029, U+202F,
/// U+205F and U+3000.
pub open spec fn ws_len(s: Seq<u8>) -> nat {
    if s.len() == 0 {
        0
    } else if s[0] == 0x20 || (0x09 <= s[0] <= 0x0d) {
        1
    } else if s.len() >= 2 && s[0] == 0xc2 && (s[1] == 0x85 || s[1] == 0xa0) {
        2
    } else if s.len() >= 3 && s[0] == 0xe1 && s[1] == 0x9a && s[2] == 0x80 {
        3
    } else if s.len() >= 3 && s[0] == 0xe2 && s[1] == 0x80 && ((0x80 <= s[2] <= 0x8a) || s[2] == 0xa8 || s[2] == 0xa9 || s[2] == 0xaf) {
        3
    } else if s.len() >= 3 && s[0] == 0xe2 && s[1] == 0x81 && s[2] == 0x9f {
        3
    } else if s.len() >= 3 && s[0] == 0xe3 && s[1] == 0x80 && s[2] == 0x80 {
        3
    } else {
        0
    }
}

/// The length of the run of non-whitespace at the start of `s`.
pub open spec fn token_len(s: Seq<u8>) -> nat
    decreases s.len(),
{
    if s.len() == 0 || ws_len(s) > 0 {
        0
    } else {
        1 + token_len(s.drop_first())
    }
}

pub proof fn lemma_token_len_bound(s: Seq<u8>)
    ensures
        token_len(s) <= s.len(),
        s.len() > 0 && ws_len(s) == 0 ==> token_len(s) >= 1,
        ws_len(s) <= s.len(),
    decreases s.len(),
{
    if s.len() > 0 && ws_len(s) == 0 {
        lemma_token_len_bound(s.drop_first());
    }
}

/// The whitespace-separated tokens of UTF-8 text `s`, as `str::split_whitespace` gives them.
pub open spec fn tokens(s: Seq<u8>) -> Seq<Seq<u8>>
    decreases s.len(),
{
    if s.len() == 0 {
        Seq::empty()
    } else if ws_len(s) > 0 {
        proof {
            lemma_token_len_bound(s);
        }
        tokens(s.skip(ws_len(s) as int))
    } else {
        proof {
            lemma_token_len_bound(s);
        }
        let n = token_len(s);
        seq![s.take(n as int)] + tokens(s.skip(n as int))
    }
}

/// Printable ASCII other than space.
pub open spec fn is_graphic(b: u8) -> bool {
    0x21 <= b <= 0x7e
}

pub open spec fn all_graphic(s: Seq<u8>) -> bool {
    forall|i: int| 0 <= i < s.len() ==> is_graphic(#[trigger] s[i])
}

pub proof fn lemma_token_len_graphic(x: Seq<u8>, rest: Seq<u8>)
    requires
        all_graphic(x),
        rest.len() == 0 || ws_len(rest) > 0,
    ensures
        token_len(x + rest) == x.len(),
    decreases x.len(),
{
    if x.len() == 0 {
        assert(x + rest =~= rest);
    } else {
        assert((x + rest).drop_first() =~= x.drop_first() + rest);
        assert(all_graphic(x.drop_first())) by {
            assert forall|i: int| 0 <= i < x.drop_first().len() implies is_graphic(#[trigger] x.drop_first()[i]) by {
                assert(x.drop_first()[i] == x[i + 1]);
            }
        }
        assert(is_graphic(x[0]));
        assert((x + rest)[0] == x[0]);
        lemma_token_len_graphic(x.drop_first(), rest);
    }
}

/// Text with no whitespace character in it: none starts at any of its positions.
pub open spec fn no_whitespace(s: Seq<u8>) -> bool {
    forall|i: int| 0 <= i < s.len() ==> #[trigger] ws_len(s.skip(i)) == 0
}

/// A space after `x` does not make whitespace of what starts inside `x`.
proof fn lemma_ws_len_before_space(x: Seq<u8>, rest: Seq<u8>, i: int)
    requires
        0 <= i < x.len(),
        rest.len() > 0,
        rest[0] == 0x20,
        ws_len(x.skip(i)) == 0,
    ensures
        ws_len((x + rest).skip(i)) == 0,
{
    let s = (x + rest).skip(i);
    let t = x.skip(i);
    assert(s[0] == t[0]);
    if t.len() >= 2 {
        assert(s[1] == t[1]);
    } else {
        assert(s[1] == 0x20);
    }
    if t.len() >= 3 {
        assert(s[2] == t[2]);
    } else if t.len() == 2 {
        assert(s[2] == 0x20);
    }
}

/// A word with no whitespace, followed by a space, is one token long.
proof fn lemma_token_len_no_whitespace(x: Seq<u8>, rest: Seq<u8>)
    requires
        no_whitespace(x),
        rest.len() > 0,
        rest[0] == 0x20,
    ensures
        token_len(x + rest) == x.len(),
    decreases x.len(),
{
    if x.len() == 0 {
        assert(x + rest =~= rest);
    } else {
        assert((x + rest).drop_first() =~= x.drop_first() + rest);
        assert(no_whitespace(x.drop_first())) by {
            assert forall|i: int| 0 <= i < x.drop_first().len() implies #[trigger] ws_len(x.drop_first().skip(i)) == 0 by {
                assert(x.drop_first().skip(i) =~= x.skip(i + 1));
            }
        }
        assert(ws_len(x.skip(0)) == 0);
        assert(x.skip(0) =~= x);
        lemma_ws_len_before_space(x, rest, 0);
        assert((x + rest).skip(0) =~= x + rest);
        lemma_token_len_no_whitespace(x.drop_first(), rest);
    }
}

/// A word with no whitespace followed by a space is the first token.
pub proof fn lemma_tokens_word_no_whitespace(x: Seq<u8>, rest: Seq<u8>)
    requires
        x.len() > 0,
        no_whitespace(x),
    ensures
        tokens(x + seq![0x20u8] + rest) == seq![x] + tokens(rest),
{
    let s = x + seq![0x20u8] + rest;
    let r = seq![0x20u8] + rest;
    assert(s =~= x + r);
    assert(ws_len(r) == 1);
    lemma_token_len_no_whitespace(x, r);
    assert(ws_len(x.skip(0)) == 0);
    assert(x.skip(0) =~= x);
    lemma_ws_len_before_space(x, r, 0);
    assert((x + r).skip(0) =~= x + r);
    assert(ws_len(s) == 0);
    assert(s.take(x.len() as int) =~= x);
    assert(s.skip(x.len() as int) =~= r);
    assert(r.skip(1) =~= rest);
    assert(tokens(r) == tokens(r.skip(ws_len(r) as int)));
    assert(tokens(s) == seq![s.take(token_len(s) as int)] + tokens(s.skip(token_len(s) as int)));
}

/// A graphic word followed by a one-byte whitespace character is the first token.
pub proof fn lemma_tokens_word(x: Seq<u8>, sep: u8, rest: Seq<u8>)
    requires
        x.len() > 0,
        all_graphic(x),
        sep == 0x20 || sep == 0x0a,
    ensures
        tokens(x + seq![sep] + rest) == seq![x] + tokens(rest),
{
    let s = x + seq![sep] + rest;
    let r = seq![sep] + rest;
    assert(s =~= x + r);
    assert(ws_len(r) == 1);
    lemma_token_len_graphic(x, r);
    assert(is_graphic(x[0]));
    assert(s[0] == x[0]);
    assert(ws_len(s) == 0);
    assert(s.take(x.len() as int) =~= x);
    assert(s.skip(x.len() as int) =~= r);
    assert(r.skip(1) =~= rest);
    assert(r.len() > 0);
    assert(tokens(r) == tokens(r.skip(ws_len(r) as int)));
    assert(tokens(r) == tokens(rest));
    assert(token_len(s) == x.len());
    assert(tokens(s) == seq![s.take(token_len(s) as int)] + tokens(s.skip(token_len(s) as int)));
}

/// Computes the token boundaries of `bytes`, as (start, end) pairs.
pub fn token_ranges(bytes: &[u8]) -> (r: Vec<(usize, usize)>)
    ensures
        r@.len() == tokens(bytes@).len(),
        forall|j: int| 0 <= j < r@.len() ==> {
            &&& (#[trigger] r@[j]).0 <= r@[j].1 <= bytes@.len()
            &&& bytes@.subrange(r@[j].0 as int, r@[j].1 as int) == tokens(bytes@)[j]
        },
{
    let mut r: Vec<(usize, usize)> = Vec::new();
    let mut i: usize = 0;
    let ghost all = tokens(bytes@);
    assert(bytes@.skip(0) =~= bytes@);
    while i < bytes.len()
        invariant
            i <= bytes@.len(),
            all == tokens(bytes@),
            all == r@.map_values(|p: (usize, usize)| bytes@.subrange(p.0 as int, p.1 as int)) + tokens(bytes@.skip(i as int)),
            forall|j: int| 0 <= j < r@.len() ==> (#[trigger] r@[j]).0 <= r@[j].1 <= bytes@.len(),
        decreases bytes@.len() - i,
    {
        let ghost rest = bytes@.skip(i as int);
        proof {
            lemma_token_len_bound(rest);
        }
        let w = ws_len_at(bytes, i);
        if w > 0 {
            assert(bytes@.skip(i as int).skip(w as int) =~= bytes@.skip(i + w));
            i = i + w;
        } else {
            let start = i;
            let mut k: usize = i;
            while k < bytes.len() && ws_len_at(bytes, k) == 0
                invariant
                    start <= k <= bytes@.len(),
                    rest == bytes@.skip(start as int),
                    ws_len(rest) == 0,
                    rest.len() > 0,
                    token_len(rest) == (k - start) + token_len(bytes@.skip(k as int)),
                decreases bytes@.len() - k,
            {
                assert(bytes@.skip(k as int).drop_first() =~= bytes@.skip(k + 1));
                k = k + 1;
            }
            let ghost n = token_len(rest);
            assert(n == k - start);
            assert(rest.take(n as int) =~= bytes@.subrange(start as int, k as int));
            assert(rest.skip(n as int) =~= bytes@.skip(k as int));
            let ghost before = r@;
            r.push((start, k));
            assert(r@.map_values(|p: (usize, usize)| bytes@.subrange(p.0 as int, p.1 as int)) =~=
                before.map_values(|p: (usize, usize)| bytes@.subrange(p.0 as int, p.1 as int)).push(bytes@.subrange(start as int, k as int)));
            i = k;
        }
    }
    assert(bytes@.skip(i as int) =~= Seq::<u8>::empty());
    assert(all =~= r@.map_values(|p: (usize, usize)| bytes@.subrange(p.0 as int, p.1 as int)));
    r
}

/// The length of the whitespace character at `bytes[i..]`, or 0.
pub fn ws_len_at(bytes: &[u8], i: usize) -> (r: usize)
    requires
        i <= bytes@.len(),
    ensures
        r == ws_len(bytes@.skip(i as int)),
{
    let n = bytes.len();
    let ghost s = bytes@.skip(i as int);
    if i >= n {
        return 0;
    }
    let b0 = bytes[i];
    if b0 == 0x20 || (0x09 <= b0 && b0 <= 0x0d) {
        return 1;
    }
    if n - i >= 2 && b0 == 0xc2 && (bytes[i + 1] == 0x85 || bytes[i + 1] == 0xa0) {
        return 2;
    }
    if n - i >= 3 {
        let b1 = bytes[i + 1];
        let b2 = bytes[i + 2];
        if b0 == 0xe1 && b1 == 0x9a && b2 == 0x80 {
            return 3;
        }
        if b0 == 0xe2 && b1 == 0x80 && ((0x80 <= b2 && b2 <= 0x8a) || b2 == 0xa8 || b2 == 0xa9 || b2 == 0xaf) {
            return 3;
        }
        if b0 == 0xe2 && b1 == 0x81 && b2 == 0x9f {
            return 3;
        }
        if b0 == 0xe3 && b1 == 0x80 && b2 == 0x80 {
            return 3;
        }
    }
    0
}


// ---------------------------------------------------------------- searching, lines, trimming

/// Whether bytes `b[r.0..r.1]` equal `lit`.
pub fn range_is(b: &[u8], r: (usize, usize), lit: &[u8]) -> (res: bool)
    requires
        r.0 <= r.1 <= b@.len(),
    ensures
        res == (b@.subrange(r.0 as int, r.1 as int) == lit@),
{
    if r.1 - r.0 != lit.len() {
        return false;
    }
    let mut i: usize = 0;
    while i < lit.len()
        invariant
            r.0 <= r.1 <= b@.len(),
            r.1 - r.0 == lit@.len(),
            i <= lit@.len(),
            forall|j: int| 0 <= j < i ==> b@[r.0 + j] == lit@[j],
        decreases lit@.len() - i,
    {
        if b[r.0 + i] != lit[i] {
            assert(b@.subrange(r.0 as int, r.1 as int)[i as int] != lit@[i as int]);
            return false;
        }
        i = i + 1;
    }
    assert(b@.subrange(r.0 as int, r.1 as int) =~= lit@);
    true
}

/// `s` begins with `p`.
pub open spec fn starts_with(s: Seq<u8>, p: Seq<u8>) -> bool {
    p.len() <= s.len() && s.take(p.len() as int) == p
}

/// The first position at or after `i` where `p` occurs in `s`.
pub open spec fn find_from(s: Seq<u8>, p: Seq<u8>, i: nat) -> Option<nat>
    decreases s.len() - i,
{
    if i + p.len() > s.len() {
        None
    } else if s.subrange(i as int, (i + p.len()) as int) == p {
        Some(i)
    } else {
        proof {
            if p.len() == 0 {
                assert(s.subrange(i as int, i as int) =~= p);
            }
        }
        find_from(s, p, i + 1)
    }
}

pub proof fn lemma_find_from(s: Seq<u8>, p: Seq<u8>, i: nat)
    ensures
        match find_from(s, p, i) {
            Some(k) => i <= k && k + p.len() <= s.len() && s.subrange(k as int, (k + p.len()) as int) == p
                && forall|j: int| i <= j < k ==> #[trigger] s.subrange(j, j + p.len()) != p,
            None => forall|j: int| i <= j && j + p.len() <= s.len() ==> #[trigger] s.subrange(j, j + p.len()) != p,
        },
    decreases s.len() - i,
{
    if i + p.len() > s.len() {
    } else if s.subrange(i as int, (i + p.len()) as int) == p {
    } else {
        if p.len() == 0 {
            assert(s.subrange(i as int, i as int) =~= p);
        }
        lemma_find_from(s, p, i + 1);
    }
}

/// The first occurrence of `p` in `s` is at `k` when it occurs there and nowhere before.
pub proof fn lemma_find_at(s: Seq<u8>, p: Seq<u8>, k: nat)
    requires
        k + p.len() <= s.len(),
        s.subrange(k as int, (k + p.len()) as int) == p,
        forall|j: int| 0 <= j < k ==> #[trigger] s.subrange(j, j + p.len()) != p,
    ensures
        find_from(s, p, 0) == Some(k),
{
    lemma_find_from(s, p, 0);
    match find_from(s, p, 0) {
        Some(m) => {
            if m > k {
                assert(s.subrange(k as int, (k + p.len()) as int) != p);
            }
        },
        None => {
            assert(s.subrange(k as int, (k + p.len()) as int) != p);
        },
    }
}


/// The first position of `p` in `bytes`.
pub fn find_bytes(bytes: &[u8], p: &[u8]) -> (r: Option<usize>)
    ensures
        match r {
            Some(k) => find_from(bytes@, p@, 0) == Some(k as nat),
            None => find_from(bytes@, p@, 0) is None,
        },
{
    let mut i: usize = 0;
    while i <= bytes.len() && p.len() <= bytes.len() - i
        invariant
            i <= bytes@.len() + 1,
            find_from(bytes@, p@, 0) == find_from(bytes@, p@, i as nat),
        decreases bytes@.len() + 1 - i,
    {
        if range_is(bytes, (i, i + p.len()), p) {
            return Some(i);
        }
        proof {
            if p@.len() == 0 {
                assert(bytes@.subrange(i as int, i as int) =~= p@);
            }
        }
        i = i + 1;
    }
    None
}

/// `l` without one `\r` at its end.
pub open spec fn strip_cr(l: Seq<u8>) -> Seq<u8> {
    if l.len() > 0 && l.last() == 13 {
        l.drop_last()
    } else {
        l
    }
}

/// The lines of `s` as `str::lines` gives them: `s` split after each `\n`, each line
/// without its `\n` and then without one `\r` before it; a final `\n` starts no line.
pub open spec fn lines_of(s: Seq<u8>) -> Seq<Seq<u8>>
    decreases s.len(),
{
    if s.len() == 0 {
        Seq::empty()
    } else {
        match find_from(s, seq![10u8], 0) {
            Some(i) => {
                proof {
                    lemma_find_from(s, seq![10u8], 0);
                }
                seq![strip_cr(s.take(i as int))] + lines_of(s.skip((i + 1) as int))
            },
            None => seq![s],
        }
    }
}

/// The line that starts at `pos` in `b`: where its text ends (before `\n` and a `\r`
/// before it) and where the next line starts.
pub fn next_line(b: &[u8], pos: usize) -> (r: (usize, usize))
    requires
        pos < b@.len(),
    ensures
        pos <= r.0 <= r.1 <= b@.len(),
        pos < r.1,
        lines_of(b@.skip(pos as int)) == seq![b@.subrange(pos as int, r.0 as int)] + lines_of(b@.skip(r.1 as int)),
{
    let end = b.len();
    let ghost rest = b@.skip(pos as int);
    let rest_bytes = slice_range(b, pos, end);
    assert(rest_bytes@ =~= rest);
    proof {
        lemma_find_from(rest, seq![10u8], 0);
    }
    let newline = [10u8];
    assert(newline@ =~= seq![10u8]);
    match find_bytes(rest_bytes, &newline) {
        Some(i) => {
            let le = if i > 0 && b[pos + i - 1] == 13 { pos + i - 1 } else { pos + i };
            assert(b@.subrange(pos as int, le as int) =~= strip_cr(rest.take(i as int)));
            assert(rest.skip(i + 1) =~= b@.skip(pos + i + 1));
            assert(lines_of(rest) == seq![strip_cr(rest.take(i as int))] + lines_of(rest.skip(i + 1)));
            (le, pos + i + 1)
        },
        None => {
            assert(b@.subrange(pos as int, end as int) =~= rest);
            assert(b@.skip(end as int) =~= Seq::<u8>::empty());
            assert(lines_of(b@.skip(end as int)) =~= Seq::<Seq<u8>>::empty());
            assert(lines_of(rest) == seq![rest]);
            assert(seq![rest] + Seq::<Seq<u8>>::empty() =~= seq![rest]);
            (end, end)
        },
    }
}

/// The length of the whitespace character at the end of `s`, or 0 (the characters are
/// those of `ws_len`).
pub open spec fn ws_len_back(s: Seq<u8>) -> nat {
    let n = s.len();
    if n == 0 {
        0
    } else if s[n - 1] == 0x20 || (0x09 <= s[n - 1] <= 0x0d) {
        1
    } else if n >= 2 && s[n - 2] == 0xc2 && (s[n - 1] == 0x85 || s[n - 1] == 0xa0) {
        2
    } else if n >= 3 && s[n - 3] == 0xe1 && s[n - 2] == 0x9a && s[n - 1] == 0x80 {
        3
    } else if n >= 3 && s[n - 3] == 0xe2 && s[n - 2] == 0x80 && ((0x80 <= s[n - 1] <= 0x8a) || s[n - 1] == 0xa8
        || s[n - 1] == 0xa9 || s[n - 1] == 0xaf) {
        3
    } else if n >= 3 && s[n - 3] == 0xe2 && s[n - 2] == 0x81 && s[n - 1] == 0x9f {
        3
    } else if n >= 3 && s[n - 3] == 0xe3 && s[n - 2] == 0x80 && s[n - 1] == 0x80 {
        3
    } else {
        0
    }
}

/// `s` without its leading whitespace.
pub open spec fn trim_start(s: Seq<u8>) -> Seq<u8>
    decreases s.len(),
{
    if s.len() > 0 && ws_len(s) > 0 {
        proof {
            lemma_token_len_bound(s);
        }
        trim_start(s.skip(ws_len(s) as int))
    } else {
        s
    }
}

/// `s` without its trailing whitespace.
pub open spec fn trim_end(s: Seq<u8>) -> Seq<u8>
    decreases s.len(),
{
    if ws_len_back(s) > 0 {
        trim_end(s.take(s.len() - ws_len_back(s)))
    } else {
        s
    }
}

/// `s` without leading and trailing whitespace, as `str::trim` gives it.
pub open spec fn trim(s: Seq<u8>) -> Seq<u8> {
    trim_end(trim_start(s))
}

/// The length of the whitespace character that ends `bytes[..end]`, or 0.
pub fn ws_len_back_at(bytes: &[u8], end: usize) -> (r: usize)
    requires
        end <= bytes@.len(),
    ensures
        r == ws_len_back(bytes@.take(end as int)),
{
    let ghost s = bytes@.take(end as int);
    if end == 0 {
        return 0;
    }
    let b1 = bytes[end - 1];
    if b1 == 0x20 || (0x09 <= b1 && b1 <= 0x0d) {
        return 1;
    }
    if end >= 2 && bytes[end - 2] == 0xc2 && (b1 == 0x85 || b1 == 0xa0) {
        return 2;
    }
    if end >= 3 {
        let b3 = bytes[end - 3];
        let b2 = bytes[end - 2];
        if b3 == 0xe1 && b2 == 0x9a && b1 == 0x80 {
            return 3;
        }
        if b3 == 0xe2 && b2 == 0x80 && ((0x80 <= b1 && b1 <= 0x8a) || b1 == 0xa8 || b1 == 0xa9 || b1 == 0xaf) {
            return 3;
        }
        if b3 == 0xe2 && b2 == 0x81 && b1 == 0x9f {
            return 3;
        }
        if b3 == 0xe3 && b2 == 0x80 && b1 == 0x80 {
            return 3;
        }
    }
    0
}

/// The whitespace character that ends `b[..z]` ends `b[a..z]` too when it fits there.
pub proof fn lemma_ws_len_back_sub(b: Seq<u8>, a: int, z: int)
    requires
        0 <= a <= z <= b.len(),
    ensures
        ws_len_back(b.subrange(a, z)) == if ws_len_back(b.take(z)) <= z - a { ws_len_back(b.take(z)) } else { 0 },
{
    let s = b.subrange(a, z);
    let t = b.take(z);
    let n = s.len();
    if n >= 1 {
        assert(s[n - 1] == t[z - 1]);
    }
    if n >= 2 {
        assert(s[n - 2] == t[z - 2]);
    }
    if n >= 3 {
        assert(s[n - 3] == t[z - 3]);
    }
}

/// The start of `bytes[start..end]` with its leading whitespace skipped.
pub fn skip_ws(bytes: &[u8], start: usize, end: usize) -> (r: usize)
    requires
        start <= end <= bytes@.len(),
    ensures
        start <= r <= end,
        bytes@.subrange(r as int, end as int) == trim_start(bytes@.subrange(start as int, end as int)),
{
    let mut a = start;
    while a < end && ws_len_at(slice_range(bytes, 0, end), a) > 0
        invariant
            start <= a <= end <= bytes@.len(),
            trim_start(bytes@.subrange(start as int, end as int)) == trim_start(bytes@.subrange(a as int, end as int)),
        decreases end - a,
    {
        let ghost s = bytes@.subrange(a as int, end as int);
        let w = ws_len_at(slice_range(bytes, 0, end), a);
        assert(bytes@.take(end as int).skip(a as int) =~= s);
        proof {
            lemma_token_len_bound(s);
        }
        assert(s.skip(w as int) =~= bytes@.subrange(a + w, end as int));
        a = a + w;
    }
    proof {
        if a < end {
            assert(bytes@.take(end as int).skip(a as int) =~= bytes@.subrange(a as int, end as int));
        } else {
            assert(bytes@.subrange(a as int, end as int).len() == 0);
        }
    }
    a
}

/// The bounds of `bytes[start..end]` with surrounding whitespace trimmed.
pub fn trim_range(bytes: &[u8], start: usize, end: usize) -> (r: (usize, usize))
    requires
        start <= end <= bytes@.len(),
    ensures
        start <= r.0 <= r.1 <= end,
        bytes@.subrange(r.0 as int, r.1 as int) == trim(bytes@.subrange(start as int, end as int)),
{
    let a = skip_ws(bytes, start, end);
    let mut z = end;
    while z > a && ws_len_back_at(bytes, z) > 0 && ws_len_back_at(bytes, z) <= z - a
        invariant
            start <= a <= z <= end <= bytes@.len(),
            trim(bytes@.subrange(start as int, end as int)) == trim_end(bytes@.subrange(a as int, z as int)),
        decreases z - a,
    {
        let ghost s = bytes@.subrange(a as int, z as int);
        let w = ws_len_back_at(bytes, z);
        proof {
            lemma_ws_len_back_sub(bytes@, a as int, z as int);
        }
        assert(s.take(s.len() - w) =~= bytes@.subrange(a as int, z - w));
        z = z - w;
    }
    proof {
        let s = bytes@.subrange(a as int, z as int);
        if z > a {
            lemma_ws_len_back_sub(bytes@, a as int, z as int);
        } else {
            assert(s.len() == 0);
        }
    }
    (a, z)
}

// ---------------------------------------------------------------- UTF-8

/// Whether `bytes` is valid UTF-8, as `std::str::from_utf8` decides it.
#[verifier::external_body]
pub(crate) fn utf8_is_valid(bytes: &[u8]) -> (r: bool)
    ensures
        r == vstd::utf8::valid_utf8(bytes@),
{
    std::str::from_utf8(bytes).is_ok()
}

/// ASCII text decodes to the characters of its bytes.
pub proof fn lemma_ascii_decode(s: Seq<u8>)
    requires
        forall|i: int| 0 <= i < s.len() ==> #[trigger] s[i] < 0x80,
    ensures
        vstd::utf8::decode_utf8(s).len() == s.len(),
        forall|i: int| 0 <= i < s.len() ==> #[trigger] vstd::utf8::decode_utf8(s)[i] == (s[i] as u32) as char,
    decreases s.len(),
{
    lemma_ascii_valid_utf8(s);
    if s.len() > 0 {
        let b = s[0];
        assert((b & 0x7F) as u32 == b as u32) by (bit_vector)
            requires b < 0x80u8;
        assert(vstd::utf8::pop_first_scalar(s) =~= s.drop_first());
        lemma_ascii_decode(s.drop_first());
        let d = vstd::utf8::decode_utf8(s);
        assert forall|i: int| 0 <= i < s.len() implies #[trigger] d[i] == (s[i] as u32) as char by {
            if i > 0 {
                assert(d[i] == vstd::utf8::decode_utf8(s.drop_first())[i - 1]);
                assert(s.drop_first()[i - 1] == s[i]);
            }
        }
    }
}

/// ASCII text is valid UTF-8.
pub proof fn lemma_ascii_valid_utf8(s: Seq<u8>)
    requires
        forall|i: int| 0 <= i < s.len() ==> #[trigger] s[i] < 0x80,
    ensures
        vstd::utf8::valid_utf8(s),
    decreases s.len(),
{
    if s.len() > 0 {
        let b = s[0];
        assert(b < 0x80);
        assert((b & 0x7F) as u32 == b as u32) by (bit_vector)
            requires b < 0x80u8;
        assert(vstd::utf8::pop_first_scalar(s) =~= s.drop_first());
        lemma_ascii_valid_utf8(s.drop_first());
    }
}

/// `bytes`, which are valid UTF-8, as a `String`.
#[verifier::external_body]
pub(crate) fn utf8_to_string(bytes: Vec<u8>) -> (r: String)
    requires
        vstd::utf8::valid_utf8(bytes@),
    ensures
        r@ == vstd::utf8::decode_utf8(bytes@),
{
    match String::from_utf8(bytes) {
        Ok(s) => s,
        Err(_) => String::new(),
    }
}

/// ASCII `bytes` as a `String`.
pub fn ascii_to_string(bytes: Vec<u8>) -> (r: String)
    requires
        forall|i: int| 0 <= i < bytes@.len() ==> #[trigger] bytes@[i] < 0x80,
    ensures
        r@ == vstd::utf8::decode_utf8(bytes@),
{
    proof {
        lemma_ascii_valid_utf8(bytes@);
    }
    utf8_to_string(bytes)
}

/// Graphic text is ASCII.
pub proof fn lemma_graphic_ascii(s: Seq<u8>)
    requires
        all_graphic(s),
    ensures
        forall|i: int| 0 <= i < s.len() ==> #[trigger] s[i] < 0x80,
{
    assert forall|i: int| 0 <= i < s.len() implies #[trigger] s[i] < 0x80 by {
        assert(is_graphic(s[i]));
    }
}

/// The bytes of the literal `lit`, copied into a vector.
pub fn bytes_of(lit: &[u8]) -> (r: Vec<u8>)
    ensures
        r@ == lit@,
{
    crate::bytes::copy_range(lit, 0, lit.len())
}

/// Appends the bytes of a literal.
pub fn append_lit(out: &mut Vec<u8>, lit: &[u8])
    ensures
        final(out)@ == old(out)@ + lit@,
{
    crate::bytes::append_bytes(out, lit);
}

pub proof fn lemma_graphic_concat(a: Seq<u8>, b: Seq<u8>)
    requires
        all_graphic(a),
        all_graphic(b),
    ensures
        all_graphic(a + b),
{
    assert forall|i: int| 0 <= i < (a + b).len() implies is_graphic(#[trigger] (a + b)[i]) by {
        if i < a.len() {
            assert((a + b)[i] == a[i]);
        } else {
            assert((a + b)[i] == b[i - a.len()]);
        }
    }
}

pub proof fn lemma_graphic_decimal(n: nat)
    ensures
        all_graphic(decimal_text(n)),
        decimal_text(n).len() > 0,
{
    lemma_decimal_text(n);
    assert forall|i: int| 0 <= i < decimal_text(n).len() implies is_graphic(#[trigger] decimal_text(n)[i]) by {
        assert(is_digit(decimal_text(n)[i]));
    }
}

pub proof fn lemma_graphic_ipv4(a: u8, b: u8, c: u8, d: u8)
    ensures
        all_graphic(ipv4_text(a, b, c, d)),
        ipv4_text(a, b, c, d).len() > 0,
{
    lemma_graphic_decimal(a as nat);
    lemma_graphic_decimal(b as nat);
    lemma_graphic_decimal(c as nat);
    lemma_graphic_decimal(d as nat);
    let dot = seq![46u8];
    assert(all_graphic(dot));
    let (ta, tb, tc, td) = (decimal_text(a as nat), decimal_text(b as nat), decimal_text(c as nat), decimal_text(d as nat));
    lemma_graphic_concat(ta, dot);
    lemma_graphic_concat(ta + dot, tb);
    lemma_graphic_concat(ta + dot + tb, dot);
    lemma_graphic_concat(ta + dot + tb + dot, tc);
    lemma_graphic_concat(ta + dot + tb + dot + tc, dot);
    lemma_graphic_concat(ta + dot + tb + dot + tc + dot, td);
}

pub proof fn lemma_graphic_hex2(b: u8)
    ensures
        all_graphic(hex2_text(b)),
{
    assert forall|i: int| 0 <= i < hex2_text(b).len() implies is_graphic(#[trigger] hex2_text(b)[i]) by {}
}

pub proof fn lemma_graphic_mac(o: Seq<u8>)
    requires
        o.len() == 6,
    ensures
        all_graphic(mac_text(o)),
        mac_text(o).len() > 0,
{
    let c = seq![58u8];
    assert(all_graphic(c));
    let (t0, t1, t2, t3, t4, t5) = (hex2_text(o[0]), hex2_text(o[1]), hex2_text(o[2]), hex2_text(o[3]), hex2_text(o[4]), hex2_text(o[5]));
    lemma_graphic_hex2(o[0]);
    lemma_graphic_hex2(o[1]);
    lemma_graphic_hex2(o[2]);
    lemma_graphic_hex2(o[3]);
    lemma_graphic_hex2(o[4]);
    lemma_graphic_hex2(o[5]);
    lemma_graphic_concat(t0, c);
    lemma_graphic_concat(t0 + c, t1);
    lemma_graphic_concat(t0 + c + t1, c);
    lemma_graphic_concat(t0 + c + t1 + c, t2);
    lemma_graphic_concat(t0 + c + t1 + c + t2, c);
    lemma_graphic_concat(t0 + c + t1 + c + t2 + c, t3);
    lemma_graphic_concat(t0 + c + t1 + c + t2 + c + t3, c);
    lemma_graphic_concat(t0 + c + t1 + c + t2 + c + t3 + c, t4);
    lemma_graphic_concat(t0 + c + t1 + c + t2 + c + t3 + c + t4, c);
    lemma_graphic_concat(t0 + c + t1 + c + t2 + c + t3 + c + t4 + c, t5);
}

/// Text made of graphic words each followed by a space or newline is ASCII.
pub proof fn lemma_words_ascii(words: Seq<Seq<u8>>, seps: Seq<u8>, s: Seq<u8>)
    requires
        words.len() == seps.len(),
        forall|i: int| 0 <= i < words.len() ==> all_graphic(#[trigger] words[i]),
        forall|i: int| 0 <= i < seps.len() ==> (#[trigger] seps[i]) < 0x80,
        s == joined(words, seps),
    ensures
        forall|i: int| 0 <= i < s.len() ==> #[trigger] s[i] < 0x80,
    decreases words.len(),
{
    if words.len() > 0 {
        let w = words.last();
        let prev = joined(words.drop_last(), seps.drop_last());
        lemma_words_ascii(words.drop_last(), seps.drop_last(), prev);
        assert(all_graphic(w));
        assert forall|i: int| 0 <= i < s.len() implies #[trigger] s[i] < 0x80 by {
            if i < prev.len() {
                assert(s[i] == prev[i]);
            } else if i < prev.len() + w.len() {
                assert(s[i] == w[i - prev.len()]);
                assert(is_graphic(w[i - prev.len()]));
            } else {
                assert(s[i] == seps.last());
            }
        }
    }
}

/// `words[0] ++ [seps[0]] ++ words[1] ++ [seps[1]] ++ ...`
pub open spec fn joined(words: Seq<Seq<u8>>, seps: Seq<u8>) -> Seq<u8>
    decreases words.len(),
{
    if words.len() == 0 || seps.len() == 0 {
        Seq::empty()
    } else {
        joined(words.drop_last(), seps.drop_last()) + words.last() + seq![seps.last()]
    }
}

/// The tokens of graphic words each followed by a space or newline are the words.
pub proof fn lemma_tokens_joined(words: Seq<Seq<u8>>, seps: Seq<u8>)
    requires
        words.len() == seps.len(),
        forall|i: int| 0 <= i < words.len() ==> all_graphic(#[trigger] words[i]) && words[i].len() > 0,
        forall|i: int| 0 <= i < seps.len() ==> (#[trigger] seps[i]) == 0x20 || seps[i] == 0x0a,
    ensures
        tokens(joined(words, seps)) == words,
    decreases words.len(),
{
    if words.len() == 0 {
        assert(tokens(Seq::<u8>::empty()) =~= Seq::<Seq<u8>>::empty());
        assert(words =~= Seq::<Seq<u8>>::empty());
    } else {
        let w0 = words[0];
        let rest_words = words.drop_first();
        let rest_seps = seps.drop_first();
        lemma_tokens_joined(rest_words, rest_seps);
        lemma_joined_front(words, seps);
        lemma_tokens_word(w0, seps[0], joined(rest_words, rest_seps));
        assert(seq![w0] + rest_words =~= words);
    }
}

pub proof fn lemma_joined_front(words: Seq<Seq<u8>>, seps: Seq<u8>)
    requires
        words.len() == seps.len(),
        words.len() > 0,
    ensures
        joined(words, seps) == words[0] + seq![seps[0]] + joined(words.drop_first(), seps.drop_first()),
    decreases words.len(),
{
    if words.len() == 1 {
        assert(words.drop_first() =~= Seq::<Seq<u8>>::empty());
        assert(words.drop_last() =~= Seq::<Seq<u8>>::empty());
        assert(joined(words.drop_last(), seps.drop_last()) =~= Seq::<u8>::empty());
        assert(joined(words, seps) =~= words[0] + seq![seps[0]]);
        assert(joined(words.drop_first(), seps.drop_first()) =~= Seq::<u8>::empty());
        assert(words[0] + seq![seps[0]] + Seq::<u8>::empty() =~= words[0] + seq![seps[0]]);
    } else {
        lemma_joined_front(words.drop_last(), seps.drop_last());
        assert(words.drop_last().drop_first() =~= words.drop_first().drop_last());
        assert(seps.drop_last().drop_first() =~= seps.drop_first().drop_last());
        assert(words.drop_last()[0] == words[0]);
        assert(seps.drop_last()[0] == seps[0]);
        assert(words.drop_first().last() == words.last());
        assert(seps.drop_first().last() == seps.last());
        let tail = joined(words.drop_first().drop_last(), seps.drop_first().drop_last());
        assert(joined(words, seps) =~= words[0] + seq![seps[0]] + tail + words.last() + seq![seps.last()]);
    }
}

/// Splitting valid UTF-8 where no continuation byte follows leaves two valid halves.
pub proof fn lemma_utf8_split(s: Seq<u8>, k: int)
    requires
        vstd::utf8::valid_utf8(s),
        0 <= k <= s.len(),
        k == s.len() || !vstd::utf8::is_continuation_byte(s[k]),
    ensures
        vstd::utf8::valid_utf8(s.take(k)),
        vstd::utf8::valid_utf8(s.skip(k)),
    decreases s.len(),
{
    if k == 0 {
        assert(s.take(0) =~= Seq::<u8>::empty());
        assert(s.skip(0) =~= s);
    } else {
        let l = vstd::utf8::length_of_first_scalar(s);
        let rest = vstd::utf8::pop_first_scalar(s);
        assert(1 <= l <= 4 && l <= s.len());
        assert(forall|j: int| 1 <= j < l ==> vstd::utf8::is_continuation_byte(#[trigger] s[j]));
        assert(k >= l);
        assert(rest =~= s.skip(l));
        if k < s.len() {
            assert(rest[k - l] == s[k]);
        }
        lemma_utf8_split(rest, k - l);
        assert(s.skip(k) =~= rest.skip(k - l));
        let t = s.take(k);
        assert(forall|j: int| 0 <= j < l ==> #[trigger] t[j] == s[j]);
        assert(vstd::utf8::valid_first_scalar(t));
        assert(vstd::utf8::length_of_first_scalar(t) == l);
        assert(vstd::utf8::pop_first_scalar(t) =~= rest.take(k - l));
    }
}

/// A whitespace character is one whole UTF-8 scalar.
pub proof fn lemma_ws_is_scalar(s: Seq<u8>)
    requires
        vstd::utf8::valid_utf8(s),
        ws_len(s) > 0,
    ensures
        vstd::utf8::pop_first_scalar(s) == s.skip(ws_len(s) as int),
        vstd::utf8::valid_utf8(s.skip(ws_len(s) as int)),
        !vstd::utf8::is_continuation_byte(s[0]),
{
}

/// Every token of valid UTF-8 text is valid UTF-8.
pub proof fn lemma_tokens_utf8(s: Seq<u8>)
    requires
        vstd::utf8::valid_utf8(s),
    ensures
        forall|i: int| 0 <= i < tokens(s).len() ==> vstd::utf8::valid_utf8(#[trigger] tokens(s)[i]),
    decreases s.len(),
{
    lemma_token_len_bound(s);
    if s.len() == 0 {
    } else if ws_len(s) > 0 {
        lemma_ws_is_scalar(s);
        lemma_tokens_utf8(s.skip(ws_len(s) as int));
        assert(tokens(s) == tokens(s.skip(ws_len(s) as int)));
    } else {
        let n = token_len(s);
        lemma_token_end(s);
        lemma_utf8_split(s, n as int);
        lemma_tokens_utf8(s.skip(n as int));
        let t = tokens(s);
        assert(t == seq![s.take(n as int)] + tokens(s.skip(n as int)));
        assert(vstd::utf8::valid_utf8(s.take(n as int)));
        assert forall|i: int| 0 <= i < t.len() implies vstd::utf8::valid_utf8(#[trigger] t[i]) by {
            if i == 0 {
                assert(t[0] == s.take(n as int));
            } else {
                assert(t[i] == tokens(s.skip(n as int))[i - 1]);
            }
        }
    }
}

/// A token ends at the end of the text or before a byte that starts a character.
pub proof fn lemma_token_end(s: Seq<u8>)
    ensures
        token_len(s) <= s.len(),
        token_len(s) < s.len() ==> ws_len(s.skip(token_len(s) as int)) > 0 && !vstd::utf8::is_continuation_byte(s[token_len(s) as int]),
    decreases s.len(),
{
    lemma_token_len_bound(s);
    if s.len() > 0 && ws_len(s) == 0 {
        lemma_token_end(s.drop_first());
        assert(s.drop_first().skip(token_len(s.drop_first()) as int) =~= s.skip(token_len(s) as int));
    } else if s.len() > 0 {
        assert(s.skip(0) =~= s);
    }
}

} // verus!
