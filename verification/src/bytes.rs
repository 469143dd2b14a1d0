//! Byte-level helpers shared by the parsers: slicing, searching,
//! splitting, ASCII trimming, little-endian readers, and a UTF-8 check.

use vstd::prelude::*;
use vstd::string::StringSliceAdditionalSpecFns;

verus! {

/// Copies `d[a..b]` into a fresh vector.
pub fn subvec(d: &[u8], a: usize, b: usize) -> (r: Vec<u8>)
    requires
        a <= b <= d@.len(),
    ensures
        r@ == d@.subrange(a as int, b as int),
{
    let mut out: Vec<u8> = Vec::new();
    let mut i = a;
    while i < b
        invariant
            a <= i <= b <= d@.len(),
            out@ =~= d@.subrange(a as int, i as int),
        decreases b - i,
    {
        let x = d[i];
        out.push(x);
        proof {
            assert(out@ =~= d@.subrange(a as int, i + 1));
        }
        i += 1;
    }
    out
}

/// Whether two byte strings hold the same bytes.
pub fn bytes_eq(a: &[u8], b: &[u8]) -> (r: bool)
    ensures
        r == (a@ == b@),
{
    if a.len() != b.len() {
        proof {
            assert(a@.len() != b@.len());
        }
        return false;
    }
    let mut i: usize = 0;
    while i < a.len()
        invariant
            i <= a@.len(),
            a@.len() == b@.len(),
            forall|j: int| 0 <= j < i ==> a@[j] == b@[j],
        decreases a@.len() - i,
    {
        if a[i] != b[i] {
            return false;
        }
        i += 1;
    }
    proof {
        assert(a@ =~= b@);
    }
    true
}

/// Whether `a` starts with the bytes of `p`.
pub fn starts_with(a: &[u8], p: &[u8]) -> (r: bool)
    ensures
        r == (a@.len() >= p@.len() && a@.take(p@.len() as int) == p@),
{
    if a.len() < p.len() {
        return false;
    }
    let mut i: usize = 0;
    while i < p.len()
        invariant
            i <= p@.len() <= a@.len(),
            forall|j: int| 0 <= j < i ==> a@[j] == p@[j],
        decreases p@.len() - i,
    {
        if a[i] != p[i] {
            proof {
                assert(a@.take(p@.len() as int)[i as int] != p@[i as int]);
            }
            return false;
        }
        i += 1;
    }
    proof {
        assert(a@.take(p@.len() as int) =~= p@);
    }
    true
}

/// The first occurrence of `sep` in `d` at or after `from`, if any.
pub fn find_byte(d: &[u8], from: usize, sep: u8) -> (r: Option<usize>)
    requires
        from <= d@.len(),
    ensures
        match r {
            Some(i) => from <= i < d@.len() && d@[i as int] == sep && forall|j: int|
                from <= j < i ==> d@[j] != sep,
            None => forall|j: int| from <= j < d@.len() ==> d@[j] != sep,
        },
{
    let mut i = from;
    while i < d.len()
        invariant
            from <= i <= d@.len(),
            forall|j: int| from <= j < i ==> d@[j] != sep,
        decreases d@.len() - i,
    {
        if d[i] == sep {
            return Some(i);
        }
        i += 1;
    }
    None
}

/// ASCII whitespace, as the parsers strip it.
pub open spec fn is_ws(b: u8) -> bool {
    b == 0x20 || b == 0x09 || b == 0x0A || b == 0x0B || b == 0x0C || b == 0x0D
}

/// A byte string with leading and trailing ASCII whitespace removed.
pub open spec fn spec_trim(s: Seq<u8>) -> Seq<u8>
    decreases s.len(),
{
    if s.len() == 0 {
        s
    } else if is_ws(s.first()) {
        spec_trim(s.drop_first())
    } else if is_ws(s.last()) {
        spec_trim(s.drop_last())
    } else {
        s
    }
}

proof fn lemma_trim_range(s: Seq<u8>, a: int, b: int)
    requires
        0 <= a <= b <= s.len(),
        forall|j: int| 0 <= j < a ==> is_ws(s[j]),
        forall|j: int| b <= j < s.len() ==> is_ws(s[j]),
        a < b ==> !is_ws(s[a]) && !is_ws(s[b - 1]),
    ensures
        spec_trim(s) == s.subrange(a, b),
    decreases s.len(),
{
    if s.len() == 0 {
        assert(s.subrange(a, b) =~= s);
    } else if is_ws(s.first()) {
        assert(a > 0 || (a == 0 && a < b ==> !is_ws(s[0])));
        assert(a > 0 || a == b);
        if a > 0 {
            lemma_trim_range(s.drop_first(), a - 1, b - 1);
            assert(s.drop_first().subrange(a - 1, b - 1) =~= s.subrange(a, b));
        } else {
            // a == b: everything is whitespace
            lemma_trim_range(s.drop_first(), 0, 0);
            assert(s.drop_first().subrange(0, 0) =~= s.subrange(a, b));
        }
    } else if is_ws(s.last()) {
        assert(b < s.len() || (a < b ==> !is_ws(s[s.len() - 1])));
        if b < s.len() {
            lemma_trim_range(s.drop_last(), a, b);
            assert(s.drop_last().subrange(a, b) =~= s.subrange(a, b));
        } else {
            assert(a == b);
            lemma_trim_range(s.drop_last(), a, a);
            assert(s.drop_last().subrange(a, a) =~= s.subrange(a, b));
        }
    } else {
        assert(a == 0 && b == s.len());
        assert(s.subrange(a, b) =~= s);
    }
}

/// Returns whether the byte is ASCII whitespace.
#[verifier::when_used_as_spec(is_ws)]
pub fn is_ws_byte(c: u8) -> (r: bool)
    ensures
        r == is_ws(c),
{
    c == 0x20 || c == 0x09 || c == 0x0A || c == 0x0B || c == 0x0C || c == 0x0D
}

/// Copies `s` with leading and trailing ASCII whitespace removed.
pub fn trim_ascii(s: &[u8]) -> (r: Vec<u8>)
    ensures
        r@ == spec_trim(s@),
{
    let mut a: usize = 0;
    while a < s.len() && is_ws_byte(s[a])
        invariant
            a <= s@.len(),
            forall|j: int| 0 <= j < a ==> is_ws(s@[j]),
        decreases s@.len() - a,
    {
        a += 1;
    }
    let mut b: usize = s.len();
    while b > a && is_ws_byte(s[b - 1])
        invariant
            a <= b <= s@.len(),
            forall|j: int| 0 <= j < a ==> is_ws(s@[j]),
            forall|j: int| b <= j < s@.len() ==> is_ws(s@[j]),
        decreases b,
    {
        b -= 1;
    }
    proof {
        lemma_trim_range(s@, a as int, b as int);
    }
    subvec(s, a, b)
}

/// Splits `s` at every occurrence of `sep`; an empty string yields one
/// empty field, and separators at the edges yield empty fields.
pub open spec fn spec_split(s: Seq<u8>, sep: u8) -> Seq<Seq<u8>>
    decreases s.len(),
{
    if s.len() == 0 {
        seq![s]
    } else if s.first() == sep {
        seq![Seq::empty()] + spec_split(s.drop_first(), sep)
    } else {
        let rest = spec_split(s.drop_first(), sep);
        seq![seq![s.first()] + rest.first()] + rest.drop_first()
    }
}

/// A split yields at least one field.
pub proof fn lemma_split_len(s: Seq<u8>, sep: u8)
    ensures
        spec_split(s, sep).len() >= 1,
    decreases s.len(),
{
    if s.len() > 0 {
        lemma_split_len(s.drop_first(), sep);
    }
}

/// Splitting at the first separator: the field before it, then the split
/// of what follows it; a string without the separator is one field.
pub proof fn lemma_split_at(s: Seq<u8>, sep: u8, i: int)
    requires
        0 <= i <= s.len(),
        forall|j: int| 0 <= j < i ==> s[j] != sep,
        i < s.len() ==> s[i] == sep,
    ensures
        i < s.len() ==> spec_split(s, sep) =~= seq![s.take(i)] + spec_split(s.skip(i + 1), sep),
        i == s.len() ==> spec_split(s, sep) =~= seq![s],
    decreases i,
{
    lemma_split_len(s, sep);
    if i == 0 {
        if s.len() > 0 {
            assert(s.take(0) =~= Seq::<u8>::empty());
            assert(s.skip(1) =~= s.drop_first());
        }
    } else {
        let d = s.drop_first();
        lemma_split_len(d, sep);
        lemma_split_at(d, sep, i - 1);
        let rest = spec_split(d, sep);
        if i < s.len() {
            assert(d.take(i - 1) =~= s.take(i).drop_first());
            assert(seq![s.first()] + s.take(i).drop_first() =~= s.take(i));
            assert(d.skip(i) =~= s.skip(i + 1));
            assert(rest.first() == s.take(i).drop_first());
            assert(rest.drop_first() =~= spec_split(s.skip(i + 1), sep));
            assert(spec_split(s, sep) =~= seq![s.take(i)] + spec_split(s.skip(i + 1), sep));
        } else {
            assert(rest =~= seq![d]);
            assert(seq![s.first()] + d =~= s);
            assert(spec_split(s, sep) =~= seq![s]);
        }
    }
}

/// Splits a byte string at every occurrence of `sep`.
pub fn split_on(s: &[u8], sep: u8) -> (r: Vec<Vec<u8>>)
    ensures
        r@.len() == spec_split(s@, sep).len(),
        forall|i: int| 0 <= i < r@.len() ==> (#[trigger] r@[i])@ == spec_split(s@, sep)[i],
{
    let n = s.len();
    let ghost whole = spec_split(s@, sep);
    let mut fields: Vec<Vec<u8>> = Vec::new();
    let mut start: usize = 0;
    proof {
        assert(s@.skip(0) =~= s@);
    }
    loop
        invariant
            start <= n == s@.len(),
            whole == spec_split(s@, sep),
            whole.len() == fields@.len() + spec_split(s@.skip(start as int), sep).len(),
            forall|i: int| 0 <= i < fields@.len() ==> (#[trigger] fields@[i])@ == whole[i],
            forall|i: int|
                0 <= i < spec_split(s@.skip(start as int), sep).len() ==> #[trigger] spec_split(
                    s@.skip(start as int),
                    sep,
                )[i] == whole[fields@.len() + i],
        decreases s@.len() - start,
    {
        let ghost rest = s@.skip(start as int);
        let ghost done = fields@.len() as int;
        let found = find_byte(s, start, sep);
        match found {
            Some(i) => {
                let field = subvec(s, start, i);
                proof {
                    lemma_split_at(rest, sep, i - start);
                    assert(rest.take(i - start) =~= s@.subrange(start as int, i as int));
                    assert(rest.skip(i - start + 1) =~= s@.skip(i + 1));
                    lemma_split_len(s@.skip(i + 1), sep);
                    assert(spec_split(rest, sep)[0] == field@);
                    assert(whole[done] == field@);
                    assert forall|k: int|
                        0 <= k < spec_split(s@.skip(i + 1), sep).len() implies #[trigger] spec_split(
                        s@.skip(i + 1),
                        sep,
                    )[k] == whole[done + 1 + k] by {
                        assert(spec_split(rest, sep)[k + 1] == spec_split(s@.skip(i + 1), sep)[k]);
                    }
                }
                fields.push(field);
                start = i + 1;
            },
            None => {
                let field = subvec(s, start, n);
                proof {
                    lemma_split_at(rest, sep, rest.len() as int);
                    assert(rest =~= s@.subrange(start as int, s@.len() as int));
                    assert(spec_split(rest, sep) =~= seq![field@]);
                    assert(spec_split(rest, sep)[0] == field@);
                    assert(whole[done] == field@);
                }
                fields.push(field);
                return fields;
            },
        }
    }
}

/// A byte string with one trailing carriage return removed.
pub open spec fn strip_cr(s: Seq<u8>) -> Seq<u8> {
    if s.len() > 0 && s.last() == 0x0D {
        s.drop_last()
    } else {
        s
    }
}

fn strip_cr_exec(input: Vec<u8>) -> (r: Vec<u8>)
    ensures
        r@ == strip_cr(input@),
{
    let mut s = input;
    if s.len() > 0 && s[s.len() - 1] == 0x0D {
        let _ = s.pop();
    }
    s
}

/// The lines of a byte string, as `str::lines` yields them: the fields of
/// a split at each newline, one trailing carriage return stripped from
/// each, without the final field when it is empty.
pub open spec fn spec_lines(d: Seq<u8>) -> Seq<Seq<u8>> {
    let f = spec_split(d, 0x0A);
    let kept = if f.last().len() == 0 {
        f.drop_last()
    } else {
        f
    };
    kept.map_values(|line: Seq<u8>| strip_cr(line))
}

/// Splits a byte string into its lines.
pub fn lines_of(d: &[u8]) -> (r: Vec<Vec<u8>>)
    ensures
        r@.len() == spec_lines(d@).len(),
        forall|i: int| 0 <= i < r@.len() ==> (#[trigger] r@[i])@ == spec_lines(d@)[i],
{
    let fields = split_on(d, 0x0A);
    let mut fields = fields;
    proof {
        lemma_split_len(d@, 0x0A);
    }
    let last_empty = fields[fields.len() - 1].len() == 0;
    if last_empty {
        let _ = fields.pop();
    }
    let mut lines: Vec<Vec<u8>> = Vec::new();
    let ghost kept = (if spec_split(d@, 0x0A).last().len() == 0 {
        spec_split(d@, 0x0A).drop_last()
    } else {
        spec_split(d@, 0x0A)
    });
    let mut i: usize = 0;
    proof {
        assert(fields@.len() == kept.len());
        assert(forall|j: int| 0 <= j < kept.len() ==> (#[trigger] fields@[j])@ == kept[j]);
        assert(spec_lines(d@).len() == kept.len());
    }
    while i < fields.len()
        invariant
            i <= fields@.len(),
            fields@.len() == kept.len(),
            forall|j: int| 0 <= j < kept.len() ==> (#[trigger] fields@[j])@ == kept[j],
            spec_lines(d@) == kept.map_values(|line: Seq<u8>| strip_cr(line)),
            lines@.len() == i,
            forall|j: int| 0 <= j < i ==> (#[trigger] lines@[j])@ == spec_lines(d@)[j],
        decreases fields@.len() - i,
    {
        let f = fields[i].clone();
        proof {
            assert(f@ == kept[i as int]);
            assert(spec_lines(d@)[i as int] == strip_cr(kept[i as int]));
        }
        let stripped = strip_cr_exec(f);
        lines.push(stripped);
        i += 1;
    }
    lines
}

/// Reads a 16-bit little-endian value.
pub open spec fn spec_le16(d: Seq<u8>, o: int) -> int {
    d[o] + 256 * d[o + 1]
}

/// Reads a 16-bit little-endian value at offset `o`.
pub fn le16(d: &[u8], o: usize) -> (r: u16)
    requires
        o + 2 <= d@.len(),
    ensures
        r == spec_le16(d@, o as int),
{
    let lo = d[o] as u16;
    let hi = d[o + 1] as u16;
    proof {
        assert(lo < 256 && hi < 256 ==> lo + (hi << 8) == lo + 256 * hi) by (bit_vector);
    }
    lo + (hi << 8)
}

/// Reads a 32-bit little-endian value.
pub open spec fn spec_le32(d: Seq<u8>, o: int) -> int {
    d[o] + 0x100 * d[o + 1] + 0x10000 * d[o + 2] + 0x1000000 * d[o + 3]
}

/// Reads a 32-bit little-endian value at offset `o`.
pub fn le32(d: &[u8], o: usize) -> (r: u32)
    requires
        o + 4 <= d@.len(),
    ensures
        r == spec_le32(d@, o as int),
{
    let b0 = d[o] as u32;
    let b1 = d[o + 1] as u32;
    let b2 = d[o + 2] as u32;
    let b3 = d[o + 3] as u32;
    proof {
        assert(b0 < 256 && b1 < 256 && b2 < 256 && b3 < 256 ==> b0 + (b1 << 8) + (b2 << 16) + (b3
            << 24) == b0 + 0x100 * b1 + 0x10000 * b2 + 0x1000000 * b3) by (bit_vector);
    }
    b0 + (b1 << 8) + (b2 << 16) + (b3 << 24)
}

/// Reads a 64-bit little-endian value.
pub open spec fn spec_le64(d: Seq<u8>, o: int) -> int {
    spec_le32(d, o) + 0x100000000 * spec_le32(d, o + 4)
}

/// Reads a 64-bit little-endian value at offset `o`.
pub fn le64(d: &[u8], o: usize) -> (r: u64)
    requires
        o + 8 <= d@.len(),
    ensures
        r == spec_le64(d@, o as int),
{
    let n = d.len();
    let lo = le32(d, o) as u64;
    let hi = le32(d, o + 4) as u64;
    proof {
        assert(lo + (hi << 32) == lo + 0x100000000 * hi) by (bit_vector)
            requires
                lo < 0x100000000,
                hi < 0x100000000,
        ;
    }
    lo + (hi << 32)
}


/// The decimal digits of `n`, most significant first.
pub open spec fn spec_dec(n: int) -> Seq<u8>
    decreases n,
{
    if n <= 0 {
        Seq::empty()
    } else {
        spec_dec(n / 10).push((0x30 + n % 10) as u8)
    }
}

/// The decimal rendering of `n`: its digits, or `0` itself.
pub open spec fn spec_dec_render(n: int) -> Seq<u8> {
    if n == 0 {
        seq![0x30u8]
    } else {
        spec_dec(n)
    }
}

/// Renders a 64-bit value in decimal ASCII.
pub fn dec_digits(n: u64) -> (r: Vec<u8>)
    ensures
        r@ == spec_dec_render(n as int),
{
    if n == 0 {
        let mut v: Vec<u8> = Vec::new();
        v.push(0x30);
        proof {
            assert(v@ =~= spec_dec_render(0));
        }
        return v;
    }
    let mut rev: Vec<u8> = Vec::new();
    let mut m = n;
    while m > 0
        invariant
            spec_dec(n as int) =~= spec_dec(m as int) + rev@.reverse(),
        decreases m,
    {
        let ghost prev = rev@;
        let d = (m % 10) as u8;
        rev.push(0x30 + d);
        m = m / 10;
        proof {
            assert(rev@.reverse() =~= seq![(0x30 + d) as u8] + prev.reverse());
            assert(spec_dec((m as int) * 10 + d) == spec_dec(m as int).push((0x30 + d) as u8));
            assert(spec_dec(m as int) + rev@.reverse() =~= (spec_dec(m as int).push(
                (0x30 + d) as u8,
            )) + prev.reverse());
        }
    }
    let mut out: Vec<u8> = Vec::new();
    let mut i: usize = rev.len();
    while i > 0
        invariant
            i <= rev@.len(),
            out@ =~= rev@.reverse().take(rev@.len() - i),
        decreases i,
    {
        i = i - 1;
        let b = rev[i];
        out.push(b);
        proof {
            assert(rev@.reverse()[rev@.len() - i - 1] == rev@[i as int]);
            assert(out@ =~= rev@.reverse().take(rev@.len() - i));
        }
    }
    proof {
        assert(rev@.reverse().take(rev@.len() as int) =~= rev@.reverse());
        assert(spec_dec(0) =~= Seq::<u8>::empty());
        assert(out@ =~= spec_dec(n as int));
    }
    out
}

/// Whether a byte is an ASCII decimal digit.
pub open spec fn is_digit(b: u8) -> bool {
    0x30 <= b <= 0x39
}

/// The value of a digit string read most significant first.
pub open spec fn spec_dec_value(d: Seq<u8>) -> int
    decreases d.len(),
{
    if d.len() == 0 {
        0
    } else {
        spec_dec_value(d.drop_last()) * 10 + (d.last() - 0x30)
    }
}

/// Parses an unsigned decimal number: `Some` exactly when the string is
/// non-empty, all digits, and the value fits in 64 bits.
pub fn parse_dec(d: &[u8]) -> (r: Option<u64>)
    ensures
        match r {
            Some(v) => d@.len() > 0 && (forall|i: int| 0 <= i < d@.len() ==> is_digit(d@[i])) && v
                == spec_dec_value(d@),
            None => d@.len() == 0 || (exists|i: int| 0 <= i < d@.len() && !is_digit(d@[i]))
                || spec_dec_value(d@) > u64::MAX,
        },
{
    if d.len() == 0 {
        return None;
    }
    let mut acc: u64 = 0;
    let mut i: usize = 0;
    while i < d.len()
        invariant
            i <= d@.len(),
            forall|j: int| 0 <= j < i ==> is_digit(d@[j]),
            acc == spec_dec_value(d@.take(i as int)),
        decreases d@.len() - i,
    {
        let c = d[i];
        if c < 0x30 || c > 0x39 {
            return None;
        }
        let digit = (c - 0x30) as u64;
        let next = match acc.checked_mul(10) {
            Some(m) => match m.checked_add(digit) {
                Some(s) => s,
                None => {
                    proof {
                        lemma_dec_value_grows(d@, i as int);
                    }
                    return None;
                },
            },
            None => {
                proof {
                    lemma_dec_value_grows(d@, i as int);
                }
                return None;
            },
        };
        acc = next;
        proof {
            assert(d@.take(i + 1).drop_last() =~= d@.take(i as int));
            assert(d@.take(i + 1).last() == d@[i as int]);
        }
        i += 1;
    }
    proof {
        assert(d@.take(d@.len() as int) =~= d@);
    }
    Some(acc)
}

proof fn lemma_dec_value_grows(d: Seq<u8>, i: int)
    requires
        0 <= i < d.len(),
        forall|j: int| 0 <= j < i ==> is_digit(d[j]),
        is_digit(d[i]),
        spec_dec_value(d.take(i)) * 10 + (d[i] - 0x30) > u64::MAX,
    ensures
        spec_dec_value(d) > u64::MAX,
    decreases d.len() - i,
{
    assert(d.take(i + 1).drop_last() =~= d.take(i));
    assert(d.take(i + 1).last() == d[i]);
    if i + 1 == d.len() {
        assert(d.take(i + 1) =~= d);
    } else {
        lemma_dec_value_monotonic(d, i + 1);
    }
}

proof fn lemma_dec_value_monotonic(d: Seq<u8>, i: int)
    requires
        0 < i < d.len(),
        spec_dec_value(d.take(i)) > u64::MAX,
    ensures
        spec_dec_value(d) > u64::MAX,
    decreases d.len() - i,
{
    assert(d.take(i + 1).drop_last() =~= d.take(i));
    assert(spec_dec_value(d.take(i + 1)) == spec_dec_value(d.take(i)) * 10 + (d.take(i + 1).last()
        - 0x30));
    assert(spec_dec_value(d.take(i)) * 10 >= spec_dec_value(d.take(i))) by (nonlinear_arith)
        requires
            spec_dec_value(d.take(i)) > 0,
    ;
    assert(spec_dec_value(d.take(i + 1)) >= spec_dec_value(d.take(i)) - 0x30);
    assert(spec_dec_value(d.take(i + 1)) > u64::MAX) by (nonlinear_arith)
        requires
            spec_dec_value(d.take(i)) > u64::MAX,
            spec_dec_value(d.take(i + 1)) == spec_dec_value(d.take(i)) * 10 + (d.take(i + 1).last()
                - 0x30),
            d.take(i + 1).last() - 0x30 >= -0x30,
    ;
    if i + 1 == d.len() {
        assert(d.take(i + 1) =~= d);
    } else {
        lemma_dec_value_monotonic(d, i + 1);
    }
}

/// An ASCII byte with any upper-case letter folded to lower case.
pub open spec fn spec_lower(b: u8) -> u8 {
    if 0x41 <= b <= 0x5A {
        (b + 0x20) as u8
    } else {
        b
    }
}

/// Whether two byte strings agree up to ASCII case.
pub open spec fn spec_eq_ignore_case(a: Seq<u8>, b: Seq<u8>) -> bool {
    a.len() == b.len() && forall|i: int| 0 <= i < a.len() ==> spec_lower(a[i]) == spec_lower(b[i])
}

/// Compares two byte strings ignoring ASCII case.
pub fn eq_ignore_ascii_case(a: &[u8], b: &[u8]) -> (r: bool)
    ensures
        r == spec_eq_ignore_case(a@, b@),
{
    if a.len() != b.len() {
        return false;
    }
    let mut i: usize = 0;
    while i < a.len()
        invariant
            i <= a@.len(),
            a@.len() == b@.len(),
            forall|j: int| 0 <= j < i ==> spec_lower(a@[j]) == spec_lower(b@[j]),
        decreases a@.len() - i,
    {
        let ca = a[i];
        let cb = b[i];
        let la = if 0x41 <= ca && ca <= 0x5A {
            ca + 0x20
        } else {
            ca
        };
        let lb = if 0x41 <= cb && cb <= 0x5A {
            cb + 0x20
        } else {
            cb
        };
        if la != lb {
            return false;
        }
        i += 1;
    }
    true
}

/// Strict lexicographic order on byte strings.
pub open spec fn spec_lex_lt(a: Seq<u8>, b: Seq<u8>) -> bool
    decreases a.len(),
{
    if b.len() == 0 {
        false
    } else if a.len() == 0 {
        true
    } else if a.first() != b.first() {
        a.first() < b.first()
    } else {
        spec_lex_lt(a.drop_first(), b.drop_first())
    }
}

/// Compares two byte strings lexicographically.
pub fn bytes_lt(a: &[u8], b: &[u8]) -> (r: bool)
    ensures
        r == spec_lex_lt(a@, b@),
{
    let mut i: usize = 0;
    proof {
        assert(a@.skip(0) =~= a@);
        assert(b@.skip(0) =~= b@);
    }
    loop
        invariant
            i <= a@.len(),
            i <= b@.len(),
            spec_lex_lt(a@, b@) == spec_lex_lt(a@.skip(i as int), b@.skip(i as int)),
        decreases a@.len() - i,
    {
        proof {
            if i < b@.len() {
                assert(b@.skip(i as int).len() > 0);
                assert(b@.skip(i as int).drop_first() =~= b@.skip(i + 1));
            }
            if i < a@.len() {
                assert(a@.skip(i as int).drop_first() =~= a@.skip(i + 1));
            }
        }
        if i == b.len() {
            return false;
        }
        if i == a.len() {
            return true;
        }
        let ca = a[i];
        let cb = b[i];
        if ca != cb {
            return ca < cb;
        }
        i += 1;
    }
}

/// Appends the bytes of `src` to `dst`.
pub fn append_bytes(dst: &mut Vec<u8>, src: &[u8])
    ensures
        final(dst)@ == old(dst)@ + src@,
{
    let mut i: usize = 0;
    while i < src.len()
        invariant
            i <= src@.len(),
            dst@ =~= old(dst)@ + src@.take(i as int),
        decreases src@.len() - i,
    {
        let b = src[i];
        dst.push(b);
        proof {
            assert(dst@ =~= old(dst)@ + src@.take(i + 1));
        }
        i += 1;
    }
    proof {
        assert(src@.take(src@.len() as int) =~= src@);
    }
}

/// Whether two string slices hold the same characters.
pub fn str_eq(a: &str, b: &str) -> (r: bool)
    ensures
        r == (a@ == b@),
{
    let r = bytes_eq(a.as_bytes(), b.as_bytes());
    proof {
        if r {
            vstd::utf8::encode_utf8_decode_utf8(a@);
            vstd::utf8::encode_utf8_decode_utf8(b@);
        }
    }
    r
}

/// Relies on `core::str::from_utf8`: it accepts exactly the byte strings
/// that are valid UTF-8, as `vstd::utf8::valid_utf8` defines them.
#[verifier::external_body]
pub fn utf8_check(v: &[u8]) -> (r: bool)
    ensures
        r == vstd::utf8::valid_utf8(v@),
{
    core::str::from_utf8(v).is_ok()
}

/// Relies on `core::str::from_utf8`: on UTF-8 input it returns the string
/// slice viewing exactly the input bytes.
#[verifier::external_body]
pub fn utf8_to_str(v: &[u8]) -> (r: Option<&str>)
    ensures
        match r {
            Some(s) => vstd::utf8::valid_utf8(v@) && s.spec_bytes() == v@,
            None => !vstd::utf8::valid_utf8(v@),
        },
{
    core::str::from_utf8(v).ok()
}

} // verus!
