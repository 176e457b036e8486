//! Byte-level building blocks shared by the codecs: big-endian integers,
//! decimal and hexadecimal renderings, decimal parsing, and small sequence
//! utilities, each proved against a direct mathematical definition.

use vstd::prelude::*;

verus! {

/// The four big-endian bytes of a 32-bit integer.
pub open spec fn spec_u32_to_be(x: u32) -> Seq<u8> {
    seq![(x >> 24) as u8, (x >> 16) as u8, (x >> 8) as u8, x as u8]
}

/// The 32-bit integer spelled by four big-endian bytes.
pub open spec fn spec_u32_from_be(s: Seq<u8>) -> u32
    recommends
        s.len() == 4,
{
    ((s[0] as u32) << 24) | ((s[1] as u32) << 16) | ((s[2] as u32) << 8) | (s[3] as u32)
}

/// The eight big-endian bytes of a 64-bit integer.
pub open spec fn spec_u64_to_be(x: u64) -> Seq<u8> {
    seq![
        (x >> 56) as u8,
        (x >> 48) as u8,
        (x >> 40) as u8,
        (x >> 32) as u8,
        (x >> 24) as u8,
        (x >> 16) as u8,
        (x >> 8) as u8,
        x as u8,
    ]
}

/// The 64-bit integer spelled by eight big-endian bytes.
pub open spec fn spec_u64_from_be(s: Seq<u8>) -> u64
    recommends
        s.len() == 8,
{
    ((s[0] as u64) << 56) | ((s[1] as u64) << 48) | ((s[2] as u64) << 40) | ((s[3] as u64) << 32)
        | ((s[4] as u64) << 24) | ((s[5] as u64) << 16) | ((s[6] as u64) << 8) | (s[7] as u64)
}

/// Reading back the big-endian bytes of a 32-bit integer recovers it.
pub proof fn lemma_u32_be_round_trip(x: u32)
    ensures
        spec_u32_from_be(spec_u32_to_be(x)) == x,
{
    assert(((((x >> 24) as u8) as u32) << 24) | ((((x >> 16) as u8) as u32) << 16) | ((((x
        >> 8) as u8) as u32) << 8) | ((x as u8) as u32) == x) by (bit_vector);
}

/// Reading back the big-endian bytes of a 64-bit integer recovers it.
pub proof fn lemma_u64_be_round_trip(x: u64)
    ensures
        spec_u64_from_be(spec_u64_to_be(x)) == x,
{
    assert(((((x >> 56) as u8) as u64) << 56) | ((((x >> 48) as u8) as u64) << 48) | ((((x
        >> 40) as u8) as u64) << 40) | ((((x >> 32) as u8) as u64) << 32) | ((((x
        >> 24) as u8) as u64) << 24) | ((((x >> 16) as u8) as u64) << 16) | ((((x
        >> 8) as u8) as u64) << 8) | ((x as u8) as u64) == x) by (bit_vector);
}

/// Reads a big-endian 32-bit integer at a given offset.
pub fn u32_from_be_at(data: &[u8], pos: usize) -> (x: u32)
    requires
        pos + 4 <= data.len(),
    ensures
        x == spec_u32_from_be(data@.subrange(pos as int, pos as int + 4)),
{
    let b0 = data[pos];
    let b1 = data[pos + 1];
    let b2 = data[pos + 2];
    let b3 = data[pos + 3];
    ((b0 as u32) << 24) | ((b1 as u32) << 16) | ((b2 as u32) << 8) | (b3 as u32)
}

/// Reads a big-endian 64-bit integer at a given offset.
pub fn u64_from_be_at(data: &[u8], pos: usize) -> (x: u64)
    requires
        pos + 8 <= data.len(),
    ensures
        x == spec_u64_from_be(data@.subrange(pos as int, pos as int + 8)),
{
    let b0 = data[pos];
    let b1 = data[pos + 1];
    let b2 = data[pos + 2];
    let b3 = data[pos + 3];
    let b4 = data[pos + 4];
    let b5 = data[pos + 5];
    let b6 = data[pos + 6];
    let b7 = data[pos + 7];
    ((b0 as u64) << 56) | ((b1 as u64) << 48) | ((b2 as u64) << 40) | ((b3 as u64) << 32) | ((
    b4 as u64) << 24) | ((b5 as u64) << 16) | ((b6 as u64) << 8) | (b7 as u64)
}

/// Appends the four big-endian bytes of a 32-bit integer.
pub fn push_u32_be(out: &mut Vec<u8>, x: u32)
    ensures
        final(out)@ == old(out)@ + spec_u32_to_be(x),
{
    out.push((x >> 24) as u8);
    out.push((x >> 16) as u8);
    out.push((x >> 8) as u8);
    out.push(x as u8);
    assert(out@ =~= old(out)@ + spec_u32_to_be(x));
}

/// Appends the eight big-endian bytes of a 64-bit integer.
pub fn push_u64_be(out: &mut Vec<u8>, x: u64)
    ensures
        final(out)@ == old(out)@ + spec_u64_to_be(x),
{
    out.push((x >> 56) as u8);
    out.push((x >> 48) as u8);
    out.push((x >> 40) as u8);
    out.push((x >> 32) as u8);
    out.push((x >> 24) as u8);
    out.push((x >> 16) as u8);
    out.push((x >> 8) as u8);
    out.push(x as u8);
    assert(out@ =~= old(out)@ + spec_u64_to_be(x));
}

/// Compares two byte strings for equality.
pub fn bytes_eq(a: &[u8], b: &[u8]) -> (r: bool)
    ensures
        r == (a@ == b@),
{
    if a.len() != b.len() {
        assert(a@ != b@) by {
            assert(a@.len() != b@.len());
        }
        return false;
    }
    let n = a.len();
    let mut i: usize = 0;
    while i < n
        invariant
            n == a.len() == b.len(),
            i <= n,
            forall|j: int| 0 <= j < i ==> a@[j] == b@[j],
        decreases n - i,
    {
        if a[i] != b[i] {
            return false;
        }
        i += 1;
    }
    assert(a@ =~= b@);
    true
}

/// Whether a byte is a decimal digit.
pub open spec fn is_dec_digit(b: u8) -> bool {
    48 <= b <= 57
}

/// Whether every byte of a string is a decimal digit.
pub open spec fn all_dec_digits(s: Seq<u8>) -> bool {
    forall|i: int| 0 <= i < s.len() ==> is_dec_digit(#[trigger] s[i])
}

/// The number a string of decimal digits spells.
pub open spec fn spec_dec_val(s: Seq<u8>) -> int
    decreases s.len(),
{
    if s.len() == 0 {
        0
    } else {
        spec_dec_val(s.drop_last()) * 10 + (s.last() - 48)
    }
}

/// The decimal rendering of a 64-bit integer, most significant digit first.
pub open spec fn spec_dec_u64(n: u64) -> Seq<u8>
    decreases n,
{
    if n < 10 {
        seq![(48 + n) as u8]
    } else {
        spec_dec_u64(n / 10) + seq![(48 + n % 10) as u8]
    }
}

/// A decimal rendering consists of digits and is never empty.
pub proof fn lemma_dec_u64_digits(n: u64)
    ensures
        spec_dec_u64(n).len() >= 1,
        all_dec_digits(spec_dec_u64(n)),
    decreases n,
{
    if n >= 10 {
        lemma_dec_u64_digits(n / 10);
        assert forall|i: int| 0 <= i < spec_dec_u64(n).len() implies is_dec_digit(
            #[trigger] spec_dec_u64(n)[i],
        ) by {
            if i < spec_dec_u64(n / 10).len() {
                assert(spec_dec_u64(n)[i] == spec_dec_u64(n / 10)[i]);
            }
        }
    }
}

/// Reading back the decimal rendering of an integer recovers it.
pub proof fn lemma_dec_u64_val(n: u64)
    ensures
        spec_dec_val(spec_dec_u64(n)) == n,
    decreases n,
{
    if n < 10 {
        assert(spec_dec_u64(n).drop_last() =~= Seq::<u8>::empty());
        assert(spec_dec_u64(n).last() == (48 + n) as u8);
        assert(spec_dec_val(Seq::<u8>::empty()) == 0);
        assert(spec_dec_val(spec_dec_u64(n)) == 0 * 10 + ((48 + n) as u8 - 48));
    } else {
        lemma_dec_u64_val(n / 10);
        assert(spec_dec_u64(n).drop_last() =~= spec_dec_u64(n / 10));
        assert(spec_dec_u64(n).last() == (48 + n % 10) as u8);
        assert(spec_dec_val(spec_dec_u64(n)) == (n / 10) * 10 + n % 10);
    }
}

/// Appends the decimal rendering of a 64-bit integer.
pub fn push_dec_u64(out: &mut Vec<u8>, n: u64)
    ensures
        final(out)@ == old(out)@ + spec_dec_u64(n),
    decreases n,
{
    if n < 10 {
        out.push(48 + n as u8);
        assert(out@ =~= old(out)@ + spec_dec_u64(n));
    } else {
        push_dec_u64(out, n / 10);
        out.push(48 + (n % 10) as u8);
        assert(out@ =~= old(out)@ + spec_dec_u64(n));
    }
}

/// The hexadecimal digit of a value below 16, with upper-case letters.
pub open spec fn spec_hex_digit(d: int) -> u8 {
    if d < 10 {
        (48 + d) as u8
    } else {
        (55 + d) as u8
    }
}

/// The hexadecimal rendering of a 32-bit integer, upper case, without
/// leading zeroes, most significant digit first.
pub open spec fn spec_hex_u32(n: u32) -> Seq<u8>
    decreases n,
{
    if n < 16 {
        seq![spec_hex_digit(n as int)]
    } else {
        spec_hex_u32(n / 16) + seq![spec_hex_digit((n % 16) as int)]
    }
}

/// Appends the hexadecimal rendering of a 32-bit integer.
pub fn push_hex_u32(out: &mut Vec<u8>, n: u32)
    ensures
        final(out)@ == old(out)@ + spec_hex_u32(n),
    decreases n,
{
    let d = (n % 16) as u8;
    let digit: u8 = if d < 10 {
        48 + d
    } else {
        55 + d
    };
    if n < 16 {
        out.push(digit);
        assert(out@ =~= old(out)@ + spec_hex_u32(n));
    } else {
        push_hex_u32(out, n / 16);
        out.push(digit);
        assert(out@ =~= old(out)@ + spec_hex_u32(n));
    }
}

/// The value of a longer digit prefix is at least the value of a shorter one.
proof fn lemma_dec_val_prefix_mono(s: Seq<u8>, i: int, j: int)
    requires
        all_dec_digits(s),
        0 <= i <= j <= s.len(),
    ensures
        spec_dec_val(s.subrange(0, i)) <= spec_dec_val(s.subrange(0, j)),
        spec_dec_val(s.subrange(0, i)) >= 0,
    decreases j - i,
{
    if i == j {
        lemma_dec_val_nonneg(s.subrange(0, i));
    } else {
        lemma_dec_val_prefix_mono(s, i, j - 1);
        assert(s.subrange(0, j).drop_last() =~= s.subrange(0, j - 1));
        assert(s.subrange(0, j).last() == s[j - 1]);
    }
}

/// The value of a digit string is not negative.
proof fn lemma_dec_val_nonneg(s: Seq<u8>)
    requires
        all_dec_digits(s),
    ensures
        spec_dec_val(s) >= 0,
    decreases s.len(),
{
    if s.len() > 0 {
        assert(all_dec_digits(s.drop_last())) by {
            assert(forall|i: int|
                0 <= i < s.len() - 1 ==> #[trigger] s.drop_last()[i] == s[i]);
        }
        lemma_dec_val_nonneg(s.drop_last());
    }
}

/// The unsigned 64-bit integer a byte string spells in decimal, if any.
/// A single leading plus sign is accepted.
pub open spec fn spec_parse_u64(s: Seq<u8>) -> Option<u64> {
    let t = if s.len() > 0 && s[0] == 43 {
        s.skip(1)
    } else {
        s
    };
    if t.len() == 0 || !all_dec_digits(t) {
        None
    } else if spec_dec_val(t) > u64::MAX {
        None
    } else {
        Some(spec_dec_val(t) as u64)
    }
}

/// Parses an unsigned 64-bit decimal integer.
pub fn parse_u64_bytes(s: &[u8]) -> (r: Option<u64>)
    ensures
        r == spec_parse_u64(s@),
{
    let offset: usize = if s.len() > 0 && s[0] == 43 {
        1
    } else {
        0
    };
    let ghost t = if s@.len() > 0 && s@[0] == 43 {
        s@.skip(1)
    } else {
        s@
    };
    assert(t =~= s@.subrange(offset as int, s@.len() as int));
    if s.len() == offset {
        return None;
    }
    let mut acc: u64 = 0;
    let mut i: usize = offset;
    while i < s.len()
        invariant
            offset <= i <= s.len(),
            offset == 1 <==> s@.len() > 0 && s@[0] == 43,
            offset <= 1,
            t == (if s@.len() > 0 && s@[0] == 43 {
                s@.skip(1)
            } else {
                s@
            }),
            t =~= s@.subrange(offset as int, s@.len() as int),
            all_dec_digits(t.subrange(0, i - offset)),
            acc == spec_dec_val(t.subrange(0, i - offset)),
        decreases s.len() - i,
    {
        let b = s[i];
        if b < 48 || b > 57 {
            assert(!all_dec_digits(t)) by {
                assert(t[i - offset] == b);
            }
            return None;
        }
        let d = (b - 48) as u64;
        proof {
            assert(t.subrange(0, i + 1 - offset).drop_last() =~= t.subrange(0, i - offset));
            assert(t.subrange(0, i + 1 - offset).last() == b);
        }
        if acc > 1844674407370955161u64 || (acc == 1844674407370955161u64 && d > 5) {
            proof {
                assert(spec_dec_val(t.subrange(0, i + 1 - offset)) == acc * 10 + d);
                if all_dec_digits(t) {
                    lemma_dec_val_prefix_mono(t, i + 1 - offset, t.len() as int);
                    assert(t.subrange(0, t.len() as int) =~= t);
                    assert(spec_dec_val(t) > u64::MAX);
                }
            }
            return None;
        }
        acc = acc * 10 + d;
        i += 1;
    }
    proof {
        assert(t.subrange(0, t.len() as int) =~= t);
    }
    Some(acc)
}


/// Whether a byte is ASCII whitespace.
pub open spec fn is_ws(b: u8) -> bool {
    b == 32 || b == 9 || b == 10 || b == 11 || b == 12 || b == 13
}

/// A byte string without its leading whitespace.
pub open spec fn spec_trim_front(s: Seq<u8>) -> Seq<u8>
    decreases s.len(),
{
    if s.len() > 0 && is_ws(s[0]) {
        spec_trim_front(s.skip(1))
    } else {
        s
    }
}

/// A byte string without its trailing whitespace.
pub open spec fn spec_trim_back(s: Seq<u8>) -> Seq<u8>
    decreases s.len(),
{
    if s.len() > 0 && is_ws(s.last()) {
        spec_trim_back(s.drop_last())
    } else {
        s
    }
}

/// A byte string without leading or trailing whitespace.
pub open spec fn spec_trim(s: Seq<u8>) -> Seq<u8> {
    spec_trim_back(spec_trim_front(s))
}

/// A string that neither starts nor ends with whitespace is its own trim.
pub proof fn lemma_trim_id(s: Seq<u8>)
    requires
        s.len() == 0 || (!is_ws(s[0]) && !is_ws(s.last())),
    ensures
        spec_trim(s) == s,
{
}

/// Copies a byte string without its leading and trailing whitespace.
pub fn trim_bytes(s: &[u8]) -> (r: Vec<u8>)
    ensures
        r@ == spec_trim(s@),
{
    proof {
        assert(s@.skip(0int) =~= s@);
    }
    let mut start: usize = 0;
    while start < s.len() && (s[start] == 32 || s[start] == 9 || s[start] == 10 || s[start] == 11
        || s[start] == 12 || s[start] == 13)
        invariant
            start <= s.len(),
            spec_trim_front(s@) == spec_trim_front(s@.skip(start as int)),
        decreases s.len() - start,
    {
        proof {
            assert(s@.skip(start as int).skip(1) =~= s@.skip(start as int + 1));
        }
        start += 1;
    }
    let ghost t = s@.skip(start as int);
    proof {
        if start < s.len() {
            assert(!is_ws(t[0]));
        }
        assert(spec_trim_front(t) == t);
    }
    let mut end: usize = s.len();
    while end > start && (s[end - 1] == 32 || s[end - 1] == 9 || s[end - 1] == 10 || s[end - 1]
        == 11 || s[end - 1] == 12 || s[end - 1] == 13)
        invariant
            start <= end <= s.len(),
            t == s@.skip(start as int),
            spec_trim_back(t) == spec_trim_back(s@.subrange(start as int, end as int)),
        decreases end,
    {
        proof {
            let cur = s@.subrange(start as int, end as int);
            assert(cur.last() == s@[end - 1]);
            assert(cur.drop_last() =~= s@.subrange(start as int, end as int - 1));
        }
        end -= 1;
    }
    proof {
        let cur = s@.subrange(start as int, end as int);
        if end > start {
            assert(cur.last() == s@[end - 1]);
            assert(!is_ws(cur.last()));
        }
        assert(spec_trim_back(cur) == cur);
    }
    let mut out: Vec<u8> = Vec::new();
    let mut i: usize = start;
    while i < end
        invariant
            start <= i <= end <= s.len(),
            out@ =~= s@.subrange(start as int, i as int),
        decreases end - i,
    {
        out.push(s[i]);
        assert(out@ =~= s@.subrange(start as int, i as int + 1));
        i += 1;
    }
    proof {
        assert(t =~= s@.subrange(start as int, s@.len() as int));
        assert(spec_trim(s@) == spec_trim_back(t));
        assert(spec_trim_back(t) == spec_trim_back(s@.subrange(start as int, end as int)));
    }
    out
}

/// A byte string with every double-quote character removed.
pub open spec fn spec_strip_quotes(s: Seq<u8>) -> Seq<u8>
    decreases s.len(),
{
    if s.len() == 0 {
        Seq::empty()
    } else if s[0] == 34 {
        spec_strip_quotes(s.skip(1))
    } else {
        seq![s[0]] + spec_strip_quotes(s.skip(1))
    }
}

/// A string without double quotes is unchanged by quote stripping.
pub proof fn lemma_strip_quotes_id(s: Seq<u8>)
    requires
        forall|i: int| 0 <= i < s.len() ==> s[i] != 34,
    ensures
        spec_strip_quotes(s) == s,
    decreases s.len(),
{
    if s.len() > 0 {
        lemma_strip_quotes_id(s.skip(1));
        assert(seq![s[0]] + s.skip(1) =~= s);
    }
}

/// Stripping quotes from a quote-wrapped clean string yields the string.
pub proof fn lemma_strip_quotes_wrap(s: Seq<u8>)
    requires
        forall|i: int| 0 <= i < s.len() ==> s[i] != 34,
    ensures
        spec_strip_quotes(seq![34u8] + s + seq![34u8]) == s,
{
    let w = seq![34u8] + s + seq![34u8];
    assert(w[0] == 34);
    assert(w.skip(1) =~= s + seq![34u8]);
    lemma_strip_quotes_snoc_quote(s);
}

/// Stripping quotes from a clean string with one trailing quote.
proof fn lemma_strip_quotes_snoc_quote(s: Seq<u8>)
    requires
        forall|i: int| 0 <= i < s.len() ==> s[i] != 34,
    ensures
        spec_strip_quotes(s + seq![34u8]) == s,
    decreases s.len(),
{
    let w = s + seq![34u8];
    if s.len() == 0 {
        assert(w =~= seq![34u8]);
        assert(w[0] == 34);
        assert(w.skip(1) =~= Seq::<u8>::empty());
        assert(spec_strip_quotes(Seq::<u8>::empty()) =~= Seq::<u8>::empty());
        assert(s =~= Seq::<u8>::empty());
    } else {
        assert(forall|i: int| 0 <= i < s.skip(1).len() ==> s.skip(1)[i] != 34) by {
            assert(forall|i: int| 0 <= i < s.skip(1).len() ==> s.skip(1)[i] == s[i + 1]);
        }
        lemma_strip_quotes_snoc_quote(s.skip(1));
        assert(s[0] != 34);
        assert(w[0] == s[0]);
        assert(w.skip(1) =~= s.skip(1) + seq![34u8]);
        assert(spec_strip_quotes(w) == seq![s[0]] + s.skip(1));
        assert(seq![s[0]] + s.skip(1) =~= s);
    }
}

/// Copies a byte string, dropping every double-quote character.
pub fn strip_quotes(s: &[u8]) -> (r: Vec<u8>)
    ensures
        r@ == spec_strip_quotes(s@),
{
    let mut out: Vec<u8> = Vec::new();
    proof {
        assert(s@.skip(0int) =~= s@);
        assert(Seq::<u8>::empty() + spec_strip_quotes(s@) =~= spec_strip_quotes(s@));
    }
    let mut i: usize = 0;
    while i < s.len()
        invariant
            i <= s.len(),
            spec_strip_quotes(s@) == out@ + spec_strip_quotes(s@.skip(i as int)),
        decreases s.len() - i,
    {
        let ghost pre = s@.skip(i as int);
        proof {
            assert(pre[0] == s@[i as int]);
            assert(pre.skip(1) =~= s@.skip(i as int + 1));
        }
        if s[i] != 34 {
            out.push(s[i]);
            proof {
                assert(out@.drop_last() + (seq![pre[0]] + spec_strip_quotes(pre.skip(1)))
                    =~= out@ + spec_strip_quotes(pre.skip(1)));
            }
        }
        i += 1;
    }
    proof {
        assert(s@.skip(s@.len() as int) =~= Seq::<u8>::empty());
        assert(out@ + Seq::<u8>::empty() =~= out@);
    }
    out
}

/// The lines of a byte string, split at each newline byte.  A string
/// without newlines is one line; each newline ends a line, so a trailing
/// newline contributes a final empty line.
pub open spec fn spec_split_lines(s: Seq<u8>) -> Seq<Seq<u8>>
    decreases s.len(),
{
    if s.len() == 0 {
        seq![Seq::empty()]
    } else if s[0] == 10 {
        seq![Seq::empty()] + spec_split_lines(s.skip(1))
    } else {
        let rest = spec_split_lines(s.skip(1));
        seq![seq![s[0]] + rest[0]] + rest.skip(1)
    }
}

/// Splitting always yields at least one line.
pub proof fn lemma_split_lines_len(s: Seq<u8>)
    ensures
        spec_split_lines(s).len() >= 1,
    decreases s.len(),
{
    if s.len() > 0 {
        lemma_split_lines_len(s.skip(1));
    }
}

/// A newline-free line followed by a newline splits off as one line.
pub proof fn lemma_split_lines_chunk(line: Seq<u8>, rest: Seq<u8>)
    requires
        forall|i: int| 0 <= i < line.len() ==> line[i] != 10,
    ensures
        spec_split_lines(line + seq![10u8] + rest) == seq![line] + spec_split_lines(rest),
    decreases line.len(),
{
    let w = line + seq![10u8] + rest;
    if line.len() == 0 {
        assert(w =~= seq![10u8] + rest);
        assert(w[0] == 10);
        assert(w.skip(1) =~= rest);
        assert(line =~= Seq::<u8>::empty());
    } else {
        lemma_split_lines_chunk(line.skip(1), rest);
        assert(w[0] == line[0]);
        assert(w.skip(1) =~= line.skip(1) + seq![10u8] + rest);
        lemma_split_lines_len(rest);
        let inner = spec_split_lines(line.skip(1) + seq![10u8] + rest);
        assert(inner == seq![line.skip(1)] + spec_split_lines(rest));
        assert(inner[0] == line.skip(1));
        assert(seq![w[0]] + inner[0] =~= line);
        assert(inner.skip(1) =~= spec_split_lines(rest));
        assert(spec_split_lines(w) == seq![seq![w[0]] + inner[0]] + inner.skip(1));
        assert(seq![line] + spec_split_lines(rest) =~= seq![seq![w[0]] + inner[0]] + inner.skip(
            1,
        ));
    }
}

/// The view of a vector of lines.
pub open spec fn lines_view(ls: Seq<Vec<u8>>) -> Seq<Seq<u8>> {
    ls.map_values(|l: Vec<u8>| l@)
}

/// Splits a byte string into its lines at each newline byte.
pub fn split_lines(data: &[u8]) -> (r: Vec<Vec<u8>>)
    ensures
        lines_view(r@) == spec_split_lines(data@),
{
    let mut out: Vec<Vec<u8>> = Vec::new();
    let mut cur: Vec<u8> = Vec::new();
    proof {
        assert(data@.skip(0int) =~= data@);
        lemma_split_lines_len(data@);
        let sp = spec_split_lines(data@);
        assert(Seq::<u8>::empty() + sp[0] =~= sp[0]);
        assert(lines_view(Seq::<Vec<u8>>::empty()) =~= Seq::<Seq<u8>>::empty());
        assert(seq![sp[0]] + sp.skip(1) =~= sp);
        assert(Seq::<Seq<u8>>::empty() + (seq![sp[0]] + sp.skip(1)) =~= sp);
    }
    let mut i: usize = 0;
    while i < data.len()
        invariant
            i <= data.len(),
            spec_split_lines(data@) == (lines_view(out@) + (seq![
                cur@ + spec_split_lines(data@.skip(i as int))[0],
            ] + spec_split_lines(data@.skip(i as int)).skip(1))),
        decreases data.len() - i,
    {
        let ghost pre = data@.skip(i as int);
        let ghost split_pre = spec_split_lines(pre);
        proof {
            assert(pre[0] == data@[i as int]);
            assert(pre.skip(1) =~= data@.skip(i as int + 1));
            lemma_split_lines_len(data@.skip(i as int + 1));
        }
        if data[i] == 10 {
            let ghost old_out = out@;
            let ghost old_cur = cur@;
            let done = cur;
            cur = Vec::new();
            out.push(done);
            proof {
                let post = spec_split_lines(data@.skip(i as int + 1));
                assert(split_pre == seq![Seq::<u8>::empty()] + post);
                assert(split_pre[0] =~= Seq::<u8>::empty());
                assert(old_cur + split_pre[0] =~= old_cur);
                assert(lines_view(out@) =~= lines_view(old_out) + seq![old_cur]);
                assert(split_pre.skip(1) =~= post);
                assert(cur@ =~= Seq::<u8>::empty());
                assert(cur@ + post[0] =~= post[0]);
                assert(lines_view(old_out) + (seq![old_cur + split_pre[0]] + split_pre.skip(1))
                    =~= lines_view(out@) + (seq![cur@ + post[0]] + post.skip(1)));
            }
        } else {
            let ghost old_cur = cur@;
            cur.push(data[i]);
            proof {
                let post = spec_split_lines(data@.skip(i as int + 1));
                assert(split_pre == seq![seq![pre[0]] + post[0]] + post.skip(1));
                assert(split_pre[0] == seq![pre[0]] + post[0]);
                assert(cur@ =~= old_cur + seq![pre[0]]);
                assert(old_cur + split_pre[0] =~= cur@ + post[0]);
                assert(split_pre.skip(1) =~= post.skip(1));
                assert(lines_view(out@) + (seq![old_cur + split_pre[0]] + split_pre.skip(1))
                    =~= lines_view(out@) + (seq![cur@ + post[0]] + post.skip(1)));
            }
        }
        i += 1;
    }
    let ghost old_out = out@;
    let ghost old_cur = cur@;
    out.push(cur);
    proof {
        assert(data@.skip(data@.len() as int) =~= Seq::<u8>::empty());
        let post = spec_split_lines(Seq::<u8>::empty());
        assert(post == seq![Seq::<u8>::empty()]);
        assert(post[0] =~= Seq::<u8>::empty());
        assert(old_cur + post[0] =~= old_cur);
        assert(post.skip(1) =~= Seq::<Seq<u8>>::empty());
        assert(lines_view(out@) =~= lines_view(old_out) + seq![old_cur]);
        assert(lines_view(old_out) + (seq![old_cur + post[0]] + post.skip(1)) =~= lines_view(
            out@,
        ));
    }
    out
}

/// The signed 32-bit integer a byte string spells in decimal, if any.
/// A single leading plus or minus sign is accepted.
pub open spec fn spec_parse_i32(s: Seq<u8>) -> Option<i32> {
    if s.len() > 0 && s[0] == 45 {
        let t = s.skip(1);
        if t.len() == 0 || !all_dec_digits(t) {
            None
        } else if spec_dec_val(t) > 0x8000_0000 {
            None
        } else {
            Some((0 - spec_dec_val(t)) as i32)
        }
    } else {
        let t = if s.len() > 0 && s[0] == 43 {
            s.skip(1)
        } else {
            s
        };
        if t.len() == 0 || !all_dec_digits(t) {
            None
        } else if spec_dec_val(t) > 0x7fff_ffff {
            None
        } else {
            Some(spec_dec_val(t) as i32)
        }
    }
}

/// Parses a signed 32-bit decimal integer.
pub fn parse_i32_bytes(s: &[u8]) -> (r: Option<i32>)
    ensures
        r == spec_parse_i32(s@),
{
    let negative = s.len() > 0 && s[0] == 45;
    let offset: usize = if s.len() > 0 && (s[0] == 45 || s[0] == 43) {
        1
    } else {
        0
    };
    let ghost t = if s@.len() > 0 && (s@[0] == 45 || s@[0] == 43) {
        s@.skip(1)
    } else {
        s@
    };
    proof {
        assert(t =~= s@.subrange(offset as int, s@.len() as int));
    }
    if s.len() == offset {
        return None;
    }
    let bound: u64 = if negative {
        0x8000_0000
    } else {
        0x7fff_ffff
    };
    let mut acc: u64 = 0;
    let mut i: usize = offset;
    while i < s.len()
        invariant
            offset <= i <= s.len(),
            offset <= 1,
            negative <==> (s@.len() > 0 && s@[0] == 45),
            offset == 1 <==> (s@.len() > 0 && (s@[0] == 45 || s@[0] == 43)),
            t == (if s@.len() > 0 && (s@[0] == 45 || s@[0] == 43) {
                s@.skip(1)
            } else {
                s@
            }),
            t =~= s@.subrange(offset as int, s@.len() as int),
            bound == (if negative {
                0x8000_0000u64
            } else {
                0x7fff_ffffu64
            }),
            all_dec_digits(t.subrange(0, i - offset)),
            acc == spec_dec_val(t.subrange(0, i - offset)),
            acc <= bound,
        decreases s.len() - i,
    {
        let b = s[i];
        if b < 48 || b > 57 {
            assert(!all_dec_digits(t)) by {
                assert(t[i - offset] == b);
            }
            return None;
        }
        let d = (b - 48) as u64;
        proof {
            assert(t.subrange(0, i + 1 - offset).drop_last() =~= t.subrange(0, i - offset));
            assert(t.subrange(0, i + 1 - offset).last() == b);
        }
        if acc > (bound - d) / 10 {
            proof {
                assert(spec_dec_val(t.subrange(0, i + 1 - offset)) == acc * 10 + d);
                assert(acc * 10 + d > bound) by (nonlinear_arith)
                    requires
                        acc > (bound - d) / 10,
                        d <= bound,
                {}
                if all_dec_digits(t) {
                    lemma_dec_val_prefix_mono(t, i + 1 - offset, t.len() as int);
                    assert(t.subrange(0, t.len() as int) =~= t);
                    assert(spec_dec_val(t) > bound);
                }
            }
            return None;
        }
        proof {
            assert(acc * 10 + d <= bound) by (nonlinear_arith)
                requires
                    acc <= (bound - d) / 10,
                    d <= bound,
                    bound <= 0x8000_0000u64,
            {}
        }
        acc = acc * 10 + d;
        i += 1;
    }
    proof {
        assert(t.subrange(0, t.len() as int) =~= t);
    }
    if negative {
        Some((0i64 - acc as i64) as i32)
    } else {
        Some(acc as i32)
    }
}

/// The decimal rendering of a signed 32-bit integer.
pub open spec fn spec_dec_i32(v: i32) -> Seq<u8> {
    if v >= 0 {
        spec_dec_u64(v as u64)
    } else {
        seq![45u8] + spec_dec_u64((0 - v as int) as u64)
    }
}

/// Appends the decimal rendering of a signed 32-bit integer.
pub fn push_dec_i32(out: &mut Vec<u8>, v: i32)
    ensures
        final(out)@ == old(out)@ + spec_dec_i32(v),
{
    if v >= 0 {
        push_dec_u64(out, v as u64);
    } else {
        out.push(45);
        let ghost mid = out@;
        let magnitude = (0i64 - v as i64) as u64;
        push_dec_u64(out, magnitude);
        assert(out@ =~= old(out)@ + (seq![45u8] + spec_dec_u64(magnitude)));
    }
}

/// The position of the last occurrence of a byte, if any.
pub open spec fn spec_find_last(s: Seq<u8>, b: u8) -> Option<int>
    decreases s.len(),
{
    if s.len() == 0 {
        None
    } else if s.last() == b {
        Some(s.len() - 1)
    } else {
        spec_find_last(s.drop_last(), b)
    }
}

/// Finds the last occurrence of a byte.
pub fn find_last_byte(s: &[u8], b: u8) -> (r: Option<usize>)
    ensures
        match r {
            Some(i) => spec_find_last(s@, b) == Some(i as int) && i < s@.len(),
            None => spec_find_last(s@, b) == None::<int>,
        },
{
    proof {
        assert(s@.subrange(0, s@.len() as int) =~= s@);
    }
    let mut i: usize = s.len();
    while i > 0
        invariant
            i <= s.len(),
            spec_find_last(s@, b) == spec_find_last(s@.subrange(0, i as int), b),
        decreases i,
    {
        proof {
            let cur = s@.subrange(0, i as int);
            assert(cur.last() == s@[i - 1]);
            assert(cur.drop_last() =~= s@.subrange(0, i as int - 1));
        }
        if s[i - 1] == b {
            return Some(i - 1);
        }
        i -= 1;
    }
    proof {
        assert(s@.subrange(0, 0) =~= Seq::<u8>::empty());
    }
    None
}


/// The position of the first occurrence of a byte, if any.
pub open spec fn spec_find_byte(s: Seq<u8>, b: u8) -> Option<int>
    decreases s.len(),
{
    if s.len() == 0 {
        None
    } else if s[0] == b {
        Some(0)
    } else {
        match spec_find_byte(s.skip(1), b) {
            None => None,
            Some(i) => Some(i + 1),
        }
    }
}

/// Finds the first occurrence of a byte at or after `from`.
pub fn find_byte_from(s: &[u8], from: usize, b: u8) -> (r: Option<usize>)
    requires
        from <= s.len(),
    ensures
        match r {
            Some(i) => from <= i < s.len() && spec_find_byte(s@.skip(from as int), b) == Some(
                i - from,
            ),
            None => spec_find_byte(s@.skip(from as int), b) == None::<int>,
        },
{
    let mut i: usize = from;
    while i < s.len()
        invariant
            from <= i <= s.len(),
            spec_find_byte(s@.skip(from as int), b) == (match spec_find_byte(
                s@.skip(i as int),
                b,
            ) {
                None => None::<int>,
                Some(k) => Some(k + i - from),
            }),
        decreases s.len() - i,
    {
        let ghost pre = s@.skip(i as int);
        proof {
            assert(pre[0] == s@[i as int]);
            assert(pre.skip(1) =~= s@.skip(i as int + 1));
        }
        if s[i] == b {
            return Some(i);
        }
        i += 1;
    }
    proof {
        assert(s@.skip(s@.len() as int) =~= Seq::<u8>::empty());
    }
    None
}


/// A found byte's position lies inside the string and carries the byte.
pub proof fn lemma_find_byte_range(s: Seq<u8>, b: u8)
    ensures
        match spec_find_byte(s, b) {
            Some(i) => 0 <= i < s.len() && s[i] == b,
            None => true,
        },
    decreases s.len(),
{
    if s.len() > 0 && s[0] != b {
        lemma_find_byte_range(s.skip(1), b);
    }
}


/// Parsing the decimal rendering of an integer recovers it.
pub proof fn lemma_parse_dec_u64(n: u64)
    ensures
        spec_parse_u64(spec_dec_u64(n)) == Some(n),
{
    lemma_dec_u64_digits(n);
    lemma_dec_u64_val(n);
    let s = spec_dec_u64(n);
    assert(is_dec_digit(s[0]));
    assert(s[0] != 43);
}

} // verus!
