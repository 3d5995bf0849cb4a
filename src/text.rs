//! Text artifacts: newline-separated lines and decimal integers.
use vstd::prelude::*;

verus! {

/// The number of bytes before the first line feed of `b`, or its length.
pub open spec fn line_len(b: Seq<u8>) -> nat
    decreases b.len(),
{
    if b.len() == 0 || b[0] == 10 {
        0
    } else {
        1 + line_len(b.drop_first())
    }
}

/// A line without the carriage return that may end it.
pub open spec fn strip_cr(l: Seq<u8>) -> Seq<u8> {
    if l.len() > 0 && l.last() == 13 {
        l.drop_last()
    } else {
        l
    }
}

/// The lines of `b`: split at each line feed, a final line feed ending the
/// last line rather than starting an empty one, and a carriage return before
/// a line feed dropped.
pub open spec fn text_lines(b: Seq<u8>) -> Seq<Seq<u8>>
    decreases b.len(),
{
    if b.len() == 0 {
        Seq::empty()
    } else {
        let e = line_len(b) as int;
        if e < b.len() {
            seq![strip_cr(b.subrange(0, e))] + text_lines(b.subrange(e + 1, b.len() as int))
        } else {
            seq![strip_cr(b)]
        }
    }
}

proof fn lemma_line_len_bound(b: Seq<u8>)
    ensures
        line_len(b) <= b.len(),
        line_len(b) < b.len() ==> b[line_len(b) as int] == 10,
        forall|i: int| 0 <= i < line_len(b) ==> b[i] != 10,
    decreases b.len(),
{
    if b.len() > 0 && b[0] != 10 {
        lemma_line_len_bound(b.drop_first());
        assert forall|i: int| 0 <= i < line_len(b) implies b[i] != 10 by {
            if i > 0 {
                assert(b[i] == b.drop_first()[i - 1]);
            }
        }
    }
}

/// Finds where the line starting at `start` ends: the position of the next
/// line feed, or the length of `b`.
pub fn line_end(b: &[u8], start: usize) -> (e: usize)
    requires
        start <= b@.len(),
    ensures
        e == start + line_len(b@.subrange(start as int, b@.len() as int)),
        e <= b@.len(),
{
    let mut k = start;
    while k < b.len() && b[k] != 10
        invariant
            start <= k <= b@.len(),
            line_len(b@.subrange(start as int, b@.len() as int)) == (k - start) + line_len(
                b@.subrange(k as int, b@.len() as int),
            ),
        decreases b@.len() - k,
    {
        assert(b@.subrange(k as int, b@.len() as int).drop_first() =~= b@.subrange(
            k + 1,
            b@.len() as int,
        ));
        k = k + 1;
    }
    k
}

/// Unfolds `text_lines` once, at a line that starts at `start` and ends at `e`.
pub proof fn lemma_text_lines_step(b: Seq<u8>, start: int, e: int)
    requires
        0 <= start < b.len(),
        e == start + line_len(b.subrange(start, b.len() as int)),
    ensures
        e <= b.len(),
        e < b.len() ==> text_lines(b.subrange(start, b.len() as int)) == seq![
            strip_cr(b.subrange(start, e)),
        ] + text_lines(b.subrange(e + 1, b.len() as int)),
        e == b.len() ==> text_lines(b.subrange(start, b.len() as int)) == seq![
            strip_cr(b.subrange(start, e)),
        ],
{
    let rest = b.subrange(start, b.len() as int);
    lemma_line_len_bound(rest);
    assert(rest.subrange(0, e - start) =~= b.subrange(start, e));
    if e < b.len() {
        assert(rest.subrange(e - start + 1, rest.len() as int) =~= b.subrange(e + 1, b.len() as int));
    } else {
        assert(rest =~= b.subrange(start, e));
    }
}

/// The line `b[start..e]` without a final carriage return.
pub fn line_bytes(b: &[u8], start: usize, e: usize) -> (r: Vec<u8>)
    requires
        start <= e <= b@.len(),
    ensures
        r@ == strip_cr(b@.subrange(start as int, e as int)),
{
    let end = if e > start && b[e - 1] == 13 {
        e - 1
    } else {
        e
    };
    let mut r: Vec<u8> = Vec::new();
    let mut i = start;
    while i < end
        invariant
            start <= i <= end <= b@.len(),
            r@ == b@.subrange(start as int, i as int),
        decreases end - i,
    {
        r.push(b[i]);
        assert(r@ =~= b@.subrange(start as int, i + 1));
        i = i + 1;
    }
    assert(r@ =~= strip_cr(b@.subrange(start as int, e as int)));
    r
}

pub open spec fn is_digit(c: u8) -> bool {
    48 <= c <= 57
}

pub open spec fn all_digits(s: Seq<u8>) -> bool {
    forall|i: int| 0 <= i < s.len() ==> is_digit(#[trigger] s[i])
}

/// The value of a string of decimal digits.
pub open spec fn digits_value(s: Seq<u8>) -> int
    decreases s.len(),
{
    if s.len() == 0 {
        0
    } else {
        digits_value(s.drop_last()) * 10 + (s.last() - 48)
    }
}

/// The integer that `s` writes: an optional `+` or `-` followed by one or
/// more decimal digits, and nothing else.
pub open spec fn int_text_value(s: Seq<u8>) -> Option<int> {
    if s.len() > 1 && s[0] == 45 && all_digits(s.drop_first()) {
        Some(-digits_value(s.drop_first()))
    } else if s.len() > 1 && s[0] == 43 && all_digits(s.drop_first()) {
        Some(digits_value(s.drop_first()))
    } else if s.len() > 0 && all_digits(s) {
        Some(digits_value(s))
    } else {
        None
    }
}

/// The `i64` that `s` writes, if it writes one in range.
pub open spec fn i64_text_value(s: Seq<u8>) -> Option<i64> {
    match int_text_value(s) {
        Some(v) => if i64::MIN <= v <= i64::MAX {
            Some(v as i64)
        } else {
            None
        },
        None => None,
    }
}

proof fn lemma_digits_value_nonneg(s: Seq<u8>)
    requires
        all_digits(s),
    ensures
        digits_value(s) >= 0,
    decreases s.len(),
{
    if s.len() > 0 {
        assert(all_digits(s.drop_last())) by {
            assert forall|i: int| 0 <= i < s.drop_last().len() implies is_digit(
                #[trigger] s.drop_last()[i],
            ) by {
                assert(s.drop_last()[i] == s[i]);
            }
        }
        lemma_digits_value_nonneg(s.drop_last());
        assert(is_digit(s[s.len() - 1]));
    }
}

/// Parses a decimal `i64`: an optional sign and digits, with no space and no
/// other character, in range.
pub fn parse_i64(s: &[u8]) -> (r: Option<i64>)
    ensures
        r == i64_text_value(s@),
{
    let len = s.len();
    if len == 0 {
        return None;
    }
    let neg = s[0] == 45;
    let start: usize = if s[0] == 45 || s[0] == 43 {
        1
    } else {
        0
    };
    if start == len {
        return None;
    }
    let limit: u128 = 0x8000_0000_0000_0000;
    let mut acc: u128 = 0;
    let mut big = false;
    let mut i = start;
    while i < len
        invariant
            len == s@.len(),
            start < len,
            start <= i <= len,
            start == (if s@[0] == 45 || s@[0] == 43 { 1usize } else { 0usize }),
            neg == (s@[0] == 45),
            all_digits(s@.subrange(start as int, i as int)),
            !big ==> acc == digits_value(s@.subrange(start as int, i as int)) && acc <= limit,
            big ==> digits_value(s@.subrange(start as int, i as int)) > limit,
            limit == 0x8000_0000_0000_0000u128,
        decreases len - i,
    {
        let c = s[i];
        let ghost prefix = s@.subrange(start as int, i as int);
        let ghost next = s@.subrange(start as int, i + 1);
        if c < 48 || c > 57 {
            proof {
                assert(s@.subrange(start as int, len as int)[i - start] == c);
                if s@[0] == 45 || s@[0] == 43 {
                    assert(s@.drop_first()[i - 1] == c);
                    assert(!is_digit(s@[0]));
                } else {
                    assert(s@[i as int] == c);
                }
            }
            return None;
        }
        proof {
            assert(next.drop_last() =~= prefix);
            assert(next.last() == c);
            assert(all_digits(next)) by {
                assert forall|k: int| 0 <= k < next.len() implies is_digit(#[trigger] next[k]) by {
                    if k < prefix.len() {
                        assert(next[k] == prefix[k]);
                    }
                }
            }
        }
        if !big {
            let v = acc * 10 + (c - 48) as u128;
            if v > limit {
                big = true;
            } else {
                acc = v;
            }
        } else {
            proof {
                lemma_digits_value_nonneg(prefix);
            }
        }
        i = i + 1;
    }
    proof {
        if start == 1 {
            assert(s@.subrange(1, len as int) =~= s@.drop_first());
        } else {
            assert(s@.subrange(0, len as int) =~= s@);
        }
    }
    if big {
        None
    } else if neg {
        if acc == limit {
            Some(-0x7fff_ffff_ffff_ffffi64 - 1)
        } else {
            Some(-(acc as i64))
        }
    } else if acc == limit {
        None
    } else {
        Some(acc as i64)
    }
}

/// The decimal digits of `n`.
pub open spec fn decimal(n: nat) -> Seq<u8>
    decreases n,
{
    if n < 10 {
        seq![(48 + n) as u8]
    } else {
        decimal(n / 10) + seq![(48 + n % 10) as u8]
    }
}

/// Appends the decimal digits of `n`.
pub fn push_decimal(out: &mut Vec<u8>, n: u64)
    ensures
        final(out)@ == old(out)@ + decimal(n as nat),
    decreases n,
{
    if n >= 10 {
        push_decimal(out, n / 10);
    }
    out.push((48 + n % 10) as u8);
    assert(final(out)@ =~= old(out)@ + decimal(n as nat));
}

/// The decimal text of `n`.
pub fn decimal_text(n: u64) -> (r: String)
    ensures
        r@ == lossy_text(decimal(n as nat)),
{
    let mut out: Vec<u8> = Vec::new();
    push_decimal(&mut out, n);
    assert(out@ =~= decimal(n as nat));
    text_of(out.as_slice())
}

/// The decimal text of `n`, with a leading `-` when it is negative.
pub open spec fn signed_decimal(n: int) -> Seq<u8> {
    if n < 0 {
        seq![45u8] + decimal((-n) as nat)
    } else {
        decimal(n as nat)
    }
}

/// The decimal text of `n`, as `i64`'s `Display` writes it.
pub fn signed_decimal_text(n: i64) -> (r: String)
    ensures
        r@ == lossy_text(signed_decimal(n as int)),
{
    let mut out: Vec<u8> = Vec::new();
    if n < 0 {
        out.push(45);
        let m: u64 = if n == -0x7fff_ffff_ffff_ffffi64 - 1 {
            0x8000_0000_0000_0000u64
        } else {
            (-n) as u64
        };
        push_decimal(&mut out, m);
    } else {
        push_decimal(&mut out, n as u64);
    }
    assert(out@ =~= signed_decimal(n as int));
    text_of(out.as_slice())
}

/// Names what `String::from_utf8_lossy` makes of `b`.
pub uninterp spec fn lossy_text(b: Seq<u8>) -> Seq<char>;

/// Relies on `String::from_utf8_lossy`: the text of `b`, invalid sequences
/// replaced; the result depends on the bytes alone.
#[verifier::external_body]
pub fn text_of(b: &[u8]) -> (r: String)
    ensures
        r@ == lossy_text(b@),
{
    String::from_utf8_lossy(b).into_owned()
}

} // verus!
