//! The HTTP header values that the download depends on: the size the server
//! announces, whether it serves byte ranges, and the `Range` header that asks
//! for one part of the file.

use crate::task::DownloadTask;
use vstd::prelude::*;

verus! {

/// A byte that may stand in a header value read as text: visible ASCII or a tab.
pub open spec fn is_visible_ascii(b: u8) -> bool {
    (32 <= b && b < 127) || b == 9
}

/// A header value that reads as text: every byte is visible ASCII or a tab.
pub open spec fn is_header_text(s: Seq<u8>) -> bool {
    forall|i: int| 0 <= i < s.len() ==> is_visible_ascii(#[trigger] s[i])
}

pub open spec fn is_digit(b: u8) -> bool {
    48 <= b <= 57
}

pub open spec fn all_digits(s: Seq<u8>) -> bool {
    forall|i: int| 0 <= i < s.len() ==> is_digit(#[trigger] s[i])
}

/// The number that a string of decimal digits denotes.
pub open spec fn digits_value(s: Seq<u8>) -> int
    decreases s.len(),
{
    if s.len() == 0 {
        0
    } else {
        digits_value(s.drop_last()) * 10 + (s.last() - 48)
    }
}

/// The digits of an unsigned number, after an optional leading `+`.
pub open spec fn unsigned_digits(s: Seq<u8>) -> Seq<u8> {
    if s.len() > 0 && s[0] == 43 {
        s.drop_first()
    } else {
        s
    }
}

/// Reading text as a `u64`: an optional `+`, then one or more decimal
/// digits whose value fits in a `u64`; anything else is refused.
pub open spec fn parse_u64_spec(s: Seq<u8>) -> Option<u64> {
    let d = unsigned_digits(s);
    if d.len() > 0 && all_digits(d) && digits_value(d) <= u64::MAX {
        Some(digits_value(d) as u64)
    } else {
        None
    }
}

/// The file size that a `content-length` value announces; 0 where the header
/// is missing, is not text, or is not a number.
pub open spec fn content_length_spec(value: Option<Seq<u8>>) -> u64 {
    match value {
        Some(s) => if is_header_text(s) {
            match parse_u64_spec(s) {
                Some(n) => n,
                None => 0,
            }
        } else {
            0
        },
        None => 0,
    }
}

pub open spec fn bytes_view(value: Option<&[u8]>) -> Option<Seq<u8>> {
    match value {
        Some(s) => Some(s@),
        None => None,
    }
}

/// The `accept-ranges` token that announces byte ranges: `bytes`.
pub open spec fn bytes_unit() -> Seq<u8> {
    seq![98u8, 121u8, 116u8, 101u8, 115u8]
}

/// The decimal digits of `n`, most significant first, without leading zeros.
pub open spec fn decimal(n: nat) -> Seq<u8>
    decreases n,
{
    if n < 10 {
        seq![(n + 48) as u8]
    } else {
        decimal(n / 10).push(((n % 10) + 48) as u8)
    }
}

/// `bytes=START-END`, the value of a `Range` header for one inclusive range.
pub open spec fn range_header_spec(start: u64, end: u64) -> Seq<u8> {
    seq![98u8, 121u8, 116u8, 101u8, 115u8, 61u8] + decimal(start as nat) + seq![45u8] + decimal(
        end as nat,
    )
}

proof fn lemma_digits_value_nonneg(s: Seq<u8>)
    requires
        all_digits(s),
    ensures
        digits_value(s) >= 0,
    decreases s.len(),
{
    if s.len() > 0 {
        lemma_digits_value_nonneg(s.drop_last());
        assert(is_digit(s[s.len() - 1]));
    }
}

/// A prefix of a digit string never denotes more than the whole string.
proof fn lemma_digits_prefix_le(s: Seq<u8>, k: int)
    requires
        all_digits(s),
        0 <= k <= s.len(),
    ensures
        digits_value(s.take(k)) <= digits_value(s),
    decreases s.len(),
{
    if k < s.len() {
        let t = s.drop_last();
        assert(all_digits(t));
        lemma_digits_prefix_le(t, k);
        assert(t.take(k) =~= s.take(k));
        lemma_digits_value_nonneg(t);
        assert(is_digit(s[s.len() - 1]));
    } else {
        assert(s.take(k) =~= s);
    }
}

/// `decimal(n)` is a string of digits without a leading zero that denotes `n`.
pub proof fn lemma_decimal_denotes(n: nat)
    ensures
        decimal(n).len() >= 1,
        all_digits(decimal(n)),
        digits_value(decimal(n)) == n,
        n > 0 ==> decimal(n)[0] != 48,
    decreases n,
{
    let d = decimal(n);
    if n < 10 {
        assert(d.drop_last() =~= Seq::<u8>::empty());
        assert(d.last() == n + 48);
        assert(digits_value(d) == digits_value(d.drop_last()) * 10 + (d.last() - 48));
    } else {
        lemma_decimal_denotes(n / 10);
        let p = decimal(n / 10);
        assert(d.drop_last() =~= p);
        assert(d[0] == p[0]);
        assert forall|i: int| 0 <= i < d.len() implies is_digit(#[trigger] d[i]) by {
            if i < p.len() {
                assert(d[i] == p[i]);
            }
        }
        assert(d.last() == n % 10 + 48);
        assert(digits_value(d) == digits_value(p) * 10 + (d.last() - 48));
        assert(n == (n / 10) * 10 + n % 10);
    }
}

/// Reading the decimal digits of any `u64` gives that number back.
pub proof fn lemma_parse_decimal(n: u64)
    ensures
        parse_u64_spec(decimal(n as nat)) == Some(n),
{
    let d = decimal(n as nat);
    lemma_decimal_denotes(n as nat);
    assert(is_digit(d[0]));
    assert(unsigned_digits(d) == d);
}

/// The size read from a `content-length` that holds the decimal digits of
/// `n` is `n`, for every `u64`: large files included.
pub proof fn lemma_content_length_decimal(n: u64)
    ensures
        content_length_spec(Some(decimal(n as nat))) == n,
{
    let d = decimal(n as nat);
    lemma_parse_decimal(n);
    lemma_decimal_denotes(n as nat);
    assert forall|i: int| 0 <= i < d.len() implies is_visible_ascii(#[trigger] d[i]) by {
        assert(is_digit(d[i]));
    }
}

/// A `Range` header value reads back as the range it asks for: it starts with
/// `bytes=`, then the text up to a `-` reads as `start`, and the text after
/// that `-` reads as `end`.
pub proof fn lemma_range_header_reads_back(start: u64, end: u64)
    ensures
        ({
            let h = range_header_spec(start, end);
            exists|k: int|
                6 < k < h.len() && h[k] == 45 && #[trigger] h.subrange(0, 6) == seq![
                    98u8,
                    121u8,
                    116u8,
                    101u8,
                    115u8,
                    61u8,
                ] && parse_u64_spec(h.subrange(6, k)) == Some(start) && parse_u64_spec(
                    h.subrange(k + 1, h.len() as int),
                ) == Some(end)
        }),
{
    let h = range_header_spec(start, end);
    let ds = decimal(start as nat);
    let de = decimal(end as nat);
    lemma_parse_decimal(start);
    lemma_parse_decimal(end);
    lemma_decimal_denotes(start as nat);
    lemma_decimal_denotes(end as nat);
    let k: int = 6 + ds.len() as int;
    assert(h.subrange(0, 6) =~= seq![98u8, 121u8, 116u8, 101u8, 115u8, 61u8]);
    assert(h.subrange(6, k) =~= ds);
    assert(h[k] == 45);
    assert(h.subrange(k + 1, h.len() as int) =~= de);
}

/// Whether every byte of `value` is visible ASCII or a tab.
pub fn is_header_text_exec(value: &[u8]) -> (b: bool)
    ensures
        b == is_header_text(value@),
{
    let mut i: usize = 0;
    while i < value.len()
        invariant
            i <= value.len(),
            forall|j: int| 0 <= j < i ==> is_visible_ascii(#[trigger] value@[j]),
        decreases value.len() - i,
    {
        let b = value[i];
        if !((32 <= b && b < 127) || b == 9) {
            return false;
        }
        i = i + 1;
    }
    true
}

/// Reads `s` as an unsigned decimal number that fits in a `u64`.
pub fn parse_u64(s: &[u8]) -> (r: Option<u64>)
    ensures
        r == parse_u64_spec(s@),
{
    let len = s.len();
    let mut i: usize = 0;
    if len > 0 && s[0] == 43 {
        i = 1;
    }
    let ghost d = unsigned_digits(s@);
    assert(d =~= s@.subrange(i as int, len as int));
    if i >= len {
        return None;
    }
    let mut value: u64 = 0;
    let mut j: usize = i;
    while j < len
        invariant
            len == s@.len(),
            i <= j <= len,
            i < len,
            d =~= s@.subrange(i as int, len as int),
            d == unsigned_digits(s@),
            all_digits(d.take(j - i)),
            value as int == digits_value(d.take(j - i)),
        decreases len - j,
    {
        let b = s[j];
        assert(d[j - i] == b);
        if b < 48 || b > 57 {
            assert(!is_digit(d[j - i]));
            assert(!all_digits(d));
            return None;
        }
        let ghost next = d.take(j - i + 1);
        assert(next.drop_last() =~= d.take(j - i));
        assert(all_digits(next));
        assert(digits_value(next) == value * 10 + (b - 48));
        let digit: u64 = (b - 48) as u64;
        match value.checked_mul(10) {
            None => {
                assert(value * 10 > u64::MAX);
                assert(digits_value(next) > u64::MAX);
                proof {
                    if all_digits(d) {
                        lemma_digits_prefix_le(d, j - i + 1);
                    }
                }
                return None;
            },
            Some(v10) => match v10.checked_add(digit) {
                None => {
                    proof {
                        if all_digits(d) {
                            lemma_digits_prefix_le(d, j - i + 1);
                        }
                    }
                    return None;
                },
                Some(v) => {
                    value = v;
                },
            },
        }
        j = j + 1;
    }
    assert(d.take(len - i) =~= d);
    Some(value)
}

/// The file size announced by a `content-length` header value, or 0 where
/// there is none that can be read.
pub fn content_length(value: Option<&[u8]>) -> (n: u64)
    ensures
        n == content_length_spec(bytes_view(value)),
{
    match value {
        Some(s) => {
            if is_header_text_exec(s) {
                match parse_u64(s) {
                    Some(n) => n,
                    None => 0,
                }
            } else {
                0
            }
        },
        None => 0,
    }
}

/// Whether an `accept-ranges` header value says that the server serves byte ranges.
pub fn supports_byte_ranges(value: Option<&[u8]>) -> (b: bool)
    ensures
        b == (bytes_view(value) == Some(bytes_unit())),
{
    match value {
        Some(s) => {
            let r = s.len() == 5 && s[0] == 98 && s[1] == 121 && s[2] == 116 && s[3] == 101 && s[4]
                == 115;
            proof {
                if r {
                    assert(s@ =~= bytes_unit());
                }
            }
            r
        },
        None => false,
    }
}

/// Appends the decimal digits of `n` to `out`.
fn push_decimal(out: &mut Vec<u8>, n: u64)
    ensures
        final(out)@ == old(out)@ + decimal(n as nat),
    decreases n,
{
    if n >= 10 {
        push_decimal(out, n / 10);
    }
    let digit: u8 = (n % 10) as u8 + 48;
    out.push(digit);
    proof {
        if n >= 10 {
            assert(decimal(n as nat) == decimal((n / 10) as nat).push(digit));
        } else {
            assert(decimal(n as nat) == seq![digit]);
        }
    }
}

/// The `Range` header value that asks for the bytes of `task`.
pub fn range_header_value(task: &DownloadTask) -> (v: Vec<u8>)
    ensures
        v@ == range_header_spec(task.start_byte, task.end_byte),
{
    let mut v: Vec<u8> = Vec::new();
    v.push(98);
    v.push(121);
    v.push(116);
    v.push(101);
    v.push(115);
    v.push(61);
    push_decimal(&mut v, task.start_byte);
    v.push(45);
    push_decimal(&mut v, task.end_byte);
    v
}

} // verus!
