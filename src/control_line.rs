//! Parsing of one line of the control protocol.
//!
//! A line is a sequence of tokens separated by ASCII whitespace. The first
//! token is a label and is ignored; the second one must be an unsigned
//! decimal number that fits in 16 bits.
use vstd::prelude::*;

verus! {

/// Largest control value that a line may carry.
pub const MAX_CONTROL_VALUE: u32 = 65535;

/// Whitespace as `u8::is_ascii_whitespace` knows it: space, tab, line feed,
/// form feed and carriage return.
pub open spec fn is_space(b: u8) -> bool {
    b == 0x20u8 || b == 0x09u8 || b == 0x0au8 || b == 0x0cu8 || b == 0x0du8
}

pub open spec fn is_digit(b: u8) -> bool {
    0x30u8 <= b && b <= 0x39u8
}

/// First index at or after `i` that holds no whitespace (or the end).
pub open spec fn skip_spaces(s: Seq<u8>, i: int) -> int
    decreases s.len() - i,
{
    if 0 <= i < s.len() && is_space(s[i]) {
        skip_spaces(s, i + 1)
    } else {
        i
    }
}

/// First index at or after `i` that holds whitespace (or the end).
pub open spec fn skip_word(s: Seq<u8>, i: int) -> int
    decreases s.len() - i,
{
    if 0 <= i < s.len() && !is_space(s[i]) {
        skip_word(s, i + 1)
    } else {
        i
    }
}

/// The second whitespace-separated token of `s`, if it has one.
pub open spec fn second_token(s: Seq<u8>) -> Option<Seq<u8>> {
    let first_start = skip_spaces(s, 0);
    let first_end = skip_word(s, first_start);
    let start = skip_spaces(s, first_end);
    let end = skip_word(s, start);
    if start < end {
        Some(s.subrange(start, end))
    } else {
        None
    }
}

/// Value of a string of decimal digits, most significant first.
pub open spec fn digits_value(d: Seq<u8>) -> nat
    decreases d.len(),
{
    if d.len() == 0 {
        0
    } else {
        digits_value(d.drop_last()) * 10 + (d.last() - 0x30u8) as nat
    }
}

pub open spec fn all_digits(d: Seq<u8>) -> bool {
    forall|i: int| 0 <= i < d.len() ==> is_digit(#[trigger] d[i])
}

/// What `u16::from_str` accepts: an optional `+`, then one or more decimal
/// digits whose value is at most 65535.
pub open spec fn parse_u16(t: Seq<u8>) -> Option<u16> {
    let d = if t.len() > 0 && t[0] == 0x2bu8 {
        t.drop_first()
    } else {
        t
    };
    if d.len() > 0 && all_digits(d) && digits_value(d) <= MAX_CONTROL_VALUE {
        Some(digits_value(d) as u16)
    } else {
        None
    }
}

/// The control value that a line carries, if any.
pub open spec fn control_value(s: Seq<u8>) -> Option<u16> {
    match second_token(s) {
        Some(t) => parse_u16(t),
        None => None,
    }
}

fn is_space_byte(b: u8) -> (r: bool)
    ensures
        r == is_space(b),
{
    b == 0x20u8 || b == 0x09u8 || b == 0x0au8 || b == 0x0cu8 || b == 0x0du8
}

/// Index of the first non-whitespace byte at or after `i`.
fn find_word_start(s: &[u8], i: usize) -> (r: usize)
    requires
        i <= s@.len(),
    ensures
        r as int == skip_spaces(s@, i as int),
        i <= r <= s@.len(),
{
    let mut j: usize = i;
    while j < s.len() && is_space_byte(s[j])
        invariant
            i <= j <= s@.len(),
            skip_spaces(s@, j as int) == skip_spaces(s@, i as int),
        decreases s@.len() - j,
    {
        j = j + 1;
    }
    j
}

/// Index of the first whitespace byte at or after `i`.
fn find_word_end(s: &[u8], i: usize) -> (r: usize)
    requires
        i <= s@.len(),
    ensures
        r as int == skip_word(s@, i as int),
        i <= r <= s@.len(),
{
    let mut j: usize = i;
    while j < s.len() && !is_space_byte(s[j])
        invariant
            i <= j <= s@.len(),
            skip_word(s@, j as int) == skip_word(s@, i as int),
        decreases s@.len() - j,
    {
        j = j + 1;
    }
    j
}

proof fn lemma_digits_step(d: Seq<u8>, k: int)
    requires
        0 <= k < d.len(),
    ensures
        digits_value(d.subrange(0, k + 1)) == digits_value(d.subrange(0, k)) * 10 + (d[k]
            - 0x30u8) as nat,
{
    assert(d.subrange(0, k + 1).drop_last() =~= d.subrange(0, k));
}

/// Parses `s[lo..hi]` as `u16::from_str` would.
pub fn parse_u16_at(s: &[u8], lo: usize, hi: usize) -> (r: Option<u16>)
    requires
        lo <= hi <= s@.len(),
    ensures
        r == parse_u16(s@.subrange(lo as int, hi as int)),
{
    let ghost t = s@.subrange(lo as int, hi as int);
    let mut start: usize = lo;
    if lo < hi && s[lo] == 0x2bu8 {
        start = lo + 1;
    }
    let ghost d = s@.subrange(start as int, hi as int);
    assert(d =~= (if t.len() > 0 && t[0] == 0x2bu8 {
        t.drop_first()
    } else {
        t
    }));
    if start == hi {
        return None;
    }
    // The value read so far, held at `MAX_CONTROL_VALUE + 1` once it is larger.
    let mut acc: u32 = 0;
    let mut k: usize = start;
    while k < hi
        invariant
            lo <= start <= k <= hi <= s@.len(),
            d == s@.subrange(start as int, hi as int),
            t == s@.subrange(lo as int, hi as int),
            d == (if t.len() > 0 && t[0] == 0x2bu8 {
                t.drop_first()
            } else {
                t
            }),
            all_digits(s@.subrange(start as int, k as int)),
            acc as nat == if digits_value(s@.subrange(start as int, k as int))
                <= MAX_CONTROL_VALUE {
                digits_value(s@.subrange(start as int, k as int))
            } else {
                MAX_CONTROL_VALUE as nat + 1
            },
        decreases hi - k,
    {
        let b = s[k];
        if !(0x30u8 <= b && b <= 0x39u8) {
            assert(d[k - start] == b);
            assert(!all_digits(d));
            return None;
        }
        proof {
            lemma_digits_step(d, k - start);
            assert(d.subrange(0, k - start + 1) =~= s@.subrange(start as int, k + 1));
            assert(d.subrange(0, k - start) =~= s@.subrange(start as int, k as int));
            assert(all_digits(s@.subrange(start as int, k + 1))) by {
                assert forall|i: int| 0 <= i < k + 1 - start implies is_digit(
                    #[trigger] s@.subrange(start as int, k + 1)[i],
                ) by {
                    if i < k - start {
                        assert(s@.subrange(start as int, k + 1)[i] == s@.subrange(
                            start as int,
                            k as int,
                        )[i]);
                    }
                }
            }
        }
        let next: u32 = acc * 10 + (b - 0x30u8) as u32;
        if next > MAX_CONTROL_VALUE {
            acc = MAX_CONTROL_VALUE + 1;
        } else {
            acc = next;
        }
        k = k + 1;
    }
    assert(s@.subrange(start as int, k as int) =~= d);
    if acc > MAX_CONTROL_VALUE {
        None
    } else {
        Some(acc as u16)
    }
}

/// The control value carried by one line: its second whitespace-separated
/// token read as an unsigned 16-bit number. `None` where the line has fewer
/// than two tokens or the second one is not such a number.
pub fn parse_control_line(line: &[u8]) -> (r: Option<u16>)
    ensures
        r == control_value(line@),
{
    let first_start = find_word_start(line, 0);
    let first_end = find_word_end(line, first_start);
    let start = find_word_start(line, first_end);
    let end = find_word_end(line, start);
    if start < end {
        parse_u16_at(line, start, end)
    } else {
        None
    }
}

} // verus!
