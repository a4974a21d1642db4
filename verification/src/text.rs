//! Text building blocks: comparison, concatenation and decimal numbers.
use vstd::prelude::*;
use vstd::string::*;
use vstd::utf8::*;

verus! {

/// `String::push`: the character goes behind the text that is there.
pub assume_specification[ String::push ](s: &mut String, ch: char)
    ensures
        final(s)@ == old(s)@.push(ch),
;

/// Whether two byte strings are the same.
pub fn bytes_eq(a: &[u8], b: &[u8]) -> (r: bool)
    ensures
        r == (a@ == b@),
{
    let n: usize = a.len();
    if n != b.len() {
        return false;
    }
    let mut i: usize = 0;
    while i < n
        invariant
            n == a@.len(),
            n == b@.len(),
            i <= n,
            forall|k: int| 0 <= k < i ==> a@[k] == b@[k],
        decreases n - i,
    {
        if a[i] != b[i] {
            return false;
        }
        i = i + 1;
    }
    proof {
        assert(a@ =~= b@);
    }
    true
}

/// Whether two strings hold the same characters.
pub fn str_eq(a: &str, b: &str) -> (r: bool)
    ensures
        r == (a@ == b@),
{
    proof {
        encode_utf8_decode_utf8(a@);
        encode_utf8_decode_utf8(b@);
    }
    bytes_eq(a.as_bytes(), b.as_bytes())
}

/// The decimal digit of a number below ten.
pub open spec fn digit_char(d: nat) -> char {
    if d == 0 {
        '0'
    } else if d == 1 {
        '1'
    } else if d == 2 {
        '2'
    } else if d == 3 {
        '3'
    } else if d == 4 {
        '4'
    } else if d == 5 {
        '5'
    } else if d == 6 {
        '6'
    } else if d == 7 {
        '7'
    } else if d == 8 {
        '8'
    } else {
        '9'
    }
}

/// A number written in decimal, without leading zeros.
pub open spec fn decimal(n: nat) -> Seq<char>
    decreases n,
{
    if n < 10 {
        seq![digit_char(n)]
    } else {
        decimal(n / 10).push(digit_char(n % 10))
    }
}

fn digit(d: u64) -> (r: char)
    requires
        d < 10,
    ensures
        r == digit_char(d as nat),
{
    if d == 0 {
        '0'
    } else if d == 1 {
        '1'
    } else if d == 2 {
        '2'
    } else if d == 3 {
        '3'
    } else if d == 4 {
        '4'
    } else if d == 5 {
        '5'
    } else if d == 6 {
        '6'
    } else if d == 7 {
        '7'
    } else if d == 8 {
        '8'
    } else {
        '9'
    }
}

/// Writes a number in decimal behind `out`.
pub fn push_decimal(out: &mut String, n: u64)
    ensures
        final(out)@ == old(out)@ + decimal(n as nat),
    decreases n,
{
    if n < 10 {
        out.push(digit(n));
    } else {
        push_decimal(out, n / 10);
        out.push(digit(n % 10));
    }
}

/// A number written in decimal.
pub fn decimal_string(n: u64) -> (r: String)
    ensures
        r@ == decimal(n as nat),
{
    let mut r = String::new();
    push_decimal(&mut r, n);
    r
}

/// The characters of a string.
pub fn to_chars(s: &str) -> (r: Vec<char>)
    ensures
        r@ == s@,
{
    let mut r: Vec<char> = Vec::new();
    for c in iter: s.chars()
        invariant
            r@ == s@.take(iter.index()),
            iter.seq() == s@,
    {
        r.push(c);
    }
    r
}

/// The string of some characters.
pub fn from_chars(chars: &Vec<char>) -> (r: String)
    ensures
        r@ == chars@,
{
    let mut r = String::new();
    let mut i: usize = 0;
    while i < chars.len()
        invariant
            i <= chars@.len(),
            r@ == chars@.take(i as int),
        decreases chars@.len() - i,
    {
        r.push(chars[i]);
        i = i + 1;
        proof {
            assert(chars@.take(i as int) =~= chars@.take(i - 1).push(chars@[i - 1]));
        }
    }
    proof {
        assert(chars@.take(i as int) =~= chars@);
    }
    r
}

/// How many bytes of a text of `len` bytes fit into a buffer of `capacity`
/// bytes in front of the terminating zero.
pub open spec fn fitting(len: int, capacity: int) -> int {
    if len < capacity - 1 {
        len
    } else {
        capacity - 1
    }
}

/// A buffer with text copied to its front, cut to what fits, behind it a zero
/// byte; what is behind that stays.
pub open spec fn with_text(buffer: Seq<u8>, bytes: Seq<u8>) -> Seq<u8> {
    let n = fitting(bytes.len() as int, buffer.len() as int);
    bytes.take(n).push(0) + buffer.skip(n + 1)
}

/// Copies a text into a fixed-size buffer of C characters.
pub fn copy_str_to_buf(dst: &mut Vec<u8>, src: &str)
    requires
        old(dst)@.len() > 0,
    ensures
        final(dst)@ == with_text(old(dst)@, src.spec_bytes()),
{
    copy_bytes_to_buf(dst, src.as_bytes())
}

/// Copies bytes into a fixed-size buffer of C characters.
pub fn copy_bytes_to_buf(dst: &mut Vec<u8>, bytes: &[u8])
    requires
        old(dst)@.len() > 0,
    ensures
        final(dst)@ == with_text(old(dst)@, bytes@),
{
    let ghost start = dst@;
    let room: usize = dst.len() - 1;
    let n: usize = if bytes.len() < room {
        bytes.len()
    } else {
        room
    };
    let mut i: usize = 0;
    while i < n
        invariant
            i <= n,
            n <= bytes@.len(),
            n < start.len(),
            dst@.len() == start.len(),
            forall|k: int| 0 <= k < i ==> dst@[k] == bytes@[k],
            forall|k: int| i <= k < start.len() ==> dst@[k] == start[k],
        decreases n - i,
    {
        dst.set(i, bytes[i]);
        i = i + 1;
    }
    dst.set(n, 0);
    proof {
        assert(dst@ =~= with_text(start, bytes@));
    }
}

/// A buffer of zero bytes.
pub fn zero_buffer(len: usize) -> (r: Vec<u8>)
    ensures
        r@ == Seq::new(len as nat, |i: int| 0u8),
{
    let mut r: Vec<u8> = Vec::with_capacity(len);
    while r.len() < len
        invariant
            r@.len() <= len,
            forall|k: int| 0 <= k < r@.len() ==> r@[k] == 0,
        decreases len - r@.len(),
    {
        r.push(0);
    }
    proof {
        assert(r@ =~= Seq::new(len as nat, |i: int| 0u8));
    }
    r
}

/// A text as it can stand in front of a terminating zero: itself, or nothing
/// where it holds a zero character.
pub open spec fn c_text(s: Seq<char>) -> Seq<char> {
    if s.contains('\0') {
        Seq::empty()
    } else {
        s
    }
}

/// Whether a text holds a zero character.
pub fn has_nul(s: &str) -> (r: bool)
    ensures
        r == s@.contains('\0'),
{
    let chars: Vec<char> = to_chars(s);
    let mut i: usize = 0;
    while i < chars.len()
        invariant
            i <= chars@.len(),
            chars@ == s@,
            forall|k: int| 0 <= k < i ==> chars@[k] != '\0',
        decreases chars@.len() - i,
    {
        if chars[i] == '\0' {
            proof {
                assert(s@[i as int] == '\0');
            }
            return true;
        }
        i = i + 1;
    }
    false
}

/// Prepares a text for a zero-terminated string.
pub fn to_c_text(s: &str) -> (r: String)
    ensures
        r@ == c_text(s@),
{
    if has_nul(s) {
        String::new()
    } else {
        s.to_owned()
    }
}

/// A decimal digit's value.
pub open spec fn digit_value(c: char) -> Option<nat> {
    if '0' <= c <= '9' {
        Some((c as u32 - 48) as nat)
    } else {
        None
    }
}

/// The number that some digits stand for; nothing where one is no digit, or there
/// are none.
pub open spec fn digits_value(s: Seq<char>) -> Option<nat>
    decreases s.len(),
{
    if s.len() == 0 {
        None
    } else if s.len() == 1 {
        digit_value(s[0])
    } else {
        match (digits_value(s.drop_last()), digit_value(s.last())) {
            (Some(front), Some(d)) => Some(front * 10 + d),
            _ => None,
        }
    }
}

/// The number that a text stands for: digits, behind a plus sign or not, whose value
/// fits 32 bits.
pub open spec fn parsed_u32(text: Seq<char>) -> Option<u32> {
    let digits = if text.len() > 0 && text[0] == '+' {
        text.skip(1)
    } else {
        text
    };
    match digits_value(digits) {
        Some(n) => if n <= u32::MAX {
            Some(n as u32)
        } else {
            None
        },
        None => None,
    }
}

proof fn lemma_digits_grow(s: Seq<char>, n: int)
    requires
        1 <= n <= s.len(),
        digits_value(s) is Some,
    ensures
        digits_value(s.take(n)) is Some,
        digits_value(s.take(n))->0 <= digits_value(s)->0,
    decreases s.len(),
{
    if n == s.len() {
        assert(s.take(n) =~= s);
    } else {
        lemma_digits_grow(s.drop_last(), n);
        assert(s.drop_last().take(n) =~= s.take(n));
    }
}

/// Reads a number of 32 bits.
pub fn parse_u32(text: &str) -> (r: Option<u32>)
    ensures
        r == parsed_u32(text@),
{
    let chars: Vec<char> = to_chars(text);
    let start: usize = if chars.len() > 0 && chars[0] == '+' {
        1
    } else {
        0
    };
    let ghost digits = if text@.len() > 0 && text@[0] == '+' {
        text@.skip(1)
    } else {
        text@
    };
    proof {
        assert(digits =~= chars@.skip(start as int));
    }
    if start >= chars.len() {
        return None;
    }
    let mut value: u64 = 0;
    let mut i: usize = start;
    while i < chars.len()
        invariant
            start <= i <= chars@.len(),
            start < chars@.len(),
            digits == chars@.skip(start as int),
            parsed_u32(text@) == match digits_value(digits) {
                Some(n) => if n <= u32::MAX {
                    Some(n as u32)
                } else {
                    None
                },
                None => None,
            },
            value <= u32::MAX,
            i == start ==> value == 0,
            i > start ==> digits_value(digits.take(i - start)) == Some(value as nat),
        decreases chars@.len() - i,
    {
        let c: char = chars[i];
        proof {
            let longer = digits.take(i - start + 1);
            assert(longer.last() == c);
            assert(longer.drop_last() =~= digits.take(i - start));
            if i == start {
                assert(longer =~= seq![c]);
            }
            if digits_value(digits) is Some {
                lemma_digits_grow(digits, i - start + 1);
            }
        }
        if !('0' <= c && c <= '9') {
            return None;
        }
        value = value * 10 + (c as u32 - 48) as u64;
        if value > 0xFFFF_FFFF {
            return None;
        }
        i = i + 1;
    }
    proof {
        assert(digits.take(i - start) =~= digits);
    }
    Some(value as u32)
}

/// Whether a character is white space: it has the property `White_Space` of Unicode.
pub open spec fn is_white(c: char) -> bool {
    let n = c as u32;
    ||| 0x09 <= n <= 0x0d
    ||| n == 0x20
    ||| n == 0x85
    ||| n == 0xa0
    ||| n == 0x1680
    ||| 0x2000 <= n <= 0x200a
    ||| n == 0x2028
    ||| n == 0x2029
    ||| n == 0x202f
    ||| n == 0x205f
    ||| n == 0x3000
}

/// `char::is_whitespace`: whether a character has the property `White_Space` of
/// Unicode.
#[verifier::external_body]
pub(crate) fn is_whitespace(c: char) -> (r: bool)
    ensures
        r == is_white(c),
{
    c.is_whitespace()
}

/// Whether a text starts with another.
pub open spec fn starts_with(s: Seq<char>, prefix: Seq<char>) -> bool {
    prefix.len() <= s.len() && s.take(prefix.len() as int) == prefix
}

/// Whether a text starts with another.
pub fn has_prefix(s: &str, prefix: &str) -> (r: bool)
    ensures
        r == starts_with(s@, prefix@),
{
    let chars: Vec<char> = to_chars(s);
    let wanted: Vec<char> = to_chars(prefix);
    if wanted.len() > chars.len() {
        return false;
    }
    let mut i: usize = 0;
    while i < wanted.len()
        invariant
            i <= wanted@.len() <= chars@.len(),
            chars@ == s@,
            wanted@ == prefix@,
            forall|k: int| 0 <= k < i ==> chars@[k] == wanted@[k],
        decreases wanted@.len() - i,
    {
        if chars[i] != wanted[i] {
            proof {
                assert(s@.take(prefix@.len() as int)[i as int] != prefix@[i as int]);
            }
            return false;
        }
        i = i + 1;
    }
    proof {
        assert(s@.take(prefix@.len() as int) =~= prefix@);
    }
    true
}

/// Numbers are written digit by digit, the highest first: one more digit behind a number
/// is ten times that number and the digit, and the digits are those of ASCII.
pub proof fn law_decimal_digits(n: nat, d: nat)
    requires
        d < 10,
    ensures
        decimal(d).len() == 1 && decimal(d)[0] as u32 == 48 + d,
        n > 0 ==> decimal(10 * n + d) == decimal(n).push(decimal(d)[0]),
{
    assert((10 * n + d) / 10 == n && (10 * n + d) % 10 == d);
}

/// A number that was written reads back as itself, where it fits; so it does behind a plus
/// sign and behind a zero.
pub proof fn law_written_numbers_read_back(n: nat)
    ensures
        digits_value(decimal(n)) == Some(n),
        n <= u32::MAX ==> parsed_u32(decimal(n)) == Some(n as u32),
        n > u32::MAX ==> parsed_u32(decimal(n)) is None,
        parsed_u32(seq!['+'] + decimal(n)) == parsed_u32(decimal(n)),
    decreases n,
{
    if n >= 10 {
        law_written_numbers_read_back(n / 10);
        law_decimal_digits(n / 10, n % 10);
        assert(n == 10 * (n / 10) + n % 10);
        assert(decimal(n).drop_last() =~= decimal(n / 10));
        lemma_decimal_digits(n / 10);
    }
    lemma_decimal_digits(n);
    assert(decimal(n)[0] != '+');
    assert((seq!['+'] + decimal(n)).skip(1) =~= decimal(n));
}

proof fn lemma_decimal_digits(n: nat)
    ensures
        decimal(n).len() > 0,
        forall|i: int| 0 <= i < decimal(n).len() ==> '0' <= #[trigger] decimal(n)[i] <= '9',
    decreases n,
{
    if n >= 10 {
        lemma_decimal_digits(n / 10);
    }
}

/// A text reads as a number only where it is made of digits, behind a plus sign or not;
/// one more digit behind it is ten times the number and the digit.
pub proof fn law_numbers_are_digits(text: Seq<char>, d: char)
    ensures
        parsed_u32(text) is Some ==> text.len() > 0 && (forall|i: int|
            1 <= i < text.len() ==> '0' <= #[trigger] text[i] <= '9') && ('0' <= text[0] <= '9'
            || (text[0] == '+' && text.len() > 1)),
        parsed_u32(text) is Some && '0' <= d <= '9' ==> parsed_u32(text.push(d)) == ({
            let n = 10 * parsed_u32(text)->0 + (d as u32 - 48);
            if n <= u32::MAX {
                Some(n as u32)
            } else {
                None
            }
        }),
{
    let digits = if text.len() > 0 && text[0] == '+' {
        text.skip(1)
    } else {
        text
    };
    lemma_digits_only(digits);
    if parsed_u32(text) is Some {
        assert forall|i: int| 1 <= i < text.len() implies '0' <= #[trigger] text[i] <= '9' by {
            if text[0] == '+' {
                assert(digits[i - 1] == text[i]);
            }
        }
        let more = if text[0] == '+' {
            text.push(d).skip(1)
        } else {
            text.push(d)
        };
        assert(more =~= digits.push(d));
        assert(more.drop_last() =~= digits);
        assert(text.push(d)[0] == text[0]);
    }
}

proof fn lemma_digits_only(s: Seq<char>)
    ensures
        digits_value(s) is Some ==> s.len() > 0 && forall|i: int|
            0 <= i < s.len() ==> '0' <= #[trigger] s[i] <= '9',
    decreases s.len(),
{
    if s.len() > 1 {
        lemma_digits_only(s.drop_last());
        if digits_value(s) is Some {
            assert forall|i: int| 0 <= i < s.len() implies '0' <= #[trigger] s[i] <= '9' by {
                if i < s.len() - 1 {
                    assert(s.drop_last()[i] == s[i]);
                }
            }
        }
    }
}

/// A text in a buffer ends with a zero byte: in front of it is as much of the text as the
/// buffer holds beside the zero, and what lies behind it is as it was.
pub proof fn law_copied_text_ends_with_zero(buffer: Seq<u8>, bytes: Seq<u8>)
    requires
        buffer.len() > 0,
    ensures
        ({
            let r = with_text(buffer, bytes);
            let n = if bytes.len() < buffer.len() {
                bytes.len() as int
            } else {
                buffer.len() - 1
            };
            &&& r.len() == buffer.len()
            &&& r[n] == 0
            &&& forall|i: int| 0 <= i < n ==> #[trigger] r[i] == bytes[i]
            &&& forall|i: int| n < i < r.len() ==> #[trigger] r[i] == buffer[i]
        }),
{
}

/// Some lines, each with its end.
pub open spec fn joined(lines: Seq<Seq<char>>) -> Seq<char>
    decreases lines.len(),
{
    if lines.len() == 0 {
        Seq::empty()
    } else {
        joined(lines.drop_last()) + lines.last() + seq!['\n']
    }
}

/// A text holds another, somewhere.
pub open spec fn holds(text: Seq<char>, part: Seq<char>) -> bool {
    exists|before: Seq<char>, after: Seq<char>| text == #[trigger] (before + part + after)
}

pub(crate) proof fn lemma_holds(before: Seq<char>, part: Seq<char>, after: Seq<char>)
    ensures
        holds(before + part + after, part),
{
}

pub(crate) proof fn lemma_still_holds(text: Seq<char>, part: Seq<char>, after: Seq<char>)
    requires
        holds(text, part),
    ensures
        holds(text + after, part),
{
    let (a, b) = choose|a: Seq<char>, b: Seq<char>| text == #[trigger] (a + part + b);
    assert(text + after =~= a + part + (b + after));
}

/// A text can end with a zero where it holds none, and is then handed on as it is; one that
/// holds a zero is handed on as nothing.
pub proof fn law_texts_with_zeros_are_dropped(s: Seq<char>)
    ensures
        !s.contains('\0') ==> c_text(s) == s,
        s.contains('\0') ==> c_text(s).len() == 0,
{
}

/// White space is what Unicode has as such: the ASCII ones, and no letter, digit or sign.
pub proof fn law_white_space_is_blank(c: char)
    ensures
        is_white(' ') && is_white('\n') && is_white('\r') && is_white('\t'),
        (c as u32) < 128 ==> (is_white(c) <==> c == ' ' || 9 <= c as u32 <= 13),
        is_white(c) ==> c as u32 <= 0x3000,
{
}

} // verus!
