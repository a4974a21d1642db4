//! Binary serialisation of a plugin's own persistent data.
//!
//! A field is written as its little-endian bytes; a string, a vector and an
//! option have a length or a tag in front.
use vstd::prelude::*;
use vstd::string::*;
use vstd::utf8::{decode_utf8, encode_utf8, valid_utf8};

verus! {

/// Cursor over binary state data.
pub struct StateCursor<'a> {
    pub data: &'a [u8],
    pub pos: usize,
}

impl<'a> StateCursor<'a> {
    /// The cursor stands inside its data, or at the end.
    pub open spec fn wf(&self) -> bool {
        self.pos <= self.data@.len()
    }

    /// What is left to read.
    pub open spec fn rest(&self) -> Seq<u8> {
        self.data@.skip(self.pos as int)
    }

    pub fn new(data: &'a [u8]) -> (r: Self)
        ensures
            r.wf(),
            r.data == data,
            r.pos == 0,
            r.rest() == data@,
    {
        let r = StateCursor { data, pos: 0 };
        proof {
            assert(r.rest() =~= data@);
        }
        r
    }

    pub fn remaining(&self) -> (r: usize)
        requires
            self.wf(),
        ensures
            r == self.rest().len(),
    {
        self.data.len() - self.pos
    }

    /// Takes the next `n` bytes, or nothing where there are fewer.
    pub fn read_bytes(&mut self, n: usize) -> (r: Option<&'a [u8]>)
        requires
            old(self).wf(),
        ensures
            final(self).wf(),
            final(self).data == old(self).data,
            match r {
                Some(bytes) => n <= old(self).rest().len() && bytes@ == old(self).rest().take(
                    n as int,
                ) && final(self).pos == old(self).pos + n && final(self).rest() == old(
                    self,
                ).rest().skip(n as int),
                None => n > old(self).rest().len() && final(self).pos == old(self).pos,
            },
    {
        if n > self.data.len() - self.pos {
            return None;
        }
        let from: usize = self.pos;
        let bytes: &'a [u8] = vstd::slice::slice_subrange(self.data, from, from + n);
        self.pos = from + n;
        proof {
            assert(bytes@ =~= old(self).rest().take(n as int));
            assert(self.rest() =~= old(self).rest().skip(n as int));
        }
        Some(bytes)
    }

    /// Skips a field that has its length in front. `false` comes back where the
    /// data is malformed; the length itself is then skipped, if it is there.
    pub fn skip_field(&mut self) -> (r: bool)
        requires
            old(self).wf(),
        ensures
            final(self).wf(),
            final(self).data == old(self).data,
            ({
                let rest = old(self).rest();
                let len = le_value(rest.take(4));
                &&& r == (rest.len() >= 4 && 4 + len <= rest.len())
                &&& final(self).pos == old(self).pos + if r {
                    4 + len
                } else if rest.len() >= 4 {
                    4
                } else {
                    0
                }
            }),
    {
        match self.read_bytes(4) {
            Some(bytes) => {
                let len: u64 = read_le(bytes);
                proof {
                    lemma_le_value_bound(bytes@);
                }
                if len <= (self.data.len() - self.pos) as u64 {
                    self.pos = self.pos + len as usize;
                    true
                } else {
                    false
                }
            },
            None => false,
        }
    }
}

/// The number that little-endian bytes stand for.
pub open spec fn le_value(bytes: Seq<u8>) -> nat
    decreases bytes.len(),
{
    if bytes.len() == 0 {
        0
    } else {
        bytes[0] as nat + 256 * le_value(bytes.skip(1))
    }
}

/// The `k` little-endian bytes of a number.
pub open spec fn le_bytes(n: nat, k: nat) -> Seq<u8>
    decreases k,
{
    if k == 0 {
        Seq::empty()
    } else {
        seq![(n % 256) as u8] + le_bytes(n / 256, (k - 1) as nat)
    }
}

/// How many values `k` bytes tell apart.
pub open spec fn byte_range(k: nat) -> nat
    decreases k,
{
    if k == 0 {
        1
    } else {
        256 * byte_range((k - 1) as nat)
    }
}

proof fn lemma_byte_ranges()
    ensures
        byte_range(1) == 0x100,
        byte_range(2) == 0x1_0000,
        byte_range(4) == 0x1_0000_0000,
        byte_range(8) == 0x1_0000_0000_0000_0000,
{
    reveal_with_fuel(byte_range, 9);
}

proof fn lemma_le_value_bound(bytes: Seq<u8>)
    ensures
        le_value(bytes) < byte_range(bytes.len()),
    decreases bytes.len(),
{
    if bytes.len() > 0 {
        lemma_le_value_bound(bytes.skip(1));
    }
}

proof fn lemma_le_round_trip(n: nat, k: nat)
    requires
        n < byte_range(k),
    ensures
        le_bytes(n, k).len() == k,
        le_value(le_bytes(n, k)) == n,
    decreases k,
{
    if k > 0 {
        assert(n / 256 < byte_range((k - 1) as nat)) by (nonlinear_arith)
            requires
                n < 256 * byte_range((k - 1) as nat),
        ;
        lemma_le_round_trip(n / 256, (k - 1) as nat);
        assert(le_bytes(n, k).skip(1) =~= le_bytes(n / 256, (k - 1) as nat));
    }
}

/// Reads little-endian bytes as a number.
fn read_le(bytes: &[u8]) -> (r: u64)
    requires
        bytes@.len() <= 8,
    ensures
        r == le_value(bytes@),
{
    let mut r: u64 = 0;
    let mut i: usize = bytes.len();
    proof {
        assert(bytes@.skip(i as int) =~= Seq::empty());
    }
    while i > 0
        invariant
            i <= bytes@.len() <= 8,
            r == le_value(bytes@.skip(i as int)),
        decreases i,
    {
        proof {
            let tail = bytes@.skip(i as int);
            lemma_le_value_bound(tail);
            reveal_with_fuel(byte_range, 9);
            assert(bytes@.skip(i - 1).skip(1) =~= tail);
            assert(bytes@.skip(i - 1)[0] == bytes@[i - 1]);
            assert(tail.len() <= 7);
            assert(le_value(tail) < 0x100_0000_0000_0000) by {
                lemma_byte_range_grows(tail.len(), 7);
            }
        }
        i = i - 1;
        r = bytes[i] as u64 + 256 * r;
    }
    proof {
        assert(bytes@.skip(0) =~= bytes@);
    }
    r
}

proof fn lemma_byte_range_grows(a: nat, b: nat)
    requires
        a <= b,
    ensures
        byte_range(a) <= byte_range(b),
        byte_range(a) >= 1,
    decreases b, a,
{
    if a > 0 {
        lemma_byte_range_grows((a - 1) as nat, (a - 1) as nat);
    }
    if a < b {
        lemma_byte_range_grows(a, (b - 1) as nat);
    }
}

/// Appends the `k` little-endian bytes of a number.
fn push_le(buf: &mut Vec<u8>, n: u64, k: usize)
    ensures
        final(buf)@ == old(buf)@ + le_bytes(n as nat, k as nat),
{
    let ghost start = buf@;
    let mut left: u64 = n;
    let mut i: usize = 0;
    proof {
        assert(start + le_bytes(n as nat, k as nat) =~= buf@ + le_bytes(n as nat, k as nat));
    }
    while i < k
        invariant
            i <= k,
            buf@ + le_bytes(left as nat, (k - i) as nat) == start + le_bytes(n as nat, k as nat),
        decreases k - i,
    {
        let ghost before = buf@;
        let ghost tail = le_bytes(left as nat / 256, (k - i - 1) as nat);
        buf.push((left % 256) as u8);
        proof {
            assert(le_bytes(left as nat, (k - i) as nat) == seq![(left % 256) as u8] + tail);
            assert(before + (seq![(left % 256) as u8] + tail) =~= buf@ + tail);
        }
        left = left / 256;
        i = i + 1;
    }
    proof {
        assert(buf@ + le_bytes(left as nat, 0) =~= buf@);
    }
}

/// A type that is written as one field of a plugin's state.
///
/// `Model` is what a value says; two values with one model are written alike.
pub trait StateField: Sized {
    type Model;

    spec fn model(&self) -> Self::Model;

    /// The bytes that a value with this model is written as.
    spec fn encoded(m: Self::Model) -> Seq<u8>;

    /// The value survives being written: every length in it fits four bytes.
    spec fn storable(m: Self::Model) -> bool;

    /// What the front of some bytes reads as, and how many of them that takes.
    spec fn decoded(bytes: Seq<u8>) -> Option<(Self::Model, int)>;

    fn write_field(&self, buf: &mut Vec<u8>)
        ensures
            final(buf)@ == old(buf)@ + Self::encoded(self.model()),
    ;

    fn read_field(cursor: &mut StateCursor) -> (r: Option<Self>)
        requires
            old(cursor).wf(),
        ensures
            final(cursor).wf(),
            final(cursor).data == old(cursor).data,
            match Self::decoded(old(cursor).rest()) {
                Some((m, n)) => r matches Some(v) && v.model() == m && final(cursor).pos == old(
                    cursor,
                ).pos + n,
                None => r is None,
            },
    ;

    /// Reading never takes more than there is.
    proof fn lemma_decoded_within(bytes: Seq<u8>)
        ensures
            Self::decoded(bytes) matches Some((_, n)) ==> 0 <= n <= bytes.len(),
    ;

    /// Reading what was written gives the value back, whatever follows it.
    proof fn law_round_trip(m: Self::Model, tail: Seq<u8>)
        requires
            Self::storable(m),
        ensures
            Self::decoded(Self::encoded(m) + tail) == Some((m, Self::encoded(m).len() as int)),
    ;
}

/// A number read from the first `k` bytes.
pub open spec fn number_at(bytes: Seq<u8>, k: nat) -> Option<(nat, int)> {
    if bytes.len() >= k {
        Some((le_value(bytes.take(k as int)), k as int))
    } else {
        None
    }
}

proof fn lemma_number_round_trip(n: nat, k: nat, tail: Seq<u8>)
    requires
        n < byte_range(k),
    ensures
        number_at(le_bytes(n, k) + tail, k) == Some((n, k as int)),
        le_bytes(n, k).len() == k,
{
    lemma_le_round_trip(n, k);
    assert((le_bytes(n, k) + tail).take(k as int) =~= le_bytes(n, k));
}

fn read_number(cursor: &mut StateCursor, k: usize) -> (r: Option<u64>)
    requires
        old(cursor).wf(),
        k <= 8,
    ensures
        final(cursor).wf(),
        final(cursor).data == old(cursor).data,
        match number_at(old(cursor).rest(), k as nat) {
            Some((n, used)) => r == Some(n as u64) && n < byte_range(k as nat) && n <= u64::MAX
                && final(cursor).pos == old(cursor).pos + used && final(cursor).rest() == old(
                cursor,
            ).rest().skip(used),
            None => r is None,
        },
{
    match cursor.read_bytes(k) {
        Some(bytes) => {
            proof {
                lemma_le_value_bound(bytes@);
            }
            Some(read_le(bytes))
        },
        None => None,
    }
}

/// A signed number of `range` values as an unsigned one, and back.
pub open spec fn to_unsigned(n: int, range: nat) -> nat {
    if n >= 0 {
        n as nat
    } else {
        (n + range) as nat
    }
}

pub open spec fn to_signed(n: nat, range: nat) -> int {
    if n < range / 2 {
        n as int
    } else {
        n - range
    }
}

impl StateField for u8 {
    type Model = u8;

    open spec fn model(&self) -> u8 {
        *self
    }

    open spec fn encoded(m: u8) -> Seq<u8> {
        le_bytes(m as nat, 1)
    }

    open spec fn storable(m: u8) -> bool {
        true
    }

    open spec fn decoded(bytes: Seq<u8>) -> Option<(u8, int)> {
        match number_at(bytes, 1) {
            Some((n, used)) => Some((n as u8, used)),
            None => None,
        }
    }

    fn write_field(&self, buf: &mut Vec<u8>) {
        push_le(buf, *self as u64, 1);
    }

    fn read_field(cursor: &mut StateCursor) -> (r: Option<Self>) {
        proof {
            lemma_byte_ranges();
        }
        match read_number(cursor, 1) {
            Some(n) => Some(n as u8),
            None => None,
        }
    }

    proof fn lemma_decoded_within(bytes: Seq<u8>) {
    }

    proof fn law_round_trip(m: u8, tail: Seq<u8>) {
        lemma_byte_ranges();
        lemma_number_round_trip(m as nat, 1, tail);
    }
}

impl StateField for u16 {
    type Model = u16;

    open spec fn model(&self) -> u16 {
        *self
    }

    open spec fn encoded(m: u16) -> Seq<u8> {
        le_bytes(m as nat, 2)
    }

    open spec fn storable(m: u16) -> bool {
        true
    }

    open spec fn decoded(bytes: Seq<u8>) -> Option<(u16, int)> {
        match number_at(bytes, 2) {
            Some((n, used)) => Some((n as u16, used)),
            None => None,
        }
    }

    fn write_field(&self, buf: &mut Vec<u8>) {
        push_le(buf, *self as u64, 2);
    }

    fn read_field(cursor: &mut StateCursor) -> (r: Option<Self>) {
        proof {
            lemma_byte_ranges();
        }
        match read_number(cursor, 2) {
            Some(n) => Some(n as u16),
            None => None,
        }
    }

    proof fn lemma_decoded_within(bytes: Seq<u8>) {
    }

    proof fn law_round_trip(m: u16, tail: Seq<u8>) {
        lemma_byte_ranges();
        lemma_number_round_trip(m as nat, 2, tail);
    }
}

impl StateField for u32 {
    type Model = u32;

    open spec fn model(&self) -> u32 {
        *self
    }

    open spec fn encoded(m: u32) -> Seq<u8> {
        le_bytes(m as nat, 4)
    }

    open spec fn storable(m: u32) -> bool {
        true
    }

    open spec fn decoded(bytes: Seq<u8>) -> Option<(u32, int)> {
        match number_at(bytes, 4) {
            Some((n, used)) => Some((n as u32, used)),
            None => None,
        }
    }

    fn write_field(&self, buf: &mut Vec<u8>) {
        push_le(buf, *self as u64, 4);
    }

    fn read_field(cursor: &mut StateCursor) -> (r: Option<Self>) {
        proof {
            lemma_byte_ranges();
        }
        match read_number(cursor, 4) {
            Some(n) => Some(n as u32),
            None => None,
        }
    }

    proof fn lemma_decoded_within(bytes: Seq<u8>) {
    }

    proof fn law_round_trip(m: u32, tail: Seq<u8>) {
        lemma_byte_ranges();
        lemma_number_round_trip(m as nat, 4, tail);
    }
}

impl StateField for u64 {
    type Model = u64;

    open spec fn model(&self) -> u64 {
        *self
    }

    open spec fn encoded(m: u64) -> Seq<u8> {
        le_bytes(m as nat, 8)
    }

    open spec fn storable(m: u64) -> bool {
        true
    }

    open spec fn decoded(bytes: Seq<u8>) -> Option<(u64, int)> {
        match number_at(bytes, 8) {
            Some((n, used)) => Some((n as u64, used)),
            None => None,
        }
    }

    fn write_field(&self, buf: &mut Vec<u8>) {
        push_le(buf, *self as u64, 8);
    }

    fn read_field(cursor: &mut StateCursor) -> (r: Option<Self>) {
        proof {
            lemma_byte_ranges();
        }
        match read_number(cursor, 8) {
            Some(n) => Some(n as u64),
            None => None,
        }
    }

    proof fn lemma_decoded_within(bytes: Seq<u8>) {
    }

    proof fn law_round_trip(m: u64, tail: Seq<u8>) {
        lemma_byte_ranges();
        lemma_number_round_trip(m as nat, 8, tail);
    }
}

impl StateField for i8 {
    type Model = i8;

    open spec fn model(&self) -> i8 {
        *self
    }

    open spec fn encoded(m: i8) -> Seq<u8> {
        le_bytes(to_unsigned(m as int, 0x100), 1)
    }

    open spec fn storable(m: i8) -> bool {
        true
    }

    open spec fn decoded(bytes: Seq<u8>) -> Option<(i8, int)> {
        match number_at(bytes, 1) {
            Some((n, used)) => Some((to_signed(n, 0x100) as i8, used)),
            None => None,
        }
    }

    fn write_field(&self, buf: &mut Vec<u8>) {
        let n: u64 = if *self >= 0 {
            *self as u64
        } else {
            (*self as i128 + 0x100) as u64
        };
        push_le(buf, n, 1);
    }

    fn read_field(cursor: &mut StateCursor) -> (r: Option<Self>) {
        proof {
            lemma_byte_ranges();
        }
        match read_number(cursor, 1) {
            Some(n) => Some(
                if (n as i128) < 0x100 / 2 {
                    n as i8
                } else {
                    (n as i128 - 0x100) as i8
                },
            ),
            None => None,
        }
    }

    proof fn lemma_decoded_within(bytes: Seq<u8>) {
    }

    proof fn law_round_trip(m: i8, tail: Seq<u8>) {
        lemma_byte_ranges();
        lemma_number_round_trip(to_unsigned(m as int, 0x100), 1, tail);
    }
}

impl StateField for i16 {
    type Model = i16;

    open spec fn model(&self) -> i16 {
        *self
    }

    open spec fn encoded(m: i16) -> Seq<u8> {
        le_bytes(to_unsigned(m as int, 0x1_0000), 2)
    }

    open spec fn storable(m: i16) -> bool {
        true
    }

    open spec fn decoded(bytes: Seq<u8>) -> Option<(i16, int)> {
        match number_at(bytes, 2) {
            Some((n, used)) => Some((to_signed(n, 0x1_0000) as i16, used)),
            None => None,
        }
    }

    fn write_field(&self, buf: &mut Vec<u8>) {
        let n: u64 = if *self >= 0 {
            *self as u64
        } else {
            (*self as i128 + 0x1_0000) as u64
        };
        push_le(buf, n, 2);
    }

    fn read_field(cursor: &mut StateCursor) -> (r: Option<Self>) {
        proof {
            lemma_byte_ranges();
        }
        match read_number(cursor, 2) {
            Some(n) => Some(
                if (n as i128) < 0x1_0000 / 2 {
                    n as i16
                } else {
                    (n as i128 - 0x1_0000) as i16
                },
            ),
            None => None,
        }
    }

    proof fn lemma_decoded_within(bytes: Seq<u8>) {
    }

    proof fn law_round_trip(m: i16, tail: Seq<u8>) {
        lemma_byte_ranges();
        lemma_number_round_trip(to_unsigned(m as int, 0x1_0000), 2, tail);
    }
}

impl StateField for i32 {
    type Model = i32;

    open spec fn model(&self) -> i32 {
        *self
    }

    open spec fn encoded(m: i32) -> Seq<u8> {
        le_bytes(to_unsigned(m as int, 0x1_0000_0000), 4)
    }

    open spec fn storable(m: i32) -> bool {
        true
    }

    open spec fn decoded(bytes: Seq<u8>) -> Option<(i32, int)> {
        match number_at(bytes, 4) {
            Some((n, used)) => Some((to_signed(n, 0x1_0000_0000) as i32, used)),
            None => None,
        }
    }

    fn write_field(&self, buf: &mut Vec<u8>) {
        let n: u64 = if *self >= 0 {
            *self as u64
        } else {
            (*self as i128 + 0x1_0000_0000) as u64
        };
        push_le(buf, n, 4);
    }

    fn read_field(cursor: &mut StateCursor) -> (r: Option<Self>) {
        proof {
            lemma_byte_ranges();
        }
        match read_number(cursor, 4) {
            Some(n) => Some(
                if (n as i128) < 0x1_0000_0000 / 2 {
                    n as i32
                } else {
                    (n as i128 - 0x1_0000_0000) as i32
                },
            ),
            None => None,
        }
    }

    proof fn lemma_decoded_within(bytes: Seq<u8>) {
    }

    proof fn law_round_trip(m: i32, tail: Seq<u8>) {
        lemma_byte_ranges();
        lemma_number_round_trip(to_unsigned(m as int, 0x1_0000_0000), 4, tail);
    }
}

impl StateField for i64 {
    type Model = i64;

    open spec fn model(&self) -> i64 {
        *self
    }

    open spec fn encoded(m: i64) -> Seq<u8> {
        le_bytes(to_unsigned(m as int, 0x1_0000_0000_0000_0000), 8)
    }

    open spec fn storable(m: i64) -> bool {
        true
    }

    open spec fn decoded(bytes: Seq<u8>) -> Option<(i64, int)> {
        match number_at(bytes, 8) {
            Some((n, used)) => Some((to_signed(n, 0x1_0000_0000_0000_0000) as i64, used)),
            None => None,
        }
    }

    fn write_field(&self, buf: &mut Vec<u8>) {
        let n: u64 = if *self >= 0 {
            *self as u64
        } else {
            (*self as i128 + 0x1_0000_0000_0000_0000) as u64
        };
        push_le(buf, n, 8);
    }

    fn read_field(cursor: &mut StateCursor) -> (r: Option<Self>) {
        proof {
            lemma_byte_ranges();
        }
        match read_number(cursor, 8) {
            Some(n) => Some(
                if (n as i128) < 0x1_0000_0000_0000_0000 / 2 {
                    n as i64
                } else {
                    (n as i128 - 0x1_0000_0000_0000_0000) as i64
                },
            ),
            None => None,
        }
    }

    proof fn lemma_decoded_within(bytes: Seq<u8>) {
    }

    proof fn law_round_trip(m: i64, tail: Seq<u8>) {
        lemma_byte_ranges();
        lemma_number_round_trip(to_unsigned(m as int, 0x1_0000_0000_0000_0000), 8, tail);
    }
}

impl StateField for bool {
    type Model = bool;

    open spec fn model(&self) -> bool {
        *self
    }

    open spec fn encoded(m: bool) -> Seq<u8> {
        seq![
            if m {
                1u8
            } else {
                0u8
            },
        ]
    }

    open spec fn storable(m: bool) -> bool {
        true
    }

    open spec fn decoded(bytes: Seq<u8>) -> Option<(bool, int)> {
        if bytes.len() >= 1 {
            Some((bytes[0] != 0, 1))
        } else {
            None
        }
    }

    fn write_field(&self, buf: &mut Vec<u8>) {
        let ghost start = buf@;
        buf.push(
            if *self {
                1
            } else {
                0
            },
        );
        proof {
            assert(buf@ =~= start + Self::encoded(*self));
        }
    }

    fn read_field(cursor: &mut StateCursor) -> (r: Option<Self>) {
        match cursor.read_bytes(1) {
            Some(bytes) => Some(bytes[0] != 0),
            None => None,
        }
    }

    proof fn lemma_decoded_within(bytes: Seq<u8>) {
    }

    proof fn law_round_trip(m: bool, tail: Seq<u8>) {
    }
}

/// `String::from_utf8`: the string that some bytes encode, where they are valid
/// UTF-8.
#[verifier::external_body]
fn string_from_utf8(bytes: Vec<u8>) -> (r: Option<String>)
    ensures
        match r {
            Some(s) => valid_utf8(bytes@) && s@ == decode_utf8(bytes@),
            None => !valid_utf8(bytes@),
        },
{
    String::from_utf8(bytes).ok()
}

/// A length as it is written in front of a field: its low 32 bits.
pub open spec fn length_prefix(len: nat) -> Seq<u8> {
    le_bytes(len % 0x1_0000_0000, 4)
}

fn push_length(buf: &mut Vec<u8>, len: usize)
    ensures
        final(buf)@ == old(buf)@ + length_prefix(len as nat),
{
    push_le(buf, len as u64 % 0x1_0000_0000, 4);
}

/// The bytes behind a length in front of them.
pub open spec fn sized_bytes(bytes: Seq<u8>) -> Option<(Seq<u8>, int)> {
    match number_at(bytes, 4) {
        Some((len, _)) => if 4 + len <= bytes.len() {
            Some((bytes.subrange(4, 4 + len as int), 4 + len as int))
        } else {
            None
        },
        None => None,
    }
}

impl StateField for String {
    type Model = Seq<char>;

    open spec fn model(&self) -> Seq<char> {
        self@
    }

    open spec fn encoded(m: Seq<char>) -> Seq<u8> {
        length_prefix(encode_utf8(m).len()) + encode_utf8(m)
    }

    open spec fn storable(m: Seq<char>) -> bool {
        encode_utf8(m).len() < 0x1_0000_0000
    }

    open spec fn decoded(bytes: Seq<u8>) -> Option<(Seq<char>, int)> {
        match sized_bytes(bytes) {
            Some((text, used)) => if valid_utf8(text) {
                Some((decode_utf8(text), used))
            } else {
                None
            },
            None => None,
        }
    }

    fn write_field(&self, buf: &mut Vec<u8>) {
        let ghost start = buf@;
        let bytes: &[u8] = self.as_str().as_bytes();
        push_length(buf, bytes.len());
        let ghost before = buf@;
        let mut i: usize = 0;
        proof {
            assert(before + bytes@.take(0) =~= before);
        }
        while i < bytes.len()
            invariant
                i <= bytes@.len(),
                buf@ == before + bytes@.take(i as int),
            decreases bytes@.len() - i,
        {
            buf.push(bytes[i]);
            i = i + 1;
            proof {
                assert(buf@ =~= before + bytes@.take(i as int));
            }
        }
        proof {
            assert(bytes@.take(i as int) =~= bytes@);
            assert(buf@ =~= start + Self::encoded(self@));
        }
    }

    fn read_field(cursor: &mut StateCursor) -> (r: Option<Self>) {
        let ghost rest = cursor.rest();
        match read_number(cursor, 4) {
            Some(len) => {
                proof {
                    lemma_byte_ranges();
                }
                if len > (cursor.data.len() - cursor.pos) as u64 {
                    return None;
                }
                match cursor.read_bytes(len as usize) {
                    Some(bytes) => {
                        proof {
                            assert(bytes@ =~= rest.subrange(4, 4 + len));
                        }
                        string_from_utf8(vstd::slice::slice_to_vec(bytes))
                    },
                    None => None,
                }
            },
            None => None,
        }
    }

    proof fn lemma_decoded_within(bytes: Seq<u8>) {
    }

    proof fn law_round_trip(m: Seq<char>, tail: Seq<u8>) {
        let text = encode_utf8(m);
        lemma_byte_ranges();
        lemma_number_round_trip(text.len(), 4, text + tail);
        let all = Self::encoded(m) + tail;
        assert(all =~= length_prefix(text.len()) + (text + tail));
        assert(all.subrange(4, 4 + text.len() as int) =~= text);
        vstd::utf8::encode_utf8_valid_utf8(m);
        vstd::utf8::encode_utf8_decode_utf8(m);
    }
}

/// The models of some items.
pub open spec fn models<T: StateField>(items: Seq<T>) -> Seq<T::Model> {
    items.map_values(|item: T| item.model())
}

/// Items written one behind the other.
pub open spec fn encoded_items<T: StateField>(ms: Seq<T::Model>) -> Seq<u8>
    decreases ms.len(),
{
    if ms.len() == 0 {
        Seq::empty()
    } else {
        encoded_items::<T>(ms.drop_last()) + T::encoded(ms.last())
    }
}

/// What the front of some bytes reads as, as `n` items.
pub open spec fn decoded_items<T: StateField>(bytes: Seq<u8>, n: nat) -> Option<
    (Seq<T::Model>, int),
>
    decreases n,
{
    if n == 0 {
        Some((Seq::empty(), 0))
    } else {
        match decoded_items::<T>(bytes, (n - 1) as nat) {
            Some((ms, used)) => match T::decoded(bytes.skip(used)) {
                Some((m, own)) => Some((ms.push(m), used + own)),
                None => None,
            },
            None => None,
        }
    }
}

proof fn lemma_items_within<T: StateField>(bytes: Seq<u8>, n: nat)
    ensures
        decoded_items::<T>(bytes, n) matches Some((ms, used)) ==> 0 <= used <= bytes.len()
            && ms.len() == n,
    decreases n,
{
    if n > 0 {
        lemma_items_within::<T>(bytes, (n - 1) as nat);
        if let Some((_, used)) = decoded_items::<T>(bytes, (n - 1) as nat) {
            T::lemma_decoded_within(bytes.skip(used));
        }
    }
}

/// Items that cannot be read are not there for a longer list either.
proof fn lemma_items_missing<T: StateField>(bytes: Seq<u8>, m: nat, n: nat)
    requires
        m <= n,
        decoded_items::<T>(bytes, m) is None,
    ensures
        decoded_items::<T>(bytes, n) is None,
    decreases n,
{
    if m < n {
        lemma_items_missing::<T>(bytes, m, (n - 1) as nat);
    }
}

proof fn lemma_items_round_trip<T: StateField>(ms: Seq<T::Model>, n: int, tail: Seq<u8>)
    requires
        0 <= n <= ms.len(),
        forall|i: int| 0 <= i < ms.len() ==> T::storable(#[trigger] ms[i]),
    ensures
        decoded_items::<T>(encoded_items::<T>(ms.take(n)) + tail, n as nat) == Some(
            (ms.take(n), encoded_items::<T>(ms.take(n)).len() as int),
        ),
    decreases n,
{
    if n > 0 {
        let front = ms.take(n - 1);
        let last = ms[n - 1];
        assert(ms.take(n).drop_last() =~= front);
        let own = T::encoded(last);
        lemma_items_round_trip::<T>(ms, n - 1, own + tail);
        let all = encoded_items::<T>(ms.take(n)) + tail;
        assert(all =~= encoded_items::<T>(front) + (own + tail));
        assert(all.skip(encoded_items::<T>(front).len() as int) =~= own + tail);
        T::law_round_trip(last, tail);
        assert(ms.take(n) =~= front.push(last));
    } else {
        assert(ms.take(0) =~= Seq::empty());
    }
}

impl<T: StateField> StateField for Vec<T> {
    type Model = Seq<T::Model>;

    open spec fn model(&self) -> Seq<T::Model> {
        models(self@)
    }

    open spec fn encoded(m: Seq<T::Model>) -> Seq<u8> {
        length_prefix(m.len()) + encoded_items::<T>(m)
    }

    open spec fn storable(m: Seq<T::Model>) -> bool {
        m.len() < 0x1_0000_0000 && forall|i: int| 0 <= i < m.len() ==> T::storable(#[trigger] m[i])
    }

    open spec fn decoded(bytes: Seq<u8>) -> Option<(Seq<T::Model>, int)> {
        match number_at(bytes, 4) {
            Some((len, _)) => match decoded_items::<T>(bytes.skip(4), len) {
                Some((ms, used)) => Some((ms, 4 + used)),
                None => None,
            },
            None => None,
        }
    }

    fn write_field(&self, buf: &mut Vec<u8>) {
        let ghost start = buf@;
        let ghost ms = models(self@);
        push_length(buf, self.len());
        let ghost before = buf@;
        let mut i: usize = 0;
        proof {
            assert(before + encoded_items::<T>(ms.take(0)) =~= before);
        }
        while i < self.len()
            invariant
                i <= self@.len(),
                ms == models(self@),
                buf@ == before + encoded_items::<T>(ms.take(i as int)),
            decreases self@.len() - i,
        {
            proof {
                assert(ms.take(i + 1).drop_last() =~= ms.take(i as int));
                assert(ms.take(i + 1).last() == self@[i as int].model());
            }
            self[i].write_field(buf);
            i = i + 1;
            proof {
                assert(buf@ =~= before + encoded_items::<T>(ms.take(i as int)));
            }
        }
        proof {
            assert(ms.take(i as int) =~= ms);
            assert(buf@ =~= start + Self::encoded(ms));
        }
    }

    fn read_field(cursor: &mut StateCursor) -> (r: Option<Self>) {
        let ghost start = cursor.pos;
        let len: u64 = match read_number(cursor, 4) {
            Some(len) => len,
            None => {
                return None;
            },
        };
        let ghost body = cursor.rest();
        let ghost data = cursor.data;
        let mut items: Vec<T> = Vec::new();
        let mut i: u64 = 0;
        proof {
            assert(models(items@) =~= Seq::empty());
            assert(body.skip(0) =~= body);
        }
        while i < len
            invariant
                i <= len,
                cursor.wf(),
                cursor.data == data,
                items@.len() == i,
                decoded_items::<T>(body, i as nat) == Some(
                    (models(items@), cursor.pos - start - 4),
                ),
                cursor.rest() == body.skip(cursor.pos - start - 4),
                cursor.pos >= start + 4,
                body == data@.skip(start + 4),
                data == old(cursor).data,
                body == old(cursor).rest().skip(4),
                number_at(old(cursor).rest(), 4) == Some((len as nat, 4int)),
            decreases len - i,
        {
            let ghost at = cursor.pos;
            let ghost done = items@;
            proof {
                T::lemma_decoded_within(cursor.rest());
            }
            match T::read_field(cursor) {
                Some(item) => {
                    items.push(item);
                    proof {
                        assert(models(items@) =~= models(done).push(item.model()));
                        assert(cursor.rest() =~= body.skip(cursor.pos - start - 4));
                    }
                },
                None => {
                    proof {
                        lemma_items_missing::<T>(body, (i + 1) as nat, len as nat);
                    }
                    return None;
                },
            }
            i = i + 1;
        }
        Some(items)
    }

    proof fn lemma_decoded_within(bytes: Seq<u8>) {
        if let Some((len, _)) = number_at(bytes, 4) {
            lemma_items_within::<T>(bytes.skip(4), len);
        }
    }

    proof fn law_round_trip(m: Seq<T::Model>, tail: Seq<u8>) {
        lemma_byte_ranges();
        let items = encoded_items::<T>(m);
        lemma_number_round_trip(m.len(), 4, items + tail);
        let all = Self::encoded(m) + tail;
        assert(all =~= length_prefix(m.len()) + (items + tail));
        assert(all.skip(4) =~= items + tail);
        assert(m.take(m.len() as int) =~= m);
        lemma_items_round_trip::<T>(m, m.len() as int, tail);
    }
}

pub open spec fn model_of<T: StateField>(value: Option<T>) -> Option<T::Model> {
    match value {
        Some(v) => Some(v.model()),
        None => None,
    }
}

impl<T: StateField> StateField for Option<T> {
    type Model = Option<T::Model>;

    open spec fn model(&self) -> Option<T::Model> {
        model_of(*self)
    }

    open spec fn encoded(m: Option<T::Model>) -> Seq<u8> {
        match m {
            Some(v) => seq![1u8] + T::encoded(v),
            None => seq![0u8],
        }
    }

    open spec fn storable(m: Option<T::Model>) -> bool {
        m matches Some(v) ==> T::storable(v)
    }

    open spec fn decoded(bytes: Seq<u8>) -> Option<(Option<T::Model>, int)> {
        if bytes.len() == 0 {
            None
        } else if bytes[0] == 0 {
            Some((None, 1))
        } else {
            match T::decoded(bytes.skip(1)) {
                Some((v, used)) => Some((Some(v), 1 + used)),
                None => None,
            }
        }
    }

    fn write_field(&self, buf: &mut Vec<u8>) {
        let ghost start = buf@;
        match self {
            Some(val) => {
                buf.push(1);
                val.write_field(buf);
            },
            None => {
                buf.push(0);
            },
        }
        proof {
            assert(buf@ =~= start + Self::encoded(self.model()));
        }
    }

    fn read_field(cursor: &mut StateCursor) -> (r: Option<Self>) {
        let tag: u8 = match cursor.read_bytes(1) {
            Some(bytes) => bytes[0],
            None => {
                return None;
            },
        };
        if tag == 0 {
            Some(None)
        } else {
            match T::read_field(cursor) {
                Some(v) => Some(Some(v)),
                None => None,
            }
        }
    }

    proof fn lemma_decoded_within(bytes: Seq<u8>) {
        if bytes.len() > 0 {
            T::lemma_decoded_within(bytes.skip(1));
        }
    }

    proof fn law_round_trip(m: Option<T::Model>, tail: Seq<u8>) {
        let all = Self::encoded(m) + tail;
        if let Some(v) = m {
            assert(all.skip(1) =~= T::encoded(v) + tail);
            T::law_round_trip(v, tail);
        }
    }
}

/// A plugin's own state as a whole.
///
/// The type also has a default, for what a saved state does not hold.
pub trait State: Sized + Default {
    /// The bytes that this state is saved as.
    closed spec fn saved(&self) -> Seq<u8> {
        Seq::empty()
    }

    /// The state that saved bytes stand for.
    closed spec fn loaded(data: Seq<u8>) -> Option<Self> {
        None
    }

    fn serialize(&self) -> (r: Vec<u8>)
        ensures
            r@ == self.saved(),
    ;

    fn deserialize(data: &[u8]) -> (r: Option<Self>)
        ensures
            r == Self::loaded(data@),
    ;
}

/// An editor's typed view of its plugin's state, kept so that it is not read
/// anew for every frame.
pub struct StateBinding<T: State> {
    pub cached: T,
}

impl<T: State> StateBinding<T> {
    /// The state after the plugin's bytes were read: theirs, or the one before
    /// where there are none or they do not parse.
    pub open spec fn synced(cached: T, data: Seq<u8>) -> T {
        if data.len() > 0 && T::loaded(data) is Some {
            T::loaded(data)->0
        } else {
            cached
        }
    }

    /// A binding to a plugin that saved these bytes.
    pub fn new(data: &Vec<u8>) -> (r: Self)
        ensures
            exists|fresh: T|
                #[trigger] call_ensures(T::default, (), fresh) && r.cached == Self::synced(
                    fresh,
                    data@,
                ),
    {
        let mut binding = StateBinding { cached: T::default() };
        binding.sync(data);
        binding
    }

    /// Reads the plugin's bytes anew.
    pub fn sync(&mut self, data: &Vec<u8>)
        ensures
            final(self).cached == Self::synced(old(self).cached, data@),
    {
        if data.len() > 0 {
            if let Some(s) = T::deserialize(data.as_slice()) {
                self.cached = s;
            }
        }
    }

    pub fn get(&self) -> (r: &T)
        ensures
            *r == self.cached,
    {
        &self.cached
    }

    /// Changes the state; the bytes to hand to the plugin come back.
    pub fn update(&mut self, f: impl FnOnce(&mut T)) -> (r: Vec<u8>)
        requires
            forall|state: &mut T| #[trigger] call_requires(f, (state,)),
        ensures
            exists|state: &mut T|
                {
                    &&& #[trigger] call_ensures(f, (state,), ())
                    &&& *state == old(self).cached
                    &&& final(self).cached == *final(state)
                },
            r@ == final(self).cached.saved(),
    {
        f(&mut self.cached);
        self.cached.serialize()
    }
}

impl<T: State> Default for StateBinding<T> {
    fn default() -> (r: Self)
        ensures
            call_ensures(T::default, (), r.cached),
    {
        StateBinding { cached: T::default() }
    }
}

/// Unsigned numbers are written in as many bytes as they have, the lowest first, and
/// whatever is shorter than that reads as nothing.
pub proof fn law_numbers_are_written_lowest_byte_first(a: u8, b: u16, c: u32, d: u64, bytes: Seq<u8>)
    ensures
        <u8 as StateField>::encoded(a) == seq![a],
        <u16 as StateField>::encoded(b) == seq![(b % 256) as u8, (b / 256) as u8],
        <u32 as StateField>::encoded(c) == seq![
            (c % 256) as u8,
            (c / 256 % 256) as u8,
            (c / 65536 % 256) as u8,
            (c / 16777216) as u8,
        ],
        <u64 as StateField>::encoded(d) == seq![
            (d % 256) as u8,
            (d / 256 % 256) as u8,
            (d / 65536 % 256) as u8,
            (d / 16777216 % 256) as u8,
            (d / 4294967296 % 256) as u8,
            (d / 1099511627776 % 256) as u8,
            (d / 281474976710656 % 256) as u8,
            (d / 72057594037927936) as u8,
        ],
        <u8 as StateField>::decoded(bytes) is None <==> bytes.len() < 1,
        <u16 as StateField>::decoded(bytes) is None <==> bytes.len() < 2,
        <u32 as StateField>::decoded(bytes) is None <==> bytes.len() < 4,
        <u64 as StateField>::decoded(bytes) is None <==> bytes.len() < 8,
{
    reveal_with_fuel(le_bytes, 9);
    assert(<u8 as StateField>::encoded(a) =~= seq![a]);
    assert(<u16 as StateField>::encoded(b) =~= seq![(b % 256) as u8, (b / 256) as u8]);
    assert(c / 256 / 256 == c / 65536 && c / 65536 / 256 == c / 16777216);
    assert(<u32 as StateField>::encoded(c) =~= seq![
        (c % 256) as u8,
        (c / 256 % 256) as u8,
        (c / 65536 % 256) as u8,
        (c / 16777216) as u8,
    ]);
    assert(d / 256 / 256 == d / 65536 && d / 65536 / 256 == d / 16777216);
    assert(d / 16777216 / 256 == d / 4294967296 && d / 4294967296 / 256 == d / 1099511627776);
    assert(d / 1099511627776 / 256 == d / 281474976710656);
    assert(d / 281474976710656 / 256 == d / 72057594037927936);
    assert(<u64 as StateField>::encoded(d) =~= seq![
        (d % 256) as u8,
        (d / 256 % 256) as u8,
        (d / 65536 % 256) as u8,
        (d / 16777216 % 256) as u8,
        (d / 4294967296 % 256) as u8,
        (d / 1099511627776 % 256) as u8,
        (d / 281474976710656 % 256) as u8,
        (d / 72057594037927936) as u8,
    ]);
}

/// Signed numbers are written as the unsigned ones of the same bits: those below zero as
/// that much below one more than the largest.
pub proof fn law_signed_numbers_are_written_by_their_bits(a: i8, b: i16, c: i32, d: i64)
    ensures
        <i8 as StateField>::encoded(a) == <u8 as StateField>::encoded((a as int % 256) as u8),
        <i16 as StateField>::encoded(b) == <u16 as StateField>::encoded((b as int % 65536) as u16),
        <i32 as StateField>::encoded(c) == <u32 as StateField>::encoded(
            (c as int % 4294967296) as u32,
        ),
        <i64 as StateField>::encoded(d) == <u64 as StateField>::encoded(
            (d as int % 18446744073709551616) as u64,
        ),
{
}

/// A truth value is one byte, one or zero, and any byte but zero reads as true. What may be
/// missing has such a byte in front: zero and nothing more where it is missing, one and the
/// value where it is there.
pub proof fn law_flags_are_one_byte<T: StateField>(value: T::Model, bytes: Seq<u8>)
    ensures
        <bool as StateField>::encoded(true) == seq![1u8],
        <bool as StateField>::encoded(false) == seq![0u8],
        bytes.len() > 0 ==> <bool as StateField>::decoded(bytes) == Some((bytes[0] != 0, 1int)),
        bytes.len() == 0 ==> <bool as StateField>::decoded(bytes) is None,
        <Option<T> as StateField>::encoded(None) == seq![0u8],
        <Option<T> as StateField>::encoded(Some(value)) == seq![1u8] + T::encoded(value),
{
}

/// A text is written as the number of its bytes, in four bytes, and those bytes; a list as
/// the number of its items and the items, the first in front.
pub proof fn law_lengths_stand_in_front<T: StateField>(
    text: Seq<char>,
    items: Seq<T::Model>,
    last: T::Model,
)
    requires
        vstd::utf8::encode_utf8(text).len() <= 0xFFFF_FFFF,
        items.len() < 0xFFFF_FFFF,
    ensures
        <String as StateField>::encoded(text) == <u32 as StateField>::encoded(
            vstd::utf8::encode_utf8(text).len() as u32,
        ) + vstd::utf8::encode_utf8(text),
        <Vec<T> as StateField>::encoded(Seq::empty()) == <u32 as StateField>::encoded(0),
        <Vec<T> as StateField>::encoded(items.push(last)) == <u32 as StateField>::encoded(
            (items.len() + 1) as u32,
        ) + (<Vec<T> as StateField>::encoded(items).skip(4) + T::encoded(last)),
{
    reveal_with_fuel(le_bytes, 5);
    let more = items.push(last);
    assert(more.drop_last() =~= items);
    assert(<Vec<T> as StateField>::encoded(Seq::empty()) =~= <u32 as StateField>::encoded(0));
    assert(length_prefix(items.len()).len() == 4);
    assert(<Vec<T> as StateField>::encoded(items).skip(4) =~= encoded_items::<T>(items));
}

/// A binding takes the plugin's bytes where there are any that parse, and otherwise keeps
/// what it has.
pub proof fn law_bindings_keep_what_they_cannot_replace<T: State>(cached: T, data: Seq<u8>)
    ensures
        data.len() == 0 ==> StateBinding::<T>::synced(cached, data) == cached,
        T::loaded(data) is None ==> StateBinding::<T>::synced(cached, data) == cached,
        data.len() > 0 ==> (T::loaded(data) matches Some(state) ==> StateBinding::<T>::synced(
            cached,
            data,
        ) == state),
{
}

/// What a field says is its value: numbers and truth values themselves, a text its
/// characters, a list what its items say, and what may be missing what is there.
pub proof fn law_fields_say_their_values<T: StateField>(
    a: u8,
    b: u16,
    c: u32,
    d: u64,
    flag: bool,
    text: String,
    items: Vec<T>,
    value: T,
    i: int,
)
    ensures
        a.model() == a && b.model() == b && c.model() == c && d.model() == d,
        flag.model() == flag,
        text.model() == text@,
        items.model().len() == items@.len(),
        0 <= i < items@.len() ==> items.model()[i] == items@[i].model(),
        Some(value).model() == Some(value.model()),
        None::<T>.model() is None,
{
}

/// So do signed numbers.
pub proof fn law_signed_fields_say_their_values(a: i8, b: i16, c: i32, d: i64)
    ensures
        a.model() == a && b.model() == b && c.model() == c && d.model() == d,
        <i8 as StateField>::storable(a) && <i16 as StateField>::storable(b),
        <i32 as StateField>::storable(c) && <i64 as StateField>::storable(d),
{
}

/// Every value survives being written, but for texts and lists whose length does not fit
/// four bytes, and what holds such ones.
pub proof fn law_what_survives_being_written<T: StateField>(
    a: u8,
    b: u16,
    c: u32,
    d: u64,
    flag: bool,
    text: Seq<char>,
    items: Seq<T::Model>,
    value: T::Model,
)
    ensures
        <u8 as StateField>::storable(a) && <u16 as StateField>::storable(b),
        <u32 as StateField>::storable(c) && <u64 as StateField>::storable(d),
        <bool as StateField>::storable(flag),
        <String as StateField>::storable(text) <==> vstd::utf8::encode_utf8(text).len()
            <= 0xFFFF_FFFF,
        items.len() <= 0xFFFF_FFFF && (forall|i: int|
            0 <= i < items.len() ==> T::storable(#[trigger] items[i])) ==> <Vec<
            T,
        > as StateField>::storable(items),
        <Option<T> as StateField>::storable(None),
        T::storable(value) ==> <Option<T> as StateField>::storable(Some(value)),
{
}

/// A text whose length is larger than what follows it reads as nothing, and so do bytes
/// that are no text.
pub proof fn law_cut_texts_read_as_nothing(len: u32, bytes: Seq<u8>)
    ensures
        bytes.len() < len ==> <String as StateField>::decoded(
            <u32 as StateField>::encoded(len) + bytes,
        ) is None,
        bytes.len() >= len && !vstd::utf8::valid_utf8(bytes.take(len as int)) ==> <
            String as StateField
        >::decoded(<u32 as StateField>::encoded(len) + bytes) is None,
{
    lemma_byte_ranges();
    lemma_number_round_trip(len as nat, 4, bytes);
    let all = <u32 as StateField>::encoded(len) + bytes;
    if bytes.len() >= len {
        assert(all.subrange(4, 4 + len as int) =~= bytes.take(len as int));
    }
}

} // verus!
