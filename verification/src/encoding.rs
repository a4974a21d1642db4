//! Text encodings: base64, and the escapes of quoted strings.
use crate::text::to_chars;
use base64::Engine;
use vstd::prelude::*;
use vstd::string::*;

verus! {

/// The base64 text of some bytes.
pub uninterp spec fn base64_text(bytes: Seq<u8>) -> Seq<char>;

/// The bytes that a base64 text stands for; of one that is none, in words, why.
pub uninterp spec fn base64_decoded(text: Seq<char>) -> Result<Seq<u8>, Seq<char>>;

/// Whether the base64 text of so many bytes, four characters for each three of
/// them, fits in memory.
pub open spec fn encodable(n: nat) -> bool {
    (n + 2) / 3 * 4 <= isize::MAX
}

/// `base64::engine::general_purpose::STANDARD.encode`: the padded base64 text of
/// the bytes. Decoding it gives them back. It panics where the text would be
/// longer than memory can be; bytes that long are left out.
#[verifier::external_body]
pub(crate) fn base64_encode(bytes: &[u8]) -> (r: String)
    requires
        encodable(bytes@.len()),
    ensures
        r@ == base64_text(bytes@),
        (base64_decoded(r@) == Ok::<Seq<u8>, Seq<char>>(bytes@)),
{
    base64::engine::general_purpose::STANDARD.encode(bytes)
}

/// `base64::engine::general_purpose::STANDARD.decode`: the bytes of a padded base64
/// text, or in words why it is none.
#[verifier::external_body]
pub(crate) fn base64_decode(text: &str) -> (r: Result<Vec<u8>, String>)
    ensures
        match r {
            Ok(bytes) => base64_decoded(text@) == Ok::<Seq<u8>, Seq<char>>(bytes@),
            Err(reason) => base64_decoded(text@) == Err::<Seq<u8>, Seq<char>>(reason@),
        },
{
    base64::engine::general_purpose::STANDARD.decode(text).map_err(|e| e.to_string())
}

/// One character inside a quoted string: a backslash and a quote get a backslash
/// in front.
pub open spec fn escaped_char(c: char) -> Seq<char> {
    if c == '\\' || c == '"' {
        seq!['\\', c]
    } else {
        seq![c]
    }
}

/// A text as it stands inside a quoted string.
pub open spec fn escaped(s: Seq<char>) -> Seq<char>
    decreases s.len(),
{
    if s.len() == 0 {
        Seq::empty()
    } else {
        escaped(s.drop_last()) + escaped_char(s.last())
    }
}

/// Escapes a text for a quoted string.
pub fn escape_quoted(s: &str) -> (r: String)
    ensures
        r@ == escaped(s@),
{
    let chars: Vec<char> = to_chars(s);
    let mut r: String = String::new();
    let mut i: usize = 0;
    while i < chars.len()
        invariant
            i <= chars@.len(),
            r@ == escaped(chars@.take(i as int)),
        decreases chars@.len() - i,
    {
        let c: char = chars[i];
        let ghost before = r@;
        proof {
            assert(chars@.take(i + 1).drop_last() =~= chars@.take(i as int));
        }
        if c == '\\' || c == '"' {
            r.push('\\');
        }
        r.push(c);
        proof {
            assert(r@ =~= before + escaped_char(c));
        }
        i = i + 1;
    }
    proof {
        assert(chars@.take(i as int) =~= chars@);
    }
    r
}

/// Reads the text of a quoted string: a backslash is dropped, and what follows it
/// stands for itself.
pub open spec fn unescaped_text(s: Seq<char>) -> Seq<char>
    decreases s.len(),
{
    if s.len() == 0 {
        Seq::empty()
    } else if s[0] == '\\' && s.len() > 1 {
        seq![s[1]] + unescaped_text(s.skip(2))
    } else {
        seq![s[0]] + unescaped_text(s.skip(1))
    }
}

pub(crate) proof fn lemma_escaped_front(s: Seq<char>)
    requires
        s.len() > 0,
    ensures
        escaped(s) == escaped_char(s[0]) + escaped(s.skip(1)),
    decreases s.len(),
{
    if s.len() == 1 {
        assert(s.drop_last() =~= Seq::empty());
        assert(s.skip(1) =~= Seq::empty());
        assert(escaped(s) =~= escaped_char(s[0]) + escaped(s.skip(1)));
    } else {
        let front = s.drop_last();
        lemma_escaped_front(front);
        assert(front.skip(1) =~= s.skip(1).drop_last());
        assert(s.skip(1).last() == s.last());
        assert(escaped(s) =~= escaped_char(s[0]) + escaped(s.skip(1)));
    }
}

/// Reading an escaped text back gives the text.
pub proof fn law_escape_round_trip(s: Seq<char>)
    ensures
        unescaped_text(escaped(s)) == s,
    decreases s.len(),
{
    if s.len() > 0 {
        lemma_escaped_front(s);
        law_escape_round_trip(s.skip(1));
        let out = escaped(s);
        if s[0] == '\\' || s[0] == '"' {
            assert(out.skip(2) =~= escaped(s.skip(1)));
        } else {
            assert(out.skip(1) =~= escaped(s.skip(1)));
        }
        assert(s =~= seq![s[0]] + s.skip(1));
    }
}

/// Whether a quote ends a quoted string inside of this text: it is not behind a backslash
/// that takes it as it is.
pub open spec fn ends_early(s: Seq<char>) -> bool
    decreases s.len(),
{
    if s.len() == 0 {
        false
    } else if s[0] == '\\' && s.len() > 1 {
        ends_early(s.skip(2))
    } else if s[0] == '"' {
        true
    } else {
        ends_early(s.skip(1))
    }
}

/// An escaped text does not end the string that it stands in, and a text without quotes
/// and backslashes stays as it is.
pub proof fn law_escaped_text_stays_inside(s: Seq<char>)
    ensures
        !ends_early(escaped(s)),
        !s.contains('"') && !s.contains('\\') ==> escaped(s) == s,
    decreases s.len(),
{
    if s.len() > 0 {
        lemma_escaped_front(s);
        let rest = s.skip(1);
        law_escaped_text_stays_inside(rest);
        let out = escaped(s);
        if s[0] == '\\' || s[0] == '"' {
            assert(out.skip(2) =~= escaped(rest));
            assert(s.contains(s[0]));
        } else {
            assert(out.skip(1) =~= escaped(rest));
            if !s.contains('"') && !s.contains('\\') {
                assert forall|c: char| rest.contains(c) implies s.contains(c) by {
                    let i = choose|i: int| 0 <= i < rest.len() && rest[i] == c;
                    assert(s[i + 1] == c);
                }
                assert(out =~= s);
            }
        }
    }
}

} // verus!
