//! Byte decoder: reverses zsh's high-bit escaping scheme.
//!
//! zsh stores bytes with the high bit set by writing a marker byte (0x83)
//! followed by the original byte with bit 5 toggled. Decoding scans left to
//! right with a single "armed" flag: a marker arms the flag and emits
//! nothing; an armed byte is emitted with bit 5 toggled; any other byte is
//! emitted unchanged. A trailing marker with no following byte emits nothing.

use vstd::prelude::*;

verus! {

/// The byte that marks the following byte as escaped.
pub const MARKER: u8 = 0x83;

/// The decoded form of `s`, scanning with the given `armed` flag.
pub open spec fn decoded_from(s: Seq<u8>, armed: bool) -> Seq<u8>
    decreases s.len(),
{
    if s.len() == 0 {
        Seq::empty()
    } else if s[0] == MARKER {
        decoded_from(s.drop_first(), true)
    } else if armed {
        seq![s[0] ^ 0x20] + decoded_from(s.drop_first(), false)
    } else {
        seq![s[0]] + decoded_from(s.drop_first(), false)
    }
}

/// The decoded form of a raw byte sequence (initially unarmed).
pub open spec fn decoded(s: Seq<u8>) -> Seq<u8> {
    decoded_from(s, false)
}

/// Reverses the escaping scheme on a raw byte slice.
pub fn decode_bytes(bytes: &[u8]) -> (out: Vec<u8>)
    ensures
        out@ == decoded(bytes@),
{
    let mut out: Vec<u8> = Vec::new();
    let mut armed = false;
    let mut i: usize = 0;
    proof {
        assert(bytes@.skip(0) =~= bytes@);
        assert(out@ + decoded_from(bytes@.skip(0), false) =~= decoded_from(bytes@, false));
    }
    while i < bytes.len()
        invariant
            i <= bytes@.len(),
            decoded(bytes@) == out@ + decoded_from(bytes@.skip(i as int), armed),
        decreases bytes@.len() - i,
    {
        let b = bytes[i];
        proof {
            assert(bytes@.skip(i as int)[0] == b);
            assert(bytes@.skip(i as int).drop_first() =~= bytes@.skip(i + 1));
        }
        if b == MARKER {
            armed = true;
        } else if armed {
            out.push(b ^ 0x20);
            armed = false;
        } else {
            out.push(b);
        }
        proof {
            assert(decoded(bytes@) == out@ + decoded_from(bytes@.skip(i + 1), armed));
        }
        i = i + 1;
    }
    proof {
        assert(bytes@.skip(bytes@.len() as int) =~= Seq::<u8>::empty());
        assert(out@ + Seq::<u8>::empty() =~= out@);
    }
    out
}

/// The text that lossy UTF-8 recovery reads out of `bytes`: well-formed
/// sequences become their characters, ill-formed ones replacement characters.
pub uninterp spec fn lossy_utf8(bytes: Seq<u8>) -> Seq<char>;

/// Relies on `String::from_utf8_lossy`: the result is a function of the bytes
/// alone, it never fails, and bytes that are already valid UTF-8 (ASCII in
/// particular) come through unchanged.
#[verifier::external_body]
pub(crate) fn utf8_lossy(bytes: &Vec<u8>) -> (r: String)
    ensures
        r@ == lossy_utf8(bytes@),
        (forall|i: int| 0 <= i < bytes@.len() ==> bytes@[i] < 0x80) ==> r@ == bytes@.map_values(
            |b: u8| b as char,
        ),
{
    String::from_utf8_lossy(bytes.as_slice()).into_owned()
}

/// Decodes one raw record to text: reverses the escaping scheme, then reads
/// the result as UTF-8, lossily. Plain ASCII input (which in particular
/// holds no marker byte) comes back as the same characters, unchanged.
pub fn decode(bytes: &[u8]) -> (r: String)
    ensures
        r@ == lossy_utf8(decoded(bytes@)),
        (forall|i: int| 0 <= i < bytes@.len() ==> bytes@[i] < 0x80) ==> r@ == bytes@.map_values(
            |b: u8| b as char,
        ),
{
    proof {
        if forall|i: int| 0 <= i < bytes@.len() ==> bytes@[i] < 0x80 {
            lemma_decoded_no_marker(bytes@);
        }
    }
    let unescaped = decode_bytes(bytes);
    utf8_lossy(&unescaped)
}

/// Decoding a sequence that contains no marker byte leaves it unchanged.
pub proof fn lemma_decoded_no_marker(s: Seq<u8>)
    requires
        forall|i: int| 0 <= i < s.len() ==> s[i] != MARKER,
    ensures
        decoded(s) == s,
    decreases s.len(),
{
    if s.len() == 0 {
        assert(decoded(s) =~= s);
    } else {
        lemma_decoded_no_marker(s.drop_first());
        assert(decoded(s) == seq![s[0]] + decoded(s.drop_first()));
        assert(seq![s[0]] + s.drop_first() =~= s);
    }
}

} // verus!
