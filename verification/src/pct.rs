//! Percent-escaping of location and fragment bytes in the wire form.
//!
//! The wire form escapes C0 controls, DEL, non-ASCII bytes and `#`; every
//! other byte (`/` and `%` included) passes through unchanged.  Decoding
//! turns every `%` followed by two hex digits back into a byte and keeps
//! everything else, so decoding inverts encoding except on inputs that
//! already hold an escape-shaped run (see [`has_escape_shape`]).

use vstd::prelude::*;

verus! {

/// Bytes that the wire form escapes: C0 controls, DEL, non-ASCII bytes, `#`.
pub open spec fn needs_escape(b: u8) -> bool {
    b < 0x20 || b >= 0x7f || b == 0x23
}

/// Uppercase hex digit for a nibble.
pub open spec fn hex_upper(n: int) -> u8
    recommends
        0 <= n < 16,
{
    if n < 10 {
        (0x30 + n) as u8
    } else {
        (55 + n) as u8
    }
}

/// Hex digits as percent-decoding accepts them: `0-9`, `A-F`, `a-f`.
pub open spec fn is_hex_digit(b: u8) -> bool {
    (0x30 <= b && b <= 0x39) || (0x41 <= b && b <= 0x46) || (0x61 <= b && b <= 0x66)
}

/// Value of a hex digit.
pub open spec fn hex_val(b: u8) -> int
    recommends
        is_hex_digit(b),
{
    if 0x30 <= b && b <= 0x39 {
        b - 0x30
    } else if 0x41 <= b && b <= 0x46 {
        b - 55
    } else {
        b - 87
    }
}

/// The three-byte escape `%XX` of a byte, with uppercase hex digits.
pub open spec fn escape_of(b: u8) -> Seq<u8> {
    seq![0x25u8, hex_upper(b as int / 16), hex_upper(b as int % 16)]
}

/// What the encoder emits for one byte.
pub open spec fn enc_byte(b: u8) -> Seq<u8> {
    if needs_escape(b) {
        escape_of(b)
    } else {
        seq![b]
    }
}

/// Percent-encoding of a byte sequence.
pub open spec fn pct_encode(s: Seq<u8>) -> Seq<u8>
    decreases s.len(),
{
    if s.len() == 0 {
        Seq::empty()
    } else {
        enc_byte(s[0]) + pct_encode(s.skip(1))
    }
}

/// Percent-decoding of a byte sequence: every `%` followed by two hex
/// digits becomes the byte they denote; every other byte is kept.
pub open spec fn pct_decode(s: Seq<u8>) -> Seq<u8>
    decreases s.len(),
{
    if s.len() == 0 {
        Seq::empty()
    } else if s[0] == 0x25 && s.len() >= 3 && is_hex_digit(s[1]) && is_hex_digit(s[2]) {
        seq![(hex_val(s[1]) * 16 + hex_val(s[2])) as u8] + pct_decode(s.skip(3))
    } else {
        seq![s[0]] + pct_decode(s.skip(1))
    }
}

/// An escape-shaped run the encoder did not produce: a raw `%` followed by
/// two hex digits.  On inputs holding one, decoding does not invert encoding.
pub open spec fn has_escape_shape(s: Seq<u8>) -> bool {
    exists|i: int|
        0 <= i && i + 2 < s.len() && #[trigger] s[i] == 0x25 && is_hex_digit(s[i + 1])
            && is_hex_digit(s[i + 2])
}

proof fn lemma_hex_upper_val(n: int)
    requires
        0 <= n < 16,
    ensures
        is_hex_digit(hex_upper(n)),
        hex_val(hex_upper(n)) == n,
{
}

/// Decoding inverts encoding on every sequence free of escape-shaped runs.
pub proof fn lemma_pct_round_trip(s: Seq<u8>)
    requires
        !has_escape_shape(s),
    ensures
        pct_decode(pct_encode(s)) == s,
    decreases s.len(),
{
    if s.len() == 0 {
        assert(pct_decode(pct_encode(s)) =~= s);
    } else {
        let b = s[0];
        let rest = s.skip(1);
        let e = pct_encode(rest);
        assert(!has_escape_shape(rest)) by {
            if has_escape_shape(rest) {
                let i = choose|i: int|
                    0 <= i && i + 2 < rest.len() && #[trigger] rest[i] == 0x25 && is_hex_digit(
                        rest[i + 1],
                    ) && is_hex_digit(rest[i + 2]);
                assert(s[i + 1] == 0x25 && is_hex_digit(s[i + 2]) && is_hex_digit(s[i + 3]));
            }
        }
        lemma_pct_round_trip(rest);
        let enc = pct_encode(s);
        assert(enc == enc_byte(b) + e);
        if needs_escape(b) {
            let h1 = hex_upper(b as int / 16);
            let h2 = hex_upper(b as int % 16);
            lemma_hex_upper_val(b as int / 16);
            lemma_hex_upper_val(b as int % 16);
            assert(enc[0] == 0x25 && enc[1] == h1 && enc[2] == h2);
            assert(enc.skip(3) =~= e);
            assert((hex_val(h1) * 16 + hex_val(h2)) as u8 == b);
            assert(pct_decode(enc) =~= seq![b] + rest);
            assert(seq![b] + rest =~= s);
        } else if b != 0x25 {
            assert(enc[0] == b);
            assert(enc.skip(1) =~= e);
            assert(pct_decode(enc) =~= seq![b] + rest);
            assert(seq![b] + rest =~= s);
        } else {
            // A raw `%` passes through; the absence of escape-shaped runs in
            // `s` keeps the decoder from treating what follows as an escape.
            assert(enc[0] == 0x25);
            let hex_follows = enc.len() >= 3 && is_hex_digit(enc[1]) && is_hex_digit(enc[2]);
            assert(!hex_follows) by {
                if rest.len() == 0 {
                    assert(enc.len() == 1);
                } else {
                    assert(e == enc_byte(rest[0]) + pct_encode(rest.skip(1)));
                    assert(enc[1] == e[0]);
                    if needs_escape(rest[0]) {
                        assert(e[0] == 0x25);
                        assert(!is_hex_digit(0x25));
                    } else {
                        assert(e[0] == rest[0] && rest[0] == s[1]);
                        if is_hex_digit(s[1]) {
                            let e2 = pct_encode(rest.skip(1));
                            if rest.len() == 1 {
                                assert(rest.skip(1).len() == 0);
                                assert(e.len() == 1);
                                assert(enc.len() == 2);
                            } else {
                                assert(e2 == enc_byte(rest.skip(1)[0]) + pct_encode(
                                    rest.skip(1).skip(1),
                                ));
                                assert(rest.skip(1)[0] == s[2]);
                                assert(e[1] == e2[0]);
                                assert(enc[2] == e[1]);
                                if needs_escape(s[2]) {
                                    assert(e2[0] == 0x25);
                                    assert(!is_hex_digit(0x25));
                                } else {
                                    assert(e2[0] == s[2]);
                                    if is_hex_digit(s[2]) {
                                        assert(0 + 2 < s.len() && s[0] == 0x25 && is_hex_digit(
                                            s[1],
                                        ) && is_hex_digit(s[2]));
                                        assert(has_escape_shape(s));
                                    }
                                }
                            }
                        }
                    }
                }
            }
            assert(enc.skip(1) =~= e);
            assert(pct_decode(enc) =~= seq![b] + rest);
            assert(seq![b] + rest =~= s);
        }
    }
}

/// The encoder never emits a raw `#`.
pub proof fn lemma_pct_encode_no_hash(s: Seq<u8>)
    ensures
        forall|k: int| 0 <= k < pct_encode(s).len() ==> pct_encode(s)[k] != 0x23,
    decreases s.len(),
{
    if s.len() > 0 {
        lemma_pct_encode_no_hash(s.skip(1));
        let head = enc_byte(s[0]);
        assert forall|k: int| 0 <= k < pct_encode(s).len() implies pct_encode(s)[k] != 0x23 by {
            if k < head.len() {
                assert(pct_encode(s)[k] == head[k]);
                if needs_escape(s[0]) {
                    lemma_hex_upper_val(s[0] as int / 16);
                    lemma_hex_upper_val(s[0] as int % 16);
                }
            } else {
                assert(pct_encode(s)[k] == pct_encode(s.skip(1))[k - head.len()]);
            }
        }
    }
}

/// Encoding distributes over concatenation.
pub proof fn lemma_pct_encode_concat(a: Seq<u8>, b: Seq<u8>)
    ensures
        pct_encode(a + b) == pct_encode(a) + pct_encode(b),
    decreases a.len(),
{
    if a.len() == 0 {
        assert(a + b =~= b);
        assert(pct_encode(a) + pct_encode(b) =~= pct_encode(b));
    } else {
        assert((a + b).skip(1) =~= a.skip(1) + b);
        lemma_pct_encode_concat(a.skip(1), b);
        assert((a + b)[0] == a[0]);
        assert(pct_encode(a + b) == enc_byte(a[0]) + (pct_encode(a.skip(1)) + pct_encode(b)));
        assert(enc_byte(a[0]) + (pct_encode(a.skip(1)) + pct_encode(b)) =~= (enc_byte(a[0])
            + pct_encode(a.skip(1))) + pct_encode(b));
    }
}

/// Relies on percent_encoding::percent_encode_byte: it returns the `%XX`
/// escape of the byte, with uppercase hex digits.
#[verifier::external_body]
fn pct_escape_byte(b: u8) -> (r: Vec<u8>)
    ensures
        r@ == escape_of(b),
{
    percent_encoding::percent_encode_byte(b).as_bytes().to_vec()
}

/// Relies on percent_encoding::percent_decode: every `%` followed by two
/// hex digits becomes the byte they denote; every other byte is kept.
#[verifier::external_body]
pub(crate) fn decode_bytes(s: &[u8]) -> (r: Vec<u8>)
    ensures
        r@ == pct_decode(s@),
{
    percent_encoding::percent_decode(s).collect()
}

/// Percent-encodes a byte sequence for the wire form.
pub fn encode_bytes(s: &[u8]) -> (r: Vec<u8>)
    ensures
        r@ == pct_encode(s@),
{
    let mut out: Vec<u8> = Vec::new();
    let mut i: usize = 0;
    while i < s.len()
        invariant
            0 <= i <= s@.len(),
            out@ == pct_encode(s@.take(i as int)),
        decreases s@.len() - i,
    {
        let b = s[i];
        if b < 0x20 || b >= 0x7f || b == 0x23 {
            let mut esc = pct_escape_byte(b);
            out.append(&mut esc);
        } else {
            out.push(b);
        }
        proof {
            let x = s@[i as int];
            assert(s@.take(i + 1) =~= s@.take(i as int) + seq![x]);
            lemma_pct_encode_concat(s@.take(i as int), seq![x]);
            assert(seq![x].skip(1) =~= Seq::<u8>::empty());
            assert(pct_encode(seq![x]) == enc_byte(x) + pct_encode(seq![x].skip(1)));
            assert(enc_byte(x) + pct_encode(Seq::<u8>::empty()) =~= enc_byte(x));
        }
        i += 1;
    }
    proof {
        assert(s@.take(s@.len() as int) =~= s@);
    }
    out
}

} // verus!
