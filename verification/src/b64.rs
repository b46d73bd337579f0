//! Verified base64url encoding (URL-safe alphabet, no padding), the
//! serialization that the compact token format uses for its segments.

use vstd::prelude::*;

verus! {

broadcast use vstd::seq::group_seq_axioms;

/// The URL-safe base64 alphabet: the ASCII byte standing for a six-bit
/// value `v < 64`.
pub open spec fn b64_byte(v: u8) -> u8 {
    if v < 26 {
        (65 + v) as u8
    } else if v < 52 {
        (71 + v) as u8
    } else if v < 62 {
        (v - 4) as u8
    } else if v == 62 {
        45u8
    } else {
        95u8
    }
}

/// The base64url encoding of a byte sequence, without padding: each full
/// group of three bytes becomes four alphabet bytes, a trailing group of
/// one or two bytes becomes two or three.
pub open spec fn b64_of(s: Seq<u8>) -> Seq<u8>
    decreases s.len(),
{
    if s.len() == 0 {
        Seq::empty()
    } else if s.len() == 1 {
        seq![b64_byte(s[0] / 4), b64_byte(((s[0] % 4) * 16) as u8)]
    } else if s.len() == 2 {
        seq![b64_byte(s[0] / 4), b64_byte(((s[0] % 4) * 16 + s[1] / 16) as u8), b64_byte(
            ((s[1] % 16) * 4) as u8,
        )]
    } else {
        seq![b64_byte(s[0] / 4), b64_byte(((s[0] % 4) * 16 + s[1] / 16) as u8), b64_byte(
            ((s[1] % 16) * 4 + s[2] / 64) as u8,
        ), b64_byte((s[2] % 64) as u8)] + b64_of(s.skip(3))
    }
}

/// A code point of the URL-safe base64 alphabet: a letter, a digit, a
/// hyphen or an underscore; in particular never a dot.
pub open spec fn is_b64url_code(n: int) -> bool {
    (65 <= n && n <= 90) || (97 <= n && n <= 122) || (48 <= n && n <= 57) || n == 45 || n == 95
}

/// A character of the URL-safe base64 alphabet.
pub open spec fn is_b64url_char(c: char) -> bool {
    is_b64url_code(c as int)
}

/// Every byte of an encoding is in the alphabet, and so ASCII.
pub proof fn lemma_b64_ascii(s: Seq<u8>)
    ensures
        forall|i: int| 0 <= i < b64_of(s).len() ==> b64_of(s)[i] < 128,
        forall|i: int| 0 <= i < b64_of(s).len() ==> is_b64url_code(b64_of(s)[i] as int),
    decreases s.len(),
{
    assert(forall|v: u8| b64_byte(v) < 128 && is_b64url_code(b64_byte(v) as int));
    if s.len() > 2 {
        lemma_b64_ascii(s.skip(3));
        assert forall|i: int|
            0 <= i < b64_of(s).len() implies b64_of(s)[i] < 128 && is_b64url_code(
            b64_of(s)[i] as int,
        ) by {
            if i >= 4 {
                assert(b64_of(s)[i] == b64_of(s.skip(3))[i - 4]);
            }
        }
    }
}

/// The exact length of an encoding: four bytes for each full group of
/// three, two or three for a trailing group of one or two.
pub proof fn lemma_b64_len(s: Seq<u8>)
    ensures
        s.len() % 3 == 0 ==> b64_of(s).len() == s.len() / 3 * 4,
        s.len() % 3 == 1 ==> b64_of(s).len() == s.len() / 3 * 4 + 2,
        s.len() % 3 == 2 ==> b64_of(s).len() == s.len() / 3 * 4 + 3,
    decreases s.len(),
{
    if s.len() > 2 {
        lemma_b64_len(s.skip(3));
    }
}

/// The alphabet is injective on six-bit values.
proof fn lemma_b64_byte_injective()
    ensures
        forall|v1: u8, v2: u8|
            v1 < 64 && v2 < 64 && b64_byte(v1) == b64_byte(v2) ==> v1 == v2,
{
}

/// Encoding is injective: equal encodings come from equal byte sequences.
#[verifier::rlimit(100)]
pub proof fn lemma_b64_injective(s1: Seq<u8>, s2: Seq<u8>)
    requires
        b64_of(s1) == b64_of(s2),
    ensures
        s1 == s2,
    decreases s1.len(),
{
    lemma_b64_len(s1);
    lemma_b64_len(s2);
    lemma_b64_byte_injective();
    if s1.len() == 0 {
        assert(s2.len() == 0);
        assert(s1 =~= s2);
    } else if s1.len() == 1 {
        assert(s2.len() == 1);
        assert(b64_of(s1)[0] == b64_byte(s1[0] / 4));
        assert(b64_of(s2)[0] == b64_byte(s2[0] / 4));
        assert(b64_of(s1)[1] == b64_byte(((s1[0] % 4) * 16) as u8));
        assert(b64_of(s2)[1] == b64_byte(((s2[0] % 4) * 16) as u8));
        assert(s1[0] / 4 == s2[0] / 4);
        assert((s1[0] % 4) * 16 == (s2[0] % 4) * 16);
        assert(s1[0] == s1[0] / 4 * 4 + s1[0] % 4);
        assert(s1 =~= s2);
    } else if s1.len() == 2 {
        assert(s2.len() == 2);
        assert(b64_of(s1)[0] == b64_byte(s1[0] / 4));
        assert(b64_of(s1)[1] == b64_byte(((s1[0] % 4) * 16 + s1[1] / 16) as u8));
        assert(b64_of(s1)[2] == b64_byte(((s1[1] % 16) * 4) as u8));
        assert(b64_of(s2)[0] == b64_byte(s2[0] / 4));
        assert(b64_of(s2)[1] == b64_byte(((s2[0] % 4) * 16 + s2[1] / 16) as u8));
        assert(b64_of(s2)[2] == b64_byte(((s2[1] % 16) * 4) as u8));
        assert(s1[0] / 4 == s2[0] / 4);
        assert((s1[0] % 4) * 16 + s1[1] / 16 == (s2[0] % 4) * 16 + s2[1] / 16);
        assert((s1[1] % 16) * 4 == (s2[1] % 16) * 4);
        assert(s1[0] % 4 == s2[0] % 4) by {
            assert(s1[1] / 16 < 16 && s2[1] / 16 < 16);
        }
        assert(s1[1] % 16 == s2[1] % 16);
        assert(s1[1] / 16 == s2[1] / 16);
        assert(s1[0] == s1[0] / 4 * 4 + s1[0] % 4);
        assert(s2[0] == s2[0] / 4 * 4 + s2[0] % 4);
        assert(s1[1] == s1[1] / 16 * 16 + s1[1] % 16);
        assert(s2[1] == s2[1] / 16 * 16 + s2[1] % 16);
        assert(s1[0] == s2[0]);
        assert(s1[1] == s2[1]);
        assert(s1 =~= s2);
    } else {
        assert(s2.len() >= 3);
        let g1 = seq![
            b64_byte(s1[0] / 4),
            b64_byte(((s1[0] % 4) * 16 + s1[1] / 16) as u8),
            b64_byte(((s1[1] % 16) * 4 + s1[2] / 64) as u8),
            b64_byte((s1[2] % 64) as u8),
        ];
        let g2 = seq![
            b64_byte(s2[0] / 4),
            b64_byte(((s2[0] % 4) * 16 + s2[1] / 16) as u8),
            b64_byte(((s2[1] % 16) * 4 + s2[2] / 64) as u8),
            b64_byte((s2[2] % 64) as u8),
        ];
        assert(b64_of(s1) == g1 + b64_of(s1.skip(3)));
        assert(b64_of(s2) == g2 + b64_of(s2.skip(3)));
        assert(g1[0] == b64_of(s1)[0] && g1[1] == b64_of(s1)[1] && g1[2] == b64_of(s1)[2]
            && g1[3] == b64_of(s1)[3]);
        assert(g2[0] == b64_of(s2)[0] && g2[1] == b64_of(s2)[1] && g2[2] == b64_of(s2)[2]
            && g2[3] == b64_of(s2)[3]);
        assert(s1[0] / 4 == s2[0] / 4);
        assert((s1[0] % 4) * 16 + s1[1] / 16 == (s2[0] % 4) * 16 + s2[1] / 16);
        assert((s1[1] % 16) * 4 + s1[2] / 64 == (s2[1] % 16) * 4 + s2[2] / 64);
        assert(s1[2] % 64 == s2[2] % 64);
        assert(s1[0] % 4 == s2[0] % 4 && s1[1] / 16 == s2[1] / 16) by {
            assert(s1[1] / 16 < 16 && s2[1] / 16 < 16);
        }
        assert(s1[1] % 16 == s2[1] % 16 && s1[2] / 64 == s2[2] / 64) by {
            assert(s1[2] / 64 < 4 && s2[2] / 64 < 4);
        }
        assert(s1[0] == s1[0] / 4 * 4 + s1[0] % 4);
        assert(s2[0] == s2[0] / 4 * 4 + s2[0] % 4);
        assert(s1[1] == s1[1] / 16 * 16 + s1[1] % 16);
        assert(s2[1] == s2[1] / 16 * 16 + s2[1] % 16);
        assert(s1[2] == s1[2] / 64 * 64 + s1[2] % 64);
        assert(s2[2] == s2[2] / 64 * 64 + s2[2] % 64);
        assert(s1[0] == s2[0]);
        assert(s1[1] == s2[1]);
        assert(s1[2] == s2[2]);
        assert(b64_of(s1.skip(3)) == b64_of(s2.skip(3))) by {
            assert(forall|i: int|
                0 <= i < b64_of(s1.skip(3)).len() ==> b64_of(s1.skip(3))[i] == b64_of(s1)[i + 4]);
            assert(forall|i: int|
                0 <= i < b64_of(s2.skip(3)).len() ==> b64_of(s2.skip(3))[i] == b64_of(s2)[i + 4]);
            assert(b64_of(s1.skip(3)) =~= b64_of(s2.skip(3)));
        }
        lemma_b64_injective(s1.skip(3), s2.skip(3));
        assert forall|i: int| 0 <= i < s1.len() implies s1[i] == s2[i] by {
            if i >= 3 {
                assert(s1[i] == s1.skip(3)[i - 3]);
                assert(s2[i] == s2.skip(3)[i - 3]);
            }
        }
        assert(s1 =~= s2);
    }
}

/// The exec alphabet, matching [`b64_byte`].
fn b64_byte_x(v: u8) -> (r: u8)
    requires
        v < 64,
    ensures
        r == b64_byte(v),
{
    if v < 26 {
        65 + v
    } else if v < 52 {
        71 + v
    } else if v < 62 {
        v - 4
    } else if v == 62 {
        45
    } else {
        95
    }
}

/// The base64url encoding of `s`, without padding: exactly [`b64_of`].
pub fn base64url(s: &[u8]) -> (r: Vec<u8>)
    ensures
        r@ == b64_of(s@),
{
    let len = s.len();
    let mut out: Vec<u8> = Vec::new();
    let mut i: usize = 0;
    assert(s@.skip(0) =~= s@);
    while len - i >= 3
        invariant
            i <= len,
            len == s@.len(),
            out@ + b64_of(s@.skip(i as int)) == b64_of(s@),
        decreases len - i,
    {
        let b0 = s[i];
        let b1 = s[i + 1];
        let b2 = s[i + 2];
        proof {
            assert(s@.skip(i as int)[0] == s@[i as int]);
            assert(s@.skip(i as int)[1] == s@[i as int + 1]);
            assert(s@.skip(i as int)[2] == s@[i as int + 2]);
            assert(s@.skip(i as int).skip(3) =~= s@.skip(i as int + 3));
        }
        out.push(b64_byte_x(b0 / 4));
        out.push(b64_byte_x((b0 % 4) * 16 + b1 / 16));
        out.push(b64_byte_x((b1 % 16) * 4 + b2 / 64));
        out.push(b64_byte_x(b2 % 64));
        i = i + 3;
        assert(out@ + b64_of(s@.skip(i as int)) =~= b64_of(s@));
    }
    if len - i == 1 {
        let b0 = s[i];
        proof {
            assert(s@.skip(i as int)[0] == s@[i as int]);
        }
        out.push(b64_byte_x(b0 / 4));
        out.push(b64_byte_x((b0 % 4) * 16));
        assert(out@ =~= b64_of(s@));
    } else if len - i == 2 {
        let b0 = s[i];
        let b1 = s[i + 1];
        proof {
            assert(s@.skip(i as int)[0] == s@[i as int]);
            assert(s@.skip(i as int)[1] == s@[i as int + 1]);
        }
        out.push(b64_byte_x(b0 / 4));
        out.push(b64_byte_x((b0 % 4) * 16 + b1 / 16));
        out.push(b64_byte_x((b1 % 16) * 4));
        assert(out@ =~= b64_of(s@));
    } else {
        assert(s@.skip(i as int) =~= Seq::<u8>::empty());
    }
    out
}

} // verus!
