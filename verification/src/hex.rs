//! Hexadecimal text form of the persisted artifacts.
//!
//! Every artifact is persisted as the hex text of its byte encoding, so
//! that any compliant external signer can consume and re-emit it
//! without loss. Encoding emits lower-case digits; decoding accepts
//! both cases.

use vstd::prelude::*;

verus! {

/// The ASCII digit for a nibble.
pub open spec fn hex_digit(n: u8) -> u8
    recommends
        n < 16,
{
    if n < 10 {
        (48 + n) as u8
    } else {
        (87 + n) as u8
    }
}

/// The nibble an ASCII character stands for, if any.
pub open spec fn hex_val(c: u8) -> Option<u8> {
    if 48 <= c <= 57 {
        Some((c - 48) as u8)
    } else if 97 <= c <= 102 {
        Some((c - 87) as u8)
    } else if 65 <= c <= 70 {
        Some((c - 55) as u8)
    } else {
        None
    }
}

/// The hex text of a byte string: two digits per byte, high nibble
/// first.
pub open spec fn hex_enc(b: Seq<u8>) -> Seq<u8>
    decreases b.len(),
{
    if b.len() == 0 {
        Seq::empty()
    } else {
        seq![hex_digit(b.first() / 16), hex_digit(b.first() % 16)] + hex_enc(b.drop_first())
    }
}

/// The byte string a hex text stands for, if it is well formed: an
/// even number of hex digits.
pub open spec fn hex_dec(h: Seq<u8>) -> Option<Seq<u8>>
    decreases h.len(),
{
    if h.len() == 0 {
        Some(Seq::empty())
    } else if h.len() == 1 {
        None
    } else {
        match (hex_val(h[0]), hex_val(h[1])) {
            (Some(hi), Some(lo)) => match hex_dec(h.skip(2)) {
                Some(rest) => Some(seq![(16 * hi + lo) as u8] + rest),
                None => None,
            },
            _ => None,
        }
    }
}

proof fn lemma_hex_enc_snoc(b: Seq<u8>, k: int)
    requires
        0 <= k < b.len(),
    ensures
        hex_enc(b.take(k + 1)) == hex_enc(b.take(k)) + seq![
            hex_digit(b[k] / 16),
            hex_digit(b[k] % 16),
        ],
    decreases k,
{
    if k == 0 {
        assert(b.take(1) =~= seq![b[0]]);
        assert(b.take(1).drop_first() =~= Seq::<u8>::empty());
        assert(b.take(0) =~= Seq::<u8>::empty());
        assert(hex_enc(b.take(1)) =~= hex_enc(b.take(0)) + seq![
            hex_digit(b[0] / 16),
            hex_digit(b[0] % 16),
        ]);
    } else {
        lemma_hex_enc_snoc(b.drop_first(), k - 1);
        assert(b.take(k + 1).drop_first() =~= b.drop_first().take(k));
        assert(b.take(k).drop_first() =~= b.drop_first().take(k - 1));
        assert(b.take(k + 1).first() == b.first());
        assert(b.take(k).first() == b.first());
        assert(b.drop_first()[k - 1] == b[k]);
        assert(hex_enc(b.take(k + 1)) =~= hex_enc(b.take(k)) + seq![
            hex_digit(b[k] / 16),
            hex_digit(b[k] % 16),
        ]);
    }
}

/// Hex round trip: decoding the encoding of any byte string yields the
/// byte string back.
pub proof fn lemma_hex_roundtrip(b: Seq<u8>)
    ensures
        hex_dec(hex_enc(b)) == Some(b),
    decreases b.len(),
{
    if b.len() == 0 {
        assert(hex_enc(b) =~= Seq::<u8>::empty());
    } else {
        lemma_hex_roundtrip(b.drop_first());
        let h = hex_enc(b);
        let x = b.first();
        assert(h[0] == hex_digit(x / 16));
        assert(h[1] == hex_digit(x % 16));
        assert(hex_val(hex_digit(x / 16)) == Some((x / 16) as u8));
        assert(hex_val(hex_digit(x % 16)) == Some((x % 16) as u8));
        assert(h.skip(2) =~= hex_enc(b.drop_first()));
        assert(16 * (x / 16) + (x % 16) == x);
        assert(hex_dec(h) == Some(seq![x] + b.drop_first()));
        assert(seq![x] + b.drop_first() =~= b);
    }
}

/// Encode a byte string as hex text.
pub fn hex_encode(bytes: &Vec<u8>) -> (r: Vec<u8>)
    ensures
        r@ == hex_enc(bytes@),
{
    let n = bytes.len();
    let mut r: Vec<u8> = Vec::new();
    let mut i: usize = 0;
    while i < n
        invariant
            n == bytes@.len(),
            i <= n,
            r@ == hex_enc(bytes@.take(i as int)),
        decreases n - i,
    {
        let x = bytes[i];
        let hi = x / 16;
        let lo = x % 16;
        r.push(if hi < 10 { 48 + hi } else { 87 + hi });
        r.push(if lo < 10 { 48 + lo } else { 87 + lo });
        proof {
            lemma_hex_enc_snoc(bytes@, i as int);
        }
        i += 1;
    }
    proof {
        assert(bytes@.take(n as int) =~= bytes@);
    }
    r
}

/// The nibble an ASCII character stands for, if any.
fn hex_nibble(c: u8) -> (r: Option<u8>)
    ensures
        r == hex_val(c),
{
    if 48 <= c && c <= 57 {
        Some(c - 48)
    } else if 97 <= c && c <= 102 {
        Some(c - 87)
    } else if 65 <= c && c <= 70 {
        Some(c - 55)
    } else {
        None
    }
}

/// Decode hex text back into the byte string it stands for. Succeeds
/// exactly on well-formed hex text of even length.
pub fn hex_decode(h: &Vec<u8>) -> (r: Option<Vec<u8>>)
    ensures
        r is Some <==> hex_dec(h@) is Some,
        r matches Some(v) ==> hex_dec(h@) == Some(v@),
{
    let n = h.len();
    if n % 2 != 0 {
        proof {
            lemma_hex_dec_odd(h@);
        }
        return None;
    }
    let mut r: Vec<u8> = Vec::new();
    let mut i: usize = 0;
    proof {
        assert(h@.skip(0) =~= h@);
        if hex_dec(h@) is Some {
            lemma_hex_dec_len(h@);
            let v = hex_dec(h@).unwrap();
            assert(r@ =~= v.take(0));
            assert(v.skip(0) =~= v);
        }
    }
    while i < n
        invariant
            n == h@.len(),
            n % 2 == 0,
            i <= n,
            i % 2 == 0,
            hex_dec(h@) is Some ==> {
                let v = hex_dec(h@).unwrap();
                &&& v.len() * 2 == n
                &&& r@ == v.take(i as int / 2)
                &&& hex_dec(h@.skip(i as int)) == Some(v.skip(i as int / 2))
            },
            hex_dec(h@) is None ==> hex_dec(h@.skip(i as int)) is None,
        decreases n - i,
    {
        proof {
            assert(h@.skip(i as int)[0] == h@[i as int]);
            assert(h@.skip(i as int)[1] == h@[i as int + 1]);
        }
        let hi = match hex_nibble(h[i]) {
            Some(x) => x,
            None => {
                proof {
                    assert(hex_dec(h@.skip(i as int)) is None);
                    assert(hex_dec(h@) is None);
                }
                return None;
            },
        };
        let lo = match hex_nibble(h[i + 1]) {
            Some(x) => x,
            None => {
                proof {
                    assert(hex_dec(h@.skip(i as int)) is None);
                    assert(hex_dec(h@) is None);
                }
                return None;
            },
        };
        r.push(16 * hi + lo);
        proof {
            let s = h@.skip(i as int);
            assert(s.skip(2) =~= h@.skip(i as int + 2));
            if hex_dec(h@) is Some {
                let v = hex_dec(h@).unwrap();
                let half = i as int / 2;
                assert(hex_dec(s) == Some(v.skip(half)));
                assert(hex_dec(s.skip(2)) is Some);
                assert(hex_dec(s) == Some(
                    seq![(16 * hi + lo) as u8] + hex_dec(s.skip(2)).unwrap(),
                ));
                assert(v.skip(half) == seq![(16 * hi + lo) as u8] + hex_dec(s.skip(2)).unwrap());
                assert(v.skip(half)[0] == v[half]);
                assert(v[half] == (16 * hi + lo) as u8);
                assert((seq![(16 * hi + lo) as u8] + hex_dec(s.skip(2)).unwrap()).drop_first()
                    =~= hex_dec(s.skip(2)).unwrap());
                assert(v.skip(half).drop_first() =~= v.skip(half + 1));
                assert(hex_dec(h@.skip(i as int + 2)) == Some(v.skip(half + 1)));
                assert(v.take(half + 1) =~= v.take(half).push(v[half]));
                assert(r@ == v.take(half + 1));
            } else {
                assert(hex_dec(s) is None);
                assert(hex_dec(s.skip(2)) is None);
            }
        }
        i += 2;
    }
    proof {
        assert(h@.skip(n as int) =~= Seq::<u8>::empty());
        assert(hex_dec(h@.skip(n as int)) == Some(Seq::<u8>::empty()));
        assert(hex_dec(h@) is Some);
        let v = hex_dec(h@).unwrap();
        assert(r@ == v.take(n as int / 2));
        assert(v.take(n as int / 2) =~= v);
    }
    Some(r)
}

proof fn lemma_hex_dec_odd(h: Seq<u8>)
    requires
        h.len() % 2 == 1,
    ensures
        hex_dec(h) is None,
    decreases h.len(),
{
    if h.len() > 1 {
        lemma_hex_dec_odd(h.skip(2));
    }
}

proof fn lemma_hex_dec_len(h: Seq<u8>)
    requires
        hex_dec(h) is Some,
    ensures
        hex_dec(h).unwrap().len() * 2 == h.len(),
    decreases h.len(),
{
    if h.len() >= 2 {
        lemma_hex_dec_len(h.skip(2));
    }
}

} // verus!
