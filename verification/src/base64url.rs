//! The URL-safe base64 alphabet (`A`-`Z`, `a`-`z`, `0`-`9`, `-`, `_`), and an
//! unpadded encoder and decoder for it, stated and proved over byte sequences.

use vstd::prelude::*;

verus! {

/// The six-bit value an alphabet byte stands for, or `None` for a byte
/// outside the URL-safe alphabet.
pub open spec fn sextet_of(b: u8) -> Option<u8> {
    if 65 <= b <= 90 {
        // 'A'..='Z'
        Some((b - 65) as u8)
    } else if 97 <= b <= 122 {
        // 'a'..='z'
        Some((b - 97 + 26) as u8)
    } else if 48 <= b <= 57 {
        // '0'..='9'
        Some((b - 48 + 52) as u8)
    } else if b == 45 {
        // '-'
        Some(62u8)
    } else if b == 95 {
        // '_'
        Some(63u8)
    } else {
        None
    }
}

/// Whether a byte belongs to the URL-safe alphabet.
pub open spec fn is_base64url_byte(b: u8) -> bool {
    sextet_of(b) is Some
}

/// The alphabet byte for a six-bit value.
pub open spec fn byte_of_sextet(v: u8) -> u8
    recommends
        v < 64,
{
    if v < 26 {
        (v + 65) as u8
    } else if v < 52 {
        (v - 26 + 97) as u8
    } else if v < 62 {
        (v - 52 + 48) as u8
    } else if v == 62 {
        45u8
    } else {
        95u8
    }
}

/// Every six-bit value maps to an alphabet byte that maps back to it.
pub proof fn lemma_sextet_round_trip(v: u8)
    requires
        v < 64,
    ensures
        sextet_of(byte_of_sextet(v)) == Some(v),
{
}

/// The unpadded URL-safe base64 encoding of a byte sequence: each group of
/// three bytes becomes four alphabet bytes; a final group of one or two bytes
/// becomes two or three, with the unused low bits of the last sextet zero.
pub open spec fn spec_encode(b: Seq<u8>) -> Seq<u8>
    decreases b.len(),
{
    if b.len() == 0 {
        Seq::empty()
    } else if b.len() == 1 {
        seq![
            byte_of_sextet(b[0] >> 2),
            byte_of_sextet(((b[0] & 3) << 4) as u8),
        ]
    } else if b.len() == 2 {
        seq![
            byte_of_sextet(b[0] >> 2),
            byte_of_sextet((((b[0] & 3) << 4) | (b[1] >> 4)) as u8),
            byte_of_sextet(((b[1] & 15) << 2) as u8),
        ]
    } else {
        seq![
            byte_of_sextet(b[0] >> 2),
            byte_of_sextet((((b[0] & 3) << 4) | (b[1] >> 4)) as u8),
            byte_of_sextet((((b[1] & 15) << 2) | (b[2] >> 6)) as u8),
            byte_of_sextet((b[2] & 63) as u8),
        ] + spec_encode(b.skip(3))
    }
}

/// The bytes an unpadded URL-safe base64 text stands for, or `None` when the
/// text is not such an encoding: a byte outside the alphabet, a length that
/// leaves a single trailing sextet, or nonzero unused bits in the last sextet.
pub open spec fn spec_decode(s: Seq<u8>) -> Option<Seq<u8>>
    decreases s.len(),
{
    if s.len() == 0 {
        Some(Seq::empty())
    } else if s.len() == 1 {
        None
    } else if s.len() == 2 {
        match (sextet_of(s[0]), sextet_of(s[1])) {
            (Some(v0), Some(v1)) => if v1 & 15 == 0 {
                Some(seq![((v0 << 2) | (v1 >> 4)) as u8])
            } else {
                None
            },
            _ => None,
        }
    } else if s.len() == 3 {
        match (sextet_of(s[0]), sextet_of(s[1]), sextet_of(s[2])) {
            (Some(v0), Some(v1), Some(v2)) => if v2 & 3 == 0 {
                Some(
                    seq![
                        ((v0 << 2) | (v1 >> 4)) as u8,
                        (((v1 & 15) << 4) | (v2 >> 2)) as u8,
                    ],
                )
            } else {
                None
            },
            _ => None,
        }
    } else {
        match (sextet_of(s[0]), sextet_of(s[1]), sextet_of(s[2]), sextet_of(s[3])) {
            (Some(v0), Some(v1), Some(v2), Some(v3)) => match spec_decode(s.skip(4)) {
                Some(rest) => Some(
                    seq![
                        ((v0 << 2) | (v1 >> 4)) as u8,
                        (((v1 & 15) << 4) | (v2 >> 2)) as u8,
                        (((v2 & 3) << 6) | v3) as u8,
                    ] + rest,
                ),
                None => None,
            },
            _ => None,
        }
    }
}

/// Decoding inverts encoding: every byte sequence is recovered exactly from
/// its unpadded URL-safe base64 encoding.
pub proof fn lemma_decode_encode(b: Seq<u8>)
    ensures
        spec_decode(spec_encode(b)) == Some(b),
    decreases b.len(),
{
    if b.len() == 0 {
        assert(spec_encode(b) =~= Seq::<u8>::empty());
        assert(spec_decode(spec_encode(b)) == Some(b));
    } else if b.len() == 1 {
        let b0 = b[0];
        let s0 = b0 >> 2;
        let s1 = ((b0 & 3) << 4) as u8;
        assert(s0 < 64 && s1 < 64 && s1 & 15 == 0 && ((s0 << 2) | (s1 >> 4)) == b0)
            by (bit_vector)
            requires
                s0 == b0 >> 2,
                s1 == ((b0 & 3) << 4) as u8,
        ;
        lemma_sextet_round_trip(s0);
        lemma_sextet_round_trip(s1);
        let e = spec_encode(b);
        assert(e.len() == 2 && e[0] == byte_of_sextet(s0) && e[1] == byte_of_sextet(s1));
        assert(seq![((s0 << 2) | (s1 >> 4)) as u8] =~= b);
    } else if b.len() == 2 {
        let b0 = b[0];
        let b1 = b[1];
        let s0 = b0 >> 2;
        let s1 = (((b0 & 3) << 4) | (b1 >> 4)) as u8;
        let s2 = ((b1 & 15) << 2) as u8;
        assert(s0 < 64 && s1 < 64 && s2 < 64 && s2 & 3 == 0 && ((s0 << 2) | (s1 >> 4)) == b0 && (((
        s1 & 15) << 4) | (s2 >> 2)) == b1)
            by (bit_vector)
            requires
                s0 == b0 >> 2,
                s1 == (((b0 & 3) << 4) | (b1 >> 4)) as u8,
                s2 == ((b1 & 15) << 2) as u8,
        ;
        lemma_sextet_round_trip(s0);
        lemma_sextet_round_trip(s1);
        lemma_sextet_round_trip(s2);
        let e = spec_encode(b);
        assert(e.len() == 3 && e[0] == byte_of_sextet(s0) && e[1] == byte_of_sextet(s1) && e[2]
            == byte_of_sextet(s2));
        assert(seq![((s0 << 2) | (s1 >> 4)) as u8, (((s1 & 15) << 4) | (s2 >> 2)) as u8] =~= b);
    } else {
        let b0 = b[0];
        let b1 = b[1];
        let b2 = b[2];
        let s0 = b0 >> 2;
        let s1 = (((b0 & 3) << 4) | (b1 >> 4)) as u8;
        let s2 = (((b1 & 15) << 2) | (b2 >> 6)) as u8;
        let s3 = (b2 & 63) as u8;
        assert(s0 < 64 && s1 < 64 && s2 < 64 && s3 < 64 && ((s0 << 2) | (s1 >> 4)) == b0 && (((s1
            & 15) << 4) | (s2 >> 2)) == b1 && (((s2 & 3) << 6) | s3) == b2)
            by (bit_vector)
            requires
                s0 == b0 >> 2,
                s1 == (((b0 & 3) << 4) | (b1 >> 4)) as u8,
                s2 == (((b1 & 15) << 2) | (b2 >> 6)) as u8,
                s3 == (b2 & 63) as u8,
        ;
        lemma_sextet_round_trip(s0);
        lemma_sextet_round_trip(s1);
        lemma_sextet_round_trip(s2);
        lemma_sextet_round_trip(s3);
        let head = seq![
            byte_of_sextet(s0),
            byte_of_sextet(s1),
            byte_of_sextet(s2),
            byte_of_sextet(s3),
        ];
        let e = spec_encode(b);
        assert(e == head + spec_encode(b.skip(3)));
        assert(e.len() >= 4);
        assert(e[0] == byte_of_sextet(s0) && e[1] == byte_of_sextet(s1) && e[2] == byte_of_sextet(
            s2,
        ) && e[3] == byte_of_sextet(s3));
        assert(e.skip(4) =~= spec_encode(b.skip(3)));
        lemma_decode_encode(b.skip(3));
        assert(spec_decode(e.skip(4)) == Some(b.skip(3)));
        assert(seq![
            ((s0 << 2) | (s1 >> 4)) as u8,
            (((s1 & 15) << 4) | (s2 >> 2)) as u8,
            (((s2 & 3) << 6) | s3) as u8,
        ] + b.skip(3) =~= b);
    }
}

/// A byte outside the URL-safe alphabet anywhere in the text makes decoding
/// fail.
pub proof fn lemma_foreign_byte_fails(s: Seq<u8>, i: int)
    requires
        0 <= i < s.len(),
        !is_base64url_byte(s[i]),
    ensures
        spec_decode(s) is None,
    decreases s.len(),
{
    if s.len() >= 4 && i >= 4 {
        lemma_foreign_byte_fails(s.skip(4), i - 4);
    }
}

/// Looks up the six-bit value of one byte; `None` outside the alphabet.
fn sextet_value(b: u8) -> (r: Option<u8>)
    ensures
        r == sextet_of(b),
{
    if 65 <= b && b <= 90 {
        Some(b - 65)
    } else if 97 <= b && b <= 122 {
        Some(b - 97 + 26)
    } else if 48 <= b && b <= 57 {
        Some(b - 48 + 52)
    } else if b == 45 {
        Some(62)
    } else if b == 95 {
        Some(63)
    } else {
        None
    }
}

/// The alphabet byte for a six-bit value.
fn sextet_byte(v: u8) -> (r: u8)
    requires
        v < 64,
    ensures
        r == byte_of_sextet(v),
{
    if v < 26 {
        v + 65
    } else if v < 52 {
        v - 26 + 97
    } else if v < 62 {
        v - 52 + 48
    } else if v == 62 {
        45
    } else {
        95
    }
}

/// Encodes bytes as unpadded URL-safe base64.
pub fn encode(b: &[u8]) -> (r: Vec<u8>)
    ensures
        r@ == spec_encode(b@),
{
    let n = b.len();
    let mut out: Vec<u8> = Vec::new();
    let mut i: usize = 0;
    proof {
        assert(b@.skip(0) =~= b@);
        assert(Seq::<u8>::empty() + spec_encode(b@) =~= spec_encode(b@));
    }
    while n - i >= 3
        invariant
            i <= n,
            n == b@.len(),
            spec_encode(b@) == out@ + spec_encode(b@.skip(i as int)),
        decreases n - i,
    {
        let b0 = b[i];
        let b1 = b[i + 1];
        let b2 = b[i + 2];
        proof {
            assert(b0 >> 2 < 64 && (((b0 & 3) << 4) | (b1 >> 4)) < 64 && (((b1 & 15) << 2) | (b2
                >> 6)) < 64 && (b2 & 63) < 64) by (bit_vector);
        }
        let ghost old_out = out@;
        out.push(sextet_byte(b0 >> 2));
        out.push(sextet_byte(((b0 & 3) << 4) | (b1 >> 4)));
        out.push(sextet_byte(((b1 & 15) << 2) | (b2 >> 6)));
        out.push(sextet_byte(b2 & 63));
        proof {
            let t = b@.skip(i as int);
            assert(t.len() >= 3);
            assert(t[0] == b0 && t[1] == b1 && t[2] == b2);
            let head = seq![
                byte_of_sextet(b0 >> 2),
                byte_of_sextet((((b0 & 3) << 4) | (b1 >> 4)) as u8),
                byte_of_sextet((((b1 & 15) << 2) | (b2 >> 6)) as u8),
                byte_of_sextet((b2 & 63) as u8),
            ];
            assert(spec_encode(t) == head + spec_encode(t.skip(3)));
            assert(out@ =~= old_out + head);
            assert(t.skip(3) =~= b@.skip(i as int + 3));
            assert(old_out + (head + spec_encode(t.skip(3))) =~= (old_out + head) + spec_encode(
                t.skip(3),
            ));
        }
        i = i + 3;
    }
    let ghost t = b@.skip(i as int);
    if i == n {
        proof {
            assert(t.len() == 0);
            assert(spec_encode(t) =~= Seq::<u8>::empty());
            assert(out@ + spec_encode(t) =~= out@);
        }
        out
    } else if i + 1 == n {
        let b0 = b[i];
        proof {
            assert(b0 >> 2 < 64 && ((b0 & 3) << 4) < 64) by (bit_vector);
            assert(t.len() == 1 && t[0] == b0);
        }
        let ghost old_out = out@;
        out.push(sextet_byte(b0 >> 2));
        out.push(sextet_byte((b0 & 3) << 4));
        proof {
            let head = seq![
                byte_of_sextet(b0 >> 2),
                byte_of_sextet(((b0 & 3) << 4) as u8),
            ];
            assert(spec_encode(t) == head);
            assert(out@ =~= old_out + head);
        }
        out
    } else {
        let b0 = b[i];
        let b1 = b[i + 1];
        proof {
            assert(b0 >> 2 < 64 && (((b0 & 3) << 4) | (b1 >> 4)) < 64 && ((b1 & 15) << 2) < 64)
                by (bit_vector);
            assert(t.len() == 2 && t[0] == b0 && t[1] == b1);
        }
        let ghost old_out = out@;
        out.push(sextet_byte(b0 >> 2));
        out.push(sextet_byte(((b0 & 3) << 4) | (b1 >> 4)));
        out.push(sextet_byte((b1 & 15) << 2));
        proof {
            let head = seq![
                byte_of_sextet(b0 >> 2),
                byte_of_sextet((((b0 & 3) << 4) | (b1 >> 4)) as u8),
                byte_of_sextet(((b1 & 15) << 2) as u8),
            ];
            assert(spec_encode(t) == head);
            assert(out@ =~= old_out + head);
        }
        out
    }
}

/// Decodes unpadded URL-safe base64 text; `None` when the text is not such an
/// encoding.
#[verifier::rlimit(100)]
pub fn decode(s: &[u8]) -> (r: Option<Vec<u8>>)
    ensures
        (r matches Some(v) ==> spec_decode(s@) == Some(v@)),
        (r is None ==> spec_decode(s@) is None),
{
    let n = s.len();
    let mut out: Vec<u8> = Vec::new();
    let mut i: usize = 0;
    proof {
        assert(s@.skip(0) =~= s@);
        if spec_decode(s@) is Some {
            assert(Seq::<u8>::empty() + spec_decode(s@)->Some_0 =~= spec_decode(s@)->Some_0);
        }
    }
    while n - i >= 4
        invariant
            i <= n,
            n == s@.len(),
            spec_decode(s@) == (match spec_decode(s@.skip(i as int)) {
                Some(rest) => Some(out@ + rest),
                None => None::<Seq<u8>>,
            }),
        decreases n - i,
    {
        let ghost t = s@.skip(i as int);
        proof {
            assert(t.len() >= 4);
            assert(t[0] == s@[i as int] && t[1] == s@[i as int + 1] && t[2] == s@[i as int + 2]
                && t[3] == s@[i as int + 3]);
        }
        let v0 = match sextet_value(s[i]) {
            Some(v) => v,
            None => {
                return None;
            },
        };
        let v1 = match sextet_value(s[i + 1]) {
            Some(v) => v,
            None => {
                return None;
            },
        };
        let v2 = match sextet_value(s[i + 2]) {
            Some(v) => v,
            None => {
                return None;
            },
        };
        let v3 = match sextet_value(s[i + 3]) {
            Some(v) => v,
            None => {
                return None;
            },
        };
        let ghost old_out = out@;
        out.push((v0 << 2) | (v1 >> 4));
        out.push(((v1 & 15) << 4) | (v2 >> 2));
        out.push(((v2 & 3) << 6) | v3);
        proof {
            let head = seq![
                ((v0 << 2) | (v1 >> 4)) as u8,
                (((v1 & 15) << 4) | (v2 >> 2)) as u8,
                (((v2 & 3) << 6) | v3) as u8,
            ];
            assert(t.skip(4) =~= s@.skip(i as int + 4));
            assert(spec_decode(t) == (match spec_decode(t.skip(4)) {
                Some(rest) => Some(head + rest),
                None => None::<Seq<u8>>,
            }));
            assert(out@ =~= old_out + head);
            if spec_decode(t.skip(4)) is Some {
                let rest = spec_decode(t.skip(4))->Some_0;
                assert(old_out + (head + rest) =~= (old_out + head) + rest);
            }
        }
        i = i + 4;
    }
    let ghost t = s@.skip(i as int);
    if i == n {
        proof {
            assert(t.len() == 0);
            assert(spec_decode(t) == Some(Seq::<u8>::empty()));
            assert(out@ + Seq::<u8>::empty() =~= out@);
        }
        Some(out)
    } else if i + 1 == n {
        proof {
            assert(t.len() == 1);
        }
        None
    } else if i + 2 == n {
        proof {
            assert(t.len() == 2 && t[0] == s@[i as int] && t[1] == s@[i as int + 1]);
        }
        let v0 = match sextet_value(s[i]) {
            Some(v) => v,
            None => {
                return None;
            },
        };
        let v1 = match sextet_value(s[i + 1]) {
            Some(v) => v,
            None => {
                return None;
            },
        };
        if v1 & 15 == 0 {
            let ghost old_out = out@;
            out.push((v0 << 2) | (v1 >> 4));
            proof {
                assert(spec_decode(t) == Some(seq![((v0 << 2) | (v1 >> 4)) as u8]));
                assert(out@ =~= old_out + seq![((v0 << 2) | (v1 >> 4)) as u8]);
            }
            Some(out)
        } else {
            None
        }
    } else {
        proof {
            assert(t.len() == 3 && t[0] == s@[i as int] && t[1] == s@[i as int + 1] && t[2]
                == s@[i as int + 2]);
        }
        let v0 = match sextet_value(s[i]) {
            Some(v) => v,
            None => {
                return None;
            },
        };
        let v1 = match sextet_value(s[i + 1]) {
            Some(v) => v,
            None => {
                return None;
            },
        };
        let v2 = match sextet_value(s[i + 2]) {
            Some(v) => v,
            None => {
                return None;
            },
        };
        if v2 & 3 == 0 {
            let ghost old_out = out@;
            out.push((v0 << 2) | (v1 >> 4));
            out.push(((v1 & 15) << 4) | (v2 >> 2));
            proof {
                let head = seq![
                    ((v0 << 2) | (v1 >> 4)) as u8,
                    (((v1 & 15) << 4) | (v2 >> 2)) as u8,
                ];
                assert(spec_decode(t) == Some(head));
                assert(out@ =~= old_out + head);
            }
            Some(out)
        } else {
            None
        }
    }
}

} // verus!
