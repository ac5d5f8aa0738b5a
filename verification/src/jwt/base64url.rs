//! Base64url without padding, the alphabet and framing the compact
//! token format is written in. Encoding and decoding are verified
//! inverses, and decoding accepts only the canonical spelling of a
//! byte string.
use vstd::prelude::*;

verus! {

/// Whether a byte is in the url-safe base64 alphabet.
pub open spec fn is_b64_byte(b: u8) -> bool {
    (65 <= b && b <= 90)  // 'A' ..= 'Z'
    || (97 <= b && b <= 122)  // 'a' ..= 'z'
    || (48 <= b && b <= 57)  // '0' ..= '9'
    || b == 45  // '-'
    || b == 95  // '_'

}

/// The alphabet byte for a 6-bit value.
pub open spec fn b64_char(v: u8) -> u8
    recommends
        v < 64,
{
    if v < 26 {
        (v + 65) as u8
    } else if v < 52 {
        (v + 71) as u8
    } else if v < 62 {
        (v - 4) as u8
    } else if v == 62 {
        45u8
    } else {
        95u8
    }
}

/// The 6-bit value of an alphabet byte.
pub open spec fn b64_val(b: u8) -> u8
    recommends
        is_b64_byte(b),
{
    if 65 <= b && b <= 90 {
        (b - 65) as u8
    } else if 97 <= b && b <= 122 {
        (b - 71) as u8
    } else if 48 <= b && b <= 57 {
        (b + 4) as u8
    } else if b == 45 {
        62u8
    } else {
        63u8
    }
}

/// The alphabet and its value table are inverses, the alphabet contains
/// neither a dot nor a quote, and it is ASCII.
pub proof fn lemma_b64_alphabet(v: u8)
    requires
        v < 64,
    ensures
        is_b64_byte(b64_char(v)),
        b64_val(b64_char(v)) == v,
        b64_char(v) != 46,
        b64_char(v) < 128,
{
}

pub proof fn lemma_b64_val_char(b: u8)
    requires
        is_b64_byte(b),
    ensures
        b64_val(b) < 64,
        b64_char(b64_val(b)) == b,
{
}

/// Base64url of a byte string, without padding: full groups of three
/// bytes become four alphabet bytes; a tail of one or two bytes becomes
/// two or three, with the unused low bits zero.
pub open spec fn b64_encode(s: Seq<u8>) -> Seq<u8>
    decreases s.len(),
{
    if s.len() == 0 {
        Seq::empty()
    } else if s.len() == 1 {
        seq![b64_char(s[0] >> 2), b64_char((s[0] & 3) << 4)]
    } else if s.len() == 2 {
        seq![
            b64_char(s[0] >> 2),
            b64_char(((s[0] & 3) << 4) | (s[1] >> 4)),
            b64_char((s[1] & 15) << 2),
        ]
    } else {
        seq![
            b64_char(s[0] >> 2),
            b64_char(((s[0] & 3) << 4) | (s[1] >> 4)),
            b64_char(((s[1] & 15) << 2) | (s[2] >> 6)),
            b64_char(s[2] & 63),
        ] + b64_encode(s.skip(3))
    }
}

/// Strict base64url decoding: `Some` exactly on canonical encodings.
/// A length of 4k+1 is never canonical; a tail group must have its
/// unused low bits zero.
pub open spec fn b64_decode(s: Seq<u8>) -> Option<Seq<u8>>
    decreases s.len(),
{
    if s.len() == 0 {
        Some(Seq::empty())
    } else if s.len() == 1 {
        None
    } else if s.len() == 2 {
        if is_b64_byte(s[0]) && is_b64_byte(s[1]) && (b64_val(s[1]) & 15) == 0 {
            Some(seq![(b64_val(s[0]) << 2) | (b64_val(s[1]) >> 4)])
        } else {
            None
        }
    } else if s.len() == 3 {
        if is_b64_byte(s[0]) && is_b64_byte(s[1]) && is_b64_byte(s[2]) && (b64_val(s[2]) & 3)
            == 0 {
            Some(
                seq![
                    (b64_val(s[0]) << 2) | (b64_val(s[1]) >> 4),
                    (b64_val(s[1]) & 15) << 4 | (b64_val(s[2]) >> 2),
                ],
            )
        } else {
            None
        }
    } else {
        if is_b64_byte(s[0]) && is_b64_byte(s[1]) && is_b64_byte(s[2]) && is_b64_byte(s[3]) {
            match b64_decode(s.skip(4)) {
                None => None,
                Some(rest) => Some(
                    seq![
                        (b64_val(s[0]) << 2) | (b64_val(s[1]) >> 4),
                        (b64_val(s[1]) & 15) << 4 | (b64_val(s[2]) >> 2),
                        (b64_val(s[2]) & 3) << 6 | b64_val(s[3]),
                    ] + rest,
                ),
            }
        } else {
            None
        }
    }
}

/// The bit identities behind one full encoded group.
proof fn lemma_group_bits(b0: u8, b1: u8, b2: u8)
    ensures
        (b0 >> 2) < 64,
        (((b0 & 3) << 4) | (b1 >> 4)) < 64,
        (((b1 & 15) << 2) | (b2 >> 6)) < 64,
        (b2 & 63) < 64,
        ((b0 & 3) << 4) < 64,
        ((b1 & 15) << 2) < 64,
        (((b0 >> 2) << 2) | ((((b0 & 3) << 4) | (b1 >> 4)) >> 4)) == b0,
        ((((((b0 & 3) << 4) | (b1 >> 4)) & 15) << 4) | ((((b1 & 15) << 2) | (b2 >> 6)) >> 2))
            == b1,
        (((((b1 & 15) << 2) | (b2 >> 6)) & 3) << 6 | (b2 & 63)) == b2,
        (((b0 & 3) << 4) & 15) == 0,
        (((b1 & 15) << 2) & 3) == 0,
        ((((((b0 & 3) << 4) | (b1 >> 4)) & 15) << 4) | (((b1 & 15) << 2) >> 2)) == b1,
        (((b0 >> 2) << 2) | (((b0 & 3) << 4) >> 4)) == b0,
{
    assert((b0 >> 2) < 64 && (((b0 & 3) << 4) | (b1 >> 4)) < 64 && (((b1 & 15) << 2) | (b2 >> 6))
        < 64 && (b2 & 63) < 64 && ((b0 & 3) << 4) < 64 && ((b1 & 15) << 2) < 64 && (((b0 >> 2)
        << 2) | ((((b0 & 3) << 4) | (b1 >> 4)) >> 4)) == b0 && ((((((b0 & 3) << 4) | (b1 >> 4))
        & 15) << 4) | ((((b1 & 15) << 2) | (b2 >> 6)) >> 2)) == b1 && (((((b1 & 15) << 2) | (b2
        >> 6)) & 3) << 6 | (b2 & 63)) == b2 && (((b0 & 3) << 4) & 15) == 0 && (((b1 & 15) << 2)
        & 3) == 0 && ((((((b0 & 3) << 4) | (b1 >> 4)) & 15) << 4) | (((b1 & 15) << 2) >> 2))
        == b1 && (((b0 >> 2) << 2) | (((b0 & 3) << 4) >> 4)) == b0) by (bit_vector);
}

/// The bit identities behind decoding one group of 6-bit values.
proof fn lemma_val_bits(v0: u8, v1: u8, v2: u8, v3: u8)
    requires
        v0 < 64,
        v1 < 64,
        v2 < 64,
        v3 < 64,
    ensures
        (((v0 << 2) | (v1 >> 4)) >> 2) == v0,
        (((((v0 << 2) | (v1 >> 4)) & 3) << 4) | ((((v1 & 15) << 4) | (v2 >> 2)) >> 4)) == v1,
        ((((((v1 & 15) << 4) | (v2 >> 2)) & 15) << 2) | ((((v2 & 3) << 6) | v3) >> 6)) == v2,
        ((((v2 & 3) << 6) | v3) & 63) == v3,
        (v1 & 15) == 0 ==> ((((v0 << 2) | (v1 >> 4)) & 3) << 4) == v1,
        (v2 & 3) == 0 ==> (((((v1 & 15) << 4) | (v2 >> 2)) & 15) << 2) == v2,
{
    assert(v0 < 64 && v1 < 64 && v2 < 64 && v3 < 64 ==> ((((v0 << 2) | (v1 >> 4)) >> 2) == v0
        && (((((v0 << 2) | (v1 >> 4)) & 3) << 4) | ((((v1 & 15) << 4) | (v2 >> 2)) >> 4)) == v1
        && ((((((v1 & 15) << 4) | (v2 >> 2)) & 15) << 2) | ((((v2 & 3) << 6) | v3) >> 6)) == v2
        && ((((v2 & 3) << 6) | v3) & 63) == v3 && ((v1 & 15) == 0 ==> ((((v0 << 2) | (v1 >> 4))
        & 3) << 4) == v1) && ((v2 & 3) == 0 ==> (((((v1 & 15) << 4) | (v2 >> 2)) & 15) << 2)
        == v2))) by (bit_vector);
}

/// Every byte of an encoding is in the alphabet: in particular ASCII,
/// and neither a dot nor a quote.
pub proof fn lemma_b64_encode_alphabet(s: Seq<u8>)
    ensures
        forall|i: int|
            0 <= i < b64_encode(s).len() ==> is_b64_byte(#[trigger] b64_encode(s)[i]),
    decreases s.len(),
{
    if s.len() == 0 {
    } else if s.len() == 1 {
        lemma_group_bits(s[0], 0, 0);
        lemma_b64_alphabet(s[0] >> 2);
        lemma_b64_alphabet((s[0] & 3) << 4);
        let e = seq![b64_char(s[0] >> 2), b64_char((s[0] & 3) << 4)];
        assert(b64_encode(s) == e);
        assert forall|i: int| 0 <= i < b64_encode(s).len() implies is_b64_byte(
            b64_encode(s)[i],
        ) by {
            assert(b64_encode(s)[i] == e[i]);
        }
    } else if s.len() == 2 {
        lemma_group_bits(s[0], s[1], 0);
        lemma_b64_alphabet(s[0] >> 2);
        lemma_b64_alphabet(((s[0] & 3) << 4) | (s[1] >> 4));
        lemma_b64_alphabet((s[1] & 15) << 2);
        let e = seq![
            b64_char(s[0] >> 2),
            b64_char(((s[0] & 3) << 4) | (s[1] >> 4)),
            b64_char((s[1] & 15) << 2),
        ];
        assert(b64_encode(s) == e);
        assert forall|i: int| 0 <= i < b64_encode(s).len() implies is_b64_byte(
            b64_encode(s)[i],
        ) by {
            assert(b64_encode(s)[i] == e[i]);
        }
    } else {
        lemma_b64_encode_alphabet(s.skip(3));
        lemma_group_bits(s[0], s[1], s[2]);
        lemma_b64_alphabet(s[0] >> 2);
        lemma_b64_alphabet(((s[0] & 3) << 4) | (s[1] >> 4));
        lemma_b64_alphabet(((s[1] & 15) << 2) | (s[2] >> 6));
        lemma_b64_alphabet(s[2] & 63);
        let g = seq![
            b64_char(s[0] >> 2),
            b64_char(((s[0] & 3) << 4) | (s[1] >> 4)),
            b64_char(((s[1] & 15) << 2) | (s[2] >> 6)),
            b64_char(s[2] & 63),
        ];
        assert(b64_encode(s) == g + b64_encode(s.skip(3)));
        assert forall|i: int| 0 <= i < b64_encode(s).len() implies is_b64_byte(
            b64_encode(s)[i],
        ) by {
            if i < 4 {
                assert(b64_encode(s)[i] == g[i]);
            } else {
                assert(b64_encode(s)[i] == b64_encode(s.skip(3))[i - 4]);
            }
        }
    }
}

/// Splitting at a group boundary splits the encoding.
pub proof fn lemma_b64_encode_split(s: Seq<u8>, i: int)
    requires
        0 <= i <= s.len(),
        i % 3 == 0,
    ensures
        b64_encode(s) =~= b64_encode(s.take(i)) + b64_encode(s.skip(i)),
    decreases i,
{
    if i == 0 {
        assert(s.take(0) =~= Seq::<u8>::empty());
        assert(s.skip(0) =~= s);
    } else {
        lemma_b64_encode_split(s.skip(3), i - 3);
        assert(s.skip(3).take(i - 3) =~= s.take(i).skip(3));
        assert(s.skip(3).skip(i - 3) =~= s.skip(i));
        assert(s.take(i)[0] == s[0] && s.take(i)[1] == s[1] && s.take(i)[2] == s[2]);
        assert(b64_encode(s.take(i)) =~= seq![
            b64_char(s[0] >> 2),
            b64_char(((s[0] & 3) << 4) | (s[1] >> 4)),
            b64_char(((s[1] & 15) << 2) | (s[2] >> 6)),
            b64_char(s[2] & 63),
        ] + b64_encode(s.take(i).skip(3)));
    }
}

/// Decoding inverts encoding.
pub proof fn lemma_b64_roundtrip(s: Seq<u8>)
    ensures
        b64_decode(b64_encode(s)) == Some(s),
    decreases s.len(),
{
    let e = b64_encode(s);
    if s.len() == 0 {
        assert(e.len() == 0);
        assert(b64_decode(e) == Some(s)) by {
            assert(s =~= Seq::<u8>::empty());
        }
    } else if s.len() == 1 {
        lemma_group_bits(s[0], 0, 0);
        lemma_b64_alphabet(s[0] >> 2);
        lemma_b64_alphabet((s[0] & 3) << 4);
        assert(b64_decode(e)->Some_0 =~= s);
    } else if s.len() == 2 {
        lemma_group_bits(s[0], s[1], 0);
        lemma_b64_alphabet(s[0] >> 2);
        lemma_b64_alphabet(((s[0] & 3) << 4) | (s[1] >> 4));
        lemma_b64_alphabet((s[1] & 15) << 2);
        assert(b64_decode(e)->Some_0 =~= s);
    } else {
        lemma_b64_roundtrip(s.skip(3));
        lemma_group_bits(s[0], s[1], s[2]);
        lemma_b64_alphabet(s[0] >> 2);
        lemma_b64_alphabet(((s[0] & 3) << 4) | (s[1] >> 4));
        lemma_b64_alphabet(((s[1] & 15) << 2) | (s[2] >> 6));
        lemma_b64_alphabet(s[2] & 63);
        assert(e.skip(4) =~= b64_encode(s.skip(3)));
        assert(e.len() >= 4);
        assert(b64_decode(e)->Some_0 =~= s);
    }
}

/// Decoding is strict: whatever it accepts re-encodes to the very same
/// bytes, so each byte string has exactly one accepted spelling.
pub proof fn lemma_b64_canonical(t: Seq<u8>)
    requires
        b64_decode(t) is Some,
    ensures
        b64_encode(b64_decode(t)->Some_0) =~= t,
    decreases t.len(),
{
    let b = b64_decode(t)->Some_0;
    if t.len() == 0 {
    } else if t.len() == 2 {
        lemma_b64_val_char(t[0]);
        lemma_b64_val_char(t[1]);
        lemma_val_bits(b64_val(t[0]), b64_val(t[1]), 0, 0);
    } else if t.len() == 3 {
        lemma_b64_val_char(t[0]);
        lemma_b64_val_char(t[1]);
        lemma_b64_val_char(t[2]);
        lemma_val_bits(b64_val(t[0]), b64_val(t[1]), b64_val(t[2]), 0);
    } else {
        lemma_b64_canonical(t.skip(4));
        lemma_b64_val_char(t[0]);
        lemma_b64_val_char(t[1]);
        lemma_b64_val_char(t[2]);
        lemma_b64_val_char(t[3]);
        lemma_val_bits(b64_val(t[0]), b64_val(t[1]), b64_val(t[2]), b64_val(t[3]));
        let rest = b64_decode(t.skip(4))->Some_0;
        assert(b.skip(3) =~= rest);
        assert(b.len() >= 3);
        assert(b[0] == (b64_val(t[0]) << 2) | (b64_val(t[1]) >> 4));
        lemma_b64_encode_split(b, 3);
        assert(b.take(3) =~= seq![b[0], b[1], b[2]]);
    }
}

/// The alphabet byte for a 6-bit value.
fn b64_char_of(v: u8) -> (r: u8)
    requires
        v < 64,
    ensures
        r == b64_char(v),
{
    if v < 26 {
        v + 65
    } else if v < 52 {
        v + 71
    } else if v < 62 {
        v - 4
    } else if v == 62 {
        45
    } else {
        95
    }
}

/// The 6-bit value of an alphabet byte, or 255 for a byte outside it.
fn b64_val_of(b: u8) -> (r: u8)
    ensures
        is_b64_byte(b) ==> r == b64_val(b) && r < 64,
        !is_b64_byte(b) ==> r == 255,
{
    if 65 <= b && b <= 90 {
        b - 65
    } else if 97 <= b && b <= 122 {
        b - 71
    } else if 48 <= b && b <= 57 {
        b + 4
    } else if b == 45 {
        62
    } else if b == 95 {
        63
    } else {
        255
    }
}

/// Base64url-encode a byte string.
pub fn b64_encode_bytes(input: &Vec<u8>) -> (r: Vec<u8>)
    ensures
        r@ =~= b64_encode(input@),
{
    let n = input.len();
    let mut out: Vec<u8> = Vec::new();
    let mut i: usize = 0;
    while n - i >= 3
        invariant
            0 <= i <= n,
            i % 3 == 0,
            n == input@.len(),
            out@ =~= b64_encode(input@.take(i as int)),
        decreases n - i,
    {
        let b0 = input[i];
        let b1 = input[i + 1];
        let b2 = input[i + 2];
        proof {
            lemma_group_bits(b0, b1, b2);
        }
        out.push(b64_char_of(b0 >> 2));
        out.push(b64_char_of(((b0 & 3) << 4) | (b1 >> 4)));
        out.push(b64_char_of(((b1 & 15) << 2) | (b2 >> 6)));
        out.push(b64_char_of(b2 & 63));
        proof {
            lemma_b64_encode_split(input@.take(i + 3), i as int);
            assert(input@.take(i + 3).take(i as int) =~= input@.take(i as int));
            let g = input@.take(i + 3).skip(i as int);
            assert(g =~= seq![b0, b1, b2]);
            assert(g.skip(3) =~= Seq::<u8>::empty());
            assert(b64_encode(g) == seq![
                b64_char(g[0] >> 2),
                b64_char(((g[0] & 3) << 4) | (g[1] >> 4)),
                b64_char(((g[1] & 15) << 2) | (g[2] >> 6)),
                b64_char(g[2] & 63),
            ] + b64_encode(g.skip(3)));
            assert(b64_encode(Seq::<u8>::empty()) =~= Seq::<u8>::empty());
            assert(b64_encode(g) =~= seq![
                b64_char(b0 >> 2),
                b64_char(((b0 & 3) << 4) | (b1 >> 4)),
                b64_char(((b1 & 15) << 2) | (b2 >> 6)),
                b64_char(b2 & 63),
            ]);
            assert(out@ =~= b64_encode(input@.take(i as int)) + b64_encode(g));
        }
        i += 3;
    }
    if n - i == 1 {
        let b0 = input[i];
        proof {
            lemma_group_bits(b0, 0, 0);
        }
        out.push(b64_char_of(b0 >> 2));
        out.push(b64_char_of((b0 & 3) << 4));
        proof {
            lemma_b64_encode_split(input@, i as int);
            assert(input@.skip(i as int) =~= seq![b0]);
        }
    } else if n - i == 2 {
        let b0 = input[i];
        let b1 = input[i + 1];
        proof {
            lemma_group_bits(b0, b1, 0);
        }
        out.push(b64_char_of(b0 >> 2));
        out.push(b64_char_of(((b0 & 3) << 4) | (b1 >> 4)));
        out.push(b64_char_of((b1 & 15) << 2));
        proof {
            lemma_b64_encode_split(input@, i as int);
            assert(input@.skip(i as int) =~= seq![b0, b1]);
        }
    } else {
        proof {
            lemma_b64_encode_split(input@, i as int);
            assert(input@.skip(i as int) =~= Seq::<u8>::empty());
            assert(input@.take(i as int) =~= input@);
        }
    }
    out
}

/// Base64url-decode the bytes of `input` between `start` and `end`;
/// `None` on anything but a canonical encoding.
pub fn b64_decode_range(input: &Vec<u8>, start: usize, end: usize) -> (r: Option<Vec<u8>>)
    requires
        start <= end <= input@.len(),
    ensures
        match r {
            Some(b) => b64_decode(input@.subrange(start as int, end as int)) == Some(b@),
            None => b64_decode(input@.subrange(start as int, end as int)) is None,
        },
{
    let mut out: Vec<u8> = Vec::new();
    let mut i: usize = start;
    while end - i >= 4
        invariant
            start <= i <= end <= input@.len(),
            (i - start) % 4 == 0,
            match b64_decode(input@.subrange(i as int, end as int)) {
                Some(rest) => b64_decode(input@.subrange(start as int, end as int)) == Some(
                    out@ + rest,
                ),
                None => b64_decode(input@.subrange(start as int, end as int)) is None,
            },
        decreases end - i,
    {
        let v0 = b64_val_of(input[i]);
        let v1 = b64_val_of(input[i + 1]);
        let v2 = b64_val_of(input[i + 2]);
        let v3 = b64_val_of(input[i + 3]);
        let ghost cur = input@.subrange(i as int, end as int);
        proof {
            assert(cur[0] == input@[i as int] && cur[1] == input@[i + 1] && cur[2] == input@[i + 2]
                && cur[3] == input@[i + 3]);
        }
        if v0 == 255 || v1 == 255 || v2 == 255 || v3 == 255 {
            return None;
        }
        out.push((v0 << 2) | (v1 >> 4));
        out.push(((v1 & 15) << 4) | (v2 >> 2));
        out.push(((v2 & 3) << 6) | v3);
        proof {
            assert(cur.skip(4) =~= input@.subrange(i + 4, end as int));
        }
        i += 4;
    }
    let rem = end - i;
    let ghost cur = input@.subrange(i as int, end as int);
    if rem == 0 {
        proof {
            assert(cur =~= Seq::<u8>::empty());
            assert(out@ + Seq::<u8>::empty() =~= out@);
        }
        Some(out)
    } else if rem == 1 {
        None
    } else if rem == 2 {
        let v0 = b64_val_of(input[i]);
        let v1 = b64_val_of(input[i + 1]);
        proof {
            assert(cur[0] == input@[i as int] && cur[1] == input@[i + 1]);
        }
        if v0 == 255 || v1 == 255 || (v1 & 15) != 0 {
            return None;
        }
        out.push((v0 << 2) | (v1 >> 4));
        proof {
            assert(b64_decode(cur)->Some_0 =~= seq![(v0 << 2) | (v1 >> 4)]);
            assert(out@ =~= out@.take(out@.len() - 1) + b64_decode(cur)->Some_0);
        }
        Some(out)
    } else {
        let v0 = b64_val_of(input[i]);
        let v1 = b64_val_of(input[i + 1]);
        let v2 = b64_val_of(input[i + 2]);
        proof {
            assert(cur[0] == input@[i as int] && cur[1] == input@[i + 1] && cur[2] == input@[i
                + 2]);
        }
        if v0 == 255 || v1 == 255 || v2 == 255 || (v2 & 3) != 0 {
            return None;
        }
        out.push((v0 << 2) | (v1 >> 4));
        out.push(((v1 & 15) << 4) | (v2 >> 2));
        proof {
            assert(b64_decode(cur)->Some_0 =~= seq![
                (v0 << 2) | (v1 >> 4),
                ((v1 & 15) << 4) | (v2 >> 2),
            ]);
            assert(out@ =~= out@.take(out@.len() - 2) + b64_decode(cur)->Some_0);
        }
        Some(out)
    }
}

} // verus!
