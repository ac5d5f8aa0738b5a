//! Crossing between character strings and their UTF-8 bytes.
use vstd::prelude::*;
use vstd::utf8::{decode_utf8, encode_utf8, valid_utf8};
use crate::jwt::payload::strs_bytes;

verus! {

/// Relies on `String::from_utf8`: it succeeds exactly on valid UTF-8,
/// and returns the character sequence that the bytes encode, as
/// vstd's UTF-8 specification defines it.
#[verifier::external_body]
pub fn string_from_utf8(v: Vec<u8>) -> (r: Option<String>)
    ensures
        r is Some <==> valid_utf8(v@),
        r matches Some(s) ==> s@ == decode_utf8(v@),
{
    String::from_utf8(v).ok()
}

/// UTF-8 encoding is injective: equal encodings mean equal strings.
pub proof fn lemma_encode_utf8_injective(a: Seq<char>, b: Seq<char>)
    requires
        encode_utf8(a) == encode_utf8(b),
    ensures
        a == b,
{
    vstd::utf8::encode_utf8_decode_utf8(a);
    vstd::utf8::encode_utf8_decode_utf8(b);
}

/// A sequence of bytes below 128 is valid UTF-8.
pub proof fn lemma_ascii_bytes_valid_utf8(v: Seq<u8>)
    requires
        forall|i: int| 0 <= i < v.len() ==> v[i] < 128,
    ensures
        valid_utf8(v),
{
    assert(v.subrange(0, 0) =~= Seq::<u8>::empty());
    assert(vstd::utf8::partial_valid_utf8(v, 0));
    assert forall|i: int|
        0 <= 0 <= i < v.len() <= v.len() implies #[trigger] vstd::utf8::is_leading_byte_width_1(
        v[i],
    ) by {
        assert(v[i] < 128);
    }
    vstd::utf8::partial_valid_utf8_extend_ascii_block(v, 0, v.len() as int);
    assert(v.subrange(0, v.len() as int) =~= v);
}

/// Whether two string slices spell the same characters.
pub fn str_eq(a: &str, b: &str) -> (r: bool)
    ensures
        r == (a@ == b@),
{
    let ab = a.as_bytes();
    let bb = b.as_bytes();
    if ab.len() != bb.len() {
        proof {
            if a@ == b@ {
                assert(encode_utf8(a@) == encode_utf8(b@));
            }
        }
        return false;
    }
    let mut i: usize = 0;
    while i < ab.len()
        invariant
            i <= ab@.len(),
            ab@.len() == bb@.len(),
            ab@ == encode_utf8(a@),
            bb@ == encode_utf8(b@),
            forall|j: int| 0 <= j < i ==> ab@[j] == bb@[j],
        decreases ab@.len() - i,
    {
        if ab[i] != bb[i] {
            proof {
                if a@ == b@ {
                    assert(encode_utf8(a@) == encode_utf8(b@));
                }
            }
            return false;
        }
        i += 1;
    }
    proof {
        assert(ab@ =~= bb@);
        lemma_encode_utf8_injective(a@, b@);
    }
    true
}

/// The first index at or after `i` holding `b`, or the length.
pub open spec fn idx_of(s: Seq<u8>, i: int, b: u8) -> int
    recommends
        0 <= i <= s.len(),
    decreases s.len() - i when 0 <= i <= s.len()
{
    if i >= s.len() {
        i
    } else if s[i] == b {
        i
    } else {
        idx_of(s, i + 1, b)
    }
}

pub proof fn lemma_idx_of(s: Seq<u8>, i: int, b: u8)
    requires
        0 <= i <= s.len(),
    ensures
        i <= idx_of(s, i, b) <= s.len(),
        idx_of(s, i, b) < s.len() ==> s[idx_of(s, i, b)] == b,
        forall|k: int| i <= k < idx_of(s, i, b) ==> s[k] != b,
    decreases s.len() - i,
{
    if i < s.len() && s[i] != b {
        lemma_idx_of(s, i + 1, b);
    }
}

/// A byte run without `b`, bounded by `b` or the end, pins the index.
pub proof fn lemma_idx_of_exact(s: Seq<u8>, i: int, b: u8, j: int)
    requires
        0 <= i <= j <= s.len(),
        forall|k: int| i <= k < j ==> s[k] != b,
        j == s.len() || s[j] == b,
    ensures
        idx_of(s, i, b) == j,
    decreases j - i,
{
    if i < j {
        lemma_idx_of_exact(s, i + 1, b, j);
    }
}

/// Find the first occurrence of a byte at or after `i`.
pub fn find_byte(s: &Vec<u8>, i: usize, b: u8) -> (r: usize)
    requires
        i <= s@.len(),
    ensures
        r == idx_of(s@, i as int, b),
        i <= r <= s@.len(),
{
    let mut k: usize = i;
    while k < s.len()
        invariant
            i <= k <= s@.len(),
            idx_of(s@, i as int, b) == idx_of(s@, k as int, b),
        decreases s@.len() - k,
    {
        if s[k] == b {
            return k;
        }
        k += 1;
    }
    k
}


/// The pieces of a byte string split on a separator byte: one piece
/// between each pair of separators, empty pieces kept, as many pieces
/// as separators plus one.
pub open spec fn split_bytes(b: Seq<u8>, sep: u8) -> Seq<Seq<u8>>
    decreases b.len(),
{
    let j = idx_of(b, 0, sep);
    if 0 <= j && j < b.len() {
        seq![b.take(j)] + split_bytes(b.skip(j + 1), sep)
    } else {
        seq![b]
    }
}

/// In valid UTF-8, splitting right after a one-byte character keeps
/// the suffix valid.
proof fn lemma_valid_utf8_after_ascii(b: Seq<u8>, i: int)
    requires
        vstd::utf8::valid_utf8(b),
        0 <= i < b.len(),
        b[i] < 128,
    ensures
        vstd::utf8::valid_utf8(b.subrange(i + 1, b.len() as int)),
{
    broadcast use vstd::utf8::is_char_boundary_iff_not_is_continuation_byte;
    broadcast use vstd::utf8::valid_utf8_split;

    assert(!vstd::utf8::is_continuation_byte(b[i]));
    assert(vstd::utf8::is_char_boundary(b, i));
    let right = b.subrange(i, b.len() as int);
    assert(vstd::utf8::valid_utf8(right));
    assert(right[0] == b[i]);
    assert(vstd::utf8::is_leading_byte_width_1(right[0]));
    assert(vstd::utf8::length_of_first_scalar(right) == 1);
    assert(vstd::utf8::valid_utf8(vstd::utf8::pop_first_scalar(right)));
    assert(vstd::utf8::pop_first_scalar(right) =~= b.subrange(i + 1, b.len() as int));
}

/// In valid UTF-8, the piece before a one-byte character is valid.
proof fn lemma_valid_utf8_before_ascii(b: Seq<u8>, i: int)
    requires
        vstd::utf8::valid_utf8(b),
        0 <= i <= b.len(),
        i < b.len() ==> b[i] < 128,
    ensures
        vstd::utf8::valid_utf8(b.subrange(0, i)),
{
    broadcast use vstd::utf8::is_char_boundary_iff_not_is_continuation_byte;
    broadcast use vstd::utf8::valid_utf8_split;

    if i == b.len() {
        assert(b.subrange(0, i) =~= b);
    } else {
        assert(!vstd::utf8::is_continuation_byte(b[i]));
        assert(vstd::utf8::is_char_boundary(b, i));
    }
}

/// Every piece of a valid UTF-8 byte string split on spaces is
/// itself valid UTF-8.
pub proof fn lemma_split_bytes_pieces_valid(b: Seq<u8>)
    requires
        valid_utf8(b),
    ensures
        forall|k: int|
            0 <= k < split_bytes(b, 32).len() ==> valid_utf8(#[trigger] split_bytes(b, 32)[k]),
    decreases b.len(),
{
    let j = idx_of(b, 0, 32);
    lemma_idx_of(b, 0, 32);
    if 0 <= j && j < b.len() {
        lemma_valid_utf8_before_ascii(b, j);
        assert(b.take(j) =~= b.subrange(0, j));
        lemma_valid_utf8_after_ascii(b, j);
        assert(b.skip(j + 1) =~= b.subrange(j + 1, b.len() as int));
        lemma_split_bytes_pieces_valid(b.skip(j + 1));
        assert forall|k: int|
            0 <= k < split_bytes(b, 32).len() implies valid_utf8(
            #[trigger] split_bytes(b, 32)[k],
        ) by {
            if k == 0 {
                assert(split_bytes(b, 32)[0] == b.take(j));
            } else {
                assert(split_bytes(b, 32)[k] == split_bytes(b.skip(j + 1), 32)[k - 1]);
            }
        }
    }
}

/// Split a string on spaces, keeping empty pieces; the pieces' UTF-8
/// bytes are exactly the byte-level split of the string's bytes.
pub fn split_spaces(p_str: &str) -> (r: Vec<String>)
    ensures
        strs_bytes(r.deep_view()) == split_bytes(
            encode_utf8(p_str@),
            32,
        ),
{
    broadcast use vstd::utf8::encode_utf8_valid_utf8;

    let tb = vstd::slice::slice_to_vec(p_str.as_bytes());
    let ghost full = encode_utf8(p_str@);
    let mut out: Vec<String> = Vec::new();
    let mut p: usize = 0;
    let n = tb.len();
    proof {
        assert(tb@.skip(0) =~= full);
        assert(strs_bytes(out.deep_view()) =~= Seq::<Seq<u8>>::empty());
    }
    loop
        invariant
            p <= n,
            n == tb@.len(),
            full == encode_utf8(p_str@),
            tb@ == full,
            valid_utf8(full),
            valid_utf8(full.skip(p as int)),
            split_bytes(full, 32) == strs_bytes(out.deep_view()) + split_bytes(
                full.skip(p as int),
                32,
            ),
        decreases n + 1 - p,
    {
        let j = find_byte(&tb, p, 32);
        let ghost cur = full.skip(p as int);
        proof {
            lemma_idx_of(tb@, p as int, 32);
            assert forall|x: int| 0 <= x < j - p implies cur[x] != 32 by {
                assert(cur[x] == full[p + x]);
            }
            if j < n {
                assert(cur[j - p] == full[j as int]);
            }
            lemma_idx_of_exact(cur, 0, 32, j - p);
            lemma_valid_utf8_before_ascii(cur, j - p);
            assert(cur.take(j - p) =~= full.subrange(p as int, j as int));
        }
        let seg = crate::jwt::payload::subvec(&tb, p, j);
        let sc = match string_from_utf8(seg) {
            None => {
                proof {
                    // a piece of a valid UTF-8 string cut at ASCII
                    // boundaries is valid UTF-8, so decoding cannot fail
                    assert(cur.subrange(0, j - p) =~= cur.take(j - p));
                    assert(valid_utf8(seg@));
                    assert(false);
                }
                return Vec::new();
            },
            Some(x) => x,
        };
        let ghost prev = strs_bytes(out.deep_view());
        out.push(sc);
        proof {
            vstd::utf8::decode_utf8_encode_utf8(full.subrange(p as int, j as int));
            assert(strs_bytes(out.deep_view()) =~= prev.push(cur.take(j - p)));
        }
        if j >= n {
            proof {
                assert(split_bytes(cur, 32) =~= seq![cur]);
                assert(cur.take(j - p) =~= cur);
                assert(split_bytes(full, 32) =~= prev + seq![cur]);
                assert(prev.push(cur) =~= prev + seq![cur]);
                assert(strs_bytes(out.deep_view()) == split_bytes(full, 32));
                assert(strs_bytes(out.deep_view()) == split_bytes(encode_utf8(p_str@), 32));
            }
            return out;
        }
        proof {
            assert(split_bytes(cur, 32) == seq![cur.take(j - p)] + split_bytes(
                cur.skip(j - p + 1),
                32,
            ));
            assert(prev.push(cur.take(j - p)) + split_bytes(cur.skip(j - p + 1), 32) =~= prev
                + split_bytes(cur, 32));
            lemma_valid_utf8_after_ascii(cur, j - p);
            assert(cur.subrange(j - p + 1, cur.len() as int) =~= full.skip(j + 1));
        }
        p = j + 1;
    }
}

/// The decimal characters of a number.
pub open spec fn dec_chars(n: nat) -> Seq<char> {
    decode_utf8(crate::jwt::payload::dec_bytes(n))
}

/// Format a number in decimal.
pub fn usize_to_string(n: usize) -> (r: String)
    ensures
        r@ == dec_chars(n as nat),
        encode_utf8(r@) == crate::jwt::payload::dec_bytes(n as nat),
{
    let mut v: Vec<u8> = Vec::new();
    crate::jwt::payload::append_dec(&mut v, n);
    proof {
        crate::jwt::payload::lemma_dec_bytes_digits(n as nat);
        assert forall|i: int| 0 <= i < v@.len() implies v@[i] < 128 by {
            assert(crate::jwt::payload::is_digit(v@[i]));
        }
        lemma_ascii_bytes_valid_utf8(v@);
    }
    let ghost bytes = v@;
    match string_from_utf8(v) {
        Some(x) => {
            proof {
                vstd::utf8::decode_utf8_encode_utf8(bytes);
            }
            x
        },
        None => {
            proof {
                assert(false);
            }
            String::new()
        },
    }
}

} // verus!
