//! The claims payload format: a fixed-shape JSON object over raw bytes.
//! Serialization is deterministic, and the parser accepts exactly the
//! serializer's output, so every payload has one spelling.
use vstd::prelude::*;

verus! {

/// An uppercase hexadecimal digit for a value below sixteen.
pub open spec fn hex_digit(v: u8) -> u8
    recommends
        v < 16,
{
    if v < 10 {
        (v + 48) as u8
    } else {
        (v + 55) as u8
    }
}

/// The value of an uppercase hexadecimal digit byte, 255 otherwise.
pub open spec fn hex_val(b: u8) -> u8 {
    if 48 <= b && b <= 57 {
        (b - 48) as u8
    } else if 65 <= b && b <= 70 {
        (b - 55) as u8
    } else {
        255u8
    }
}

/// How one payload byte is written inside a JSON string: quote and
/// backslash get a two-byte escape, control bytes a six-byte `\u00XX`
/// escape with uppercase hexadecimal, everything else stands as itself.
pub open spec fn esc_byte(b: u8) -> Seq<u8> {
    if b == 34 {
        seq![92u8, 34u8]
    } else if b == 92 {
        seq![92u8, 92u8]
    } else if b < 32 {
        seq![92u8, 117u8, 48u8, 48u8, hex_digit(b >> 4), hex_digit(b & 15)]
    } else {
        seq![b]
    }
}

/// A byte string written inside a JSON string, byte by byte.
pub open spec fn esc_bytes(s: Seq<u8>) -> Seq<u8>
    decreases s.len(),
{
    if s.len() == 0 {
        Seq::empty()
    } else {
        esc_byte(s[0]) + esc_bytes(s.drop_first())
    }
}

pub proof fn lemma_esc_bytes_split(s: Seq<u8>, i: int)
    requires
        0 <= i <= s.len(),
    ensures
        esc_bytes(s) =~= esc_bytes(s.take(i)) + esc_bytes(s.skip(i)),
    decreases i,
{
    if i == 0 {
        assert(s.take(0) =~= Seq::<u8>::empty());
        assert(s.skip(0) =~= s);
    } else {
        lemma_esc_bytes_split(s.drop_first(), i - 1);
        assert(s.drop_first().take(i - 1) =~= s.take(i).drop_first());
        assert(s.drop_first().skip(i - 1) =~= s.skip(i));
        assert(s.take(i)[0] == s[0]);
        assert(esc_bytes(s.take(i)) == esc_byte(s[0]) + esc_bytes(s.take(i).drop_first()));
    }
}

/// Canonical decimal digits of a number, most significant first.
pub open spec fn dec_bytes(n: nat) -> Seq<u8>
    decreases n,
{
    if n < 10 {
        seq![(n + 48) as u8]
    } else {
        dec_bytes(n / 10) + seq![(n % 10 + 48) as u8]
    }
}

pub open spec fn is_digit(b: u8) -> bool {
    48 <= b && b <= 57
}

pub proof fn lemma_dec_bytes_digits(n: nat)
    ensures
        dec_bytes(n).len() >= 1,
        forall|k: int| 0 <= k < dec_bytes(n).len() ==> is_digit(#[trigger] dec_bytes(n)[k]),
        dec_bytes(n)[0] == 48 ==> n == 0,
        n == 0 ==> dec_bytes(n) =~= seq![48u8],
    decreases n,
{
    if n >= 10 {
        lemma_dec_bytes_digits(n / 10);
        assert forall|k: int| 0 <= k < dec_bytes(n).len() implies is_digit(
            #[trigger] dec_bytes(n)[k],
        ) by {
            if k < dec_bytes(n / 10).len() {
                assert(dec_bytes(n)[k] == dec_bytes(n / 10)[k]);
            }
        }
        assert(dec_bytes(n)[0] == dec_bytes(n / 10)[0]);
        assert(n / 10 > 0);
    }
}

/// Where a run of digits starting at `i` ends.
pub open spec fn digits_end(s: Seq<u8>, i: int) -> int
    recommends
        0 <= i <= s.len(),
    decreases s.len() - i when 0 <= i <= s.len()
{
    if i < s.len() && is_digit(s[i]) {
        digits_end(s, i + 1)
    } else {
        i
    }
}

pub proof fn lemma_digits_end(s: Seq<u8>, i: int)
    requires
        0 <= i <= s.len(),
    ensures
        i <= digits_end(s, i) <= s.len(),
        forall|k: int| i <= k < digits_end(s, i) ==> is_digit(#[trigger] s[k]),
        digits_end(s, i) < s.len() ==> !is_digit(s[digits_end(s, i)]),
    decreases s.len() - i,
{
    if i < s.len() && is_digit(s[i]) {
        lemma_digits_end(s, i + 1);
    }
}

/// The value of the digit run `s[i..j]`.
pub open spec fn digits_val(s: Seq<u8>, i: int, j: int) -> nat
    recommends
        0 <= i <= j <= s.len(),
    decreases j - i when i <= j
{
    if j <= i {
        0
    } else {
        digits_val(s, i, j - 1) * 10 + (if s[j - 1] >= 48 {
            (s[j - 1] - 48) as nat
        } else {
            0
        })
    }
}

/// A canonical decimal number at `i`: a digit run without a leading
/// zero (other than "0" itself), whose value fits the machine word.
pub open spec fn sp_number(s: Seq<u8>, i: int) -> Option<(nat, int)>
    recommends
        0 <= i <= s.len(),
{
    let j = digits_end(s, i);
    if j == i {
        None
    } else if s[i] == 48 && j > i + 1 {
        None
    } else if digits_val(s, i, j) > usize::MAX as nat {
        None
    } else {
        Some((digits_val(s, i, j), j))
    }
}

/// Digit runs with a nonzero lead have nonzero value.
proof fn lemma_digits_val_pos(s: Seq<u8>, i: int, j: int)
    requires
        0 <= i < j <= s.len(),
        is_digit(s[i]),
        s[i] != 48,
    ensures
        digits_val(s, i, j) >= 1,
    decreases j - i,
{
    if j == i + 1 {
    } else {
        lemma_digits_val_pos(s, i, j - 1);
    }
}

/// A canonical digit run spells exactly the decimal form of its value.
proof fn lemma_digits_val_canonical(s: Seq<u8>, i: int, j: int)
    requires
        0 <= i < j <= s.len(),
        forall|k: int| i <= k < j ==> is_digit(#[trigger] s[k]),
        s[i] == 48 ==> j == i + 1,
    ensures
        dec_bytes(digits_val(s, i, j)) =~= s.subrange(i, j),
    decreases j - i,
{
    if j == i + 1 {
        assert(digits_val(s, i, j) == (s[i] - 48) as nat);
        assert(dec_bytes(digits_val(s, i, j)) =~= seq![s[i]]);
        assert(s.subrange(i, j) =~= seq![s[i]]);
    } else {
        lemma_digits_val_canonical(s, i, j - 1);
        let v = digits_val(s, i, j - 1);
        let d = (s[j - 1] - 48) as nat;
        assert(s[i] != 48);
        lemma_digits_val_pos(s, i, j - 1);
        assert(digits_val(s, i, j) == v * 10 + d);
        assert(v * 10 + d >= 10) by (nonlinear_arith)
            requires
                v >= 1,
                d >= 0,
        ;
        assert((v * 10 + d) / 10 == v && (v * 10 + d) % 10 == d) by (nonlinear_arith)
            requires
                0 <= d < 10,
                v >= 0,
        ;
        assert(dec_bytes(v * 10 + d) == dec_bytes(v) + seq![(d + 48) as u8]);
        assert(s.subrange(i, j) =~= s.subrange(i, j - 1) + seq![s[j - 1]]);
    }
}

/// The decimal form of a value reads back as that value.
proof fn lemma_dec_bytes_val(n: nat, s: Seq<u8>, i: int)
    requires
        0 <= i,
        i + dec_bytes(n).len() <= s.len(),
        s.subrange(i, i + dec_bytes(n).len() as int) == dec_bytes(n),
    ensures
        digits_val(s, i, i + dec_bytes(n).len() as int) == n,
    decreases n,
{
    let l = dec_bytes(n).len() as int;
    if n < 10 {
        assert(s[i] == dec_bytes(n)[0]);
        assert(digits_val(s, i, i) == 0);
        assert(digits_val(s, i, i + 1) == (s[i] - 48) as nat);
    } else {
        let head = dec_bytes(n / 10);
        assert(dec_bytes(n) == head + seq![(n % 10 + 48) as u8]);
        assert(s.subrange(i, i + head.len() as int) =~= head) by {
            assert forall|k: int| 0 <= k < head.len() implies s.subrange(
                i,
                i + head.len() as int,
            )[k] == head[k] by {
                assert(s.subrange(i, i + l)[k] == dec_bytes(n)[k]);
            }
        }
        lemma_dec_bytes_val(n / 10, s, i);
        assert(s[i + l - 1] == dec_bytes(n)[l - 1]);
        assert(dec_bytes(n)[l - 1] == (n % 10 + 48) as u8);
        assert(digits_val(s, i, i + l) == digits_val(s, i, i + l - 1) * 10 + (n % 10));
        assert(n / 10 * 10 + n % 10 == n);
    }
}

/// `sp_number` accepts the decimal form of any machine-word value
/// followed by a non-digit, and reads back exactly that value.
pub proof fn lemma_number_complete(s: Seq<u8>, i: int, n: nat)
    requires
        0 <= i,
        n <= usize::MAX as nat,
        i + dec_bytes(n).len() <= s.len(),
        s.subrange(i, i + dec_bytes(n).len() as int) == dec_bytes(n),
        i + dec_bytes(n).len() < s.len() ==> !is_digit(s[i + dec_bytes(n).len()]),
        i + dec_bytes(n).len() == s.len() || !is_digit(s[i + dec_bytes(n).len()]),
    ensures
        sp_number(s, i) == Some((n, i + dec_bytes(n).len() as int)),
{
    let l = dec_bytes(n).len() as int;
    lemma_dec_bytes_digits(n);
    assert forall|k: int| i <= k < i + l implies is_digit(#[trigger] s[k]) by {
        assert(s[k] == dec_bytes(n)[k - i]);
    }
    assert(digits_end(s, i) == i + l) by {
        lemma_digits_end_exact(s, i, i + l);
    }
    lemma_dec_bytes_val(n, s, i);
    assert(s[i] == dec_bytes(n)[0]);
    if s[i] == 48 {
        assert(n == 0);
    }
}

/// A digit run bounded by non-digits ends exactly at its bound.
proof fn lemma_digits_end_exact(s: Seq<u8>, i: int, j: int)
    requires
        0 <= i <= j <= s.len(),
        forall|k: int| i <= k < j ==> is_digit(#[trigger] s[k]),
        j == s.len() || !is_digit(s[j]),
    ensures
        digits_end(s, i) == j,
    decreases j - i,
{
    if i < j {
        lemma_digits_end_exact(s, i + 1, j);
    }
}

/// Whatever `sp_number` accepts is spelled canonically.
pub proof fn lemma_number_sound(s: Seq<u8>, i: int)
    requires
        0 <= i <= s.len(),
        sp_number(s, i) is Some,
    ensures
        ({
            let (n, j) = sp_number(s, i)->Some_0;
            &&& i < j <= s.len()
            &&& n <= usize::MAX as nat
            &&& s.subrange(i, j) == dec_bytes(n)
            &&& (j == s.len() || !is_digit(s[j]))
        }),
{
    let (n, j) = sp_number(s, i)->Some_0;
    lemma_digits_end(s, i);
    lemma_digits_val_canonical(s, i, j);
}

/// Read an escaped string body from `i` up to (not past) the closing
/// quote: `None` on a stray control byte, a malformed escape, a
/// non-canonical `\u00XX` escape, or a missing closing quote.
pub open spec fn sp_string(s: Seq<u8>, i: int) -> Option<(Seq<u8>, int)>
    recommends
        0 <= i <= s.len(),
    decreases s.len() - i when 0 <= i <= s.len()
{
    if i >= s.len() {
        None
    } else if s[i] == 34 {
        Some((Seq::empty(), i))
    } else if s[i] == 92 {
        if i + 2 <= s.len() && s[i + 1] == 34 {
            match sp_string(s, i + 2) {
                None => None,
                Some((t, j)) => Some((seq![34u8] + t, j)),
            }
        } else if i + 2 <= s.len() && s[i + 1] == 92 {
            match sp_string(s, i + 2) {
                None => None,
                Some((t, j)) => Some((seq![92u8] + t, j)),
            }
        } else if i + 6 <= s.len() && s[i + 1] == 117 && s[i + 2] == 48 && s[i + 3] == 48
            && hex_val(s[i + 4]) != 255 && hex_val(s[i + 5]) != 255 && hex_val(s[i + 4]) * 16
            + hex_val(s[i + 5]) < 32 {
            match sp_string(s, i + 6) {
                None => None,
                Some((t, j)) => Some(
                    (seq![(hex_val(s[i + 4]) * 16 + hex_val(s[i + 5])) as u8] + t, j),
                ),
            }
        } else {
            None
        }
    } else if s[i] >= 32 {
        match sp_string(s, i + 1) {
            None => None,
            Some((t, j)) => Some((seq![s[i]] + t, j)),
        }
    } else {
        None
    }
}

/// The escape table is injectively readable: splitting a control byte
/// into hexadecimal digits and back is the identity.
proof fn lemma_hex_split(b: u8)
    requires
        b < 32,
    ensures
        (b >> 4) < 16,
        (b & 15) < 16,
        (b >> 4) * 16 + (b & 15) == b,
{
    assert(b < 32 ==> ((b >> 4) < 16 && (b & 15) < 16 && (b >> 4) * 16 + (b & 15) == b))
        by (bit_vector);
}

proof fn lemma_hex_join(h1: u8, h2: u8)
    requires
        h1 < 16,
        h2 < 16,
        h1 * 16 + h2 < 32,
    ensures
        ((h1 * 16 + h2) as u8) >> 4 == h1,
        ((h1 * 16 + h2) as u8) & 15 == h2,
{
    let b: u8 = (h1 * 16 + h2) as u8;
    assert(h1 < 16 && h2 < 16 && h1 < 2 ==> ((16 * h1 + h2) as u8) >> 4 == h1 && ((16 * h1 + h2)
        as u8) & 15 == h2) by (bit_vector);
    assert(h1 * 16 + h2 < 32 && h2 < 16 ==> h1 < 2) by (nonlinear_arith);
}

/// `sp_string` reads back exactly what was escaped, stopping at the
/// closing quote that follows.
pub proof fn lemma_string_complete(s: Seq<u8>, i: int, content: Seq<u8>)
    requires
        0 <= i,
        i + esc_bytes(content).len() < s.len(),
        s.subrange(i, i + esc_bytes(content).len() as int) == esc_bytes(content),
        s[i + esc_bytes(content).len()] == 34,
    ensures
        sp_string(s, i) == Some((content, i + esc_bytes(content).len() as int)),
    decreases content.len(),
{
    let e = esc_bytes(content);
    if content.len() == 0 {
        assert(s[i] == 34);
    } else {
        let b = content[0];
        let e0 = esc_byte(b);
        let rest = content.drop_first();
        assert(e == e0 + esc_bytes(rest));
        assert forall|k: int| 0 <= k < e0.len() implies s[i + k] == e0[k] by {
            assert(s.subrange(i, i + e.len() as int)[k] == e[k]);
        }
        assert(s[i + 0] == e0[0]);
        assert(s[i] == e0[0]);
        assert(s.subrange(i + e0.len() as int, i + e.len() as int) =~= esc_bytes(rest)) by {
            assert forall|k: int|
                0 <= k < esc_bytes(rest).len() implies s.subrange(
                i + e0.len() as int,
                i + e.len() as int,
            )[k] == esc_bytes(rest)[k] by {
                assert(s.subrange(i, i + e.len() as int)[e0.len() + k] == e[e0.len() + k]);
            }
        }
        lemma_string_complete(s, i + e0.len() as int, rest);
        if b == 34 {
            assert(s[i] == 92 && s[i + 1] == 34);
            assert(seq![34u8] + rest =~= content);
        } else if b == 92 {
            assert(s[i] == 92 && s[i + 1] == 92);
            assert(seq![92u8] + rest =~= content);
        } else if b < 32 {
            lemma_hex_split(b);
            assert(s[i] == 92 && s[i + 1] == 117 && s[i + 2] == 48 && s[i + 3] == 48);
            assert(s[i + 4] == hex_digit(b >> 4) && s[i + 5] == hex_digit(b & 15));
            assert(hex_val(hex_digit(b >> 4)) == b >> 4);
            assert(hex_val(hex_digit(b & 15)) == b & 15);
            assert(seq![b] + rest =~= content);
        } else {
            assert(s[i] == b);
            assert(seq![b] + rest =~= content);
        }
    }
}

/// Whatever `sp_string` accepts is the canonical escape of its value,
/// and it stops on a quote.
pub proof fn lemma_string_sound(s: Seq<u8>, i: int)
    requires
        0 <= i <= s.len(),
        sp_string(s, i) is Some,
    ensures
        ({
            let (v, j) = sp_string(s, i)->Some_0;
            &&& i <= j < s.len()
            &&& s[j] == 34
            &&& s.subrange(i, j) =~= esc_bytes(v)
        }),
    decreases s.len() - i,
{
    let (v, j) = sp_string(s, i)->Some_0;
    if s[i] == 34 {
        assert(s.subrange(i, i) =~= esc_bytes(v));
    } else if s[i] == 92 {
        if i + 2 <= s.len() && s[i + 1] == 34 {
            lemma_string_sound(s, i + 2);
            let (t, _) = sp_string(s, i + 2)->Some_0;
            assert(v == seq![34u8] + t);
            assert(v[0] == 34 && v.drop_first() =~= t);
            assert(s.subrange(i, j) =~= esc_byte(34) + s.subrange(i + 2, j));
        } else if i + 2 <= s.len() && s[i + 1] == 92 {
            lemma_string_sound(s, i + 2);
            let (t, _) = sp_string(s, i + 2)->Some_0;
            assert(v[0] == 92 && v.drop_first() =~= t);
            assert(s.subrange(i, j) =~= esc_byte(92) + s.subrange(i + 2, j));
        } else {
            let h1 = hex_val(s[i + 4]);
            let h2 = hex_val(s[i + 5]);
            let b: u8 = (h1 * 16 + h2) as u8;
            lemma_string_sound(s, i + 6);
            let (t, _) = sp_string(s, i + 6)->Some_0;
            lemma_hex_join(h1, h2);
            assert(v[0] == b && v.drop_first() =~= t);
            assert(b < 32);
            assert(hex_digit(b >> 4) == s[i + 4]) by {
                assert(hex_val(s[i + 4]) != 255);
            }
            assert(hex_digit(b & 15) == s[i + 5]) by {
                assert(hex_val(s[i + 5]) != 255);
            }
            assert(s.subrange(i, j) =~= esc_byte(b) + s.subrange(i + 6, j));
        }
    } else {
        lemma_string_sound(s, i + 1);
        let (t, _) = sp_string(s, i + 1)->Some_0;
        assert(v[0] == s[i] && v.drop_first() =~= t);
        assert(esc_byte(s[i]) =~= seq![s[i]]);
        assert(s.subrange(i, j) =~= esc_byte(s[i]) + s.subrange(i + 1, j));
    }
}

/// A quoted string: opening quote, escaped body, closing quote.
pub open spec fn jstr(content: Seq<u8>) -> Seq<u8> {
    seq![34u8] + esc_bytes(content) + seq![34u8]
}

/// Read a quoted string starting at `i`, past its closing quote.
pub open spec fn sp_jstr(s: Seq<u8>, i: int) -> Option<(Seq<u8>, int)>
    recommends
        0 <= i <= s.len(),
{
    if 0 <= i && i < s.len() && s[i] == 34 {
        match sp_string(s, i + 1) {
            None => None,
            Some((v, j)) => if i + 1 <= j < s.len() && s[j] == 34 {
                Some((v, j + 1))
            } else {
                None
            },
        }
    } else {
        None
    }
}

pub proof fn lemma_jstr_complete(s: Seq<u8>, i: int, content: Seq<u8>)
    requires
        0 <= i,
        i + jstr(content).len() <= s.len(),
        s.subrange(i, i + jstr(content).len() as int) == jstr(content),
    ensures
        sp_jstr(s, i) == Some((content, i + jstr(content).len() as int)),
{
    let l = jstr(content).len() as int;
    assert forall|k: int| 0 <= k < l implies s[i + k] == jstr(content)[k] by {
        assert(s.subrange(i, i + l)[k] == jstr(content)[k]);
    }
    assert(s[i + 0] == jstr(content)[0]);
    assert(s[i] == 34);
    assert(s[i + (l - 1)] == jstr(content)[l - 1]);
    assert(jstr(content)[l - 1] == 34);
    assert(s[i + l - 1] == 34);
    assert(s.subrange(i + 1, i + l - 1) =~= esc_bytes(content)) by {
        assert forall|k: int| 0 <= k < esc_bytes(content).len() implies s.subrange(
            i + 1,
            i + l - 1,
        )[k] == esc_bytes(content)[k] by {
            assert(s[i + 1 + k] == jstr(content)[1 + k]);
            assert(jstr(content)[1 + k] == esc_bytes(content)[k]);
        }
    }
    lemma_string_complete(s, i + 1, content);
}

pub proof fn lemma_jstr_sound(s: Seq<u8>, i: int)
    requires
        0 <= i <= s.len(),
        sp_jstr(s, i) is Some,
    ensures
        ({
            let (v, j) = sp_jstr(s, i)->Some_0;
            &&& i < j <= s.len()
            &&& j == i + jstr(v).len()
            &&& s.subrange(i, j) =~= jstr(v)
        }),
{
    let (v, j) = sp_jstr(s, i)->Some_0;
    lemma_string_sound(s, i + 1);
}

/// The comma-separated quoted items of the scopes array.
pub open spec fn scopes_items(ss: Seq<Seq<u8>>) -> Seq<u8>
    decreases ss.len(),
{
    if ss.len() == 0 {
        Seq::empty()
    } else if ss.len() == 1 {
        jstr(ss[0])
    } else {
        jstr(ss[0]) + seq![44u8] + scopes_items(ss.drop_first())
    }
}

/// The scopes array body including its closing bracket; the opening
/// bracket belongs to the field literal before it.
pub open spec fn scopes_block(ss: Seq<Seq<u8>>) -> Seq<u8> {
    scopes_items(ss) + seq![93u8]
}

/// Read the items of a string array up to and past its closing bracket.
pub open spec fn sp_scopes(s: Seq<u8>, i: int) -> Option<(Seq<Seq<u8>>, int)>
    recommends
        0 <= i <= s.len(),
    decreases s.len() - i when 0 <= i <= s.len()
{
    if i >= s.len() {
        None
    } else if s[i] == 93 {
        Some((Seq::empty(), i + 1))
    } else {
        match sp_jstr(s, i) {
            None => None,
            Some((v, j)) => if i < j <= s.len() {
                match sp_scopes_tail(s, j) {
                    None => None,
                    Some((vs, k)) => Some((seq![v] + vs, k)),
                }
            } else {
                None
            },
        }
    }
}

/// After one item: either the closing bracket or a comma and another.
pub open spec fn sp_scopes_tail(s: Seq<u8>, i: int) -> Option<(Seq<Seq<u8>>, int)>
    recommends
        0 <= i <= s.len(),
    decreases s.len() - i when 0 <= i <= s.len()
{
    if i >= s.len() {
        None
    } else if s[i] == 93 {
        Some((Seq::empty(), i + 1))
    } else if s[i] == 44 {
        match sp_jstr(s, i + 1) {
            None => None,
            Some((v, j)) => if i + 1 < j <= s.len() {
                match sp_scopes_tail(s, j) {
                    None => None,
                    Some((vs, k)) => Some((seq![v] + vs, k)),
                }
            } else {
                None
            },
        }
    } else {
        None
    }
}

/// The tail items after the first: a comma before each.
pub open spec fn tail_items(ss: Seq<Seq<u8>>) -> Seq<u8>
    decreases ss.len(),
{
    if ss.len() == 0 {
        Seq::empty()
    } else {
        seq![44u8] + jstr(ss[0]) + tail_items(ss.drop_first())
    }
}

proof fn lemma_items_shape(ss: Seq<Seq<u8>>)
    requires
        ss.len() >= 1,
    ensures
        scopes_items(ss) =~= jstr(ss[0]) + tail_items(ss.drop_first()),
    decreases ss.len(),
{
    if ss.len() > 1 {
        lemma_items_shape(ss.drop_first());
    }
}

proof fn lemma_scopes_tail_complete(s: Seq<u8>, i: int, ss: Seq<Seq<u8>>)
    requires
        0 <= i,
        i + tail_items(ss).len() + 1 <= s.len(),
        s.subrange(i, i + tail_items(ss).len() as int) == tail_items(ss),
        s[i + tail_items(ss).len()] == 93,
    ensures
        sp_scopes_tail(s, i) == Some((ss, i + tail_items(ss).len() + 1)),
    decreases ss.len(),
{
    if ss.len() == 0 {
        assert(s[i] == 93);
    } else {
        let t = tail_items(ss);
        let v0 = jstr(ss[0]);
        let rest = tail_items(ss.drop_first());
        assert(t == seq![44u8] + v0 + rest);
        assert forall|k: int| 0 <= k < t.len() implies s[i + k] == t[k] by {
            assert(s.subrange(i, i + t.len() as int)[k] == t[k]);
        }
        assert(s[i + 0] == t[0]);
        assert(s[i] == 44);
        assert(s.subrange(i + 1, i + 1 + v0.len() as int) =~= v0) by {
            assert forall|k: int|
                0 <= k < v0.len() implies s.subrange(i + 1, i + 1 + v0.len() as int)[k] == v0[k] by {
                assert(s[i + (1 + k)] == t[1 + k]);
                assert(t[1 + k] == v0[k]);
            }
        }
        lemma_jstr_complete(s, i + 1, ss[0]);
        let j = i + 1 + v0.len() as int;
        assert(s.subrange(j, j + rest.len() as int) =~= rest) by {
            assert forall|k: int|
                0 <= k < rest.len() implies s.subrange(j, j + rest.len() as int)[k] == rest[k] by {
                assert(s[i + (1 + v0.len() + k)] == t[1 + v0.len() + k]);
                assert(t[1 + v0.len() + k] == rest[k]);
            }
        }
        assert(s[j + rest.len()] == 93) by {
            assert(i + tail_items(ss).len() == j + rest.len());
        }
        lemma_scopes_tail_complete(s, j, ss.drop_first());
        assert(seq![ss[0]] + ss.drop_first() =~= ss);
    }
}

pub proof fn lemma_scopes_complete(s: Seq<u8>, i: int, ss: Seq<Seq<u8>>)
    requires
        0 <= i,
        i + scopes_block(ss).len() <= s.len(),
        s.subrange(i, i + scopes_block(ss).len() as int) == scopes_block(ss),
    ensures
        sp_scopes(s, i) == Some((ss, i + scopes_block(ss).len() as int)),
{
    let b = scopes_block(ss);
    assert forall|k: int| 0 <= k < b.len() implies s[i + k] == b[k] by {
        assert(s.subrange(i, i + b.len() as int)[k] == b[k]);
    }
    assert(s[i + 0] == b[0]);
    if ss.len() == 0 {
        assert(s[i] == 93);
    } else {
        lemma_items_shape(ss);
        let v0 = jstr(ss[0]);
        let rest = tail_items(ss.drop_first());
        assert(b =~= v0 + rest + seq![93u8]);
        assert(s[i] == 34) by {
            assert(b[0] == v0[0]);
        }
        assert(s.subrange(i, i + v0.len() as int) =~= v0) by {
            assert forall|k: int|
                0 <= k < v0.len() implies s.subrange(i, i + v0.len() as int)[k] == v0[k] by {
                assert(s[i + k] == b[k]);
                assert(b[k] == v0[k]);
            }
        }
        lemma_jstr_complete(s, i, ss[0]);
        let j = i + v0.len() as int;
        assert(s.subrange(j, j + rest.len() as int) =~= rest) by {
            assert forall|k: int|
                0 <= k < rest.len() implies s.subrange(j, j + rest.len() as int)[k] == rest[k] by {
                assert(s[i + (v0.len() + k)] == b[v0.len() + k]);
                assert(b[v0.len() + k] == rest[k]);
            }
        }
        assert(s[j + rest.len()] == 93) by {
            assert(s[i + (b.len() - 1)] == b[b.len() - 1]);
            assert(i + (b.len() - 1) == j + rest.len());
        }
        lemma_scopes_tail_complete(s, j, ss.drop_first());
        assert(seq![ss[0]] + ss.drop_first() =~= ss);
    }
}

proof fn lemma_scopes_tail_sound(s: Seq<u8>, i: int)
    requires
        0 <= i <= s.len(),
        sp_scopes_tail(s, i) is Some,
    ensures
        ({
            let (vs, j) = sp_scopes_tail(s, i)->Some_0;
            &&& i < j <= s.len()
            &&& s.subrange(i, j) =~= tail_items(vs) + seq![93u8]
        }),
    decreases s.len() - i,
{
    let (vs, j) = sp_scopes_tail(s, i)->Some_0;
    if s[i] == 93 {
        assert(s.subrange(i, i + 1) =~= seq![93u8]);
        assert(tail_items(vs) + seq![93u8] =~= seq![93u8]);
    } else {
        let (v, j1) = sp_jstr(s, i + 1)->Some_0;
        lemma_jstr_sound(s, i + 1);
        lemma_scopes_tail_sound(s, j1);
        let (vs2, _) = sp_scopes_tail(s, j1)->Some_0;
        assert(vs == seq![v] + vs2);
        assert(vs[0] == v && vs.drop_first() =~= vs2);
        assert(s.subrange(i, j) =~= seq![44u8] + s.subrange(i + 1, j1) + s.subrange(j1, j));
    }
}

pub proof fn lemma_scopes_sound(s: Seq<u8>, i: int)
    requires
        0 <= i <= s.len(),
        sp_scopes(s, i) is Some,
    ensures
        ({
            let (vs, j) = sp_scopes(s, i)->Some_0;
            &&& i < j <= s.len()
            &&& j == i + scopes_block(vs).len()
            &&& s.subrange(i, j) =~= scopes_block(vs)
        }),
{
    let (vs, j) = sp_scopes(s, i)->Some_0;
    if s[i] == 93 {
        assert(s.subrange(i, i + 1) =~= seq![93u8]);
        assert(scopes_block(vs) =~= seq![93u8]);
    } else {
        let (v, j1) = sp_jstr(s, i)->Some_0;
        lemma_jstr_sound(s, i);
        lemma_scopes_tail_sound(s, j1);
        let (vs2, _) = sp_scopes_tail(s, j1)->Some_0;
        assert(vs[0] == v && vs.drop_first() =~= vs2);
        lemma_items_shape(vs);
        assert(s.subrange(i, j) =~= s.subrange(i, j1) + s.subrange(j1, j));
        assert(scopes_block(vs) =~= jstr(v) + (tail_items(vs2) + seq![93u8]));
    }
}

/// An optional string value: `null` or a quoted string.
pub open spec fn opt_block(o: Option<Seq<u8>>) -> Seq<u8> {
    match o {
        None => seq![110u8, 117u8, 108u8, 108u8],
        Some(v) => jstr(v),
    }
}

pub open spec fn sp_opt(s: Seq<u8>, i: int) -> Option<(Option<Seq<u8>>, int)>
    recommends
        0 <= i <= s.len(),
{
    if i + 4 <= s.len() && s[i] == 110 && s[i + 1] == 117 && s[i + 2] == 108 && s[i + 3] == 108 {
        Some((None, i + 4))
    } else {
        match sp_jstr(s, i) {
            None => None,
            Some((v, j)) => Some((Some(v), j)),
        }
    }
}

pub proof fn lemma_opt_complete(s: Seq<u8>, i: int, o: Option<Seq<u8>>)
    requires
        0 <= i,
        i + opt_block(o).len() <= s.len(),
        s.subrange(i, i + opt_block(o).len() as int) == opt_block(o),
    ensures
        sp_opt(s, i) == Some((o, i + opt_block(o).len() as int)),
{
    let b = opt_block(o);
    assert forall|k: int| 0 <= k < b.len() implies s[i + k] == b[k] by {
        assert(s.subrange(i, i + b.len() as int)[k] == b[k]);
    }
    assert(s[i + 0] == b[0]);
    match o {
        None => {
            assert(s[i] == 110);
        },
        Some(v) => {
            assert(s[i] == 34);
            lemma_jstr_complete(s, i, v);
        },
    }
}

pub proof fn lemma_opt_sound(s: Seq<u8>, i: int)
    requires
        0 <= i <= s.len(),
        sp_opt(s, i) is Some,
    ensures
        ({
            let (o, j) = sp_opt(s, i)->Some_0;
            &&& i < j <= s.len()
            &&& j == i + opt_block(o).len()
            &&& s.subrange(i, j) =~= opt_block(o)
        }),
{
    let (o, j) = sp_opt(s, i)->Some_0;
    match o {
        None => {
            assert(s.subrange(i, i + 4) =~= opt_block(o));
        },
        Some(v) => {
            lemma_jstr_sound(s, i);
        },
    }
}

/// A literal at `i`: `Some` of the index past it when the bytes match.
pub open spec fn sp_lit(s: Seq<u8>, i: int, lit: Seq<u8>) -> Option<int> {
    if 0 <= i && i + lit.len() <= s.len() && s.subrange(i, i + lit.len() as int) == lit {
        Some(i + lit.len() as int)
    } else {
        None
    }
}

// The field literals of the claims object, as raw bytes.
pub open spec fn lit_aud() -> Seq<u8> {
    seq![123u8, 34u8, 97u8, 117u8, 100u8, 34u8, 58u8]  // {"aud":
}

pub open spec fn lit_exp() -> Seq<u8> {
    seq![44u8, 34u8, 101u8, 120u8, 112u8, 34u8, 58u8]  // ,"exp":
}

pub open spec fn lit_iss() -> Seq<u8> {
    seq![44u8, 34u8, 105u8, 115u8, 115u8, 34u8, 58u8]  // ,"iss":
}

pub open spec fn lit_client_name() -> Seq<u8> {
    seq![
        44u8, 34u8, 99u8, 108u8, 105u8, 101u8, 110u8, 116u8, 95u8, 110u8, 97u8, 109u8, 101u8,
        34u8, 58u8,
    ]  // ,"client_name":
}

pub open spec fn lit_client_id() -> Seq<u8> {
    seq![44u8, 34u8, 99u8, 108u8, 105u8, 101u8, 110u8, 116u8, 95u8, 105u8, 100u8, 34u8, 58u8]  // ,"client_id":
}

pub open spec fn lit_redirect_uri() -> Seq<u8> {
    seq![
        44u8, 34u8, 114u8, 101u8, 100u8, 105u8, 114u8, 101u8, 99u8, 116u8, 95u8, 117u8, 114u8,
        105u8, 34u8, 58u8,
    ]  // ,"redirect_uri":
}

pub open spec fn lit_scopes() -> Seq<u8> {
    seq![44u8, 34u8, 115u8, 99u8, 111u8, 112u8, 101u8, 115u8, 34u8, 58u8, 91u8]  // ,"scopes":[
}

pub open spec fn lit_state() -> Seq<u8> {
    seq![44u8, 34u8, 115u8, 116u8, 97u8, 116u8, 101u8, 34u8, 58u8]  // ,"state":
}

pub open spec fn lit_nonce() -> Seq<u8> {
    seq![44u8, 34u8, 110u8, 111u8, 110u8, 99u8, 101u8, 34u8, 58u8]  // ,"nonce":
}

pub open spec fn lit_end() -> Seq<u8> {
    seq![125u8]  // }
}

/// The session claims at the byte level: each text field as its UTF-8
/// bytes, the expiry as a number.
pub struct ClaimsBytes {
    pub aud: Seq<u8>,
    pub exp: nat,
    pub iss: Seq<u8>,
    pub client_name: Seq<u8>,
    pub client_id: Seq<u8>,
    pub redirect_uri: Seq<u8>,
    pub scopes: Seq<Seq<u8>>,
    pub state: Option<Seq<u8>>,
    pub nonce: Option<Seq<u8>>,
}

/// The one spelling of a claims object that this codec writes and the
/// only one its parser accepts.
pub open spec fn json_of(c: ClaimsBytes) -> Seq<u8> {
    lit_aud() + jstr(c.aud) + lit_exp() + dec_bytes(c.exp) + lit_iss() + jstr(c.iss)
        + lit_client_name() + jstr(c.client_name) + lit_client_id() + jstr(c.client_id)
        + lit_redirect_uri() + jstr(c.redirect_uri) + lit_scopes() + scopes_block(c.scopes)
        + lit_state() + opt_block(c.state) + lit_nonce() + opt_block(c.nonce) + lit_end()
}

/// Parse a whole claims object; the input must be exactly one object.
pub open spec fn sp_claims(s: Seq<u8>) -> Option<ClaimsBytes> {
    match sp_lit(s, 0, lit_aud()) {
        None => None,
        Some(i1) => match sp_jstr(s, i1) {
            None => None,
            Some((aud, i2)) => match sp_lit(s, i2, lit_exp()) {
                None => None,
                Some(i3) => match sp_number(s, i3) {
                    None => None,
                    Some((exp, i4)) => match sp_lit(s, i4, lit_iss()) {
                        None => None,
                        Some(i5) => match sp_jstr(s, i5) {
                            None => None,
                            Some((iss, i6)) => match sp_lit(s, i6, lit_client_name()) {
                                None => None,
                                Some(i7) => match sp_jstr(s, i7) {
                                    None => None,
                                    Some((client_name, i8)) => match sp_lit(
                                        s,
                                        i8,
                                        lit_client_id(),
                                    ) {
                                        None => None,
                                        Some(i9) => match sp_jstr(s, i9) {
                                            None => None,
                                            Some((client_id, i10)) => match sp_lit(
                                                s,
                                                i10,
                                                lit_redirect_uri(),
                                            ) {
                                                None => None,
                                                Some(i11) => match sp_jstr(s, i11) {
                                                    None => None,
                                                    Some((redirect_uri, i12)) => match sp_lit(
                                                        s,
                                                        i12,
                                                        lit_scopes(),
                                                    ) {
                                                        None => None,
                                                        Some(i13) => match sp_scopes(s, i13) {
                                                            None => None,
                                                            Some((scopes, i14)) => match sp_lit(
                                                                s,
                                                                i14,
                                                                lit_state(),
                                                            ) {
                                                                None => None,
                                                                Some(i15) => match sp_opt(
                                                                    s,
                                                                    i15,
                                                                ) {
                                                                    None => None,
                                                                    Some((state, i16)) => match sp_lit(
                                                                        s,
                                                                        i16,
                                                                        lit_nonce(),
                                                                    ) {
                                                                        None => None,
                                                                        Some(i17) => match sp_opt(
                                                                            s,
                                                                            i17,
                                                                        ) {
                                                                            None => None,
                                                                            Some(
                                                                                (nonce, i18),
                                                                            ) => match sp_lit(
                                                                                s,
                                                                                i18,
                                                                                lit_end(),
                                                                            ) {
                                                                                None => None,
                                                                                Some(i19) => if i19
                                                                                    == s.len() {
                                                                                    Some(
                                                                                        ClaimsBytes {
                                                                                            aud,
                                                                                            exp,
                                                                                            iss,
                                                                                            client_name,
                                                                                            client_id,
                                                                                            redirect_uri,
                                                                                            scopes,
                                                                                            state,
                                                                                            nonce,
                                                                                        },
                                                                                    )
                                                                                } else {
                                                                                    None
                                                                                },
                                                                            },
                                                                        },
                                                                    },
                                                                },
                                                            },
                                                        },
                                                    },
                                                },
                                            },
                                        },
                                    },
                                },
                            },
                        },
                    },
                },
            },
        },
    }
}

/// Peel the last piece off a known prefix of `s`.
proof fn lemma_peel(s: Seq<u8>, a: Seq<u8>, b: Seq<u8>, n: int)
    requires
        0 <= n <= s.len(),
        s.subrange(0, n) == a + b,
    ensures
        s.subrange(0, n - b.len()) =~= a,
        s.subrange(n - b.len(), n) =~= b,
{
    assert(s.subrange(0, n).len() == n);
    assert(n == a.len() + b.len());
    assert forall|x: int| 0 <= x < a.len() implies s.subrange(0, n - b.len() as int)[x]
        == a[x] by {
        assert(s.subrange(0, n)[x] == s[x]);
        assert(s.subrange(0, n)[x] == (a + b)[x]);
        assert((a + b)[x] == a[x]);
        assert(s[x] == a[x]);
    }
    assert forall|x: int| 0 <= x < b.len() implies s.subrange(n - b.len() as int, n)[x]
        == b[x] by {
        assert(s.subrange(0, n)[a.len() + x] == s[a.len() + x]);
        assert(s.subrange(0, n)[a.len() + x] == (a + b)[a.len() + x]);
        assert((a + b)[a.len() + x] == b[x]);
        assert(s[a.len() + x] == b[x]);
    }
}

/// The pieces of the claims object in writing order.
pub open spec fn j_seg(c: ClaimsBytes, k: int) -> Seq<u8> {
    if k == 0 {
        lit_aud()
    } else if k == 1 {
        jstr(c.aud)
    } else if k == 2 {
        lit_exp()
    } else if k == 3 {
        dec_bytes(c.exp)
    } else if k == 4 {
        lit_iss()
    } else if k == 5 {
        jstr(c.iss)
    } else if k == 6 {
        lit_client_name()
    } else if k == 7 {
        jstr(c.client_name)
    } else if k == 8 {
        lit_client_id()
    } else if k == 9 {
        jstr(c.client_id)
    } else if k == 10 {
        lit_redirect_uri()
    } else if k == 11 {
        jstr(c.redirect_uri)
    } else if k == 12 {
        lit_scopes()
    } else if k == 13 {
        scopes_block(c.scopes)
    } else if k == 14 {
        lit_state()
    } else if k == 15 {
        opt_block(c.state)
    } else if k == 16 {
        lit_nonce()
    } else if k == 17 {
        opt_block(c.nonce)
    } else {
        lit_end()
    }
}

/// Where piece `k` begins in the written object.
pub open spec fn j_off(c: ClaimsBytes, k: int) -> int
    decreases k,
{
    if k <= 0 {
        0
    } else {
        j_off(c, k - 1) + j_seg(c, k - 1).len()
    }
}

/// The written object's upper pieces sit at their offsets; the lower
/// pieces form the prefix before them.
#[verifier::rlimit(100)]
#[verifier::spinoff_prover]
proof fn lemma_json_segments_hi(c: ClaimsBytes)
    ensures
        json_of(c).len() == j_off(c, 19),
        forall|k: int|
            9 <= k < 19 ==> json_of(c).subrange(#[trigger] j_off(c, k), j_off(c, k + 1)) =~= j_seg(
                c,
                k,
            ),
        json_of(c).subrange(0, j_off(c, 9)) =~= lit_aud() + jstr(c.aud) + lit_exp() + dec_bytes(
            c.exp,
        ) + lit_iss() + jstr(c.iss) + lit_client_name() + jstr(c.client_name) + lit_client_id(),
{
    assert(j_off(c, 1) == j_off(c, 0) + j_seg(c, 0).len());
    assert(j_off(c, 2) == j_off(c, 1) + j_seg(c, 1).len());
    assert(j_off(c, 3) == j_off(c, 2) + j_seg(c, 2).len());
    assert(j_off(c, 4) == j_off(c, 3) + j_seg(c, 3).len());
    assert(j_off(c, 5) == j_off(c, 4) + j_seg(c, 4).len());
    assert(j_off(c, 6) == j_off(c, 5) + j_seg(c, 5).len());
    assert(j_off(c, 7) == j_off(c, 6) + j_seg(c, 6).len());
    assert(j_off(c, 8) == j_off(c, 7) + j_seg(c, 7).len());
    assert(j_off(c, 9) == j_off(c, 8) + j_seg(c, 8).len());
    assert(j_off(c, 10) == j_off(c, 9) + j_seg(c, 9).len());
    assert(j_off(c, 11) == j_off(c, 10) + j_seg(c, 10).len());
    assert(j_off(c, 12) == j_off(c, 11) + j_seg(c, 11).len());
    assert(j_off(c, 13) == j_off(c, 12) + j_seg(c, 12).len());
    assert(j_off(c, 14) == j_off(c, 13) + j_seg(c, 13).len());
    assert(j_off(c, 15) == j_off(c, 14) + j_seg(c, 14).len());
    assert(j_off(c, 16) == j_off(c, 15) + j_seg(c, 15).len());
    assert(j_off(c, 17) == j_off(c, 16) + j_seg(c, 16).len());
    assert(j_off(c, 18) == j_off(c, 17) + j_seg(c, 17).len());
    assert(j_off(c, 19) == j_off(c, 18) + j_seg(c, 18).len());
    let s = json_of(c);
    let p1 = lit_aud();
    let p2 = jstr(c.aud);
    let p3 = lit_exp();
    let p4 = dec_bytes(c.exp);
    let p5 = lit_iss();
    let p6 = jstr(c.iss);
    let p7 = lit_client_name();
    let p8 = jstr(c.client_name);
    let p9 = lit_client_id();
    let p10 = jstr(c.client_id);
    let p11 = lit_redirect_uri();
    let p12 = jstr(c.redirect_uri);
    let p13 = lit_scopes();
    let p14 = scopes_block(c.scopes);
    let p15 = lit_state();
    let p16 = opt_block(c.state);
    let p17 = lit_nonce();
    let p18 = opt_block(c.nonce);
    let p19 = lit_end();
    let t9 = p1 + p2 + p3 + p4 + p5 + p6 + p7 + p8 + p9;
    let t10 = t9 + p10;
    let t11 = t10 + p11;
    let t12 = t11 + p12;
    let t13 = t12 + p13;
    let t14 = t13 + p14;
    let t15 = t14 + p15;
    let t16 = t15 + p16;
    let t17 = t16 + p17;
    let t18 = t17 + p18;
    let t19 = t18 + p19;
    assert(s == t19);
    assert(s.subrange(0, j_off(c, 19)) =~= t19);
    lemma_peel(s, t18, p19, j_off(c, 19));
    lemma_peel(s, t17, p18, j_off(c, 18));
    lemma_peel(s, t16, p17, j_off(c, 17));
    lemma_peel(s, t15, p16, j_off(c, 16));
    lemma_peel(s, t14, p15, j_off(c, 15));
    lemma_peel(s, t13, p14, j_off(c, 14));
    lemma_peel(s, t12, p13, j_off(c, 13));
    lemma_peel(s, t11, p12, j_off(c, 12));
    lemma_peel(s, t10, p11, j_off(c, 11));
    lemma_peel(s, t9, p10, j_off(c, 10));
}

/// The written object's lower pieces sit at their offsets.
#[verifier::rlimit(100)]
#[verifier::spinoff_prover]
proof fn lemma_json_segments_lo(c: ClaimsBytes)
    ensures
        forall|k: int|
            0 <= k < 9 ==> json_of(c).subrange(#[trigger] j_off(c, k), j_off(c, k + 1)) =~= j_seg(
                c,
                k,
            ),
{
    assert(j_off(c, 1) == j_off(c, 0) + j_seg(c, 0).len());
    assert(j_off(c, 2) == j_off(c, 1) + j_seg(c, 1).len());
    assert(j_off(c, 3) == j_off(c, 2) + j_seg(c, 2).len());
    assert(j_off(c, 4) == j_off(c, 3) + j_seg(c, 3).len());
    assert(j_off(c, 5) == j_off(c, 4) + j_seg(c, 4).len());
    assert(j_off(c, 6) == j_off(c, 5) + j_seg(c, 5).len());
    assert(j_off(c, 7) == j_off(c, 6) + j_seg(c, 6).len());
    assert(j_off(c, 8) == j_off(c, 7) + j_seg(c, 7).len());
    assert(j_off(c, 9) == j_off(c, 8) + j_seg(c, 8).len());
    let s = json_of(c);
    lemma_json_segments_hi(c);
    let p1 = lit_aud();
    let p2 = jstr(c.aud);
    let p3 = lit_exp();
    let p4 = dec_bytes(c.exp);
    let p5 = lit_iss();
    let p6 = jstr(c.iss);
    let p7 = lit_client_name();
    let p8 = jstr(c.client_name);
    let p9 = lit_client_id();
    let t1 = p1;
    let t2 = t1 + p2;
    let t3 = t2 + p3;
    let t4 = t3 + p4;
    let t5 = t4 + p5;
    let t6 = t5 + p6;
    let t7 = t6 + p7;
    let t8 = t7 + p8;
    let t9 = t8 + p9;
    assert(s.subrange(0, j_off(c, 9)) =~= t9);
    lemma_peel(s, t8, p9, j_off(c, 9));
    lemma_peel(s, t7, p8, j_off(c, 8));
    lemma_peel(s, t6, p7, j_off(c, 7));
    lemma_peel(s, t5, p6, j_off(c, 6));
    lemma_peel(s, t4, p5, j_off(c, 5));
    lemma_peel(s, t3, p4, j_off(c, 4));
    lemma_peel(s, t2, p3, j_off(c, 3));
    lemma_peel(s, t1, p2, j_off(c, 2));
    assert(s.subrange(0, j_off(c, 1)) =~= p1) by {
        assert(s.subrange(0, j_off(c, 2)) == t1 + p2);
        lemma_peel(s, t1, p2, j_off(c, 2));
    }
    assert(s.subrange(j_off(c, 0), j_off(c, 1)) =~= p1);
}

/// Each piece sits at its offset in the written object.
pub proof fn lemma_json_segments(c: ClaimsBytes)
    ensures
        json_of(c).len() == j_off(c, 19),
        forall|k: int|
            0 <= k < 19 ==> json_of(c).subrange(#[trigger] j_off(c, k), j_off(c, k + 1)) =~= j_seg(
                c,
                k,
            ),
{
    lemma_json_segments_hi(c);
    lemma_json_segments_lo(c);
}

/// The first half of the parse steps on a written object.
#[verifier::rlimit(100)]
#[verifier::spinoff_prover]
proof fn lemma_claims_steps_a(c: ClaimsBytes)
    requires
        c.exp <= usize::MAX as nat,
    ensures
        sp_lit(json_of(c), 0, lit_aud()) == Some(j_off(c, 1)),
        sp_jstr(json_of(c), j_off(c, 1)) == Some((c.aud, j_off(c, 2))),
        sp_lit(json_of(c), j_off(c, 2), lit_exp()) == Some(j_off(c, 3)),
        sp_number(json_of(c), j_off(c, 3)) == Some((c.exp, j_off(c, 4))),
        sp_lit(json_of(c), j_off(c, 4), lit_iss()) == Some(j_off(c, 5)),
        sp_jstr(json_of(c), j_off(c, 5)) == Some((c.iss, j_off(c, 6))),
        sp_lit(json_of(c), j_off(c, 6), lit_client_name()) == Some(j_off(c, 7)),
        sp_jstr(json_of(c), j_off(c, 7)) == Some((c.client_name, j_off(c, 8))),
        sp_lit(json_of(c), j_off(c, 8), lit_client_id()) == Some(j_off(c, 9)),
        sp_jstr(json_of(c), j_off(c, 9)) == Some((c.client_id, j_off(c, 10))),
{
    assert(j_off(c, 1) == j_off(c, 0) + j_seg(c, 0).len());
    assert(j_off(c, 2) == j_off(c, 1) + j_seg(c, 1).len());
    assert(j_off(c, 3) == j_off(c, 2) + j_seg(c, 2).len());
    assert(j_off(c, 4) == j_off(c, 3) + j_seg(c, 3).len());
    assert(j_off(c, 5) == j_off(c, 4) + j_seg(c, 4).len());
    assert(j_off(c, 6) == j_off(c, 5) + j_seg(c, 5).len());
    assert(j_off(c, 7) == j_off(c, 6) + j_seg(c, 6).len());
    assert(j_off(c, 8) == j_off(c, 7) + j_seg(c, 7).len());
    assert(j_off(c, 9) == j_off(c, 8) + j_seg(c, 8).len());
    assert(j_off(c, 10) == j_off(c, 9) + j_seg(c, 9).len());
    assert(j_off(c, 11) == j_off(c, 10) + j_seg(c, 10).len());
    assert(j_off(c, 12) == j_off(c, 11) + j_seg(c, 11).len());
    assert(j_off(c, 13) == j_off(c, 12) + j_seg(c, 12).len());
    assert(j_off(c, 14) == j_off(c, 13) + j_seg(c, 13).len());
    assert(j_off(c, 15) == j_off(c, 14) + j_seg(c, 14).len());
    assert(j_off(c, 16) == j_off(c, 15) + j_seg(c, 15).len());
    assert(j_off(c, 17) == j_off(c, 16) + j_seg(c, 16).len());
    assert(j_off(c, 18) == j_off(c, 17) + j_seg(c, 17).len());
    assert(j_off(c, 19) == j_off(c, 18) + j_seg(c, 18).len());
    let s = json_of(c);
    lemma_json_segments(c);
    assert(sp_lit(s, 0, lit_aud()) == Some(j_off(c, 1))) by {
        assert(s.subrange(j_off(c, 0), j_off(c, 1)) =~= j_seg(c, 0));
    }
    assert(sp_jstr(s, j_off(c, 1)) == Some((c.aud, j_off(c, 2)))) by {
        assert(s.subrange(j_off(c, 1), j_off(c, 2)) =~= j_seg(c, 1));
        lemma_jstr_complete(s, j_off(c, 1), c.aud);
    }
    assert(sp_lit(s, j_off(c, 2), lit_exp()) == Some(j_off(c, 3))) by {
        assert(s.subrange(j_off(c, 2), j_off(c, 3)) =~= j_seg(c, 2));
    }
    assert(sp_number(s, j_off(c, 3)) == Some((c.exp, j_off(c, 4)))) by {
        assert(s.subrange(j_off(c, 3), j_off(c, 4)) =~= j_seg(c, 3));
        assert(s.subrange(j_off(c, 4), j_off(c, 5)) =~= j_seg(c, 4));
        assert(s[j_off(c, 4) + 0] == lit_iss()[0]) by {
            assert(s.subrange(j_off(c, 4), j_off(c, 5))[0] == j_seg(c, 4)[0]);
        }
        assert(s[j_off(c, 4)] == 44);
        lemma_number_complete(s, j_off(c, 3), c.exp);
    }
    assert(sp_lit(s, j_off(c, 4), lit_iss()) == Some(j_off(c, 5))) by {
        assert(s.subrange(j_off(c, 4), j_off(c, 5)) =~= j_seg(c, 4));
    }
    assert(sp_jstr(s, j_off(c, 5)) == Some((c.iss, j_off(c, 6)))) by {
        assert(s.subrange(j_off(c, 5), j_off(c, 6)) =~= j_seg(c, 5));
        lemma_jstr_complete(s, j_off(c, 5), c.iss);
    }
    assert(sp_lit(s, j_off(c, 6), lit_client_name()) == Some(j_off(c, 7))) by {
        assert(s.subrange(j_off(c, 6), j_off(c, 7)) =~= j_seg(c, 6));
    }
    assert(sp_jstr(s, j_off(c, 7)) == Some((c.client_name, j_off(c, 8)))) by {
        assert(s.subrange(j_off(c, 7), j_off(c, 8)) =~= j_seg(c, 7));
        lemma_jstr_complete(s, j_off(c, 7), c.client_name);
    }
    assert(sp_lit(s, j_off(c, 8), lit_client_id()) == Some(j_off(c, 9))) by {
        assert(s.subrange(j_off(c, 8), j_off(c, 9)) =~= j_seg(c, 8));
    }
    assert(sp_jstr(s, j_off(c, 9)) == Some((c.client_id, j_off(c, 10)))) by {
        assert(s.subrange(j_off(c, 9), j_off(c, 10)) =~= j_seg(c, 9));
        lemma_jstr_complete(s, j_off(c, 9), c.client_id);
    }
}

/// The second half of the parse steps on a written object.
#[verifier::rlimit(100)]
#[verifier::spinoff_prover]
proof fn lemma_claims_steps_b(c: ClaimsBytes)
    ensures
        sp_lit(json_of(c), j_off(c, 10), lit_redirect_uri()) == Some(j_off(c, 11)),
        sp_jstr(json_of(c), j_off(c, 11)) == Some((c.redirect_uri, j_off(c, 12))),
        sp_lit(json_of(c), j_off(c, 12), lit_scopes()) == Some(j_off(c, 13)),
        sp_scopes(json_of(c), j_off(c, 13)) == Some((c.scopes, j_off(c, 14))),
        sp_lit(json_of(c), j_off(c, 14), lit_state()) == Some(j_off(c, 15)),
        sp_opt(json_of(c), j_off(c, 15)) == Some((c.state, j_off(c, 16))),
        sp_lit(json_of(c), j_off(c, 16), lit_nonce()) == Some(j_off(c, 17)),
        sp_opt(json_of(c), j_off(c, 17)) == Some((c.nonce, j_off(c, 18))),
        sp_lit(json_of(c), j_off(c, 18), lit_end()) == Some(j_off(c, 19)),
        j_off(c, 19) == json_of(c).len(),
{
    assert(j_off(c, 1) == j_off(c, 0) + j_seg(c, 0).len());
    assert(j_off(c, 2) == j_off(c, 1) + j_seg(c, 1).len());
    assert(j_off(c, 3) == j_off(c, 2) + j_seg(c, 2).len());
    assert(j_off(c, 4) == j_off(c, 3) + j_seg(c, 3).len());
    assert(j_off(c, 5) == j_off(c, 4) + j_seg(c, 4).len());
    assert(j_off(c, 6) == j_off(c, 5) + j_seg(c, 5).len());
    assert(j_off(c, 7) == j_off(c, 6) + j_seg(c, 6).len());
    assert(j_off(c, 8) == j_off(c, 7) + j_seg(c, 7).len());
    assert(j_off(c, 9) == j_off(c, 8) + j_seg(c, 8).len());
    assert(j_off(c, 10) == j_off(c, 9) + j_seg(c, 9).len());
    assert(j_off(c, 11) == j_off(c, 10) + j_seg(c, 10).len());
    assert(j_off(c, 12) == j_off(c, 11) + j_seg(c, 11).len());
    assert(j_off(c, 13) == j_off(c, 12) + j_seg(c, 12).len());
    assert(j_off(c, 14) == j_off(c, 13) + j_seg(c, 13).len());
    assert(j_off(c, 15) == j_off(c, 14) + j_seg(c, 14).len());
    assert(j_off(c, 16) == j_off(c, 15) + j_seg(c, 15).len());
    assert(j_off(c, 17) == j_off(c, 16) + j_seg(c, 16).len());
    assert(j_off(c, 18) == j_off(c, 17) + j_seg(c, 17).len());
    assert(j_off(c, 19) == j_off(c, 18) + j_seg(c, 18).len());
    let s = json_of(c);
    lemma_json_segments(c);
    assert(sp_lit(s, j_off(c, 10), lit_redirect_uri()) == Some(j_off(c, 11))) by {
        assert(s.subrange(j_off(c, 10), j_off(c, 11)) =~= j_seg(c, 10));
    }
    assert(sp_jstr(s, j_off(c, 11)) == Some((c.redirect_uri, j_off(c, 12)))) by {
        assert(s.subrange(j_off(c, 11), j_off(c, 12)) =~= j_seg(c, 11));
        lemma_jstr_complete(s, j_off(c, 11), c.redirect_uri);
    }
    assert(sp_lit(s, j_off(c, 12), lit_scopes()) == Some(j_off(c, 13))) by {
        assert(s.subrange(j_off(c, 12), j_off(c, 13)) =~= j_seg(c, 12));
    }
    assert(sp_scopes(s, j_off(c, 13)) == Some((c.scopes, j_off(c, 14)))) by {
        assert(s.subrange(j_off(c, 13), j_off(c, 14)) =~= j_seg(c, 13));
        lemma_scopes_complete(s, j_off(c, 13), c.scopes);
    }
    assert(sp_lit(s, j_off(c, 14), lit_state()) == Some(j_off(c, 15))) by {
        assert(s.subrange(j_off(c, 14), j_off(c, 15)) =~= j_seg(c, 14));
    }
    assert(sp_opt(s, j_off(c, 15)) == Some((c.state, j_off(c, 16)))) by {
        assert(s.subrange(j_off(c, 15), j_off(c, 16)) =~= j_seg(c, 15));
        lemma_opt_complete(s, j_off(c, 15), c.state);
    }
    assert(sp_lit(s, j_off(c, 16), lit_nonce()) == Some(j_off(c, 17))) by {
        assert(s.subrange(j_off(c, 16), j_off(c, 17)) =~= j_seg(c, 16));
    }
    assert(sp_opt(s, j_off(c, 17)) == Some((c.nonce, j_off(c, 18)))) by {
        assert(s.subrange(j_off(c, 17), j_off(c, 18)) =~= j_seg(c, 17));
        lemma_opt_complete(s, j_off(c, 17), c.nonce);
    }
    assert(sp_lit(s, j_off(c, 18), lit_end()) == Some(j_off(c, 19))) by {
        assert(s.subrange(j_off(c, 18), j_off(c, 19)) =~= j_seg(c, 18));
    }
}

/// Parsing reads back exactly what was written.
#[verifier::rlimit(100)]
#[verifier::spinoff_prover]
pub proof fn lemma_claims_complete(c: ClaimsBytes)
    requires
        c.exp <= usize::MAX as nat,
    ensures
        sp_claims(json_of(c)) == Some(c),
{
    lemma_claims_steps_a(c);
    lemma_claims_steps_b(c);
}

#[verifier::rlimit(100)]
#[verifier::spinoff_prover]
pub proof fn lemma_claims_sound(s: Seq<u8>)
    requires
        sp_claims(s) is Some,
    ensures
        ({
            let c = sp_claims(s)->Some_0;
            &&& s =~= json_of(c)
            &&& c.exp <= usize::MAX as nat
        }),
{
    let c = sp_claims(s)->Some_0;
    let i1 = sp_lit(s, 0, lit_aud())->Some_0;
    let (aud, i2) = sp_jstr(s, i1)->Some_0;
    let i3 = sp_lit(s, i2, lit_exp())->Some_0;
    let (exp, i4) = sp_number(s, i3)->Some_0;
    let i5 = sp_lit(s, i4, lit_iss())->Some_0;
    let (iss, i6) = sp_jstr(s, i5)->Some_0;
    let i7 = sp_lit(s, i6, lit_client_name())->Some_0;
    let (client_name, i8) = sp_jstr(s, i7)->Some_0;
    let i9 = sp_lit(s, i8, lit_client_id())->Some_0;
    let (client_id, i10) = sp_jstr(s, i9)->Some_0;
    let i11 = sp_lit(s, i10, lit_redirect_uri())->Some_0;
    let (redirect_uri, i12) = sp_jstr(s, i11)->Some_0;
    let i13 = sp_lit(s, i12, lit_scopes())->Some_0;
    let (scopes, i14) = sp_scopes(s, i13)->Some_0;
    let i15 = sp_lit(s, i14, lit_state())->Some_0;
    let (state, i16) = sp_opt(s, i15)->Some_0;
    let i17 = sp_lit(s, i16, lit_nonce())->Some_0;
    let (nonce, i18) = sp_opt(s, i17)->Some_0;
    let i19 = sp_lit(s, i18, lit_end())->Some_0;
    lemma_jstr_sound(s, i1);
    lemma_number_sound(s, i3);
    lemma_jstr_sound(s, i5);
    lemma_jstr_sound(s, i7);
    lemma_jstr_sound(s, i9);
    lemma_jstr_sound(s, i11);
    lemma_scopes_sound(s, i13);
    lemma_opt_sound(s, i15);
    lemma_opt_sound(s, i17);
    assert(i19 == s.len());
    assert(s.subrange(0, i1) == lit_aud());
    assert(s.subrange(i2, i3 as int) == lit_exp());
    assert(s.subrange(i4, i5 as int) == lit_iss());
    assert(s.subrange(i6, i7 as int) == lit_client_name());
    assert(s.subrange(i8, i9 as int) == lit_client_id());
    assert(s.subrange(i10, i11 as int) == lit_redirect_uri());
    assert(s.subrange(i12, i13 as int) == lit_scopes());
    assert(s.subrange(i14, i15 as int) == lit_state());
    assert(s.subrange(i16, i17 as int) == lit_nonce());
    assert(s.subrange(i18, i19 as int) == lit_end());
    assert(s.subrange(0, i2) =~= s.subrange(0, i1) + s.subrange(i1, i2));
    assert(s.subrange(0, i3) =~= s.subrange(0, i2) + s.subrange(i2, i3));
    assert(s.subrange(0, i4) =~= s.subrange(0, i3) + s.subrange(i3, i4));
    assert(s.subrange(0, i5) =~= s.subrange(0, i4) + s.subrange(i4, i5));
    assert(s.subrange(0, i6) =~= s.subrange(0, i5) + s.subrange(i5, i6));
    assert(s.subrange(0, i7) =~= s.subrange(0, i6) + s.subrange(i6, i7));
    assert(s.subrange(0, i8) =~= s.subrange(0, i7) + s.subrange(i7, i8));
    assert(s.subrange(0, i9) =~= s.subrange(0, i8) + s.subrange(i8, i9));
    assert(s.subrange(0, i10) =~= s.subrange(0, i9) + s.subrange(i9, i10));
    assert(s.subrange(0, i11) =~= s.subrange(0, i10) + s.subrange(i10, i11));
    assert(s.subrange(0, i12) =~= s.subrange(0, i11) + s.subrange(i11, i12));
    assert(s.subrange(0, i13) =~= s.subrange(0, i12) + s.subrange(i12, i13));
    assert(s.subrange(0, i14) =~= s.subrange(0, i13) + s.subrange(i13, i14));
    assert(s.subrange(0, i15) =~= s.subrange(0, i14) + s.subrange(i14, i15));
    assert(s.subrange(0, i16) =~= s.subrange(0, i15) + s.subrange(i15, i16));
    assert(s.subrange(0, i17) =~= s.subrange(0, i16) + s.subrange(i16, i17));
    assert(s.subrange(0, i18) =~= s.subrange(0, i17) + s.subrange(i17, i18));
    assert(s.subrange(0, i19) =~= s.subrange(0, i18) + s.subrange(i18, i19));
    assert(s =~= s.subrange(0, i19));
}

/// Map each character string to its UTF-8 bytes.
pub open spec fn strs_bytes(v: Seq<Seq<char>>) -> Seq<Seq<u8>> {
    v.map_values(|t: Seq<char>| vstd::utf8::encode_utf8(t))
}

/// An uppercase hexadecimal digit for a value below sixteen.
fn hex_digit_x(v: u8) -> (r: u8)
    requires
        v < 16,
    ensures
        r == hex_digit(v),
{
    if v < 10 {
        v + 48
    } else {
        v + 55
    }
}

/// The value of an uppercase hexadecimal digit byte, 255 otherwise.
fn hex_val_x(b: u8) -> (r: u8)
    ensures
        r == hex_val(b),
{
    if 48 <= b && b <= 57 {
        b - 48
    } else if 65 <= b && b <= 70 {
        b - 55
    } else {
        255
    }
}

/// Append one byte string, escaped for a JSON string body.
pub fn append_escaped(out: &mut Vec<u8>, s: &[u8])
    ensures
        final(out)@ == old(out)@ + esc_bytes(s@),
{
    let ghost orig = out@;
    let mut i: usize = 0;
    assert(out@ =~= orig + esc_bytes(s@.take(0)));
    while i < s.len()
        invariant
            i <= s@.len(),
            out@ == orig + esc_bytes(s@.take(i as int)),
        decreases s@.len() - i,
    {
        let b = s[i];
        if b == 34 {
            out.push(92);
            out.push(34);
        } else if b == 92 {
            out.push(92);
            out.push(92);
        } else if b < 32 {
            proof {
                assert((b >> 4) < 16 && (b & 15) < 16) by (bit_vector);
            }
            out.push(92);
            out.push(117);
            out.push(48);
            out.push(48);
            out.push(hex_digit_x(b >> 4));
            out.push(hex_digit_x(b & 15));
        } else {
            out.push(b);
        }
        proof {
            lemma_esc_bytes_split(s@.take(i + 1), i as int);
            assert(s@.take(i + 1).take(i as int) =~= s@.take(i as int));
            assert(s@.take(i + 1).skip(i as int) =~= seq![b]);
            assert(seq![b].drop_first() =~= Seq::<u8>::empty());
            assert(esc_bytes(Seq::<u8>::empty()) =~= Seq::<u8>::empty());
            assert(esc_bytes(seq![b]) =~= esc_byte(b));
            assert(out@ =~= orig + esc_bytes(s@.take(i + 1)));
        }
        i += 1;
    }
    assert(s@.take(s@.len() as int) =~= s@);
}

/// Append a quoted, escaped JSON string.
pub fn append_jstr(out: &mut Vec<u8>, content: &[u8])
    ensures
        final(out)@ == old(out)@ + jstr(content@),
{
    out.push(34);
    append_escaped(out, content);
    out.push(34);
    assert(out@ =~= old(out)@ + jstr(content@));
}

/// Append the canonical decimal digits of a number.
pub fn append_dec(out: &mut Vec<u8>, n: usize)
    ensures
        final(out)@ == old(out)@ + dec_bytes(n as nat),
    decreases n,
{
    if n < 10 {
        out.push(48 + n as u8);
        assert(out@ =~= old(out)@ + dec_bytes(n as nat));
    } else {
        append_dec(out, n / 10);
        out.push(48 + (n % 10) as u8);
        assert(out@ =~= old(out)@ + dec_bytes(n as nat));
    }
}

/// Append the scopes array body and its closing bracket.
pub fn append_scopes_block(out: &mut Vec<u8>, scopes: &Vec<String>)
    ensures
        final(out)@ == old(out)@ + scopes_block(strs_bytes(scopes.deep_view())),
{
    let ghost orig = out@;
    let ghost all = strs_bytes(scopes.deep_view());
    let mut i: usize = 0;
    assert(out@ =~= orig + scopes_items(all.take(0)));
    while i < scopes.len()
        invariant
            i <= scopes@.len(),
            all == strs_bytes(scopes.deep_view()),
            all.len() == scopes@.len(),
            out@ == orig + scopes_items(all.take(i as int)),
        decreases scopes@.len() - i,
    {
        if i > 0 {
            out.push(44);
        }
        append_jstr(out, scopes[i].as_str().as_bytes());
        proof {
            assert(all[i as int] == vstd::utf8::encode_utf8(scopes@[i as int]@));
            lemma_scopes_items_push(all.take(i as int), all[i as int]);
            assert(all.take(i as int).push(all[i as int]) =~= all.take(i + 1));
            assert(out@ =~= orig + scopes_items(all.take(i + 1)));
        }
        i += 1;
    }
    out.push(93);
    proof {
        assert(all.take(all.len() as int) =~= all);
        assert(out@ =~= orig + scopes_block(all));
    }
}

/// Adding one item extends the array body at its end.
proof fn lemma_scopes_items_push(ss: Seq<Seq<u8>>, x: Seq<u8>)
    ensures
        ss.len() == 0 ==> scopes_items(ss.push(x)) =~= jstr(x),
        ss.len() > 0 ==> scopes_items(ss.push(x)) =~= scopes_items(ss) + seq![44u8] + jstr(x),
    decreases ss.len(),
{
    if ss.len() == 0 {
        assert(ss.push(x).len() == 1);
        assert(ss.push(x)[0] == x);
    } else {
        lemma_scopes_items_push(ss.drop_first(), x);
        assert(ss.push(x).drop_first() =~= ss.drop_first().push(x));
        assert(ss.push(x)[0] == ss[0]);
        if ss.len() == 1 {
            assert(scopes_items(ss.push(x)) == jstr(ss[0]) + seq![44u8] + scopes_items(
                ss.drop_first().push(x),
            ));
        }
    }
}

/// Append an optional string value: `null` or a quoted string.
pub fn append_opt(out: &mut Vec<u8>, o: &Option<String>)
    ensures
        final(out)@ == old(out)@ + opt_block(
            match o {
                Option::None => Option::<Seq<u8>>::None,
                Option::Some(v) => Option::Some(vstd::utf8::encode_utf8(v@)),
            },
        ),
{
    match o {
        None => {
            out.push(110);
            out.push(117);
            out.push(108);
            out.push(108);
            assert(out@ =~= old(out)@ + seq![110u8, 117u8, 108u8, 108u8]);
        },
        Some(v) => {
            append_jstr(out, v.as_str().as_bytes());
        },
    }
}

/// Match a literal at `i`.
pub fn x_lit(s: &Vec<u8>, i: usize, lit: &Vec<u8>) -> (r: Option<usize>)
    requires
        i <= s@.len(),
    ensures
        match r {
            Some(j) => sp_lit(s@, i as int, lit@) == Some(j as int) && i <= j <= s@.len(),
            None => sp_lit(s@, i as int, lit@) is None,
        },
{
    if s.len() - i < lit.len() {
        return None;
    }
    let n = s.len();
    let mut k: usize = 0;
    while k < lit.len()
        invariant
            k <= lit@.len(),
            i + lit@.len() <= s@.len(),
            n == s@.len(),
            forall|x: int| 0 <= x < k ==> s@[i + x] == lit@[x],
        decreases lit@.len() - k,
    {
        if s[i + k] != lit[k] {
            proof {
                assert(s@.subrange(i as int, i + lit@.len() as int)[k as int] != lit@[k as int]);
            }
            return None;
        }
        k += 1;
    }
    proof {
        assert(s@.subrange(i as int, i + lit@.len() as int) =~= lit@);
    }
    Some(i + lit.len())
}

/// Read an escaped string body up to the closing quote.
pub fn x_string(s: &Vec<u8>, i: usize) -> (r: Option<(Vec<u8>, usize)>)
    requires
        i <= s@.len(),
    ensures
        match r {
            Some(p) => sp_string(s@, i as int) == Some((p.0@, p.1 as int)) && i <= p.1
                <= s@.len(),
            None => sp_string(s@, i as int) is None,
        },
{
    let mut out: Vec<u8> = Vec::new();
    let mut k: usize = i;
    proof {
        assert(out@ =~= Seq::<u8>::empty());
        match sp_string(s@, i as int) {
            Some(q) => {
                assert(Seq::<u8>::empty() + q.0 =~= q.0);
            },
            None => {},
        }
    }
    loop
        invariant
            i <= k <= s@.len(),
            match sp_string(s@, k as int) {
                Some(q) => sp_string(s@, i as int) == Some((out@ + q.0, q.1)),
                None => sp_string(s@, i as int) is None,
            },
        decreases s@.len() - k,
    {
        if k >= s.len() {
            return None;
        }
        let b = s[k];
        if b == 34 {
            proof {
                assert(sp_string(s@, k as int) == Some((Seq::<u8>::empty(), k as int)));
                assert(out@ + Seq::<u8>::empty() =~= out@);
            }
            return Some((out, k));
        } else if b == 92 {
            if s.len() - k >= 2 && (s[k + 1] == 34 || s[k + 1] == 92) {
                let d = s[k + 1];
                let ghost before = out@;
                out.push(d);
                proof {
                    match sp_string(s@, k + 2) {
                        Some(q) => {
                            assert(before + (seq![d] + q.0) =~= out@ + q.0);
                        },
                        None => {},
                    }
                }
                k += 2;
            } else if s.len() - k >= 6 && s[k + 1] == 117 && s[k + 2] == 48 && s[k + 3] == 48 {
                let h1 = hex_val_x(s[k + 4]);
                let h2 = hex_val_x(s[k + 5]);
                if h1 == 255 || h2 == 255 {
                    return None;
                }
                let v = h1 * 16 + h2;
                if v >= 32 {
                    return None;
                }
                let ghost before = out@;
                out.push(v);
                proof {
                    match sp_string(s@, k + 6) {
                        Some(q) => {
                            assert(before + (seq![v] + q.0) =~= out@ + q.0);
                        },
                        None => {},
                    }
                }
                k += 6;
            } else {
                return None;
            }
        } else if b >= 32 {
            let ghost before = out@;
            out.push(b);
            proof {
                match sp_string(s@, k + 1) {
                    Some(q) => {
                        assert(before + (seq![b] + q.0) =~= out@ + q.0);
                    },
                    None => {},
                }
            }
            k += 1;
        } else {
            return None;
        }
    }
}

/// Read a quoted string, past its closing quote.
pub fn x_jstr(s: &Vec<u8>, i: usize) -> (r: Option<(Vec<u8>, usize)>)
    requires
        i <= s@.len(),
    ensures
        match r {
            Some(p) => sp_jstr(s@, i as int) == Some((p.0@, p.1 as int)) && i < p.1 <= s@.len(),
            None => sp_jstr(s@, i as int) is None,
        },
{
    if i < s.len() && s[i] == 34 {
        match x_string(s, i + 1) {
            None => None,
            Some((v, j)) => {
                if j < s.len() && s[j] == 34 {
                    Some((v, j + 1))
                } else {
                    None
                }
            },
        }
    } else {
        None
    }
}

/// One digit-run step keeps the run's end.
proof fn lemma_digits_end_step(s: Seq<u8>, i: int)
    requires
        0 <= i < s.len(),
        is_digit(s[i]),
    ensures
        digits_end(s, i) == digits_end(s, i + 1),
{
}

/// The value of a longer digit run is no smaller.
proof fn lemma_digits_val_monotone(s: Seq<u8>, i: int, j1: int, j2: int)
    requires
        i <= j1 <= j2,
    ensures
        digits_val(s, i, j1) <= digits_val(s, i, j2),
    decreases j2 - j1,
{
    if j1 < j2 {
        lemma_digits_val_monotone(s, i, j1, j2 - 1);
        let v = digits_val(s, i, j2 - 1);
        assert(v * 10 >= v) by (nonlinear_arith)
            requires
                v >= 0,
        ;
    }
}

/// Read a canonical decimal number.
pub fn x_number(s: &Vec<u8>, i: usize) -> (r: Option<(usize, usize)>)
    requires
        i <= s@.len(),
    ensures
        match r {
            Some(p) => sp_number(s@, i as int) == Some((p.0 as nat, p.1 as int)) && i < p.1
                <= s@.len(),
            None => sp_number(s@, i as int) is None,
        },
{
    proof {
        lemma_digits_end(s@, i as int);
    }
    if i >= s.len() || s[i] < 48 || s[i] > 57 {
        return None;
    }
    if s[i] == 48 {
        if i + 1 < s.len() && 48 <= s[i + 1] && s[i + 1] <= 57 {
            proof {
                lemma_digits_end_step(s@, i as int);
                lemma_digits_end_step(s@, i + 1);
                lemma_digits_end(s@, i + 2);
            }
            return None;
        }
        proof {
            lemma_digits_end_step(s@, i as int);
            lemma_digits_end(s@, i + 1);
            assert(digits_end(s@, i + 1) == i + 1);
            assert(digits_val(s@, i as int, i as int) == 0);
            assert(digits_val(s@, i as int, i + 1) == 0);
        }
        return Some((0, i + 1));
    }
    let ghost e = digits_end(s@, i as int);
    proof {
        lemma_digits_end_step(s@, i as int);
        lemma_digits_end(s@, i + 1);
        assert(digits_val(s@, i as int, i as int) == 0);
    }
    let mut val: usize = 0;
    let mut k: usize = i;
    while k < s.len() && 48 <= s[k] && s[k] <= 57
        invariant
            i <= k <= s@.len(),
            i <= e <= s@.len(),
            i < s@.len() && is_digit(s@[i as int]) && s@[i as int] != 48,
            e == digits_end(s@, i as int),
            digits_end(s@, k as int) == e,
            val == digits_val(s@, i as int, k as int),
        decreases s@.len() - k,
    {
        let d = s[k] - 48;
        proof {
            lemma_digits_end_step(s@, k as int);
            lemma_digits_end(s@, k + 1);
        }
        if val > (usize::MAX - d as usize) / 10 {
            proof {
                assert(digits_val(s@, i as int, k + 1) == val * 10 + (d as nat));
                assert(val * 10 + (d as nat) > usize::MAX as nat) by (nonlinear_arith)
                    requires
                        val > (usize::MAX - d as usize) / 10,
                        val >= 0,
                        0 <= d < 10,
                ;
                lemma_digits_val_monotone(s@, i as int, k + 1, e);
            }
            return None;
        }
        proof {
            assert(val * 10 + (d as nat) <= usize::MAX as nat) by (nonlinear_arith)
                requires
                    val <= (usize::MAX - d as usize) / 10,
                    val >= 0,
                    0 <= d < 10,
            ;
        }
        val = val * 10 + d as usize;
        k += 1;
    }
    proof {
        assert(digits_end(s@, k as int) == k as int);
        assert(k == e);
        assert(i < e) by {
            lemma_digits_end_step(s@, i as int);
            lemma_digits_end(s@, i + 1);
        }
    }
    Some((val, k))
}

/// Read the items of a string array, past its closing bracket.
pub fn x_scopes(s: &Vec<u8>, i: usize) -> (r: Option<(Vec<Vec<u8>>, usize)>)
    requires
        i <= s@.len(),
    ensures
        match r {
            Some(p) => sp_scopes(s@, i as int) == Some((p.0.deep_view(), p.1 as int)) && i < p.1
                <= s@.len(),
            None => sp_scopes(s@, i as int) is None,
        },
{
    if i >= s.len() {
        return None;
    }
    if s[i] == 93 {
        let out: Vec<Vec<u8>> = Vec::new();
        assert(out.deep_view() =~~= Seq::<Seq<u8>>::empty());
        return Some((out, i + 1));
    }
    let mut out: Vec<Vec<u8>> = Vec::new();
    match x_jstr(s, i) {
        None => {
            return None;
        },
        Some((v, j0)) => {
            let ghost v0 = v@;
            out.push(v);
            proof {
                assert(out.deep_view() =~~= seq![v0]);
            }
            let mut k: usize = j0;
            loop
                invariant
                    i < k <= s@.len(),
                    match sp_scopes_tail(s@, k as int) {
                        Some(q) => sp_scopes(s@, i as int) == Some(
                            (out.deep_view() + q.0, q.1),
                        ),
                        None => sp_scopes(s@, i as int) is None,
                    },
                decreases s@.len() - k,
            {
                if k >= s.len() {
                    return None;
                }
                if s[k] == 93 {
                    proof {
                        assert(sp_scopes_tail(s@, k as int) == Some(
                            (Seq::<Seq<u8>>::empty(), k + 1),
                        ));
                        assert(out.deep_view() + Seq::<Seq<u8>>::empty() =~= out.deep_view());
                    }
                    return Some((out, k + 1));
                }
                if s[k] != 44 {
                    return None;
                }
                match x_jstr(s, k + 1) {
                    None => {
                        return None;
                    },
                    Some((v2, j2)) => {
                        let ghost dv = out.deep_view();
                        let ghost v2v = v2@;
                        out.push(v2);
                        proof {
                            assert(out.deep_view() =~~= dv.push(v2v));
                            match sp_scopes_tail(s@, j2 as int) {
                                Some(q) => {
                                    assert(dv + (seq![v2v] + q.0) =~= dv.push(v2v) + q.0);
                                },
                                None => {},
                            }
                        }
                        k = j2;
                    },
                }
            }
        },
    }
}

/// Read an optional string value: `null` or a quoted string.
pub fn x_opt(s: &Vec<u8>, i: usize) -> (r: Option<(Option<Vec<u8>>, usize)>)
    requires
        i <= s@.len(),
    ensures
        match r {
            Some(p) => sp_opt(s@, i as int) == Some(
                (
                    match p.0 {
                        Option::None => Option::<Seq<u8>>::None,
                        Option::Some(v) => Option::Some(v@),
                    },
                    p.1 as int,
                ),
            ) && i < p.1 <= s@.len(),
            None => sp_opt(s@, i as int) is None,
        },
{
    if s.len() - i >= 4 && s[i] == 110 && s[i + 1] == 117 && s[i + 2] == 108 && s[i + 3] == 108 {
        return Some((None, i + 4));
    }
    match x_jstr(s, i) {
        None => None,
        Some((v, j)) => Some((Some(v), j)),
    }
}

/// The `lit_aud` literal as runtime bytes.
pub fn lit_aud_vec() -> (v: Vec<u8>)
    ensures
        v@ == lit_aud(),
{
    let mut v: Vec<u8> = Vec::new();
    v.push(123);
    v.push(34);
    v.push(97);
    v.push(117);
    v.push(100);
    v.push(34);
    v.push(58);
    assert(v@ =~= lit_aud());
    v
}

/// The `lit_exp` literal as runtime bytes.
pub fn lit_exp_vec() -> (v: Vec<u8>)
    ensures
        v@ == lit_exp(),
{
    let mut v: Vec<u8> = Vec::new();
    v.push(44);
    v.push(34);
    v.push(101);
    v.push(120);
    v.push(112);
    v.push(34);
    v.push(58);
    assert(v@ =~= lit_exp());
    v
}

/// The `lit_iss` literal as runtime bytes.
pub fn lit_iss_vec() -> (v: Vec<u8>)
    ensures
        v@ == lit_iss(),
{
    let mut v: Vec<u8> = Vec::new();
    v.push(44);
    v.push(34);
    v.push(105);
    v.push(115);
    v.push(115);
    v.push(34);
    v.push(58);
    assert(v@ =~= lit_iss());
    v
}

/// The `lit_client_name` literal as runtime bytes.
pub fn lit_client_name_vec() -> (v: Vec<u8>)
    ensures
        v@ == lit_client_name(),
{
    let mut v: Vec<u8> = Vec::new();
    v.push(44);
    v.push(34);
    v.push(99);
    v.push(108);
    v.push(105);
    v.push(101);
    v.push(110);
    v.push(116);
    v.push(95);
    v.push(110);
    v.push(97);
    v.push(109);
    v.push(101);
    v.push(34);
    v.push(58);
    assert(v@ =~= lit_client_name());
    v
}

/// The `lit_client_id` literal as runtime bytes.
pub fn lit_client_id_vec() -> (v: Vec<u8>)
    ensures
        v@ == lit_client_id(),
{
    let mut v: Vec<u8> = Vec::new();
    v.push(44);
    v.push(34);
    v.push(99);
    v.push(108);
    v.push(105);
    v.push(101);
    v.push(110);
    v.push(116);
    v.push(95);
    v.push(105);
    v.push(100);
    v.push(34);
    v.push(58);
    assert(v@ =~= lit_client_id());
    v
}

/// The `lit_redirect_uri` literal as runtime bytes.
pub fn lit_redirect_uri_vec() -> (v: Vec<u8>)
    ensures
        v@ == lit_redirect_uri(),
{
    let mut v: Vec<u8> = Vec::new();
    v.push(44);
    v.push(34);
    v.push(114);
    v.push(101);
    v.push(100);
    v.push(105);
    v.push(114);
    v.push(101);
    v.push(99);
    v.push(116);
    v.push(95);
    v.push(117);
    v.push(114);
    v.push(105);
    v.push(34);
    v.push(58);
    assert(v@ =~= lit_redirect_uri());
    v
}

/// The `lit_scopes` literal as runtime bytes.
pub fn lit_scopes_vec() -> (v: Vec<u8>)
    ensures
        v@ == lit_scopes(),
{
    let mut v: Vec<u8> = Vec::new();
    v.push(44);
    v.push(34);
    v.push(115);
    v.push(99);
    v.push(111);
    v.push(112);
    v.push(101);
    v.push(115);
    v.push(34);
    v.push(58);
    v.push(91);
    assert(v@ =~= lit_scopes());
    v
}

/// The `lit_state` literal as runtime bytes.
pub fn lit_state_vec() -> (v: Vec<u8>)
    ensures
        v@ == lit_state(),
{
    let mut v: Vec<u8> = Vec::new();
    v.push(44);
    v.push(34);
    v.push(115);
    v.push(116);
    v.push(97);
    v.push(116);
    v.push(101);
    v.push(34);
    v.push(58);
    assert(v@ =~= lit_state());
    v
}

/// The `lit_nonce` literal as runtime bytes.
pub fn lit_nonce_vec() -> (v: Vec<u8>)
    ensures
        v@ == lit_nonce(),
{
    let mut v: Vec<u8> = Vec::new();
    v.push(44);
    v.push(34);
    v.push(110);
    v.push(111);
    v.push(110);
    v.push(99);
    v.push(101);
    v.push(34);
    v.push(58);
    assert(v@ =~= lit_nonce());
    v
}

/// The `lit_end` literal as runtime bytes.
pub fn lit_end_vec() -> (v: Vec<u8>)
    ensures
        v@ == lit_end(),
{
    let mut v: Vec<u8> = Vec::new();
    v.push(125);
    assert(v@ =~= lit_end());
    v
}

/// Append one byte string to another.
pub fn append_bytes(out: &mut Vec<u8>, more: &Vec<u8>)
    ensures
        final(out)@ == old(out)@ + more@,
{
    let mut i: usize = 0;
    while i < more.len()
        invariant
            i <= more@.len(),
            out@ == old(out)@ + more@.take(i as int),
        decreases more@.len() - i,
    {
        out.push(more[i]);
        proof {
            assert(old(out)@ + more@.take(i + 1) =~= (old(out)@ + more@.take(i as int)).push(
                more@[i as int],
            ));
        }
        i += 1;
    }
    assert(more@.take(more@.len() as int) =~= more@);
}

/// Copy a byte range out of a vector.
pub fn subvec(v: &Vec<u8>, a: usize, b: usize) -> (r: Vec<u8>)
    requires
        a <= b <= v@.len(),
    ensures
        r@ == v@.subrange(a as int, b as int),
{
    let mut r: Vec<u8> = Vec::new();
    let mut i: usize = a;
    while i < b
        invariant
            a <= i <= b <= v@.len(),
            r@ == v@.subrange(a as int, i as int),
        decreases b - i,
    {
        r.push(v[i]);
        proof {
            assert(v@.subrange(a as int, i + 1) =~= v@.subrange(a as int, i as int).push(
                v@[i as int],
            ));
        }
        i += 1;
    }
    r
}

/// Whether two byte vectors hold the same bytes.
pub fn vec_eq(a: &Vec<u8>, b: &Vec<u8>) -> (r: bool)
    ensures
        r == (a@ == b@),
{
    if a.len() != b.len() {
        return false;
    }
    let mut i: usize = 0;
    while i < a.len()
        invariant
            i <= a@.len(),
            a@.len() == b@.len(),
            forall|j: int| 0 <= j < i ==> a@[j] == b@[j],
        decreases a@.len() - i,
    {
        if a[i] != b[i] {
            return false;
        }
        i += 1;
    }
    proof {
        assert(a@ =~= b@);
    }
    true
}

} // verus!
