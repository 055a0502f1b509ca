//! Base64 with the standard alphabet of RFC 4648 and `=` padding.
//!
//! Encoding always pads the output to a multiple of four symbols; decoding
//! accepts exactly the strings that encoding can produce.
use vstd::prelude::*;

verus! {

/// The alphabet symbol (as a byte) that stands for the 6-bit value `v`.
pub open spec fn symbol(v: int) -> u8 {
    if v < 26 {
        (65 + v) as u8
    } else if v < 52 {
        (71 + v) as u8
    } else if v < 62 {
        (v - 4) as u8
    } else if v == 62 {
        43u8
    } else {
        47u8
    }
}

/// The 6-bit value of an alphabet symbol; `None` for every other byte,
/// the padding byte included.
pub open spec fn symbol_value(b: u8) -> Option<int> {
    if 65 <= b <= 90 {
        Some(b - 65)
    } else if 97 <= b <= 122 {
        Some(b - 71)
    } else if 48 <= b <= 57 {
        Some(b + 4)
    } else if b == 43 {
        Some(62)
    } else if b == 47 {
        Some(63)
    } else {
        None
    }
}

/// The padding byte `=`.
pub open spec fn pad() -> u8 {
    61u8
}

/// The four symbols that encode the three bytes `a`, `b`, `c`.
pub open spec fn encode_triple(a: u8, b: u8, c: u8) -> Seq<u8> {
    seq![symbol((a / 4) as int), symbol((a % 4) * 16 + b / 16), symbol((b % 16) * 4 + c / 64), symbol((c % 64) as int)]
}

/// The four symbols that encode the two final bytes `a`, `b`.
pub open spec fn encode_pair(a: u8, b: u8) -> Seq<u8> {
    seq![symbol((a / 4) as int), symbol((a % 4) * 16 + b / 16), symbol((b % 16) * 4), pad()]
}

/// The four symbols that encode the single final byte `a`.
pub open spec fn encode_single(a: u8) -> Seq<u8> {
    seq![symbol((a / 4) as int), symbol((a % 4) * 16), pad(), pad()]
}

/// The padded Base64 encoding of `s`, as bytes.
pub open spec fn encode_spec(s: Seq<u8>) -> Seq<u8>
    decreases s.len(),
{
    if s.len() == 0 {
        seq![]
    } else if s.len() == 1 {
        encode_single(s[0])
    } else if s.len() == 2 {
        encode_pair(s[0], s[1])
    } else {
        encode_triple(s[0], s[1], s[2]) + encode_spec(s.skip(3))
    }
}

/// The byte that is the first of three carried by 6-bit values `w`, `x`.
pub open spec fn first_byte(w: int, x: int) -> u8 {
    (w * 4 + x / 16) as u8
}

/// The second of the three bytes carried by 6-bit values `x`, `y`.
pub open spec fn second_byte(x: int, y: int) -> u8 {
    ((x % 16) * 16 + y / 4) as u8
}

/// The third of the three bytes carried by 6-bit values `y`, `z`.
pub open spec fn third_byte(y: int, z: int) -> u8 {
    ((y % 4) * 64 + z) as u8
}

/// The bytes that four symbols stand for. `last` tells whether they are the
/// final four of the input: only there may padding appear, and the bits that
/// padding drops must be zero.
pub open spec fn decode_quad(q0: u8, q1: u8, q2: u8, q3: u8, last: bool) -> Option<Seq<u8>> {
    match (symbol_value(q0), symbol_value(q1), symbol_value(q2), symbol_value(q3)) {
        (Some(w), Some(x), Some(y), Some(z)) => Some(
            seq![first_byte(w, x), second_byte(x, y), third_byte(y, z)],
        ),
        (Some(w), Some(x), Some(y), None) => if last && q3 == pad() && y % 4 == 0 {
            Some(seq![first_byte(w, x), second_byte(x, y)])
        } else {
            None
        },
        (Some(w), Some(x), None, None) => if last && q2 == pad() && q3 == pad() && x % 16 == 0 {
            Some(seq![first_byte(w, x)])
        } else {
            None
        },
        _ => None,
    }
}

/// The bytes that the padded Base64 text `s` stands for, or `None` when `s`
/// is not such a text.
pub open spec fn decode_spec(s: Seq<u8>) -> Option<Seq<u8>>
    decreases s.len(),
{
    if s.len() == 0 {
        Some(seq![])
    } else if s.len() < 4 {
        None
    } else {
        match decode_quad(s[0], s[1], s[2], s[3], s.len() == 4) {
            None => None,
            Some(g) => match decode_spec(s.skip(4)) {
                None => None,
                Some(rest) => Some(g + rest),
            },
        }
    }
}

/// Why a text could not be decoded.
#[derive(Debug, Clone, Copy, PartialEq, Eq)]
pub enum DecodeError {
    /// The length of the text is not a multiple of four.
    InvalidLength,
    /// The length is right, but a byte is not an alphabet symbol where one
    /// is needed, padding stands where it may not, or padding drops bits
    /// that are not zero.
    InvalidSymbol,
}

/// The error that decoding `s` reports when it fails.
pub open spec fn decode_error_spec(s: Seq<u8>) -> DecodeError {
    if s.len() % 4 != 0 {
        DecodeError::InvalidLength
    } else {
        DecodeError::InvalidSymbol
    }
}

proof fn lemma_symbol_roundtrip(v: int)
    requires
        0 <= v < 64,
    ensures
        symbol_value(symbol(v)) == Some(v),
{
}

proof fn lemma_value_roundtrip(b: u8)
    requires
        symbol_value(b) is Some,
    ensures
        0 <= symbol_value(b)->0 < 64,
        symbol(symbol_value(b)->0) == b,
{
}

proof fn lemma_split_join(a: u8, b: u8, c: u8)
    ensures
        0 <= a / 4 < 64,
        0 <= (a % 4) * 16 + b / 16 < 64,
        0 <= (b % 16) * 4 + c / 64 < 64,
        0 <= c % 64 < 64,
        first_byte((a / 4) as int, (a % 4) * 16 + b / 16) == a,
        second_byte((a % 4) * 16 + b / 16, (b % 16) * 4 + c / 64) == b,
        third_byte((b % 16) * 4 + c / 64, (c % 64) as int) == c,
{
    assert((a / 4) * 4 + ((a % 4) * 16 + b / 16) / 16 == a) by (nonlinear_arith);
    assert((((a % 4) * 16 + b / 16) % 16) * 16 + ((b % 16) * 4 + c / 64) / 4 == b) by (nonlinear_arith);
    assert((((b % 16) * 4 + c / 64) % 4) * 64 + c % 64 == c) by (nonlinear_arith);
}

proof fn lemma_join_split(w: int, x: int, y: int, z: int)
    requires
        0 <= w < 64,
        0 <= x < 64,
        0 <= y < 64,
        0 <= z < 64,
    ensures
        first_byte(w, x) / 4 == w,
        (first_byte(w, x) % 4) * 16 + second_byte(x, y) / 16 == x,
        (second_byte(x, y) % 16) * 4 + third_byte(y, z) / 64 == y,
        third_byte(y, z) % 64 == z,
        y % 4 == 0 ==> (second_byte(x, y) % 16) * 4 == y,
        x % 16 == 0 ==> (first_byte(w, x) % 4) * 16 == x,
{
    assert(0 <= w * 4 + x / 16 < 256) by (nonlinear_arith)
        requires 0 <= w < 64, 0 <= x < 64;
    assert(0 <= (x % 16) * 16 + y / 4 < 256) by (nonlinear_arith)
        requires 0 <= x < 64, 0 <= y < 64;
    assert(0 <= (y % 4) * 64 + z < 256) by (nonlinear_arith)
        requires 0 <= y < 64, 0 <= z < 64;
    assert((w * 4 + x / 16) / 4 == w) by (nonlinear_arith)
        requires 0 <= w < 64, 0 <= x < 64;
    assert(((w * 4 + x / 16) % 4) * 16 + ((x % 16) * 16 + y / 4) / 16 == x) by (nonlinear_arith)
        requires 0 <= w < 64, 0 <= x < 64, 0 <= y < 64;
    assert((((x % 16) * 16 + y / 4) % 16) * 4 + ((y % 4) * 64 + z) / 64 == y) by (nonlinear_arith)
        requires 0 <= x < 64, 0 <= y < 64, 0 <= z < 64;
    assert(((y % 4) * 64 + z) % 64 == z) by (nonlinear_arith)
        requires 0 <= y < 64, 0 <= z < 64;
    assert(y % 4 == 0 ==> (((x % 16) * 16 + y / 4) % 16) * 4 == y) by (nonlinear_arith)
        requires 0 <= x < 64, 0 <= y < 64;
    assert(x % 16 == 0 ==> ((w * 4 + x / 16) % 4) * 16 == x) by (nonlinear_arith)
        requires 0 <= w < 64, 0 <= x < 64;
}

/// The encoding speaks RFC 4648's alphabet: the value `v` is written as the
/// letter `A` + `v` below 26, `a` + (`v` - 26) below 52, the digit `0` +
/// (`v` - 52) below 62, then `+` and `/`; and each of those symbols is read
/// back as its value. The first symbol of every non-empty encoding is the
/// alphabet's symbol for the top six bits of the first byte.
pub proof fn law_alphabet_is_rfc4648(s: Seq<u8>)
    ensures
        forall|v: int| 0 <= v < 26 ==> #[trigger] symbol(v) == ('A' as u8) + v,
        forall|v: int| 26 <= v < 52 ==> #[trigger] symbol(v) == ('a' as u8) + (v - 26),
        forall|v: int| 52 <= v < 62 ==> #[trigger] symbol(v) == ('0' as u8) + (v - 52),
        symbol(62) == '+' as u8,
        symbol(63) == '/' as u8,
        forall|v: int| 0 <= v < 64 ==> symbol_value(#[trigger] symbol(v)) == Some(v),
        s.len() > 0 ==> encode_spec(s)[0] == (if s[0] / 4 < 26 {
            ('A' as u8) + s[0] / 4
        } else if s[0] / 4 < 52 {
            ('a' as u8) + (s[0] / 4 - 26)
        } else if s[0] / 4 < 62 {
            ('0' as u8) + (s[0] / 4 - 52)
        } else if s[0] / 4 == 62 {
            '+' as u8 as int
        } else {
            '/' as u8 as int
        }),
{
    if s.len() > 0 {
        assert(encode_spec(s)[0] == symbol((s[0] / 4) as int));
    }
}

/// Decoding gives back what was encoded: for every byte sequence `s`,
/// decoding the encoding of `s` succeeds with `s`.
pub proof fn law_decode_encode(s: Seq<u8>)
    ensures
        decode_spec(encode_spec(s)) == Some(s),
    decreases s.len(),
{
    let e = encode_spec(s);
    if s.len() == 0 {
    } else if s.len() <= 2 {
        let b1: u8 = if s.len() == 2 { s[1] } else { 0u8 };
        lemma_split_join(s[0], b1, 0u8);
        lemma_symbol_roundtrip((s[0] / 4) as int);
        lemma_symbol_roundtrip((s[0] % 4) * 16 + b1 / 16);
        lemma_symbol_roundtrip((b1 % 16) * 4);
        assert(e.skip(4) =~= Seq::<u8>::empty());
        assert(decode_spec(e.skip(4)) == Some(Seq::<u8>::empty()));
        assert((s[0] % 4) * 16 == (s[0] % 4) * 16 + 0u8 / 16);
        if s.len() == 2 {
            assert((b1 % 16) * 4 == (b1 % 16) * 4 + 0u8 / 64);
            assert(((b1 % 16) * 4) % 4 == 0) by (nonlinear_arith);
            assert(s =~= seq![s[0], s[1]]);
        } else {
            assert(((s[0] % 4) * 16) % 16 == 0) by (nonlinear_arith);
            assert(s =~= seq![s[0]]);
        }
    } else {
        let (a, b, c) = (s[0], s[1], s[2]);
        lemma_split_join(a, b, c);
        lemma_symbol_roundtrip((a / 4) as int);
        lemma_symbol_roundtrip((a % 4) * 16 + b / 16);
        lemma_symbol_roundtrip((b % 16) * 4 + c / 64);
        lemma_symbol_roundtrip((c % 64) as int);
        law_decode_encode(s.skip(3));
        assert(e.skip(4) =~= encode_spec(s.skip(3)));
        assert(s =~= seq![a, b, c] + s.skip(3));
        if s.len() == 3 {
            assert(s.skip(3) =~= Seq::<u8>::empty());
            assert(e.len() == 4);
        } else {
            assert(e.len() > 4);
        }
    }
}

/// Encoding gives back what was decoded: whenever decoding the text `t`
/// succeeds with `s`, encoding `s` yields `t` again, so every text has at
/// most one accepted spelling.
pub proof fn law_encode_decode(t: Seq<u8>)
    ensures
        decode_spec(t) matches Some(s) ==> encode_spec(s) == t,
    decreases t.len(),
{
    if t.len() >= 4 {
        if let Some(s) = decode_spec(t) {
            let g = decode_quad(t[0], t[1], t[2], t[3], t.len() == 4)->0;
            let rest = decode_spec(t.skip(4))->0;
            law_encode_decode(t.skip(4));
            lemma_value_roundtrip(t[0]);
            lemma_value_roundtrip(t[1]);
            let w = symbol_value(t[0])->0;
            let x = symbol_value(t[1])->0;
            if symbol_value(t[3]) is Some {
                lemma_value_roundtrip(t[2]);
                lemma_value_roundtrip(t[3]);
                let y = symbol_value(t[2])->0;
                let z = symbol_value(t[3])->0;
                lemma_join_split(w, x, y, z);
                assert(s =~= seq![first_byte(w, x), second_byte(x, y), third_byte(y, z)] + rest);
                assert(s.skip(3) =~= rest);
                if rest.len() == 0 {
                    assert(t.len() == 4) by {
                        if t.len() > 4 {
                            assert(decode_spec(t.skip(4)) is Some);
                        }
                    }
                }
                assert(encode_spec(s) =~= t);
            } else if symbol_value(t[2]) is Some {
                lemma_value_roundtrip(t[2]);
                let y = symbol_value(t[2])->0;
                lemma_join_split(w, x, y, 0);
                assert(t.skip(4) =~= Seq::<u8>::empty());
                assert(s =~= seq![first_byte(w, x), second_byte(x, y)]);
                assert(encode_spec(s) =~= t);
            } else {
                lemma_join_split(w, x, 0, 0);
                assert(t.skip(4) =~= Seq::<u8>::empty());
                assert(s =~= seq![first_byte(w, x)]);
                assert(encode_spec(s) =~= t);
            }
        }
    }
}

fn symbol_byte(v: u8) -> (b: u8)
    requires
        v < 64,
    ensures
        b == symbol(v as int),
{
    if v < 26 {
        65 + v
    } else if v < 52 {
        71 + v
    } else if v < 62 {
        v - 4
    } else if v == 62 {
        43
    } else {
        47
    }
}

fn value_of(b: u8) -> (res: Option<u8>)
    ensures
        match symbol_value(b) {
            Some(v) => res == Some(v as u8) && v < 64,
            None => res is None,
        },
{
    if 65 <= b && b <= 90 {
        Some(b - 65)
    } else if 97 <= b && b <= 122 {
        Some(b - 71)
    } else if 48 <= b && b <= 57 {
        Some(b + 4)
    } else if b == 43 {
        Some(62)
    } else if b == 47 {
        Some(63)
    } else {
        None
    }
}

/// The Base64 encoding of `input` as bytes.
fn encode_bytes(input: &[u8]) -> (out: Vec<u8>)
    ensures
        out@ == encode_spec(input@),
{
    let n = input.len();
    let mut out: Vec<u8> = Vec::new();
    let mut i: usize = 0;
    assert(input@.skip(0) =~= input@);
    while i < n
        invariant
            n == input@.len(),
            i <= n,
            encode_spec(input@) == out@ + encode_spec(input@.skip(i as int)),
        decreases n - i,
    {
        let rest = Ghost(input@.skip(i as int));
        let a = input[i];
        if n - i == 1 {
            out.push(symbol_byte(a / 4));
            out.push(symbol_byte((a % 4) * 16));
            out.push(61);
            out.push(61);
            i = n;
        } else if n - i == 2 {
            let b = input[i + 1];
            out.push(symbol_byte(a / 4));
            out.push(symbol_byte((a % 4) * 16 + b / 16));
            out.push(symbol_byte((b % 16) * 4));
            out.push(61);
            i = n;
        } else {
            let b = input[i + 1];
            let c = input[i + 2];
            out.push(symbol_byte(a / 4));
            out.push(symbol_byte((a % 4) * 16 + b / 16));
            out.push(symbol_byte((b % 16) * 4 + c / 64));
            out.push(symbol_byte(c % 64));
            assert(rest@.skip(3) =~= input@.skip(i + 3));
            i = i + 3;
        }
        assert(encode_spec(input@) =~= out@ + encode_spec(input@.skip(i as int)));
    }
    assert(input@.skip(n as int) =~= Seq::<u8>::empty());
    assert(out@ =~= out@ + encode_spec(input@.skip(n as int)));
    out
}

/// The padded Base64 encoding of `input`.
pub fn encode(input: &[u8]) -> (res: String)
    ensures
        res@ == encode_spec(input@).map_values(|b: u8| b as char),
{
    let bytes = encode_bytes(input);
    let mut res = String::new();
    let mut k: usize = 0;
    while k < bytes.len()
        invariant
            k <= bytes.len(),
            res@ =~= bytes@.subrange(0, k as int).map_values(|b: u8| b as char),
        decreases bytes.len() - k,
    {
        crate::text::push_char(&mut res, bytes[k] as char);
        k = k + 1;
        assert(res@ =~= bytes@.subrange(0, k as int).map_values(|b: u8| b as char));
    }
    assert(bytes@.subrange(0, bytes.len() as int) =~= bytes@);
    res
}

/// The bytes that the padded Base64 text `input` stands for.
///
/// Fails with `InvalidLength` when the length of `input` is not a multiple
/// of four, and with `InvalidSymbol` when it is but `input` is not the
/// encoding of any byte sequence.
pub fn decode(input: &[u8]) -> (res: Result<Vec<u8>, DecodeError>)
    ensures
        match decode_spec(input@) {
            Some(v) => res matches Ok(out) && out@ == v,
            None => res == Err::<Vec<u8>, DecodeError>(decode_error_spec(input@)),
        },
{
    let n = input.len();
    proof {
        lemma_decode_length(input@);
    }
    if n % 4 != 0 {
        return Err(DecodeError::InvalidLength);
    }
    let mut out: Vec<u8> = Vec::new();
    let mut i: usize = 0;
    assert(input@.skip(0) =~= input@);
    while i < n
        invariant
            n == input@.len(),
            n % 4 == 0,
            i <= n,
            i % 4 == 0,
            decode_spec(input@.skip(i as int)) matches Some(rest) ==> decode_spec(input@)
                == Some(out@ + rest),
            decode_spec(input@.skip(i as int)) is None ==> decode_spec(input@) is None,
        decreases n - i,
    {
        let ghost rest = input@.skip(i as int);
        assert(rest.skip(4) =~= input@.skip(i + 4));
        let last = n - i == 4;
        let q0 = value_of(input[i]);
        let q1 = value_of(input[i + 1]);
        let q2 = value_of(input[i + 2]);
        let q3 = value_of(input[i + 3]);
        assert(rest[0] == input@[i as int] && rest[1] == input@[i + 1] && rest[2] == input@[i + 2]
            && rest[3] == input@[i + 3]);
        let ghost before = out@;
        match (q0, q1, q2, q3) {
            (Some(w), Some(x), Some(y), Some(z)) => {
                out.push(w * 4 + x / 16);
                out.push((x % 16) * 16 + y / 4);
                out.push((y % 4) * 64 + z);
                assert(out@ =~= before + decode_quad(rest[0], rest[1], rest[2], rest[3], last)->0);
            },
            (Some(w), Some(x), Some(y), None) => {
                if last && input[i + 3] == 61 && y % 4 == 0 {
                    out.push(w * 4 + x / 16);
                    out.push((x % 16) * 16 + y / 4);
                    assert(out@ =~= before + decode_quad(rest[0], rest[1], rest[2], rest[3], last)->0);
                } else {
                    return Err(DecodeError::InvalidSymbol);
                }
            },
            (Some(w), Some(x), None, None) => {
                if last && input[i + 2] == 61 && input[i + 3] == 61 && x % 16 == 0 {
                    out.push(w * 4 + x / 16);
                    assert(out@ =~= before + decode_quad(rest[0], rest[1], rest[2], rest[3], last)->0);
                } else {
                    return Err(DecodeError::InvalidSymbol);
                }
            },
            _ => {
                return Err(DecodeError::InvalidSymbol);
            },
        }
        i = i + 4;
        proof {
            if let Some(r) = decode_spec(input@.skip(i as int)) {
                assert(out@ + r =~= before + (decode_quad(rest[0], rest[1], rest[2], rest[3], last)->0 + r));
            }
        }
    }
    assert(input@.skip(n as int) =~= Seq::<u8>::empty());
    assert(out@ + Seq::<u8>::empty() =~= out@);
    Ok(out)
}

proof fn lemma_decode_length(s: Seq<u8>)
    ensures
        s.len() % 4 != 0 ==> decode_spec(s) is None,
    decreases s.len(),
{
    if s.len() >= 4 {
        lemma_decode_length(s.skip(4));
    }
}

} // verus!
