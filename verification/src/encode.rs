use vstd::prelude::*;

verus! {

/// A byte that stands for itself in a percent-encoded field: an ASCII
/// letter, a digit, or one of `-` `.` `_` `~`. Every other byte is escaped.
pub open spec fn is_unreserved(b: u8) -> bool {
    (0x41 <= b && b <= 0x5a)  // A-Z
    || (0x61 <= b && b <= 0x7a)  // a-z
    || (0x30 <= b && b <= 0x39)  // 0-9
    || b == 0x2d || b == 0x2e || b == 0x5f || b == 0x7e
}

/// The ASCII code of the upper-case hexadecimal digit for `n < 16`.
pub open spec fn hex_digit(n: u8) -> u8
    recommends
        n < 16,
{
    if n < 10 {
        (0x30 + n) as u8
    } else {
        (0x37 + n) as u8
    }
}

/// The value of a hexadecimal digit byte; both letter cases are read.
pub open spec fn hex_val(b: u8) -> Option<u8> {
    if 0x30 <= b && b <= 0x39 {
        Some((b - 0x30) as u8)
    } else if 0x41 <= b && b <= 0x46 {
        Some((b - 0x37) as u8)
    } else if 0x61 <= b && b <= 0x66 {
        Some((b - 0x57) as u8)
    } else {
        None
    }
}

/// How one byte appears in a percent-encoded field: itself when unreserved,
/// otherwise `%` followed by its two hexadecimal digits.
pub open spec fn encode_byte(b: u8) -> Seq<u8> {
    if is_unreserved(b) {
        seq![b]
    } else {
        seq![0x25u8, hex_digit(b / 16), hex_digit(b % 16)]
    }
}

/// Percent-encoding of a byte string.
pub open spec fn percent_encode_spec(s: Seq<u8>) -> Seq<u8>
    decreases s.len(),
{
    if s.len() == 0 {
        Seq::empty()
    } else {
        encode_byte(s[0]) + percent_encode_spec(s.drop_first())
    }
}

/// Percent-decoding of a byte string; `None` on a truncated or malformed
/// escape sequence.
pub open spec fn percent_decode_spec(s: Seq<u8>) -> Option<Seq<u8>>
    decreases s.len(),
{
    if s.len() == 0 {
        Some(Seq::empty())
    } else if s[0] == 0x25 {
        if s.len() >= 3 && hex_val(s[1]) is Some && hex_val(s[2]) is Some {
            match percent_decode_spec(s.skip(3)) {
                Some(rest) => Some(
                    seq![(hex_val(s[1]).unwrap() * 16 + hex_val(s[2]).unwrap()) as u8] + rest,
                ),
                None => None,
            }
        } else {
            None
        }
    } else {
        match percent_decode_spec(s.drop_first()) {
            Some(rest) => Some(seq![s[0]] + rest),
            None => None,
        }
    }
}

fn byte_is_unreserved(b: u8) -> (r: bool)
    ensures
        r == is_unreserved(b),
{
    (0x41 <= b && b <= 0x5a) || (0x61 <= b && b <= 0x7a) || (0x30 <= b && b <= 0x39) || b == 0x2d
        || b == 0x2e || b == 0x5f || b == 0x7e
}

fn hex_digit_byte(n: u8) -> (r: u8)
    requires
        n < 16,
    ensures
        r == hex_digit(n),
{
    if n < 10 {
        0x30 + n
    } else {
        0x37 + n
    }
}

fn hex_value(b: u8) -> (r: Option<u8>)
    ensures
        r == hex_val(b),
{
    if 0x30 <= b && b <= 0x39 {
        Some(b - 0x30)
    } else if 0x41 <= b && b <= 0x46 {
        Some(b - 0x37)
    } else if 0x61 <= b && b <= 0x66 {
        Some(b - 0x57)
    } else {
        None
    }
}

/// Percent-encode a byte string: unreserved bytes pass through, every other
/// byte becomes a `%XX` escape.
pub fn percent_encode(s: &Vec<u8>) -> (r: Vec<u8>)
    ensures
        r@ == percent_encode_spec(s@),
{
    let mut out: Vec<u8> = Vec::new();
    let mut i: usize = 0;
    proof {
        assert(s@.skip(0) =~= s@);
    }
    while i < s.len()
        invariant
            i <= s@.len(),
            percent_encode_spec(s@) == out@ + percent_encode_spec(s@.skip(i as int)),
        decreases s@.len() - i,
    {
        let b = s[i];
        proof {
            assert(s@.skip(i as int)[0] == s@[i as int]);
            assert(s@.skip(i as int).drop_first() =~= s@.skip(i as int + 1));
        }
        if byte_is_unreserved(b) {
            out.push(b);
        } else {
            out.push(0x25);
            out.push(hex_digit_byte(b / 16));
            out.push(hex_digit_byte(b % 16));
        }
        i += 1;
    }
    proof {
        assert(s@.skip(s@.len() as int) =~= Seq::<u8>::empty());
        assert(out@ =~= percent_encode_spec(s@));
    }
    out
}

/// Percent-decode a byte string; `None` exactly when it holds a truncated or
/// malformed escape sequence.
pub fn percent_decode(s: &Vec<u8>) -> (r: Option<Vec<u8>>)
    ensures
        match r {
            Some(v) => percent_decode_spec(s@) == Some(v@),
            None => percent_decode_spec(s@) is None,
        },
{
    let mut out: Vec<u8> = Vec::new();
    let mut i: usize = 0;
    proof {
        assert(s@.skip(0) =~= s@);
    }
    while i < s.len()
        invariant
            i <= s@.len(),
            percent_decode_spec(s@.skip(i as int)) is Some ==> percent_decode_spec(s@)
                == Some(out@ + percent_decode_spec(s@.skip(i as int)).unwrap()),
            percent_decode_spec(s@.skip(i as int)) is None ==> percent_decode_spec(s@) is None,
        decreases s@.len() - i,
    {
        let b = s[i];
        proof {
            assert(s@.skip(i as int)[0] == s@[i as int]);
            assert(s@.skip(i as int).drop_first() =~= s@.skip(i as int + 1));
        }
        if b == 0x25 {
            if s.len() - i < 3 {
                proof {
                    assert(s@.skip(i as int).len() < 3);
                }
                return None;
            }
            proof {
                assert(s@.skip(i as int)[1] == s@[i as int + 1]);
                assert(s@.skip(i as int)[2] == s@[i as int + 2]);
                assert(s@.skip(i as int).skip(3) =~= s@.skip(i as int + 3));
            }
            let hi = hex_value(s[i + 1]);
            let lo = hex_value(s[i + 2]);
            match (hi, lo) {
                (Some(h), Some(l)) => {
                    out.push(h * 16 + l);
                    i += 3;
                },
                _ => {
                    return None;
                },
            }
        } else {
            out.push(b);
            i += 1;
        }
    }
    proof {
        assert(s@.skip(s@.len() as int) =~= Seq::<u8>::empty());
    }
    Some(out)
}

/// Reading back an upper-case hexadecimal digit gives the value it encodes.
pub proof fn lemma_hex_roundtrip(n: u8)
    requires
        n < 16,
    ensures
        hex_val(hex_digit(n)) == Some(n),
{
}

/// Decoding inverts encoding: every byte string comes back unchanged, so no
/// information is lost by escaping a field.
pub proof fn lemma_percent_roundtrip(s: Seq<u8>)
    ensures
        percent_decode_spec(percent_encode_spec(s)) == Some(s),
    decreases s.len(),
{
    if s.len() == 0 {
        assert(s =~= Seq::<u8>::empty());
    } else {
        let b = s[0];
        let rest = s.drop_first();
        lemma_percent_roundtrip(rest);
        let e = percent_encode_spec(s);
        if is_unreserved(b) {
            assert(e == seq![b] + percent_encode_spec(rest));
            assert(e[0] == b);
            assert(e.drop_first() =~= percent_encode_spec(rest));
            assert(seq![b] + rest =~= s);
        } else {
            let h = hex_digit(b / 16);
            let l = hex_digit(b % 16);
            assert(e == seq![0x25u8, h, l] + percent_encode_spec(rest));
            assert(e[0] == 0x25 && e[1] == h && e[2] == l);
            assert(e.len() >= 3);
            lemma_hex_roundtrip(b / 16);
            lemma_hex_roundtrip(b % 16);
            assert(e.skip(3) =~= percent_encode_spec(rest));
            assert((b / 16) * 16 + b % 16 == b) by {
                vstd::arithmetic::div_mod::lemma_fundamental_div_mod(b as int, 16);
            };
            assert(seq![b] + rest =~= s);
        }
    }
}

/// Every byte of an encoded field is unreserved or a `%`; in particular the
/// target delimiters `:` `/` `?` `@` never occur inside an encoded field.
pub proof fn lemma_encoded_bytes_safe(s: Seq<u8>)
    ensures
        forall|i: int|
            0 <= i < percent_encode_spec(s).len() ==> is_unreserved(
                #[trigger] percent_encode_spec(s)[i],
            ) || percent_encode_spec(s)[i] == 0x25,
    decreases s.len(),
{
    if s.len() > 0 {
        lemma_encoded_bytes_safe(s.drop_first());
        let e = percent_encode_spec(s);
        let head = encode_byte(s[0]);
        assert forall|i: int| 0 <= i < e.len() implies is_unreserved(#[trigger] e[i]) || e[i]
            == 0x25 by {
            if i < head.len() {
                assert(e[i] == head[i]);
            } else {
                assert(e[i] == percent_encode_spec(s.drop_first())[i - head.len()]);
            }
        }
    }
}

} // verus!
