use crate::encode::is_unreserved;
use crate::encode::lemma_encoded_bytes_safe;
use crate::encode::lemma_percent_roundtrip;
use crate::encode::percent_decode_spec;
use crate::encode::percent_encode;
use crate::encode::percent_encode_spec;
use crate::models::ConnectionConfig;
use vstd::prelude::*;
use vstd::string::StrSliceExecFns;
use vstd::string::StringExecFns;
use vstd::utf8::decode_utf8;
use vstd::utf8::encode_utf8;
use vstd::utf8::encode_utf8_decode_utf8;

verus! {

/// The characters with the same code points as an ASCII byte string.
pub open spec fn ascii_chars(b: Seq<u8>) -> Seq<char> {
    Seq::new(b.len(), |i: int| b[i] as char)
}

/// The bytes with the same code points as a string of ASCII characters.
pub open spec fn chars_bytes(s: Seq<char>) -> Seq<u8> {
    Seq::new(s.len(), |i: int| s[i] as u8)
}

/// A field as it stands in the connection target: its UTF-8 bytes,
/// percent-encoded.
pub open spec fn encoded_field(s: Seq<char>) -> Seq<char> {
    ascii_chars(percent_encode_spec(encode_utf8(s)))
}

/// Decimal digit bytes of `n`, most significant first; empty for zero.
pub open spec fn decimal_bytes(n: int) -> Seq<u8>
    decreases n,
{
    if n <= 0 {
        Seq::empty()
    } else {
        decimal_bytes(n / 10) + seq![(0x30 + n % 10) as u8]
    }
}

/// Decimal digit bytes of a port number; zero is written as one digit.
pub open spec fn port_bytes(n: int) -> Seq<u8> {
    if n == 0 {
        seq![0x30u8]
    } else {
        decimal_bytes(n)
    }
}

fn decimal_digits_rec(n: u16) -> (r: Vec<u8>)
    ensures
        r@ == decimal_bytes(n as int),
    decreases n,
{
    if n == 0 {
        let v: Vec<u8> = Vec::new();
        proof {
            assert(v@ =~= decimal_bytes(0));
        }
        v
    } else {
        let mut r = decimal_digits_rec(n / 10);
        r.push(0x30 + (n % 10) as u8);
        r
    }
}

/// The decimal digits of a port number, as ASCII bytes.
pub fn decimal_digits(n: u16) -> (r: Vec<u8>)
    ensures
        r@ == port_bytes(n as int),
{
    if n == 0 {
        let mut v: Vec<u8> = Vec::new();
        v.push(0x30);
        proof {
            assert(v@ =~= port_bytes(0));
        }
        v
    } else {
        decimal_digits_rec(n)
    }
}

/// Relies on `String::from_utf8`: a byte string that is entirely ASCII is
/// valid UTF-8 and decodes to the characters with the same code points.
#[verifier::external_body]
fn ascii_string(v: Vec<u8>) -> (r: String)
    requires
        forall|i: int| 0 <= i < v@.len() ==> v@[i] < 0x80,
    ensures
        r@ == ascii_chars(v@),
{
    String::from_utf8(v).unwrap()
}

/// Percent-encode one caller-supplied field for inclusion in the target.
pub fn encode_field(s: &str) -> (r: String)
    ensures
        r@ == encoded_field(s@),
{
    let bytes = s.as_bytes_vec();
    let enc = percent_encode(&bytes);
    proof {
        lemma_encoded_bytes_safe(bytes@);
        assert forall|i: int| 0 <= i < enc@.len() implies enc@[i] < 0x80 by {
            assert(is_unreserved(percent_encode_spec(bytes@)[i]) || percent_encode_spec(bytes@)[i]
                == 0x25);
        }
    }
    ascii_string(enc)
}

/// The connection target for a configuration: a PostgreSQL URI in which
/// every caller-supplied field is percent-encoded, and which requests
/// encrypted transport exactly when `ssl` is set.
pub open spec fn target_chars(c: ConnectionConfig) -> Seq<char> {
    ("postgres://")@ + encoded_field(c.username@) + (":")@ + encoded_field(c.password@) + ("@")@
        + encoded_field(c.host@) + (":")@ + ascii_chars(port_bytes(c.port as int)) + ("/")@
        + encoded_field(c.database@) + if c.ssl {
        ("?sslmode=require")@
    } else {
        Seq::<char>::empty()
    }
}

/// Build the connection target for `c`.
///
/// Reserved characters (`:`, `/`, `@`, `?`, ...) in any field are escaped,
/// so the target's structure is exactly the one `target_chars` describes,
/// whatever the fields hold.
pub fn build_target(c: &ConnectionConfig) -> (t: String)
    ensures
        t@ == target_chars(*c),
{
    let mut t = String::from_str("postgres://");
    let user = encode_field(c.username.as_str());
    t.append(user.as_str());
    t.append(":");
    let pass = encode_field(c.password.as_str());
    t.append(pass.as_str());
    t.append("@");
    let host = encode_field(c.host.as_str());
    t.append(host.as_str());
    t.append(":");
    let port = ascii_string(decimal_digits_checked(c.port));
    t.append(port.as_str());
    t.append("/");
    let db = encode_field(c.database.as_str());
    t.append(db.as_str());
    if c.ssl {
        t.append("?sslmode=require");
    }
    proof {
        assert(t@ =~= target_chars(*c));
    }
    t
}

fn decimal_digits_checked(n: u16) -> (r: Vec<u8>)
    ensures
        r@ == port_bytes(n as int),
        forall|i: int| 0 <= i < r@.len() ==> r@[i] < 0x80,
{
    let r = decimal_digits(n);
    proof {
        lemma_port_bytes_ascii(n as int);
    }
    r
}

proof fn lemma_decimal_bytes_ascii(n: int)
    ensures
        forall|i: int|
            0 <= i < decimal_bytes(n).len() ==> 0x30 <= #[trigger] decimal_bytes(n)[i] <= 0x39,
    decreases n,
{
    if n > 0 {
        lemma_decimal_bytes_ascii(n / 10);
        let pre = decimal_bytes(n / 10);
        let d = decimal_bytes(n);
        assert forall|i: int| 0 <= i < d.len() implies 0x30 <= #[trigger] d[i] <= 0x39 by {
            if i < pre.len() {
                assert(d[i] == pre[i]);
            } else {
                assert(d[i] == (0x30 + n % 10) as u8);
            }
        }
    }
}

proof fn lemma_port_bytes_ascii(n: int)
    ensures
        forall|i: int| 0 <= i < port_bytes(n).len() ==> 0x30 <= #[trigger] port_bytes(n)[i] <= 0x39,
{
    lemma_decimal_bytes_ascii(n);
}

/// No character of an encoded field is a target delimiter: `:`, `/`, `?`
/// and `@` occur in the target only where `target_chars` itself places
/// them, whatever the caller put in the fields.
pub proof fn lemma_encoded_field_no_delimiters(s: Seq<char>)
    ensures
        forall|i: int|
            0 <= i < encoded_field(s).len() ==> #[trigger] encoded_field(s)[i] != ':'
                && encoded_field(s)[i] != '/' && encoded_field(s)[i] != '?' && encoded_field(s)[i]
                != '@',
{
    lemma_encoded_bytes_safe(encode_utf8(s));
    let e = percent_encode_spec(encode_utf8(s));
    assert forall|i: int| 0 <= i < encoded_field(s).len() implies #[trigger] encoded_field(s)[i]
        != ':' && encoded_field(s)[i] != '/' && encoded_field(s)[i] != '?' && encoded_field(s)[i]
        != '@' by {
        assert(is_unreserved(e[i]) || e[i] == 0x25);
        assert(encoded_field(s)[i] == e[i] as char);
    }
}

/// Encoding safety for one field: reading the field back out of the target
/// loses nothing. Percent-decoding the encoded field yields exactly the
/// field's UTF-8 bytes, and decoding those bytes yields the field itself.
pub proof fn lemma_field_roundtrip(s: Seq<char>)
    ensures
        percent_decode_spec(chars_bytes(encoded_field(s))) == Some(encode_utf8(s)),
        decode_utf8(encode_utf8(s)) == s,
{
    lemma_percent_roundtrip(encode_utf8(s));
    lemma_encoded_bytes_safe(encode_utf8(s));
    let e = percent_encode_spec(encode_utf8(s));
    assert forall|i: int| 0 <= i < e.len() implies chars_bytes(encoded_field(s))[i] == e[i] by {
        assert(is_unreserved(e[i]) || e[i] == 0x25);
        assert(e[i] < 0x80);
    }
    assert(chars_bytes(encoded_field(s)) =~= e);
    encode_utf8_decode_utf8(s);
}

/// No character of `s` is `d`.
pub open spec fn char_free(s: Seq<char>, d: char) -> bool {
    forall|i: int| 0 <= i < s.len() ==> s[i] != d
}

proof fn lemma_cancel_split(a1: Seq<char>, b1: Seq<char>, a2: Seq<char>, b2: Seq<char>, d: char)
    requires
        a1 + seq![d] + b1 == a2 + seq![d] + b2,
        char_free(a1, d),
        char_free(a2, d),
    ensures
        a1 == a2,
        b1 == b2,
{
    let s1 = a1 + seq![d] + b1;
    let s2 = a2 + seq![d] + b2;
    assert(s1.len() == a1.len() + 1 + b1.len());
    assert(s2.len() == a2.len() + 1 + b2.len());
    if a1.len() < a2.len() {
        assert(s1[a1.len() as int] == d);
        assert(s2[a1.len() as int] == a2[a1.len() as int]);
        assert(false);
    }
    if a2.len() < a1.len() {
        assert(s2[a2.len() as int] == d);
        assert(s1[a2.len() as int] == a1[a2.len() as int]);
        assert(false);
    }
    assert forall|i: int| 0 <= i < a1.len() implies a1[i] == a2[i] by {
        assert(s1[i] == a1[i]);
        assert(s2[i] == a2[i]);
    }
    assert(a1 =~= a2);
    assert forall|i: int| 0 <= i < b1.len() implies b1[i] == b2[i] by {
        assert(s1[i + a1.len() + 1] == b1[i]);
        assert(s2[i + a2.len() + 1] == b2[i]);
    }
    assert(b1 =~= b2);
}

proof fn lemma_cancel_prefix(p: Seq<char>, x1: Seq<char>, x2: Seq<char>)
    requires
        p + x1 == p + x2,
    ensures
        x1 == x2,
{
    assert((p + x1).len() == p.len() + x1.len());
    assert((p + x2).len() == p.len() + x2.len());
    assert forall|i: int| 0 <= i < x1.len() implies x1[i] == x2[i] by {
        assert((p + x1)[i + p.len()] == x1[i]);
        assert((p + x2)[i + p.len()] == x2[i]);
    }
    assert(x1 =~= x2);
}

proof fn lemma_cancel_optional_suffix(d1: Seq<char>, q1: Seq<char>, d2: Seq<char>, q2: Seq<char>)
    requires
        d1 + q1 == d2 + q2,
        char_free(d1, '?'),
        char_free(d2, '?'),
        q1.len() == 0 || q1[0] == '?',
        q2.len() == 0 || q2[0] == '?',
    ensures
        d1 == d2,
        q1 == q2,
{
    let s1 = d1 + q1;
    let s2 = d2 + q2;
    assert(s1.len() == d1.len() + q1.len());
    assert(s2.len() == d2.len() + q2.len());
    if d1.len() < d2.len() {
        assert(q1.len() > 0);
        assert(s1[d1.len() as int] == q1[0]);
        assert(s2[d1.len() as int] == d2[d1.len() as int]);
        assert(false);
    }
    if d2.len() < d1.len() {
        assert(q2.len() > 0);
        assert(s2[d2.len() as int] == q2[0]);
        assert(s1[d2.len() as int] == d1[d2.len() as int]);
        assert(false);
    }
    assert forall|i: int| 0 <= i < d1.len() implies d1[i] == d2[i] by {
        assert(s1[i] == d1[i]);
        assert(s2[i] == d2[i]);
    }
    assert(d1 =~= d2);
    assert forall|i: int| 0 <= i < q1.len() implies q1[i] == q2[i] by {
        assert(s1[i + d1.len()] == q1[i]);
        assert(s2[i + d2.len()] == q2[i]);
    }
    assert(q1 =~= q2);
}

proof fn lemma_ascii_chars_injective(x: Seq<u8>, y: Seq<u8>)
    requires
        ascii_chars(x) == ascii_chars(y),
        forall|i: int| 0 <= i < x.len() ==> x[i] < 0x80,
        forall|i: int| 0 <= i < y.len() ==> y[i] < 0x80,
    ensures
        x == y,
{
    assert(ascii_chars(x).len() == x.len());
    assert(ascii_chars(y).len() == y.len());
    assert forall|i: int| 0 <= i < x.len() implies x[i] == y[i] by {
        assert(ascii_chars(x)[i] == x[i] as char);
        assert(ascii_chars(y)[i] == y[i] as char);
    }
    assert(x =~= y);
}

/// An encoded field remembers the field: no two distinct fields share an
/// encoding.
pub proof fn lemma_encoded_field_injective(s1: Seq<char>, s2: Seq<char>)
    requires
        encoded_field(s1) == encoded_field(s2),
    ensures
        s1 == s2,
{
    lemma_field_roundtrip(s1);
    lemma_field_roundtrip(s2);
    assert(chars_bytes(encoded_field(s1)) == chars_bytes(encoded_field(s2)));
    assert(encode_utf8(s1) == encode_utf8(s2));
}

proof fn lemma_decimal_bytes_positive_len(n: int)
    requires
        n > 0,
    ensures
        decimal_bytes(n).len() > 0,
{
}

proof fn lemma_decimal_bytes_injective(m: int, n: int)
    requires
        0 <= m,
        0 <= n,
        decimal_bytes(m) == decimal_bytes(n),
    ensures
        m == n,
    decreases m + n,
{
    if m == 0 && n > 0 {
        lemma_decimal_bytes_positive_len(n);
    } else if n == 0 && m > 0 {
        lemma_decimal_bytes_positive_len(m);
    } else if m > 0 && n > 0 {
        let dm = decimal_bytes(m);
        let dn = decimal_bytes(n);
        assert(dm.last() == (0x30 + m % 10) as u8);
        assert(dn.last() == (0x30 + n % 10) as u8);
        assert(m % 10 == n % 10);
        assert(dm.drop_last() =~= decimal_bytes(m / 10));
        assert(dn.drop_last() =~= decimal_bytes(n / 10));
        lemma_decimal_bytes_injective(m / 10, n / 10);
        assert(m == 10 * (m / 10) + m % 10) by {
            vstd::arithmetic::div_mod::lemma_fundamental_div_mod(m, 10);
        };
        assert(n == 10 * (n / 10) + n % 10) by {
            vstd::arithmetic::div_mod::lemma_fundamental_div_mod(n, 10);
        };
    }
}

/// The digit string of a port remembers the port.
pub proof fn lemma_port_bytes_injective(m: int, n: int)
    requires
        0 <= m,
        0 <= n,
        port_bytes(m) == port_bytes(n),
    ensures
        m == n,
{
    if m == 0 && n > 0 {
        lemma_port_zero_distinct(n);
    } else if n == 0 && m > 0 {
        lemma_port_zero_distinct(m);
    } else if m > 0 && n > 0 {
        lemma_decimal_bytes_injective(m, n);
    }
}

proof fn lemma_char_free_concat(x: Seq<char>, y: Seq<char>, d: char)
    requires
        char_free(x, d),
        char_free(y, d),
    ensures
        char_free(x + y, d),
{
    assert forall|i: int| 0 <= i < (x + y).len() implies (x + y)[i] != d by {
        assert((x + y).len() == x.len() + y.len());
        if i < x.len() {
            assert((x + y)[i] == x[i]);
        } else {
            assert((x + y)[i] == y[i - x.len()]);
        }
    }
}

proof fn lemma_port_chars_safe(n: int)
    ensures
        char_free(ascii_chars(port_bytes(n)), ':'),
        char_free(ascii_chars(port_bytes(n)), '/'),
        char_free(ascii_chars(port_bytes(n)), '?'),
        char_free(ascii_chars(port_bytes(n)), '@'),
        forall|i: int| 0 <= i < port_bytes(n).len() ==> #[trigger] port_bytes(n)[i] < 0x80,
{
    lemma_port_bytes_ascii(n);
    let pc = ascii_chars(port_bytes(n));
    assert forall|i: int| 0 <= i < pc.len() implies #[trigger] pc[i] != ':' && pc[i] != '/' && pc[i]
        != '?' && pc[i] != '@' by {
        assert(0x30 <= port_bytes(n)[i] <= 0x39);
        assert(pc[i] == port_bytes(n)[i] as char);
    }
}

proof fn lemma_encoded_field_char_free(s: Seq<char>)
    ensures
        char_free(encoded_field(s), ':'),
        char_free(encoded_field(s), '/'),
        char_free(encoded_field(s), '?'),
        char_free(encoded_field(s), '@'),
{
    lemma_encoded_field_no_delimiters(s);
}

/// The optional transport request at the end of the target.
pub open spec fn ssl_part(c: ConnectionConfig) -> Seq<char> {
    if c.ssl {
        ("?sslmode=require")@
    } else {
        Seq::<char>::empty()
    }
}

/// The credentials section of the target.
pub open spec fn auth_part(c: ConnectionConfig) -> Seq<char> {
    encoded_field(c.username@) + seq![':'] + encoded_field(c.password@)
}

/// The database section of the target: name, then the transport request.
pub open spec fn tail_part(c: ConnectionConfig) -> Seq<char> {
    encoded_field(c.database@) + ssl_part(c)
}

/// The port and database sections of the target.
pub open spec fn port_tail(c: ConnectionConfig) -> Seq<char> {
    ascii_chars(port_bytes(c.port as int)) + seq!['/'] + tail_part(c)
}

/// The server section of the target.
pub open spec fn server_part(c: ConnectionConfig) -> Seq<char> {
    encoded_field(c.host@) + seq![':'] + port_tail(c)
}

/// Everything after the scheme.
pub open spec fn after_scheme(c: ConnectionConfig) -> Seq<char> {
    auth_part(c) + seq!['@'] + server_part(c)
}

/// The target is the scheme followed by credentials, server and database
/// sections, in that order.
#[verifier::rlimit(60)]
pub proof fn lemma_target_decompose(c: ConnectionConfig)
    ensures
        target_chars(c) == ("postgres://")@ + after_scheme(c),
{
    reveal_strlit(":");
    reveal_strlit("@");
    reveal_strlit("/");
    assert((":")@ =~= seq![':']);
    assert(("@")@ =~= seq!['@']);
    assert(("/")@ =~= seq!['/']);
    assert(target_chars(c) =~= ("postgres://")@ + after_scheme(c));
}

proof fn lemma_auth_char_free(c: ConnectionConfig)
    ensures
        char_free(auth_part(c), '@'),
{
    lemma_encoded_field_char_free(c.username@);
    lemma_encoded_field_char_free(c.password@);
    let mid = seq![':'];
    assert(char_free(mid, '@'));
    lemma_char_free_concat(encoded_field(c.username@), mid, '@');
    lemma_char_free_concat(encoded_field(c.username@) + mid, encoded_field(c.password@), '@');
}

/// The target remembers every field the probe uses: two configurations that
/// build the same connection target agree on username, password, host, port,
/// database and the request for encrypted transport. A field can therefore
/// never be misread as part of another field, whatever it holds.
pub proof fn lemma_target_determines_fields(c1: ConnectionConfig, c2: ConnectionConfig)
    requires
        target_chars(c1) == target_chars(c2),
    ensures
        c1.username@ == c2.username@,
        c1.password@ == c2.password@,
        c1.host@ == c2.host@,
        c1.port == c2.port,
        c1.database@ == c2.database@,
        c1.ssl == c2.ssl,
{
    lemma_target_decompose(c1);
    lemma_target_decompose(c2);
    lemma_cancel_prefix(("postgres://")@, after_scheme(c1), after_scheme(c2));
    // the credentials end at the one '@'
    lemma_auth_char_free(c1);
    lemma_auth_char_free(c2);
    lemma_cancel_split(auth_part(c1), server_part(c1), auth_part(c2), server_part(c2), '@');
    // username and password part at their ':'
    lemma_encoded_field_char_free(c1.username@);
    lemma_encoded_field_char_free(c2.username@);
    lemma_cancel_split(
        encoded_field(c1.username@),
        encoded_field(c1.password@),
        encoded_field(c2.username@),
        encoded_field(c2.password@),
        ':',
    );
    lemma_encoded_field_injective(c1.username@, c2.username@);
    lemma_encoded_field_injective(c1.password@, c2.password@);
    // the host ends at the next ':'
    lemma_encoded_field_char_free(c1.host@);
    lemma_encoded_field_char_free(c2.host@);
    lemma_cancel_split(
        encoded_field(c1.host@),
        port_tail(c1),
        encoded_field(c2.host@),
        port_tail(c2),
        ':',
    );
    lemma_encoded_field_injective(c1.host@, c2.host@);
    // the port digits end at the '/'
    lemma_port_chars_safe(c1.port as int);
    lemma_port_chars_safe(c2.port as int);
    lemma_cancel_split(
        ascii_chars(port_bytes(c1.port as int)),
        tail_part(c1),
        ascii_chars(port_bytes(c2.port as int)),
        tail_part(c2),
        '/',
    );
    lemma_ascii_chars_injective(port_bytes(c1.port as int), port_bytes(c2.port as int));
    lemma_port_bytes_injective(c1.port as int, c2.port as int);
    // the database name runs to the optional transport suffix
    reveal_strlit("?sslmode=require");
    let sx = ("?sslmode=require")@;
    assert(sx[0] == '?');
    assert(sx.len() == 16);
    lemma_encoded_field_char_free(c1.database@);
    lemma_encoded_field_char_free(c2.database@);
    lemma_cancel_optional_suffix(
        encoded_field(c1.database@),
        ssl_part(c1),
        encoded_field(c2.database@),
        ssl_part(c2),
    );
    lemma_encoded_field_injective(c1.database@, c2.database@);
    if c1.ssl != c2.ssl {
        assert(ssl_part(c1).len() != ssl_part(c2).len());
        assert(false);
    }
}

proof fn lemma_port_zero_distinct(n: int)
    requires
        n > 0,
    ensures
        decimal_bytes(n) != seq![0x30u8],
{
    let d = decimal_bytes(n);
    if d == seq![0x30u8] {
        assert(d.last() == (0x30 + n % 10) as u8);
        assert(d.last() == 0x30);
        assert(n % 10 == 0);
        assert(d.drop_last() =~= decimal_bytes(n / 10));
        assert(decimal_bytes(n / 10).len() == 0);
        if n / 10 > 0 {
            lemma_decimal_bytes_positive_len(n / 10);
        }
        assert(n == 10 * (n / 10) + n % 10) by {
            vstd::arithmetic::div_mod::lemma_fundamental_div_mod(n, 10);
        };
        assert(false);
    }
}

} // verus!
