//! The bytes of the three responses the server sends.
use vstd::prelude::*;
use vstd::utf8::encode_utf8;

verus! {

/// Status line and headers of the redirect from the site root.
pub const FOUND_HEAD: &'static str = "HTTP/1.1 302 Found\r\nLocation: /intercept\r\nContent-Length: 0\r\nConnection: close\r\n\r\n";

/// Start of a file response, up to the value of `Content-Length`.
pub const OK_HEAD: &'static str = "HTTP/1.1 200 OK\r\nContent-Length: ";

/// Between the length and the content type of a file response.
pub const CONTENT_TYPE_FIELD: &'static str = "\r\nContent-Type: ";

/// Start of a not-found response, up to the value of `Content-Length`.
pub const NOT_FOUND_HEAD: &'static str = "HTTP/1.1 404 Not Found\r\nContent-Length: ";

/// End of the header block of a file or not-found response.
pub const CLOSE_TAIL: &'static str = "\r\nConnection: close\r\n\r\n";

/// Body of a not-found response.
pub const NOT_FOUND_BODY: &'static str = "404 Not Found";

/// The decimal digits of `n`, in ASCII, without leading zeros.
pub open spec fn decimal(n: nat) -> Seq<u8>
    decreases n,
{
    if n < 10 {
        seq![(48 + n) as u8]
    } else {
        decimal(n / 10).push((48 + n % 10) as u8)
    }
}

/// The number that ASCII decimal digits `d` spell out.
pub open spec fn digits_value(d: Seq<u8>) -> nat
    decreases d.len(),
{
    if d.len() == 0 {
        0
    } else {
        digits_value(d.drop_last()) * 10 + (d.last() - 48) as nat
    }
}

/// `decimal(n)` is a non-empty string of ASCII digits that spells out `n`,
/// so a `Content-Length` written with it is the body's length.
pub proof fn lemma_decimal_value(n: nat)
    ensures
        decimal(n).len() > 0,
        forall|i: int| 0 <= i < decimal(n).len() ==> 48 <= #[trigger] decimal(n)[i] <= 57,
        digits_value(decimal(n)) == n,
    decreases n,
{
    if n >= 10 {
        lemma_decimal_value(n / 10);
        assert(decimal(n).drop_last() =~= decimal(n / 10));
        assert(n == (n / 10) * 10 + n % 10) by (nonlinear_arith);
        assert(decimal(n).last() == 48 + n % 10);
        assert(digits_value(decimal(n)) == digits_value(decimal(n / 10)) * 10 + (n % 10));
    } else {
        assert(decimal(n).drop_last() =~= Seq::<u8>::empty());
        assert(digits_value(Seq::<u8>::empty()) == 0);
        assert(decimal(n).last() == 48 + n);
    }
}

/// The redirect sent for the site root.
pub open spec fn found_response() -> Seq<u8> {
    encode_utf8(FOUND_HEAD@)
}

/// A `200 OK` response carrying `body` as `content_type`.
pub open spec fn ok_response(body: Seq<u8>, content_type: Seq<char>) -> Seq<u8> {
    encode_utf8(OK_HEAD@) + decimal(body.len()) + encode_utf8(CONTENT_TYPE_FIELD@) + encode_utf8(
        content_type,
    ) + encode_utf8(CLOSE_TAIL@) + body
}

/// The `404 Not Found` response.
pub open spec fn not_found_response() -> Seq<u8> {
    let body = encode_utf8(NOT_FOUND_BODY@);
    encode_utf8(NOT_FOUND_HEAD@) + decimal(body.len()) + encode_utf8(CLOSE_TAIL@) + body
}

/// The not-found body is the 13 bytes `404 Not Found`, and the response's
/// `Content-Length` says 13.
pub proof fn lemma_not_found_length()
    ensures
        encode_utf8(NOT_FOUND_BODY@).len() == 13,
        not_found_response() == encode_utf8(NOT_FOUND_HEAD@) + decimal(13) + encode_utf8(
            CLOSE_TAIL@,
        ) + encode_utf8(NOT_FOUND_BODY@),
{
    reveal_strlit("404 Not Found");
    let body: &str = NOT_FOUND_BODY;
    assert(vstd::string::is_ascii(body));
    vstd::string::is_ascii_spec_bytes(body);
}

/// Appends `bytes` to `out`.
fn push_bytes(out: &mut Vec<u8>, bytes: &[u8])
    ensures
        final(out)@ == old(out)@ + bytes@,
{
    let ghost start = out@;
    let mut i: usize = 0;
    while i < bytes.len()
        invariant
            i <= bytes@.len(),
            out@ == start + bytes@.subrange(0, i as int),
        decreases bytes@.len() - i,
    {
        out.push(bytes[i]);
        assert(bytes@.subrange(0, i + 1) =~= bytes@.subrange(0, i as int).push(bytes@[i as int]));
        i = i + 1;
    }
    assert(bytes@.subrange(0, i as int) =~= bytes@);
}

/// Appends the UTF-8 encoding of `s` to `out`.
fn push_text(out: &mut Vec<u8>, s: &str)
    ensures
        final(out)@ == old(out)@ + encode_utf8(s@),
{
    push_bytes(out, s.as_bytes());
}

/// Appends the decimal digits of `n` to `out`.
fn push_decimal(out: &mut Vec<u8>, n: usize)
    ensures
        final(out)@ == old(out)@ + decimal(n as nat),
    decreases n,
{
    if n >= 10 {
        push_decimal(out, n / 10);
    }
    out.push((48 + n % 10) as u8);
    assert(final(out)@ =~= old(out)@ + decimal(n as nat)) by {
        if n < 10 {
            assert(n % 10 == n);
        }
    }
}

/// The redirect sent for the site root.
pub fn found() -> (r: Vec<u8>)
    ensures
        r@ == found_response(),
{
    let mut out: Vec<u8> = Vec::new();
    push_text(&mut out, FOUND_HEAD);
    assert(out@ =~= found_response());
    out
}

/// A `200 OK` response carrying `body` as `content_type`.
pub fn ok(body: &Vec<u8>, content_type: &str) -> (r: Vec<u8>)
    ensures
        r@ == ok_response(body@, content_type@),
{
    let mut out: Vec<u8> = Vec::new();
    push_text(&mut out, OK_HEAD);
    push_decimal(&mut out, body.len());
    push_text(&mut out, CONTENT_TYPE_FIELD);
    push_text(&mut out, content_type);
    push_text(&mut out, CLOSE_TAIL);
    push_bytes(&mut out, body.as_slice());
    assert(out@ =~= ok_response(body@, content_type@));
    out
}

/// The `404 Not Found` response.
pub fn not_found() -> (r: Vec<u8>)
    ensures
        r@ == not_found_response(),
{
    let mut out: Vec<u8> = Vec::new();
    push_text(&mut out, NOT_FOUND_HEAD);
    let body = NOT_FOUND_BODY.as_bytes();
    push_decimal(&mut out, body.len());
    push_text(&mut out, CLOSE_TAIL);
    push_bytes(&mut out, body);
    assert(out@ =~= not_found_response());
    out
}

} // verus!
