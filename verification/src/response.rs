//! The one answer that is sent: a plain-text response whose declared length
//! is computed from its body.

use vstd::prelude::*;
use vstd::string::StringExecFns;
use vstd::utf8::{encode_utf8, is_ascii_chars, is_ascii_chars_encode_utf8};

verus! {

broadcast use vstd::string::group_string_axioms;

/// The character that stands for the digit `d`.
pub open spec fn digit(d: nat) -> char {
    (48 + d) as char
}

/// `n` written in decimal, without leading zeros.
pub open spec fn decimal(n: nat) -> Seq<char>
    decreases n,
{
    if n < 10 {
        seq![digit(n)]
    } else {
        decimal(n / 10).push(digit(n % 10))
    }
}

/// Appends `n`, written in decimal, to `out`.
pub fn push_decimal(out: &mut String, n: usize)
    ensures
        final(out)@ == old(out)@ + decimal(n as nat),
    decreases n,
{
    if n >= 10 {
        push_decimal(out, n / 10);
    }
    let d: u8 = (n % 10) as u8;
    let c: char = (48u8 + d) as char;
    let ghost before = out@;
    out.push(c);
    proof {
        if n >= 10 {
            assert(before.push(c) =~= old(out)@ + decimal((n / 10) as nat).push(c));
        } else {
            assert(before.push(c) =~= old(out)@ + seq![c]);
        }
    }
}

/// What stands before the declared length in a response.
pub open spec fn head_text() -> Seq<char> {
    "HTTP/1.0 200 OK\r\nContent-Type: text/plain\r\nContent-Length: "@
}

/// A response of status 200 that carries `body` as plain text: the head,
/// the number of bytes that `body` takes on the wire, an empty line, and
/// `body` itself.
pub open spec fn plain_response_text(body: Seq<char>) -> Seq<char> {
    head_text() + decimal(encode_utf8(body).len()) + "\r\n\r\n"@ + body
}

/// Builds the response of status 200 that carries `body` as plain text.
pub fn plain_response(body: &str) -> (r: String)
    ensures
        r@ == plain_response_text(body@),
{
    let mut out = "HTTP/1.0 200 OK\r\nContent-Type: text/plain\r\nContent-Length: ".to_owned();
    push_decimal(&mut out, body.as_bytes().len());
    out.append("\r\n\r\n");
    out.append(body);
    out
}

/// The body of the response that every request gets.
pub open spec fn body_text() -> Seq<char> {
    "Hello, World!"@
}

/// The response that every request gets, as it goes over the wire.
pub open spec fn response_text() -> Seq<char> {
    "HTTP/1.0 200 OK\r\nContent-Type: text/plain\r\nContent-Length: 13\r\n\r\nHello, World!"@
}

/// The fixed response is the plain-text response that carries the fixed
/// body, so the length it declares is the length of the body it carries.
pub proof fn lemma_response_declares_its_length()
    ensures
        response_text() == plain_response_text(body_text()),
{
    reveal_strlit("Hello, World!");
    reveal_strlit("\r\n\r\n");
    reveal_strlit("HTTP/1.0 200 OK\r\nContent-Type: text/plain\r\nContent-Length: ");
    reveal_strlit(
        "HTTP/1.0 200 OK\r\nContent-Type: text/plain\r\nContent-Length: 13\r\n\r\nHello, World!",
    );
    let body = body_text();
    assert(is_ascii_chars(body));
    is_ascii_chars_encode_utf8(body);
    assert(encode_utf8(body).len() == 13);
    assert(decimal(1) =~= seq!['1']);
    assert(decimal(13) =~= seq!['1', '3']);
    assert(response_text() =~= plain_response_text(body));
}

/// Builds the response that every request gets.
pub fn response() -> (r: String)
    ensures
        r@ == response_text(),
{
    proof {
        lemma_response_declares_its_length();
    }
    plain_response("Hello, World!")
}

} // verus!
