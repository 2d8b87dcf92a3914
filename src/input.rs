//! Turning the raw bytes of standard input into texts: one document, or one
//! text per line with undecodable lines dropped.
use vstd::prelude::*;
use vstd::utf8::{valid_utf8, decode_utf8, encode_utf8, encode_utf8_decode_utf8};
use crate::mode::ConfigError;

verus! {

/// Relies on `String::from_utf8`: it succeeds exactly on valid UTF-8, and
/// the string then holds those very bytes.
#[verifier::external_body]
fn utf8_string(bytes: Vec<u8>) -> (r: Option<String>)
    ensures
        r is Some <==> valid_utf8(bytes@),
        r matches Some(s) ==> encode_utf8(s@) == bytes@,
{
    String::from_utf8(bytes).ok()
}

fn decode(bytes: Vec<u8>) -> (r: Option<String>)
    ensures
        r is Some <==> valid_utf8(bytes@),
        r matches Some(s) ==> s@ == decode_utf8(bytes@),
{
    let r = utf8_string(bytes);
    proof {
        if r is Some {
            encode_utf8_decode_utf8(r->Some_0@);
        }
    }
    r
}

/// Decodes the whole of standard input as one text.
pub fn document_text(bytes: Vec<u8>) -> (r: Result<String, ConfigError>)
    ensures
        r is Ok <==> valid_utf8(bytes@),
        r matches Ok(s) ==> s@ == decode_utf8(bytes@),
        r matches Err(e) ==> e == ConfigError::InvalidEncoding,
{
    match decode(bytes) {
        Some(s) => Ok(s),
        None => Err(ConfigError::InvalidEncoding),
    }
}

/// A raw line without its terminator: a final `\n`, and then a `\r` before it.
pub open spec fn strip_terminator(raw: Seq<u8>) -> Seq<u8> {
    if raw.len() > 0 && raw.last() == 10u8 {
        let body = raw.drop_last();
        if body.len() > 0 && body.last() == 13u8 {
            body.drop_last()
        } else {
            body
        }
    } else {
        raw
    }
}

/// The lines that decode, without terminators, in input order.
pub open spec fn decoded_lines(raws: Seq<Seq<u8>>) -> Seq<Seq<char>>
    decreases raws.len(),
{
    if raws.len() == 0 {
        Seq::empty()
    } else {
        let rest = decoded_lines(raws.drop_last());
        let body = strip_terminator(raws.last());
        if valid_utf8(body) {
            rest.push(decode_utf8(body))
        } else {
            rest
        }
    }
}

/// One raw line of input as text: its terminator removed, `None` where the
/// rest is not valid UTF-8.
pub fn line_text(raw: &Vec<u8>) -> (r: Option<String>)
    ensures
        r is Some <==> valid_utf8(strip_terminator(raw@)),
        r matches Some(s) ==> s@ == decode_utf8(strip_terminator(raw@)),
{
    let mut n = raw.len();
    if n > 0 && raw[n - 1] == 10u8 {
        n = n - 1;
        if n > 0 && raw[n - 1] == 13u8 {
            n = n - 1;
        }
    }
    let mut body: Vec<u8> = Vec::new();
    let mut i: usize = 0;
    while i < n
        invariant
            n <= raw@.len(),
            i <= n,
            body@ == raw@.take(i as int),
        decreases n - i,
    {
        body.push(raw[i]);
        i = i + 1;
        assert(body@ =~= raw@.take(i as int));
    }
    assert(body@ =~= strip_terminator(raw@));
    decode(body)
}

/// The character sequences of a vector of strings.
pub open spec fn texts(v: Seq<String>) -> Seq<Seq<char>> {
    v.map_values(|s: String| s@)
}

/// The lines of input that decode, in order; the others are dropped without
/// a trace.
pub fn decodable_lines(raws: &Vec<Vec<u8>>) -> (r: Vec<String>)
    ensures
        texts(r@) == decoded_lines(raws@.map_values(|v: Vec<u8>| v@)),
{
    let ghost views = raws@.map_values(|v: Vec<u8>| v@);
    let mut out: Vec<String> = Vec::new();
    let mut i: usize = 0;
    while i < raws.len()
        invariant
            i <= raws@.len(),
            views == raws@.map_values(|v: Vec<u8>| v@),
            texts(out@) == decoded_lines(views.take(i as int)),
        decreases raws@.len() - i,
    {
        proof {
            assert(views.take(i + 1).drop_last() =~= views.take(i as int));
            assert(views.take(i + 1).last() == raws@[i as int]@);
        }
        match line_text(&raws[i]) {
            Some(s) => {
                let ghost before = out@;
                out.push(s);
                assert(texts(out@) =~= texts(before).push(s@));
            },
            None => {},
        }
        i = i + 1;
    }
    assert(views.take(i as int) =~= views);
    out
}

} // verus!
