//! The decoder of replies and the encoder of commands.

use crate::command::{
    lemma_quoted_is_odd, quotes_match, scan, scan_step, tokens_of, Scan, QUOTE, SPACE,
};
use crate::decimal::{decimal_digits, parse_decimal, push_decimal, MINUS};
use crate::enums::{ErrorView, Fault, RedisError, RedisParseError};
use crate::response::{lemma_array_view, views, Reply, Response};
use crate::wire::{
    array_of, bulk_bytes, bulks_bytes, crlf, decode_at, decode_items, decode_spec, has_line,
    lemma_decode_at_bounds, lemma_line_end_unique, line_ends_at, request_bytes, terminator_at,
    text_of, with_front, Parsed, COLON, CR, DOLLAR, LF, PLUS, STAR,
};
use vstd::prelude::*;
use vstd::slice::{slice_subrange, slice_to_vec};
use vstd::utf8::{encode_utf8, encode_utf8_decode_utf8, encode_utf8_valid_utf8, valid_utf8};

verus! {

/// What the decoder found at the front of a buffer that is not malformed.
#[derive(Debug, PartialEq)]
pub enum Decoded {
    /// One whole reply, and the number of bytes that it took.
    Complete(Response, usize),
    /// The buffer ends before the reply does: read more and decode again.
    NeedMoreBytes,
}

/// The result of a decoder as the outcome that the wire format defines.
pub open spec fn outcome(r: Result<Decoded, RedisParseError>) -> Parsed<Reply> {
    match r {
        Ok(Decoded::Complete(response, end)) => Parsed::Complete {
            value: response@,
            end: end as int,
        },
        Ok(Decoded::NeedMoreBytes) => Parsed::NeedMoreBytes,
        Err(e) => Parsed::Malformed { fault: e.fault },
    }
}

/// `String::from_utf8`: gives the string whose UTF-8 form is exactly
/// `bytes`, and `None` where `bytes` is not UTF-8.
#[verifier::external_body]
fn text_from_utf8(bytes: Vec<u8>) -> (r: Option<String>)
    ensures
        r matches Some(text) ==> encode_utf8(text@) == bytes@,
        r is None ==> !valid_utf8(bytes@),
{
    match String::from_utf8(bytes) {
        Ok(text) => Some(text),
        Err(_) => None,
    }
}

/// The length of a slice is a `usize`.
proof fn lemma_buffer_fits(buffer: &[u8])
    ensures
        buffer@.len() <= usize::MAX,
{
    assert(vstd::slice::spec_slice_len(buffer) == buffer@.len());
}

/// Finds the end of the line that starts at `from`: the place of the first
/// line terminator at or after `from`, or `None` while none has arrived.
pub fn read_to_carriage_return(buffer: &[u8], from: usize) -> (r: Option<usize>)
    ensures
        match r {
            Some(i) => line_ends_at(buffer@, from as int, i as int),
            None => !has_line(buffer@, from as int),
        },
{
    let n: usize = buffer.len();
    let mut i: usize = from;
    while i < n
        invariant
            from <= i,
            n == buffer@.len(),
            forall|j: int| from <= j < i ==> !terminator_at(buffer@, j),
        decreases n - i,
    {
        if buffer[i] == CR && i + 1 < n && buffer[i + 1] == LF {
            return Some(i);
        }
        i = i + 1;
    }
    assert forall|j: int| !line_ends_at(buffer@, from as int, j) by {
        if from <= j && terminator_at(buffer@, j) {
            assert(j < i);
        }
    }
    None
}

/// The text of a line, or the fault of a line that is not UTF-8.
fn line_text(buffer: &[u8], start: usize, end: usize) -> (r: Result<String, RedisParseError>)
    requires
        start <= end <= buffer@.len(),
    ensures
        match text_of(buffer@.subrange(start as int, end as int)) {
            Some(text) => r matches Ok(t) && t@ == text,
            None => r matches Err(e) && e.fault == Fault::BadText && e.wf(),
        },
{
    let line: Vec<u8> = slice_to_vec(slice_subrange(buffer, start, end));
    match text_from_utf8(line) {
        Some(text) => {
            proof {
                encode_utf8_valid_utf8(text@);
                encode_utf8_decode_utf8(text@);
            }
            Ok(text)
        },
        None => Err(RedisParseError::new(Fault::BadText)),
    }
}

/// Decodes the simple string that starts at `pos` and whose line ends at
/// `end`.
fn parse_simple_string(buffer: &[u8], pos: usize, end: usize) -> (r: Result<
    Decoded,
    RedisParseError,
>)
    requires
        pos < buffer@.len(),
        buffer@[pos as int] == PLUS,
        line_ends_at(buffer@, pos + 1, end as int),
    ensures
        outcome(r) == decode_at(buffer@, pos as int),
        r matches Err(e) ==> e.wf(),
{
    proof {
        lemma_buffer_fits(buffer);
        lemma_line_end_unique(buffer@, pos + 1, end as int);
    }
    match line_text(buffer, pos + 1, end) {
        Ok(text) => Ok(Decoded::Complete(Response::SimpleString(text), end + 2)),
        Err(e) => Err(e),
    }
}

/// Decodes the error reply that starts at `pos` and whose line ends at
/// `end`.
fn parse_error(buffer: &[u8], pos: usize, end: usize) -> (r: Result<Decoded, RedisParseError>)
    requires
        pos < buffer@.len(),
        buffer@[pos as int] == MINUS,
        line_ends_at(buffer@, pos + 1, end as int),
    ensures
        outcome(r) == decode_at(buffer@, pos as int),
        r matches Err(e) ==> e.wf(),
{
    proof {
        lemma_buffer_fits(buffer);
        lemma_line_end_unique(buffer@, pos + 1, end as int);
    }
    match line_text(buffer, pos + 1, end) {
        Ok(text) => Ok(Decoded::Complete(Response::Error(text), end + 2)),
        Err(e) => Err(e),
    }
}

/// Decodes the integer reply that starts at `pos` and whose line ends at
/// `end`.
fn parse_integer(buffer: &[u8], pos: usize, end: usize) -> (r: Result<Decoded, RedisParseError>)
    requires
        pos < buffer@.len(),
        buffer@[pos as int] == COLON,
        line_ends_at(buffer@, pos + 1, end as int),
    ensures
        outcome(r) == decode_at(buffer@, pos as int),
        r matches Err(e) ==> e.wf(),
{
    proof {
        lemma_buffer_fits(buffer);
        lemma_line_end_unique(buffer@, pos + 1, end as int);
    }
    match parse_decimal(slice_subrange(buffer, pos + 1, end)) {
        Some(value) => Ok(Decoded::Complete(Response::Integer(value), end + 2)),
        None => Err(RedisParseError::new(Fault::BadInteger)),
    }
}

/// Decodes the bulk string that starts at `pos` and whose length line ends
/// at `end`. The payload is taken by count, never by what it holds.
fn parse_bulk_string(buffer: &[u8], pos: usize, end: usize) -> (r: Result<
    Decoded,
    RedisParseError,
>)
    requires
        pos < buffer@.len(),
        buffer@[pos as int] == DOLLAR,
        line_ends_at(buffer@, pos + 1, end as int),
    ensures
        outcome(r) == decode_at(buffer@, pos as int),
        r matches Err(e) ==> e.wf(),
{
    proof {
        lemma_buffer_fits(buffer);
        lemma_line_end_unique(buffer@, pos + 1, end as int);
    }
    let length: i64 = match parse_decimal(slice_subrange(buffer, pos + 1, end)) {
        Some(value) => value,
        None => {
            return Err(RedisParseError::new(Fault::BadLength));
        },
    };
    if length == -1 {
        return Ok(Decoded::Complete(Response::Nil, end + 2));
    }
    if length < -1 {
        return Err(RedisParseError::new(Fault::BadLength));
    }
    let start: usize = end + 2;
    let available: usize = buffer.len() - start;
    if available < 2 || ((available - 2) as u64) < (length as u64) {
        return Ok(Decoded::NeedMoreBytes);
    }
    let stop: usize = start + length as usize;
    if buffer[stop] != CR || buffer[stop + 1] != LF {
        return Err(RedisParseError::new(Fault::BadTerminator));
    }
    let payload: Vec<u8> = slice_to_vec(slice_subrange(buffer, start, stop));
    Ok(Decoded::Complete(Response::BulkString(payload), stop + 2))
}

/// Decodes the array that starts at `pos` and whose count line ends at
/// `end`: as many replies as the count says, one behind the other.
fn parse_array(buffer: &[u8], pos: usize, end: usize) -> (r: Result<Decoded, RedisParseError>)
    requires
        pos < buffer@.len(),
        buffer@[pos as int] == STAR,
        line_ends_at(buffer@, pos + 1, end as int),
    ensures
        outcome(r) == decode_at(buffer@, pos as int),
        r matches Err(e) ==> e.wf(),
    decreases buffer@.len() - pos, 0nat,
{
    proof {
        lemma_buffer_fits(buffer);
        lemma_line_end_unique(buffer@, pos + 1, end as int);
    }
    let count: i64 = match parse_decimal(slice_subrange(buffer, pos + 1, end)) {
        Some(value) => value,
        None => {
            return Err(RedisParseError::new(Fault::BadLength));
        },
    };
    if count == -1 {
        return Ok(Decoded::Complete(Response::NilArray, end + 2));
    }
    if count < -1 {
        return Err(RedisParseError::new(Fault::BadLength));
    }
    let first: usize = end + 2;
    let mut items: Vec<Response> = Vec::new();
    let mut cursor: usize = first;
    let mut remaining: i64 = count;
    assert(views(items@) + Seq::<Reply>::empty() =~= Seq::<Reply>::empty());
    while remaining > 0
        invariant
            pos < first <= cursor <= buffer@.len(),
            0 <= remaining <= count,
            decode_at(buffer@, pos as int) == array_of(
                decode_items(buffer@, first as int, count as nat),
            ),
            decode_items(buffer@, first as int, count as nat) == with_front(
                views(items@),
                decode_items(buffer@, cursor as int, remaining as nat),
            ),
        decreases remaining,
    {
        let ghost before = views(items@);
        match decode_from(buffer, cursor) {
            Err(e) => {
                return Err(e);
            },
            Ok(Decoded::NeedMoreBytes) => {
                return Ok(Decoded::NeedMoreBytes);
            },
            Ok(Decoded::Complete(item, next)) => {
                proof {
                    let rest = decode_items(buffer@, next as int, (remaining - 1) as nat);
                    assert(views(items@.push(item)) =~= before + seq![item@]);
                    match rest {
                        Parsed::Complete { value, end } => {
                            assert(before + (seq![item@] + value) =~= (before + seq![item@])
                                + value);
                        },
                        _ => {},
                    }
                }
                items.push(item);
                cursor = next;
                remaining = remaining - 1;
            },
        }
    }
    proof {
        lemma_array_view(items);
        assert(views(items@) + Seq::<Reply>::empty() =~= views(items@));
    }
    Ok(Decoded::Complete(Response::Array(items), cursor))
}

/// Decodes the reply that starts at `pos` in `buffer`.
///
/// The result is the reply with the place just behind it, a request for
/// more bytes where the buffer ends before the reply does, or the fault of
/// bytes that are no reply.
pub fn decode_from(buffer: &[u8], pos: usize) -> (r: Result<Decoded, RedisParseError>)
    ensures
        outcome(r) == decode_at(buffer@, pos as int),
        r matches Err(e) ==> e.wf(),
        r matches Ok(Decoded::Complete(_, end)) ==> pos < end <= buffer@.len(),
    decreases buffer@.len() - pos, 1nat,
{
    proof {
        lemma_decode_at_bounds(buffer@, pos as int);
    }
    if pos >= buffer.len() {
        return Ok(Decoded::NeedMoreBytes);
    }
    let tag: u8 = buffer[pos];
    if tag != PLUS && tag != MINUS && tag != COLON && tag != DOLLAR && tag != STAR {
        return Err(RedisParseError::new(Fault::UnexpectedByte(tag)));
    }
    let end: usize = match read_to_carriage_return(buffer, pos + 1) {
        Some(i) => i,
        None => {
            return Ok(Decoded::NeedMoreBytes);
        },
    };
    if tag == PLUS {
        parse_simple_string(buffer, pos, end)
    } else if tag == MINUS {
        parse_error(buffer, pos, end)
    } else if tag == COLON {
        parse_integer(buffer, pos, end)
    } else if tag == DOLLAR {
        parse_bulk_string(buffer, pos, end)
    } else {
        parse_array(buffer, pos, end)
    }
}

/// Decodes the reply at the front of `buffer`.
///
/// Returns the reply and the number of bytes that it took; asks for more
/// bytes where the buffer holds only the beginning of a reply, an empty
/// buffer included; fails where the bytes cannot begin any reply. Bytes
/// behind the reply are left alone.
pub fn parse_response(buffer: &[u8]) -> (r: Result<Decoded, RedisParseError>)
    ensures
        outcome(r) == decode_spec(buffer@),
        r matches Err(e) ==> e.wf(),
        r matches Ok(Decoded::Complete(_, end)) ==> 0 < end <= buffer@.len(),
{
    decode_from(buffer, 0)
}

/// Appends `bytes` to `out`.
pub fn push_bytes(out: &mut Vec<u8>, bytes: &[u8])
    ensures
        final(out)@ == old(out)@ + bytes@,
{
    let n: usize = bytes.len();
    let mut i: usize = 0;
    assert(bytes@.take(0) =~= Seq::<u8>::empty());
    while i < n
        invariant
            i <= n,
            n == bytes@.len(),
            out@ == old(out)@ + bytes@.take(i as int),
        decreases n - i,
    {
        assert(bytes@.take(i as int).push(bytes@[i as int]) =~= bytes@.take(i + 1));
        out.push(bytes[i]);
        i = i + 1;
    }
    assert(bytes@.take(n as int) =~= bytes@);
}

/// The tokens that a vector of byte vectors holds.
pub open spec fn token_views(tokens: Seq<Vec<u8>>) -> Seq<Seq<u8>> {
    Seq::new(tokens.len(), |i: int| tokens[i]@)
}

/// Splits a command line into its tokens.
///
/// Fails exactly when the line ends inside a quoted token, that is, when it
/// holds an odd number of quotes.
pub fn tokenize(command: &[u8]) -> (r: Result<Vec<Vec<u8>>, RedisParseError>)
    ensures
        match tokens_of(command@) {
            Some(tokens) => r matches Ok(found) && token_views(found@) == tokens,
            None => r matches Err(e) && e.fault == Fault::MismatchedQuotes && e.wf(),
        },
        r is Ok <==> quotes_match(command@),
{
    let n: usize = command.len();
    let mut tokens: Vec<Vec<u8>> = Vec::new();
    let mut current: Vec<u8> = Vec::new();
    let mut quoted: bool = false;
    let mut i: usize = 0;
    assert(command@.take(0) =~= Seq::<u8>::empty());
    assert(token_views(tokens@) =~= Seq::<Seq<u8>>::empty());
    while i < n
        invariant
            i <= n,
            n == command@.len(),
            scan(command@.take(i as int)) == (Scan {
                tokens: token_views(tokens@),
                current: current@,
                quoted,
            }),
        decreases n - i,
    {
        let b: u8 = command[i];
        let ghost before = scan(command@.take(i as int));
        proof {
            let longer = command@.take(i + 1);
            assert(longer.drop_last() =~= command@.take(i as int));
            assert(longer.last() == b);
            assert(scan(longer) == scan_step(before, b));
        }
        if b == QUOTE {
            if quoted {
                assert(token_views(tokens@).push(current@) =~= token_views(tokens@.push(current)));
                tokens.push(current);
                current = Vec::new();
                quoted = false;
            } else {
                quoted = true;
            }
        } else if b == SPACE && !quoted {
            if current.len() > 0 {
                assert(token_views(tokens@).push(current@) =~= token_views(tokens@.push(current)));
                tokens.push(current);
                current = Vec::new();
            }
        } else {
            current.push(b);
        }
        i = i + 1;
        assert(token_views(tokens@) =~= scan_step(before, b).tokens);
    }
    proof {
        assert(command@.take(n as int) =~= command@);
        lemma_quoted_is_odd(command@);
    }
    if quoted {
        return Err(RedisParseError::new(Fault::MismatchedQuotes));
    }
    if current.len() > 0 {
        assert(token_views(tokens@).push(current@) =~= token_views(tokens@.push(current)));
        tokens.push(current);
    }
    assert(token_views(tokens@) =~= tokens_of(command@)->0);
    Ok(tokens)
}

/// Writes tokens as a request: an array of bulk strings, one for each
/// token, whatever the tokens hold.
pub fn encode_tokens(tokens: &Vec<Vec<u8>>) -> (out: Vec<u8>)
    ensures
        out@ == request_bytes(token_views(tokens@)),
{
    let ghost all = token_views(tokens@);
    let n: usize = tokens.len();
    let mut out: Vec<u8> = Vec::new();
    out.push(STAR);
    push_decimal(&mut out, n);
    out.push(CR);
    out.push(LF);
    let ghost header = seq![STAR] + decimal_digits(n as nat) + crlf();
    assert(out@ =~= header);
    assert(all.take(0) =~= Seq::<Seq<u8>>::empty());
    let mut i: usize = 0;
    while i < n
        invariant
            i <= n,
            n == tokens@.len(),
            all == token_views(tokens@),
            header == seq![STAR] + decimal_digits(n as nat) + crlf(),
            out@ == header + bulks_bytes(all.take(i as int)),
        decreases n - i,
    {
        let token: &Vec<u8> = &tokens[i];
        let ghost before = out@;
        proof {
            let done = all.take(i + 1);
            assert(done.drop_last() =~= all.take(i as int));
            assert(done.last() == token@);
        }
        out.push(DOLLAR);
        push_decimal(&mut out, token.len());
        out.push(CR);
        out.push(LF);
        push_bytes(&mut out, token.as_slice());
        out.push(CR);
        out.push(LF);
        assert(out@ =~= before + bulk_bytes(token@));
        assert(out@ =~= header + bulks_bytes(all.take(i + 1)));
        i = i + 1;
    }
    assert(all.take(n as int) =~= all);
    out
}

/// Encodes a command line as a request on the wire.
///
/// The line is split into tokens and the tokens are written as an array of
/// bulk strings. No token is looked at: any command goes through. The one
/// failure is a line that ends inside a quoted token.
pub fn encode(command: &[u8]) -> (r: Result<Vec<u8>, RedisParseError>)
    ensures
        match tokens_of(command@) {
            Some(tokens) => r matches Ok(out) && out@ == request_bytes(tokens),
            None => r matches Err(e) && e.fault == Fault::MismatchedQuotes && e.wf(),
        },
        r is Ok <==> quotes_match(command@),
{
    match tokenize(command) {
        Ok(tokens) => Ok(encode_tokens(&tokens)),
        Err(e) => Err(e),
    }
}

/// Encodes a typed command line as a request on the wire; see [`encode`].
pub fn parse_command(command: &str) -> (r: Result<Vec<u8>, RedisError>)
    ensures
        match tokens_of(encode_utf8(command@)) {
            Some(tokens) => r matches Ok(out) && out@ == request_bytes(tokens),
            None => r matches Err(e) && e@ == ErrorView::Parse(Fault::MismatchedQuotes),
        },
        r is Ok <==> quotes_match(encode_utf8(command@)),
        r matches Err(e) ==> e.wf(),
{
    match encode(command.as_bytes()) {
        Ok(out) => Ok(out),
        Err(e) => Err(RedisError::ParseError(e)),
    }
}

} // verus!
