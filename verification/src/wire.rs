//! The wire format, as mathematics: what the bytes of a reply mean, and
//! which bytes a request is.

use crate::decimal::{decimal_digits, decimal_i64, MINUS};
use crate::enums::Fault;
use crate::response::Reply;
use vstd::prelude::*;
use vstd::utf8::*;

verus! {

/// Carriage return, the first byte of the line terminator.
pub const CR: u8 = 13;

/// Line feed, the second byte of the line terminator.
pub const LF: u8 = 10;

/// `+`, the first byte of a simple string.
pub const PLUS: u8 = 43;

/// `:`, the first byte of an integer.
pub const COLON: u8 = 58;

/// `$`, the first byte of a bulk string.
pub const DOLLAR: u8 = 36;

/// `*`, the first byte of an array.
pub const STAR: u8 = 42;

/// The line terminator.
pub open spec fn crlf() -> Seq<u8> {
    seq![CR, LF]
}

/// True when a line terminator stands at `i`.
pub open spec fn terminator_at(s: Seq<u8>, i: int) -> bool {
    0 <= i && i + 1 < s.len() && s[i] == CR && s[i + 1] == LF
}

/// True when the first line terminator at or after `from` stands at `i`.
pub open spec fn line_ends_at(s: Seq<u8>, from: int, i: int) -> bool {
    &&& from <= i
    &&& terminator_at(s, i)
    &&& forall|j: int| from <= j < i ==> !terminator_at(s, j)
}

/// True when a line terminator stands at or after `from`.
pub open spec fn has_line(s: Seq<u8>, from: int) -> bool {
    exists|i: int| line_ends_at(s, from, i)
}

/// Where the line that starts at `from` ends: the place of the first line
/// terminator at or after `from`.
pub open spec fn line_end(s: Seq<u8>, from: int) -> int
    recommends
        has_line(s, from),
{
    choose|i: int| line_ends_at(s, from, i)
}

/// The outcome of reading a value from a buffer at some place.
pub enum Parsed<T> {
    /// The value, and the place just behind its last byte.
    Complete { value: T, end: int },
    /// The buffer ends before the value does.
    NeedMoreBytes,
    /// The bytes are no value.
    Malformed { fault: Fault },
}

/// True of the five bytes that a reply can start with.
pub open spec fn is_tag(b: u8) -> bool {
    b == PLUS || b == MINUS || b == COLON || b == DOLLAR || b == STAR
}

/// The text that a line holds, if it is UTF-8.
pub open spec fn text_of(line: Seq<u8>) -> Option<Seq<char>> {
    if valid_utf8(line) {
        Some(decode_utf8(line))
    } else {
        None
    }
}

/// A simple string whose line is `line` and ends before `next`.
pub open spec fn simple_string_reply(line: Seq<u8>, next: int) -> Parsed<Reply> {
    match text_of(line) {
        Some(text) => Parsed::Complete { value: Reply::SimpleString(text), end: next },
        None => Parsed::Malformed { fault: Fault::BadText },
    }
}

/// An error reply whose line is `line` and ends before `next`.
pub open spec fn error_reply(line: Seq<u8>, next: int) -> Parsed<Reply> {
    match text_of(line) {
        Some(text) => Parsed::Complete { value: Reply::Error(text), end: next },
        None => Parsed::Malformed { fault: Fault::BadText },
    }
}

/// An integer reply whose field is `field` and ends before `next`.
pub open spec fn integer_reply(field: Seq<u8>, next: int) -> Parsed<Reply> {
    match decimal_i64(field) {
        Some(value) => Parsed::Complete { value: Reply::Integer(value as int), end: next },
        None => Parsed::Malformed { fault: Fault::BadInteger },
    }
}

/// A bulk string whose length field is `field` and whose payload starts at
/// `next` in `s`: exactly as many bytes as the field says, whatever they are,
/// and then a line terminator.
pub open spec fn bulk_reply(s: Seq<u8>, field: Seq<u8>, next: int) -> Parsed<Reply> {
    match decimal_i64(field) {
        None => Parsed::Malformed { fault: Fault::BadLength },
        Some(length) => if length == -1 {
            Parsed::Complete { value: Reply::Nil, end: next }
        } else if length < -1 {
            Parsed::Malformed { fault: Fault::BadLength }
        } else if s.len() < next + length + 2 {
            Parsed::NeedMoreBytes
        } else if !terminator_at(s, next + length) {
            Parsed::Malformed { fault: Fault::BadTerminator }
        } else {
            Parsed::Complete {
                value: Reply::BulkString(s.subrange(next, next + length)),
                end: next + length + 2,
            }
        },
    }
}

/// Puts replies that were read already in front of the outcome of reading
/// the rest.
pub open spec fn with_front(front: Seq<Reply>, rest: Parsed<Seq<Reply>>) -> Parsed<Seq<Reply>> {
    match rest {
        Parsed::Complete { value, end } => Parsed::Complete { value: front + value, end },
        Parsed::NeedMoreBytes => Parsed::NeedMoreBytes,
        Parsed::Malformed { fault } => Parsed::Malformed { fault },
    }
}

/// The array made of items that were read.
pub open spec fn array_of(items: Parsed<Seq<Reply>>) -> Parsed<Reply> {
    match items {
        Parsed::Complete { value, end } => Parsed::Complete { value: Reply::Array(value), end },
        Parsed::NeedMoreBytes => Parsed::NeedMoreBytes,
        Parsed::Malformed { fault } => Parsed::Malformed { fault },
    }
}

/// The reply that starts at `pos` in `s`.
///
/// The first byte names the kind; any other first byte is malformed at
/// once. The line behind it is looked at only when its terminator has
/// arrived.
pub open spec fn decode_at(s: Seq<u8>, pos: int) -> Parsed<Reply>
    decreases s.len() - pos, 0nat,
{
    if pos < 0 || pos >= s.len() {
        Parsed::NeedMoreBytes
    } else if !is_tag(s[pos]) {
        Parsed::Malformed { fault: Fault::UnexpectedByte(s[pos]) }
    } else if !has_line(s, pos + 1) {
        Parsed::NeedMoreBytes
    } else {
        let end = line_end(s, pos + 1);
        let field = s.subrange(pos + 1, end);
        let next = end + 2;
        if s[pos] == PLUS {
            simple_string_reply(field, next)
        } else if s[pos] == MINUS {
            error_reply(field, next)
        } else if s[pos] == COLON {
            integer_reply(field, next)
        } else if s[pos] == DOLLAR {
            bulk_reply(s, field, next)
        } else {
            match decimal_i64(field) {
                None => Parsed::Malformed { fault: Fault::BadLength },
                Some(count) => if count == -1 {
                    Parsed::Complete { value: Reply::NilArray, end: next }
                } else if count < -1 {
                    Parsed::Malformed { fault: Fault::BadLength }
                } else {
                    array_of(decode_items(s, next, count as nat))
                },
            }
        }
    }
}

/// The `count` replies that stand one behind the other from `pos` in `s`.
pub open spec fn decode_items(s: Seq<u8>, pos: int, count: nat) -> Parsed<Seq<Reply>>
    decreases s.len() - pos, count + 1,
{
    if count == 0 {
        Parsed::Complete { value: Seq::empty(), end: pos }
    } else {
        match decode_at(s, pos) {
            Parsed::Complete { value, end } => if pos < end <= s.len() {
                with_front(seq![value], decode_items(s, end, (count - 1) as nat))
            } else {
                Parsed::NeedMoreBytes
            },
            Parsed::NeedMoreBytes => Parsed::NeedMoreBytes,
            Parsed::Malformed { fault } => Parsed::Malformed { fault },
        }
    }
}

/// The reply at the front of a buffer.
pub open spec fn decode_spec(s: Seq<u8>) -> Parsed<Reply> {
    decode_at(s, 0)
}

/// One argument of a request on the wire: a bulk string.
pub open spec fn bulk_bytes(payload: Seq<u8>) -> Seq<u8> {
    seq![DOLLAR] + decimal_digits(payload.len()) + crlf() + payload + crlf()
}

/// The arguments of a request on the wire, one behind the other.
pub open spec fn bulks_bytes(tokens: Seq<Seq<u8>>) -> Seq<u8>
    decreases tokens.len(),
{
    if tokens.len() == 0 {
        Seq::empty()
    } else {
        bulks_bytes(tokens.drop_last()) + bulk_bytes(tokens.last())
    }
}

/// A request on the wire: an array of bulk strings, one for each token.
pub open spec fn request_bytes(tokens: Seq<Seq<u8>>) -> Seq<u8> {
    seq![STAR] + decimal_digits(tokens.len()) + crlf() + bulks_bytes(tokens)
}

/// A line has one end: a place where the first terminator stands is the
/// place that `line_end` names.
pub proof fn lemma_line_end_unique(s: Seq<u8>, from: int, i: int)
    requires
        line_ends_at(s, from, i),
    ensures
        has_line(s, from),
        line_end(s, from) == i,
{
    let j = line_end(s, from);
    assert(line_ends_at(s, from, j));
    if j < i {
        assert(!terminator_at(s, j));
    } else if i < j {
        assert(!terminator_at(s, i));
    }
}

/// Where there is a line, its end is a terminator inside the buffer, at or
/// after the start.
pub proof fn lemma_line_end_is_end(s: Seq<u8>, from: int)
    requires
        has_line(s, from),
    ensures
        line_ends_at(s, from, line_end(s, from)),
{
}

/// A reply that is complete ends inside the buffer and is at least one byte
/// long.
pub proof fn lemma_decode_at_bounds(s: Seq<u8>, pos: int)
    ensures
        decode_at(s, pos) matches Parsed::Complete { end, .. } ==> 0 <= pos < end <= s.len(),
    decreases s.len() - pos, 0nat,
{
    if 0 <= pos < s.len() && is_tag(s[pos]) && has_line(s, pos + 1) {
        let end = line_end(s, pos + 1);
        lemma_line_end_is_end(s, pos + 1);
        let field = s.subrange(pos + 1, end);
        let next = end + 2;
        if s[pos] == STAR {
            match decimal_i64(field) {
                Some(count) => {
                    if count >= 0 {
                        lemma_decode_items_bounds(s, next, count as nat);
                    }
                },
                None => {},
            }
        }
    }
}

/// Replies that are complete end inside the buffer, at or after the start.
pub proof fn lemma_decode_items_bounds(s: Seq<u8>, pos: int, count: nat)
    requires
        0 <= pos <= s.len(),
    ensures
        decode_items(s, pos, count) matches Parsed::Complete { value, end } ==> pos <= end
            <= s.len() && value.len() == count,
    decreases s.len() - pos, count + 1,
{
    if count > 0 {
        lemma_decode_at_bounds(s, pos);
        match decode_at(s, pos) {
            Parsed::Complete { value, end } => {
                lemma_decode_items_bounds(s, end, (count - 1) as nat);
            },
            _ => {},
        }
    }
}

} // verus!
