//! What holds between the encoder and the decoder, and of a buffer as it
//! grows.

use crate::decimal::{decimal_digits, decimal_i64, is_digit, lemma_decimal_digits};
use crate::response::Reply;
use crate::wire::{
    bulk_bytes, bulks_bytes, crlf, decode_at, decode_items, decode_spec, has_line, is_tag,
    lemma_decode_at_bounds, lemma_line_end_is_end, lemma_line_end_unique, line_end,
    line_ends_at, request_bytes, terminator_at, Parsed, DOLLAR, STAR,
};
use vstd::prelude::*;

verus! {

/// The bulk strings that a request of these tokens carries.
pub open spec fn bulk_replies(tokens: Seq<Seq<u8>>) -> Seq<Reply> {
    Seq::new(tokens.len(), |i: int| Reply::BulkString(tokens[i]))
}

/// True when `piece` stands in `s` at `pos`.
pub open spec fn stands_at(s: Seq<u8>, pos: int, piece: Seq<u8>) -> bool {
    &&& 0 <= pos
    &&& pos + piece.len() <= s.len()
    &&& s.subrange(pos, pos + piece.len()) == piece
}

/// The arguments of a request are those of its first tokens followed by
/// those of the rest.
pub proof fn lemma_bulks_bytes_concat(a: Seq<Seq<u8>>, b: Seq<Seq<u8>>)
    ensures
        bulks_bytes(a + b) == bulks_bytes(a) + bulks_bytes(b),
    decreases b.len(),
{
    if b.len() == 0 {
        assert(a + b =~= a);
        assert(bulks_bytes(a) + bulks_bytes(b) =~= bulks_bytes(a));
    } else {
        let init = b.drop_last();
        assert((a + b).drop_last() =~= a + init);
        assert((a + b).last() == b.last());
        lemma_bulks_bytes_concat(a, init);
        assert((bulks_bytes(a) + bulks_bytes(init)) + bulk_bytes(b.last()) =~= bulks_bytes(a) + (
        bulks_bytes(init) + bulk_bytes(b.last())));
    }
}

/// Where a tag, the digits of `n` and a line terminator stand at `pos`, the
/// line behind the tag holds those digits, which read back as `n`.
proof fn lemma_header_line(s: Seq<u8>, pos: int, tag: u8, n: nat)
    requires
        n <= i64::MAX,
        stands_at(s, pos, seq![tag] + decimal_digits(n) + crlf()),
    ensures
        s[pos] == tag,
        has_line(s, pos + 1),
        line_end(s, pos + 1) == pos + 1 + decimal_digits(n).len(),
        decimal_i64(s.subrange(pos + 1, line_end(s, pos + 1))) == Some(n as i64),
{
    let digits = decimal_digits(n);
    let piece = seq![tag] + digits + crlf();
    let end = pos + 1 + digits.len();
    lemma_decimal_digits(n);
    assert(piece.len() == digits.len() + 3);
    assert forall|k: int| 0 <= k < piece.len() implies s[pos + k] == piece[k] by {
        assert(s.subrange(pos, pos + piece.len())[k] == s[pos + k]);
    }
    assert(s[pos] == piece[0]);
    assert(s[end] == piece[end - pos]);
    assert(s[end + 1] == piece[end + 1 - pos]);
    assert(terminator_at(s, end));
    assert forall|j: int| pos + 1 <= j < end implies !terminator_at(s, j) by {
        assert(s[j] == piece[j - pos]);
        assert(piece[j - pos] == digits[j - pos - 1]);
        assert(is_digit(digits[j - pos - 1]));
    }
    assert(line_ends_at(s, pos + 1, end));
    lemma_line_end_unique(s, pos + 1, end);
    assert(s.subrange(pos + 1, end) =~= digits) by {
        assert forall|k: int| 0 <= k < digits.len() implies s.subrange(pos + 1, end)[k]
            == digits[k] by {
            assert(s[pos + 1 + k] == piece[1 + k]);
        }
    }
}

/// A bulk string that the encoder wrote is read back as it was, whatever
/// bytes it holds.
pub proof fn lemma_bulk_round_trip(s: Seq<u8>, pos: int, payload: Seq<u8>)
    requires
        payload.len() <= i64::MAX,
        stands_at(s, pos, bulk_bytes(payload)),
    ensures
        decode_at(s, pos) == (Parsed::Complete {
            value: Reply::BulkString(payload),
            end: pos + bulk_bytes(payload).len(),
        }),
{
    let digits = decimal_digits(payload.len());
    let head = seq![DOLLAR] + digits + crlf();
    let piece = bulk_bytes(payload);
    assert(piece =~= head + (payload + crlf()));
    assert(s.subrange(pos, pos + head.len()) =~= head) by {
        assert forall|k: int| 0 <= k < head.len() implies s.subrange(pos, pos + head.len())[k]
            == head[k] by {
            assert(s.subrange(pos, pos + piece.len())[k] == s[pos + k]);
            assert(piece[k] == head[k]);
        }
    }
    lemma_header_line(s, pos, DOLLAR, payload.len());
    let next = pos + head.len();
    assert forall|k: int| 0 <= k < piece.len() implies s[pos + k] == piece[k] by {
        assert(s.subrange(pos, pos + piece.len())[k] == s[pos + k]);
    }
    assert(s[next + payload.len()] == piece[next + payload.len() - pos]);
    assert(s[next + payload.len() + 1] == piece[next + payload.len() + 1 - pos]);
    assert(terminator_at(s, next + payload.len()));
    assert(s.subrange(next, next + payload.len()) =~= payload) by {
        assert forall|k: int| 0 <= k < payload.len() implies s.subrange(
            next,
            next + payload.len(),
        )[k] == payload[k] by {
            assert(s[next + k] == piece[head.len() + k]);
        }
    }
}

/// The arguments that the encoder wrote are read back one by one.
pub proof fn lemma_bulks_round_trip(s: Seq<u8>, pos: int, tokens: Seq<Seq<u8>>)
    requires
        forall|k: int| 0 <= k < tokens.len() ==> (#[trigger] tokens[k]).len() <= i64::MAX,
        stands_at(s, pos, bulks_bytes(tokens)),
    ensures
        decode_items(s, pos, tokens.len()) == (Parsed::Complete {
            value: bulk_replies(tokens),
            end: pos + bulks_bytes(tokens).len(),
        }),
    decreases tokens.len(),
{
    if tokens.len() == 0 {
        assert(bulk_replies(tokens) =~= Seq::<Reply>::empty());
    } else {
        let first = tokens[0];
        let rest = tokens.drop_first();
        assert(tokens =~= seq![first] + rest);
        lemma_bulks_bytes_concat(seq![first], rest);
        let one = seq![first];
        assert(one.drop_last() =~= Seq::<Seq<u8>>::empty());
        assert(bulks_bytes(one.drop_last()) =~= Seq::<u8>::empty());
        assert(one.last() == first);
        assert(bulks_bytes(one) =~= bulk_bytes(first));
        let all = bulks_bytes(tokens);
        let head = bulk_bytes(first);
        let tail = bulks_bytes(rest);
        assert(all == head + tail);
        assert(s.subrange(pos, pos + head.len()) =~= head) by {
            assert forall|k: int| 0 <= k < head.len() implies s.subrange(
                pos,
                pos + head.len(),
            )[k] == head[k] by {
                assert(s.subrange(pos, pos + all.len())[k] == s[pos + k]);
            }
        }
        lemma_bulk_round_trip(s, pos, first);
        let next = pos + head.len();
        assert(s.subrange(next, next + tail.len()) =~= tail) by {
            assert forall|k: int| 0 <= k < tail.len() implies s.subrange(
                next,
                next + tail.len(),
            )[k] == tail[k] by {
                assert(s.subrange(pos, pos + all.len())[head.len() + k] == s[next + k]);
            }
        }
        assert forall|k: int| 0 <= k < rest.len() implies (#[trigger] rest[k]).len()
            <= i64::MAX by {
            assert(rest[k] == tokens[k + 1]);
        }
        lemma_bulks_round_trip(s, next, rest);
        assert(seq![Reply::BulkString(first)] + bulk_replies(rest) =~= bulk_replies(tokens));
    }
}

/// The header of a request counts its tokens: a request starts with `*`,
/// and the line behind it holds the number of tokens and nothing else.
pub proof fn lemma_request_header(tokens: Seq<Seq<u8>>)
    requires
        tokens.len() <= i64::MAX,
    ensures
        request_bytes(tokens)[0] == STAR,
        has_line(request_bytes(tokens), 1),
        decimal_i64(request_bytes(tokens).subrange(1, line_end(request_bytes(tokens), 1)))
            == Some(tokens.len() as i64),
{
    let s = request_bytes(tokens);
    let head = seq![STAR] + decimal_digits(tokens.len()) + crlf();
    assert(s.subrange(0, head.len() as int) =~= head);
    lemma_header_line(s, 0, STAR, tokens.len());
}

/// Decoding what the encoder wrote gives back the tokens: a request is an
/// array with one bulk string for each token, in order, and the decoder
/// takes all of its bytes.
pub proof fn lemma_request_round_trip(tokens: Seq<Seq<u8>>)
    requires
        tokens.len() <= i64::MAX,
        forall|k: int| 0 <= k < tokens.len() ==> (#[trigger] tokens[k]).len() <= i64::MAX,
    ensures
        decode_spec(request_bytes(tokens)) == (Parsed::Complete {
            value: Reply::Array(bulk_replies(tokens)),
            end: request_bytes(tokens).len() as int,
        }),
{
    let s = request_bytes(tokens);
    let head = seq![STAR] + decimal_digits(tokens.len()) + crlf();
    let body = bulks_bytes(tokens);
    assert(s == head + body);
    assert(s.subrange(0, head.len() as int) =~= head);
    lemma_header_line(s, 0, STAR, tokens.len());
    assert(s.subrange(head.len() as int, s.len() as int) =~= body);
    lemma_bulks_round_trip(s, head.len() as int, tokens);
}

/// A line that has ended stays as it is when bytes arrive behind it.
proof fn lemma_line_stable(s: Seq<u8>, t: Seq<u8>, from: int)
    requires
        0 <= from,
        has_line(s, from),
    ensures
        has_line(s + t, from),
        line_end(s + t, from) == line_end(s, from),
        (s + t).subrange(from, line_end(s, from)) == s.subrange(from, line_end(s, from)),
{
    let end = line_end(s, from);
    let longer = s + t;
    lemma_line_end_is_end(s, from);
    assert(longer[end] == s[end]);
    assert(longer[end + 1] == s[end + 1]);
    assert forall|j: int| from <= j < end implies !terminator_at(longer, j) by {
        assert(longer[j] == s[j]);
        assert(longer[j + 1] == s[j + 1]);
        assert(!terminator_at(s, j));
    }
    assert(line_ends_at(longer, from, end));
    lemma_line_end_unique(longer, from, end);
    assert(longer.subrange(from, end) =~= s.subrange(from, end));
}

/// What was decoded at `pos` stays decoded when bytes arrive at the end of
/// the buffer: a reply stays that reply, a fault stays that fault.
pub proof fn lemma_decode_at_stable(s: Seq<u8>, t: Seq<u8>, pos: int)
    ensures
        decode_at(s, pos) !is NeedMoreBytes ==> decode_at(s + t, pos) == decode_at(s, pos),
    decreases s.len() - pos, 0nat,
{
    let longer = s + t;
    if 0 <= pos < s.len() {
        assert(longer[pos] == s[pos]);
        if is_tag(s[pos]) && has_line(s, pos + 1) {
            let end = line_end(s, pos + 1);
            lemma_line_end_is_end(s, pos + 1);
            lemma_line_stable(s, t, pos + 1);
            let field = s.subrange(pos + 1, end);
            let next = end + 2;
            if s[pos] == DOLLAR {
                match decimal_i64(field) {
                    Some(length) => {
                        if length >= 0 && s.len() >= next + length + 2 {
                            assert(longer[next + length] == s[next + length]);
                            assert(longer[next + length + 1] == s[next + length + 1]);
                            assert(longer.subrange(next, next + length) =~= s.subrange(
                                next,
                                next + length,
                            ));
                        }
                    },
                    None => {},
                }
            } else if s[pos] == STAR {
                match decimal_i64(field) {
                    Some(count) => {
                        if count >= 0 {
                            lemma_decode_items_stable(s, t, next, count as nat);
                        }
                    },
                    None => {},
                }
            }
        }
    }
}

/// What was decoded of a run of replies stays decoded when bytes arrive at
/// the end of the buffer.
pub proof fn lemma_decode_items_stable(s: Seq<u8>, t: Seq<u8>, pos: int, count: nat)
    requires
        0 <= pos <= s.len(),
    ensures
        decode_items(s, pos, count) !is NeedMoreBytes ==> decode_items(s + t, pos, count)
            == decode_items(s, pos, count),
    decreases s.len() - pos, count + 1,
{
    if count > 0 {
        lemma_decode_at_stable(s, t, pos);
        lemma_decode_at_bounds(s, pos);
        match decode_at(s, pos) {
            Parsed::Complete { value, end } => {
                lemma_decode_items_stable(s, t, end, (count - 1) as nat);
            },
            _ => {},
        }
    }
}

/// Bytes that arrive behind a reply change nothing: once the front of a
/// buffer decodes to a reply or to a fault, it decodes to the same however
/// the buffer grows.
pub proof fn lemma_decoded_stays(s: Seq<u8>, t: Seq<u8>)
    requires
        decode_spec(s) !is NeedMoreBytes,
    ensures
        decode_spec(s + t) == decode_spec(s),
{
    lemma_decode_at_stable(s, t, 0);
}

/// A reply that is cut short asks for more bytes: where the front of a
/// buffer is a reply of `end` bytes, each shorter beginning of the buffer is
/// neither a reply nor a fault.
pub proof fn lemma_cut_short_needs_more(s: Seq<u8>, k: int)
    requires
        decode_spec(s) is Complete,
        0 <= k < decode_spec(s)->end,
    ensures
        decode_spec(s.take(k)) is NeedMoreBytes,
{
    lemma_decode_at_bounds(s, 0);
    let front = s.take(k);
    let back = s.skip(k);
    assert(front + back =~= s);
    lemma_decode_at_stable(front, back, 0);
    lemma_decode_at_bounds(front, 0);
}

/// The decoder asks for more only while a reply may still come: if a grown
/// buffer still needs more bytes, so did every beginning of it.
pub proof fn lemma_need_more_from_the_start(s: Seq<u8>, t: Seq<u8>)
    requires
        decode_spec(s + t) is NeedMoreBytes,
    ensures
        decode_spec(s) is NeedMoreBytes,
{
    lemma_decode_at_stable(s, t, 0);
}

} // verus!
