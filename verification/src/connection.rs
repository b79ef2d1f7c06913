//! A connection to the server, as far as it decides: it says what to write
//! and when to read, and takes what was read. Whoever holds the stream does
//! the writing and the reading.

use crate::command::tokens_of;
use crate::enums::{ErrorView, Fault, RedisError};
use crate::laws::lemma_decoded_stays;
use crate::parse::{parse_command, parse_response, push_bytes, Decoded};
use crate::response::{Reply, Response};
use crate::wire::{decode_spec, lemma_decode_at_bounds, request_bytes, Parsed};
use vstd::prelude::*;
use vstd::string::StringExecFns;
use vstd::utf8::encode_utf8;

verus! {

/// How far a round trip has come.
#[derive(Debug, Clone, Copy, PartialEq, Eq, Structural)]
pub enum Phase {
    /// No round trip is in flight.
    Idle,
    /// A request was handed out and is being written.
    Sending,
    /// The request is written and its reply is being read.
    Receiving,
}

/// What the holder of the stream is to do next.
#[derive(Debug, PartialEq)]
pub enum Action {
    /// Write all of these bytes to the stream, then report `Written`.
    Write(Vec<u8>),
    /// Read from the stream, then report what came as `Received`.
    Read,
    /// The round trip is over: this is the reply.
    Done(Response),
    /// The round trip is over, or never began: this is why.
    Fail(RedisError),
}

/// What the holder of the stream reports back.
#[derive(Debug, PartialEq)]
pub enum Event {
    /// The bytes of the request are written.
    Written,
    /// A read returned these bytes; none at the end of the stream.
    Received(Vec<u8>),
    /// Writing or reading failed; the text says how.
    Failed(String),
}

/// The mathematical value of an [`Action`].
pub enum ActionView {
    Write(Seq<u8>),
    Read,
    Done(Reply),
    Fail(ErrorView),
}

/// The mathematical value of an [`Event`].
pub enum EventView {
    Written,
    Received(Seq<u8>),
    Failed(Seq<char>),
}

impl View for Action {
    type V = ActionView;

    open spec fn view(&self) -> ActionView {
        match self {
            Action::Write(bytes) => ActionView::Write(bytes@),
            Action::Read => ActionView::Read,
            Action::Done(response) => ActionView::Done(response@),
            Action::Fail(e) => ActionView::Fail(e@),
        }
    }
}

impl View for Event {
    type V = EventView;

    open spec fn view(&self) -> EventView {
        match self {
            Event::Written => EventView::Written,
            Event::Received(bytes) => EventView::Received(bytes@),
            Event::Failed(text) => EventView::Failed(text@),
        }
    }
}

impl Action {
    /// True when an error inside carries the message of its fault.
    pub open spec fn wf(&self) -> bool {
        self matches Action::Fail(e) ==> e.wf()
    }
}

/// The state of a connection: the phase of its round trip and the bytes
/// that were received and belong to no reply yet.
pub struct State {
    pub phase: Phase,
    pub pending: Seq<u8>,
}

/// The text of the error for a request made while a round trip is in
/// flight.
pub open spec fn busy_message() -> Seq<char> {
    "A round trip is already in flight"@
}

/// The text of the error for an event that the phase does not expect.
pub open spec fn out_of_turn_message() -> Seq<char> {
    "Event does not belong to this phase of the round trip"@
}

/// The text of the error for a stream that ends before the reply does.
pub open spec fn end_of_stream_message() -> Seq<char> {
    "Stream ended before a complete response"@
}

/// A state in another phase.
pub open spec fn in_phase(state: State, phase: Phase) -> State {
    State { phase, pending: state.pending }
}

/// What a request for the command line `command` leads to.
///
/// While a round trip is in flight no other can begin. A line whose quotes
/// do not pair up fails and nothing is to be written. Any other line is
/// encoded and is to be written.
pub open spec fn begin(state: State, command: Seq<u8>) -> (State, ActionView) {
    if state.phase != Phase::Idle {
        (state, ActionView::Fail(ErrorView::Connection(busy_message())))
    } else {
        match tokens_of(command) {
            Some(tokens) => (
                in_phase(state, Phase::Sending),
                ActionView::Write(request_bytes(tokens)),
            ),
            None => (state, ActionView::Fail(ErrorView::Parse(Fault::MismatchedQuotes))),
        }
    }
}

/// What an event leads to.
///
/// After the request is written, the reply is read: what a read returns
/// joins the bytes that are pending, and the front of these is decoded. A
/// reply ends the round trip and leaves what stands behind it pending; the
/// beginning of a reply asks for another read; bytes that are no reply fail.
/// A read that returns nothing fails, since the stream has ended. A failure
/// of the stream fails in any phase, and so does an event that the phase
/// does not expect. Every failure ends the round trip.
pub open spec fn step(state: State, event: EventView) -> (State, ActionView) {
    let idle = in_phase(state, Phase::Idle);
    match event {
        EventView::Failed(text) => (idle, ActionView::Fail(ErrorView::Connection(text))),
        EventView::Written => if state.phase == Phase::Sending {
            (in_phase(state, Phase::Receiving), ActionView::Read)
        } else {
            (idle, ActionView::Fail(ErrorView::Connection(out_of_turn_message())))
        },
        EventView::Received(bytes) => if state.phase != Phase::Receiving {
            (idle, ActionView::Fail(ErrorView::Connection(out_of_turn_message())))
        } else if bytes.len() == 0 {
            (idle, ActionView::Fail(ErrorView::Connection(end_of_stream_message())))
        } else {
            let all = state.pending + bytes;
            match decode_spec(all) {
                Parsed::Complete { value, end } => (
                    State { phase: Phase::Idle, pending: all.skip(end) },
                    ActionView::Done(value),
                ),
                Parsed::NeedMoreBytes => (
                    State { phase: Phase::Receiving, pending: all },
                    ActionView::Read,
                ),
                Parsed::Malformed { fault } => (
                    State { phase: Phase::Idle, pending: all },
                    ActionView::Fail(ErrorView::Parse(fault)),
                ),
            }
        },
    }
}

/// The command line that asks for the value of `key`.
pub open spec fn get_line(key: Seq<char>) -> Seq<char> {
    "get "@ + key
}

/// The command line that asks the server to send `text` back.
pub open spec fn echo_line(text: Seq<char>) -> Seq<char> {
    "echo "@ + text
}

/// The command line that asks whether the server is there.
pub open spec fn ping_line() -> Seq<char> {
    "PING"@
}

/// The command line that copies the value of `source` to `destination`.
pub open spec fn copy_line(source: Seq<char>, destination: Seq<char>) -> Seq<char> {
    "copy "@ + source + " "@ + destination
}

/// The command line that sets `key` to `value`; the value stands in quotes,
/// so that its spaces stay in it.
pub open spec fn set_line(key: Seq<char>, value: Seq<char>) -> Seq<char> {
    "set "@ + key + " '"@ + value + "'"@
}

/// The command line that appends `value` to the value of `key`; the value
/// stands in quotes, so that its spaces stay in it.
pub open spec fn append_line(key: Seq<char>, value: Seq<char>) -> Seq<char> {
    "append "@ + key + " '"@ + value + "'"@
}

/// The keys of a command line, each followed by a space.
pub open spec fn key_list(keys: Seq<&str>) -> Seq<char>
    decreases keys.len(),
{
    if keys.len() == 0 {
        Seq::empty()
    } else {
        key_list(keys.drop_last()) + keys.last()@ + " "@
    }
}

/// The command line that deletes `keys`.
pub open spec fn delete_line(keys: Seq<&str>) -> Seq<char> {
    "del "@ + key_list(keys)
}

/// Holds connection information for the server, the stream, and the state
/// of the round trip.
pub struct Connection<T> {
    /// The server host.
    pub host: String,
    /// The server port.
    pub port: u32,
    /// The stream, already connected. The connection never touches it.
    pub stream: T,
    /// How far the round trip has come.
    pub phase: Phase,
    /// The bytes that were received and belong to no reply yet.
    pub pending: Vec<u8>,
}

impl<T> Connection<T> {
    /// The state of the round trip.
    pub open spec fn state(&self) -> State {
        State { phase: self.phase, pending: self.pending@ }
    }

    /// True when `self` differs from `other` in its state at most.
    pub open spec fn same_peer(&self, other: &Self) -> bool {
        &&& self.host == other.host
        &&& self.port == other.port
        &&& self.stream == other.stream
    }

    /// Create a new connection, with no round trip in flight and no bytes
    /// pending.
    pub fn new(host: String, port: u32, stream: T) -> (c: Connection<T>)
        ensures
            c.host == host,
            c.port == port,
            c.stream == stream,
            c.state() == (State { phase: Phase::Idle, pending: Seq::empty() }),
    {
        Connection { host, port, stream, phase: Phase::Idle, pending: Vec::new() }
    }

    /// Begin a round trip for a raw command line.
    pub fn send_raw_request(&mut self, command: &str) -> (action: Action)
        ensures
            (final(self).state(), action@) == begin(old(self).state(), encode_utf8(command@)),
            final(self).same_peer(old(self)),
            action.wf(),
    {
        if self.phase != Phase::Idle {
            return Action::Fail(
                RedisError::SocketConnectionError(
                    String::from_str("A round trip is already in flight"),
                ),
            );
        }
        match parse_command(command) {
            Ok(request) => {
                self.phase = Phase::Sending;
                Action::Write(request)
            },
            Err(e) => Action::Fail(e),
        }
    }

    /// Append `value` to the value related to `key`. The reply is the length
    /// of the value afterwards, as an integer.
    pub fn append(&mut self, key: &str, value: &str) -> (action: Action)
        ensures
            (final(self).state(), action@) == begin(
                old(self).state(),
                encode_utf8(append_line(key@, value@)),
            ),
            final(self).same_peer(old(self)),
            action.wf(),
    {
        let mut request: String = String::from_str("append ");
        request.append(key);
        request.append(" '");
        request.append(value);
        request.append("'");
        self.send_raw_request(request.as_str())
    }

    /// Fetch the value of `key`. The reply is the value as a bulk string.
    pub fn get(&mut self, key: &str) -> (action: Action)
        ensures
            (final(self).state(), action@) == begin(
                old(self).state(),
                encode_utf8(get_line(key@)),
            ),
            final(self).same_peer(old(self)),
            action.wf(),
    {
        let mut request: String = String::from_str("get ");
        request.append(key);
        self.send_raw_request(request.as_str())
    }

    /// Ask the server to send `string` back. This is great for health
    /// checking the server.
    pub fn echo(&mut self, string: &str) -> (action: Action)
        ensures
            (final(self).state(), action@) == begin(
                old(self).state(),
                encode_utf8(echo_line(string@)),
            ),
            final(self).same_peer(old(self)),
            action.wf(),
    {
        let mut request: String = String::from_str("echo ");
        request.append(string);
        self.send_raw_request(request.as_str())
    }

    /// Create or replace `key` with the value `value`. The reply is OK as a
    /// simple string on success.
    pub fn set(&mut self, key: &str, value: &str) -> (action: Action)
        ensures
            (final(self).state(), action@) == begin(
                old(self).state(),
                encode_utf8(set_line(key@, value@)),
            ),
            final(self).same_peer(old(self)),
            action.wf(),
    {
        let mut request: String = String::from_str("set ");
        request.append(key);
        request.append(" '");
        request.append(value);
        request.append("'");
        self.send_raw_request(request.as_str())
    }

    /// Ping the server. The reply should be PONG as a simple string.
    pub fn ping(&mut self) -> (action: Action)
        ensures
            (final(self).state(), action@) == begin(
                old(self).state(),
                encode_utf8(ping_line()),
            ),
            final(self).same_peer(old(self)),
            action.wf(),
    {
        self.send_raw_request("PING")
    }

    /// Delete keys from the server. The reply is the number of keys removed.
    pub fn delete(&mut self, keys: Vec<&str>) -> (action: Action)
        ensures
            (final(self).state(), action@) == begin(
                old(self).state(),
                encode_utf8(delete_line(keys@)),
            ),
            final(self).same_peer(old(self)),
            action.wf(),
    {
        let mut request: String = String::from_str("del ");
        let n: usize = keys.len();
        let mut i: usize = 0;
        assert(keys@.take(0) =~= Seq::<&str>::empty());
        assert("del "@ + key_list(keys@.take(0)) =~= "del "@);
        while i < n
            invariant
                i <= n,
                n == keys@.len(),
                request@ == "del "@ + key_list(keys@.take(i as int)),
            decreases n - i,
        {
            proof {
                let done = keys@.take(i + 1);
                assert(done.drop_last() =~= keys@.take(i as int));
                assert(done.last() == keys@[i as int]);
                assert(("del "@ + key_list(keys@.take(i as int))) + keys@[i as int]@ + " "@
                    =~= "del "@ + key_list(done));
            }
            request.append(keys[i]);
            request.append(" ");
            i = i + 1;
        }
        assert(keys@.take(n as int) =~= keys@);
        self.send_raw_request(request.as_str())
    }

    /// Copy the value of `source` to `destination`. The reply is 1 if the
    /// value was copied and 0 if not.
    pub fn copy(&mut self, source: &str, destination: &str) -> (action: Action)
        ensures
            (final(self).state(), action@) == begin(
                old(self).state(),
                encode_utf8(copy_line(source@, destination@)),
            ),
            final(self).same_peer(old(self)),
            action.wf(),
    {
        let mut request: String = String::from_str("copy ");
        request.append(source);
        request.append(" ");
        request.append(destination);
        self.send_raw_request(request.as_str())
    }

    /// Take the next step of the round trip: say what follows from `event`.
    pub fn advance(&mut self, event: Event) -> (action: Action)
        ensures
            (final(self).state(), action@) == step(old(self).state(), event@),
            final(self).same_peer(old(self)),
            action.wf(),
    {
        match event {
            Event::Failed(text) => {
                self.phase = Phase::Idle;
                Action::Fail(RedisError::SocketConnectionError(text))
            },
            Event::Written => {
                if self.phase == Phase::Sending {
                    self.phase = Phase::Receiving;
                    Action::Read
                } else {
                    self.phase = Phase::Idle;
                    Action::Fail(out_of_turn())
                }
            },
            Event::Received(bytes) => {
                if self.phase != Phase::Receiving {
                    self.phase = Phase::Idle;
                    Action::Fail(out_of_turn())
                } else if bytes.len() == 0 {
                    self.phase = Phase::Idle;
                    Action::Fail(
                        RedisError::SocketConnectionError(
                            String::from_str("Stream ended before a complete response"),
                        ),
                    )
                } else {
                    push_bytes(&mut self.pending, bytes.as_slice());
                    match parse_response(self.pending.as_slice()) {
                        Ok(Decoded::Complete(response, end)) => {
                            let rest: Vec<u8> = self.pending.split_off(end);
                            self.pending = rest;
                            self.phase = Phase::Idle;
                            Action::Done(response)
                        },
                        Ok(Decoded::NeedMoreBytes) => Action::Read,
                        Err(e) => {
                            self.phase = Phase::Idle;
                            Action::Fail(RedisError::ParseError(e))
                        },
                    }
                }
            },
        }
    }
}

/// The error for an event that the phase does not expect.
fn out_of_turn() -> (e: RedisError)
    ensures
        e@ == ErrorView::Connection(out_of_turn_message()),
        e.wf(),
{
    RedisError::SocketConnectionError(
        String::from_str("Event does not belong to this phase of the round trip"),
    )
}

/// A request is written once: no event leads to another write. The
/// connection asks to read only while it is receiving, and it is idle
/// whenever a round trip has ended, with a reply or with a failure.
pub proof fn lemma_step_phases(state: State, event: EventView)
    ensures
        !(step(state, event).1 is Write),
        step(state, event).1 is Read ==> step(state, event).0.phase == Phase::Receiving,
        step(state, event).1 is Done || step(state, event).1 is Fail ==> step(
            state,
            event,
        ).0.phase == Phase::Idle,
        step(state, event).1 is Done ==> state.phase == Phase::Receiving,
{
}

/// A reply may come in any number of reads: where the first of two reads
/// leaves the reply incomplete, both together lead to what one read of all
/// their bytes leads to.
pub proof fn lemma_reads_join(state: State, first: Seq<u8>, second: Seq<u8>)
    requires
        state.phase == Phase::Receiving,
        first.len() > 0,
        second.len() > 0,
        step(state, EventView::Received(first)).1 is Read,
    ensures
        step(step(state, EventView::Received(first)).0, EventView::Received(second)) == step(
            state,
            EventView::Received(first + second),
        ),
{
    assert((state.pending + first) + second =~= state.pending + (first + second));
}

/// A reply that has come stays the same however many bytes the read brought
/// behind it: they are kept for the next round trip.
pub proof fn lemma_reply_ignores_what_follows(state: State, bytes: Seq<u8>, more: Seq<u8>)
    requires
        state.phase == Phase::Receiving,
        bytes.len() > 0,
        step(state, EventView::Received(bytes)).1 is Done,
    ensures
        step(state, EventView::Received(bytes + more)).1 == step(
            state,
            EventView::Received(bytes),
        ).1,
        step(state, EventView::Received(bytes + more)).0.pending == step(
            state,
            EventView::Received(bytes),
        ).0.pending + more,
{
    let all = state.pending + bytes;
    assert(state.pending + (bytes + more) =~= all + more);
    lemma_decoded_stays(all, more);
    lemma_decode_at_bounds(all, 0);
    let end = decode_spec(all)->end;
    assert((all + more).skip(end) =~= all.skip(end) + more);
}

/// The bytes of some reads, one behind the other.
pub open spec fn joined(chunks: Seq<Seq<u8>>) -> Seq<u8>
    decreases chunks.len(),
{
    if chunks.len() == 0 {
        Seq::empty()
    } else {
        chunks[0] + joined(chunks.drop_first())
    }
}

/// Where the connection stands after reads that returned `chunks`, one
/// after the other, as long as it asked to read.
pub open spec fn after_reads(state: State, chunks: Seq<Seq<u8>>) -> (State, ActionView)
    decreases chunks.len(),
{
    if chunks.len() == 0 {
        (state, ActionView::Read)
    } else {
        let (next, action) = step(state, EventView::Received(chunks[0]));
        if action is Read {
            after_reads(next, chunks.drop_first())
        } else {
            (next, action)
        }
    }
}

/// The round trip ends with the reply, however the stream cuts it up: where
/// the bytes that are pending and those of the reads begin with a whole
/// reply, the connection reads on until it has it and then hands it out.
pub proof fn lemma_reads_until_reply(state: State, chunks: Seq<Seq<u8>>)
    requires
        state.phase == Phase::Receiving,
        forall|k: int| 0 <= k < chunks.len() ==> (#[trigger] chunks[k]).len() > 0,
        chunks.len() > 0,
        decode_spec(state.pending + joined(chunks)) is Complete,
    ensures
        after_reads(state, chunks).1 == ActionView::Done(
            decode_spec(state.pending + joined(chunks))->value,
        ),
        after_reads(state, chunks).0.phase == Phase::Idle,
    decreases chunks.len(),
{
    let first = chunks[0];
    let rest = chunks.drop_first();
    let all = state.pending + first;
    assert(state.pending + joined(chunks) =~= all + joined(rest));
    if decode_spec(all) is NeedMoreBytes {
        if rest.len() == 0 {
            assert(joined(rest) =~= Seq::<u8>::empty());
            assert(all + joined(rest) =~= all);
        } else {
            let next = step(state, EventView::Received(first)).0;
            assert forall|k: int| 0 <= k < rest.len() implies (#[trigger] rest[k]).len() > 0 by {
                assert(rest[k] == chunks[k + 1]);
            }
            lemma_reads_until_reply(next, rest);
        }
    } else {
        lemma_decoded_stays(all, joined(rest));
    }
}

} // verus!
