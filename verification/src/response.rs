//! The replies of the server.

use vstd::prelude::*;

verus! {

/// A reply of the server, one of the five kinds of the protocol. "No value"
/// and "no array" are kinds of their own, apart from the empty string and
/// the empty array.
#[derive(Debug, PartialEq)]
pub enum Response {
    /// A short status line.
    SimpleString(String),
    /// The server replied with an error.
    Error(String),
    /// A signed number.
    Integer(i64),
    /// A string of known size, of any bytes.
    BulkString(Vec<u8>),
    /// The bulk string that is not there.
    Nil,
    /// A sequence of replies, in order.
    Array(Vec<Response>),
    /// The array that is not there.
    NilArray,
}

/// The mathematical value of a [`Response`].
pub enum Reply {
    SimpleString(Seq<char>),
    Error(Seq<char>),
    Integer(int),
    BulkString(Seq<u8>),
    Nil,
    Array(Seq<Reply>),
    NilArray,
}

impl View for Response {
    type V = Reply;

    open spec fn view(&self) -> Reply
        decreases self,
    {
        match self {
            Response::SimpleString(text) => Reply::SimpleString(text@),
            Response::Error(text) => Reply::Error(text@),
            Response::Integer(value) => Reply::Integer(*value as int),
            Response::BulkString(bytes) => Reply::BulkString(bytes@),
            Response::Nil => Reply::Nil,
            Response::Array(items) => Reply::Array(
                Seq::new(
                    items.len() as nat,
                    |i: int|
                        if 0 <= i < items.len() {
                            items[i].view()
                        } else {
                            Reply::Nil
                        },
                ),
            ),
            Response::NilArray => Reply::NilArray,
        }
    }
}

/// The values of a sequence of responses, item by item.
pub open spec fn views(items: Seq<Response>) -> Seq<Reply> {
    Seq::new(items.len(), |i: int| items[i]@)
}

/// The value of an array is the array of the values of its items.
pub proof fn lemma_array_view(items: Vec<Response>)
    ensures
        Response::Array(items)@ == Reply::Array(views(items@)),
{
    let r = Response::Array(items);
    assert(r@->Array_0 =~= views(items@));
}

} // verus!
