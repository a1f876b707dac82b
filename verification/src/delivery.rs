//! Handing a text to one client's outgoing queue, and the record of it.
//!
//! A `Delivery` can only be made here, by `send_to_client`, so holding one
//! for a client and a text shows that the text was handed to that client's
//! queue; whether the queue took it is `is_delivered`.
use vstd::prelude::*;

verus! {

#[verifier::external_type_specification]
#[verifier::external_body]
#[verifier::reject_recursive_types(T)]
pub struct ExUnboundedSender<T>(tokio::sync::mpsc::UnboundedSender<T>);

/// One text handed to one client's queue, and whether the queue took it.
pub struct Delivery {
    client: u64,
    text: String,
    delivered: bool,
}

impl Delivery {
    /// The client the text was handed to.
    pub closed spec fn client(self) -> u64 {
        self.client
    }

    /// The text handed over.
    pub closed spec fn text(self) -> Seq<char> {
        self.text@
    }

    /// Whether the client's queue took the text (false: its receiver is
    /// gone).
    pub closed spec fn is_delivered(self) -> bool {
        self.delivered
    }

    pub fn client_id(&self) -> (r: u64)
        ensures
            r == self.client(),
    {
        self.client
    }

    pub fn delivered(&self) -> (r: bool)
        ensures
            r == self.is_delivered(),
    {
        self.delivered
    }

    /// The client and whether the text reached its queue.
    pub fn outcome(&self) -> (r: (u64, bool))
        ensures
            r == (self.client(), self.is_delivered()),
    {
        (self.client, self.delivered)
    }
}

/// `UnboundedSender::send` of a copy of `text` on `tx`, the queue of
/// `client`. The record names the client and the text handed over; whether
/// the queue took it (`Ok`) or its receiver was gone (`Err`) depends on the
/// connection, so nothing is stated of `is_delivered`.
#[verifier::external_body]
pub(crate) fn send_to_client(client: u64, tx: &tokio::sync::mpsc::UnboundedSender<String>, text: &String) -> (d: Delivery)
    ensures
        d.client() == client,
        d.text() == text@,
{
    Delivery { client, text: text.clone(), delivered: tx.send(text.clone()).is_ok() }
}

} // verus!
