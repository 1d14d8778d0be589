//! Message payloads and the stamped message record that the scheduler orders.

use vstd::prelude::*;

verus! {

/// Mathematical value of a [`MessageData`].
pub enum DataView {
    Text(Seq<char>),
    Json(Seq<char>),
    Binary(Seq<u8>),
    Signal(Seq<char>),
}

/// An immutable message payload.
#[derive(Debug, PartialEq)]
pub enum MessageData {
    Text(String),
    Json(String),
    Binary(Vec<u8>),
    Signal(String),
}

impl View for MessageData {
    type V = DataView;

    open spec fn view(&self) -> DataView {
        match self {
            MessageData::Text(s) => DataView::Text(s@),
            MessageData::Json(s) => DataView::Json(s@),
            MessageData::Binary(b) => DataView::Binary(b@),
            MessageData::Signal(s) => DataView::Signal(s@),
        }
    }
}

impl Clone for MessageData {
    /// A clone carries the same payload.
    fn clone(&self) -> (r: Self)
        ensures
            r@ == self@,
    {
        match self {
            MessageData::Text(s) => MessageData::Text(s.clone()),
            MessageData::Json(s) => MessageData::Json(s.clone()),
            MessageData::Binary(b) => {
                let c = b.clone();
                proof {
                    assert(c@ =~= b@);
                }
                MessageData::Binary(c)
            },
            MessageData::Signal(s) => MessageData::Signal(s.clone()),
        }
    }
}

/// Mathematical value of a [`Message`].
pub struct MessageView {
    pub sender: Seq<char>,
    pub data: DataView,
    pub logical_time: u64,
    pub sequence_id: u64,
}

/// A payload together with its ordering metadata, stamped once at send time.
#[derive(Debug, PartialEq)]
pub struct Message {
    pub sender: String,
    pub data: MessageData,
    pub logical_time: u64,
    pub sequence_id: u64,
}

impl View for Message {
    type V = MessageView;

    open spec fn view(&self) -> MessageView {
        MessageView {
            sender: self.sender@,
            data: self.data@,
            logical_time: self.logical_time,
            sequence_id: self.sequence_id,
        }
    }
}

impl Clone for Message {
    /// A clone carries the same stamp and payload.
    fn clone(&self) -> (r: Self)
        ensures
            r@ == self@,
    {
        Message {
            sender: self.sender.clone(),
            data: self.data.clone(),
            logical_time: self.logical_time,
            sequence_id: self.sequence_id,
        }
    }
}

impl Message {
    /// Builds a message from its parts; nothing is recomputed or altered.
    pub fn new(sender: String, data: MessageData, time: u64, seq: u64) -> (r: Self)
        ensures
            r@ == (MessageView {
                sender: sender@,
                data: data@,
                logical_time: time,
                sequence_id: seq,
            }),
    {
        Message { sender, data, logical_time: time, sequence_id: seq }
    }
}

} // verus!
