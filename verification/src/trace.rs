//! The event trace: one record per delivered message, capturing the actor's
//! state just before execution, exported as JSON for diffing and replay.

use crate::message::{DataView, Message, MessageData, MessageView};
use crate::text::{dec_chars, json_string, push_dec, push_json_string, push_str_part};
use vstd::prelude::*;

verus! {

/// One recorded delivery.
pub struct TraceEvent {
    pub logical_time: u64,
    pub actor_id: String,
    pub input: Message,
    pub state_snapshot: String,
}

/// Mathematical value of a [`TraceEvent`].
pub struct TraceEventView {
    pub logical_time: u64,
    pub actor_id: Seq<char>,
    pub input: MessageView,
    pub state_snapshot: Seq<char>,
}

impl View for TraceEvent {
    type V = TraceEventView;

    open spec fn view(&self) -> TraceEventView {
        TraceEventView {
            logical_time: self.logical_time,
            actor_id: self.actor_id@,
            input: self.input@,
            state_snapshot: self.state_snapshot@,
        }
    }
}

/// The views of a sequence of trace events.
pub open spec fn events_view(s: Seq<TraceEvent>) -> Seq<TraceEventView> {
    s.map_values(|e: TraceEvent| e@)
}

/// The JSON rendering of a byte sequence: decimal numbers between brackets.
pub open spec fn json_bytes_body(s: Seq<u8>) -> Seq<char>
    decreases s.len(),
{
    if s.len() == 0 {
        Seq::empty()
    } else if s.len() == 1 {
        dec_chars(s[0] as nat)
    } else {
        json_bytes_body(s.drop_last()) + seq![','] + dec_chars(s.last() as nat)
    }
}

/// The JSON rendering of a payload: an object with the variant's name as its
/// one key.
pub open spec fn json_data(d: DataView) -> Seq<char> {
    match d {
        DataView::Text(s) => "{\"Text\":"@ + json_string(s) + "}"@,
        DataView::Json(s) => "{\"Json\":"@ + json_string(s) + "}"@,
        DataView::Binary(b) => "{\"Binary\":["@ + json_bytes_body(b) + "]}"@,
        DataView::Signal(s) => "{\"Signal\":"@ + json_string(s) + "}"@,
    }
}

/// The JSON rendering of a message.
pub open spec fn json_message(m: MessageView) -> Seq<char> {
    "{\"sender\":"@ + json_string(m.sender) + ",\"data\":"@ + json_data(m.data)
        + ",\"logical_time\":"@ + dec_chars(m.logical_time as nat) + ",\"sequence_id\":"@
        + dec_chars(m.sequence_id as nat) + "}"@
}

/// The JSON rendering of one trace event.
pub open spec fn json_event(e: TraceEventView) -> Seq<char> {
    "{\"logical_time\":"@ + dec_chars(e.logical_time as nat) + ",\"actor_id\":"@ + json_string(
        e.actor_id,
    ) + ",\"input\":"@ + json_message(e.input) + ",\"state_snapshot\":"@ + json_string(
        e.state_snapshot,
    ) + "}"@
}

/// The events of the export, comma-separated.
pub open spec fn json_trace_body(s: Seq<TraceEventView>) -> Seq<char>
    decreases s.len(),
{
    if s.len() == 0 {
        Seq::empty()
    } else if s.len() == 1 {
        json_event(s[0])
    } else {
        json_trace_body(s.drop_last()) + seq![','] + json_event(s.last())
    }
}

/// The whole export: a JSON array of the recorded events, in delivery order.
pub open spec fn json_trace(s: Seq<TraceEventView>) -> Seq<char> {
    seq!['['] + json_trace_body(s) + seq![']']
}

/// Appends the JSON rendering of a payload to `out`.
fn push_json_data(d: &MessageData, out: &mut String)
    ensures
        final(out)@ == old(out)@ + json_data(d@),
{
    match d {
        MessageData::Text(s) => {
            push_str_part("{\"Text\":", out);
            push_json_string(s.as_str(), out);
            push_str_part("}", out);
        },
        MessageData::Json(s) => {
            push_str_part("{\"Json\":", out);
            push_json_string(s.as_str(), out);
            push_str_part("}", out);
        },
        MessageData::Binary(b) => {
            push_str_part("{\"Binary\":[", out);
            let mut i: usize = 0;
            while i < b.len()
                invariant
                    i <= b@.len(),
                    out@ == old(out)@ + "{\"Binary\":["@ + json_bytes_body(b@.take(i as int)),
                decreases b@.len() - i,
            {
                if i > 0 {
                    out.push(',');
                }
                push_dec(b[i] as u64, out);
                proof {
                    let t = b@.take(i + 1);
                    assert(t.drop_last() =~= b@.take(i as int));
                    assert(t.last() == b@[i as int]);
                    assert(out@ =~= old(out)@ + "{\"Binary\":["@ + json_bytes_body(t));
                }
                i = i + 1;
            }
            push_str_part("]}", out);
            proof {
                assert(b@.take(b@.len() as int) =~= b@);
                assert(final(out)@ =~= old(out)@ + json_data(d@));
            }
        },
        MessageData::Signal(s) => {
            push_str_part("{\"Signal\":", out);
            push_json_string(s.as_str(), out);
            push_str_part("}", out);
        },
    }
    proof {
        assert(final(out)@ =~= old(out)@ + json_data(d@));
    }
}

/// Appends the JSON rendering of a message to `out`.
fn push_json_message(m: &Message, out: &mut String)
    ensures
        final(out)@ == old(out)@ + json_message(m@),
{
    push_str_part("{\"sender\":", out);
    push_json_string(m.sender.as_str(), out);
    push_str_part(",\"data\":", out);
    push_json_data(&m.data, out);
    push_str_part(",\"logical_time\":", out);
    push_dec(m.logical_time, out);
    push_str_part(",\"sequence_id\":", out);
    push_dec(m.sequence_id, out);
    push_str_part("}", out);
    proof {
        assert(final(out)@ =~= old(out)@ + json_message(m@));
    }
}

/// Appends the JSON rendering of one event to `out`.
fn push_json_event(e: &TraceEvent, out: &mut String)
    ensures
        final(out)@ == old(out)@ + json_event(e@),
{
    push_str_part("{\"logical_time\":", out);
    push_dec(e.logical_time, out);
    push_str_part(",\"actor_id\":", out);
    push_json_string(e.actor_id.as_str(), out);
    push_str_part(",\"input\":", out);
    push_json_message(&e.input, out);
    push_str_part(",\"state_snapshot\":", out);
    push_json_string(e.state_snapshot.as_str(), out);
    push_str_part("}", out);
    proof {
        assert(final(out)@ =~= old(out)@ + json_event(e@));
    }
}

/// The append-only event log.
pub struct Tracer {
    events: Vec<TraceEvent>,
}

impl Tracer {
    /// The recorded events, in delivery order.
    pub closed spec fn log(&self) -> Seq<TraceEventView> {
        events_view(self.events@)
    }

    /// An empty log.
    pub fn new() -> (r: Self)
        ensures
            r.log() == Seq::<TraceEventView>::empty(),
    {
        let r = Tracer { events: Vec::new() };
        proof {
            assert(events_view(r.events@) =~= Seq::<TraceEventView>::empty());
        }
        r
    }

    /// Appends one event; nothing recorded before is touched.
    pub fn record(&mut self, event: TraceEvent)
        ensures
            final(self).log() == old(self).log().push(event@),
    {
        let ghost pre = self.events@;
        self.events.push(event);
        proof {
            assert(events_view(self.events@) =~= events_view(pre).push(self.events@.last()@));
        }
    }

    /// How many deliveries have been recorded.
    pub fn len(&self) -> (r: usize)
        ensures
            r == self.log().len(),
    {
        self.events.len()
    }

    /// The recorded events.
    pub fn events(&self) -> (r: &Vec<TraceEvent>)
        ensures
            events_view(r@) == self.log(),
    {
        &self.events
    }

    /// Renders the full log as one JSON array, in delivery order.
    pub fn export_json(&self) -> (r: String)
        ensures
            r@ == json_trace(self.log()),
    {
        let mut out = String::new();
        out.push('[');
        let mut i: usize = 0;
        while i < self.events.len()
            invariant
                i <= self.events@.len(),
                out@ == seq!['['] + json_trace_body(events_view(self.events@).take(i as int)),
            decreases self.events@.len() - i,
        {
            if i > 0 {
                out.push(',');
            }
            push_json_event(&self.events[i], &mut out);
            proof {
                let t = events_view(self.events@).take(i + 1);
                assert(t.drop_last() =~= events_view(self.events@).take(i as int));
                assert(t.last() == self.events@[i as int]@);
                assert(out@ =~= seq!['['] + json_trace_body(t));
            }
            i = i + 1;
        }
        out.push(']');
        proof {
            assert(events_view(self.events@).take(self.events@.len() as int) =~= events_view(
                self.events@,
            ));
            assert(out@ =~= json_trace(self.log()));
        }
        out
    }
}

} // verus!
