//! The ordered events that report a finished turn to the outward transport.

use vstd::prelude::*;
use crate::agent::{AgentEvent, AgentEventView, AgentReply, events_view};
use crate::llm::opt_view;
use crate::text::{split_words, texts_view, words_of};

verus! {

/// A piece of the reply text.
#[derive(Debug, Clone)]
pub struct SseChunk {
    pub text: String,
}

/// A tool that started or finished running.
#[derive(Debug, Clone)]
pub struct SseToolUse {
    pub tool: String,
    pub status: String,
}

/// The end of a turn.
#[derive(Debug, Clone)]
pub struct SseDone {
    pub conversation_id: String,
    pub stop_reason: Option<String>,
}

/// The failure of a turn.
#[derive(Debug, Clone)]
pub struct SseError {
    pub message: String,
}

/// A request to forget a conversation.
#[derive(Debug, Clone)]
pub struct ResetRequest {
    pub conversation_id: String,
}

/// One event for the outward transport.
#[derive(Debug, Clone)]
pub enum OutboundEvent<A> {
    ToolUse(SseToolUse),
    ChartArtifact(A),
    Chunk(SseChunk),
    Done(SseDone),
    Error(SseError),
}

/// The mathematical value of an outbound event.
pub enum OutboundView<A> {
    ToolUse(Seq<char>, Seq<char>),
    ChartArtifact(A),
    Chunk(Seq<char>),
    Done(Seq<char>, Option<Seq<char>>),
    Error(Seq<char>),
}

impl<A> View for OutboundEvent<A> {
    type V = OutboundView<A>;

    open spec fn view(&self) -> OutboundView<A> {
        match self {
            OutboundEvent::ToolUse(t) => OutboundView::ToolUse(t.tool@, t.status@),
            OutboundEvent::ChartArtifact(a) => OutboundView::ChartArtifact(*a),
            OutboundEvent::Chunk(c) => OutboundView::Chunk(c.text@),
            OutboundEvent::Done(d) => OutboundView::Done(
                d.conversation_id@,
                opt_view(d.stop_reason),
            ),
            OutboundEvent::Error(e) => OutboundView::Error(e.message@),
        }
    }
}

/// The values of a sequence of outbound events.
pub open spec fn outbound_view<A>(v: Seq<OutboundEvent<A>>) -> Seq<OutboundView<A>> {
    v.map_values(|e: OutboundEvent<A>| e@)
}

/// The outbound form of an agent event.
pub open spec fn outbound_of<A>(e: AgentEventView<A>) -> OutboundView<A> {
    match e {
        AgentEventView::ToolRunning(t) => OutboundView::ToolUse(t, "running"@),
        AgentEventView::ToolCompleted(t) => OutboundView::ToolUse(t, "completed"@),
        AgentEventView::ChartArtifact(a) => OutboundView::ChartArtifact(a),
    }
}

/// The chunk that carries one word of the reply, followed by a space.
pub open spec fn chunk_of<A>(w: Seq<char>) -> OutboundView<A> {
    OutboundView::Chunk(w + " "@)
}

/// The reply text as chunks: each word followed by a space.
pub open spec fn text_chunks<A>(text: Seq<char>) -> Seq<OutboundView<A>> {
    if text.len() == 0 {
        Seq::empty()
    } else {
        words_of(text).map_values(|w: Seq<char>| chunk_of::<A>(w))
    }
}

/// Why a turn stopped: the cap, or the model's own end of turn.
pub open spec fn stop_reason_text(incomplete: bool) -> Seq<char> {
    if incomplete {
        "max_iterations"@
    } else {
        "end_turn"@
    }
}

/// The events that report a turn: its agent events in order, then the reply text in
/// chunks, then the end marker.
pub open spec fn reply_events<A>(
    conversation_id: Seq<char>,
    text: Seq<char>,
    incomplete: bool,
    events: Seq<AgentEventView<A>>,
) -> Seq<OutboundView<A>> {
    events.map_values(|e: AgentEventView<A>| outbound_of(e)) + text_chunks(text) + seq![
        OutboundView::Done(conversation_id, Some(stop_reason_text(incomplete))),
    ]
}

/// Reports a finished turn.
pub fn reply_stream<A>(conversation_id: String, reply: AgentReply<A>, events: Vec<AgentEvent<A>>) -> (r:
    Vec<OutboundEvent<A>>)
    ensures
        outbound_view(r@) == reply_events(
            conversation_id@,
            reply.text@,
            reply.incomplete,
            events_view(events@),
        ),
{
    let ghost ev = events_view(events@);
    let ghost cid = conversation_id@;
    let mut events = events;
    let mut out: Vec<OutboundEvent<A>> = Vec::new();
    let ghost mut k: int = 0;
    assert(outbound_view(out@) =~= ev.take(0).map_values(|e: AgentEventView<A>| outbound_of(e)));
    while events.len() > 0
        invariant
            0 <= k <= ev.len(),
            events_view(events@) == ev.skip(k),
            outbound_view(out@) == ev.take(k).map_values(|e: AgentEventView<A>| outbound_of(e)),
        decreases events@.len(),
    {
        let ghost old_events = events@;
        assert(events_view(old_events).len() == old_events.len());
        assert(events_view(old_events)[0] == old_events[0]@);
        let e = events.remove(0);
        assert(e@ == ev[k]);
        assert(ev.skip(k).drop_first() =~= ev.skip(k + 1));
        assert(events_view(events@) =~= ev.skip(k).drop_first());
        let o = match e {
            AgentEvent::ToolRunning { tool } => OutboundEvent::ToolUse(
                SseToolUse { tool, status: String::from_str("running") },
            ),
            AgentEvent::ToolCompleted { tool } => OutboundEvent::ToolUse(
                SseToolUse { tool, status: String::from_str("completed") },
            ),
            AgentEvent::ChartArtifact(a) => OutboundEvent::ChartArtifact(a),
        };
        assert(o@ == outbound_of(ev[k]));
        let ghost before = outbound_view(out@);
        out.push(o);
        assert(outbound_view(out@) =~= before.push(outbound_of(ev[k])));
        assert(ev.take(k + 1).map_values(|e: AgentEventView<A>| outbound_of(e)) =~= ev.take(k).map_values(|e: AgentEventView<A>| outbound_of(e)).push(outbound_of(ev[k])));
        proof {
            k = k + 1;
        }
    }
    assert(ev.take(k) =~= ev);
    let ghost head = outbound_view(out@);
    if reply.text.unicode_len() > 0 {
        let words = split_words(reply.text.as_str());
        let ghost wv = texts_view(words@);
        let mut i: usize = 0;
        while i < words.len()
            invariant
                0 <= i <= words@.len(),
                wv == texts_view(words@),
                wv == words_of(reply.text@),
                outbound_view(out@) == head + wv.take(i as int).map_values(|w: Seq<char>| chunk_of::<A>(w)),
            decreases words@.len() - i,
        {
            let mut t = words[i].clone();
            t.append(" ");
            assert(wv[i as int] == words@[i as int]@);
            assert(t@ == wv[i as int] + " "@);
            let ghost before = outbound_view(out@);
            out.push(OutboundEvent::Chunk(SseChunk { text: t }));
            assert(outbound_view(out@) =~= before.push(chunk_of::<A>(wv[i as int])));
            assert(wv.take(i + 1).map_values(|w: Seq<char>| chunk_of::<A>(w)) =~= wv.take(i as int).map_values(|w: Seq<char>| chunk_of::<A>(w)).push(
                chunk_of::<A>(wv[i as int]),
            ));
            i = i + 1;
        }
        assert(wv.take(i as int) =~= wv);
    } else {
        assert(head =~= head + text_chunks::<A>(reply.text@));
    }
    let reason = if reply.incomplete {
        String::from_str("max_iterations")
    } else {
        String::from_str("end_turn")
    };
    out.push(
        OutboundEvent::Done(SseDone { conversation_id, stop_reason: Some(reason) }),
    );
    assert(outbound_view(out@) =~= reply_events(cid, reply.text@, reply.incomplete, ev));
    out
}

/// Reports a failed turn: a single error event.
pub fn error_stream<A>(message: String) -> (r: Vec<OutboundEvent<A>>)
    ensures
        outbound_view(r@) == seq![OutboundView::<A>::Error(message@)],
{
    let ghost m = message@;
    let r = vec![OutboundEvent::Error(SseError { message })];
    assert(outbound_view(r@) =~= seq![OutboundView::<A>::Error(m)]);
    r
}

} // verus!
