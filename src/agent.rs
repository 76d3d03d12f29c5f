//! The tool-use conversation loop, as a state machine: the caller performs each action
//! that the turn asks for (a model call, a tool run) and hands the outcome back.

use vstd::prelude::*;
use crate::text::{debug_of, debug_text};
use crate::llm::{
    BlockView, ContentBlock, LlmCompletion, LlmError, Message, MessageView, Role, ToolCall,
    ToolCallView, ToolResult, ToolResultView, blocks_view, messages_view,
};

verus! {

/// The iteration cap used where the caller sets none.
pub const DEFAULT_MAX_ITERATIONS: usize = 10;

/// What a tool returns on success: a textual summary for the model and side artifacts,
/// in order, which are passed on without being inspected.
#[derive(Debug, Clone)]
pub struct ToolOutput<A> {
    pub summary: String,
    pub charts: Vec<A>,
}

/// Why a tool call failed.
#[derive(Debug, Clone)]
pub enum ToolError {
    /// The input did not fit the tool; the message says why.
    InvalidInput(String),
    /// The query failed; holds the debug form of the query error.
    Query(String),
}

/// What the caller observes of a turn, in order.
#[derive(Debug, Clone)]
pub enum AgentEvent<A> {
    ToolRunning { tool: String },
    ToolCompleted { tool: String },
    ChartArtifact(A),
}

/// The result of a turn.
#[derive(Debug, Clone)]
pub struct AgentReply<A> {
    pub text: String,
    pub charts: Vec<A>,
    pub tools_used: Vec<String>,
    pub incomplete: bool,
}

/// Why a turn was aborted.
#[derive(Debug, Clone)]
pub enum AgentError {
    Llm(LlmError),
    Tool(ToolError),
}

/// The mathematical value of an agent event.
pub enum AgentEventView<A> {
    ToolRunning(Seq<char>),
    ToolCompleted(Seq<char>),
    ChartArtifact(A),
}

impl<A> View for AgentEvent<A> {
    type V = AgentEventView<A>;

    open spec fn view(&self) -> AgentEventView<A> {
        match self {
            AgentEvent::ToolRunning { tool } => AgentEventView::ToolRunning(tool@),
            AgentEvent::ToolCompleted { tool } => AgentEventView::ToolCompleted(tool@),
            AgentEvent::ChartArtifact(a) => AgentEventView::ChartArtifact(*a),
        }
    }
}

/// The values of a sequence of events.
pub open spec fn events_view<A>(v: Seq<AgentEvent<A>>) -> Seq<AgentEventView<A>> {
    v.map_values(|e: AgentEvent<A>| e@)
}

/// The artifact payloads among `events`, in order.
pub open spec fn artifacts_of<A>(events: Seq<AgentEventView<A>>) -> Seq<A>
    decreases events.len(),
{
    if events.len() == 0 {
        Seq::empty()
    } else {
        artifacts_of(events.drop_last()) + match events.last() {
            AgentEventView::ChartArtifact(a) => seq![a],
            _ => Seq::empty(),
        }
    }
}

/// The values of a sequence of strings.
pub open spec fn strings_view(v: Seq<String>) -> Seq<Seq<char>> {
    v.map_values(|s: String| s@)
}

/// The values of a sequence of tool calls.
pub open spec fn calls_view(v: Seq<ToolCall>) -> Seq<ToolCallView> {
    v.map_values(|c: ToolCall| c@)
}

/// The text of the text blocks of `bs`, concatenated in order with no separator.
pub open spec fn texts_of(bs: Seq<BlockView>) -> Seq<char>
    decreases bs.len(),
{
    if bs.len() == 0 {
        Seq::empty()
    } else {
        texts_of(bs.drop_last()) + match bs.last() {
            BlockView::Text(t) => t,
            _ => Seq::empty(),
        }
    }
}

/// The tool calls among `bs`, in order.
pub open spec fn calls_of(bs: Seq<BlockView>) -> Seq<ToolCallView>
    decreases bs.len(),
{
    if bs.len() == 0 {
        Seq::empty()
    } else {
        calls_of(bs.drop_last()) + match bs.last() {
            BlockView::ToolUse(c) => seq![c],
            _ => Seq::empty(),
        }
    }
}

/// The tool calls of a completion.
pub open spec fn completion_calls(c: LlmCompletion) -> Seq<ToolCallView> {
    calls_of(blocks_view(c.content@))
}

/// The text of a tool error as it is reported to the model: `Tool error: ` and the
/// error's debug form, `InvalidInput("<message>")` or `Query(<query error>)`.
pub open spec fn error_text(e: ToolError) -> Seq<char> {
    match e {
        ToolError::InvalidInput(m) => "Tool error: InvalidInput("@ + debug_of(m@) + ")"@,
        ToolError::Query(m) => "Tool error: Query("@ + m@ + ")"@,
    }
}

/// The result block that answers `call` with outcome `r`.
pub open spec fn result_of<A>(call: ToolCallView, r: Result<ToolOutput<A>, ToolError>) -> ToolResultView {
    match r {
        Ok(o) => ToolResultView { tool_use_id: call.id, content: o.summary@, is_error: false },
        Err(e) => ToolResultView { tool_use_id: call.id, content: error_text(e), is_error: true },
    }
}

/// The user message that carries the result of one tool call.
pub open spec fn result_message<A>(call: ToolCallView, r: Result<ToolOutput<A>, ToolError>) -> MessageView {
    MessageView { role: Role::User, content: seq![BlockView::ToolResult(result_of(call, r))] }
}

/// The user message that opens a turn.
pub open spec fn user_message(text: Seq<char>) -> MessageView {
    MessageView { role: Role::User, content: seq![BlockView::Text(text)] }
}

/// The events that one tool call produces.
pub open spec fn tool_events<A>(name: Seq<char>, r: Result<ToolOutput<A>, ToolError>) -> Seq<
    AgentEventView<A>,
> {
    match r {
        Ok(o) => seq![AgentEventView::ToolRunning(name)] + o.charts@.map_values(
            |a: A| AgentEventView::ChartArtifact(a),
        ) + seq![AgentEventView::ToolCompleted(name)],
        Err(_) => seq![AgentEventView::ToolRunning(name), AgentEventView::ToolCompleted(name)],
    }
}

/// The mathematical value of a turn in progress.
pub struct TurnView<A> {
    pub history: Seq<MessageView>,
    pub cap: nat,
    pub iteration: nat,
    pub text: Seq<char>,
    pub tools_used: Seq<Seq<char>>,
    pub events: Seq<AgentEventView<A>>,
    pub incomplete: bool,
    pub calls: Seq<ToolCallView>,
    pub next_call: nat,
    pub done: bool,
}

/// What a turn asks its caller to do next.
pub enum ActionView {
    CallModel,
    RunTool(ToolCallView),
    Finished,
}

/// A turn whose state is consistent.
pub open spec fn turn_wf<A>(s: TurnView<A>) -> bool {
    &&& s.iteration <= s.cap
    &&& s.next_call <= s.calls.len()
    &&& s.done ==> s.next_call == s.calls.len()
    &&& (!s.done && s.next_call == s.calls.len()) ==> s.iteration < s.cap
}

/// The turn that starts with `user` after `history`, with an iteration cap.
pub open spec fn start_spec<A>(history: Seq<MessageView>, user: Seq<char>, cap: nat) -> TurnView<A> {
    TurnView {
        history: history.push(user_message(user)),
        cap,
        iteration: 0,
        text: Seq::empty(),
        tools_used: Seq::empty(),
        events: Seq::empty(),
        incomplete: cap == 0,
        calls: Seq::empty(),
        next_call: 0,
        done: cap == 0,
    }
}

/// What the turn asks for next.
pub open spec fn next_action_spec<A>(s: TurnView<A>) -> ActionView {
    if s.done {
        ActionView::Finished
    } else if s.next_call < s.calls.len() {
        ActionView::RunTool(s.calls[s.next_call as int])
    } else {
        ActionView::CallModel
    }
}

/// The turn after the model returned completion `c`.
pub open spec fn step_completion<A>(s: TurnView<A>, c: LlmCompletion) -> TurnView<A> {
    let bs = blocks_view(c.content@);
    TurnView {
        history: if bs.len() > 0 {
            s.history.push(MessageView { role: Role::Assistant, content: bs })
        } else {
            s.history
        },
        iteration: s.iteration + 1,
        text: s.text + texts_of(bs),
        calls: calls_of(bs),
        next_call: 0,
        done: calls_of(bs).len() == 0,
        ..s
    }
}

/// The turn after the pending tool call ended with outcome `r`.
pub open spec fn step_tool<A>(s: TurnView<A>, r: Result<ToolOutput<A>, ToolError>) -> TurnView<A> {
    let call = s.calls[s.next_call as int];
    let finished = s.next_call + 1 == s.calls.len() && s.iteration >= s.cap;
    TurnView {
        history: s.history.push(result_message(call, r)),
        events: s.events + tool_events(call.name, r),
        tools_used: if r is Ok {
            s.tools_used.push(call.name)
        } else {
            s.tools_used
        },
        next_call: s.next_call + 1,
        done: finished,
        incomplete: s.incomplete || finished,
        ..s
    }
}

/// One bounded turn of the conversation loop.
pub struct AgentTurn<A> {
    history: Vec<Message>,
    cap: usize,
    iteration: usize,
    text: String,
    tools_used: Vec<String>,
    events: Vec<AgentEvent<A>>,
    incomplete: bool,
    calls: Vec<ToolCall>,
    next_call: usize,
    done: bool,
}

/// What a turn asks its caller to do next.
#[derive(Debug, Clone)]
pub enum AgentAction {
    /// Call the model with the system instruction, the history and the tool definitions.
    CallModel,
    /// Run this tool call and hand back its outcome.
    RunTool(ToolCall),
    /// The turn is over.
    Finished,
}

impl AgentAction {
    pub open spec fn view(&self) -> ActionView {
        match self {
            AgentAction::CallModel => ActionView::CallModel,
            AgentAction::RunTool(c) => ActionView::RunTool(c@),
            AgentAction::Finished => ActionView::Finished,
        }
    }
}

/// The text of the text blocks of `content`, in order.
fn text_of(content: &Vec<ContentBlock>) -> (r: String)
    ensures
        r@ == texts_of(blocks_view(content@)),
{
    let ghost bv = blocks_view(content@);
    let mut r = String::new();
    let mut i: usize = 0;
    while i < content.len()
        invariant
            0 <= i <= content@.len(),
            bv == blocks_view(content@),
            r@ == texts_of(bv.take(i as int)),
        decreases content@.len() - i,
    {
        assert(bv.take(i + 1).drop_last() =~= bv.take(i as int));
        assert(bv.take(i + 1).last() == content@[i as int]@);
        match &content[i] {
            ContentBlock::Text { text } => {
                r.append(text.as_str());
            },
            _ => {
                assert(r@ + Seq::<char>::empty() =~= r@);
            },
        }
        i = i + 1;
    }
    assert(bv.take(i as int) =~= bv);
    r
}

/// Copies of the tool calls among `content`, in order.
fn calls_in(content: &Vec<ContentBlock>) -> (r: Vec<ToolCall>)
    ensures
        calls_view(r@) == calls_of(blocks_view(content@)),
{
    let ghost bv = blocks_view(content@);
    let mut r: Vec<ToolCall> = Vec::new();
    let mut i: usize = 0;
    assert(calls_view(r@) =~= calls_of(bv.take(0)));
    while i < content.len()
        invariant
            0 <= i <= content@.len(),
            bv == blocks_view(content@),
            calls_view(r@) == calls_of(bv.take(i as int)),
        decreases content@.len() - i,
    {
        assert(bv.take(i + 1).drop_last() =~= bv.take(i as int));
        assert(bv.take(i + 1).last() == content@[i as int]@);
        match &content[i] {
            ContentBlock::ToolUse(c) => {
                let copy = c.duplicate();
                r.push(copy);
                assert(calls_view(r@) =~= calls_of(bv.take(i + 1)));
            },
            _ => {
                assert(calls_view(r@) =~= calls_of(bv.take(i + 1)));
            },
        }
        i = i + 1;
    }
    assert(bv.take(i as int) =~= bv);
    r
}

impl ToolError {
    /// The text of this error as it is reported to the model.
    pub fn report(&self) -> (r: String)
        ensures
            r@ == error_text(*self),
    {
        match self {
            ToolError::InvalidInput(m) => {
                let mut r = String::from_str("Tool error: InvalidInput(");
                let quoted = debug_text(m.as_str());
                r.append(quoted.as_str());
                r.append(")");
                r
            },
            ToolError::Query(m) => {
                let mut r = String::from_str("Tool error: Query(");
                r.append(m.as_str());
                r.append(")");
                r
            },
        }
    }
}

impl<A> AgentTurn<A> {
    /// Every turn is consistent.
    #[verifier::type_invariant]
    closed spec fn consistent(&self) -> bool {
        turn_wf(self.view())
    }

    pub closed spec fn view(&self) -> TurnView<A> {
        TurnView {
            history: messages_view(self.history@),
            cap: self.cap as nat,
            iteration: self.iteration as nat,
            text: self.text@,
            tools_used: strings_view(self.tools_used@),
            events: events_view(self.events@),
            incomplete: self.incomplete,
            calls: calls_view(self.calls@),
            next_call: self.next_call as nat,
            done: self.done,
        }
    }

    /// Starts a turn: appends the user's message to `history`. The turn makes at most
    /// `cap` model calls.
    pub fn start(history: Vec<Message>, user_input: String, cap: usize) -> (r: Self)
        ensures
            r.view() == start_spec::<A>(messages_view(history@), user_input@, cap as nat),
            turn_wf(r.view()),
    {
        let mut history = history;
        let ghost h0 = history@;
        history.push(
            Message { role: Role::User, content: vec![ContentBlock::Text { text: user_input }] },
        );
        let r = AgentTurn {
            history,
            cap,
            iteration: 0,
            text: String::new(),
            tools_used: Vec::new(),
            events: Vec::new(),
            incomplete: cap == 0,
            calls: Vec::new(),
            next_call: 0,
            done: cap == 0,
        };
        assert(blocks_view(r.history@.last().content@) =~= seq![BlockView::Text(user_input@)]);
        assert(messages_view(r.history@) =~= messages_view(h0).push(user_message(user_input@)));
        assert(strings_view(r.tools_used@) =~= Seq::<Seq<char>>::empty());
        assert(events_view(r.events@) =~= Seq::<AgentEventView<A>>::empty());
        assert(calls_view(r.calls@) =~= Seq::<ToolCallView>::empty());
        r
    }

    /// What the turn asks for next.
    pub fn next_action(&self) -> (r: AgentAction)
        ensures
            r.view() == next_action_spec(self.view()),
            turn_wf(self.view()),
    {
        proof {
            use_type_invariant(self);
        }
        if self.done {
            AgentAction::Finished
        } else if self.next_call < self.calls.len() {
            AgentAction::RunTool(self.calls[self.next_call].duplicate())
        } else {
            AgentAction::CallModel
        }
    }

    /// The conversation so far, to send with the next model call.
    pub fn history(&self) -> (r: &Vec<Message>)
        ensures
            messages_view(r@) == self.view().history,
    {
        &self.history
    }

    /// Takes the completion that the model returned.
    pub fn on_completion(self, c: LlmCompletion) -> (r: Self)
        requires
            next_action_spec(self.view()) is CallModel,
        ensures
            r.view() == step_completion(self.view(), c),
    {
        proof {
            use_type_invariant(&self);
        }
        let ghost s0 = self.view();
        let ghost bs = blocks_view(c.content@);
        let AgentTurn {
            mut history,
            cap,
            iteration,
            text: mut reply_text,
            tools_used,
            events,
            incomplete,
            calls: _,
            next_call: _,
            done: _,
        } = self;
        let text = text_of(&c.content);
        let calls = calls_in(&c.content);
        let ghost h0 = history@;
        if c.content.len() > 0 {
            history.push(Message { role: Role::Assistant, content: c.content });
            assert(messages_view(history@) =~= messages_view(h0).push(
                MessageView { role: Role::Assistant, content: bs },
            ));
        }
        reply_text.append(text.as_str());
        let done = calls.len() == 0;
        let r = AgentTurn {
            history,
            cap,
            iteration: iteration + 1,
            text: reply_text,
            tools_used,
            events,
            incomplete,
            calls,
            next_call: 0,
            done,
        };
        assert(r.view() == step_completion(s0, c));
        r
    }

    /// Takes the outcome of the pending tool call.
    pub fn on_tool_result(self, r: Result<ToolOutput<A>, ToolError>) -> (t: Self)
        requires
            next_action_spec(self.view()) is RunTool,
        ensures
            t.view() == step_tool(self.view(), r),
    {
        proof {
            use_type_invariant(&self);
        }
        let ghost s0 = self.view();
        let ghost rr = r;
        let AgentTurn {
            mut history,
            cap,
            iteration,
            text,
            mut tools_used,
            mut events,
            incomplete,
            calls,
            next_call,
            done: _,
        } = self;
        let ghost call = calls@[next_call as int]@;
        let n = calls.len();
        assert(calls_view(calls@).len() == n);
        let id = calls[next_call].id.clone();
        let name = calls[next_call].name.clone();
        events.push(AgentEvent::ToolRunning { tool: name.clone() });
        let ghost ev0 = events@;
        assert(events_view(ev0) =~= s0.events.push(AgentEventView::ToolRunning(call.name)));
        let result = match r {
            Ok(out) => {
                let mut charts = out.charts;
                let ghost all = charts@;
                let ghost mut k: int = 0;
                assert(events_view(events@) =~= events_view(ev0) + all.take(0).map_values(
                    |a: A| AgentEventView::ChartArtifact(a),
                ));
                while charts.len() > 0
                    invariant
                        0 <= k <= all.len(),
                        charts@ == all.skip(k),
                        events_view(events@) == events_view(ev0) + all.take(k).map_values(
                            |a: A| AgentEventView::ChartArtifact(a),
                        ),
                    decreases charts@.len(),
                {
                    let ghost evk = events@;
                    let a = charts.remove(0);
                    assert(a == all[k]);
                    events.push(AgentEvent::ChartArtifact(a));
                    assert(all.skip(k).remove(0) =~= all.skip(k + 1));
                    assert(all.take(k + 1).map_values(|a: A| AgentEventView::ChartArtifact(a))
                        =~= all.take(k).map_values(|a: A| AgentEventView::ChartArtifact(a)).push(
                        AgentEventView::ChartArtifact(a),
                    ));
                    assert(events_view(events@) =~= events_view(evk).push(
                        AgentEventView::ChartArtifact(a),
                    ));
                    proof {
                        k = k + 1;
                    }
                }
                assert(all.take(k) =~= all);
                tools_used.push(name.clone());
                let ghost evc = events@;
                events.push(AgentEvent::ToolCompleted { tool: name });
                assert(events_view(events@) =~= events_view(evc).push(
                    AgentEventView::ToolCompleted(call.name),
                ));
                assert(events_view(events@) =~= s0.events + tool_events(call.name, rr));
                ToolResult { tool_use_id: id, content: out.summary, is_error: false }
            },
            Err(e) => {
                events.push(AgentEvent::ToolCompleted { tool: name });
                assert(events_view(events@) =~= s0.events + tool_events(call.name, rr));
                ToolResult { tool_use_id: id, content: e.report(), is_error: true }
            },
        };
        let ghost h0 = history@;
        history.push(Message { role: Role::User, content: vec![ContentBlock::ToolResult(result)] });
        proof {
            assert(blocks_view(history@.last().content@) =~= result_message(call, rr).content);
            assert(messages_view(history@) =~= messages_view(h0).push(result_message(call, rr)));
            assert(strings_view(tools_used@) =~= step_tool(s0, rr).tools_used);
        }
        let finished = next_call + 1 == n && iteration >= cap;
        let t = AgentTurn {
            history,
            cap,
            iteration,
            text,
            tools_used,
            events,
            incomplete: incomplete || finished,
            calls,
            next_call: next_call + 1,
            done: finished,
        };
        assert(t.view() == step_tool(s0, rr));
        t
    }

}

impl<A: Clone> AgentTurn<A> {
    /// Ends the turn: the reply, the events in order, and the updated history. The reply's
    /// charts are copies of the artifacts among the events, in order.
    pub fn finish(self) -> (r: (AgentReply<A>, Vec<AgentEvent<A>>, Vec<Message>))
        ensures
            r.0.text@ == self.view().text,
            strings_view(r.0.tools_used@) == self.view().tools_used,
            r.0.incomplete == self.view().incomplete,
            r.0.charts@.len() == artifacts_of(self.view().events).len(),
            forall|i: int|
                0 <= i < r.0.charts@.len() ==> cloned(
                    artifacts_of(self.view().events)[i],
                    #[trigger] r.0.charts@[i],
                ),
            events_view(r.1@) == self.view().events,
            messages_view(r.2@) == self.view().history,
    {
        let ghost ev = events_view(self.events@);
        let mut charts: Vec<A> = Vec::new();
        let mut i: usize = 0;
        while i < self.events.len()
            invariant
                0 <= i <= self.events@.len(),
                ev == events_view(self.events@),
                charts@.len() == artifacts_of(ev.take(i as int)).len(),
                forall|j: int|
                    0 <= j < charts@.len() ==> cloned(
                        artifacts_of(ev.take(i as int))[j],
                        #[trigger] charts@[j],
                    ),
            decreases self.events@.len() - i,
        {
            assert(ev.take(i + 1).drop_last() =~= ev.take(i as int));
            assert(ev.take(i + 1).last() == self.events@[i as int]@);
            match &self.events[i] {
                AgentEvent::ChartArtifact(a) => {
                    let c = a.clone();
                    charts.push(c);
                    assert(artifacts_of(ev.take(i + 1)) == artifacts_of(ev.take(i as int)).push(*a));
                },
                _ => {
                    assert(artifacts_of(ev.take(i + 1)) =~= artifacts_of(ev.take(i as int)));
                },
            }
            i = i + 1;
        }
        assert(ev.take(i as int) =~= ev);
        (
            AgentReply {
                text: self.text,
                charts,
                tools_used: self.tools_used,
                incomplete: self.incomplete,
            },
            self.events,
            self.history,
        )
    }
}

/// The turn after the pending tool calls ended with outcomes `os`, in order.
pub open spec fn play_tools<A>(s: TurnView<A>, os: Seq<Result<ToolOutput<A>, ToolError>>) -> TurnView<A>
    decreases os.len(),
{
    if os.len() == 0 {
        s
    } else {
        play_tools(step_tool(s, os[0]), os.drop_first())
    }
}

/// A turn driven to its end, or until the supply runs out, by a caller that answers each
/// model call with the next of `cs` and each tool run with the next of `os`.
pub open spec fn run<A>(
    s: TurnView<A>,
    cs: Seq<LlmCompletion>,
    os: Seq<Result<ToolOutput<A>, ToolError>>,
) -> TurnView<A>
    decreases cs.len() + os.len(),
{
    if s.done {
        s
    } else if s.next_call < s.calls.len() {
        if os.len() == 0 {
            s
        } else {
            run(step_tool(s, os[0]), cs, os.drop_first())
        }
    } else if cs.len() == 0 {
        s
    } else {
        run(step_completion(s, cs[0]), cs.drop_first(), os)
    }
}

/// The tool calls of a sequence of completions, in order.
pub open spec fn all_calls(cs: Seq<LlmCompletion>) -> Seq<ToolCallView>
    decreases cs.len(),
{
    if cs.len() == 0 {
        Seq::empty()
    } else {
        completion_calls(cs[0]) + all_calls(cs.drop_first())
    }
}

/// The reply text of a sequence of completions: their text blocks, in order.
pub open spec fn all_texts(cs: Seq<LlmCompletion>) -> Seq<char>
    decreases cs.len(),
{
    if cs.len() == 0 {
        Seq::empty()
    } else {
        texts_of(blocks_view(cs[0].content@)) + all_texts(cs.drop_first())
    }
}

/// The number of tool calls in a sequence of completions.
pub open spec fn total_calls(cs: Seq<LlmCompletion>) -> nat {
    all_calls(cs).len()
}

/// The names of the calls that succeeded, where `os[i]` is the outcome of `calls[i]`.
pub open spec fn used_names<A>(
    calls: Seq<ToolCallView>,
    os: Seq<Result<ToolOutput<A>, ToolError>>,
) -> Seq<Seq<char>>
    decreases os.len(),
{
    if os.len() == 0 || calls.len() == 0 {
        Seq::empty()
    } else {
        (if os[0] is Ok {
            seq![calls[0].name]
        } else {
            Seq::empty()
        }) + used_names(calls.drop_first(), os.drop_first())
    }
}

/// The events of the calls, where `os[i]` is the outcome of `calls[i]`.
pub open spec fn call_events<A>(
    calls: Seq<ToolCallView>,
    os: Seq<Result<ToolOutput<A>, ToolError>>,
) -> Seq<AgentEventView<A>>
    decreases os.len(),
{
    if os.len() == 0 || calls.len() == 0 {
        Seq::empty()
    } else {
        tool_events(calls[0].name, os[0]) + call_events(calls.drop_first(), os.drop_first())
    }
}

/// Names and events of calls split in two parts.
pub proof fn lemma_accumulation_append<A>(
    a: Seq<ToolCallView>,
    b: Seq<ToolCallView>,
    x: Seq<Result<ToolOutput<A>, ToolError>>,
    y: Seq<Result<ToolOutput<A>, ToolError>>,
)
    requires
        a.len() == x.len(),
    ensures
        used_names(a + b, x + y) == used_names(a, x) + used_names(b, y),
        call_events(a + b, x + y) == call_events(a, x) + call_events(b, y),
    decreases x.len(),
{
    if x.len() == 0 {
        assert(a + b =~= b);
        assert(x + y =~= y);
        assert(used_names(a, x) + used_names(b, y) =~= used_names(b, y));
        assert(call_events(a, x) + call_events(b, y) =~= call_events(b, y));
    } else {
        assert((a + b).drop_first() =~= a.drop_first() + b);
        assert((x + y).drop_first() =~= x.drop_first() + y);
        assert((a + b)[0] == a[0]);
        assert((x + y)[0] == x[0]);
        lemma_accumulation_append(a.drop_first(), b, x.drop_first(), y);
        let n0 = if x[0] is Ok {
            seq![a[0].name]
        } else {
            Seq::<Seq<char>>::empty()
        };
        assert(n0 + (used_names(a.drop_first(), x.drop_first()) + used_names(b, y)) =~= (n0
            + used_names(a.drop_first(), x.drop_first())) + used_names(b, y));
        let e0 = tool_events(a[0].name, x[0]);
        assert(e0 + (call_events(a.drop_first(), x.drop_first()) + call_events(b, y)) =~= (e0
            + call_events(a.drop_first(), x.drop_first())) + call_events(b, y));
    }
}

/// A completion without tool calls ends the turn at once: after the first completion
/// the turn has made exactly one model call, is finished and is not incomplete.
pub proof fn lemma_no_tool_calls_single_iteration<A>(
    history: Seq<MessageView>,
    user: Seq<char>,
    cap: nat,
    c: LlmCompletion,
)
    requires
        cap >= 1,
        completion_calls(c).len() == 0,
    ensures
        next_action_spec(start_spec::<A>(history, user, cap)) is CallModel,
        step_completion(start_spec::<A>(history, user, cap), c).done,
        step_completion(start_spec::<A>(history, user, cap), c).iteration == 1,
        !step_completion(start_spec::<A>(history, user, cap), c).incomplete,
        next_action_spec(step_completion(start_spec::<A>(history, user, cap), c)) is Finished,
{
}

/// Running the pending tool calls of an iteration: each takes one outcome, in order; the
/// names of the calls that succeeded and the events of all are appended, and at the end the
/// turn is finished (and incomplete) exactly when the cap is reached.
pub proof fn lemma_tool_phase<A>(
    s: TurnView<A>,
    cs: Seq<LlmCompletion>,
    os: Seq<Result<ToolOutput<A>, ToolError>>,
)
    requires
        turn_wf(s),
        !s.done,
        s.next_call < s.calls.len(),
        os.len() >= s.calls.len() - s.next_call,
    ensures
        ({
            let k = (s.calls.len() - s.next_call) as int;
            let t = play_tools(s, os.take(k));
            &&& run(s, cs, os) == run(t, cs, os.skip(k))
            &&& turn_wf(t)
            &&& t.next_call == t.calls.len()
            &&& t.calls == s.calls
            &&& t.iteration == s.iteration
            &&& t.cap == s.cap
            &&& t.text == s.text
            &&& t.tools_used == s.tools_used + used_names(
                s.calls.skip(s.next_call as int),
                os.take(k),
            )
            &&& t.events == s.events + call_events(s.calls.skip(s.next_call as int), os.take(k))
            &&& t.done == (s.iteration >= s.cap)
            &&& t.incomplete == (s.incomplete || s.iteration >= s.cap)
        }),
    decreases s.calls.len() - s.next_call,
{
    let k = (s.calls.len() - s.next_call) as int;
    let s1 = step_tool(s, os[0]);
    let rest_calls = s.calls.skip(s.next_call as int);
    assert(rest_calls.drop_first() =~= s.calls.skip(s1.next_call as int));
    assert(rest_calls[0] == s.calls[s.next_call as int]);
    assert(os.take(k)[0] == os[0]);
    assert(os.take(k).drop_first() =~= os.drop_first().take(k - 1));
    assert(play_tools(s, os.take(k)) == play_tools(s1, os.drop_first().take(k - 1)));
    assert(run(s, cs, os) == run(s1, cs, os.drop_first()));
    let n0 = if os[0] is Ok {
        seq![rest_calls[0].name]
    } else {
        Seq::<Seq<char>>::empty()
    };
    if k == 1 {
        assert(os.drop_first().take(0) =~= Seq::<Result<ToolOutput<A>, ToolError>>::empty());
        assert(play_tools(s1, os.drop_first().take(0)) == s1);
        assert(os.skip(1) =~= os.drop_first());
        assert(used_names(rest_calls, os.take(k)) =~= n0);
        assert(s1.tools_used =~= s.tools_used + n0);
        let e = os.take(k).drop_first();
        assert(e =~= Seq::<Result<ToolOutput<A>, ToolError>>::empty());
        assert(call_events(rest_calls.drop_first(), e) =~= Seq::<AgentEventView<A>>::empty());
        assert(call_events(rest_calls, os.take(k)) == tool_events(rest_calls[0].name, os[0])
            + call_events(rest_calls.drop_first(), e));
        assert(call_events(rest_calls, os.take(k)) =~= tool_events(rest_calls[0].name, os[0]));
    } else {
        lemma_tool_phase(s1, cs, os.drop_first());
        assert(os.drop_first().skip(k - 1) =~= os.skip(k));
        assert(s1.tools_used =~= s.tools_used + n0);
        assert(used_names(rest_calls, os.take(k)) == n0 + used_names(
            rest_calls.drop_first(),
            os.drop_first().take(k - 1),
        ));
        assert(s.tools_used + n0 + used_names(rest_calls.drop_first(), os.drop_first().take(k - 1))
            =~= s.tools_used + used_names(rest_calls, os.take(k)));
        assert(s.events + tool_events(rest_calls[0].name, os[0]) + call_events(
            rest_calls.drop_first(),
            os.drop_first().take(k - 1),
        ) =~= s.events + call_events(rest_calls, os.take(k)));
    }
}

/// Where every model call returns at least one tool call, the turn makes exactly `cap`
/// model calls, then finishes incomplete without asking for another; nothing accumulated
/// is lost: the reply text holds the text of every completion, the used tools name every
/// call that succeeded, and the events are those of every call, all in order.
pub proof fn lemma_cap_reached<A>(
    s: TurnView<A>,
    cs: Seq<LlmCompletion>,
    os: Seq<Result<ToolOutput<A>, ToolError>>,
)
    requires
        turn_wf(s),
        next_action_spec(s) is CallModel,
        forall|i: int| 0 <= i < cs.len() ==> completion_calls(#[trigger] cs[i]).len() >= 1,
        cs.len() >= s.cap - s.iteration,
        os.len() >= total_calls(cs.take(s.cap - s.iteration)),
    ensures
        ({
            let n = s.cap - s.iteration;
            let r = run(s, cs, os);
            let calls = all_calls(cs.take(n));
            &&& r.done
            &&& r.incomplete
            &&& r.iteration == s.cap
            &&& next_action_spec(r) is Finished
            &&& r.text == s.text + all_texts(cs.take(n))
            &&& r.tools_used == s.tools_used + used_names(calls, os.take(calls.len() as int))
            &&& r.events == s.events + call_events(calls, os.take(calls.len() as int))
        }),
    decreases s.cap - s.iteration,
{
    let n = s.cap - s.iteration;
    let c0 = cs[0];
    let s1 = step_completion(s, c0);
    let rest = cs.drop_first();
    assert(cs.take(n)[0] == c0);
    assert(cs.take(n).drop_first() =~= rest.take(n - 1));
    assert(run(s, cs, os) == run(s1, rest, os));
    lemma_tool_phase(s1, rest, os);
    let k = completion_calls(c0).len() as int;
    let t = play_tools(s1, os.take(k));
    let calls0 = completion_calls(c0);
    assert(s1.calls.skip(0) =~= calls0);
    let calls = all_calls(cs.take(n));
    assert(calls == calls0 + all_calls(rest.take(n - 1)));
    if s1.iteration < s.cap {
        assert forall|i: int| 0 <= i < rest.len() implies completion_calls(
            #[trigger] rest[i],
        ).len() >= 1 by {
            assert(rest[i] == cs[i + 1]);
        }
        let os2 = os.skip(k);
        lemma_cap_reached(t, rest, os2);
        let calls2 = all_calls(rest.take(n - 1));
        assert(os.take(calls.len() as int) =~= os.take(k) + os2.take(calls2.len() as int));
        lemma_accumulation_append(calls0, calls2, os.take(k), os2.take(calls2.len() as int));
        assert(all_texts(cs.take(n)) == texts_of(blocks_view(c0.content@)) + all_texts(
            rest.take(n - 1),
        ));
        assert(s.text + all_texts(cs.take(n)) =~= t.text + all_texts(rest.take(n - 1)));
        assert(s.tools_used + used_names(calls, os.take(calls.len() as int)) =~= t.tools_used
            + used_names(calls2, os2.take(calls2.len() as int)));
        assert(s.events + call_events(calls, os.take(calls.len() as int)) =~= t.events
            + call_events(calls2, os2.take(calls2.len() as int)));
    } else {
        assert(rest.take(0) =~= Seq::<LlmCompletion>::empty());
        assert(n == 1);
        assert(all_calls(rest.take(0)) =~= Seq::<ToolCallView>::empty());
        assert(calls =~= calls0);
        assert(all_texts(cs.take(n)) =~= texts_of(blocks_view(c0.content@)));
    }
}

/// The whole turn, from its start, where every model call returns at least one tool call:
/// exactly `cap` model calls are made, the turn ends incomplete, and its reply text, used
/// tools and events hold everything that the `cap` iterations produced, in order.
pub proof fn lemma_turn_runs_to_cap<A>(
    history: Seq<MessageView>,
    user: Seq<char>,
    cap: nat,
    cs: Seq<LlmCompletion>,
    os: Seq<Result<ToolOutput<A>, ToolError>>,
)
    requires
        forall|i: int| 0 <= i < cs.len() ==> completion_calls(#[trigger] cs[i]).len() >= 1,
        cs.len() >= cap,
        os.len() >= total_calls(cs.take(cap as int)),
    ensures
        ({
            let r = run(start_spec::<A>(history, user, cap), cs, os);
            let calls = all_calls(cs.take(cap as int));
            &&& r.done
            &&& r.incomplete
            &&& r.iteration == cap
            &&& r.text == all_texts(cs.take(cap as int))
            &&& r.tools_used == used_names(calls, os.take(calls.len() as int))
            &&& r.events == call_events(calls, os.take(calls.len() as int))
        }),
{
    let s = start_spec::<A>(history, user, cap);
    if cap > 0 {
        lemma_cap_reached(s, cs, os);
        assert(s.text + all_texts(cs.take(cap as int)) =~= all_texts(cs.take(cap as int)));
        let calls = all_calls(cs.take(cap as int));
        assert(s.tools_used + used_names(calls, os.take(calls.len() as int)) =~= used_names(
            calls,
            os.take(calls.len() as int),
        ));
        assert(s.events + call_events(calls, os.take(calls.len() as int)) =~= call_events(
            calls,
            os.take(calls.len() as int),
        ));
    } else {
        assert(cs.take(0) =~= Seq::<LlmCompletion>::empty());
        assert(all_calls(cs.take(0)) =~= Seq::<ToolCallView>::empty());
        assert(all_texts(cs.take(0)) =~= Seq::<char>::empty());
        let e = Seq::<Result<ToolOutput<A>, ToolError>>::empty();
        assert(os.take(0) =~= e);
        assert(used_names(Seq::<ToolCallView>::empty(), e) =~= Seq::<Seq<char>>::empty());
        assert(call_events(Seq::<ToolCallView>::empty(), e) =~= Seq::<AgentEventView<A>>::empty());
    }
}

/// A failing tool call adds exactly one error-flagged result message, a running and a
/// completed event, and records no tool as used; the turn goes on unless the cap is
/// reached.
pub proof fn lemma_tool_failure_continues<A>(s: TurnView<A>, e: ToolError)
    requires
        turn_wf(s),
        next_action_spec(s) is RunTool,
    ensures
        ({
            let t = step_tool(s, Err(e));
            let call = s.calls[s.next_call as int];
            &&& t.history == s.history.push(
                MessageView {
                    role: Role::User,
                    content: seq![
                        BlockView::ToolResult(
                            ToolResultView {
                                tool_use_id: call.id,
                                content: error_text(e),
                                is_error: true,
                            },
                        ),
                    ],
                },
            )
            &&& t.events == s.events + seq![
                AgentEventView::ToolRunning(call.name),
                AgentEventView::ToolCompleted(call.name),
            ]
            &&& t.tools_used == s.tools_used
            &&& turn_wf(t)
            &&& s.iteration < s.cap ==> !t.done && !(next_action_spec(t) is Finished)
        }),
{
}

/// The messages that the results of `os` add, answering `calls` from index `from` on.
pub open spec fn result_messages<A>(
    calls: Seq<ToolCallView>,
    from: int,
    os: Seq<Result<ToolOutput<A>, ToolError>>,
) -> Seq<MessageView> {
    Seq::new(os.len(), |i: int| result_message(calls[from + i], os[i]))
}

/// Tool outcomes each add one result message to the history, in order.
pub proof fn lemma_play_tools_history<A>(s: TurnView<A>, os: Seq<Result<ToolOutput<A>, ToolError>>)
    requires
        s.next_call + os.len() <= s.calls.len(),
    ensures
        play_tools(s, os).history == s.history + result_messages(s.calls, s.next_call as int, os),
        play_tools(s, os).calls == s.calls,
    decreases os.len(),
{
    if os.len() == 0 {
        assert(s.history + result_messages(s.calls, s.next_call as int, os) =~= s.history);
    } else {
        let s1 = step_tool(s, os[0]);
        lemma_play_tools_history(s1, os.drop_first());
        assert(s.history + result_messages(s.calls, s.next_call as int, os) =~= s1.history
            + result_messages(s1.calls, s1.next_call as int, os.drop_first()));
    }
}

/// A turn whose first completion holds `k` tool calls: after their `k` outcomes the
/// history is the old one, the user message, the assistant message with the completion's
/// blocks, and one single-block result message per call, in that order.
pub proof fn lemma_history_shape<A>(
    history: Seq<MessageView>,
    user: Seq<char>,
    cap: nat,
    c: LlmCompletion,
    os: Seq<Result<ToolOutput<A>, ToolError>>,
)
    requires
        cap >= 1,
        c.content@.len() > 0,
        os.len() == completion_calls(c).len(),
    ensures
        ({
            let t = play_tools(step_completion(start_spec::<A>(history, user, cap), c), os);
            &&& t.history == history + seq![
                user_message(user),
                MessageView { role: Role::Assistant, content: blocks_view(c.content@) },
            ] + result_messages(completion_calls(c), 0, os)
            &&& forall|i: int|
                history.len() + 2 <= i < t.history.len() ==> (#[trigger] t.history[i]).role
                    == Role::User && t.history[i].content.len() == 1
                    && t.history[i].content[0] is ToolResult
            &&& t.history.len() == history.len() + 2 + completion_calls(c).len()
        }),
{
    let s0 = start_spec::<A>(history, user, cap);
    let s1 = step_completion(s0, c);
    lemma_play_tools_history(s1, os);
    let t = play_tools(s1, os);
    assert(s1.history =~= history + seq![
        user_message(user),
        MessageView { role: Role::Assistant, content: blocks_view(c.content@) },
    ]);
    assert forall|i: int| history.len() + 2 <= i < t.history.len() implies (
    #[trigger] t.history[i]).role == Role::User && t.history[i].content.len() == 1
        && t.history[i].content[0] is ToolResult by {
        assert(t.history[i] == result_messages(completion_calls(c), 0, os)[i - history.len()
            - 2]);
    }
}

} // verus!
