use budget_analyser::agent::{
    AgentAction, AgentEvent, AgentReply, AgentTurn, ToolError, ToolOutput, DEFAULT_MAX_ITERATIONS,
};
use budget_analyser::llm::{ContentBlock, LlmCompletion, Message, Role, ToolCall};
use serde_json::Value;

fn text(t: &str) -> ContentBlock {
    ContentBlock::Text { text: t.to_string() }
}

fn tool_use(id: &str, name: &str, input: &str) -> ContentBlock {
    ContentBlock::ToolUse(ToolCall {
        id: id.to_string(),
        name: name.to_string(),
        input: serde_json::from_str::<Value>(input).unwrap(),
    })
}

fn completion(content: Vec<ContentBlock>) -> LlmCompletion {
    LlmCompletion { content, stop_reason: None }
}

struct Outcome {
    turn_calls: usize,
    tool_runs: Vec<String>,
    reply: AgentReply<String>,
    events: Vec<AgentEvent<String>>,
    history: Vec<Message>,
}

/// Drives a turn with scripted completions and a tool function, as a caller would.
fn drive(
    history: Vec<Message>,
    user: &str,
    cap: usize,
    mut completions: Vec<LlmCompletion>,
    tool: &dyn Fn(&ToolCall) -> Result<ToolOutput<String>, ToolError>,
) -> Outcome {
    let mut turn: AgentTurn<String> = AgentTurn::start(history, user.to_string(), cap);
    let mut turn_calls = 0;
    let mut tool_runs = Vec::new();
    loop {
        match turn.next_action() {
            AgentAction::CallModel => {
                turn_calls += 1;
                assert!(!completions.is_empty(), "more model calls than scripted");
                turn = turn.on_completion(completions.remove(0));
            }
            AgentAction::RunTool(call) => {
                tool_runs.push(call.name.clone());
                turn = turn.on_tool_result(tool(&call));
            }
            AgentAction::Finished => break,
        }
    }
    let (reply, events, history) = turn.finish();
    Outcome { turn_calls, tool_runs, reply, events, history }
}

fn ok_tool(call: &ToolCall) -> Result<ToolOutput<String>, ToolError> {
    Ok(ToolOutput { summary: format!("ran {}", call.name), charts: vec![] })
}

#[test]
fn no_tool_calls_ends_after_one_iteration() {
    let out = drive(Vec::new(), "hello", 10, vec![completion(vec![text("Hi there.")])], &ok_tool);
    assert_eq!(out.turn_calls, 1);
    assert!(!out.reply.incomplete);
    assert_eq!(out.reply.text, "Hi there.");
    assert!(out.reply.tools_used.is_empty());
    assert!(out.events.is_empty());
    assert_eq!(out.history.len(), 2);
    assert_eq!(out.history[0].role, Role::User);
    assert_eq!(out.history[1].role, Role::Assistant);
}

#[test]
fn every_iteration_calling_tools_stops_at_cap() {
    let cap = 3;
    let comps: Vec<LlmCompletion> = (0..cap + 2)
        .map(|i| completion(vec![tool_use(&format!("t{}", i), "monthly_trend", "{}")]))
        .collect();
    let out = drive(Vec::new(), "loop", cap, comps, &ok_tool);
    assert_eq!(out.turn_calls, cap);
    assert!(out.reply.incomplete);
    assert_eq!(out.reply.tools_used, vec!["monthly_trend"; cap]);
    assert_eq!(out.tool_runs.len(), cap);
    assert_eq!(out.events.len(), 2 * cap);
    assert_eq!(out.history.len(), 1 + 2 * cap);
}

#[test]
fn default_cap_is_ten() {
    assert_eq!(DEFAULT_MAX_ITERATIONS, 10);
    let comps: Vec<LlmCompletion> =
        (0..12).map(|i| completion(vec![tool_use(&format!("t{}", i), "x", "{}")])).collect();
    let out = drive(Vec::new(), "loop", DEFAULT_MAX_ITERATIONS, comps, &ok_tool);
    assert_eq!(out.turn_calls, 10);
    assert!(out.reply.incomplete);
}

#[test]
fn zero_cap_makes_no_model_call() {
    let out = drive(Vec::new(), "hi", 0, vec![], &ok_tool);
    assert_eq!(out.turn_calls, 0);
    assert!(out.reply.incomplete);
    assert_eq!(out.history.len(), 1);
}

#[test]
fn failing_tool_gives_error_result_and_loop_continues() {
    let comps = vec![
        completion(vec![tool_use("a", "merchant_breakdown", "{}")]),
        completion(vec![text("Sorry, that failed.")]),
    ];
    let failing = |_: &ToolCall| -> Result<ToolOutput<String>, ToolError> {
        Err(ToolError::InvalidInput("missing field `category`".to_string()))
    };
    let out = drive(Vec::new(), "q", 10, comps, &failing);
    assert_eq!(out.turn_calls, 2);
    assert!(!out.reply.incomplete);
    assert!(out.reply.tools_used.is_empty());
    assert_eq!(out.events.len(), 2);
    assert!(matches!(&out.events[0], AgentEvent::ToolRunning { tool } if tool == "merchant_breakdown"));
    assert!(matches!(&out.events[1], AgentEvent::ToolCompleted { tool } if tool == "merchant_breakdown"));
    let m = &out.history[2];
    assert_eq!(m.role, Role::User);
    assert_eq!(m.content.len(), 1);
    match &m.content[0] {
        ContentBlock::ToolResult(r) => {
            assert!(r.is_error);
            assert_eq!(r.tool_use_id, "a");
            assert_eq!(r.content, "Tool error: InvalidInput(\"missing field `category`\")");
        }
        other => panic!("unexpected {:?}", other),
    }
    assert_eq!(out.reply.text, "Sorry, that failed.");
}

#[test]
fn query_error_report_text() {
    assert_eq!(
        ToolError::Query("Io(Custom { kind: Other })".to_string()).report(),
        "Tool error: Query(Io(Custom { kind: Other }))"
    );
    assert_eq!(
        ToolError::InvalidInput("say \"hi\"\n".to_string()).report(),
        "Tool error: InvalidInput(\"say \\\"hi\\\"\\n\")"
    );
}

#[test]
fn history_shape_with_k_tool_calls() {
    let prior = vec![Message { role: Role::User, content: vec![text("earlier")] }];
    let comps = vec![
        completion(vec![
            text("Checking. "),
            tool_use("a", "spending_by_category", "{}"),
            tool_use("b", "monthly_trend", "{\"year\":2025}"),
            tool_use("c", "income_vs_spending", "{}"),
        ]),
        completion(vec![text("Done.")]),
    ];
    let out = drive(prior, "question", 10, comps, &ok_tool);
    let h = &out.history;
    assert_eq!(h.len(), 1 + 1 + 1 + 3 + 1);
    assert!(matches!(&h[1].content[0], ContentBlock::Text { text } if text == "question"));
    assert_eq!(h[2].role, Role::Assistant);
    assert_eq!(h[2].content.len(), 4);
    for (i, id) in ["a", "b", "c"].iter().enumerate() {
        let m = &h[3 + i];
        assert_eq!(m.role, Role::User);
        assert_eq!(m.content.len(), 1);
        assert!(matches!(&m.content[0], ContentBlock::ToolResult(r) if r.tool_use_id == *id && !r.is_error));
    }
    assert_eq!(h[6].role, Role::Assistant);
    assert_eq!(out.reply.text, "Checking. Done.");
    assert_eq!(out.reply.tools_used, vec!["spending_by_category", "monthly_trend", "income_vs_spending"]);
}

#[test]
fn groceries_example_turn() {
    let comps = vec![
        completion(vec![tool_use("toolu_1", "search_transactions", "{\"search\":\"groceries\"}")]),
        completion(vec![text("You spent CHF 420.50 on groceries this month.")]),
    ];
    let tool = |_: &ToolCall| -> Result<ToolOutput<String>, ToolError> {
        Ok(ToolOutput { summary: "CHF 420.50 across 12 purchases".to_string(), charts: vec![] })
    };
    let out = drive(Vec::new(), "What did I spend on groceries?", 10, comps, &tool);
    assert_eq!(out.turn_calls, 2);
    assert!(!out.reply.incomplete);
    assert_eq!(out.reply.tools_used, vec!["search_transactions"]);
    assert_eq!(out.events.len(), 2);
    assert!(matches!(&out.events[0], AgentEvent::ToolRunning { tool } if tool == "search_transactions"));
    assert!(matches!(&out.events[1], AgentEvent::ToolCompleted { tool } if tool == "search_transactions"));
    assert_eq!(out.reply.text, "You spent CHF 420.50 on groceries this month.");
    match &out.history[2].content[0] {
        ContentBlock::ToolResult(r) => assert_eq!(r.content, "CHF 420.50 across 12 purchases"),
        other => panic!("unexpected {:?}", other),
    }
}

#[test]
fn artifacts_are_emitted_in_order_between_running_and_completed() {
    let comps = vec![
        completion(vec![tool_use("a", "monthly_trend", "{}")]),
        completion(vec![]),
    ];
    let tool = |_: &ToolCall| -> Result<ToolOutput<String>, ToolError> {
        Ok(ToolOutput { summary: "s".to_string(), charts: vec!["c1".to_string(), "c2".to_string()] })
    };
    let out = drive(Vec::new(), "q", 10, comps, &tool);
    assert_eq!(out.events.len(), 4);
    assert!(matches!(&out.events[0], AgentEvent::ToolRunning { .. }));
    assert!(matches!(&out.events[1], AgentEvent::ChartArtifact(c) if c == "c1"));
    assert!(matches!(&out.events[2], AgentEvent::ChartArtifact(c) if c == "c2"));
    assert!(matches!(&out.events[3], AgentEvent::ToolCompleted { .. }));
    assert_eq!(out.reply.charts, vec!["c1".to_string(), "c2".to_string()]);
    // An empty completion is not appended to the history.
    assert_eq!(out.history.len(), 3);
}
