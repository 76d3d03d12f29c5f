use budget_analyser::agent::{AgentEvent, AgentReply};
use budget_analyser::categories::Category;
use budget_analyser::completion::parse_completion;
use budget_analyser::llm::{ContentBlock, LlmError};
use budget_analyser::search::build_search_conditions;
use budget_analyser::prompt::{build_system_prompt, CategoryCount, CategoryInfo, DataSummary};
use budget_analyser::sse::{error_stream, reply_stream, OutboundEvent};

#[test]
fn category_descriptions_and_schema() {
    assert_eq!(Category::all().len(), 16);
    assert_eq!(Category::all()[0], Category::Groceries);
    assert_eq!(Category::all()[15], Category::Uncategorised);
    assert_eq!(Category::Cash.description(), "ATM withdrawals");
    assert_eq!(Category::Fees.name(), "Fees");
    let schema = Category::schema_for_prompt();
    assert!(schema.starts_with("- Groceries: Supermarkets, food shops, bakeries, butchers\n- Dining: "));
    assert!(schema.ends_with("- Uncategorised: Transactions that could not be confidently classified\n"));
    assert_eq!(schema.lines().count(), 16);
}

#[test]
fn system_prompt_text() {
    let summary = DataSummary {
        min_date: Some("2025-01-01".to_string()),
        max_date: Some("2025-03-31".to_string()),
        total_transactions: 1234,
        categories: vec![
            CategoryCount { name: "Groceries".to_string(), count: 40 },
            CategoryCount { name: "Dining".to_string(), count: 0 },
        ],
    };
    let cats = vec![CategoryInfo { name: "Groceries".to_string(), description: "Food".to_string() }];
    let p = build_system_prompt(&summary, &cats);
    let expected = "You are a budget analysis assistant. Use the provided tools to answer questions about spending.\n\n\ntDATA SUMMARY\n- Date range: 2025-01-01 to 2025-03-31\n- Total transactions: 1234\n- Categories and counts:\n- Groceries (40 tx)\n- Dining (0 tx)\n\n\nCATEGORY SCHEMA\n- Groceries: Food\n\nTOOLS\n- spending_by_category: totals by category with optional year/month filters\n- monthly_trend: monthly spending totals with optional category/year filters\n- merchant_breakdown: top merchants within a category\n- income_vs_spending: monthly income vs spending, optional year filter\n\nGuidance: keep summaries concise, and use tools for quantitative questions.";
    assert_eq!(p, expected);
}

#[test]
fn system_prompt_unknown_range_and_negative_count() {
    let summary = DataSummary {
        min_date: None,
        max_date: Some("2025-03-31".to_string()),
        total_transactions: -9223372036854775808,
        categories: vec![],
    };
    let p = build_system_prompt(&summary, &[]);
    assert!(p.contains("- Date range: unknown range\n- Total transactions: -9223372036854775808\n"));
}

#[test]
fn reply_stream_order() {
    let reply = AgentReply {
        text: "You spent  CHF 420.50".to_string(),
        charts: vec![7u32],
        tools_used: vec!["search_transactions".to_string()],
        incomplete: false,
    };
    let events = vec![
        AgentEvent::ToolRunning { tool: "search_transactions".to_string() },
        AgentEvent::ChartArtifact(7u32),
        AgentEvent::ToolCompleted { tool: "search_transactions".to_string() },
    ];
    let out = reply_stream("conv-1".to_string(), reply, events);
    assert_eq!(out.len(), 3 + 4 + 1);
    assert!(matches!(&out[0], OutboundEvent::ToolUse(t) if t.tool == "search_transactions" && t.status == "running"));
    assert!(matches!(&out[1], OutboundEvent::ChartArtifact(7)));
    assert!(matches!(&out[2], OutboundEvent::ToolUse(t) if t.status == "completed"));
    let words: Vec<String> = out[3..7]
        .iter()
        .map(|e| match e {
            OutboundEvent::Chunk(c) => c.text.clone(),
            other => panic!("unexpected {:?}", other),
        })
        .collect();
    assert_eq!(words, vec!["You ", "spent ", "CHF ", "420.50 "]);
    assert!(matches!(&out[7], OutboundEvent::Done(d) if d.conversation_id == "conv-1" && d.stop_reason.as_deref() == Some("end_turn")));
}

#[test]
fn reply_stream_incomplete_without_text() {
    let reply: AgentReply<u8> = AgentReply { text: String::new(), charts: vec![], tools_used: vec![], incomplete: true };
    let out = reply_stream::<u8>("c".to_string(), reply, vec![]);
    assert_eq!(out.len(), 1);
    assert!(matches!(&out[0], OutboundEvent::Done(d) if d.stop_reason.as_deref() == Some("max_iterations")));
    let err = error_stream::<u8>("boom".to_string());
    assert!(matches!(&err[0], OutboundEvent::Error(e) if e.message == "boom"));
}

#[test]
fn buffered_completion_is_read() {
    let body = br#"{"id":"msg_1","content":[{"type":"text","text":"Hi"},{"type":"tool_use","id":"t1","name":"monthly_trend","input":{"year":2025}}],"stop_reason":"tool_use"}"#;
    let c = parse_completion(body).unwrap();
    assert_eq!(c.stop_reason.as_deref(), Some("tool_use"));
    assert_eq!(c.content.len(), 2);
    assert!(matches!(&c.content[0], ContentBlock::Text { text } if text == "Hi"));
    match &c.content[1] {
        ContentBlock::ToolUse(t) => {
            assert_eq!(t.id, "t1");
            assert_eq!(t.input["year"], 2025);
        }
        other => panic!("unexpected {:?}", other),
    }
    let no_stop = parse_completion(br#"{"content":[],"stop_reason":null}"#).unwrap();
    assert!(no_stop.stop_reason.is_none());
    assert!(parse_completion(br#"{"content":[{"type":"image"}]}"#).is_none());
    assert!(parse_completion(br#"{"content":[],"stop_reason":3}"#).is_none());
    let with_result = parse_completion(
        br#"{"content":[{"type":"tool_result","tool_use_id":"t1","content":"ok"},{"type":"tool_result","tool_use_id":"t2","content":"bad","is_error":true}],"stop_reason":"end_turn"}"#,
    )
    .unwrap();
    assert!(matches!(&with_result.content[0], ContentBlock::ToolResult(r) if r.tool_use_id == "t1" && r.content == "ok" && !r.is_error));
    assert!(matches!(&with_result.content[1], ContentBlock::ToolResult(r) if r.tool_use_id == "t2" && r.is_error));
    assert!(parse_completion(br#"{"content":[{"type":"tool_result","tool_use_id":"t","content":"x","is_error":"yes"}]}"#).is_none());
    assert!(parse_completion(b"<html>").is_none());
    assert!(parse_completion(br#"{"stop_reason":"end_turn"}"#).is_none());
}

#[test]
fn status_check() {
    assert!(LlmError::check_status(200, String::new()).is_ok());
    assert!(LlmError::check_status(299, String::new()).is_ok());
    match LlmError::check_status(529, "overloaded".to_string()) {
        Err(LlmError::Api { status, body }) => {
            assert_eq!(status, 529);
            assert_eq!(body, "overloaded");
        }
        other => panic!("unexpected {:?}", other),
    }
    assert!(LlmError::check_status(199, String::new()).is_err());
}

#[test]
fn search_conditions_with_all_filters() {
    let (conds, params) = build_search_conditions("coop", &Some("Groceries".to_string()), &Some(2025), &Some(3));
    assert_eq!(conds.len(), 5);
    assert_eq!(conds[0], "amount < 0");
    assert_eq!(conds[2], "category = ?");
    assert_eq!(conds[3], "strftime('%Y', date) = ?");
    assert_eq!(conds[4], "strftime('%m', date) = ?");
    assert_eq!(params, vec!["coop", "coop", "Groceries", "2025", "03"]);
    let (conds, params) = build_search_conditions("x", &None, &Some(-7), &Some(12));
    assert_eq!(conds.len(), 4);
    assert_eq!(params, vec!["x", "x", "-7", "12"]);
    let (conds, params) = build_search_conditions("", &None, &None, &None);
    assert_eq!(conds.len(), 2);
    assert_eq!(params, vec!["", ""]);
}
