//! Messages, content blocks and completions exchanged with the model.

use vstd::prelude::*;

verus! {

/// Who speaks a message.
#[derive(Debug, Clone, Copy, PartialEq, Eq, Structural)]
pub enum Role {
    User,
    Assistant,
}

/// A model-issued request to run a named tool with structured input.
#[derive(Debug, Clone)]
pub struct ToolCall {
    pub id: String,
    pub name: String,
    pub input: serde_json::Value,
}

/// The outcome of one tool call, sent back to the model.
#[derive(Debug, Clone)]
pub struct ToolResult {
    pub tool_use_id: String,
    pub content: String,
    pub is_error: bool,
}

/// One unit of model input or output.
#[derive(Debug, Clone)]
pub enum ContentBlock {
    Text { text: String },
    ToolUse(ToolCall),
    ToolResult(ToolResult),
}

/// A message of the conversation.
#[derive(Debug, Clone)]
pub struct Message {
    pub role: Role,
    pub content: Vec<ContentBlock>,
}

/// A tool offered to the model.
#[derive(Debug, Clone)]
pub struct ToolDefinition {
    pub name: String,
    pub description: String,
    pub input_schema: serde_json::Value,
}

/// One completion, normalised whether it was received whole or streamed.
#[derive(Debug, Clone)]
pub struct LlmCompletion {
    pub content: Vec<ContentBlock>,
    pub stop_reason: Option<String>,
}

/// A streamed completion: its content blocks and the notifications produced on the way.
#[derive(Debug, Clone)]
pub struct StreamedCompletion {
    pub content: Vec<ContentBlock>,
    pub chunks: Vec<StreamChunk>,
}

/// A notification produced while a stream is decoded.
#[derive(Debug, Clone)]
pub enum StreamChunk {
    Text(String),
    ToolUse(ToolCall),
    Done { stop_reason: Option<String> },
}

/// Why a completion call failed.
#[derive(Debug, Clone)]
pub enum LlmError {
    /// The request could not be carried out (network or I/O).
    Http(String),
    /// The provider answered with a status other than success.
    Api { status: u16, body: String },
}

/// The mathematical value of a tool call.
pub struct ToolCallView {
    pub id: Seq<char>,
    pub name: Seq<char>,
    pub input: serde_json::Value,
}

/// The mathematical value of a tool result.
pub struct ToolResultView {
    pub tool_use_id: Seq<char>,
    pub content: Seq<char>,
    pub is_error: bool,
}

/// The mathematical value of a content block.
pub enum BlockView {
    Text(Seq<char>),
    ToolUse(ToolCallView),
    ToolResult(ToolResultView),
}

/// The mathematical value of a message.
pub struct MessageView {
    pub role: Role,
    pub content: Seq<BlockView>,
}

/// The mathematical value of a stream notification.
pub enum ChunkView {
    Text(Seq<char>),
    ToolUse(ToolCallView),
    Done(Option<Seq<char>>),
}

/// The characters of an optional string.
pub open spec fn opt_view(o: Option<String>) -> Option<Seq<char>> {
    match o {
        Some(s) => Some(s@),
        None => None,
    }
}

impl View for ToolCall {
    type V = ToolCallView;

    open spec fn view(&self) -> ToolCallView {
        ToolCallView { id: self.id@, name: self.name@, input: self.input }
    }
}

impl View for ToolResult {
    type V = ToolResultView;

    open spec fn view(&self) -> ToolResultView {
        ToolResultView {
            tool_use_id: self.tool_use_id@,
            content: self.content@,
            is_error: self.is_error,
        }
    }
}

impl View for ContentBlock {
    type V = BlockView;

    open spec fn view(&self) -> BlockView {
        match self {
            ContentBlock::Text { text } => BlockView::Text(text@),
            ContentBlock::ToolUse(c) => BlockView::ToolUse(c@),
            ContentBlock::ToolResult(r) => BlockView::ToolResult(r@),
        }
    }
}

/// The values of a sequence of blocks.
pub open spec fn blocks_view(v: Seq<ContentBlock>) -> Seq<BlockView> {
    v.map_values(|b: ContentBlock| b@)
}

impl View for Message {
    type V = MessageView;

    open spec fn view(&self) -> MessageView {
        MessageView { role: self.role, content: blocks_view(self.content@) }
    }
}

/// The values of a sequence of messages.
pub open spec fn messages_view(v: Seq<Message>) -> Seq<MessageView> {
    v.map_values(|m: Message| m@)
}

impl View for StreamChunk {
    type V = ChunkView;

    open spec fn view(&self) -> ChunkView {
        match self {
            StreamChunk::Text(t) => ChunkView::Text(t@),
            StreamChunk::ToolUse(c) => ChunkView::ToolUse(c@),
            StreamChunk::Done { stop_reason } => ChunkView::Done(opt_view(*stop_reason)),
        }
    }
}

/// The values of a sequence of notifications.
pub open spec fn chunks_view(v: Seq<StreamChunk>) -> Seq<ChunkView> {
    v.map_values(|c: StreamChunk| c@)
}

/// A copy of an optional string.
pub fn copy_opt(o: &Option<String>) -> (r: Option<String>)
    ensures
        opt_view(r) == opt_view(*o),
{
    match o {
        Some(s) => Some(s.clone()),
        None => None,
    }
}

impl ToolCall {
    /// A copy of this call.
    pub fn duplicate(&self) -> (r: ToolCall)
        ensures
            r@ == self@,
    {
        ToolCall { id: self.id.clone(), name: self.name.clone(), input: self.input.clone() }
    }
}

impl LlmError {
    /// The outcome of a provider response by its HTTP status: success for a status in
    /// 200..300, else an error carrying the status and the raw body.
    pub fn check_status(status: u16, body: String) -> (r: Result<(), LlmError>)
        ensures
            (200 <= status < 300) <==> r is Ok,
            r matches Err(LlmError::Api { status: s, body: b }) ==> s == status && b@ == body@,
            !(r matches Err(LlmError::Http(_))),
    {
        if 200 <= status && status < 300 {
            Ok(())
        } else {
            Err(LlmError::Api { status, body })
        }
    }
}

} // verus!
