//! Reading a completion that the provider returned as one JSON document.

use vstd::prelude::*;
use vstd::utf8::{decode_utf8, valid_utf8};
use crate::json::{
    bool_of, is_null, json_bool, json_null, string_of, json_str, get_str, items_of, json_items, json_member, json_or_null, member, parse_json_or_null,
    str_member, utf8_text,
};
use crate::llm::{
    BlockView, ContentBlock, LlmCompletion, ToolCall, ToolCallView, ToolResult, ToolResultView,
    blocks_view, opt_view,
};

verus! {

/// An optional flag member: absent or `null` is false, a boolean is itself; any other
/// value is not a flag.
pub open spec fn flag_of_json(m: Option<serde_json::Value>) -> Option<bool> {
    match m {
        None => Some(false),
        Some(x) => if json_null(x) {
            Some(false)
        } else {
            json_bool(x)
        },
    }
}

/// An optional string member: absent or `null` is none, a string is itself; any other
/// value is not an optional string.
pub open spec fn opt_str_of_json(m: Option<serde_json::Value>) -> Option<Option<Seq<char>>> {
    match m {
        None => Some(None),
        Some(x) => if json_null(x) {
            Some(None)
        } else {
            match json_str(x) {
                Some(t) => Some(Some(t)),
                None => None,
            }
        },
    }
}

/// The content block that a JSON object describes: a text block, a tool call or a tool
/// result.
pub open spec fn block_of_json(b: serde_json::Value) -> Option<BlockView> {
    let t = str_member(b, "type"@);
    if t == Some("text"@) {
        match str_member(b, "text"@) {
            Some(x) => Some(BlockView::Text(x)),
            None => None,
        }
    } else if t == Some("tool_use"@) {
        match (str_member(b, "id"@), str_member(b, "name"@), json_member(b, "input"@)) {
            (Some(id), Some(name), Some(input)) => Some(
                BlockView::ToolUse(ToolCallView { id, name, input }),
            ),
            _ => None,
        }
    } else if t == Some("tool_result"@) {
        match (
            str_member(b, "tool_use_id"@),
            str_member(b, "content"@),
            flag_of_json(json_member(b, "is_error"@)),
        ) {
            (Some(id), Some(content), Some(flag)) => Some(
                BlockView::ToolResult(ToolResultView { tool_use_id: id, content, is_error: flag }),
            ),
            _ => None,
        }
    } else {
        None
    }
}

/// The blocks that JSON objects describe, in order; none if one of them is not a block.
pub open spec fn blocks_of_json(items: Seq<serde_json::Value>) -> Option<Seq<BlockView>>
    decreases items.len(),
{
    if items.len() == 0 {
        Some(Seq::empty())
    } else {
        match (blocks_of_json(items.drop_last()), block_of_json(items.last())) {
            (Some(bs), Some(b)) => Some(bs.push(b)),
            _ => None,
        }
    }
}

/// The blocks and stop reason of a completion document: its `content` array and its
/// `stop_reason`, a string or `null`.
pub open spec fn completion_of_json(v: serde_json::Value) -> Option<(Seq<BlockView>, Option<Seq<char>>)> {
    match json_member(v, "content"@) {
        Some(c) => match json_items(c) {
            Some(items) => match blocks_of_json(items) {
                Some(bs) => match opt_str_of_json(json_member(v, "stop_reason"@)) {
                    Some(r) => Some((bs, r)),
                    None => None,
                },
                None => None,
            },
            None => None,
        },
        None => None,
    }
}

/// The blocks and stop reason of a response body, if it is a UTF-8 completion document.
pub open spec fn completion_of_body(body: Seq<u8>) -> Option<(Seq<BlockView>, Option<Seq<char>>)> {
    if valid_utf8(body) {
        completion_of_json(json_or_null(decode_utf8(body)))
    } else {
        None
    }
}

/// Reads one content block.
pub fn block_from_json(b: &serde_json::Value) -> (r: Option<ContentBlock>)
    ensures
        match r {
            Some(x) => block_of_json(*b) == Some(x@),
            None => block_of_json(*b) is None,
        },
{
    let t = get_str(b, "type");
    match t {
        Some(t) => {
            if t == String::from_str("text") {
                match get_str(b, "text") {
                    Some(x) => Some(ContentBlock::Text { text: x }),
                    None => None,
                }
            } else if t == String::from_str("tool_use") {
                match (get_str(b, "id"), get_str(b, "name"), member(b, "input")) {
                    (Some(id), Some(name), Some(input)) => Some(
                        ContentBlock::ToolUse(ToolCall { id, name, input: input.clone() }),
                    ),
                    _ => None,
                }
            } else if t == String::from_str("tool_result") {
                match (get_str(b, "tool_use_id"), get_str(b, "content"), flag_from_json(member(b, "is_error"))) {
                    (Some(tool_use_id), Some(content), Some(is_error)) => Some(
                        ContentBlock::ToolResult(ToolResult { tool_use_id, content, is_error }),
                    ),
                    _ => None,
                }
            } else {
                None
            }
        },
        None => None,
    }
}

/// Reads an optional flag member.
fn flag_from_json(m: Option<&serde_json::Value>) -> (r: Option<bool>)
    ensures
        r == flag_of_json(match m {
            Some(x) => Some(*x),
            None => None,
        }),
{
    match m {
        None => Some(false),
        Some(x) => if is_null(x) {
            Some(false)
        } else {
            bool_of(x)
        },
    }
}

/// Reads an optional string member.
fn opt_str_from_json(m: Option<&serde_json::Value>) -> (r: Option<Option<String>>)
    ensures
        match r {
            Some(o) => opt_str_of_json(match m {
                Some(x) => Some(*x),
                None => None,
            }) == Some(opt_view(o)),
            None => opt_str_of_json(match m {
                Some(x) => Some(*x),
                None => None,
            }) is None,
        },
{
    match m {
        None => Some(None),
        Some(x) => if is_null(x) {
            Some(None)
        } else {
            match string_of(x) {
                Some(t) => Some(Some(t)),
                None => None,
            }
        },
    }
}

/// Reads a completion document.
pub fn completion_from_json(v: &serde_json::Value) -> (r: Option<LlmCompletion>)
    ensures
        match r {
            Some(c) => completion_of_json(*v) == Some(
                (blocks_view(c.content@), opt_view(c.stop_reason)),
            ),
            None => completion_of_json(*v) is None,
        },
{
    let content = match member(v, "content") {
        Some(c) => c,
        None => return None,
    };
    let items = match items_of(content) {
        Some(a) => a,
        None => return None,
    };
    let mut blocks: Vec<ContentBlock> = Vec::new();
    let mut i: usize = 0;
    while i < items.len()
        invariant
            0 <= i <= items@.len(),
            json_items(*content) == Some(items@),
            json_member(*v, "content"@) == Some(*content),
            blocks_of_json(items@.take(i as int)) == Some(blocks_view(blocks@)),
        decreases items@.len() - i,
    {
        assert(items@.take(i + 1).drop_last() =~= items@.take(i as int));
        match block_from_json(&items[i]) {
            Some(b) => {
                let ghost before = blocks_view(blocks@);
                blocks.push(b);
                assert(blocks_view(blocks@) =~= before.push(b@));
            },
            None => {
                assert(blocks_of_json(items@.take(i + 1)) is None);
                proof {
                    lemma_blocks_fail_later(items@, i as int + 1);
                }
                assert(items@.take(items@.len() as int) =~= items@);
                assert(blocks_of_json(items@) is None);
                assert(json_member(*v, "content"@) == Some(*content));
                return None;
            },
        }
        i = i + 1;
    }
    assert(items@.take(i as int) =~= items@);
    let m = member(v, "stop_reason");
    assert(json_member(*v, "stop_reason"@) == match m {
        Some(x) => Some(*x),
        None => None::<serde_json::Value>,
    });
    match opt_str_from_json(m) {
        Some(stop_reason) => Some(LlmCompletion { content: blocks, stop_reason }),
        None => None,
    }
}

/// Once a prefix of the items fails to read, every longer prefix fails too.
proof fn lemma_blocks_fail_later(items: Seq<serde_json::Value>, n: int)
    requires
        0 <= n <= items.len(),
        blocks_of_json(items.take(n)) is None,
    ensures
        blocks_of_json(items.take(items.len() as int)) is None,
    decreases items.len() - n,
{
    if n < items.len() {
        assert(items.take(n + 1).drop_last() =~= items.take(n));
        lemma_blocks_fail_later(items, n + 1);
    }
}

/// Reads a completion that was returned whole, from the raw response body.
pub fn parse_completion(body: &[u8]) -> (r: Option<LlmCompletion>)
    ensures
        match r {
            Some(c) => completion_of_body(body@) == Some(
                (blocks_view(c.content@), opt_view(c.stop_reason)),
            ),
            None => completion_of_body(body@) is None,
        },
{
    match utf8_text(body) {
        Some(text) => {
            let v = parse_json_or_null(text);
            completion_from_json(&v)
        },
        None => None,
    }
}

} // verus!
