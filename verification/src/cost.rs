//! Estimating how many tokens a request takes.
use vstd::prelude::*;
use vstd::string::*;
use crate::json::{JVal, Json};
use crate::json;

verus! {

/// How many bytes a text takes.
pub open spec fn bytes(s: Seq<char>) -> nat {
    vstd::utf8::encode_utf8(s).len()
}

/// The bytes of the texts of a message's parts.
pub open spec fn parts_bytes(parts: Seq<JVal>) -> nat
    decreases parts.len(),
{
    if parts.len() == 0 {
        0
    } else {
        parts_bytes(parts.drop_last()) + match parts.last().text_at("text"@) {
            Some(t) => bytes(t),
            None => 0,
        }
    }
}

/// The bytes of a message's content: its text, or the texts of its parts.
pub open spec fn content_bytes(content: Option<JVal>) -> nat {
    match content {
        Some(JVal::Str(s)) => bytes(s),
        Some(JVal::Array(parts)) => parts_bytes(parts),
        _ => 0,
    }
}

/// The bytes of the JSON text of a member.
pub open spec fn member_bytes(v: JVal, key: Seq<char>) -> nat {
    match v.get(key) {
        Some(x) => bytes(json::json_text(x)),
        None => 0,
    }
}

/// The bytes of a message: its content and its calls of tools.
pub open spec fn message_bytes(msg: JVal) -> nat {
    content_bytes(msg.get("content"@)) + member_bytes(msg, "tool_calls"@)
}

/// The bytes of messages.
pub open spec fn messages_bytes(msgs: Seq<JVal>) -> nat
    decreases msgs.len(),
{
    if msgs.len() == 0 {
        0
    } else {
        messages_bytes(msgs.drop_last()) + message_bytes(msgs.last())
    }
}

/// The bytes of the descriptions of tools.
pub open spec fn schema_bytes(body: JVal) -> nat {
    member_bytes(body, "tools"@) + member_bytes(body, "functions"@)
}

/// The bytes of a request: all its messages and the descriptions of its tools.
pub open spec fn request_bytes(body: JVal) -> nat {
    messages_bytes(body.items_at("messages"@)) + schema_bytes(body)
}

/// The bytes of the part of a request that an earlier one may have brought already: everything
/// but the last message.
pub open spec fn prefix_bytes(body: JVal) -> nat {
    let msgs = body.items_at("messages"@);
    messages_bytes(
        if msgs.len() == 0 {
            msgs
        } else {
            msgs.drop_last()
        },
    ) + schema_bytes(body)
}

/// The tokens of that many bytes: one for each four, and one for a rest. No more bytes are
/// counted than fit 64 bits.
pub open spec fn tokens(bytes: nat) -> nat {
    let counted = if bytes <= u64::MAX {
        bytes
    } else {
        u64::MAX as nat
    };
    if counted % 4 == 0 {
        counted / 4
    } else {
        counted / 4 + 1
    }
}

/// The smaller of a number and what 64 bits hold.
spec fn capped(n: nat) -> nat {
    if n <= u64::MAX {
        n
    } else {
        u64::MAX as nat
    }
}

fn content_len(content: Option<&Json>) -> (n: u64)
    ensures
        n == capped(
            content_bytes(
                match content {
                    Some(c) => Some(c@),
                    None => None,
                },
            ),
        ),
{
    broadcast use {json::lemma_array_view, json::lemma_object_view};
    match content {
        Some(Json::Str(s)) => s.as_str().as_bytes().len() as u64,
        Some(Json::Array(parts)) => {
            let ghost all = json::item_values(parts@);
            let mut n: u64 = 0;
            let mut i: usize = 0;
            while i < parts.len()
                invariant
                    i <= parts@.len(),
                    all == json::item_values(parts@),
                    n == capped(parts_bytes(all.subrange(0, i as int))),
                decreases parts.len() - i,
            {
                let ghost more = all.subrange(0, i + 1);
                assert(more.drop_last() =~= all.subrange(0, i as int));
                assert(more.last() == parts@[i as int]@);
                match parts[i].text_at("text") {
                    Some(t) => {
                        n = n.saturating_add(t.as_bytes().len() as u64);
                    },
                    None => {},
                }
                i += 1;
            }
            assert(all.subrange(0, i as int) =~= all);
            n
        },
        _ => 0,
    }
}

fn member_len(v: &Json, key: &str) -> (n: u64)
    ensures
        n == capped(member_bytes(v@, key@)),
{
    match v.get(key) {
        Some(x) => {
            let t = x.text();
            t.as_str().as_bytes().len() as u64
        },
        None => 0,
    }
}

/// The bytes of the first `count` messages.
fn messages_len(msgs: &Vec<Json>, count: usize) -> (n: u64)
    requires
        count <= msgs@.len(),
    ensures
        n == capped(messages_bytes(json::item_values(msgs@).subrange(0, count as int))),
{
    let ghost all = json::item_values(msgs@);
    let mut n: u64 = 0;
    let mut i: usize = 0;
    while i < count
        invariant
            i <= count,
            count <= msgs@.len(),
            all == json::item_values(msgs@),
            n == capped(messages_bytes(all.subrange(0, i as int))),
        decreases count - i,
    {
        let ghost more = all.subrange(0, i + 1);
        assert(more.drop_last() =~= all.subrange(0, i as int));
        assert(more.last() == msgs@[i as int]@);
        n = n.saturating_add(content_len(msgs[i].get("content")));
        n = n.saturating_add(member_len(&msgs[i], "tool_calls"));
        i += 1;
    }
    n
}

fn schema_len(body: &Json) -> (n: u64)
    ensures
        n == capped(schema_bytes(body@)),
{
    member_len(body, "tools").saturating_add(member_len(body, "functions"))
}

fn to_tokens(n: u64, Ghost(bytes): Ghost<nat>) -> (r: u64)
    requires
        n == capped(bytes),
    ensures
        r == tokens(bytes),
{
    if n % 4 == 0 {
        n / 4
    } else {
        n / 4 + 1
    }
}

/// Estimates the input tokens of a request: all its messages, and the descriptions of its tools,
/// which are often the larger part.
pub fn estimate_request_tokens(body: &Json) -> (r: u64)
    ensures
        r == tokens(request_bytes(body@)),
{
    let msgs: u64 = match body.array_at("messages") {
        Some(m) => {
            assert(json::item_values(m@).subrange(0, m@.len() as int) =~= json::item_values(m@));
            messages_len(m, m.len())
        },
        None => 0,
    };
    let n: u64 = msgs.saturating_add(schema_len(body));
    to_tokens(n, Ghost(request_bytes(body@)))
}

/// Estimates the tokens of the part of a request that a provider may have cached: everything but
/// the last message.
pub fn estimate_cached_prefix_tokens(body: &Json) -> (r: u64)
    ensures
        r == tokens(prefix_bytes(body@)),
{
    let msgs: u64 = match body.array_at("messages") {
        Some(m) => {
            let ghost all = json::item_values(m@);
            if m.len() == 0 {
                assert(all.subrange(0, 0) =~= all);
                messages_len(m, 0)
            } else {
                assert(all.subrange(0, m@.len() - 1) =~= all.drop_last());
                messages_len(m, m.len() - 1)
            }
        },
        None => 0,
    };
    let n: u64 = msgs.saturating_add(schema_len(body));
    to_tokens(n, Ghost(prefix_bytes(body@)))
}

/// The part of a request that may be cached never takes more tokens than the whole.
pub proof fn law_prefix_within_request(body: JVal)
    ensures
        tokens(prefix_bytes(body)) <= tokens(request_bytes(body)),
{
}

/// The parts of a message count one by one, each with the bytes of its text.
pub proof fn law_parts_count(front: Seq<JVal>, part: JVal, back: Seq<JVal>)
    ensures
        parts_bytes(Seq::empty()) == 0,
        parts_bytes(front + seq![part] + back) == parts_bytes(front) + parts_bytes(back) + (
        match part.get("text"@) {
            Some(JVal::Str(t)) => vstd::utf8::encode_utf8(t).len(),
            _ => 0,
        }),
    decreases back.len(),
{
    let all = front + seq![part] + back;
    if back.len() == 0 {
        assert(all.drop_last() =~= front);
        assert(all.last() == part);
    } else {
        law_parts_count(front, part, back.drop_last());
        assert(all.drop_last() =~= front + seq![part] + back.drop_last());
        assert(all.last() == back.last());
    }
}

/// The messages of a request count one by one: each with the bytes of its content, a text or the
/// texts of its parts, and with those of the text of its calls of tools.
pub proof fn law_messages_count(front: Seq<JVal>, msg: JVal, back: Seq<JVal>)
    ensures
        messages_bytes(Seq::empty()) == 0,
        messages_bytes(front + seq![msg] + back) == messages_bytes(front) + messages_bytes(back) + (
        match msg.get("content"@) {
            Some(JVal::Str(t)) => vstd::utf8::encode_utf8(t).len(),
            Some(JVal::Array(parts)) => parts_bytes(parts),
            _ => 0,
        }) + (match msg.get("tool_calls"@) {
            Some(calls) => vstd::utf8::encode_utf8(json::json_text(calls)).len(),
            None => 0,
        }),
    decreases back.len(),
{
    let all = front + seq![msg] + back;
    if back.len() == 0 {
        assert(all.drop_last() =~= front);
        assert(all.last() == msg);
    } else {
        law_messages_count(front, msg, back.drop_last());
        assert(all.drop_last() =~= front + seq![msg] + back.drop_last());
        assert(all.last() == back.last());
    }
}

/// A request counts with all its messages and with the texts of its tools and of its functions; its
/// prefix with the same but the last message.
pub proof fn law_request_counts(body: JVal, last: JVal, before: Seq<JVal>)
    requires
        body.get("messages"@) == Some(JVal::Array(before.push(last))),
    ensures
        ({
            let tools = match body.get("tools"@) {
                Some(v) => vstd::utf8::encode_utf8(json::json_text(v)).len(),
                None => 0,
            };
            let functions = match body.get("functions"@) {
                Some(v) => vstd::utf8::encode_utf8(json::json_text(v)).len(),
                None => 0,
            };
            &&& request_bytes(body) == messages_bytes(before.push(last)) + tools + functions
            &&& prefix_bytes(body) == messages_bytes(before) + tools + functions
        }),
{
    assert(before.push(last).drop_last() =~= before);
}

/// Four bytes make a token, and so does a rest of one to three: no fewer tokens would hold the
/// bytes, and no more are counted.
pub proof fn law_four_bytes_a_token(n: nat)
    requires
        n <= u64::MAX,
    ensures
        4 * tokens(n) >= n,
        4 * tokens(n) < n + 4,
{
}

} // verus!
