//! Providers: their keys and the requests and replies of their protocols.
use vstd::prelude::*;
use vstd::string::*;
use crate::config::{Config, ProviderConfig, ProviderKey, ProviderKind, Target};
use crate::float::Real;
use crate::json::{JVal, Json};
use crate::table::Table;
use crate::{float, json, text};

verus! {

/// A key that is ready for use: what to authenticate with, if anything, and its weight.
#[derive(Debug)]
pub struct ResolvedKey {
    pub auth: Option<String>,
    pub weight: Real,
}

/// The model of a key.
#[verifier::ext_equal]
pub struct KeyView {
    pub auth: Option<Seq<char>>,
    pub weight: Real,
}

impl View for ResolvedKey {
    type V = KeyView;

    open spec fn view(&self) -> KeyView {
        KeyView {
            auth: match self.auth {
                Some(a) => Some(a@),
                None => None,
            },
            weight: self.weight,
        }
    }
}

/// The models of a list of keys.
pub open spec fn key_views(keys: Seq<ResolvedKey>) -> Seq<KeyView> {
    Seq::new(keys.len(), |i: int| keys[i]@)
}

/// Whether a key may be used for a model.
pub open spec fn admits(key: ProviderKey, model: Seq<char>) -> bool {
    &&& (key.allow@.len() == 0 || text::texts(key.allow@).contains(model))
    &&& !text::texts(key.deny@).contains(model)
}

/// The keys of a list that may be used for a model and are set in the environment, in order.
pub open spec fn listed_keys(keys: Seq<ProviderKey>, model: Seq<char>, env: Table<String>) -> Seq<
    KeyView,
>
    decreases keys.len(),
{
    if keys.len() == 0 {
        Seq::empty()
    } else {
        let before = listed_keys(keys.drop_last(), model, env);
        let key = keys.last();
        match env.at(key.env@) {
            Some(value) => if admits(key, model) {
                before.push(
                    KeyView {
                        auth: Some(value@),
                        weight: key.weight.larger(Real { bits: 0 }),
                    },
                )
            } else {
                before
            },
            None => before,
        }
    }
}

/// The keys of a provider that can be used for a model. A provider without a list of keys has
/// the one of `api_key_env`, and one without that needs none.
pub open spec fn usable_keys(provider: ProviderConfig, model: Seq<char>, env: Table<String>) -> Seq<
    KeyView,
> {
    if provider.keys@.len() > 0 {
        listed_keys(provider.keys@, model, env)
    } else {
        match provider.api_key_env {
            Some(name) => match env.at(name@) {
                Some(value) => seq![
                    KeyView { auth: Some(value@), weight: Real { bits: float::UNIT } },
                ],
                None => Seq::empty(),
            },
            None => seq![KeyView { auth: None, weight: Real { bits: float::UNIT } }],
        }
    }
}

/// The keys of a provider that can be used for `model`: admitted by their lists of models and
/// set in the environment `env`.
pub fn resolve_keys(provider: &ProviderConfig, model: &str, env: &Table<String>) -> (r: Vec<
    ResolvedKey,
>)
    ensures
        key_views(r@) == usable_keys(*provider, model@, *env),
{
    let mut r: Vec<ResolvedKey> = Vec::new();
    if provider.keys.len() > 0 {
        let ghost all = provider.keys@;
        let mut i: usize = 0;
        assert(key_views(r@) =~= listed_keys(all.subrange(0, 0), model@, *env));
        while i < provider.keys.len()
            invariant
                i <= provider.keys@.len(),
                all == provider.keys@,
                key_views(r@) == listed_keys(all.subrange(0, i as int), model@, *env),
            decreases provider.keys.len() - i,
        {
            let key = &provider.keys[i];
            let ghost upto = all.subrange(0, i + 1);
            let ghost before = key_views(r@);
            assert(upto.drop_last() =~= all.subrange(0, i as int));
            assert(upto.last() == *key);
            let allowed = key.allow.len() == 0 || text::listed(&key.allow, model);
            let denied = text::listed(&key.deny, model);
            match env.get(key.env.as_str()) {
                Some(value) => {
                    if allowed && !denied {
                        r.push(
                            ResolvedKey {
                                auth: Some(value.clone()),
                                weight: key.weight.max(Real::zero()),
                            },
                        );
                        assert(key_views(r@) =~= before.push(r@.last()@));
                    }
                },
                None => {},
            }
            i += 1;
        }
        assert(all.subrange(0, i as int) =~= all);
        return r;
    }
    match &provider.api_key_env {
        Some(name) => {
            match env.get(name.as_str()) {
                Some(value) => {
                    r.push(ResolvedKey { auth: Some(value.clone()), weight: Real::one() });
                },
                None => {},
            }
        },
        None => {
            r.push(ResolvedKey { auth: None, weight: Real::one() });
        },
    }
    assert(key_views(r@) =~= usable_keys(*provider, model@, *env));
    r
}

/// The version of the protocol that requests to `/messages` name.
pub const ANTHROPIC_VERSION: &'static str = "2023-06-01";

/// The limit on output tokens of a request that names none.
pub const ANTHROPIC_DEFAULT_MAX_TOKENS: u64 = 4096;

/// The texts of the parts of a message, one behind the other.
pub open spec fn parts_text(parts: Seq<JVal>) -> Seq<char>
    decreases parts.len(),
{
    if parts.len() == 0 {
        Seq::empty()
    } else {
        let before = parts_text(parts.drop_last());
        match parts.last().text_at("text"@) {
            Some(t) => before + t,
            None => before,
        }
    }
}

/// The text of a message: its content, or the texts of the content's parts.
pub open spec fn message_text(msg: JVal) -> Seq<char> {
    match msg.get("content"@) {
        Some(JVal::Str(s)) => s,
        Some(JVal::Array(parts)) => parts_text(parts),
        _ => Seq::empty(),
    }
}

/// The text of a message.
fn text_of_message(msg: &Json) -> (r: String)
    ensures
        r@ == message_text(msg@),
{
    broadcast use {json::lemma_array_view, json::lemma_object_view};
    match msg.get("content") {
        Some(Json::Str(s)) => s.clone(),
        Some(Json::Array(parts)) => {
            let ghost all = json::item_values(parts@);
            let mut r = String::new();
            let mut i: usize = 0;
            while i < parts.len()
                invariant
                    i <= parts@.len(),
                    all == json::item_values(parts@),
                    r@ == parts_text(all.subrange(0, i as int)),
                decreases parts.len() - i,
            {
                let ghost more = all.subrange(0, i + 1);
                assert(more.drop_last() =~= all.subrange(0, i as int));
                assert(more.last() == parts@[i as int]@);
                match parts[i].text_at("text") {
                    Some(t) => {
                        r.append(t);
                    },
                    None => {},
                }
                i += 1;
            }
            assert(all.subrange(0, i as int) =~= all);
            r
        },
        _ => String::new(),
    }
}

/// A block of text.
pub open spec fn text_block(t: Seq<char>) -> JVal {
    JVal::empty_object().with("type"@, JVal::Str("text"@)).with("text"@, JVal::Str(t))
}

fn make_text_block(t: &str) -> (r: Json)
    ensures
        r@ == text_block(t@),
{
    let mut r = Json::object();
    r.set("type", Json::string("text"));
    r.set("text", Json::string(t));
    r
}

/// A block that calls a tool: the call's id and name, and its arguments as a tree.
pub open spec fn tool_use(call: JVal, input: JVal) -> JVal {
    JVal::empty_object().with("type"@, JVal::Str("tool_use"@)).with(
        "id"@,
        JVal::Str(call.text_or("id"@, ""@)),
    ).with("name"@, JVal::Str(call.at("function"@).text_or("name"@, ""@))).with("input"@, input)
}

/// The arguments of a call as a tree; an empty object where they cannot be read.
pub open spec fn call_input(call: JVal) -> JVal {
    match call.at("function"@).text_at("arguments"@) {
        Some(s) => match json::json_parse(s) {
            Some(v) => v,
            None => JVal::empty_object(),
        },
        None => JVal::empty_object(),
    }
}

/// A block that calls a tool, with the call's arguments as a tree.
pub fn tool_use_block(call: &Json, input: Json) -> (r: Json)
    ensures
        r@ == tool_use(call@, input@),
{
    let mut r = Json::object();
    r.set("type", Json::string("tool_use"));
    r.set("id", Json::string(call.text_or("id", "")));
    let name = match call.get("function") {
        Some(f) => f.text_or("name", ""),
        None => "",
    };
    r.set("name", Json::string(name));
    r.set("input", input);
    r
}

/// The block for a call of a tool, with its arguments read from their text.
fn openai_tool_call_to_anthropic(call: &Json) -> (r: Json)
    ensures
        r@ == tool_use(call@, call_input(call@)),
{
    let args = match call.get("function") {
        Some(f) => f.text_at("arguments"),
        None => None,
    };
    let input = match args {
        Some(s) => match Json::parse(s) {
            Some(v) => v,
            None => Json::object(),
        },
        None => Json::object(),
    };
    tool_use_block(call, input)
}

/// A block that holds the result of a tool.
pub open spec fn tool_result(msg: JVal) -> JVal {
    JVal::empty_object().with("type"@, JVal::Str("tool_result"@)).with(
        "tool_use_id"@,
        JVal::Str(msg.text_or("tool_call_id"@, ""@)),
    ).with("content"@, JVal::Str(message_text(msg)))
}

/// A tool in the form that `/messages` takes; none for a tool without a function or name.
pub open spec fn anthropic_tool(tool: JVal) -> Option<JVal> {
    let f = tool.at("function"@);
    match f.text_at("name"@) {
        Some(name) => {
            let schema = match f.get("parameters"@) {
                Some(p) => p,
                None => JVal::empty_object().with("type"@, JVal::Str("object"@)),
            };
            let o = JVal::empty_object().with("name"@, JVal::Str(name)).with(
                "input_schema"@,
                schema,
            );
            Some(
                match f.get("description"@) {
                    Some(d) => o.with("description"@, d),
                    None => o,
                },
            )
        },
        None => None,
    }
}

/// A tool in the form that `/messages` takes.
fn openai_tool_to_anthropic(tool: &Json) -> (r: Option<Json>)
    ensures
        match r {
            Some(v) => anthropic_tool(tool@) == Some(v@),
            None => anthropic_tool(tool@) is None,
        },
{
    match tool.get("function") {
        Some(f) => match f.text_at("name") {
            Some(name) => {
                let mut o = Json::object();
                o.set("name", Json::string(name));
                let schema = match f.get("parameters") {
                    Some(p) => p.copy(),
                    None => {
                        let mut s = Json::object();
                        s.set("type", Json::string("object"));
                        s
                    },
                };
                o.set("input_schema", schema);
                match f.get("description") {
                    Some(d) => {
                        o.set("description", d.copy());
                    },
                    None => {},
                }
                Some(o)
            },
            None => None,
        },
        None => None,
    }
}

/// The messages of one side of a conversation in a row, as one turn.
pub struct Turn {
    pub assistant: bool,
    pub blocks: Seq<JVal>,
}

/// A turn with its blocks.
struct TurnBlocks {
    assistant: bool,
    blocks: Vec<Json>,
}

impl TurnBlocks {
    spec fn turn(self) -> Turn {
        Turn { assistant: self.assistant, blocks: json::item_values(self.blocks@) }
    }
}

spec fn turns_of(s: Seq<TurnBlocks>) -> Seq<Turn> {
    Seq::new(s.len(), |i: int| s[i].turn())
}

/// What is known of a conversation after some of its messages.
pub struct Talk {
    pub system: Seq<char>,
    pub turns: Seq<Turn>,
}

/// More blocks from one side: they join the last turn where that side had it.
pub open spec fn add_blocks(turns: Seq<Turn>, assistant: bool, blocks: Seq<JVal>) -> Seq<Turn> {
    if blocks.len() == 0 {
        turns
    } else if turns.len() > 0 && turns.last().assistant == assistant {
        turns.drop_last().push(Turn { assistant, blocks: turns.last().blocks + blocks })
    } else {
        turns.push(Turn { assistant, blocks })
    }
}

/// The blocks for each of the calls.
pub open spec fn call_blocks(calls: Seq<JVal>) -> Seq<JVal> {
    Seq::new(calls.len(), |i: int| tool_use(calls[i], call_input(calls[i])))
}

/// The blocks of a text: one, or none where it is empty.
pub open spec fn text_blocks(t: Seq<char>) -> Seq<JVal> {
    if t.len() == 0 {
        Seq::empty()
    } else {
        seq![text_block(t)]
    }
}

/// A conversation with one more message.
pub open spec fn hear(talk: Talk, msg: JVal) -> Talk {
    let role = msg.text_or("role"@, "user"@);
    let t = message_text(msg);
    if role == "system"@ {
        if t.len() == 0 {
            talk
        } else if talk.system.len() == 0 {
            Talk { system: t, ..talk }
        } else {
            Talk { system: talk.system + "\n"@ + t, ..talk }
        }
    } else if role == "assistant"@ {
        Talk {
            turns: add_blocks(
                talk.turns,
                true,
                text_blocks(t) + call_blocks(msg.items_at("tool_calls"@)),
            ),
            ..talk
        }
    } else if role == "tool"@ {
        Talk { turns: add_blocks(talk.turns, false, seq![tool_result(msg)]), ..talk }
    } else {
        Talk { turns: add_blocks(talk.turns, false, text_blocks(t)), ..talk }
    }
}

/// The conversation that messages make.
pub open spec fn talk_of(msgs: Seq<JVal>) -> Talk
    decreases msgs.len(),
{
    if msgs.len() == 0 {
        Talk { system: Seq::empty(), turns: Seq::empty() }
    } else {
        hear(talk_of(msgs.drop_last()), msgs.last())
    }
}

/// The content of a turn: a single block of text stands as plain text.
pub open spec fn turn_content(blocks: Seq<JVal>) -> JVal {
    if blocks.len() == 1 && blocks[0].text_at("type"@) == Some("text"@) && blocks[0].text_at(
        "text"@,
    ) is Some {
        JVal::Str(blocks[0].text_at("text"@).unwrap())
    } else {
        JVal::Array(blocks)
    }
}

/// A turn as a message.
pub open spec fn turn_message(turn: Turn) -> JVal {
    JVal::empty_object().with(
        "role"@,
        JVal::Str(
            if turn.assistant {
                "assistant"@
            } else {
                "user"@
            },
        ),
    ).with("content"@, turn_content(turn.blocks))
}

/// The turns as messages.
pub open spec fn turn_messages(turns: Seq<Turn>) -> Seq<JVal> {
    Seq::new(turns.len(), |i: int| turn_message(turns[i]))
}

/// The tools that `/messages` takes, in order.
pub open spec fn anthropic_tools(tools: Seq<JVal>) -> Seq<JVal>
    decreases tools.len(),
{
    if tools.len() == 0 {
        Seq::empty()
    } else {
        let before = anthropic_tools(tools.drop_last());
        match anthropic_tool(tools.last()) {
            Some(t) => before.push(t),
            None => before,
        }
    }
}

/// `to` with the member under `key` of `from`, under the name `name`, where there is one.
pub open spec fn carry(to: JVal, from: JVal, key: Seq<char>, name: Seq<char>) -> JVal {
    match from.get(key) {
        Some(v) => to.with(name, v),
        None => to,
    }
}

/// The body of a request to `/messages` that asks the same as a request to `/chat/completions`.
pub open spec fn anthropic_request(body: JVal, model: Seq<char>) -> JVal {
    let talk = talk_of(body.items_at("messages"@));
    let limit = match body.uint_at("max_tokens"@) {
        Some(n) => n,
        None => ANTHROPIC_DEFAULT_MAX_TOKENS,
    };
    let base = JVal::empty_object().with("model"@, JVal::Str(model)).with(
        "max_tokens"@,
        JVal::Uint(limit),
    ).with("messages"@, JVal::Array(turn_messages(talk.turns)));
    let a = if talk.system.len() == 0 {
        base
    } else {
        base.with("system"@, JVal::Str(talk.system))
    };
    let b = carry(a, body, "temperature"@, "temperature"@);
    let c = carry(b, body, "top_p"@, "top_p"@);
    let d = carry(c, body, "stop"@, "stop_sequences"@);
    let tools = anthropic_tools(body.items_at("tools"@));
    if tools.len() == 0 {
        d
    } else {
        d.with("tools"@, JVal::Array(tools))
    }
}

/// Adds blocks from one side.
fn push_blocks(turns: &mut Vec<TurnBlocks>, assistant: bool, blocks: Vec<Json>)
    ensures
        turns_of(final(turns)@) == add_blocks(
            turns_of(old(turns)@),
            assistant,
            json::item_values(blocks@),
        ),
{
    let ghost before = turns_of(turns@);
    let ghost added = json::item_values(blocks@);
    if blocks.len() == 0 {
        return;
    }
    let n: usize = turns.len();
    if n > 0 && turns[n - 1].assistant == assistant {
        let mut more = blocks;
        match turns.pop() {
            Some(last) => {
                let ghost prior = turns_of(turns@);
                let mut all = last.blocks;
                let ghost held = all@;
                all.append(&mut more);
                assert(json::item_values(all@) =~= json::item_values(held) + added);
                assert(prior =~= before.drop_last());
                turns.push(TurnBlocks { assistant, blocks: all });
                assert(turns_of(turns@) =~= before.drop_last().push(
                    Turn { assistant, blocks: before.last().blocks + added },
                ));
            },
            None => {},
        }
    } else {
        turns.push(TurnBlocks { assistant, blocks });
        assert(turns_of(turns@) =~= before.push(Turn { assistant, blocks: added }));
    }
}

fn make_text_blocks(t: &str) -> (r: Vec<Json>)
    ensures
        json::item_values(r@) == text_blocks(t@),
{
    let mut r: Vec<Json> = Vec::new();
    if !t.is_empty() {
        r.push(make_text_block(t));
    }
    assert(json::item_values(r@) =~= text_blocks(t@));
    r
}

fn make_call_blocks(blocks: &mut Vec<Json>, calls: &Vec<Json>)
    ensures
        json::item_values(final(blocks)@) == json::item_values(old(blocks)@) + call_blocks(
            json::item_values(calls@),
        ),
{
    let ghost start = json::item_values(blocks@);
    let ghost all = json::item_values(calls@);
    let mut i: usize = 0;
    assert(start =~= start + call_blocks(all.subrange(0, 0)));
    while i < calls.len()
        invariant
            i <= calls@.len(),
            all == json::item_values(calls@),
            json::item_values(blocks@) == start + call_blocks(all.subrange(0, i as int)),
        decreases calls.len() - i,
    {
        let ghost was = json::item_values(blocks@);
        let block = openai_tool_call_to_anthropic(&calls[i]);
        let ghost v = block@;
        blocks.push(block);
        assert(json::item_values(blocks@) =~= was.push(v));
        assert(call_blocks(all.subrange(0, i + 1)) =~= call_blocks(
            all.subrange(0, i as int),
        ).push(v));
        i += 1;
    }
    assert(all.subrange(0, i as int) =~= all);
}

/// Takes in one more message.
fn take_in(system: &mut String, turns: &mut Vec<TurnBlocks>, msg: &Json)
    ensures
        ({
            let before = Talk { system: old(system)@, turns: turns_of(old(turns)@) };
            let after = hear(before, msg@);
            final(system)@ == after.system && turns_of(final(turns)@) == after.turns
        }),
{
    let role = msg.text_or("role", "user");
    let t = text_of_message(msg);
    if text::same(role, "system") {
        if !t.as_str().is_empty() {
            if !system.as_str().is_empty() {
                system.append("\n");
                system.append(t.as_str());
            } else {
                *system = t;
            }
        }
    } else if text::same(role, "assistant") {
        let mut blocks = make_text_blocks(t.as_str());
        match msg.array_at("tool_calls") {
            Some(calls) => {
                make_call_blocks(&mut blocks, calls);
            },
            None => {
                assert(json::item_values(blocks@) =~= text_blocks(t@) + call_blocks(
                    Seq::<JVal>::empty(),
                ));
            },
        }
        push_blocks(turns, true, blocks);
    } else if text::same(role, "tool") {
        let mut block = Json::object();
        block.set("type", Json::string("tool_result"));
        block.set("tool_use_id", Json::string(msg.text_or("tool_call_id", "")));
        block.set("content", Json::string(t.as_str()));
        let mut blocks: Vec<Json> = Vec::new();
        blocks.push(block);
        assert(json::item_values(blocks@) =~= seq![tool_result(msg@)]);
        push_blocks(turns, false, blocks);
    } else {
        push_blocks(turns, false, make_text_blocks(t.as_str()));
    }
}

/// The content of a turn.
fn make_content(blocks: Vec<Json>) -> (r: Json)
    ensures
        r@ == turn_content(json::item_values(blocks@)),
{
    if blocks.len() == 1 {
        assert(json::item_values(blocks@)[0] == blocks@[0]@);
        let plain = match blocks[0].text_at("type") {
            Some(kind) => text::same(kind, "text"),
            None => false,
        };
        if plain {
            match blocks[0].text_at("text") {
                Some(t) => {
                    return Json::string(t);
                },
                None => {},
            }
        }
    }
    Json::array(blocks)
}

/// The turns as messages.
fn make_messages(turns: Vec<TurnBlocks>) -> (r: Json)
    ensures
        r@ == JVal::Array(turn_messages(turns_of(turns@))),
{
    let ghost all = turns_of(turns@);
    let mut rest = turns;
    let mut out: Vec<Json> = Vec::new();
    while rest.len() > 0
        invariant
            rest@.len() + out@.len() == all.len(),
            turns_of(rest@) == all.subrange(0, rest@.len() as int),
            forall|k: int|
                0 <= k < out@.len() ==> (#[trigger] out@[k])@ == turn_message(
                    all[rest@.len() + k],
                ),
        decreases rest.len(),
    {
        let ghost was = out@;
        let ghost n = rest@.len() as int;
        assert(turns_of(rest@)[n - 1] == rest@[n - 1].turn());
        match rest.pop() {
            Some(turn) => {
                let mut m = Json::object();
                m.set("role", Json::string(if turn.assistant { "assistant" } else { "user" }));
                m.set("content", make_content(turn.blocks));
                let ghost v = m@;
                assert(v == turn_message(all[n - 1]));
                out.insert(0, m);
                assert(turns_of(rest@) =~= all.subrange(0, rest@.len() as int));
                assert forall|k: int| 0 <= k < out@.len() implies (#[trigger] out@[k])@
                    == turn_message(all[rest@.len() + k]) by {
                    if k > 0 {
                        assert(out@[k] == was[k - 1]);
                    }
                }
            },
            None => {},
        }
    }
    assert(json::item_values(out@) =~= turn_messages(all));
    Json::array(out)
}

fn copy_member(to: &mut Json, from: &Json, key: &str, name: &str)
    ensures
        final(to)@ == carry(old(to)@, from@, key@, name@),
{
    match from.get(key) {
        Some(v) => {
            to.set(name, v.copy());
        },
        None => {},
    }
}

/// The body of a request to `/messages` that asks the same as `body`, a request to
/// `/chat/completions`. Calls of tools and their results are kept, and messages of one side in
/// a row are joined, because sides have to alternate.
pub fn to_anthropic_request(body: &Json, model: &str) -> (r: Json)
    ensures
        r@ == anthropic_request(body@, model@),
{
    let ghost all = body@.items_at("messages"@);
    let mut system = String::new();
    let mut turns: Vec<TurnBlocks> = Vec::new();
    assert(turns_of(turns@) =~= Seq::empty());
    match body.array_at("messages") {
        Some(msgs) => {
            let mut i: usize = 0;
            while i < msgs.len()
                invariant
                    i <= msgs@.len(),
                    all == json::item_values(msgs@),
                    system@ == talk_of(all.subrange(0, i as int)).system,
                    turns_of(turns@) == talk_of(all.subrange(0, i as int)).turns,
                decreases msgs.len() - i,
            {
                let ghost more = all.subrange(0, i + 1);
                assert(more.drop_last() =~= all.subrange(0, i as int));
                assert(more.last() == msgs@[i as int]@);
                take_in(&mut system, &mut turns, &msgs[i]);
                i += 1;
            }
            assert(all.subrange(0, i as int) =~= all);
        },
        None => {},
    }
    let limit: u64 = match body.uint_at("max_tokens") {
        Some(n) => n,
        None => ANTHROPIC_DEFAULT_MAX_TOKENS,
    };
    let mut out = Json::object();
    out.set("model", Json::string(model));
    out.set("max_tokens", Json::uint(limit));
    out.set("messages", make_messages(turns));
    if !system.as_str().is_empty() {
        out.set("system", Json::string(system.as_str()));
    }
    copy_member(&mut out, body, "temperature", "temperature");
    copy_member(&mut out, body, "top_p", "top_p");
    copy_member(&mut out, body, "stop", "stop_sequences");
    match body.array_at("tools") {
        Some(tools) => {
            let ghost listed = body@.items_at("tools"@);
            let mut mapped: Vec<Json> = Vec::new();
            let mut i: usize = 0;
            assert(json::item_values(mapped@) =~= anthropic_tools(listed.subrange(0, 0)));
            while i < tools.len()
                invariant
                    i <= tools@.len(),
                    listed == json::item_values(tools@),
                    json::item_values(mapped@) == anthropic_tools(listed.subrange(0, i as int)),
                decreases tools.len() - i,
            {
                let ghost more = listed.subrange(0, i + 1);
                let ghost was = json::item_values(mapped@);
                assert(more.drop_last() =~= listed.subrange(0, i as int));
                assert(more.last() == tools@[i as int]@);
                match openai_tool_to_anthropic(&tools[i]) {
                    Some(t) => {
                        let ghost v = t@;
                        mapped.push(t);
                        assert(json::item_values(mapped@) =~= was.push(v));
                    },
                    None => {},
                }
                i += 1;
            }
            assert(listed.subrange(0, i as int) =~= listed);
            if mapped.len() > 0 {
                out.set("tools", Json::array(mapped));
            }
        },
        None => {},
    }
    out
}

/// The texts of the blocks of an answer, one behind the other.
pub open spec fn answer_text(blocks: Seq<JVal>) -> Seq<char>
    decreases blocks.len(),
{
    if blocks.len() == 0 {
        Seq::empty()
    } else {
        let before = answer_text(blocks.drop_last());
        let b = blocks.last();
        if b.text_at("type"@) == Some("text"@) && b.text_at("text"@) is Some {
            before + b.text_at("text"@).unwrap()
        } else {
            before
        }
    }
}

/// A call of a tool in an answer.
pub open spec fn answer_call(block: JVal) -> JVal {
    JVal::empty_object().with("id"@, JVal::Str(block.text_or("id"@, ""@))).with(
        "type"@,
        JVal::Str("function"@),
    ).with(
        "function"@,
        JVal::empty_object().with("name"@, JVal::Str(block.text_or("name"@, ""@))).with(
            "arguments"@,
            JVal::Str(
                match block.get("input"@) {
                    Some(v) => json::json_text(v),
                    None => "{}"@,
                },
            ),
        ),
    )
}

/// The calls of tools in the blocks of an answer.
pub open spec fn answer_calls(blocks: Seq<JVal>) -> Seq<JVal>
    decreases blocks.len(),
{
    if blocks.len() == 0 {
        Seq::empty()
    } else {
        let before = answer_calls(blocks.drop_last());
        if blocks.last().text_at("type"@) == Some("tool_use"@) {
            before.push(answer_call(blocks.last()))
        } else {
            before
        }
    }
}

/// Why an answer stopped, in the words of `/chat/completions`.
pub open spec fn finish_reason(stop_reason: Option<Seq<char>>) -> Seq<char> {
    match stop_reason {
        Some(s) => if s == "max_tokens"@ {
            "length"@
        } else if s == "tool_use"@ {
            "tool_calls"@
        } else if s == "refusal"@ {
            "content_filter"@
        } else {
            "stop"@
        },
        None => "stop"@,
    }
}

/// A number, or 0 where there is none.
pub open spec fn or_zero(n: Option<u64>) -> u64 {
    match n {
        Some(x) => x,
        None => 0,
    }
}

/// The message of an answer.
pub open spec fn answer_message(blocks: Seq<JVal>) -> JVal {
    let t = answer_text(blocks);
    let calls = answer_calls(blocks);
    let m = JVal::empty_object().with("role"@, JVal::Str("assistant"@)).with(
        "content"@,
        if t.len() == 0 {
            JVal::Null
        } else {
            JVal::Str(t)
        },
    );
    if calls.len() == 0 {
        m
    } else {
        m.with("tool_calls"@, JVal::Array(calls))
    }
}

/// A member, or an empty text where there is none.
pub open spec fn member_or_empty(v: JVal, key: Seq<char>) -> JVal {
    match v.get(key) {
        Some(x) => x,
        None => JVal::Str(""@),
    }
}

/// The answer of `/messages` in the form of `/chat/completions`.
pub open spec fn openai_response(resp: JVal, created: u64) -> JVal {
    let blocks = resp.items_at("content"@);
    let prompt = or_zero(resp.at("usage"@).uint_at("input_tokens"@));
    let completion = or_zero(resp.at("usage"@).uint_at("output_tokens"@));
    let choice = JVal::empty_object().with("index"@, JVal::Uint(0)).with(
        "message"@,
        answer_message(blocks),
    ).with("finish_reason"@, JVal::Str(finish_reason(resp.text_at("stop_reason"@))));
    let usage = JVal::empty_object().with("prompt_tokens"@, JVal::Uint(prompt)).with(
        "completion_tokens"@,
        JVal::Uint(completion),
    ).with("total_tokens"@, JVal::Uint(total_tokens(prompt, completion)));
    JVal::empty_object().with("id"@, member_or_empty(resp, "id"@)).with(
        "object"@,
        JVal::Str("chat.completion"@),
    ).with("created"@, JVal::Uint(created)).with("model"@, member_or_empty(resp, "model"@)).with(
        "choices"@,
        JVal::Array(seq![choice]),
    ).with("usage"@, usage)
}

/// The sum of two counts, as 64 bits hold it.
pub open spec fn total_tokens(prompt: u64, completion: u64) -> u64 {
    if prompt + completion <= u64::MAX {
        (prompt + completion) as u64
    } else {
        (prompt + completion - u64::MAX - 1) as u64
    }
}

fn copy_or_empty(v: &Json, key: &str) -> (r: Json)
    ensures
        r@ == member_or_empty(v@, key@),
{
    match v.get(key) {
        Some(x) => x.copy(),
        None => Json::string(""),
    }
}

/// A block that calls a tool.
pub open spec fn call_block(id: Seq<char>, name: Seq<char>, input: JVal) -> JVal {
    JVal::empty_object().with("type"@, JVal::Str("tool_use"@)).with("id"@, JVal::Str(id)).with(
        "name"@,
        JVal::Str(name),
    ).with("input"@, input)
}

/// Whether a block calls a tool with arguments that their text reads back as, and holds nothing
/// else.
pub open spec fn is_exact_call(block: JVal) -> bool {
    let input = block.at("input"@);
    block == call_block(block.text_or("id"@, ""@), block.text_or("name"@, ""@), input)
        && json::is_exact(input)
}

/// Whether a call of a tool in an answer comes back in a later request as the block that it was.
pub open spec fn comes_back(block: JVal) -> bool {
    let call = answer_call(block);
    tool_use(call, call_input(call)) == block
}

fn make_call(block: &Json) -> (r: Json)
    ensures
        r@ == answer_call(block@),
        is_exact_call(block@) ==> comes_back(block@),
{
    proof {
        let input = block@.at("input"@);
        let id = block@.text_or("id"@, ""@);
        let name = block@.text_or("name"@, ""@);
        if is_exact_call(block@) {
            assert(call_block(id, name, input).get("input"@) == Some(input));
        }
        if json::json_parse(json::json_text(input)) == Some(input) {
            law_answered_calls_come_back(id, name, input);
        }
    }
    let mut f = Json::object();
    f.set("name", Json::string(block.text_or("name", "")));
    let args = match block.get("input") {
        Some(v) => v.text(),
        None => "{}".to_owned(),
    };
    f.set("arguments", Json::string(args.as_str()));
    let mut r = Json::object();
    r.set("id", Json::string(block.text_or("id", "")));
    r.set("type", Json::string("function"));
    r.set("function", f);
    r
}

/// The answer of `/messages` in the form of `/chat/completions`. Its calls of tools come back in
/// later requests as the blocks that they were.
pub fn to_openai_response(resp: &Json, created: u64) -> (r: Json)
    ensures
        r@ == openai_response(resp@, created),
        forall|i: int|
            0 <= i < resp@.items_at("content"@).len() && is_exact_call(
                #[trigger] resp@.items_at("content"@)[i],
            ) ==> comes_back(resp@.items_at("content"@)[i]),
{
    let ghost all = resp@.items_at("content"@);
    let mut t = String::new();
    let mut calls: Vec<Json> = Vec::new();
    assert(json::item_values(calls@) =~= Seq::empty());
    match resp.array_at("content") {
        Some(blocks) => {
            let mut i: usize = 0;
            while i < blocks.len()
                invariant
                    i <= blocks@.len(),
                    all == json::item_values(blocks@),
                    t@ == answer_text(all.subrange(0, i as int)),
                    json::item_values(calls@) == answer_calls(all.subrange(0, i as int)),
                    forall|j: int|
                        0 <= j < i && is_exact_call(#[trigger] all[j]) ==> comes_back(all[j]),
                decreases blocks.len() - i,
            {
                let ghost more = all.subrange(0, i + 1);
                let ghost was = json::item_values(calls@);
                assert(more.drop_last() =~= all.subrange(0, i as int));
                assert(more.last() == blocks@[i as int]@);
                let block = &blocks[i];
                proof {
                    reveal_strlit("text");
                    reveal_strlit("tool_use");
                    assert("text"@.len() != "tool_use"@.len());
                    if is_exact_call(all[i as int]) {
                        lemma_call_block_type(
                            all[i as int].text_or("id"@, ""@),
                            all[i as int].text_or("name"@, ""@),
                            all[i as int].at("input"@),
                        );
                    }
                }
                match block.text_at("type") {
                    Some(kind) => {
                        if text::same(kind, "text") {
                            match block.text_at("text") {
                                Some(s) => {
                                    t.append(s);
                                },
                                None => {},
                            }
                        } else if text::same(kind, "tool_use") {
                            let call = make_call(block);
                            let ghost v = call@;
                            calls.push(call);
                            assert(json::item_values(calls@) =~= was.push(v));
                        }
                    },
                    None => {},
                }
                i += 1;
            }
            assert(all.subrange(0, i as int) =~= all);
        },
        None => {},
    }
    let finish = match resp.text_at("stop_reason") {
        Some(s) => if text::same(s, "max_tokens") {
            "length"
        } else if text::same(s, "tool_use") {
            "tool_calls"
        } else if text::same(s, "refusal") {
            "content_filter"
        } else {
            "stop"
        },
        None => "stop",
    };
    let (prompt, completion): (u64, u64) = match resp.get("usage") {
        Some(u) => (
            match u.uint_at("input_tokens") {
                Some(n) => n,
                None => 0,
            },
            match u.uint_at("output_tokens") {
                Some(n) => n,
                None => 0,
            },
        ),
        None => (0, 0),
    };
    let mut message = Json::object();
    message.set("role", Json::string("assistant"));
    message.set(
        "content",
        if t.as_str().is_empty() {
            Json::Null
        } else {
            Json::string(t.as_str())
        },
    );
    assert(json::item_values(calls@).len() == calls@.len());
    if calls.len() > 0 {
        message.set("tool_calls", Json::array(calls));
    }
    let mut choice = Json::object();
    choice.set("index", Json::uint(0));
    choice.set("message", message);
    choice.set("finish_reason", Json::string(finish));
    let ghost choice_value = choice@;
    let mut choices: Vec<Json> = Vec::new();
    choices.push(choice);
    assert(json::item_values(choices@) =~= seq![choice_value]);
    let mut usage = Json::object();
    usage.set("prompt_tokens", Json::uint(prompt));
    usage.set("completion_tokens", Json::uint(completion));
    usage.set("total_tokens", Json::uint(prompt.wrapping_add(completion)));
    let mut out = Json::object();
    out.set("id", copy_or_empty(resp, "id"));
    out.set("object", Json::string("chat.completion"));
    out.set("created", Json::uint(created));
    out.set("model", copy_or_empty(resp, "model"));
    out.set("choices", Json::array(choices));
    out.set("usage", usage);
    out
}

/// Why a request cannot be sent, or was not answered.
#[derive(Debug)]
pub enum ProviderError {
    /// The provider is not configured, or disabled.
    Unavailable(String),
    MissingKey(String),
    /// The connection failed, with this description.
    Http(String),
}

impl ProviderError {
    /// The text of the error.
    pub open spec fn text(self) -> Seq<char> {
        match self {
            ProviderError::Unavailable(p) => "provider '"@ + p@
                + "' nicht konfiguriert oder deaktiviert"@,
            ProviderError::MissingKey(k) => "API-Key env '"@ + k@ + "' nicht gesetzt"@,
            ProviderError::Http(e) => "HTTP-Fehler: "@ + e@,
        }
    }

    /// The text of the error.
    pub fn message(&self) -> (r: String)
        ensures
            r@ == self.text(),
    {
        match self {
            ProviderError::Unavailable(p) => {
                let mut s = "provider '".to_owned();
                s.append(p.as_str());
                s.append("' nicht konfiguriert oder deaktiviert");
                s
            },
            ProviderError::MissingKey(k) => {
                let mut s = "API-Key env '".to_owned();
                s.append(k.as_str());
                s.append("' nicht gesetzt");
                s
            },
            ProviderError::Http(e) => {
                let mut s = "HTTP-Fehler: ".to_owned();
                s.append(e.as_str());
                s
            },
        }
    }
}

/// How a request authenticates itself.
#[derive(Debug)]
pub enum Auth {
    Nothing,
    /// `authorization: Bearer ..`
    Bearer(String),
    /// `x-api-key: ..`, together with the version of the protocol.
    ApiKey(String),
}

/// A request as it goes to a provider.
#[derive(Debug)]
pub struct Outgoing {
    pub url: String,
    pub auth: Auth,
    pub body: Json,
}

/// `s` without the slashes that it ends with.
pub open spec fn trim_slashes(s: Seq<char>) -> Seq<char>
    decreases s.len(),
{
    if s.len() > 0 && s.last() == '/' {
        trim_slashes(s.drop_last())
    } else {
        s
    }
}

/// `base` without the slashes that it ends with, and `path` behind it.
pub fn join_url(base: &str, path: &str) -> (r: String)
    ensures
        r@ == trim_slashes(base@) + path@,
{
    let cs = text::chars_of(base);
    let mut n: usize = cs.len();
    assert(base@.subrange(0, n as int) =~= base@);
    while n > 0 && cs[n - 1] == '/'
        invariant
            n <= cs@.len(),
            cs@ == base@,
            trim_slashes(base@) == trim_slashes(base@.subrange(0, n as int)),
        decreases n,
    {
        assert(base@.subrange(0, n as int).drop_last() =~= base@.subrange(0, n - 1));
        n -= 1;
    }
    let mut r = base.substring_char(0, n).to_owned();
    r.append(path);
    r
}

/// A value without the members of the given names.
pub open spec fn stripped(v: JVal, fields: Seq<Seq<char>>) -> JVal
    decreases fields.len(),
{
    if fields.len() == 0 {
        v
    } else {
        stripped(v, fields.drop_last()).without(fields.last())
    }
}

/// The position of the first of the first `n` models with this provider and name.
pub open spec fn entry_of(cfg: Config, target: Target, n: nat) -> Option<int>
    decreases n,
{
    if n == 0 {
        None
    } else {
        match entry_of(cfg, target, (n - 1) as nat) {
            Some(i) => Some(i),
            None => {
                let m = cfg.models@[n - 1]@;
                if m.provider == target.provider@ && m.model == target.model@ {
                    Some(n - 1)
                } else {
                    None
                }
            },
        }
    }
}

/// The fields that neither the provider nor the model takes.
pub open spec fn unsupported(cfg: Config, provider: ProviderConfig, target: Target) -> Seq<
    Seq<char>,
> {
    let own = match entry_of(cfg, target, cfg.models@.len()) {
        Some(i) => cfg.models@[i]@.strip_params,
        None => Seq::empty(),
    };
    text::texts(provider.strip_params@) + own
}

/// A copy without the members of the given names.
fn strip(body: Json, fields: &Vec<String>) -> (r: Json)
    ensures
        r@ == stripped(body@, text::texts(fields@)),
{
    let ghost all = text::texts(fields@);
    let ghost given = body@;
    let mut r = body;
    let mut i: usize = 0;
    while i < fields.len()
        invariant
            i <= fields@.len(),
            all == text::texts(fields@),
            r@ == stripped(given, all.subrange(0, i as int)),
        decreases fields.len() - i,
    {
        let ghost more = all.subrange(0, i + 1);
        assert(more.drop_last() =~= all.subrange(0, i as int));
        assert(more.last() == fields@[i as int]@);
        r = r.copy_without(fields[i].as_str());
        i += 1;
    }
    assert(all.subrange(0, i as int) =~= all);
    r
}

/// Stripping one list of fields and then another strips both.
proof fn lemma_stripped_add(v: JVal, a: Seq<Seq<char>>, b: Seq<Seq<char>>)
    ensures
        stripped(stripped(v, a), b) == stripped(v, a + b),
    decreases b.len(),
{
    if b.len() == 0 {
        assert(a + b =~= a);
    } else {
        lemma_stripped_add(v, a, b.drop_last());
        assert((a + b).drop_last() =~= a + b.drop_last());
    }
}

proof fn lemma_entry_of(cfg: Config, target: Target, n: nat)
    requires
        n <= cfg.models@.len(),
        entry_of(cfg, target, n) is Some,
    ensures
        entry_of(cfg, target, cfg.models@.len()) == entry_of(cfg, target, n),
    decreases cfg.models@.len() - n,
{
    if n < cfg.models@.len() {
        lemma_entry_of(cfg, target, n + 1);
    }
}

/// What is sent to a provider.
pub open spec fn sent(
    cfg: Config,
    provider: ProviderConfig,
    target: Target,
    body: JVal,
) -> JVal {
    let plain = stripped(body, unsupported(cfg, provider, target));
    if provider.kind == ProviderKind::Anthropic {
        anthropic_request(plain, target.model@)
    } else {
        plain.with("model"@, JVal::Str(target.model@))
    }
}

/// The request that goes to `target`: without the fields that it does not take, in the form of
/// its protocol, under the provider's name for the model, and with `auth`.
pub fn prepare_request(cfg: &Config, target: &Target, body: &Json, auth: Option<&str>) -> (r: Result<
    Outgoing,
    ProviderError,
>)
    ensures
        match cfg.providers.at(target.provider@) {
            Some(p) => if !p.enabled {
                r matches Err(ProviderError::Unavailable(name)) && name@ == target.provider@
            } else if p.kind == ProviderKind::Anthropic && auth is None {
                r matches Err(ProviderError::MissingKey(name)) && name@ == "anthropic api_key"@
            } else {
                r matches Ok(out) && {
                    &&& out.body@ == sent(*cfg, p, *target, body@)
                    &&& out.url@ == trim_slashes(p.base_url@) + (if p.kind
                        == ProviderKind::Anthropic {
                        "/messages"@
                    } else {
                        "/chat/completions"@
                    })
                    &&& match (p.kind, auth) {
                        (ProviderKind::Anthropic, Some(key)) => out.auth matches Auth::ApiKey(k)
                            && k@ == key@,
                        (_, Some(key)) => out.auth matches Auth::Bearer(k) && k@ == key@,
                        (_, None) => out.auth is Nothing,
                    }
                }
            },
            None => r matches Err(ProviderError::Unavailable(name)) && name@ == target.provider@,
        },
{
    let provider = match cfg.providers.get(target.provider.as_str()) {
        Some(p) => p,
        None => {
            return Err(ProviderError::Unavailable(target.provider.clone()));
        },
    };
    if !provider.enabled {
        return Err(ProviderError::Unavailable(target.provider.clone()));
    }
    let ghost shared = text::texts(provider.strip_params@);
    let mut plain = strip(body.copy(), &provider.strip_params);
    let mut i: usize = 0;
    let mut found = false;
    while i < cfg.models.len() && !found
        invariant
            i <= cfg.models@.len(),
            found ==> plain@ == stripped(body@, unsupported(*cfg, *provider, *target)),
            !found ==> entry_of(*cfg, *target, i as nat) is None && plain@ == stripped(
                body@,
                shared,
            ),
            shared == text::texts(provider.strip_params@),
        decreases cfg.models.len() - i,
    {
        let m = &cfg.models[i];
        if text::same(m.provider.as_str(), target.provider.as_str()) && text::same(
            m.model.as_str(),
            target.model.as_str(),
        ) {
            proof {
                lemma_entry_of(*cfg, *target, (i + 1) as nat);
                lemma_stripped_add(body@, shared, m@.strip_params);
            }
            plain = strip(plain, &m.strip_params);
            found = true;
        }
        i += 1;
    }
    proof {
        if !found {
            assert(shared + Seq::<Seq<char>>::empty() =~= shared);
        }
    }
    if provider.kind == ProviderKind::Anthropic {
        let payload = to_anthropic_request(&plain, target.model.as_str());
        match auth {
            Some(key) => Ok(
                Outgoing {
                    url: join_url(provider.base_url.as_str(), "/messages"),
                    auth: Auth::ApiKey(key.to_owned()),
                    body: payload,
                },
            ),
            None => Err(ProviderError::MissingKey("anthropic api_key".to_owned())),
        }
    } else {
        plain.set("model", Json::string(target.model.as_str()));
        Ok(
            Outgoing {
                url: join_url(provider.base_url.as_str(), "/chat/completions"),
                auth: match auth {
                    Some(key) => Auth::Bearer(key.to_owned()),
                    None => Auth::Nothing,
                },
                body: plain,
            },
        )
    }
}

/// The keys with the drawn one in front; the first takes its place.
pub open spec fn drawn_first(keys: Seq<KeyView>, drawn: int) -> Seq<KeyView> {
    if keys.len() > 1 {
        keys.update(0, keys[drawn]).update(drawn, keys[0])
    } else {
        keys
    }
}

/// Puts the key at position `drawn` in front of the others.
pub fn order_keys_weighted(keys: Vec<ResolvedKey>, drawn: usize) -> (r: Vec<ResolvedKey>)
    requires
        keys@.len() > 1 ==> drawn < keys@.len(),
    ensures
        key_views(r@) == drawn_first(key_views(keys@), drawn as int),
{
    let ghost all = keys@;
    let mut r = keys;
    if r.len() > 1 && drawn > 0 {
        let chosen = r.remove(drawn);
        let first = r.remove(0);
        r.insert(0, chosen);
        r.insert(drawn, first);
        assert(r@ =~= all.update(0, all[drawn as int]).update(drawn as int, all[0]));
    }
    assert(key_views(r@) =~= drawn_first(key_views(all), drawn as int));
    r
}

/// The sides of a conversation alternate, and each turn holds a block.
pub open spec fn alternating(turns: Seq<Turn>) -> bool {
    &&& forall|i: int| 0 <= i < turns.len() ==> (#[trigger] turns[i]).blocks.len() > 0
    &&& forall|i: int, j: int|
        0 <= i && j == i + 1 && j < turns.len() ==> (#[trigger] turns[i]).assistant != (
        #[trigger] turns[j]).assistant
}

proof fn lemma_add_alternates(turns: Seq<Turn>, assistant: bool, blocks: Seq<JVal>)
    requires
        alternating(turns),
    ensures
        alternating(add_blocks(turns, assistant, blocks)),
{
    let out = add_blocks(turns, assistant, blocks);
    if blocks.len() > 0 {
        assert forall|i: int| 0 <= i < out.len() implies (#[trigger] out[i]).blocks.len() > 0 by {
            if i < turns.len() {
                assert(turns[i].blocks.len() > 0);
            }
        }
        assert forall|i: int, j: int| 0 <= i && j == i + 1 && j < out.len() implies (
        #[trigger] out[i]).assistant != (#[trigger] out[j]).assistant by {
            if j < turns.len() {
                assert(turns[i].assistant != turns[j].assistant);
            }
        }
    }
}

/// Whatever messages a request holds, in what is sent to `/messages` the sides alternate and no
/// message is without content.
pub proof fn law_sides_alternate(msgs: Seq<JVal>)
    ensures
        alternating(talk_of(msgs).turns),
    decreases msgs.len(),
{
    if msgs.len() > 0 {
        law_sides_alternate(msgs.drop_last());
        let before = talk_of(msgs.drop_last());
        let msg = msgs.last();
        let t = message_text(msg);
        lemma_add_alternates(
            before.turns,
            true,
            text_blocks(t) + call_blocks(msg.items_at("tool_calls"@)),
        );
        lemma_add_alternates(before.turns, false, seq![tool_result(msg)]);
        lemma_add_alternates(before.turns, false, text_blocks(t));
    }
}

/// The blocks that a message adds to a conversation; a system message adds none.
pub open spec fn said(msg: JVal) -> Seq<JVal> {
    let role = msg.text_or("role"@, "user"@);
    if role == "system"@ {
        Seq::empty()
    } else if role == "assistant"@ {
        text_blocks(message_text(msg)) + call_blocks(msg.items_at("tool_calls"@))
    } else if role == "tool"@ {
        seq![tool_result(msg)]
    } else {
        text_blocks(message_text(msg))
    }
}

/// The blocks that messages add to a conversation, one behind the other.
pub open spec fn all_said(msgs: Seq<JVal>) -> Seq<JVal>
    decreases msgs.len(),
{
    if msgs.len() == 0 {
        Seq::empty()
    } else {
        all_said(msgs.drop_last()) + said(msgs.last())
    }
}

/// The blocks of turns, one behind the other.
pub open spec fn joined_blocks(turns: Seq<Turn>) -> Seq<JVal>
    decreases turns.len(),
{
    if turns.len() == 0 {
        Seq::empty()
    } else {
        joined_blocks(turns.drop_last()) + turns.last().blocks
    }
}

proof fn lemma_add_joins(turns: Seq<Turn>, assistant: bool, blocks: Seq<JVal>)
    ensures
        joined_blocks(add_blocks(turns, assistant, blocks)) == joined_blocks(turns) + blocks,
{
    let out = add_blocks(turns, assistant, blocks);
    if blocks.len() == 0 {
        assert(joined_blocks(turns) + blocks =~= joined_blocks(turns));
    } else if turns.len() > 0 && turns.last().assistant == assistant {
        assert(out.drop_last() =~= turns.drop_last());
        assert(joined_blocks(out) =~= joined_blocks(turns) + blocks);
    } else {
        assert(out.drop_last() =~= turns);
    }
}

/// Joining messages into turns loses, repeats and reorders nothing: the blocks of the turns are
/// those of the messages, in the order of the messages.
pub proof fn law_turns_keep_every_block(msgs: Seq<JVal>)
    ensures
        joined_blocks(talk_of(msgs).turns) == all_said(msgs),
    decreases msgs.len(),
{
    if msgs.len() > 0 {
        law_turns_keep_every_block(msgs.drop_last());
        let turns = talk_of(msgs.drop_last()).turns;
        let msg = msgs.last();
        if msg.text_or("role"@, "user"@) == "system"@ {
            assert(all_said(msgs) =~= all_said(msgs.drop_last()));
        } else {
            lemma_add_joins(turns, msg.text_or("role"@, "user"@) == "assistant"@, said(msg));
            lemma_roles_differ();
        }
    }
}

proof fn lemma_roles_differ()
    ensures
        "tool"@ != "assistant"@,
{
    reveal_strlit("tool");
    reveal_strlit("assistant");
    assert("tool"@.len() != "assistant"@.len());
}

/// A call of a tool comes back from `/messages` with the id and the name it was sent with, and
/// with the text of its arguments' tree.
pub proof fn law_calls_round_trip(call: JVal, input: JVal)
    ensures
        answer_call(tool_use(call, input)).text_at("id"@) == Some(call.text_or("id"@, ""@)),
        answer_call(tool_use(call, input)).at("function"@).text_at("name"@) == Some(
            call.at("function"@).text_or("name"@, ""@),
        ),
        answer_call(tool_use(call, input)).at("function"@).text_at("arguments"@) == Some(
            json::json_text(input),
        ),
{
    reveal_strlit("id");
    reveal_strlit("type");
    reveal_strlit("name");
    reveal_strlit("input");
    reveal_strlit("function");
    reveal_strlit("arguments");
    assert("id"@.len() == 2 && "name"@.len() == 4 && "input"@.len() == 5);
    assert("type"@[0] != "name"@[0]);
    assert("function"@.len() == 8 && "arguments"@.len() == 9);
}

proof fn lemma_call_block_type(id: Seq<char>, name: Seq<char>, input: JVal)
    ensures
        call_block(id, name, input).text_at("type"@) == Some("tool_use"@),
{
    reveal_strlit("id");
    reveal_strlit("type");
    reveal_strlit("name");
    reveal_strlit("input");
    assert("id"@.len() == 2 && "type"@.len() == 4 && "input"@.len() == 5);
    assert("type"@[0] != "name"@[0]);
}

/// A call of a tool in an answer comes back in a later request as the block that it was, wherever
/// the text of its arguments reads back as they were.
pub proof fn law_answered_calls_come_back(id: Seq<char>, name: Seq<char>, input: JVal)
    requires
        json::json_parse(json::json_text(input)) == Some(input),
    ensures
        comes_back(call_block(id, name, input)),
{
    let block = call_block(id, name, input);
    reveal_strlit("id");
    reveal_strlit("type");
    reveal_strlit("name");
    reveal_strlit("input");
    reveal_strlit("function");
    reveal_strlit("arguments");
    assert("id"@.len() == 2 && "name"@.len() == 4 && "input"@.len() == 5);
    assert("type"@[0] != "name"@[0]);
    assert("function"@.len() == 8 && "arguments"@.len() == 9);
    let call = answer_call(block);
    assert(block.text_or("id"@, ""@) == id);
    assert(block.text_or("name"@, ""@) == name);
    assert(block.get("input"@) == Some(input));
    assert(call.text_or("id"@, ""@) == id);
    assert(call.at("function"@).text_or("name"@, ""@) == name);
    assert(call.at("function"@).text_at("arguments"@) == Some(json::json_text(input)));
}

/// The id of a call of a tool, and the id that a tool's result names, reach the provider as the
/// client wrote them, so that results find their calls.
pub proof fn law_call_ids_survive(call: JVal, input: JVal, result: JVal)
    ensures
        tool_use(call, input).text_at("id"@) == Some(call.text_or("id"@, ""@)),
        tool_use(call, input).get("input"@) == Some(input),
        tool_result(result).text_at("tool_use_id"@) == Some(result.text_or("tool_call_id"@, ""@)),
        tool_result(result).text_at("content"@) == Some(message_text(result)),
{
    reveal_strlit("id");
    reveal_strlit("type");
    reveal_strlit("name");
    reveal_strlit("input");
    reveal_strlit("tool_use_id");
    reveal_strlit("content");
    assert("id"@.len() == 2 && "name"@.len() == 4 && "input"@.len() == 5);
    assert("tool_use_id"@.len() == 11 && "content"@.len() == 7 && "type"@.len() == 4);
}

/// A field that the provider or the model does not take is not in what is left of the request,
/// and every other member is there unchanged.
pub proof fn law_stripping_removes_exactly(v: JVal, fields: Seq<Seq<char>>, key: Seq<char>)
    ensures
        stripped(v, fields).get(key) == if fields.contains(key) {
            None
        } else {
            v.get(key)
        },
    decreases fields.len(),
{
    if fields.len() > 0 {
        let rest = fields.drop_last();
        law_stripping_removes_exactly(v, rest, key);
        if fields.contains(key) && fields.last() != key {
            let i = choose|i: int| 0 <= i < fields.len() && fields[i] == key;
            assert(rest[i] == key);
        }
        if rest.contains(key) {
            let i = choose|i: int| 0 <= i < rest.len() && rest[i] == key;
            assert(fields[i] == key);
        }
        if fields.last() == key {
            assert(fields[fields.len() - 1] == key);
        }
    }
}

/// A provider of the `/chat/completions` protocol gets every member of the request as the client
/// wrote it, tools included, but for the model's name and the fields that it does not take.
pub proof fn law_request_passes_through(
    cfg: Config,
    provider: ProviderConfig,
    target: Target,
    body: JVal,
    key: Seq<char>,
)
    requires
        provider.kind != ProviderKind::Anthropic,
        key != "model"@,
        !unsupported(cfg, provider, target).contains(key),
    ensures
        sent(cfg, provider, target, body).get(key) == body.get(key),
{
    law_stripping_removes_exactly(body, unsupported(cfg, provider, target), key);
}

/// Ordering keys loses none and adds none: it only exchanges the drawn one with the first.
pub proof fn law_key_order_is_a_permutation(keys: Seq<KeyView>, drawn: int)
    requires
        0 <= drawn < keys.len(),
    ensures
        drawn_first(keys, drawn).len() == keys.len(),
        drawn_first(keys, drawn)[0] == keys[drawn],
        drawn_first(keys, drawn).to_multiset() == keys.to_multiset(),
{
    if keys.len() > 1 {
        let a = keys.update(0, keys[drawn]);
        vstd::seq_lib::to_multiset_update(keys, 0, keys[drawn]);
        vstd::seq_lib::to_multiset_update(a, drawn, keys[0]);
        broadcast use vstd::multiset::group_multiset_axioms;
        keys.to_multiset_ensures();
        assert(keys.to_multiset().contains(keys[0]));
        assert(keys.contains(keys[0]));
        assert(drawn_first(keys, drawn).to_multiset() =~= keys.to_multiset());
    }
}

proof fn lemma_admits(key: ProviderKey, model: Seq<char>)
    ensures
        admits(key, model) <==> (key.allow@.len() == 0 || exists|a: int|
            0 <= a < key.allow@.len() && (#[trigger] key.allow@[a])@ == model) && forall|d: int|
            0 <= d < key.deny@.len() ==> (#[trigger] key.deny@[d])@ != model,
{
    let allow = text::texts(key.allow@);
    let deny = text::texts(key.deny@);
    if allow.contains(model) {
        let a = choose|a: int| 0 <= a < allow.len() && allow[a] == model;
        assert(key.allow@[a]@ == model);
    }
    if exists|a: int| 0 <= a < key.allow@.len() && (#[trigger] key.allow@[a])@ == model {
        let a = choose|a: int|
            0 <= a < key.allow@.len() && (#[trigger] key.allow@[a])@ == model;
        assert(allow[a] == model);
    }
    if deny.contains(model) {
        let d = choose|d: int| 0 <= d < deny.len() && deny[d] == model;
        assert(key.deny@[d]@ == model);
    }
    if exists|d: int| 0 <= d < key.deny@.len() && (#[trigger] key.deny@[d])@ == model {
        let d = choose|d: int| 0 <= d < key.deny@.len() && (#[trigger] key.deny@[d])@ == model;
        assert(deny[d] == model);
    }
}

/// Of a list of keys those can be used that are set in the environment, whose list of models is
/// empty or names the model, and whose list of exceptions does not name it. A key of negative
/// weight has none. The keys stay in their order.
pub proof fn law_listed_keys(
    front: Seq<ProviderKey>,
    key: ProviderKey,
    back: Seq<ProviderKey>,
    model: Seq<char>,
    env: Table<String>,
)
    ensures
        listed_keys(front + seq![key] + back, model, env) == listed_keys(front, model, env) + (
        if env.at(key.env@) is Some && (key.allow@.len() == 0 || exists|a: int|
            0 <= a < key.allow@.len() && (#[trigger] key.allow@[a])@ == model) && (forall|d: int|
            0 <= d < key.deny@.len() ==> (#[trigger] key.deny@[d])@ != model) {
            seq![
                KeyView {
                    auth: Some(env.at(key.env@).unwrap()@),
                    weight: if (Real { bits: 0 }).le(key.weight) {
                        key.weight
                    } else {
                        Real { bits: 0 }
                    },
                },
            ]
        } else {
            Seq::empty()
        }) + listed_keys(back, model, env),
    decreases back.len(),
{
    let all = front + seq![key] + back;
    let one = listed_keys(all, model, env);
    lemma_admits(key, model);
    if back.len() == 0 {
        assert(all.drop_last() =~= front);
        assert(all.last() == key);
        assert(listed_keys(back, model, env) =~= Seq::empty());
    } else {
        law_listed_keys(front, key, back.drop_last(), model, env);
        assert(all.drop_last() =~= front + seq![key] + back.drop_last());
        assert(all.last() == back.last());
    }
    let r = listed_keys(front, model, env) + (if env.at(key.env@) is Some && admits(key, model) {
        seq![
            KeyView {
                auth: Some(env.at(key.env@).unwrap()@),
                weight: key.weight.larger(Real { bits: 0 }),
            },
        ]
    } else {
        Seq::empty()
    }) + listed_keys(back, model, env);
    assert(one =~= r);
}

/// A provider can be asked for a model where one of its listed keys can be used; without such a
/// list, where the variable that it names is set; and where it names none, always. Without a list
/// there is one key, with the whole weight.
pub proof fn law_provider_has_a_key(
    provider: ProviderConfig,
    model: Seq<char>,
    env: Table<String>,
)
    ensures
        usable_keys(provider, model, env).len() > 0 <==> if provider.keys@.len() > 0 {
            exists|j: int|
                0 <= j < provider.keys@.len() && env.at((#[trigger] provider.keys@[j]).env@) is Some
                    && (provider.keys@[j].allow@.len() == 0 || exists|a: int|
                    0 <= a < provider.keys@[j].allow@.len() && (
                    #[trigger] provider.keys@[j].allow@[a])@ == model) && forall|d: int|
                    0 <= d < provider.keys@[j].deny@.len() ==> (
                    #[trigger] provider.keys@[j].deny@[d])@ != model
        } else {
            provider.api_key_env matches Some(name) ==> env.at(name@) is Some
        },
        provider.keys@.len() == 0 && usable_keys(provider, model, env).len() > 0 ==> usable_keys(
            provider,
            model,
            env,
        ) == seq![
            KeyView {
                auth: match provider.api_key_env {
                    Some(name) => Some(env.at(name@).unwrap()@),
                    None => None,
                },
                weight: Real { bits: 0x3ff0_0000_0000_0000 },
            },
        ],
{
    let keys = provider.keys@;
    if keys.len() > 0 {
        if listed_keys(keys, model, env).len() > 0 {
            lemma_some_listed(keys, model, env);
        } else {
            assert forall|j: int|
                0 <= j < keys.len() && env.at((#[trigger] keys[j]).env@) is Some implies !admits(
                keys[j],
                model,
            ) by {
                assert(keys =~= keys.subrange(0, j) + seq![keys[j]] + keys.subrange(
                    j + 1,
                    keys.len() as int,
                ));
                law_listed_keys(
                    keys.subrange(0, j),
                    keys[j],
                    keys.subrange(j + 1, keys.len() as int),
                    model,
                    env,
                );
                lemma_admits(keys[j], model);
            }
        }
        assert forall|j: int| 0 <= j < keys.len() implies admits(#[trigger] keys[j], model) <==> (
        keys[j].allow@.len() == 0 || exists|a: int|
            0 <= a < keys[j].allow@.len() && (#[trigger] keys[j].allow@[a])@ == model)
            && forall|d: int|
            0 <= d < keys[j].deny@.len() ==> (#[trigger] keys[j].deny@[d])@ != model by {
            lemma_admits(keys[j], model);
        }
    }
}

proof fn lemma_some_listed(keys: Seq<ProviderKey>, model: Seq<char>, env: Table<String>)
    requires
        listed_keys(keys, model, env).len() > 0,
    ensures
        exists|j: int|
            0 <= j < keys.len() && env.at((#[trigger] keys[j]).env@) is Some && admits(
                keys[j],
                model,
            ),
    decreases keys.len(),
{
    let n = keys.len() - 1;
    if env.at(keys[n].env@) is Some && admits(keys[n], model) {
    } else {
        lemma_some_listed(keys.drop_last(), model, env);
        let j = choose|j: int|
            0 <= j < n && env.at((#[trigger] keys.drop_last()[j]).env@) is Some && admits(
                keys.drop_last()[j],
                model,
            );
        assert(keys[j] == keys.drop_last()[j]);
    }
}

proof fn lemma_request_names()
    ensures
        "model"@ != "max_tokens"@,
        "model"@ != "messages"@,
        "model"@ != "system"@,
        "model"@ != "temperature"@,
        "model"@ != "top_p"@,
        "model"@ != "stop_sequences"@,
        "model"@ != "tools"@,
        "max_tokens"@ != "messages"@,
        "max_tokens"@ != "system"@,
        "max_tokens"@ != "temperature"@,
        "max_tokens"@ != "top_p"@,
        "max_tokens"@ != "stop_sequences"@,
        "max_tokens"@ != "tools"@,
        "messages"@ != "system"@,
        "messages"@ != "temperature"@,
        "messages"@ != "top_p"@,
        "messages"@ != "stop_sequences"@,
        "messages"@ != "tools"@,
        "system"@ != "temperature"@,
        "system"@ != "top_p"@,
        "system"@ != "stop_sequences"@,
        "system"@ != "tools"@,
        "temperature"@ != "top_p"@,
        "temperature"@ != "stop_sequences"@,
        "temperature"@ != "tools"@,
        "top_p"@ != "stop_sequences"@,
        "top_p"@ != "tools"@,
        "stop_sequences"@ != "tools"@,
{
    reveal_strlit("model");
    reveal_strlit("max_tokens");
    reveal_strlit("messages");
    reveal_strlit("system");
    reveal_strlit("temperature");
    reveal_strlit("top_p");
    reveal_strlit("stop_sequences");
    reveal_strlit("tools");
    assert("model"@.len() == 5);
    assert("max_tokens"@.len() == 10);
    assert("messages"@.len() == 8);
    assert("system"@.len() == 6);
    assert("temperature"@.len() == 11);
    assert("top_p"@.len() == 5);
    assert("stop_sequences"@.len() == 14);
    assert("tools"@.len() == 5);
    assert("model"@[0] != "top_p"@[0]);
    assert("model"@[0] != "tools"@[0]);
    assert("top_p"@[2] != "tools"@[2]);
}

proof fn lemma_tool_names()
    ensures
        "name"@ != "input_schema"@,
        "name"@ != "description"@,
        "input_schema"@ != "description"@,
{
    reveal_strlit("name");
    reveal_strlit("input_schema");
    reveal_strlit("description");
    assert("name"@.len() == 4);
    assert("input_schema"@.len() == 12);
    assert("description"@.len() == 11);
}

/// What a request to `/messages` holds: the provider's name for the model, the limit that the client
/// names or 4096, and temperature, `top_p` and stop words where and as the client names them. Beside
/// these it has messages, a system text and tools, and nothing else.
pub proof fn law_request_members(body: JVal, model: Seq<char>, key: Seq<char>)
    ensures
        ({
            let r = anthropic_request(body, model);
            &&& r.get("model"@) == Some(JVal::Str(model))
            &&& r.get("max_tokens"@) == Some(
                JVal::Uint(
                    match body.get("max_tokens"@) {
                        Some(JVal::Uint(n)) => n,
                        _ => 4096,
                    },
                ),
            )
            &&& r.get("temperature"@) == body.get("temperature"@)
            &&& r.get("top_p"@) == body.get("top_p"@)
            &&& r.get("stop_sequences"@) == body.get("stop"@)
            &&& (r.get("messages"@) matches Some(JVal::Array(_)))
            &&& (r.get("system"@) matches Some(v) ==> v is Str)
            &&& (r.get("tools"@) matches Some(v) ==> v is Array)
            &&& r.get(key) is Some ==> key == "model"@ || key == "max_tokens"@ || key
                == "messages"@ || key == "system"@ || key == "temperature"@ || key == "top_p"@
                || key == "stop_sequences"@ || key == "tools"@
        }),
{
    lemma_request_names();
}

/// Whether a tool has a function with a name.
pub open spec fn is_named_tool() -> spec_fn(JVal) -> bool {
    |tool: JVal| tool.get("function"@) matches Some(f) && f.get("name"@) matches Some(n) && n is Str
}

proof fn lemma_tools_one_by_one(tools: Seq<JVal>)
    ensures
        anthropic_tools(tools).len() == tools.filter(is_named_tool()).len(),
        forall|j: int|
            0 <= j < anthropic_tools(tools).len() ==> anthropic_tool(
                tools.filter(is_named_tool())[j],
            ) == Some(#[trigger] anthropic_tools(tools)[j]),
    decreases tools.len(),
{
    reveal(Seq::filter);
    if tools.len() > 0 {
        lemma_tools_one_by_one(tools.drop_last());
    }
}

/// The tools of a request to `/messages` are those of the client that have a function with a name,
/// one by one in their order. Each has that name, as its schema exactly the parameters of the
/// function, and the description where the function has one. Only where the function has no
/// parameters is the schema that of an object and no more.
pub proof fn law_tools_are_translated(body: JVal, model: Seq<char>)
    ensures
        ({
            let named = body.items_at("tools"@).filter(is_named_tool());
            let out = anthropic_request(body, model).items_at("tools"@);
            &&& out.len() == named.len()
            &&& anthropic_request(body, model).get("tools"@) is Some <==> named.len() > 0
            &&& forall|j: int|
                0 <= j < out.len() ==> {
                    let f = named[j].at("function"@);
                    &&& (#[trigger] out[j]).get("name"@) == f.get("name"@)
                    &&& out[j].get("description"@) == f.get("description"@)
                    &&& out[j].get("input_schema"@) == match f.get("parameters"@) {
                        Some(p) => Some(p),
                        None => Some(JVal::Object(map!["type"@ => JVal::Str("object"@)])),
                    }
                    &&& forall|key: Seq<char>| #[trigger]
                        out[j].get(key) is Some ==> key == "name"@ || key == "input_schema"@ || key
                            == "description"@
                }
        }),
{
    lemma_request_names();
    lemma_tool_names();
    let tools = body.items_at("tools"@);
    let named = tools.filter(is_named_tool());
    lemma_tools_one_by_one(tools);
    broadcast use vstd::seq_lib::group_filter_ensures;

    let out = anthropic_request(body, model).items_at("tools"@);
    assert(out =~= anthropic_tools(tools));
    assert forall|j: int| 0 <= j < out.len() implies {
        let f = named[j].at("function"@);
        &&& (#[trigger] out[j]).get("name"@) == f.get("name"@)
        &&& out[j].get("description"@) == f.get("description"@)
        &&& out[j].get("input_schema"@) == match f.get("parameters"@) {
            Some(p) => Some(p),
            None => Some(JVal::Object(map!["type"@ => JVal::Str("object"@)])),
        }
        &&& forall|key: Seq<char>| #[trigger]
            out[j].get(key) is Some ==> key == "name"@ || key == "input_schema"@ || key
                == "description"@
    } by {
        assert(anthropic_tool(named[j]) == Some(out[j]));
        assert(is_named_tool()(named[j]));
    }
}

/// No tool is lost: for every tool of the client with a function of the name `n`, whatever stands
/// before and behind it, the request holds a tool of that name whose schema is exactly the
/// parameters of the function, if it has any.
pub proof fn law_every_tool_keeps_its_schema(body: JVal, model: Seq<char>, i: int, n: Seq<char>)
    requires
        0 <= i < body.items_at("tools"@).len(),
        body.items_at("tools"@)[i].at("function"@).get("name"@) == Some(JVal::Str(n)),
    ensures
        ({
            let f = body.items_at("tools"@)[i].at("function"@);
            let out = anthropic_request(body, model).get("tools"@);
            &&& out is Some && out->Some_0 is Array
            &&& exists|j: int|
                0 <= j < out->Some_0->Array_0.len() && {
                    let t = #[trigger] out->Some_0->Array_0[j];
                    &&& t.get("name"@) == Some(JVal::Str(n))
                    &&& (f.get("parameters"@) matches Some(p) ==> t.get("input_schema"@) == Some(p))
                    &&& t.get("description"@) == f.get("description"@)
                }
        }),
{
    let tools = body.items_at("tools"@);
    let named = tools.filter(is_named_tool());
    law_tools_are_translated(body, model);
    law_request_members(body, model, "tools"@);
    broadcast use vstd::seq_lib::group_filter_ensures;

    assert(is_named_tool()(tools[i]));
    assert(named.contains(tools[i]));
    let j = choose|j: int| 0 <= j < named.len() && named[j] == tools[i];
    let out = anthropic_request(body, model).items_at("tools"@);
    assert(out[j].get("name"@) == Some(JVal::Str(n)));
    assert(anthropic_request(body, model).get("tools"@) == Some(JVal::Array(out)));
}

proof fn lemma_block_names()
    ensures
        "type"@ != "text"@,
        "type"@ != "id"@,
        "type"@ != "name"@,
        "type"@ != "input"@,
        "type"@ != "tool_use_id"@,
        "type"@ != "content"@,
        "type"@ != "role"@,
        "text"@ != "id"@,
        "text"@ != "name"@,
        "text"@ != "input"@,
        "text"@ != "tool_use_id"@,
        "text"@ != "content"@,
        "text"@ != "role"@,
        "id"@ != "name"@,
        "id"@ != "input"@,
        "id"@ != "tool_use_id"@,
        "id"@ != "content"@,
        "id"@ != "role"@,
        "name"@ != "input"@,
        "name"@ != "tool_use_id"@,
        "name"@ != "content"@,
        "name"@ != "role"@,
        "input"@ != "tool_use_id"@,
        "input"@ != "content"@,
        "input"@ != "role"@,
        "tool_use_id"@ != "content"@,
        "tool_use_id"@ != "role"@,
        "content"@ != "role"@,
{
    reveal_strlit("type");
    reveal_strlit("text");
    reveal_strlit("id");
    reveal_strlit("name");
    reveal_strlit("input");
    reveal_strlit("tool_use_id");
    reveal_strlit("content");
    reveal_strlit("role");
    assert("type"@.len() == 4);
    assert("text"@.len() == 4);
    assert("id"@.len() == 2);
    assert("name"@.len() == 4);
    assert("input"@.len() == 5);
    assert("tool_use_id"@.len() == 11);
    assert("content"@.len() == 7);
    assert("role"@.len() == 4);
    assert("type"@[1] != "text"@[1]);
    assert("type"@[0] != "name"@[0]);
    assert("type"@[0] != "role"@[0]);
    assert("text"@[0] != "name"@[0]);
    assert("text"@[0] != "role"@[0]);
    assert("name"@[0] != "role"@[0]);
}

proof fn lemma_role_names()
    ensures
        "system"@ != "assistant"@,
        "system"@ != "tool"@,
        "system"@ != "user"@,
        "assistant"@ != "tool"@,
        "assistant"@ != "user"@,
        "tool"@ != "user"@,
{
    reveal_strlit("system");
    reveal_strlit("assistant");
    reveal_strlit("tool");
    reveal_strlit("user");
    assert("system"@.len() == 6);
    assert("assistant"@.len() == 9);
    assert("tool"@.len() == 4);
    assert("user"@.len() == 4);
    assert("tool"@[0] != "user"@[0]);
}

/// The text of a message is its content where that is a text. Where it is a list, the texts of its
/// parts stand one behind the other, whatever else the list holds.
pub proof fn law_text_of_a_message(msg: JVal, front: Seq<JVal>, part: JVal, back: Seq<JVal>)
    ensures
        msg.get("content"@) matches Some(JVal::Str(t)) ==> message_text(msg) == t,
        msg.get("content"@) matches Some(JVal::Array(parts)) ==> message_text(msg) == parts_text(
            parts,
        ),
        msg.get("content"@) is None ==> message_text(msg).len() == 0,
        parts_text(Seq::empty()).len() == 0,
        parts_text(front + seq![part] + back) == parts_text(front) + (match part.get("text"@) {
            Some(JVal::Str(t)) => t,
            _ => Seq::empty(),
        }) + parts_text(back),
    decreases back.len(),
{
    let all = front + seq![part] + back;
    if back.len() == 0 {
        assert(all.drop_last() =~= front);
        assert(all.last() == part);
        assert(parts_text(front) + Seq::<char>::empty() =~= parts_text(front));
    } else {
        law_text_of_a_message(msg, front, part, back.drop_last());
        assert(all.drop_last() =~= front + seq![part] + back.drop_last());
        assert(all.last() == back.last());
    }
    assert(parts_text(all) =~= parts_text(front) + (match part.get("text"@) {
        Some(JVal::Str(t)) => t,
        _ => Seq::empty(),
    }) + parts_text(back));
}

/// Whether a message of the given side holds a block: as one of its blocks, or, where it is a
/// block of text, as the plain text of the message.
pub open spec fn passes_on(request: JVal, side: Seq<char>, block: JVal) -> bool {
    exists|j: int|
        0 <= j < request.items_at("messages"@).len() && {
            let m = #[trigger] request.items_at("messages"@)[j];
            &&& m.get("role"@) == Some(JVal::Str(side))
            &&& m.items_at("content"@).contains(block) || (block.get("type"@) == Some(
                JVal::Str("text"@),
            ) && block.get("text"@) is Some && m.get("content"@) == block.get("text"@))
        }
}

proof fn lemma_turn_holds(msgs: Seq<JVal>, i: int, block: JVal)
    requires
        0 <= i < msgs.len(),
        said(msgs[i]).contains(block),
    ensures
        exists|j: int|
            0 <= j < talk_of(msgs).turns.len() && (#[trigger] talk_of(msgs).turns[j]).assistant == (
            msgs[i].text_or("role"@, "user"@) == "assistant"@) && talk_of(
                msgs,
            ).turns[j].blocks.contains(block),
    decreases msgs.len(),
{
    lemma_role_names();
    let side = msgs[i].text_or("role"@, "user"@) == "assistant"@;
    let rest = msgs.drop_last();
    let before = talk_of(rest).turns;
    let turns = talk_of(msgs).turns;
    let last = msgs.last();
    let mine = last.text_or("role"@, "user"@) == "assistant"@;
    let added = said(last);
    if last.text_or("role"@, "user"@) != "system"@ {
        assert(turns == add_blocks(before, mine, added));
    } else {
        assert(turns == before);
    }
    if i == msgs.len() - 1 {
        let j = turns.len() - 1;
        let b = choose|b: int| 0 <= b < added.len() && added[b] == block;
        if before.len() > 0 && before.last().assistant == mine {
            assert(turns[j].blocks[before.last().blocks.len() + b] == block);
        } else {
            assert(turns[j].blocks[b] == block);
        }
        assert(turns[j].assistant == side && turns[j].blocks.contains(block));
    } else {
        assert(rest[i] == msgs[i]);
        lemma_turn_holds(rest, i, block);
        let j = choose|j: int|
            0 <= j < before.len() && (#[trigger] before[j]).assistant == side
                && before[j].blocks.contains(block);
        let b = choose|b: int| 0 <= b < before[j].blocks.len() && before[j].blocks[b] == block;
        assert(turns[j].assistant == side);
        assert(turns[j].blocks[b] == block);
        assert(turns[j].blocks.contains(block));
    }
}

proof fn lemma_passed_on(body: JVal, model: Seq<char>, i: int, block: JVal)
    requires
        0 <= i < body.items_at("messages"@).len(),
        said(body.items_at("messages"@)[i]).contains(block),
    ensures
        passes_on(
            anthropic_request(body, model),
            if body.items_at("messages"@)[i].text_or("role"@, "user"@) == "assistant"@ {
                "assistant"@
            } else {
                "user"@
            },
            block,
        ),
{
    lemma_request_names();
    lemma_block_names();
    let msgs = body.items_at("messages"@);
    lemma_turn_holds(msgs, i, block);
    let side = msgs[i].text_or("role"@, "user"@) == "assistant"@;
    let turns = talk_of(msgs).turns;
    let j = choose|j: int|
        0 <= j < turns.len() && (#[trigger] turns[j]).assistant == side && turns[j].blocks.contains(
            block,
        );
    let out = anthropic_request(body, model);
    assert(out.items_at("messages"@) =~= turn_messages(turns));
    let m = out.items_at("messages"@)[j];
    assert(m == turn_message(turns[j]));
    assert(m.get("content"@) == Some(turn_content(turns[j].blocks)));
}

/// What a client writes reaches the provider. The text of a message, unless it is empty, stands in
/// a message of its side as a text; every call of an assistant's message stands there with its id,
/// the name of its function, and the tree that its arguments read as, an empty object where they
/// cannot be read; a result of a tool stands in a message of the user, with the id of its call.
pub proof fn law_messages_reach_the_provider(body: JVal, model: Seq<char>, i: int, c: int)
    requires
        0 <= i < body.items_at("messages"@).len(),
    ensures
        ({
            let msg = body.items_at("messages"@)[i];
            let role = match msg.get("role"@) {
                Some(JVal::Str(r)) => r,
                _ => "user"@,
            };
            let t = message_text(msg);
            let words = JVal::Object(
                map!["type"@ => JVal::Str("text"@), "text"@ => JVal::Str(t)],
            );
            let r = anthropic_request(body, model);
            &&& role == "assistant"@ && t.len() > 0 ==> passes_on(r, "assistant"@, words)
            &&& role != "assistant"@ && role != "system"@ && role != "tool"@ && t.len() > 0
                ==> passes_on(r, "user"@, words)
            &&& role == "tool"@ ==> passes_on(
                r,
                "user"@,
                JVal::Object(
                    map![
                        "type"@ => JVal::Str("tool_result"@),
                        "tool_use_id"@ => JVal::Str(msg.text_or("tool_call_id"@, ""@)),
                        "content"@ => JVal::Str(t),
                    ],
                ),
            )
            &&& role == "assistant"@ && 0 <= c < msg.items_at("tool_calls"@).len() ==> {
                let call = msg.items_at("tool_calls"@)[c];
                let f = call.at("function"@);
                passes_on(
                    r,
                    "assistant"@,
                    JVal::Object(
                        map![
                            "type"@ => JVal::Str("tool_use"@),
                            "id"@ => JVal::Str(call.text_or("id"@, ""@)),
                            "name"@ => JVal::Str(f.text_or("name"@, ""@)),
                            "input"@ => match f.get("arguments"@) {
                                Some(JVal::Str(a)) => match json::json_parse(a) {
                                    Some(v) => v,
                                    None => JVal::Object(Map::empty()),
                                },
                                _ => JVal::Object(Map::empty()),
                            },
                        ],
                    ),
                )
            }
        }),
{
    lemma_role_names();
    lemma_block_names();
    let msg = body.items_at("messages"@)[i];
    let role = msg.text_or("role"@, "user"@);
    let t = message_text(msg);
    let blocks = said(msg);
    if role == "assistant"@ {
        let calls = msg.items_at("tool_calls"@);
        if t.len() > 0 {
            assert(blocks[0] == text_block(t));
            lemma_passed_on(body, model, i, text_block(t));
        }
        if 0 <= c < calls.len() {
            let block = tool_use(calls[c], call_input(calls[c]));
            let n = text_blocks(t).len() as int;
            assert(blocks[n + c] == call_blocks(calls)[c]);
            assert(blocks[n + c] == block);
            lemma_passed_on(body, model, i, block);
        }
    } else if role == "tool"@ {
        assert(blocks[0] == tool_result(msg));
        lemma_passed_on(body, model, i, tool_result(msg));
    } else if role != "system"@ && t.len() > 0 {
        assert(blocks[0] == text_block(t));
        lemma_passed_on(body, model, i, text_block(t));
    }
}

/// Whether a message is one of the system and holds text.
pub open spec fn is_system_text() -> spec_fn(JVal) -> bool {
    |msg: JVal| msg.get("role"@) == Some(JVal::Str("system"@)) && message_text(msg).len() > 0
}

proof fn lemma_system(msgs: Seq<JVal>)
    ensures
        talk_of(msgs).system == text::joined(
            msgs.filter(is_system_text()).map_values(|m: JVal| message_text(m)),
            "\n"@,
        ),
        msgs.filter(is_system_text()).len() > 0 ==> talk_of(msgs).system.len() > 0,
    decreases msgs.len(),
{
    reveal(Seq::filter);
    let of = |m: JVal| message_text(m);
    let now = msgs.filter(is_system_text()).map_values(of);
    if msgs.len() > 0 {
        lemma_role_names();
        let rest = msgs.drop_last();
        lemma_system(rest);
        let was = rest.filter(is_system_text()).map_values(of);
        if is_system_text()(msgs.last()) {
            assert(now.drop_last() =~= was);
            assert(now.last() == message_text(msgs.last()));
            if was.len() == 0 {
                assert(talk_of(rest).system.len() == 0);
            } else {
                assert(rest.filter(is_system_text()).len() > 0);
            }
        } else {
            assert(now =~= was);
        }
    }
}

/// The system text of a request to `/messages` holds the texts of the system messages in their
/// order, a line for each; without such a text there is none.
pub proof fn law_system_text(body: JVal, model: Seq<char>)
    ensures
        ({
            let texts = body.items_at("messages"@).filter(is_system_text()).map_values(
                |m: JVal| message_text(m),
            );
            anthropic_request(body, model).get("system"@) == if texts.len() == 0 {
                None
            } else {
                Some(JVal::Str(text::joined(texts, "\n"@)))
            }
        }),
{
    lemma_request_names();
    lemma_system(body.items_at("messages"@));
}

proof fn lemma_response_names()
    ensures
        "id"@ != "object"@,
        "id"@ != "created"@,
        "id"@ != "model"@,
        "id"@ != "choices"@,
        "id"@ != "usage"@,
        "id"@ != "index"@,
        "id"@ != "message"@,
        "id"@ != "finish_reason"@,
        "id"@ != "prompt_tokens"@,
        "id"@ != "completion_tokens"@,
        "id"@ != "total_tokens"@,
        "object"@ != "created"@,
        "object"@ != "model"@,
        "object"@ != "choices"@,
        "object"@ != "usage"@,
        "object"@ != "index"@,
        "object"@ != "message"@,
        "object"@ != "finish_reason"@,
        "object"@ != "prompt_tokens"@,
        "object"@ != "completion_tokens"@,
        "object"@ != "total_tokens"@,
        "created"@ != "model"@,
        "created"@ != "choices"@,
        "created"@ != "usage"@,
        "created"@ != "index"@,
        "created"@ != "message"@,
        "created"@ != "finish_reason"@,
        "created"@ != "prompt_tokens"@,
        "created"@ != "completion_tokens"@,
        "created"@ != "total_tokens"@,
        "model"@ != "choices"@,
        "model"@ != "usage"@,
        "model"@ != "index"@,
        "model"@ != "message"@,
        "model"@ != "finish_reason"@,
        "model"@ != "prompt_tokens"@,
        "model"@ != "completion_tokens"@,
        "model"@ != "total_tokens"@,
        "choices"@ != "usage"@,
        "choices"@ != "index"@,
        "choices"@ != "message"@,
        "choices"@ != "finish_reason"@,
        "choices"@ != "prompt_tokens"@,
        "choices"@ != "completion_tokens"@,
        "choices"@ != "total_tokens"@,
        "usage"@ != "index"@,
        "usage"@ != "message"@,
        "usage"@ != "finish_reason"@,
        "usage"@ != "prompt_tokens"@,
        "usage"@ != "completion_tokens"@,
        "usage"@ != "total_tokens"@,
        "index"@ != "message"@,
        "index"@ != "finish_reason"@,
        "index"@ != "prompt_tokens"@,
        "index"@ != "completion_tokens"@,
        "index"@ != "total_tokens"@,
        "message"@ != "finish_reason"@,
        "message"@ != "prompt_tokens"@,
        "message"@ != "completion_tokens"@,
        "message"@ != "total_tokens"@,
        "finish_reason"@ != "prompt_tokens"@,
        "finish_reason"@ != "completion_tokens"@,
        "finish_reason"@ != "total_tokens"@,
        "prompt_tokens"@ != "completion_tokens"@,
        "prompt_tokens"@ != "total_tokens"@,
        "completion_tokens"@ != "total_tokens"@,
{
    reveal_strlit("id");
    reveal_strlit("object");
    reveal_strlit("created");
    reveal_strlit("model");
    reveal_strlit("choices");
    reveal_strlit("usage");
    reveal_strlit("index");
    reveal_strlit("message");
    reveal_strlit("finish_reason");
    reveal_strlit("prompt_tokens");
    reveal_strlit("completion_tokens");
    reveal_strlit("total_tokens");
    assert("id"@.len() == 2);
    assert("object"@.len() == 6);
    assert("created"@.len() == 7);
    assert("model"@.len() == 5);
    assert("choices"@.len() == 7);
    assert("usage"@.len() == 5);
    assert("index"@.len() == 5);
    assert("message"@.len() == 7);
    assert("finish_reason"@.len() == 13);
    assert("prompt_tokens"@.len() == 13);
    assert("completion_tokens"@.len() == 17);
    assert("total_tokens"@.len() == 12);
    assert("created"@[1] != "choices"@[1]);
    assert("created"@[0] != "message"@[0]);
    assert("model"@[0] != "usage"@[0]);
    assert("model"@[0] != "index"@[0]);
    assert("choices"@[0] != "message"@[0]);
    assert("usage"@[0] != "index"@[0]);
    assert("finish_reason"@[0] != "prompt_tokens"@[0]);
}

proof fn lemma_answer_names()
    ensures
        "role"@ != "content"@,
        "role"@ != "tool_calls"@,
        "content"@ != "tool_calls"@,
{
    reveal_strlit("role");
    reveal_strlit("content");
    reveal_strlit("tool_calls");
    assert("role"@.len() == 4);
    assert("content"@.len() == 7);
    assert("tool_calls"@.len() == 10);
}

proof fn lemma_call_names()
    ensures
        "id"@ != "type"@,
        "id"@ != "function"@,
        "id"@ != "name"@,
        "id"@ != "arguments"@,
        "type"@ != "function"@,
        "type"@ != "name"@,
        "type"@ != "arguments"@,
        "function"@ != "name"@,
        "function"@ != "arguments"@,
        "name"@ != "arguments"@,
{
    reveal_strlit("id");
    reveal_strlit("type");
    reveal_strlit("function");
    reveal_strlit("name");
    reveal_strlit("arguments");
    assert("id"@.len() == 2);
    assert("type"@.len() == 4);
    assert("function"@.len() == 8);
    assert("name"@.len() == 4);
    assert("arguments"@.len() == 9);
    assert("type"@[0] != "name"@[0]);
}

proof fn lemma_stop_reasons()
    ensures
        "max_tokens"@ != "tool_use"@,
        "max_tokens"@ != "refusal"@,
        "tool_use"@ != "refusal"@,
{
    reveal_strlit("max_tokens");
    reveal_strlit("tool_use");
    reveal_strlit("refusal");
    assert("max_tokens"@.len() == 10);
    assert("tool_use"@.len() == 8);
    assert("refusal"@.len() == 7);
}

/// The text of an answer: the texts of its blocks of text one behind the other, whatever other
/// blocks it holds.
pub proof fn law_text_of_an_answer(front: Seq<JVal>, block: JVal, back: Seq<JVal>)
    ensures
        answer_text(Seq::empty()).len() == 0,
        answer_text(front + seq![block] + back) == answer_text(front) + (match (
            block.get("type"@),
            block.get("text"@),
        ) {
            (Some(JVal::Str(kind)), Some(JVal::Str(t))) => if kind == "text"@ {
                t
            } else {
                Seq::empty()
            },
            _ => Seq::empty(),
        }) + answer_text(back),
    decreases back.len(),
{
    let all = front + seq![block] + back;
    if back.len() == 0 {
        assert(all.drop_last() =~= front);
        assert(all.last() == block);
    } else {
        law_text_of_an_answer(front, block, back.drop_last());
        assert(all.drop_last() =~= front + seq![block] + back.drop_last());
        assert(all.last() == back.last());
    }
    assert(answer_text(all) =~= answer_text(front) + (match (
        block.get("type"@),
        block.get("text"@),
    ) {
        (Some(JVal::Str(kind)), Some(JVal::Str(t))) => if kind == "text"@ {
            t
        } else {
            Seq::empty()
        },
        _ => Seq::empty(),
    }) + answer_text(back));
}

/// Whether a block of an answer calls a tool.
pub open spec fn is_call() -> spec_fn(JVal) -> bool {
    |block: JVal| block.get("type"@) == Some(JVal::Str("tool_use"@))
}

proof fn lemma_calls_one_by_one(blocks: Seq<JVal>)
    ensures
        answer_calls(blocks) == blocks.filter(is_call()).map_values(|b: JVal| answer_call(b)),
    decreases blocks.len(),
{
    reveal(Seq::filter);
    if blocks.len() > 0 {
        lemma_calls_one_by_one(blocks.drop_last());
    }
    assert(answer_calls(blocks) =~= blocks.filter(is_call()).map_values(|b: JVal| answer_call(b)));
}

/// The answer that a client gets for one of `/messages`: its id and model, one choice with the text
/// of the answer, or none where that is empty, and the calls of tools in their order, each with id,
/// name and the text of its arguments; why it stopped, in the words of `/chat/completions`; and the
/// tokens of the request and of the answer, and their sum.
pub proof fn law_answer_is_translated(resp: JVal, created: u64)
    ensures
        ({
            let r = openai_response(resp, created);
            let blocks = match resp.get("content"@) {
                Some(JVal::Array(items)) => items,
                _ => Seq::empty(),
            };
            let calls = blocks.filter(is_call());
            let choice = r.at("choices"@).item(0);
            let message = choice.at("message"@);
            let usage = resp.at("usage"@);
            let read = match usage.get("input_tokens"@) {
                Some(JVal::Uint(n)) => n,
                _ => 0,
            };
            let written = match usage.get("output_tokens"@) {
                Some(JVal::Uint(n)) => n,
                _ => 0,
            };
            let stop = resp.get("stop_reason"@);
            &&& r.get("id"@) == if resp.get("id"@) is Some {
                resp.get("id"@)
            } else {
                Some(JVal::Str(""@))
            }
            &&& r.get("model"@) == if resp.get("model"@) is Some {
                resp.get("model"@)
            } else {
                Some(JVal::Str(""@))
            }
            &&& r.get("object"@) == Some(JVal::Str("chat.completion"@))
            &&& r.get("created"@) == Some(JVal::Uint(created))
            &&& r.items_at("choices"@).len() == 1
            &&& choice.get("index"@) == Some(JVal::Uint(0))
            &&& message.get("role"@) == Some(JVal::Str("assistant"@))
            &&& message.get("content"@) == Some(
                if answer_text(blocks).len() == 0 {
                    JVal::Null
                } else {
                    JVal::Str(answer_text(blocks))
                },
            )
            &&& message.get("tool_calls"@) is Some <==> calls.len() > 0
            &&& message.items_at("tool_calls"@).len() == calls.len()
            &&& forall|c: int|
                0 <= c < calls.len() ==> {
                    let call = #[trigger] message.items_at("tool_calls"@)[c];
                    let f = call.at("function"@);
                    &&& call.get("id"@) == Some(JVal::Str(calls[c].text_or("id"@, ""@)))
                    &&& call.get("type"@) == Some(JVal::Str("function"@))
                    &&& f.get("name"@) == Some(JVal::Str(calls[c].text_or("name"@, ""@)))
                    &&& f.get("arguments"@) == Some(
                        JVal::Str(
                            match calls[c].get("input"@) {
                                Some(v) => json::json_text(v),
                                None => "{}"@,
                            },
                        ),
                    )
                }
            &&& choice.get("finish_reason"@) == Some(
                JVal::Str(
                    if stop == Some(JVal::Str("max_tokens"@)) {
                        "length"@
                    } else if stop == Some(JVal::Str("tool_use"@)) {
                        "tool_calls"@
                    } else if stop == Some(JVal::Str("refusal"@)) {
                        "content_filter"@
                    } else {
                        "stop"@
                    },
                ),
            )
            &&& r.at("usage"@).get("prompt_tokens"@) == Some(JVal::Uint(read))
            &&& r.at("usage"@).get("completion_tokens"@) == Some(JVal::Uint(written))
            &&& read + written <= u64::MAX ==> r.at("usage"@).get("total_tokens"@) == Some(
                JVal::Uint((read + written) as u64),
            )
        }),
{
    lemma_response_names();
    lemma_answer_names();
    lemma_call_names();
    lemma_stop_reasons();
    let blocks = resp.items_at("content"@);
    lemma_calls_one_by_one(blocks);
    let calls = blocks.filter(is_call());
    let r = openai_response(resp, created);
    let choices = r.items_at("choices"@);
    assert(choices.len() == 1);
    assert(r.at("choices"@) == JVal::Array(choices));
    let choice = choices[0];
    let message = choice.at("message"@);
    assert(message == answer_message(blocks));
    assert(message.items_at("tool_calls"@) =~= answer_calls(blocks));
    assert forall|c: int| 0 <= c < calls.len() implies (
    #[trigger] message.items_at("tool_calls"@)[c]) == answer_call(calls[c]) by {}
}

/// What a URL is made of: the base without the slashes at its end, and the path.
pub proof fn law_slashes_are_trimmed(s: Seq<char>)
    ensures
        ({
            let t = trim_slashes(s);
            &&& t.len() <= s.len()
            &&& t == s.subrange(0, t.len() as int)
            &&& t.len() > 0 ==> t.last() != '/'
            &&& forall|i: int| t.len() <= i < s.len() ==> s[i] == '/'
        }),
    decreases s.len(),
{
    if s.len() > 0 && s.last() == '/' {
        law_slashes_are_trimmed(s.drop_last());
        let t = trim_slashes(s);
        assert(t =~= s.subrange(0, t.len() as int));
        assert forall|i: int| t.len() <= i < s.len() implies s[i] == '/' by {
            if i < s.len() - 1 {
                assert(s.drop_last()[i] == s[i]);
            }
        }
    } else {
        assert(s =~= s.subrange(0, s.len() as int));
    }
}

proof fn lemma_entry_is(cfg: Config, target: Target, n: nat)
    requires
        n <= cfg.models@.len(),
    ensures
        match entry_of(cfg, target, n) {
            Some(i) => 0 <= i < n && cfg.models@[i].provider@ == target.provider@
                && cfg.models@[i].model@ == target.model@ && forall|j: int|
                0 <= j < i ==> (#[trigger] cfg.models@[j]).provider@ != target.provider@
                    || cfg.models@[j].model@ != target.model@,
            None => forall|j: int|
                0 <= j < n ==> (#[trigger] cfg.models@[j]).provider@ != target.provider@
                    || cfg.models@[j].model@ != target.model@,
        },
    decreases n,
{
    if n > 0 {
        lemma_entry_is(cfg, target, (n - 1) as nat);
    }
}

/// What is not sent: a field that the provider or the model's entry in the catalogue names. Every
/// other member goes to a provider of the `/chat/completions` protocol as it is, under the
/// provider's own name for the model.
pub proof fn law_fields_not_sent(
    cfg: Config,
    provider: ProviderConfig,
    target: Target,
    body: JVal,
    i: int,
    key: Seq<char>,
)
    requires
        provider.kind != ProviderKind::Anthropic,
        body is Object,
        0 <= i < cfg.models@.len(),
        cfg.models@[i].provider@ == target.provider@,
        cfg.models@[i].model@ == target.model@,
        forall|j: int|
            0 <= j < i ==> (#[trigger] cfg.models@[j]).provider@ != target.provider@
                || cfg.models@[j].model@ != target.model@,
    ensures
        ({
            let by_provider = exists|a: int|
                0 <= a < provider.strip_params@.len() && (#[trigger] provider.strip_params@[a])@
                    == key;
            let by_model = exists|a: int|
                0 <= a < cfg.models@[i].strip_params@.len() && (
                #[trigger] cfg.models@[i].strip_params@[a])@ == key;
            sent(cfg, provider, target, body).get(key) == if key == "model"@ {
                Some(JVal::Str(target.model@))
            } else if by_provider || by_model {
                None
            } else {
                body.get(key)
            }
        }),
{
    let n = cfg.models@.len();
    lemma_entry_is(cfg, target, n);
    let found = entry_of(cfg, target, n);
    assert(found == Some(i)) by {
        if found is None {
            assert(cfg.models@[i].provider@ == target.provider@);
        } else if found->Some_0 < i {
            assert(cfg.models@[found->Some_0].provider@ == target.provider@);
        } else if i < found->Some_0 {
            assert(cfg.models@[i].provider@ == target.provider@);
        }
    }
    let fields = unsupported(cfg, provider, target);
    let a = provider.strip_params@;
    let b = cfg.models@[i].strip_params@;
    assert(fields =~= text::texts(a) + text::texts(b));
    law_stripping_removes_exactly(body, fields, key);
    lemma_stripped_object(body, fields);
    if fields.contains(key) {
        let f = choose|f: int| 0 <= f < fields.len() && fields[f] == key;
        if f < a.len() {
            assert(a[f]@ == key);
        } else {
            assert(b[f - a.len()]@ == key);
        }
    }
    assert forall|f: int| 0 <= f < a.len() && (#[trigger] a[f])@ == key implies fields.contains(
        key,
    ) by {
        assert(fields[f] == key);
    }
    assert forall|f: int| 0 <= f < b.len() && (#[trigger] b[f])@ == key implies fields.contains(
        key,
    ) by {
        assert(fields[a.len() + f] == key);
    }
}

proof fn lemma_stripped_object(v: JVal, fields: Seq<Seq<char>>)
    requires
        v is Object,
    ensures
        stripped(v, fields) is Object,
    decreases fields.len(),
{
    if fields.len() > 0 {
        lemma_stripped_object(v, fields.drop_last());
    }
}

/// What goes to a provider of the `/messages` protocol: the translation of what is left of the
/// request without the fields that are not sent.
pub proof fn law_translated_where_needed(
    cfg: Config,
    provider: ProviderConfig,
    target: Target,
    body: JVal,
)
    requires
        provider.kind == ProviderKind::Anthropic,
    ensures
        exists|plain: JVal|
            (#[trigger] anthropic_request(plain, target.model@)) == sent(
                cfg,
                provider,
                target,
                body,
            ) && forall|key: Seq<char>| #[trigger]
                plain.get(key) == if unsupported(cfg, provider, target).contains(key) {
                    None
                } else {
                    body.get(key)
                },
{
    let fields = unsupported(cfg, provider, target);
    let plain = stripped(body, fields);
    assert forall|key: Seq<char>| #[trigger] plain.get(key) == if fields.contains(key) {
        None
    } else {
        body.get(key)
    } by {
        law_stripping_removes_exactly(body, fields, key);
    }
    assert(anthropic_request(plain, target.model@) == sent(cfg, provider, target, body));
}

/// The sum of two counts, cut to 64 bits where it is larger.
pub proof fn law_sum_of_tokens(prompt: u64, completion: u64)
    ensures
        total_tokens(prompt, completion) == (prompt + completion) % 0x1_0000_0000_0000_0000,
{
}

/// The words of errors.
pub proof fn law_words_of_errors(e: ProviderError)
    ensures
        e matches ProviderError::Unavailable(p) ==> e.text() == "provider '"@ + p@
            + "' nicht konfiguriert oder deaktiviert"@,
        e matches ProviderError::MissingKey(k) ==> e.text() == "API-Key env '"@ + k@
            + "' nicht gesetzt"@,
        e matches ProviderError::Http(t) ==> e.text() == "HTTP-Fehler: "@ + t@,
{
}

/// The drawn key comes first and the first takes its place; every other key stays where it was.
pub proof fn law_drawn_key_comes_first(keys: Seq<KeyView>, drawn: int, i: int)
    requires
        0 <= drawn < keys.len(),
        0 <= i < keys.len(),
    ensures
        drawn_first(keys, drawn)[0] == keys[drawn],
        drawn_first(keys, drawn)[drawn] == keys[0],
        i != 0 && i != drawn ==> drawn_first(keys, drawn)[i] == keys[i],
{
}

} // verus!
