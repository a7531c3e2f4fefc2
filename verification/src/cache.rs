//! Keys of cached answers, and embeddings as bytes.
use std::collections::hash_map::DefaultHasher;
use std::hash::Hasher;
use vstd::prelude::*;
use vstd::std_specs::hash::*;
use vstd::string::*;
use crate::config::{ModelEntry, ModelView, SemanticCacheConfig};
use crate::json::{JVal, Json};
use crate::{json, providers, text};

verus! {

/// How many messages a request holds.
pub fn conversation_len(body: &Json) -> (r: usize)
    ensures
        r == body@.items_at("messages"@).len(),
{
    match body.array_at("messages") {
        Some(m) => {
            assert(json::item_values(m@).len() == m@.len());
            m.len()
        },
        None => 0,
    }
}

/// The members of a request that an answer depends on.
pub open spec fn relevant_fields() -> Seq<Seq<char>> {
    seq![
        "messages"@,
        "tools"@,
        "tool_choice"@,
        "functions"@,
        "function_call"@,
        "temperature"@,
        "top_p"@,
        "max_tokens"@,
        "response_format"@,
        "stop"@,
        "frequency_penalty"@,
        "presence_penalty"@,
        "seed"@,
    ]
}

/// An object with the members of `body` under the given names.
pub open spec fn members_only(body: JVal, fields: Seq<Seq<char>>) -> JVal
    decreases fields.len(),
{
    if fields.len() == 0 {
        JVal::empty_object()
    } else {
        providers::carry(
            members_only(body, fields.drop_last()),
            body,
            fields.last(),
            fields.last(),
        )
    }
}

/// What an answer depends on.
pub open spec fn normal_form(body: JVal) -> JVal {
    members_only(body, relevant_fields())
}

/// What an answer depends on: the request without volatile members such as `stream`, `model`,
/// `user` and `metadata`.
fn normalized(body: &Json) -> (r: Json)
    ensures
        r@ == normal_form(body@),
        r@.get("messages"@) == body@.get("messages"@),
        r@.get("tools"@) == body@.get("tools"@),
        r@.get("tool_choice"@) == body@.get("tool_choice"@),
        r@.get("functions"@) == body@.get("functions"@),
        r@.get("function_call"@) == body@.get("function_call"@),
        r@.get("temperature"@) == body@.get("temperature"@),
        r@.get("top_p"@) == body@.get("top_p"@),
        r@.get("max_tokens"@) == body@.get("max_tokens"@),
        r@.get("response_format"@) == body@.get("response_format"@),
        r@.get("stop"@) == body@.get("stop"@),
        r@.get("frequency_penalty"@) == body@.get("frequency_penalty"@),
        r@.get("presence_penalty"@) == body@.get("presence_penalty"@),
        r@.get("seed"@) == body@.get("seed"@),
{
    proof {
        law_normal_form_keeps_what_counts(body@, "seed"@);
    }
    let fields = [
        "messages",
        "tools",
        "tool_choice",
        "functions",
        "function_call",
        "temperature",
        "top_p",
        "max_tokens",
        "response_format",
        "stop",
        "frequency_penalty",
        "presence_penalty",
        "seed",
    ];
    let ghost all = text::views(fields@);
    assert(all =~= relevant_fields());
    let mut obj = Json::object();
    let mut i: usize = 0;
    while i < 13
        invariant
            i <= 13,
            fields@.len() == 13,
            all == text::views(fields@),
            obj@ == members_only(body@, all.subrange(0, i as int)),
        decreases 13 - i,
    {
        let ghost more = all.subrange(0, i + 1);
        assert(more.drop_last() =~= all.subrange(0, i as int));
        assert(more.last() == fields@[i as int]@);
        match body.get(fields[i]) {
            Some(v) => {
                obj.set(fields[i], v.copy());
            },
            None => {},
        }
        i += 1;
    }
    assert(all.subrange(0, i as int) =~= all);
    obj
}

/// A hexadecimal digit.
pub open spec fn hex_digit(d: nat) -> char {
    if d < 10 {
        (48 + d) as char
    } else {
        (87 + d) as char
    }
}

/// The last `count` hexadecimal digits of a number.
pub open spec fn hex(n: nat, count: nat) -> Seq<char>
    decreases count,
{
    if count == 0 {
        Seq::empty()
    } else {
        hex(n / 16, (count - 1) as nat).push(hex_digit(n % 16))
    }
}

fn hex_digit_text(d: u64) -> (r: &'static str)
    requires
        d < 16,
    ensures
        r@ == seq![hex_digit(d as nat)],
{
    proof {
        reveal_strlit("0");
        reveal_strlit("1");
        reveal_strlit("2");
        reveal_strlit("3");
        reveal_strlit("4");
        reveal_strlit("5");
        reveal_strlit("6");
        reveal_strlit("7");
        reveal_strlit("8");
        reveal_strlit("9");
        reveal_strlit("a");
        reveal_strlit("b");
        reveal_strlit("c");
        reveal_strlit("d");
        reveal_strlit("e");
        reveal_strlit("f");
    }
    let digits = [
        "0",
        "1",
        "2",
        "3",
        "4",
        "5",
        "6",
        "7",
        "8",
        "9",
        "a",
        "b",
        "c",
        "d",
        "e",
        "f",
    ];
    let r: &'static str = digits[d as usize];
    assert(r@ =~= seq![hex_digit(d as nat)]);
    r
}

/// A number in `count` hexadecimal digits.
fn to_hex(n: u64, count: usize) -> (r: String)
    ensures
        r@ == hex(n as nat, count as nat),
    decreases count,
{
    if count == 0 {
        String::new()
    } else {
        let mut r = to_hex(n / 16, count - 1);
        r.append(hex_digit_text(n % 16));
        assert(r@ =~= hex(n as nat, count as nat));
        r
    }
}

/// The digest of a text: that of its bytes and a closing byte that occurs in no text.
pub open spec fn digest_of(s: Seq<char>) -> u64 {
    DefaultHasher::spec_finish(seq![vstd::utf8::encode_utf8(s), seq![0xffu8]])
}

fn digest(s: &str) -> (d: u64)
    ensures
        d == digest_of(s@),
{
    let mut h = DefaultHasher::new();
    h.write(s.as_bytes());
    let end: [u8; 1] = [0xff];
    h.write(&end);
    assert(end@ =~= seq![0xffu8]);
    assert(h@ =~= seq![vstd::utf8::encode_utf8(s@), seq![0xffu8]]);
    h.finish()
}

/// The key under which the answer of a model to a request is cached.
pub open spec fn key_of(m: ModelView, body: JVal) -> Seq<char> {
    m.full_name() + ":"@ + hex(digest_of(json::json_text(normal_form(body))) as nat, 16)
}

/// A key ends in a hexadecimal digit.
pub proof fn lemma_key_ends_in_digit(m: ModelView, body: JVal)
    ensures
        key_of(m, body).len() > 0,
        key_of(m, body).last() as int <= 102,
{
    let n = digest_of(json::json_text(normal_form(body))) as nat;
    let digits = hex(n, 16);
    assert(digits.len() > 0 && digits.last() == hex_digit(n % 16)) by {
        reveal_with_fuel(hex, 2);
    }
    assert(key_of(m, body).last() == digits.last());
}

/// The key under which the answer of a model to a request is cached: the model's name and a
/// digest of everything that the answer depends on.
pub fn cache_key(model: &ModelEntry, body: &Json) -> (r: String)
    ensures
        r@ == key_of(model@, body@),
{
    let norm = normalized(body).text();
    let mut r = model.full_name();
    r.append(":");
    let h = to_hex(digest(norm.as_str()), 16);
    r.append(h.as_str());
    r
}

/// The scope of a model's answers in the semantic cache.
pub fn semantic_scope(model: &ModelEntry) -> (r: String)
    ensures
        r@ == model@.full_name(),
{
    model.full_name()
}

/// A number as four bytes, the least significant first.
pub open spec fn little_endian(n: u32) -> Seq<u8> {
    seq![
        (n % 256) as u8,
        (n / 256 % 256) as u8,
        (n / 65536 % 256) as u8,
        (n / 16777216) as u8,
    ]
}

/// The bytes of an embedding, whose coordinates are given by their bits.
pub open spec fn embedding_bytes(v: Seq<u32>) -> Seq<u8>
    decreases v.len(),
{
    if v.len() == 0 {
        Seq::empty()
    } else {
        embedding_bytes(v.drop_last()) + little_endian(v.last())
    }
}

/// The embedding that bytes hold; what is left over at the end does not count.
pub open spec fn embedding_of(b: Seq<u8>) -> Seq<u32> {
    Seq::new(
        b.len() / 4,
        |i: int|
            (b[4 * i] + b[4 * i + 1] * 256 + b[4 * i + 2] * 65536 + b[4 * i + 3] * 16777216) as u32,
    )
}

/// The bytes of an embedding, whose coordinates are given by their bits.
pub fn embedding_to_bytes(v: &Vec<u32>) -> (out: Vec<u8>)
    ensures
        out@ == embedding_bytes(v@),
{
    let mut out: Vec<u8> = Vec::new();
    let mut i: usize = 0;
    while i < v.len()
        invariant
            i <= v@.len(),
            out@ == embedding_bytes(v@.subrange(0, i as int)),
        decreases v.len() - i,
    {
        let n: u32 = v[i];
        let ghost was = out@;
        let ghost more = v@.subrange(0, i + 1);
        assert(more.drop_last() =~= v@.subrange(0, i as int));
        out.push((n % 256) as u8);
        out.push((n / 256 % 256) as u8);
        out.push((n / 65536 % 256) as u8);
        out.push((n / 16777216) as u8);
        assert(out@ =~= was + little_endian(n));
        i += 1;
    }
    assert(v@.subrange(0, i as int) =~= v@);
    out
}

/// The embedding that bytes hold, as the bits of its coordinates.
pub fn embedding_from_bytes(b: &Vec<u8>) -> (out: Vec<u32>)
    ensures
        out@ == embedding_of(b@),
{
    let mut out: Vec<u32> = Vec::new();
    let total: usize = b.len();
    let n: usize = total / 4;
    let mut i: usize = 0;
    while i < n
        invariant
            total == b@.len(),
            n == total / 4,
            i <= n,
            out@ == embedding_of(b@).subrange(0, i as int),
        decreases n - i,
    {
        let k: usize = 4 * i;
        let x: u32 = (b[k] as u32) + (b[k + 1] as u32) * 256 + (b[k + 2] as u32) * 65536 + (b[k
            + 3] as u32) * 16777216;
        out.push(x);
        assert(out@ =~= embedding_of(b@).subrange(0, i + 1));
        i += 1;
    }
    assert(embedding_of(b@).subrange(0, i as int) =~= embedding_of(b@));
    out
}

/// The question for an embedding of a text.
pub open spec fn embedding_question(model: Seq<char>, t: Seq<char>) -> JVal {
    JVal::empty_object().with("model"@, JVal::Str(model)).with("input"@, JVal::Str(t))
}

/// Where the question for an embedding goes, and the question.
pub fn embedding_request(cfg: &SemanticCacheConfig, t: &str) -> (r: (String, Json))
    ensures
        r.0@ == providers::trim_slashes(cfg.base_url@) + "/embeddings"@,
        r.1@ == embedding_question(cfg.model@, t@),
{
    let url = providers::join_url(cfg.base_url.as_str(), "/embeddings");
    let mut body = Json::object();
    body.set("model", Json::string(cfg.model.as_str()));
    body.set("input", Json::string(t));
    (url, body)
}

/// The coordinates in an answer with an embedding.
pub open spec fn embedding_items(reply: JVal) -> Option<Seq<JVal>> {
    match reply.at("data"@).first().get("embedding"@) {
        Some(v) => v.items(),
        None => None,
    }
}

/// The coordinates in an answer with an embedding.
pub fn embedding_in(reply: &Json) -> (r: Option<&Vec<Json>>)
    ensures
        match r {
            Some(v) => embedding_items(reply@) == Some(json::item_values(v@)),
            None => embedding_items(reply@) is None,
        },
{
    match reply.get("data") {
        Some(data) => match data.first() {
            Some(d) => match d.get("embedding") {
                Some(v) => v.as_array(),
                None => None,
            },
            None => None,
        },
        None => None,
    }
}

proof fn lemma_little_endian(n: u32)
    ensures
        ({
            let b = little_endian(n);
            b[0] + b[1] * 256 + b[2] * 65536 + b[3] * 16777216 == n
        }),
{
    let a = (n % 256) as int;
    let b = (n / 256 % 256) as int;
    let c = (n / 65536 % 256) as int;
    let d = (n / 16777216) as int;
    assert(n / 65536 == n / 256 / 256) by (nonlinear_arith);
    assert(n / 16777216 == n / 65536 / 256) by (nonlinear_arith);
    assert(d <= 255);
}

/// Writing an embedding as bytes and reading it back gives the embedding.
pub proof fn law_embedding_round_trip(v: Seq<u32>)
    ensures
        embedding_bytes(v).len() == 4 * v.len(),
        embedding_of(embedding_bytes(v)) == v,
    decreases v.len(),
{
    if v.len() > 0 {
        let rest = v.drop_last();
        law_embedding_round_trip(rest);
        let before = embedding_bytes(rest);
        let b = embedding_bytes(v);
        lemma_little_endian(v.last());
        assert forall|i: int| 0 <= i < v.len() implies embedding_of(b)[i] == v[i] by {
            if i < rest.len() {
                assert(b[4 * i] == before[4 * i]);
                assert(b[4 * i + 1] == before[4 * i + 1]);
                assert(b[4 * i + 2] == before[4 * i + 2]);
                assert(b[4 * i + 3] == before[4 * i + 3]);
                assert(embedding_of(before)[i] == rest[i]);
            } else {
                let le = little_endian(v.last());
                assert(b[4 * i] == le[0]);
                assert(b[4 * i + 1] == le[1]);
                assert(b[4 * i + 2] == le[2]);
                assert(b[4 * i + 3] == le[3]);
            }
        }
        assert(embedding_of(b) =~= v);
    } else {
        assert(embedding_of(embedding_bytes(v)) =~= v);
    }
}

proof fn lemma_members_only_agree(a: JVal, b: JVal, fields: Seq<Seq<char>>)
    requires
        forall|i: int| 0 <= i < fields.len() ==> a.get(#[trigger] fields[i]) == b.get(fields[i]),
    ensures
        members_only(a, fields) == members_only(b, fields),
    decreases fields.len(),
{
    if fields.len() > 0 {
        let rest = fields.drop_last();
        assert forall|i: int| 0 <= i < rest.len() implies a.get(#[trigger] rest[i]) == b.get(
            rest[i],
        ) by {
            assert(rest[i] == fields[i]);
        }
        lemma_members_only_agree(a, b, rest);
        assert(a.get(fields[fields.len() - 1]) == b.get(fields[fields.len() - 1]));
    }
}

/// Two requests to one model that agree on everything that an answer depends on have one key:
/// other members, and the order of members, do not matter.
pub proof fn law_key_ignores_the_rest(m: ModelView, a: JVal, b: JVal)
    requires
        forall|i: int|
            0 <= i < relevant_fields().len() ==> a.get(#[trigger] relevant_fields()[i]) == b.get(
                relevant_fields()[i],
            ),
    ensures
        key_of(m, a) == key_of(m, b),
{
    lemma_members_only_agree(a, b, relevant_fields());
}

proof fn lemma_hex_len(n: nat, count: nat)
    ensures
        hex(n, count).len() == count,
    decreases count,
{
    if count > 0 {
        lemma_hex_len(n / 16, (count - 1) as nat);
    }
}

/// Answers of models with different names never share a key, whatever the requests.
pub proof fn law_keys_are_apart_per_model(m: ModelView, n: ModelView, a: JVal, b: JVal)
    requires
        m.full_name() != n.full_name(),
    ensures
        key_of(m, a) != key_of(n, b),
{
    let x = hex(digest_of(json::json_text(normal_form(a))) as nat, 16);
    let y = hex(digest_of(json::json_text(normal_form(b))) as nat, 16);
    lemma_hex_len(digest_of(json::json_text(normal_form(a))) as nat, 16);
    lemma_hex_len(digest_of(json::json_text(normal_form(b))) as nat, 16);
    if key_of(m, a) == key_of(n, b) {
        let k = key_of(m, a);
        let len = k.len() - ":"@.len() - 16;
        assert(m.full_name().len() == len && n.full_name().len() == len);
        assert(m.full_name() =~= k.subrange(0, len));
        assert(n.full_name() =~= k.subrange(0, len));
    }
}

proof fn lemma_members_only(body: JVal, fields: Seq<Seq<char>>, key: Seq<char>)
    ensures
        members_only(body, fields) is Object,
        members_only(body, fields).get(key) == if fields.contains(key) {
            body.get(key)
        } else {
            None
        },
    decreases fields.len(),
{
    if fields.len() > 0 {
        let rest = fields.drop_last();
        lemma_members_only(body, rest, key);
        if fields.contains(key) && fields.last() != key {
            let i = choose|i: int| 0 <= i < fields.len() && fields[i] == key;
            assert(rest[i] == key);
        }
        if rest.contains(key) {
            let i = choose|i: int| 0 <= i < rest.len() && rest[i] == key;
            assert(fields[i] == key);
        }
        if fields.last() == key {
            assert(fields[fields.len() - 1] == key);
        }
    }
}

/// What an answer depends on holds each of these members exactly as the request does: messages,
/// tools and functions and how they are to be called, the settings of the sampling, the limit on
/// tokens, stop words, the format of the answer and the seed; and it holds no other member.
pub proof fn law_normal_form_keeps_what_counts(body: JVal, key: Seq<char>)
    ensures
        normal_form(body).get("messages"@) == body.get("messages"@),
        normal_form(body).get("tools"@) == body.get("tools"@),
        normal_form(body).get("tool_choice"@) == body.get("tool_choice"@),
        normal_form(body).get("functions"@) == body.get("functions"@),
        normal_form(body).get("function_call"@) == body.get("function_call"@),
        normal_form(body).get("temperature"@) == body.get("temperature"@),
        normal_form(body).get("top_p"@) == body.get("top_p"@),
        normal_form(body).get("max_tokens"@) == body.get("max_tokens"@),
        normal_form(body).get("response_format"@) == body.get("response_format"@),
        normal_form(body).get("stop"@) == body.get("stop"@),
        normal_form(body).get("frequency_penalty"@) == body.get("frequency_penalty"@),
        normal_form(body).get("presence_penalty"@) == body.get("presence_penalty"@),
        normal_form(body).get("seed"@) == body.get("seed"@),
        normal_form(body).get(key) is Some ==> key == "messages"@
            || key == "tools"@
            || key == "tool_choice"@
            || key == "functions"@
            || key == "function_call"@
            || key == "temperature"@
            || key == "top_p"@
            || key == "max_tokens"@
            || key == "response_format"@
            || key == "stop"@
            || key == "frequency_penalty"@
            || key == "presence_penalty"@
            || key == "seed"@,
{
    let fields = relevant_fields();
    assert(fields[0] == "messages"@);
    lemma_members_only(body, fields, "messages"@);
    assert(fields[1] == "tools"@);
    lemma_members_only(body, fields, "tools"@);
    assert(fields[2] == "tool_choice"@);
    lemma_members_only(body, fields, "tool_choice"@);
    assert(fields[3] == "functions"@);
    lemma_members_only(body, fields, "functions"@);
    assert(fields[4] == "function_call"@);
    lemma_members_only(body, fields, "function_call"@);
    assert(fields[5] == "temperature"@);
    lemma_members_only(body, fields, "temperature"@);
    assert(fields[6] == "top_p"@);
    lemma_members_only(body, fields, "top_p"@);
    assert(fields[7] == "max_tokens"@);
    lemma_members_only(body, fields, "max_tokens"@);
    assert(fields[8] == "response_format"@);
    lemma_members_only(body, fields, "response_format"@);
    assert(fields[9] == "stop"@);
    lemma_members_only(body, fields, "stop"@);
    assert(fields[10] == "frequency_penalty"@);
    lemma_members_only(body, fields, "frequency_penalty"@);
    assert(fields[11] == "presence_penalty"@);
    lemma_members_only(body, fields, "presence_penalty"@);
    assert(fields[12] == "seed"@);
    lemma_members_only(body, fields, "seed"@);
    lemma_members_only(body, fields, key);
    if fields.contains(key) {
        let i = choose|i: int| 0 <= i < fields.len() && fields[i] == key;
    }
}

/// Requests that differ in one of the members that count have different normal forms.
pub proof fn law_requests_that_differ_are_apart(a: JVal, b: JVal)
    requires
        a.get("messages"@) != b.get("messages"@)
            || a.get("tools"@) != b.get("tools"@)
            || a.get("tool_choice"@) != b.get("tool_choice"@)
            || a.get("functions"@) != b.get("functions"@)
            || a.get("function_call"@) != b.get("function_call"@)
            || a.get("temperature"@) != b.get("temperature"@)
            || a.get("top_p"@) != b.get("top_p"@)
            || a.get("max_tokens"@) != b.get("max_tokens"@)
            || a.get("response_format"@) != b.get("response_format"@)
            || a.get("stop"@) != b.get("stop"@)
            || a.get("frequency_penalty"@) != b.get("frequency_penalty"@)
            || a.get("presence_penalty"@) != b.get("presence_penalty"@)
            || a.get("seed"@) != b.get("seed"@),
    ensures
        normal_form(a) != normal_form(b),
{
    law_normal_form_keeps_what_counts(a, "seed"@);
    law_normal_form_keeps_what_counts(b, "seed"@);
}

/// The bytes of an embedding: four for each coordinate, in the order of the coordinates, the least
/// significant byte first.
pub proof fn law_bytes_of_an_embedding(v: Seq<u32>, i: int)
    requires
        0 <= i < v.len(),
    ensures
        embedding_bytes(v).len() == 4 * v.len(),
        embedding_bytes(v)[4 * i] == v[i] % 256,
        embedding_bytes(v)[4 * i + 1] == v[i] / 256 % 256,
        embedding_bytes(v)[4 * i + 2] == v[i] / 65536 % 256,
        embedding_bytes(v)[4 * i + 3] == v[i] / 16777216,
    decreases v.len(),
{
    let rest = v.drop_last();
    if rest.len() == 0 {
        assert(embedding_bytes(rest).len() == 0);
    } else if i < rest.len() {
        law_bytes_of_an_embedding(rest, i);
        assert(rest[i] == v[i]);
    } else {
        law_bytes_of_an_embedding(rest, 0);
    }
}

/// The number that hexadecimal digits stand for.
pub open spec fn hex_value(digits: Seq<char>) -> int
    decreases digits.len(),
{
    if digits.len() == 0 {
        0
    } else {
        let c = digits.last() as int;
        16 * hex_value(digits.drop_last()) + if 48 <= c <= 57 {
            c - 48
        } else {
            c - 87
        }
    }
}

/// How many numbers have a place in so many hexadecimal digits.
pub open spec fn hex_room(count: nat) -> int
    decreases count,
{
    if count == 0 {
        1
    } else {
        16 * hex_room((count - 1) as nat)
    }
}

proof fn lemma_hex(n: nat, count: nat)
    requires
        n < hex_room(count),
    ensures
        hex(n, count).len() == count,
        hex_value(hex(n, count)) == n,
        forall|i: int|
            0 <= i < count ==> (48 <= (#[trigger] hex(n, count)[i]) as int <= 57 || 97 <= hex(
                n,
                count,
            )[i] as int <= 102),
    decreases count,
{
    if count > 0 {
        lemma_hex(n / 16, (count - 1) as nat);
        let all = hex(n, count);
        assert(all.drop_last() =~= hex(n / 16, (count - 1) as nat));
        assert(all.last() == hex_digit(n % 16));
    }
}

/// A key ends in a digest of what the answer depends on, in sixteen digits, each `0` to `9` or `a`
/// to `f`: the digest can be read off the key, so that different digests give different keys.
pub proof fn law_key_holds_the_digest(m: ModelView, body: JVal)
    ensures
        ({
            let key = key_of(m, body);
            let n = m.provider.len() + 1 + m.model.len() + 1;
            let digits = key.subrange(n as int, key.len() as int);
            &&& key.subrange(0, n as int) == m.provider + "/"@ + m.model + ":"@
            &&& digits.len() == 16
            &&& hex_value(digits) == digest_of(json::json_text(normal_form(body)))
            &&& forall|i: int|
                0 <= i < 16 ==> (48 <= (#[trigger] digits[i]) as int <= 57 || 97 <= digits[i] as int
                    <= 102)
        }),
{
    let d = digest_of(json::json_text(normal_form(body))) as nat;
    reveal_with_fuel(hex_room, 17);
    lemma_hex(d, 16);
    reveal_strlit("/");
    reveal_strlit(":");
    let key = key_of(m, body);
    let n = m.provider.len() + 1 + m.model.len() + 1;
    assert(key.subrange(0, n as int) =~= m.provider + "/"@ + m.model + ":"@);
    assert(key.subrange(n as int, key.len() as int) =~= hex(d, 16));
}

} // verus!
