//! Finding content that must not leave for a cloud.
use vstd::prelude::*;
use vstd::string::*;
use crate::json::{JVal, Json};
use crate::{json, text};

verus! {

/// The texts of the parts of a message, each on a line.
pub open spec fn part_lines(parts: Seq<JVal>) -> Seq<char>
    decreases parts.len(),
{
    if parts.len() == 0 {
        Seq::empty()
    } else {
        let before = part_lines(parts.drop_last());
        match parts.last().text_at("text"@) {
            Some(t) => before + t + "\n"@,
            None => before,
        }
    }
}

/// The text of a message's content, in lines.
pub open spec fn content_lines(content: Option<JVal>) -> Seq<char> {
    match content {
        Some(JVal::Str(s)) => s + "\n"@,
        Some(JVal::Array(parts)) => part_lines(parts),
        _ => Seq::empty(),
    }
}

/// Appends the text of a message's content.
pub fn push_content(out: &mut String, content: Option<&Json>)
    ensures
        final(out)@ == old(out)@ + content_lines(
            match content {
                Some(c) => Some(c@),
                None => None,
            },
        ),
{
    broadcast use {json::lemma_array_view, json::lemma_object_view};
    match content {
        Some(Json::Str(s)) => {
            out.append(s.as_str());
            out.append("\n");
            assert(out@ =~= old(out)@ + (s@ + "\n"@));
        },
        Some(Json::Array(parts)) => {
            let ghost all = json::item_values(parts@);
            let ghost start = out@;
            let mut i: usize = 0;
            assert(start =~= start + part_lines(all.subrange(0, 0)));
            while i < parts.len()
                invariant
                    i <= parts@.len(),
                    all == json::item_values(parts@),
                    out@ == start + part_lines(all.subrange(0, i as int)),
                decreases parts.len() - i,
            {
                let ghost more = all.subrange(0, i + 1);
                assert(more.drop_last() =~= all.subrange(0, i as int));
                assert(more.last() == parts@[i as int]@);
                match parts[i].text_at("text") {
                    Some(t) => {
                        out.append(t);
                        out.append("\n");
                    },
                    None => {},
                }
                assert(out@ =~= start + part_lines(more));
                i += 1;
            }
            assert(all.subrange(0, i as int) =~= all);
        },
        _ => {
            assert(out@ =~= old(out)@ + Seq::<char>::empty());
        },
    }
}

/// The lower-case forms of the patterns.
pub open spec fn lowered(patterns: Seq<String>) -> Seq<Seq<char>> {
    Seq::new(patterns.len(), |i: int| text::lowercase(patterns[i]@))
}

/// Whether one of the patterns occurs in the text, both in lower case already.
pub fn contains_lowered(t: &str, patterns: &Vec<String>) -> (r: bool)
    ensures
        r == text::mentions(t@, text::texts(patterns@)),
{
    let ghost words = text::texts(patterns@);
    let mut i: usize = 0;
    while i < patterns.len()
        invariant
            i <= patterns@.len(),
            words == text::texts(patterns@),
            forall|j: int| 0 <= j < i ==> !text::is_part(#[trigger] words[j], t@),
        decreases patterns.len() - i,
    {
        assert(words[i as int] == patterns@[i as int]@);
        if text::contains(t, patterns[i].as_str()) {
            assert(text::is_part(words[i as int], t@));
            return true;
        }
        i += 1;
    }
    false
}

/// Whether one of the patterns occurs in the text, in any case.
pub fn contains_sensitive(t: &str, patterns: &[String]) -> (r: bool)
    ensures
        r == text::mentions(text::lowercase(t@), lowered(patterns@)),
{
    if patterns.len() == 0 {
        return false;
    }
    let low = text::to_lowercase(t);
    let mut words: Vec<String> = Vec::new();
    let mut i: usize = 0;
    while i < patterns.len()
        invariant
            i <= patterns@.len(),
            words@.len() == i,
            forall|j: int|
                0 <= j < i ==> (#[trigger] words@[j])@ == text::lowercase(patterns@[j]@),
        decreases patterns.len() - i,
    {
        words.push(text::to_lowercase(patterns[i].as_str()));
        i += 1;
    }
    assert(text::texts(words@) =~= lowered(patterns@));
    contains_lowered(low.as_str(), &words)
}

/// Whether a message is scanned: those of the system and the assistant only on request.
pub open spec fn scanned(msg: JVal, scan_system: bool) -> bool {
    let role = msg.text_or("role"@, ""@);
    (role != "system"@ && role != "assistant"@) || scan_system
}

/// The content of the messages that are scanned.
pub open spec fn scanned_lines(msgs: Seq<JVal>, scan_system: bool) -> Seq<char>
    decreases msgs.len(),
{
    if msgs.len() == 0 {
        Seq::empty()
    } else {
        let before = scanned_lines(msgs.drop_last(), scan_system);
        if scanned(msgs.last(), scan_system) {
            before + content_lines(msgs.last().get("content"@))
        } else {
            before
        }
    }
}

/// The JSON text of a member, on a line.
pub open spec fn member_line(v: JVal, key: Seq<char>) -> Seq<char> {
    match v.get(key) {
        Some(x) => json::json_text(x) + "\n"@,
        None => Seq::empty(),
    }
}

/// Everything in a request that is scanned: the messages and the descriptions of tools.
pub open spec fn surface(body: JVal, scan_system: bool) -> Seq<char> {
    scanned_lines(body.items_at("messages"@), scan_system) + member_line(body, "tools"@)
        + member_line(body, "functions"@)
}

fn push_member(out: &mut String, body: &Json, key: &str)
    ensures
        final(out)@ == old(out)@ + member_line(body@, key@),
{
    match body.get(key) {
        Some(v) => {
            let t = v.text();
            out.append(t.as_str());
            out.append("\n");
            assert(out@ =~= old(out)@ + (t@ + "\n"@));
        },
        None => {
            assert(out@ =~= old(out)@ + Seq::<char>::empty());
        },
    }
}

/// The text of a request that is scanned: what callers contributed themselves, that is all
/// messages but those of the system and the assistant, which clients fill with text of their
/// own, and the descriptions of tools. With `scan_system` those messages are scanned too.
pub fn scan_surface(body: &Json, scan_system: bool) -> (r: String)
    ensures
        r@ == surface(body@, scan_system),
        forall|i: int, p: int|
            0 <= i < body@.items_at("messages"@).len() && (scan_system
                || (body@.items_at("messages"@)[i].text_or("role"@, ""@) != "system"@
                && body@.items_at("messages"@)[i].text_or("role"@, ""@) != "assistant"@)) && 0 <= p
                < body@.items_at("messages"@)[i].items_at("content"@).len() ==> (
            (#[trigger] body@.items_at("messages"@)[i].items_at("content"@)[p]).text_at("text"@)
                matches Some(t) ==> text::is_part(t, r@)),
{
    let ghost all = body@.items_at("messages"@);
    let mut out = String::new();
    match body.array_at("messages") {
        Some(msgs) => {
            let mut i: usize = 0;
            while i < msgs.len()
                invariant
                    i <= msgs@.len(),
                    all == json::item_values(msgs@),
                    out@ == scanned_lines(all.subrange(0, i as int), scan_system),
                decreases msgs.len() - i,
            {
                let ghost more = all.subrange(0, i + 1);
                assert(more.drop_last() =~= all.subrange(0, i as int));
                assert(more.last() == msgs@[i as int]@);
                let role = msgs[i].text_or("role", "");
                let own = text::same(role, "system") || text::same(role, "assistant");
                if !own || scan_system {
                    push_content(&mut out, msgs[i].get("content"));
                }
                i += 1;
            }
            assert(all.subrange(0, i as int) =~= all);
        },
        None => {},
    }
    push_member(&mut out, body, "tools");
    push_member(&mut out, body, "functions");
    proof {
        assert forall|i: int, p: int|
            0 <= i < all.len() && (scan_system || (all[i].text_or("role"@, ""@) != "system"@
                && all[i].text_or("role"@, ""@) != "assistant"@)) && 0 <= p < all[i].items_at(
                "content"@,
            ).len() implies ((#[trigger] all[i].items_at("content"@)[p]).text_at("text"@)
            matches Some(t) ==> text::is_part(t, out@)) by {
            let part = all[i].items_at("content"@)[p];
            if part.text_at("text"@) is Some {
                law_callers_words_are_scanned(
                    body@,
                    scan_system,
                    i,
                    p,
                    part.text_at("text"@)->Some_0,
                );
            }
        }
    }
    out
}

/// Whether one of the patterns occurs in what is scanned of a request.
pub fn request_is_sensitive(body: &Json, patterns: &[String], scan_system: bool) -> (r: bool)
    ensures
        r == text::mentions(text::lowercase(surface(body@, scan_system)), lowered(patterns@)),
{
    if patterns.len() == 0 {
        return false;
    }
    let out = scan_surface(body, scan_system);
    contains_sensitive(out.as_str(), patterns)
}

/// Where there is nothing to look for, nothing is found.
pub proof fn law_no_patterns_no_match(t: Seq<char>, patterns: Seq<String>)
    requires
        patterns.len() == 0,
    ensures
        !text::mentions(t, lowered(patterns)),
{
}

/// What the system and the assistant say is not scanned unless that is asked for: without it the
/// scanned text is the same whatever such a message holds.
pub proof fn law_system_content_is_left_out(msgs: Seq<JVal>, msg: JVal)
    requires
        msg.text_or("role"@, ""@) == "system"@ || msg.text_or("role"@, ""@) == "assistant"@,
    ensures
        scanned_lines(msgs.push(msg), false) == scanned_lines(msgs, false),
{
    assert(msgs.push(msg).drop_last() =~= msgs);
}

/// Parts are scanned one by one: each that has a text puts it on a line of its own.
pub proof fn law_parts_are_lines(front: Seq<JVal>, part: JVal, back: Seq<JVal>)
    ensures
        part_lines(Seq::empty()).len() == 0,
        part_lines(front + seq![part] + back) == part_lines(front) + (match part.get("text"@) {
            Some(JVal::Str(t)) => t + "\n"@,
            _ => Seq::empty(),
        }) + part_lines(back),
    decreases back.len(),
{
    let all = front + seq![part] + back;
    if back.len() == 0 {
        assert(all.drop_last() =~= front);
        assert(all.last() == part);
    } else {
        law_parts_are_lines(front, part, back.drop_last());
        assert(all.drop_last() =~= front + seq![part] + back.drop_last());
        assert(all.last() == back.last());
    }
    assert(part_lines(all) =~= part_lines(front) + (match part.get("text"@) {
        Some(JVal::Str(t)) => t + "\n"@,
        _ => Seq::empty(),
    }) + part_lines(back));
}

/// Messages are scanned one by one, those of the system and of the assistant only on request.
pub proof fn law_messages_are_scanned(
    front: Seq<JVal>,
    msg: JVal,
    back: Seq<JVal>,
    scan_system: bool,
)
    ensures
        scanned_lines(Seq::empty(), scan_system).len() == 0,
        scanned_lines(front + seq![msg] + back, scan_system) == scanned_lines(front, scan_system)
            + (if !scan_system && (msg.get("role"@) == Some(JVal::Str("system"@)) || msg.get(
            "role"@,
        ) == Some(JVal::Str("assistant"@))) {
            Seq::empty()
        } else {
            match msg.get("content"@) {
                Some(JVal::Str(t)) => t + "\n"@,
                Some(JVal::Array(parts)) => part_lines(parts),
                _ => Seq::empty(),
            }
        }) + scanned_lines(back, scan_system),
    decreases back.len(),
{
    reveal_strlit("");
    reveal_strlit("system");
    reveal_strlit("assistant");
    assert(""@.len() == 0 && "system"@.len() == 6 && "assistant"@.len() == 9);
    let all = front + seq![msg] + back;
    if back.len() == 0 {
        assert(all.drop_last() =~= front);
        assert(all.last() == msg);
    } else {
        law_messages_are_scanned(front, msg, back.drop_last(), scan_system);
        assert(all.drop_last() =~= front + seq![msg] + back.drop_last());
        assert(all.last() == back.last());
    }
    assert(scanned_lines(all, scan_system) =~= scanned_lines(front, scan_system) + (if !scan_system
        && (msg.get("role"@) == Some(JVal::Str("system"@)) || msg.get("role"@) == Some(
        JVal::Str("assistant"@),
    )) {
        Seq::empty()
    } else {
        match msg.get("content"@) {
            Some(JVal::Str(t)) => t + "\n"@,
            Some(JVal::Array(parts)) => part_lines(parts),
            _ => Seq::empty(),
        }
    }) + scanned_lines(back, scan_system));
}

/// Nothing that a caller wrote escapes the scan: the content of every message that is neither the
/// system's nor the assistant's is a part of the scanned text, whether it is a text or the text of
/// any of its parts. On request that holds of every message.
pub proof fn law_callers_words_are_scanned(
    body: JVal,
    scan_system: bool,
    i: int,
    p: int,
    t: Seq<char>,
)
    requires
        0 <= i < body.items_at("messages"@).len(),
        scan_system || (body.items_at("messages"@)[i].get("role"@) != Some(JVal::Str("system"@))
            && body.items_at("messages"@)[i].get("role"@) != Some(JVal::Str("assistant"@))),
    ensures
        ({
            let content = body.items_at("messages"@)[i].get("content"@);
            &&& content == Some(JVal::Str(t)) ==> text::is_part(t, surface(body, scan_system))
            &&& (content matches Some(JVal::Array(parts)) ==> 0 <= p < parts.len()
                && parts[p].get("text"@) == Some(JVal::Str(t)) ==> text::is_part(
                t,
                surface(body, scan_system),
            ))
        }),
{
    let msgs = body.items_at("messages"@);
    let n = msgs.len() as int;
    let front = msgs.subrange(0, i);
    let back = msgs.subrange(i + 1, n);
    assert(msgs =~= front + seq![msgs[i]] + back);
    law_messages_are_scanned(front, msgs[i], back, scan_system);
    let whole = surface(body, scan_system);
    let a = scanned_lines(front, scan_system);
    let z = scanned_lines(back, scan_system) + member_line(body, "tools"@) + member_line(
        body,
        "functions"@,
    );
    let content = msgs[i].get("content"@);
    if content == Some(JVal::Str(t)) {
        assert(whole =~= a + t + ("\n"@ + z));
        text::lemma_part_between(a, t, "\n"@ + z);
    }
    if content is Some && content->Some_0 is Array {
        let parts = content->Some_0->Array_0;
        if 0 <= p < parts.len() && parts[p].get("text"@) == Some(JVal::Str(t)) {
            let x = parts.subrange(0, p);
            let y = parts.subrange(p + 1, parts.len() as int);
            assert(parts =~= x + seq![parts[p]] + y);
            law_parts_are_lines(x, parts[p], y);
            assert(whole =~= (a + part_lines(x)) + t + ("\n"@ + part_lines(y) + z));
            text::lemma_part_between(a + part_lines(x), t, "\n"@ + part_lines(y) + z);
        }
    }
}

/// The definitions of tools and of functions are scanned as the texts that they are sent as.
pub proof fn law_definitions_are_scanned(body: JVal, scan_system: bool)
    ensures
        body.get("tools"@) matches Some(v) ==> text::is_part(
            json::json_text(v),
            surface(body, scan_system),
        ),
        body.get("functions"@) matches Some(v) ==> text::is_part(
            json::json_text(v),
            surface(body, scan_system),
        ),
{
    let whole = surface(body, scan_system);
    let a = scanned_lines(body.items_at("messages"@), scan_system);
    if body.get("tools"@) is Some {
        let t = json::json_text(body.get("tools"@)->Some_0);
        let z = "\n"@ + member_line(body, "functions"@);
        assert(whole =~= a + t + z);
        text::lemma_part_between(a, t, z);
    }
    if body.get("functions"@) is Some {
        let t = json::json_text(body.get("functions"@)->Some_0);
        let b = a + member_line(body, "tools"@);
        assert(whole =~= b + t + "\n"@);
        text::lemma_part_between(b, t, "\n"@);
    }
}

/// Nothing else is scanned: without messages, tools and functions the scanned text is empty, and no
/// other member of a request changes it.
pub proof fn law_only_these_are_scanned(a: JVal, b: JVal, scan_system: bool)
    requires
        a.get("messages"@) == b.get("messages"@),
        a.get("tools"@) == b.get("tools"@),
        a.get("functions"@) == b.get("functions"@),
    ensures
        surface(a, scan_system) == surface(b, scan_system),
        a.get("messages"@) is None && a.get("tools"@) is None && a.get("functions"@) is None
            ==> surface(a, scan_system).len() == 0,
{
}

/// Any one of the patterns is enough: a text is sensitive exactly where the lower-case form of one
/// of them occurs in it.
pub proof fn law_any_pattern_counts(t: Seq<char>, patterns: Seq<String>)
    ensures
        text::mentions(t, lowered(patterns)) <==> exists|k: int|
            0 <= k < patterns.len() && text::is_part(text::lowercase((#[trigger] patterns[k])@), t),
{
    let words = lowered(patterns);
    if text::mentions(t, words) {
        let k = choose|k: int| 0 <= k < words.len() && #[trigger] text::is_part(words[k], t);
        assert(words[k] == text::lowercase(patterns[k]@));
    }
    assert forall|k: int|
        0 <= k < patterns.len() && text::is_part(
            text::lowercase((#[trigger] patterns[k])@),
            t,
        ) implies text::mentions(t, words) by {
        assert(words[k] == text::lowercase(patterns[k]@));
        assert(text::is_part(words[k], t));
    }
}

} // verus!
