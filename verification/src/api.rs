//! Reading requests and shaping answers: headers, authentication, user text, error bodies.
use vstd::prelude::*;
use vstd::string::*;
use crate::config::Config;
use crate::json::{JVal, Json};
use crate::table::Table;
use crate::{json, privacy, text};

verus! {

/// Whether two byte strings are equal. The time it takes depends on their lengths only, so that
/// a wrong key does not tell how much of it was right.
pub fn constant_time_eq(a: &[u8], b: &[u8]) -> (r: bool)
    ensures
        r == (a@ == b@),
{
    if a.len() != b.len() {
        return false;
    }
    let mut diff: u8 = 0;
    let mut i: usize = 0;
    while i < a.len()
        invariant
            i <= a@.len(),
            a@.len() == b@.len(),
            diff == 0 <==> forall|j: int| 0 <= j < i ==> a@[j] == b@[j],
        decreases a.len() - i,
    {
        let x: u8 = a[i];
        let y: u8 = b[i];
        let ghost was = diff;
        diff = diff | (x ^ y);
        proof {
            assert((was | (x ^ y)) == 0 <==> (was == 0 && x == y)) by (bit_vector);
            if diff == 0 {
                assert forall|j: int| 0 <= j < i + 1 implies a@[j] == b@[j] by {
                    if j == i {
                        assert(x == y);
                    }
                }
            }
            if forall|j: int| 0 <= j < i + 1 ==> a@[j] == b@[j] {
                assert(a@[i as int] == b@[i as int]);
            }
        }
        i += 1;
    }
    if diff == 0 {
        assert(a@ =~= b@);
    }
    diff == 0
}

/// The value of a header; names are in lower case.
pub fn header(headers: &Table<String>, name: &str) -> (r: Option<String>)
    ensures
        text::optional(r) == text::optional(headers.at(name@)),
{
    match headers.get(name) {
        Some(v) => Some(v.clone()),
        None => None,
    }
}

/// Whether a header says yes.
pub open spec fn says_yes(headers: Table<String>, name: Seq<char>) -> bool {
    match headers.at(name) {
        Some(v) => v@ == "1"@ || v@ == "true"@ || v@ == "yes"@,
        None => false,
    }
}

/// Whether a header says yes.
pub fn header_bool(headers: &Table<String>, name: &str) -> (r: bool)
    ensures
        r == says_yes(*headers, name@),
{
    match headers.get(name) {
        Some(v) => text::same(v.as_str(), "1") || text::same(v.as_str(), "true") || text::same(
            v.as_str(),
            "yes",
        ),
        None => false,
    }
}

/// Whether a caller is admitted: no key is asked for, or the caller presents it.
pub open spec fn admitted(cfg: Config, headers: Table<String>) -> bool {
    cfg.auth.llmux_key@.len() == 0 || (headers.at("authorization"@) matches Some(v) && text::after(
        v@,
        "Bearer "@,
    ) == Some(cfg.auth.llmux_key@))
}

/// Whether a caller is admitted.
pub fn check_auth(cfg: &Config, headers: &Table<String>) -> (r: bool)
    ensures
        r == admitted(*cfg, *headers),
{
    let expected = cfg.auth.llmux_key.as_str();
    if expected.is_empty() {
        return true;
    }
    match headers.get("authorization") {
        Some(v) => match text::strip_prefix(v.as_str(), "Bearer ") {
            Some(token) => {
                proof {
                    vstd::utf8::encode_utf8_decode_utf8(token@);
                    vstd::utf8::encode_utf8_decode_utf8(expected@);
                }
                constant_time_eq(token.as_bytes(), expected.as_bytes())
            },
            None => false,
        },
        None => false,
    }
}

/// The contents of the messages of users, oldest first.
pub open spec fn user_contents(msgs: Seq<JVal>) -> Seq<Option<JVal>>
    decreases msgs.len(),
{
    if msgs.len() == 0 {
        Seq::empty()
    } else {
        let before = user_contents(msgs.drop_last());
        if msgs.last().text_at("role"@) == Some("user"@) {
            before.push(msgs.last().get("content"@))
        } else {
            before
        }
    }
}

/// The texts of contents, one behind the other.
pub open spec fn all_lines(contents: Seq<Option<JVal>>) -> Seq<char>
    decreases contents.len(),
{
    if contents.len() == 0 {
        Seq::empty()
    } else {
        all_lines(contents.drop_last()) + privacy::content_lines(contents.last())
    }
}

/// The last `n` items, at least one where there is one.
pub open spec fn latest(contents: Seq<Option<JVal>>, n: nat) -> Seq<Option<JVal>> {
    let wanted = if n == 0 {
        1
    } else {
        n
    };
    if contents.len() <= wanted {
        contents
    } else {
        contents.subrange(contents.len() - wanted, contents.len() as int)
    }
}

/// The text of the last `n` messages of users.
pub open spec fn user_text(body: JVal, n: nat) -> Seq<char> {
    all_lines(latest(user_contents(body.items_at("messages"@)), n))
}

fn is_user(msg: &Json) -> (r: bool)
    ensures
        r == (msg@.text_at("role"@) == Some("user"@)),
{
    match msg.text_at("role") {
        Some(role) => text::same(role, "user"),
        None => false,
    }
}

/// The contents of the messages at the given positions.
spec fn contents_at(msgs: Seq<Json>, at: Seq<usize>) -> Seq<Option<JVal>> {
    Seq::new(at.len(), |k: int| msgs[at[k] as int]@.get("content"@))
}

/// The text of the last `n` messages of users, at least one. What the system, the assistant and
/// tools say is left out, so that the long fixed part of a client's requests does not decide the
/// task type.
pub fn extract_user_text(body: &Json, n: usize) -> (r: String)
    ensures
        r@ == user_text(body@, n as nat),
{
    let msgs = match body.array_at("messages") {
        Some(m) => m,
        None => {
            return String::new();
        },
    };
    let ghost all = json::item_values(msgs@);
    let mut users: Vec<usize> = Vec::new();
    let mut i: usize = 0;
    assert(contents_at(msgs@, users@) =~= user_contents(all.subrange(0, 0)));
    while i < msgs.len()
        invariant
            i <= msgs@.len(),
            all == json::item_values(msgs@),
            forall|k: int| 0 <= k < users@.len() ==> (#[trigger] users@[k]) < i,
            contents_at(msgs@, users@) == user_contents(all.subrange(0, i as int)),
        decreases msgs.len() - i,
    {
        let ghost more = all.subrange(0, i + 1);
        let ghost was = contents_at(msgs@, users@);
        assert(more.drop_last() =~= all.subrange(0, i as int));
        assert(more.last() == msgs@[i as int]@);
        if is_user(&msgs[i]) {
            users.push(i);
            assert(contents_at(msgs@, users@) =~= was.push(msgs@[i as int]@.get("content"@)));
        }
        i += 1;
    }
    assert(all.subrange(0, i as int) =~= all);
    let wanted: usize = if n == 0 {
        1
    } else {
        n
    };
    let start: usize = if users.len() <= wanted {
        0
    } else {
        users.len() - wanted
    };
    let ghost contents = contents_at(msgs@, users@);
    let ghost chosen = latest(contents, n as nat);
    assert(chosen =~= contents.subrange(start as int, contents.len() as int));
    let mut out = String::new();
    let mut k: usize = start;
    while k < users.len()
        invariant
            start <= k <= users@.len(),
            contents == contents_at(msgs@, users@),
            chosen == contents.subrange(start as int, contents.len() as int),
            forall|j: int| 0 <= j < users@.len() ==> (#[trigger] users@[j]) < msgs@.len(),
            out@ == all_lines(chosen.subrange(0, k - start)),
        decreases users.len() - k,
    {
        let ghost more = chosen.subrange(0, k + 1 - start);
        assert(more.drop_last() =~= chosen.subrange(0, k - start));
        assert(more.last() == msgs@[users@[k as int] as int]@.get("content"@));
        privacy::push_content(&mut out, msgs[users[k]].get("content"));
        k += 1;
    }
    assert(chosen.subrange(0, k - start) =~= chosen);
    out
}

/// The body of an answer that reports an error.
pub open spec fn error_value(message: Seq<char>) -> JVal {
    JVal::empty_object().with(
        "error"@,
        JVal::empty_object().with("message"@, JVal::Str(message)).with(
            "type"@,
            JVal::Str("llmux_error"@),
        ),
    )
}

/// The body of an answer that reports an error.
pub fn error_body(message: &str) -> (r: Json)
    ensures
        r@ == error_value(message@),
{
    let mut inner = Json::object();
    inner.set("message", Json::string(message));
    inner.set("type", Json::string("llmux_error"));
    let mut r = Json::object();
    r.set("error", inner);
    r
}

/// Whether an answer calls a tool: it says so, or lists calls.
pub open spec fn calls_tool(payload: JVal) -> bool {
    let choice = payload.at("choices"@).first();
    ||| choice.text_at("finish_reason"@) == Some("tool_calls"@)
    ||| choice.at("message"@).items_at("tool_calls"@).len() > 0
}

/// Whether an answer calls a tool.
pub fn response_has_tool_call(payload: &Json) -> (r: bool)
    ensures
        r == calls_tool(payload@),
{
    match payload.get("choices") {
        Some(choices) => match choices.first() {
            Some(choice) => {
                match choice.text_at("finish_reason") {
                    Some(f) => {
                        if text::same(f, "tool_calls") {
                            return true;
                        }
                    },
                    None => {},
                }
                match choice.get("message") {
                    Some(m) => match m.array_at("tool_calls") {
                        Some(calls) => {
                            assert(json::item_values(calls@).len() == calls@.len());
                            calls.len() > 0
                        },
                        None => false,
                    },
                    None => false,
                }
            },
            None => false,
        },
        None => false,
    }
}

/// What follows the last dot of a path, or all of it where there is none.
pub open spec fn extension(path: Seq<char>) -> Seq<char>
    decreases path.len(),
{
    if path.len() == 0 || path.last() == '.' {
        Seq::empty()
    } else {
        extension(path.drop_last()).push(path.last())
    }
}

/// The content type of files with an extension.
pub open spec fn mime_of(ext: Seq<char>) -> Seq<char> {
    if ext == "html"@ {
        "text/html; charset=utf-8"@
    } else if ext == "css"@ {
        "text/css; charset=utf-8"@
    } else if ext == "js"@ || ext == "mjs"@ {
        "text/javascript; charset=utf-8"@
    } else if ext == "json"@ || ext == "map"@ {
        "application/json"@
    } else if ext == "svg"@ {
        "image/svg+xml"@
    } else if ext == "png"@ {
        "image/png"@
    } else if ext == "webp"@ {
        "image/webp"@
    } else if ext == "ico"@ {
        "image/x-icon"@
    } else if ext == "woff2"@ {
        "font/woff2"@
    } else if ext == "woff"@ {
        "font/woff"@
    } else {
        "application/octet-stream"@
    }
}

/// The content type of a file, by its extension.
pub fn asset_mime(path: &str) -> (r: &'static str)
    ensures
        r@ == mime_of(extension(path@)),
{
    let cs = text::chars_of(path);
    let mut k: usize = cs.len();
    assert(path@.subrange(0, k as int) =~= path@);
    assert(path@.subrange(k as int, path@.len() as int) =~= Seq::empty());
    assert(extension(path@) =~= extension(path@.subrange(0, k as int)) + path@.subrange(
        k as int,
        path@.len() as int,
    ));
    while k > 0 && cs[k - 1] != '.'
        invariant
            k <= cs@.len(),
            cs@ == path@,
            extension(path@) == extension(path@.subrange(0, k as int)) + path@.subrange(
                k as int,
                path@.len() as int,
            ),
        decreases k,
    {
        let ghost head = path@.subrange(0, k as int);
        assert(head.drop_last() =~= path@.subrange(0, k - 1));
        assert(path@.subrange(k - 1, path@.len() as int) =~= seq![path@[k - 1]] + path@.subrange(
            k as int,
            path@.len() as int,
        ));
        k -= 1;
        assert(extension(path@) =~= extension(path@.subrange(0, k as int)) + path@.subrange(
            k as int,
            path@.len() as int,
        ));
    }
    assert(extension(path@.subrange(0, k as int)) =~= Seq::empty());
    let ext = path.substring_char(k, cs.len());
    assert(ext@ =~= extension(path@));
    if text::same(ext, "html") {
        "text/html; charset=utf-8"
    } else if text::same(ext, "css") {
        "text/css; charset=utf-8"
    } else if text::same(ext, "js") || text::same(ext, "mjs") {
        "text/javascript; charset=utf-8"
    } else if text::same(ext, "json") || text::same(ext, "map") {
        "application/json"
    } else if text::same(ext, "svg") {
        "image/svg+xml"
    } else if text::same(ext, "png") {
        "image/png"
    } else if text::same(ext, "webp") {
        "image/webp"
    } else if text::same(ext, "ico") {
        "image/x-icon"
    } else if text::same(ext, "woff2") {
        "font/woff2"
    } else if text::same(ext, "woff") {
        "font/woff"
    } else {
        "application/octet-stream"
    }
}

/// What the dashboard serves for a path.
#[derive(Debug, Clone, Copy, PartialEq, Eq, Structural)]
pub enum Page {
    /// The start page.
    Index,
    /// The file of that name.
    File,
    NotFound,
}

/// `path` without the slashes that it begins with.
pub open spec fn asset_name(path: Seq<char>) -> Seq<char>
    decreases path.len(),
{
    if path.len() > 0 && path[0] == '/' {
        asset_name(path.drop_first())
    } else {
        path
    }
}

/// The name of the file that a path asks for: the path without the slashes it begins with.
pub fn trim_path(path: &str) -> (r: &str)
    ensures
        r@ == asset_name(path@),
{
    let cs = text::chars_of(path);
    let mut i: usize = 0;
    assert(path@.subrange(0, path@.len() as int) =~= path@);
    while i < cs.len() && cs[i] == '/'
        invariant
            i <= cs@.len(),
            cs@ == path@,
            asset_name(path@) == asset_name(path@.subrange(i as int, path@.len() as int)),
        decreases cs.len() - i,
    {
        assert(path@.subrange(i as int, path@.len() as int).drop_first() =~= path@.subrange(
            i + 1,
            path@.len() as int,
        ));
        i += 1;
    }
    path.substring_char(i, cs.len())
}

/// What the dashboard serves for the name of a file: the file where it exists, nothing for a
/// missing file with an extension, and the start page for everything else.
pub fn page_for(name: &str, present: bool) -> (r: Page)
    ensures
        r == (if name@.len() == 0 {
            Page::Index
        } else if present {
            Page::File
        } else if name@.contains('.') {
            Page::NotFound
        } else {
            Page::Index
        }),
{
    if name.is_empty() {
        return Page::Index;
    }
    if present {
        return Page::File;
    }
    let cs = text::chars_of(name);
    let mut i: usize = 0;
    while i < cs.len()
        invariant
            i <= cs@.len(),
            cs@ == name@,
            name@.len() > 0,
            !present,
            forall|j: int| 0 <= j < i ==> cs@[j] != '.',
        decreases cs.len() - i,
    {
        if cs[i] == '.' {
            assert(name@[i as int] == '.');
            return Page::NotFound;
        }
        i += 1;
    }
    Page::Index
}

/// How many requests the feed shows: 50 where nothing is asked for, and from 1 to 500.
pub fn feed_limit(limit: Option<usize>) -> (r: usize)
    ensures
        r == (match limit {
            Some(n) => if n < 1 {
                1
            } else if n > 500 {
                500
            } else {
                n
            },
            None => 50,
        }),
{
    match limit {
        Some(n) => if n < 1 {
            1
        } else if n > 500 {
            500
        } else {
            n
        },
        None => 50,
    }
}

/// The host to show to people: an address that only means "everywhere" is shown as `localhost`.
pub open spec fn shown_host(host: Seq<char>) -> Seq<char> {
    if host == "0.0.0.0"@ || host == "::"@ || host == "[::]"@ {
        "localhost"@
    } else {
        host
    }
}

/// The host to show to people.
pub fn display_host(host: &str) -> (r: &str)
    ensures
        r@ == shown_host(host@),
{
    if text::same(host, "0.0.0.0") || text::same(host, "::") || text::same(host, "[::]") {
        "localhost"
    } else {
        host
    }
}

/// A key that is asked for admits exactly the callers that present it, whole and unchanged.
pub proof fn law_only_the_key_admits(cfg: Config, headers: Table<String>)
    requires
        cfg.auth.llmux_key@.len() > 0,
    ensures
        admitted(cfg, headers) <==> (headers.at("authorization"@) matches Some(v) && v@
            == "Bearer "@ + cfg.auth.llmux_key@),
{
    let key = cfg.auth.llmux_key@;
    match headers.at("authorization"@) {
        Some(v) => {
            let head = "Bearer "@;
            if v@ == head + key {
                assert(v@.subrange(0, head.len() as int) =~= head);
                assert(v@.subrange(head.len() as int, v@.len() as int) =~= key);
            }
            if text::after(v@, head) == Some(key) {
                assert(v@ =~= v@.subrange(0, head.len() as int) + v@.subrange(
                    head.len() as int,
                    v@.len() as int,
                ));
            }
        },
        None => {},
    }
}

/// The words that say yes in a header; every other word, and no header, says no.
pub proof fn law_words_that_say_yes(headers: Table<String>, name: Seq<char>)
    ensures
        headers.at(name) is None ==> !says_yes(headers, name),
        headers.at(name) matches Some(v) ==> (says_yes(headers, name) <==> v@ == "1"@ || v@
            == "true"@ || v@ == "yes"@),
{
}

/// Where no key is configured everyone is admitted.
pub proof fn law_open_without_a_key(cfg: Config, headers: Table<String>)
    requires
        cfg.auth.llmux_key@.len() == 0,
    ensures
        admitted(cfg, headers),
{
}

/// Only what users say counts for the type of a task, message by message in their order.
pub proof fn law_what_users_say(front: Seq<JVal>, msg: JVal, back: Seq<JVal>)
    ensures
        user_contents(Seq::empty()).len() == 0,
        user_contents(front + seq![msg] + back) == user_contents(front) + (if msg.get("role"@)
            == Some(JVal::Str("user"@)) {
            seq![msg.get("content"@)]
        } else {
            Seq::empty()
        }) + user_contents(back),
    decreases back.len(),
{
    let all = front + seq![msg] + back;
    if back.len() == 0 {
        assert(all.drop_last() =~= front);
        assert(all.last() == msg);
    } else {
        law_what_users_say(front, msg, back.drop_last());
        assert(all.drop_last() =~= front + seq![msg] + back.drop_last());
        assert(all.last() == back.last());
    }
    assert(user_contents(all) =~= user_contents(front) + (if msg.get("role"@) == Some(
        JVal::Str("user"@),
    ) {
        seq![msg.get("content"@)]
    } else {
        Seq::empty()
    }) + user_contents(back));
}

/// The texts of contents follow each other in their order, plain texts and texts of parts, each on
/// a line of its own.
pub proof fn law_lines_of_contents(
    front: Seq<Option<JVal>>,
    content: Option<JVal>,
    back: Seq<Option<JVal>>,
)
    ensures
        all_lines(Seq::empty()).len() == 0,
        all_lines(front + seq![content] + back) == all_lines(front) + (match content {
            Some(JVal::Str(t)) => t + "\n"@,
            Some(JVal::Array(parts)) => privacy::part_lines(parts),
            _ => Seq::empty(),
        }) + all_lines(back),
    decreases back.len(),
{
    let all = front + seq![content] + back;
    if back.len() == 0 {
        assert(all.drop_last() =~= front);
        assert(all.last() == content);
    } else {
        law_lines_of_contents(front, content, back.drop_last());
        assert(all.drop_last() =~= front + seq![content] + back.drop_last());
        assert(all.last() == back.last());
    }
    assert(all_lines(all) =~= all_lines(front) + (match content {
        Some(JVal::Str(t)) => t + "\n"@,
        Some(JVal::Array(parts)) => privacy::part_lines(parts),
        _ => Seq::empty(),
    }) + all_lines(back));
}

/// The latest contents are the last ones: as many as are asked for, but one at least, and no more
/// than there are.
pub proof fn law_latest_are_the_last(contents: Seq<Option<JVal>>, n: nat, k: int)
    requires
        0 <= k < latest(contents, n).len(),
    ensures
        ({
            let r = latest(contents, n);
            &&& r.len() <= contents.len()
            &&& r[k] == contents[contents.len() - r.len() + k]
            &&& r.len() < contents.len() ==> r.len() == n || (n == 0 && r.len() == 1)
            &&& r.len() <= n || r.len() == 1
        }),
{
}

/// Where a request ends with what a user said, that is a part of the text that is looked at,
/// however few messages are asked for.
pub proof fn law_last_words_count(
    body: JVal,
    n: nat,
    before: Seq<JVal>,
    msg: JVal,
    t: Seq<char>,
)
    requires
        body.get("messages"@) == Some(JVal::Array(before.push(msg))),
        msg.get("role"@) == Some(JVal::Str("user"@)),
        msg.get("content"@) == Some(JVal::Str(t)),
    ensures
        text::is_part(t, user_text(body, n)),
{
    let msgs = before.push(msg);
    assert(msgs =~= before + seq![msg] + Seq::<JVal>::empty());
    law_what_users_say(before, msg, Seq::empty());
    let contents = user_contents(msgs);
    assert(contents =~= user_contents(before).push(msg.get("content"@)));
    let last = latest(contents, n);
    assert(last.last() == msg.get("content"@));
    let a = all_lines(last.drop_last());
    assert(user_text(body, n) =~= a + t + "\n"@);
    text::lemma_part_between(a, t, "\n"@);
}

/// An error is reported under `error`, with its message and the type `llmux_error`.
pub proof fn law_errors_are_reported(message: Seq<char>)
    ensures
        error_value(message).at("error"@).get("message"@) == Some(JVal::Str(message)),
        error_value(message).at("error"@).get("type"@) == Some(JVal::Str("llmux_error"@)),
{
    reveal_strlit("message");
    reveal_strlit("type");
    assert("message"@.len() == 7 && "type"@.len() == 4);
}

/// An answer calls a tool where its first choice stopped for that, or lists a call.
pub proof fn law_answers_that_call_tools(payload: JVal, choices: Seq<JVal>)
    requires
        payload.get("choices"@) == Some(JVal::Array(choices)),
    ensures
        choices.len() == 0 ==> !calls_tool(payload),
        choices.len() > 0 ==> (calls_tool(payload) <==> choices[0].get("finish_reason"@) == Some(
            JVal::Str("tool_calls"@),
        ) || (choices[0].at("message"@).get("tool_calls"@) matches Some(JVal::Array(calls))
            && calls.len() > 0)),
{
}

/// The extension of a file is what follows the last dot of its path.
pub proof fn law_extension(path: Seq<char>)
    ensures
        ({
            let e = extension(path);
            let n = path.len() - e.len();
            &&& 0 <= n
            &&& e == path.subrange(n, path.len() as int)
            &&& !e.contains('.')
            &&& n > 0 ==> path[n - 1] == '.'
        }),
    decreases path.len(),
{
    if path.len() > 0 && path.last() != '.' {
        law_extension(path.drop_last());
        let e = extension(path);
        let n = path.len() - e.len();
        assert(e =~= path.subrange(n, path.len() as int));
        if e.contains('.') {
            let i = choose|i: int| 0 <= i < e.len() && e[i] == '.';
            assert(extension(path.drop_last())[i] == '.');
        }
    } else {
        assert(extension(path) =~= path.subrange(path.len() as int, path.len() as int));
    }
}

proof fn lemma_extensions()
    ensures
        "html"@ != "css"@,
        "html"@ != "js"@,
        "html"@ != "mjs"@,
        "html"@ != "json"@,
        "html"@ != "map"@,
        "html"@ != "svg"@,
        "html"@ != "png"@,
        "html"@ != "webp"@,
        "html"@ != "ico"@,
        "html"@ != "woff2"@,
        "html"@ != "woff"@,
        "css"@ != "js"@,
        "css"@ != "mjs"@,
        "css"@ != "json"@,
        "css"@ != "map"@,
        "css"@ != "svg"@,
        "css"@ != "png"@,
        "css"@ != "webp"@,
        "css"@ != "ico"@,
        "css"@ != "woff2"@,
        "css"@ != "woff"@,
        "js"@ != "mjs"@,
        "js"@ != "json"@,
        "js"@ != "map"@,
        "js"@ != "svg"@,
        "js"@ != "png"@,
        "js"@ != "webp"@,
        "js"@ != "ico"@,
        "js"@ != "woff2"@,
        "js"@ != "woff"@,
        "mjs"@ != "json"@,
        "mjs"@ != "map"@,
        "mjs"@ != "svg"@,
        "mjs"@ != "png"@,
        "mjs"@ != "webp"@,
        "mjs"@ != "ico"@,
        "mjs"@ != "woff2"@,
        "mjs"@ != "woff"@,
        "json"@ != "map"@,
        "json"@ != "svg"@,
        "json"@ != "png"@,
        "json"@ != "webp"@,
        "json"@ != "ico"@,
        "json"@ != "woff2"@,
        "json"@ != "woff"@,
        "map"@ != "svg"@,
        "map"@ != "png"@,
        "map"@ != "webp"@,
        "map"@ != "ico"@,
        "map"@ != "woff2"@,
        "map"@ != "woff"@,
        "svg"@ != "png"@,
        "svg"@ != "webp"@,
        "svg"@ != "ico"@,
        "svg"@ != "woff2"@,
        "svg"@ != "woff"@,
        "png"@ != "webp"@,
        "png"@ != "ico"@,
        "png"@ != "woff2"@,
        "png"@ != "woff"@,
        "webp"@ != "ico"@,
        "webp"@ != "woff2"@,
        "webp"@ != "woff"@,
        "ico"@ != "woff2"@,
        "ico"@ != "woff"@,
        "woff2"@ != "woff"@,
{
    reveal_strlit("html");
    reveal_strlit("css");
    reveal_strlit("js");
    reveal_strlit("mjs");
    reveal_strlit("json");
    reveal_strlit("map");
    reveal_strlit("svg");
    reveal_strlit("png");
    reveal_strlit("webp");
    reveal_strlit("ico");
    reveal_strlit("woff2");
    reveal_strlit("woff");
    assert("html"@.len() == 4);
    assert("css"@.len() == 3);
    assert("js"@.len() == 2);
    assert("mjs"@.len() == 3);
    assert("json"@.len() == 4);
    assert("map"@.len() == 3);
    assert("svg"@.len() == 3);
    assert("png"@.len() == 3);
    assert("webp"@.len() == 4);
    assert("ico"@.len() == 3);
    assert("woff2"@.len() == 5);
    assert("woff"@.len() == 4);
    assert("html"@[0] != "json"@[0]);
    assert("html"@[0] != "webp"@[0]);
    assert("html"@[0] != "woff"@[0]);
    assert("css"@[0] != "mjs"@[0]);
    assert("css"@[0] != "map"@[0]);
    assert("css"@[0] != "svg"@[0]);
    assert("css"@[0] != "png"@[0]);
    assert("css"@[0] != "ico"@[0]);
    assert("mjs"@[1] != "map"@[1]);
    assert("mjs"@[0] != "svg"@[0]);
    assert("mjs"@[0] != "png"@[0]);
    assert("mjs"@[0] != "ico"@[0]);
    assert("json"@[0] != "webp"@[0]);
    assert("json"@[0] != "woff"@[0]);
    assert("map"@[0] != "svg"@[0]);
    assert("map"@[0] != "png"@[0]);
    assert("map"@[0] != "ico"@[0]);
    assert("svg"@[0] != "png"@[0]);
    assert("svg"@[0] != "ico"@[0]);
    assert("png"@[0] != "ico"@[0]);
    assert("webp"@[1] != "woff"@[1]);
}

/// The content types of the files that the dashboard is made of; any other is a row of bytes.
pub proof fn law_content_types(ext: Seq<char>)
    ensures
        mime_of("html"@) == "text/html; charset=utf-8"@,
        mime_of("css"@) == "text/css; charset=utf-8"@,
        mime_of("js"@) == "text/javascript; charset=utf-8"@,
        mime_of("mjs"@) == "text/javascript; charset=utf-8"@,
        mime_of("json"@) == "application/json"@,
        mime_of("map"@) == "application/json"@,
        mime_of("svg"@) == "image/svg+xml"@,
        mime_of("png"@) == "image/png"@,
        mime_of("webp"@) == "image/webp"@,
        mime_of("ico"@) == "image/x-icon"@,
        mime_of("woff2"@) == "font/woff2"@,
        mime_of("woff"@) == "font/woff"@,
        ext != "html"@ && ext != "css"@ && ext != "js"@ && ext != "mjs"@ && ext != "json"@ && ext != "map"@ && ext != "svg"@ && ext != "png"@ && ext != "webp"@ && ext != "ico"@ && ext != "woff2"@ && ext != "woff"@ ==> mime_of(ext)
            == "application/octet-stream"@,
{
    lemma_extensions();
}

/// A path without the slashes that it begins with, and nothing else changed.
pub proof fn law_asset_names(path: Seq<char>)
    ensures
        ({
            let name = asset_name(path);
            let n = path.len() - name.len();
            &&& 0 <= n
            &&& name == path.subrange(n, path.len() as int)
            &&& name.len() > 0 ==> name[0] != '/'
            &&& forall|i: int| 0 <= i < n ==> path[i] == '/'
        }),
    decreases path.len(),
{
    if path.len() > 0 && path[0] == '/' {
        let rest = path.drop_first();
        law_asset_names(rest);
        let name = asset_name(path);
        let n = path.len() - name.len();
        assert(name =~= path.subrange(n, path.len() as int));
        assert forall|i: int| 0 <= i < n implies path[i] == '/' by {
            if i > 0 {
                assert(rest[i - 1] == path[i]);
            }
        }
    } else {
        assert(path =~= path.subrange(0, path.len() as int));
    }
}

/// Addresses that mean every interface are shown as `localhost`, and every other host as it is.
pub proof fn law_shown_hosts(host: Seq<char>)
    ensures
        shown_host("0.0.0.0"@) == "localhost"@,
        shown_host("::"@) == "localhost"@,
        shown_host("[::]"@) == "localhost"@,
        host != "0.0.0.0"@ && host != "::"@ && host != "[::]"@ ==> shown_host(host) == host,
{
}

} // verus!
