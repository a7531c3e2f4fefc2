//! What a request asks for: its task type and the capabilities it needs.
use vstd::prelude::*;
use vstd::string::*;
use crate::config::LlmClassifierConfig;
use crate::json::{JVal, Json};
use crate::{json, providers, text};

verus! {

/// The kinds of task that requests are sorted into.
#[derive(Debug, Clone, Copy, PartialEq, Eq, Structural)]
pub enum TaskType {
    PrivateSensitive,
    Architecture,
    CodeReview,
    Summarize,
    SimpleText,
}

impl TaskType {
    /// The key of the task type in the classification table.
    pub open spec fn key(self) -> Seq<char> {
        match self {
            TaskType::PrivateSensitive => "private_sensitive"@,
            TaskType::Architecture => "architecture"@,
            TaskType::CodeReview => "code_review"@,
            TaskType::Summarize => "summarize"@,
            TaskType::SimpleText => "simple_text"@,
        }
    }

    /// The keys of all task types.
    pub open spec fn keys() -> Seq<Seq<char>> {
        seq![
            TaskType::PrivateSensitive.key(),
            TaskType::Architecture.key(),
            TaskType::CodeReview.key(),
            TaskType::Summarize.key(),
            TaskType::SimpleText.key(),
        ]
    }

    /// The keys of all task types, in the order of their declaration.
    pub fn all_keys() -> (r: Vec<String>)
        ensures
            text::texts(r@) == TaskType::keys(),
    {
        let mut r: Vec<String> = Vec::new();
        r.push(TaskType::PrivateSensitive.as_key().to_owned());
        r.push(TaskType::Architecture.as_key().to_owned());
        r.push(TaskType::CodeReview.as_key().to_owned());
        r.push(TaskType::Summarize.as_key().to_owned());
        r.push(TaskType::SimpleText.as_key().to_owned());
        assert(text::texts(r@) =~= TaskType::keys());
        r
    }

    /// The key of the task type in the classification table.
    pub fn as_key(&self) -> (r: &'static str)
        ensures
            r@ == self.key(),
    {
        match self {
            TaskType::PrivateSensitive => "private_sensitive",
            TaskType::Architecture => "architecture",
            TaskType::CodeReview => "code_review",
            TaskType::Summarize => "summarize",
            TaskType::SimpleText => "simple_text",
        }
    }

    /// The task type with a key. A classifier never answers that a request is private: only
    /// scanning the request decides that.
    pub fn from_key(key: &str) -> (r: Option<TaskType>)
        ensures
            match r {
                Some(t) => t != TaskType::PrivateSensitive && t.key() == key@,
                None => forall|t: TaskType|
                    t != TaskType::PrivateSensitive ==> #[trigger] t.key() != key@,
            },
    {
        if text::same(key, "architecture") {
            Some(TaskType::Architecture)
        } else if text::same(key, "code_review") {
            Some(TaskType::CodeReview)
        } else if text::same(key, "summarize") {
            Some(TaskType::Summarize)
        } else if text::same(key, "simple_text") {
            Some(TaskType::SimpleText)
        } else {
            None
        }
    }
}

/// Words that point to questions of architecture.
pub open spec fn architecture_words() -> Seq<Seq<char>> {
    seq![
        "architektur"@,
        "architecture"@,
        "konzept"@,
        "design pattern"@,
        "datenbank"@,
        "database schema"@,
        "security"@,
        "sicherheit"@,
        "skalier"@,
        "scalab"@,
        "trade-off"@,
        "tradeoff"@,
    ]
}

/// Words that point to work on code.
pub open spec fn code_words() -> Seq<Seq<char>> {
    seq![
        "refactor"@,
        "bug"@,
        "fix"@,
        "test"@,
        "typescript"@,
        "rust"@,
        "astro"@,
        "code review"@,
        "review this"@,
        "optimiere"@,
        "optimize"@,
        "accessibility"@,
        "function"@,
        "klasse"@,
        "class "@,
        "implementier"@,
        "implement"@,
    ]
}

/// Words that ask for a summary, an explanation or a text in another language.
pub open spec fn summary_words() -> Seq<Seq<char>> {
    seq![
        "fasse zusammen"@,
        "zusammenfass"@,
        "summarize"@,
        "summary"@,
        "tl;dr"@,
        "erkläre"@,
        "erklär"@,
        "explain"@,
        "übersetze"@,
        "translate"@,
    ]
}

/// The task type of a text in lower case: the first group of words of which one occurs in it.
pub open spec fn task_of(t: Seq<char>) -> TaskType {
    if text::mentions(t, architecture_words()) {
        TaskType::Architecture
    } else if text::mentions(t, code_words()) {
        TaskType::CodeReview
    } else if text::mentions(t, summary_words()) {
        TaskType::Summarize
    } else {
        TaskType::SimpleText
    }
}

/// Whether one of `needles` occurs in `haystack`.
pub fn contains_any(haystack: &str, needles: &[&str]) -> (r: bool)
    ensures
        r == text::mentions(haystack@, text::views(needles@)),
{
    let mut i: usize = 0;
    while i < needles.len()
        invariant
            i <= needles@.len(),
            forall|j: int| 0 <= j < i ==> !text::is_part(#[trigger] needles@[j]@, haystack@),
        decreases needles.len() - i,
    {
        if text::contains(haystack, needles[i]) {
            assert(text::is_part(text::views(needles@)[i as int], haystack@));
            return true;
        }
        i += 1;
    }
    assert forall|j: int| 0 <= j < text::views(needles@).len() implies !#[trigger] text::is_part(
        text::views(needles@)[j],
        haystack@,
    ) by {
        assert(text::views(needles@)[j] == needles@[j]@);
    }
    false
}

/// The task type of a text that is already in lower case.
pub fn classify_lowered(t: &str) -> (r: TaskType)
    ensures
        r == task_of(t@),
{
    let architecture = [
        "architektur",
        "architecture",
        "konzept",
        "design pattern",
        "datenbank",
        "database schema",
        "security",
        "sicherheit",
        "skalier",
        "scalab",
        "trade-off",
        "tradeoff",
    ];
    assert(text::views(architecture@) =~= architecture_words());
    if contains_any(t, &architecture) {
        return TaskType::Architecture;
    }
    let code = [
        "refactor",
        "bug",
        "fix",
        "test",
        "typescript",
        "rust",
        "astro",
        "code review",
        "review this",
        "optimiere",
        "optimize",
        "accessibility",
        "function",
        "klasse",
        "class ",
        "implementier",
        "implement",
    ];
    assert(text::views(code@) =~= code_words());
    if contains_any(t, &code) {
        return TaskType::CodeReview;
    }
    let summary = [
        "fasse zusammen",
        "zusammenfass",
        "summarize",
        "summary",
        "tl;dr",
        "erkläre",
        "erklär",
        "explain",
        "übersetze",
        "translate",
    ];
    assert(text::views(summary@) =~= summary_words());
    if contains_any(t, &summary) {
        return TaskType::Summarize;
    }
    TaskType::SimpleText
}

/// The task type of a text, by the words that occur in it in any case. Whether a request is
/// private is not decided here: the privacy scan looks at more of the request than this text.
pub fn classify(t: &str) -> (r: TaskType)
    ensures
        r == task_of(text::lowercase(t@)),
{
    let lowered = text::to_lowercase(t);
    classify_lowered(lowered.as_str())
}

/// The task type that a model's answer in lower case names: the first of the four keys, in this
/// order, that occurs in it.
pub open spec fn named_task(a: Seq<char>) -> Option<TaskType> {
    if text::is_part(TaskType::Architecture.key(), a) {
        Some(TaskType::Architecture)
    } else if text::is_part(TaskType::CodeReview.key(), a) {
        Some(TaskType::CodeReview)
    } else if text::is_part(TaskType::Summarize.key(), a) {
        Some(TaskType::Summarize)
    } else if text::is_part(TaskType::SimpleText.key(), a) {
        Some(TaskType::SimpleText)
    } else {
        None
    }
}

/// The task type that an answer in lower case names.
pub fn parse_lowered(a: &str) -> (r: Option<TaskType>)
    ensures
        r == named_task(a@),
{
    if text::contains(a, "architecture") {
        Some(TaskType::Architecture)
    } else if text::contains(a, "code_review") {
        Some(TaskType::CodeReview)
    } else if text::contains(a, "summarize") {
        Some(TaskType::Summarize)
    } else if text::contains(a, "simple_text") {
        Some(TaskType::SimpleText)
    } else {
        None
    }
}

/// The task type that a model's answer names, however much it says besides.
pub fn parse_task_type(answer: &str) -> (r: Option<TaskType>)
    ensures
        r == named_task(text::lowercase(answer@)),
{
    let lowered = text::to_lowercase(answer);
    parse_lowered(lowered.as_str())
}

/// Whether a member holds definitions of tools or functions.
pub open spec fn holds_definitions(body: JVal, key: Seq<char>) -> bool {
    body.items_at(key).len() > 0
}

/// Whether a request defines tools.
pub open spec fn defines_tools(body: JVal) -> bool {
    holds_definitions(body, "tools"@) || holds_definitions(body, "functions"@)
}

/// The member under the first of two names that is there.
pub open spec fn either(v: JVal, first: Seq<char>, second: Seq<char>) -> Option<JVal> {
    match v.get(first) {
        Some(x) => Some(x),
        None => v.get(second),
    }
}

/// Whether a request asks for a tool to be used: it names one, or says anything but `none`.
pub open spec fn forces_tool(body: JVal) -> bool {
    ||| (either(body, "tool_choice"@, "function_call"@) matches Some(JVal::Str(s)) && s != "none"@)
    ||| (body.get("tool_choice"@) matches Some(JVal::Object(_)))
    ||| (body.get("function_call"@) matches Some(JVal::Object(_)))
}

/// Whether a message comes from a tool or calls one.
pub open spec fn speaks_of_tools(msg: JVal) -> bool {
    msg.text_at("role"@) == Some("tool"@) || msg.get("tool_calls"@) is Some
}

/// Whether a message of the request comes from a tool or calls one.
pub open spec fn history_has_tools(body: JVal) -> bool {
    let msgs = body.items_at("messages"@);
    exists|i: int| 0 <= i < msgs.len() && speaks_of_tools(#[trigger] msgs[i])
}

/// Whether a request has to go to a model that can call tools.
pub open spec fn needs_tools(body: JVal) -> bool {
    defines_tools(body) || forces_tool(body) || history_has_tools(body)
}

fn has_definitions(body: &Json, key: &str) -> (r: bool)
    ensures
        r == holds_definitions(body@, key@),
{
    match body.array_at(key) {
        Some(items) => {
            assert(json::item_values(items@).len() == items@.len());
            items.len() > 0
        },
        None => false,
    }
}

fn holds_object(body: &Json, key: &str) -> (r: bool)
    ensures
        r == (body@.get(key@) matches Some(JVal::Object(_))),
{
    broadcast use {json::lemma_array_view, json::lemma_object_view};
    match body.get(key) {
        Some(Json::Object(_)) => true,
        _ => false,
    }
}

fn has_choice(body: &Json) -> (r: bool)
    ensures
        r == forces_tool(body@),
{
    if holds_object(body, "tool_choice") || holds_object(body, "function_call") {
        return true;
    }
    let choice = match body.get("tool_choice") {
        Some(x) => Some(x),
        None => body.get("function_call"),
    };
    match choice {
        Some(x) => match x.as_str() {
            Some(s) => !text::same(s, "none"),
            None => false,
        },
        None => false,
    }
}

/// Whether a request has to go to a model that can call tools: it defines some, asks for one to
/// be used, or has results or calls of tools among its messages.
pub fn requires_tools(body: &Json) -> (r: bool)
    ensures
        r == needs_tools(body@),
{
    if has_definitions(body, "tools") || has_definitions(body, "functions") {
        return true;
    }
    if has_choice(body) {
        return true;
    }
    match body.array_at("messages") {
        Some(msgs) => {
            let ghost all = body@.items_at("messages"@);
            let mut i: usize = 0;
            while i < msgs.len()
                invariant
                    i <= msgs@.len(),
                    all == json::item_values(msgs@),
                    all == body@.items_at("messages"@),
                    forall|j: int| 0 <= j < i ==> !speaks_of_tools(#[trigger] all[j]),
                decreases msgs.len() - i,
            {
                assert(all[i as int] == msgs@[i as int]@);
                let from_tool = match msgs[i].text_at("role") {
                    Some(role) => text::same(role, "tool"),
                    None => false,
                };
                if from_tool || msgs[i].get("tool_calls").is_some() {
                    assert(speaks_of_tools(all[i as int]));
                    return true;
                }
                i += 1;
            }
        },
        None => {},
    }
    false
}

/// Whether a part of a message is an image.
pub open spec fn is_image(part: JVal) -> bool {
    match part.text_at("type"@) {
        Some(t) => t == "image_url"@ || t == "image"@ || t == "input_image"@,
        None => false,
    }
}

/// Whether a message holds an image.
pub open spec fn has_image(msg: JVal) -> bool {
    let parts = msg.items_at("content"@);
    exists|i: int| 0 <= i < parts.len() && is_image(#[trigger] parts[i])
}

/// Whether a request wants an answer in JSON.
pub open spec fn wants_json(body: JVal) -> bool {
    match body.at("response_format"@).text_at("type"@) {
        Some(t) => t == "json_schema"@ || t == "json_object"@,
        None => false,
    }
}

/// Whether a message of the request holds an image.
pub open spec fn shows_image(body: JVal) -> bool {
    let msgs = body.items_at("messages"@);
    exists|i: int| 0 <= i < msgs.len() && has_image(#[trigger] msgs[i])
}

/// The capabilities that a request needs besides tools.
pub open spec fn needed_capabilities(body: JVal) -> Seq<Seq<char>> {
    (if wants_json(body) {
        seq!["json_schema"@]
    } else {
        Seq::empty()
    }) + (if shows_image(body) {
        seq!["vision"@]
    } else {
        Seq::empty()
    })
}

/// Whether a message holds an image.
fn message_has_image(msg: &Json) -> (r: bool)
    ensures
        r == has_image(msg@),
{
    match msg.array_at("content") {
        Some(parts) => {
            let ghost all = msg@.items_at("content"@);
            let mut i: usize = 0;
            while i < parts.len()
                invariant
                    i <= parts@.len(),
                    all == json::item_values(parts@),
                    all == msg@.items_at("content"@),
                    forall|j: int| 0 <= j < i ==> !is_image(#[trigger] all[j]),
                decreases parts.len() - i,
            {
                assert(all[i as int] == parts@[i as int]@);
                let found = match parts[i].text_at("type") {
                    Some(t) => text::same(t, "image_url") || text::same(t, "image") || text::same(
                        t,
                        "input_image",
                    ),
                    None => false,
                };
                if found {
                    assert(is_image(all[i as int]));
                    return true;
                }
                i += 1;
            }
            false
        },
        None => false,
    }
}

/// The capabilities that a request needs besides tools: `json_schema` for an answer in JSON, and
/// `vision` where a message holds an image.
pub fn request_capabilities(body: &Json) -> (r: Vec<String>)
    ensures
        text::texts(r@) == needed_capabilities(body@),
{
    let mut caps: Vec<String> = Vec::new();
    let wants = match body.get("response_format") {
        Some(rf) => match rf.text_at("type") {
            Some(t) => text::same(t, "json_schema") || text::same(t, "json_object"),
            None => false,
        },
        None => false,
    };
    if wants {
        caps.push("json_schema".to_owned());
    }
    let mut seen = false;
    match body.array_at("messages") {
        Some(msgs) => {
            let ghost all = body@.items_at("messages"@);
            let mut i: usize = 0;
            while i < msgs.len() && !seen
                invariant
                    i <= msgs@.len(),
                    all == json::item_values(msgs@),
                    all == body@.items_at("messages"@),
                    seen ==> shows_image(body@),
                    !seen ==> forall|j: int| 0 <= j < i ==> !has_image(#[trigger] all[j]),
                decreases msgs.len() - i,
            {
                assert(all[i as int] == msgs@[i as int]@);
                if message_has_image(&msgs[i]) {
                    assert(has_image(all[i as int]));
                    seen = true;
                }
                i += 1;
            }
        },
        None => {},
    }
    if seen {
        caps.push("vision".to_owned());
    }
    assert(text::texts(caps@) =~= needed_capabilities(body@));
    caps
}

/// What the model that classifies is told.
pub open spec fn classify_prompt() -> Seq<char> {
    "You are a request classifier for a code-assistant router. Read the user's request and reply with exactly one of these labels and nothing else: architecture, code_review, summarize, simple_text. Use 'architecture' for system design, data modeling, scalability or security trade-offs; 'code_review' for writing, fixing, refactoring, reviewing or testing code; 'summarize' for summarizing, explaining or translating; 'simple_text' for anything else. Answer with the label only."@
}

/// A message with a role and a text.
pub open spec fn plain_message(role: Seq<char>, content: Seq<char>) -> JVal {
    JVal::empty_object().with("role"@, JVal::Str(role)).with("content"@, JVal::Str(content))
}

/// The question to the model that classifies.
pub open spec fn classify_question(model: Seq<char>, t: Seq<char>) -> JVal {
    JVal::empty_object().with("model"@, JVal::Str(model)).with("temperature"@, JVal::Uint(0)).with(
        "max_tokens"@,
        JVal::Uint(16),
    ).with(
        "messages"@,
        JVal::Array(
            seq![plain_message("system"@, classify_prompt()), plain_message("user"@, t)],
        ),
    )
}

fn make_message(role: &str, content: &str) -> (r: Json)
    ensures
        r@ == plain_message(role@, content@),
{
    let mut r = Json::object();
    r.set("role", Json::string(role));
    r.set("content", Json::string(content));
    r
}

/// Where the question to the model that classifies goes, and the question.
pub fn classify_request(cfg: &LlmClassifierConfig, t: &str) -> (r: (String, Json))
    ensures
        r.0@ == providers::trim_slashes(cfg.base_url@) + "/chat/completions"@,
        r.1@ == classify_question(cfg.model@, t@),
{
    let url = providers::join_url(cfg.base_url.as_str(), "/chat/completions");
    let mut body = Json::object();
    body.set("model", Json::string(cfg.model.as_str()));
    body.set("temperature", Json::uint(0));
    body.set("max_tokens", Json::uint(16));
    let mut msgs: Vec<Json> = Vec::new();
    msgs.push(
        make_message(
            "system",
            "You are a request classifier for a code-assistant router. Read the user's request and reply with exactly one of these labels and nothing else: architecture, code_review, summarize, simple_text. Use 'architecture' for system design, data modeling, scalability or security trade-offs; 'code_review' for writing, fixing, refactoring, reviewing or testing code; 'summarize' for summarizing, explaining or translating; 'simple_text' for anything else. Answer with the label only.",
        ),
    );
    msgs.push(make_message("user", t));
    assert(json::item_values(msgs@) =~= seq![
        plain_message("system"@, classify_prompt()),
        plain_message("user"@, t@),
    ]);
    body.set("messages", Json::array(msgs));
    (url, body)
}

/// The text of the first choice of an answer.
pub open spec fn first_answer(reply: JVal) -> Option<Seq<char>> {
    reply.at("choices"@).item(0).at("message"@).text_at("content"@)
}

/// The text of the first choice of an answer.
pub fn answer_of(reply: &Json) -> (r: Option<&str>)
    ensures
        match r {
            Some(s) => first_answer(reply@) == Some(s@),
            None => first_answer(reply@) is None,
        },
{
    match reply.array_at("choices") {
        Some(choices) => {
            let ghost all = reply@.items_at("choices"@);
            if choices.len() == 0 {
                assert(all.len() == 0);
                return None;
            }
            assert(all[0] == choices@[0]@);
            match choices[0].get("message") {
                Some(m) => m.text_at("content"),
                None => None,
            }
        },
        None => None,
    }
}

/// Whether a model is to be asked for the task type.
pub open spec fn asks_model(llm: Option<&LlmClassifierConfig>) -> bool {
    llm matches Some(cfg) && cfg.enabled
}

/// The task type of a text: what the model answered, where one is asked and its answer names a
/// task type, else what the words of the text say.
pub open spec fn answered_task(
    llm: Option<&LlmClassifierConfig>,
    reply: Option<&Json>,
    t: Seq<char>,
) -> TaskType {
    match (asks_model(llm), reply) {
        (true, Some(j)) => match first_answer(j@) {
            Some(a) => match named_task(text::lowercase(a)) {
                Some(task) => task,
                None => task_of(text::lowercase(t)),
            },
            None => task_of(text::lowercase(t)),
        },
        _ => task_of(text::lowercase(t)),
    }
}

/// The task type of a text: what the model answered, where one is asked and its answer names a
/// task type, else what the words of the text say. `reply` is the model's answer, if it gave a
/// successful one.
pub fn classify_with_llm(
    llm: Option<&LlmClassifierConfig>,
    reply: Option<&Json>,
    t: &str,
) -> (r: TaskType)
    ensures
        r == answered_task(llm, reply, t@),
{
    let asked = match llm {
        Some(cfg) => cfg.enabled,
        None => false,
    };
    if asked {
        match reply {
            Some(j) => match answer_of(j) {
                Some(a) => match parse_task_type(a) {
                    Some(task) => {
                        return task;
                    },
                    None => {},
                },
                None => {},
            },
            None => {},
        }
    }
    classify(t)
}

/// The key of a task type leads back to it, except for private requests, which no classifier
/// can answer; and different task types have different keys.
pub proof fn law_keys_tell_tasks_apart(a: TaskType, b: TaskType)
    ensures
        a.key() == b.key() ==> a == b,
        TaskType::keys().contains(a.key()),
{
    reveal_strlit("private_sensitive");
    reveal_strlit("architecture");
    reveal_strlit("code_review");
    reveal_strlit("summarize");
    reveal_strlit("simple_text");
    assert("code_review"@[0] == 'c' && "simple_text"@[0] == 's' && "summarize"@[0] == 's');
    assert("private_sensitive"@.len() == 17 && "architecture"@.len() == 12
        && "summarize"@.len() == 9 && "code_review"@.len() == 11 && "simple_text"@.len() == 11);
    let keys = TaskType::keys();
    assert(keys[0] == TaskType::PrivateSensitive.key());
    assert(keys[1] == TaskType::Architecture.key());
    assert(keys[2] == TaskType::CodeReview.key());
    assert(keys[3] == TaskType::Summarize.key());
    assert(keys[4] == TaskType::SimpleText.key());
}

/// No text, and no answer of a model, makes a request private: only the privacy scan does.
pub proof fn law_classifier_never_says_private(t: Seq<char>)
    ensures
        task_of(t) != TaskType::PrivateSensitive,
        named_task(t) != Some(TaskType::PrivateSensitive),
{
}

/// Which words decide the type of a task: one of the first group makes it a question of
/// architecture; without one of these, one of the second makes it work on code; without either, one
/// of the third makes it a summary; every other text is simple.
pub proof fn law_words_decide(t: Seq<char>)
    ensures
        ({
            let architecture = text::is_part("architektur"@, t)
                || text::is_part("architecture"@, t)
                || text::is_part("konzept"@, t)
                || text::is_part("design pattern"@, t)
                || text::is_part("datenbank"@, t)
                || text::is_part("database schema"@, t)
                || text::is_part("security"@, t)
                || text::is_part("sicherheit"@, t)
                || text::is_part("skalier"@, t)
                || text::is_part("scalab"@, t)
                || text::is_part("trade-off"@, t)
                || text::is_part("tradeoff"@, t);
            let code = text::is_part("refactor"@, t)
                || text::is_part("bug"@, t)
                || text::is_part("fix"@, t)
                || text::is_part("test"@, t)
                || text::is_part("typescript"@, t)
                || text::is_part("rust"@, t)
                || text::is_part("astro"@, t)
                || text::is_part("code review"@, t)
                || text::is_part("review this"@, t)
                || text::is_part("optimiere"@, t)
                || text::is_part("optimize"@, t)
                || text::is_part("accessibility"@, t)
                || text::is_part("function"@, t)
                || text::is_part("klasse"@, t)
                || text::is_part("class "@, t)
                || text::is_part("implementier"@, t)
                || text::is_part("implement"@, t);
            let summary = text::is_part("fasse zusammen"@, t)
                || text::is_part("zusammenfass"@, t)
                || text::is_part("summarize"@, t)
                || text::is_part("summary"@, t)
                || text::is_part("tl;dr"@, t)
                || text::is_part("erkläre"@, t)
                || text::is_part("erklär"@, t)
                || text::is_part("explain"@, t)
                || text::is_part("übersetze"@, t)
                || text::is_part("translate"@, t);
            &&& task_of(t) == TaskType::Architecture <==> architecture
            &&& task_of(t) == TaskType::CodeReview <==> !architecture && code
            &&& task_of(t) == TaskType::Summarize <==> !architecture && !code && summary
            &&& task_of(t) == TaskType::SimpleText <==> !architecture && !code && !summary
        }),
{
    let architecture = architecture_words();
    assert(architecture[0] == "architektur"@);
    assert(architecture[1] == "architecture"@);
    assert(architecture[2] == "konzept"@);
    assert(architecture[3] == "design pattern"@);
    assert(architecture[4] == "datenbank"@);
    assert(architecture[5] == "database schema"@);
    assert(architecture[6] == "security"@);
    assert(architecture[7] == "sicherheit"@);
    assert(architecture[8] == "skalier"@);
    assert(architecture[9] == "scalab"@);
    assert(architecture[10] == "trade-off"@);
    assert(architecture[11] == "tradeoff"@);
    if text::mentions(t, architecture) {
        let i = choose|i: int| 0 <= i < architecture.len() && #[trigger] text::is_part(architecture[i], t);
        assert(text::is_part(architecture[i], t));
    }
    let code = code_words();
    assert(code[0] == "refactor"@);
    assert(code[1] == "bug"@);
    assert(code[2] == "fix"@);
    assert(code[3] == "test"@);
    assert(code[4] == "typescript"@);
    assert(code[5] == "rust"@);
    assert(code[6] == "astro"@);
    assert(code[7] == "code review"@);
    assert(code[8] == "review this"@);
    assert(code[9] == "optimiere"@);
    assert(code[10] == "optimize"@);
    assert(code[11] == "accessibility"@);
    assert(code[12] == "function"@);
    assert(code[13] == "klasse"@);
    assert(code[14] == "class "@);
    assert(code[15] == "implementier"@);
    assert(code[16] == "implement"@);
    if text::mentions(t, code) {
        let i = choose|i: int| 0 <= i < code.len() && #[trigger] text::is_part(code[i], t);
        assert(text::is_part(code[i], t));
    }
    let summary = summary_words();
    assert(summary[0] == "fasse zusammen"@);
    assert(summary[1] == "zusammenfass"@);
    assert(summary[2] == "summarize"@);
    assert(summary[3] == "summary"@);
    assert(summary[4] == "tl;dr"@);
    assert(summary[5] == "erkläre"@);
    assert(summary[6] == "erklär"@);
    assert(summary[7] == "explain"@);
    assert(summary[8] == "übersetze"@);
    assert(summary[9] == "translate"@);
    if text::mentions(t, summary) {
        let i = choose|i: int| 0 <= i < summary.len() && #[trigger] text::is_part(summary[i], t);
        assert(text::is_part(summary[i], t));
    }
}

/// The names of the task types, which configurations and logs use.
pub proof fn law_names_of_tasks()
    ensures
        TaskType::PrivateSensitive.key() == "private_sensitive"@,
        TaskType::Architecture.key() == "architecture"@,
        TaskType::CodeReview.key() == "code_review"@,
        TaskType::Summarize.key() == "summarize"@,
        TaskType::SimpleText.key() == "simple_text"@,
        forall|a: TaskType, b: TaskType| #[trigger] a.key() == #[trigger] b.key() ==> a == b,
        forall|a: TaskType| TaskType::keys().contains(#[trigger] a.key()),
{
    reveal_strlit("private_sensitive");
    reveal_strlit("architecture");
    reveal_strlit("code_review");
    reveal_strlit("summarize");
    reveal_strlit("simple_text");
    assert("private_sensitive"@.len() == 17 && "architecture"@.len() == 12);
    assert("code_review"@.len() == 11 && "summarize"@.len() == 9 && "simple_text"@.len() == 11);
    assert("code_review"@[0] != "simple_text"@[0]);
    let keys = TaskType::keys();
    assert(keys[0] == "private_sensitive"@ && keys[1] == "architecture"@);
    assert(keys[2] == "code_review"@ && keys[3] == "summarize"@ && keys[4] == "simple_text"@);
}

/// The type that an answer of the model names; the model cannot call a text sensitive, and an
/// answer without one of the names says nothing.
pub proof fn law_answers_name_tasks(a: Seq<char>)
    ensures
        text::is_part("architecture"@, a) ==> named_task(a) == Some(TaskType::Architecture),
        named_task(a) == Some(TaskType::Architecture) ==> text::is_part("architecture"@, a),
        named_task(a) == Some(TaskType::CodeReview) <==> text::is_part("code_review"@, a)
            && !text::is_part("architecture"@, a),
        named_task(a) == Some(TaskType::Summarize) <==> text::is_part("summarize"@, a)
            && !text::is_part("architecture"@, a) && !text::is_part("code_review"@, a),
        named_task(a) == Some(TaskType::SimpleText) <==> text::is_part("simple_text"@, a)
            && !text::is_part("architecture"@, a) && !text::is_part("code_review"@, a)
            && !text::is_part("summarize"@, a),
        named_task(a) != Some(TaskType::PrivateSensitive),
{
}

/// Where a model is asked and the first choice of its answer names a type, that is the type of the
/// text; in every other case the words of the text decide.
pub proof fn law_model_or_words(
    llm: Option<&LlmClassifierConfig>,
    reply: Option<&Json>,
    t: Seq<char>,
)
    ensures
        ({
            let words = task_of(text::lowercase(t));
            let task = answered_task(llm, reply, t);
            &&& llm is None || reply is None ==> task == words
            &&& (llm matches Some(cfg) ==> !cfg.enabled ==> task == words)
            &&& (llm matches Some(cfg) ==> reply matches Some(j) ==> cfg.enabled ==> {
                let a = j@.at("choices"@).item(0).at("message"@).get("content"@);
                &&& !(a matches Some(JVal::Str(_))) ==> task == words
                &&& (a matches Some(JVal::Str(s)) ==> task == match named_task(
                    text::lowercase(s),
                ) {
                    Some(named) => named,
                    None => words,
                })
            })
        }),
{
}

/// When a request has to go to a model that can call tools: where it defines tools or functions,
/// where it chooses one or says anything but `none` of them, and where a message comes from a tool
/// or calls one.
pub proof fn law_when_tools_are_needed(body: JVal)
    ensures
        ({
            let tools = body.get("tools"@) matches Some(JVal::Array(v)) && v.len() > 0;
            let functions = body.get("functions"@) matches Some(JVal::Array(v)) && v.len() > 0;
            let choice = body.get("tool_choice"@);
            let call = body.get("function_call"@);
            let chosen = (choice matches Some(JVal::Object(_))) || (call matches Some(
                JVal::Object(_),
            ));
            let worded = (choice matches Some(JVal::Str(w)) && w != "none"@) || (choice is None
                && (call matches Some(JVal::Str(w)) && w != "none"@));
            let msgs = body.items_at("messages"@);
            let told = exists|i: int|
                0 <= i < msgs.len() && ((#[trigger] msgs[i]).get("role"@) == Some(
                    JVal::Str("tool"@),
                ) || msgs[i].get("tool_calls"@) is Some);
            needs_tools(body) <==> tools || functions || chosen || worded || told
        }),
{
    let msgs = body.items_at("messages"@);
    if history_has_tools(body) {
        let i = choose|i: int| 0 <= i < msgs.len() && speaks_of_tools(#[trigger] msgs[i]);
        assert(msgs[i].get("role"@) == Some(JVal::Str("tool"@)) || msgs[i].get("tool_calls"@) is Some);
    }
    assert forall|i: int|
        0 <= i < msgs.len() && ((#[trigger] msgs[i]).get("role"@) == Some(JVal::Str("tool"@))
            || msgs[i].get("tool_calls"@) is Some) implies history_has_tools(body) by {
        assert(speaks_of_tools(msgs[i]));
    }
}

/// What a request needs besides tools: a model that sees where any part of any message is an image,
/// and one that keeps to JSON where the answer is to be an object or to follow a schema; nothing
/// else.
pub proof fn law_what_else_is_needed(body: JVal, cap: Seq<char>)
    ensures
        ({
            let caps = needed_capabilities(body);
            let msgs = body.items_at("messages"@);
            let image = exists|i: int, p: int|
                0 <= i < msgs.len() && 0 <= p < msgs[i].items_at("content"@).len() && {
                    let kind = (#[trigger] msgs[i].items_at("content"@)[p]).get("type"@);
                    kind == Some(JVal::Str("image_url"@)) || kind == Some(JVal::Str("image"@))
                        || kind == Some(JVal::Str("input_image"@))
                };
            let format = body.at("response_format"@).get("type"@);
            let json = format == Some(JVal::Str("json_object"@)) || format == Some(
                JVal::Str("json_schema"@),
            );
            &&& caps.contains("vision"@) <==> image
            &&& caps.contains("json_schema"@) <==> json
            &&& caps.contains(cap) ==> cap == "vision"@ || cap == "json_schema"@
        }),
{
    reveal_strlit("vision");
    reveal_strlit("json_schema");
    assert("vision"@.len() == 6 && "json_schema"@.len() == 11);
    let caps = needed_capabilities(body);
    let msgs = body.items_at("messages"@);
    if wants_json(body) {
        assert(caps[0] == "json_schema"@);
    }
    if shows_image(body) {
        assert(caps[caps.len() - 1] == "vision"@);
        let i = choose|i: int| 0 <= i < msgs.len() && has_image(#[trigger] msgs[i]);
        let parts = msgs[i].items_at("content"@);
        let p = choose|p: int| 0 <= p < parts.len() && is_image(#[trigger] parts[p]);
        let kind = msgs[i].items_at("content"@)[p].get("type"@);
        assert(kind == Some(JVal::Str("image_url"@)) || kind == Some(JVal::Str("image"@)) || kind
            == Some(JVal::Str("input_image"@)));
    }
    assert forall|i: int, p: int|
        0 <= i < msgs.len() && 0 <= p < msgs[i].items_at("content"@).len() && is_image(
            #[trigger] msgs[i].items_at("content"@)[p],
        ) implies shows_image(body) by {
        assert(has_image(msgs[i]));
    }
}

proof fn lemma_question_names()
    ensures
        "model"@ != "temperature"@,
        "model"@ != "max_tokens"@,
        "model"@ != "messages"@,
        "temperature"@ != "max_tokens"@,
        "temperature"@ != "messages"@,
        "max_tokens"@ != "messages"@,
{
    reveal_strlit("model");
    reveal_strlit("temperature");
    reveal_strlit("max_tokens");
    reveal_strlit("messages");
    assert("model"@.len() == 5);
    assert("temperature"@.len() == 11);
    assert("max_tokens"@.len() == 10);
    assert("messages"@.len() == 8);
}

proof fn lemma_message_names()
    ensures
        "role"@ != "content"@,
{
    reveal_strlit("role");
    reveal_strlit("content");
    assert("role"@.len() == 4);
    assert("content"@.len() == 7);
}

/// What the model that classifies is asked: under its own name, for a short answer without chance,
/// with the instruction before the text, which is given as it is.
pub proof fn law_classifying_question(model: Seq<char>, t: Seq<char>)
    ensures
        ({
            let q = classify_question(model, t);
            let msgs = q.items_at("messages"@);
            &&& q.get("model"@) == Some(JVal::Str(model))
            &&& q.get("temperature"@) == Some(JVal::Uint(0))
            &&& q.get("max_tokens"@) == Some(JVal::Uint(16))
            &&& msgs.len() == 2
            &&& msgs[0].get("role"@) == Some(JVal::Str("system"@))
            &&& msgs[0].get("content"@) == Some(JVal::Str(classify_prompt()))
            &&& msgs[1].get("role"@) == Some(JVal::Str("user"@))
            &&& msgs[1].get("content"@) == Some(JVal::Str(t))
        }),
{
    lemma_question_names();
    lemma_message_names();
}

} // verus!
