//! Reading server-sent events for the usage that they report.
use vstd::prelude::*;
use vstd::string::*;
use crate::json::{JVal, Json};
use crate::{json, text};

verus! {

/// The position of the first line feed.
pub open spec fn line_feed(s: Seq<char>) -> Option<int>
    decreases s.len(),
{
    if s.len() == 0 {
        None
    } else if s[0] == '\n' {
        Some(0)
    } else {
        match line_feed(s.drop_first()) {
            Some(k) => Some(k + 1),
            None => None,
        }
    }
}

/// A line without the carriage return that it ends with.
pub open spec fn chomp(line: Seq<char>) -> Seq<char> {
    if line.len() > 0 && line.last() == '\r' {
        line.drop_last()
    } else {
        line
    }
}

/// The lines of a text. A line ends with a line feed, which may follow a carriage return; the
/// last one may end with the text.
pub open spec fn lines_of(s: Seq<char>) -> Seq<Seq<char>>
    decreases s.len(),
{
    if s.len() == 0 {
        Seq::empty()
    } else {
        match line_feed(s) {
            Some(k) => {
                proof {
                    lemma_line_feed(s);
                }
                seq![chomp(s.subrange(0, k))] + lines_of(s.subrange(k + 1, s.len() as int))
            },
            None => seq![s],
        }
    }
}

/// The value that a line of a stream carries, if any: lines that begin with `data:` do, except
/// the one that closes the stream.
pub open spec fn event_of(line: Seq<char>) -> Option<JVal> {
    match text::after(text::trim_front(line), "data:"@) {
        Some(rest) => {
            let payload = text::trimmed(rest);
            if payload == "[DONE]"@ {
                None
            } else {
                json::json_parse(payload)
            }
        },
        None => None,
    }
}

/// The values that lines carry, in order.
pub open spec fn events_of(lines: Seq<Seq<char>>) -> Seq<JVal>
    decreases lines.len(),
{
    if lines.len() == 0 {
        Seq::empty()
    } else {
        let rest = events_of(lines.drop_first());
        match event_of(lines[0]) {
            Some(v) => seq![v] + rest,
            None => rest,
        }
    }
}

/// What a stream reports of itself.
#[verifier::ext_equal]
pub struct UsageView {
    pub prompt: Option<u64>,
    pub completion: Option<u64>,
    pub finish: Option<Seq<char>>,
}

/// What is known after one more event; a later report counts.
pub open spec fn absorb(u: UsageView, v: JVal) -> UsageView {
    UsageView {
        prompt: match v.at("usage"@).uint_at("prompt_tokens"@) {
            Some(n) => Some(n),
            None => u.prompt,
        },
        completion: match v.at("usage"@).uint_at("completion_tokens"@) {
            Some(n) => Some(n),
            None => u.completion,
        },
        finish: match v.at("choices"@).first().text_at("finish_reason"@) {
            Some(s) => Some(s),
            None => u.finish,
        },
    }
}

/// What the events of a stream report together.
pub open spec fn usage_of(events: Seq<JVal>) -> UsageView
    decreases events.len(),
{
    if events.len() == 0 {
        UsageView { prompt: None, completion: None, finish: None }
    } else {
        absorb(usage_of(events.drop_last()), events.last())
    }
}

/// What a stream reports of itself.
#[derive(Debug)]
pub struct Usage {
    pub prompt: Option<u64>,
    pub completion: Option<u64>,
    pub finish: Option<String>,
}

impl View for Usage {
    type V = UsageView;

    open spec fn view(&self) -> UsageView {
        UsageView {
            prompt: self.prompt,
            completion: self.completion,
            finish: text::optional(self.finish),
        }
    }
}

/// A line feed is found where the first one stands.
pub proof fn lemma_line_feed(s: Seq<char>)
    ensures
        match line_feed(s) {
            Some(k) => 0 <= k < s.len() && s[k] == '\n' && forall|j: int|
                0 <= j < k ==> s[j] != '\n',
            None => forall|j: int| 0 <= j < s.len() ==> s[j] != '\n',
        },
    decreases s.len(),
{
    if s.len() > 0 && s[0] != '\n' {
        let rest = s.drop_first();
        lemma_line_feed(rest);
        match line_feed(rest) {
            Some(k) => {
                assert forall|j: int| 0 <= j < k + 1 implies s[j] != '\n' by {
                    if j > 0 {
                        assert(rest[j - 1] != '\n');
                    }
                }
            },
            None => {
                assert forall|j: int| 0 <= j < s.len() implies s[j] != '\n' by {
                    if j > 0 {
                        assert(rest[j - 1] != '\n');
                    }
                }
            },
        }
    }
}

/// Where the first line feed stands.
proof fn lemma_line_feed_at(s: Seq<char>, k: int)
    requires
        0 <= k <= s.len(),
        forall|j: int| 0 <= j < k ==> s[j] != '\n',
        k < s.len() ==> s[k] == '\n',
    ensures
        line_feed(s) == if k < s.len() {
            Some(k)
        } else {
            None
        },
{
    lemma_line_feed(s);
}

/// The value that a line carries.
fn read_event(line: &str) -> (r: Option<Json>)
    ensures
        match r {
            Some(v) => event_of(line@) == Some(v@),
            None => event_of(line@) is None,
        },
{
    match text::strip_prefix(text::trim_start(line), "data:") {
        Some(rest) => {
            let payload = text::trim(rest);
            if text::same(payload, "[DONE]") {
                None
            } else {
                Json::parse(payload)
            }
        },
        None => None,
    }
}

proof fn lemma_events_add(a: Seq<Seq<char>>, b: Seq<Seq<char>>)
    ensures
        events_of(a + b) == events_of(a) + events_of(b),
    decreases a.len(),
{
    if a.len() == 0 {
        assert(a + b =~= b);
        assert(events_of(a) + events_of(b) =~= events_of(b));
    } else {
        assert((a + b).drop_first() =~= a.drop_first() + b);
        lemma_events_add(a.drop_first(), b);
        match event_of(a[0]) {
            Some(v) => {
                assert(events_of(a + b) =~= events_of(a) + events_of(b));
            },
            None => {},
        }
    }
}

/// The values that a stream carries, in order.
pub fn sse_events(s: &str) -> (r: Vec<Json>)
    ensures
        json::item_values(r@) == events_of(lines_of(s@)),
{
    let cs = text::chars_of(s);
    let n: usize = cs.len();
    let mut r: Vec<Json> = Vec::new();
    let mut start: usize = 0;
    let ghost mut lines: Seq<Seq<char>> = Seq::empty();
    assert(s@.subrange(0, n as int) =~= s@);
    assert(lines + lines_of(s@) =~= lines_of(s@));
    assert(json::item_values(r@) =~= events_of(lines));
    while start < n
        invariant
            start <= n,
            n == cs@.len(),
            cs@ == s@,
            lines_of(s@) == lines + lines_of(s@.subrange(start as int, n as int)),
            json::item_values(r@) == events_of(lines),
        decreases n - start,
    {
        let ghost rest = s@.subrange(start as int, n as int);
        let mut k: usize = start;
        while k < n && cs[k] != '\n'
            invariant
                start <= k <= n,
                n == cs@.len(),
                cs@ == s@,
                forall|j: int| start <= j < k ==> cs@[j] != '\n',
            decreases n - k,
        {
            k += 1;
        }
        proof {
            assert forall|j: int| 0 <= j < k - start implies rest[j] != '\n' by {
                assert(cs@[start + j] != '\n');
            }
            lemma_line_feed_at(rest, k - start);
        }
        let end: usize = if k < n && k > start && cs[k - 1] == '\r' {
            k - 1
        } else {
            k
        };
        let line = s.substring_char(start, end);
        let next: usize = if k < n {
            k + 1
        } else {
            n
        };
        let ghost was = json::item_values(r@);
        proof {
            let tail = s@.subrange(next as int, n as int);
            if k < n {
                assert(rest.subrange(0, k - start) =~= s@.subrange(start as int, k as int));
                assert(chomp(rest.subrange(0, k - start)) =~= line@);
                assert(rest.subrange(k - start + 1, rest.len() as int) =~= tail);
                assert(line_feed(rest) == Some(k - start));
                assert(lines_of(rest) == seq![line@] + lines_of(tail));
            } else {
                assert(line@ =~= rest);
                assert(tail.len() == 0);
                assert(line_feed(rest) is None);
                assert(lines_of(rest) == seq![rest]);
                assert(seq![rest] + lines_of(tail) =~= seq![rest]);
            }
            assert(lines_of(rest) =~= seq![line@] + lines_of(tail));
            assert(lines + (seq![line@] + lines_of(tail)) =~= lines.push(line@) + lines_of(tail));
            assert(lines.push(line@) =~= lines + seq![line@]);
            lemma_events_add(lines, seq![line@]);
            assert(seq![line@].drop_first() =~= Seq::empty());
            reveal_with_fuel(events_of, 2);
        }
        match read_event(line) {
            Some(v) => {
                let ghost value = v@;
                r.push(v);
                assert(json::item_values(r@) =~= was.push(value));
                assert(events_of(seq![line@]) =~= seq![value]);
                assert(events_of(lines.push(line@)) =~= was.push(value));
            },
            None => {
                assert(events_of(seq![line@]) =~= Seq::empty());
                assert(events_of(lines.push(line@)) =~= was);
            },
        }
        proof {
            lines = lines.push(line@);
        }
        start = next;
    }
    assert(s@.subrange(n as int, n as int) =~= Seq::empty());
    assert(lines + Seq::<Seq<char>>::empty() =~= lines);
    r
}

/// What the events of a stream report together; a later report counts.
pub fn usage_of_events(events: &Vec<Json>) -> (r: Usage)
    ensures
        r@ == usage_of(json::item_values(events@)),
{
    let ghost all = json::item_values(events@);
    let mut u = Usage { prompt: None, completion: None, finish: None };
    let mut i: usize = 0;
    while i < events.len()
        invariant
            i <= events@.len(),
            all == json::item_values(events@),
            u@ == usage_of(all.subrange(0, i as int)),
        decreases events.len() - i,
    {
        let ghost more = all.subrange(0, i + 1);
        assert(more.drop_last() =~= all.subrange(0, i as int));
        assert(more.last() == events@[i as int]@);
        let v = &events[i];
        match v.get("usage") {
            Some(usage) => {
                match usage.uint_at("prompt_tokens") {
                    Some(n) => {
                        u.prompt = Some(n);
                    },
                    None => {},
                }
                match usage.uint_at("completion_tokens") {
                    Some(n) => {
                        u.completion = Some(n);
                    },
                    None => {},
                }
            },
            None => {},
        }
        match v.get("choices") {
            Some(choices) => match choices.first() {
                Some(choice) => match choice.text_at("finish_reason") {
                    Some(f) => {
                        u.finish = Some(f.to_owned());
                    },
                    None => {},
                },
                None => {},
            },
            None => {},
        }
        assert(u@ =~= usage_of(more));
        i += 1;
    }
    assert(all.subrange(0, i as int) =~= all);
    u
}

/// What a stream of server-sent events reports: the tokens of the prompt and of the answer, and
/// why the answer ended.
pub fn parse_stream_usage(acc: &Vec<u8>) -> (r: Usage)
    ensures
        r@ == usage_of(events_of(lines_of(text::utf8_lossy(acc@)))),
{
    let s = text::from_utf8_lossy(acc);
    let events = sse_events(s.as_str());
    usage_of_events(&events)
}

/// The last report of usage counts, whatever came before it.
pub proof fn law_last_usage_counts(events: Seq<JVal>, last: JVal)
    requires
        last.at("usage"@).uint_at("prompt_tokens"@) is Some,
        last.at("usage"@).uint_at("completion_tokens"@) is Some,
    ensures
        usage_of(events.push(last)).prompt == last.at("usage"@).uint_at("prompt_tokens"@),
        usage_of(events.push(last)).completion == last.at("usage"@).uint_at("completion_tokens"@),
{
    assert(events.push(last).drop_last() =~= events);
}

/// A line ends where a line feed stands. A carriage return before it does not belong to the line,
/// what follows makes further lines, and a rest without a line feed is the last line.
pub proof fn law_lines(line: Seq<char>, rest: Seq<char>)
    requires
        forall|j: int| 0 <= j < line.len() ==> line[j] != '\n',
    ensures
        lines_of(Seq::empty()).len() == 0,
        line.len() > 0 ==> lines_of(line) == seq![line],
        lines_of(line + seq!['\n'] + rest) == seq![
            if line.len() > 0 && line.last() == '\r' {
                line.drop_last()
            } else {
                line
            },
        ] + lines_of(rest),
{
    let n = line.len() as int;
    let all = line + seq!['\n'] + rest;
    lemma_line_feed_at(line, n);
    assert forall|j: int| 0 <= j < n implies all[j] != '\n' by {
        assert(all[j] == line[j]);
    }
    lemma_line_feed_at(all, n);
    assert(all.subrange(0, n) =~= line);
    assert(all.subrange(n + 1, all.len() as int) =~= rest);
}

/// A line of a stream carries a value where it begins with `data:`, behind white space at most,
/// and what follows can be read. The line with `[DONE]` carries none, nor does any other line.
pub proof fn law_lines_that_carry(line: Seq<char>, payload: Seq<char>)
    ensures
        text::trim_front(line) == "data:"@ + payload && text::trimmed(payload) != "[DONE]"@
            ==> event_of(line) == json::json_parse(text::trimmed(payload)),
        text::trim_front(line) == "data:"@ + payload && text::trimmed(payload) == "[DONE]"@
            ==> event_of(line) is None,
        event_of(line) is Some ==> text::begins_with(text::trim_front(line), "data:"@),
{
    text::law_head_and_rest(text::trim_front(line), "data:"@, payload);
}

/// The values of a stream come in the order of its lines, one for each line that carries one.
pub proof fn law_events_follow_the_lines(
    front: Seq<Seq<char>>,
    line: Seq<char>,
    back: Seq<Seq<char>>,
)
    ensures
        events_of(Seq::empty()).len() == 0,
        events_of(front + seq![line] + back) == events_of(front) + (match event_of(line) {
            Some(v) => seq![v],
            None => Seq::empty(),
        }) + events_of(back),
{
    lemma_events_add(front + seq![line], back);
    lemma_events_add(front, seq![line]);
    assert(seq![line].drop_first() =~= Seq::empty());
    assert(seq![line][0] == line);
    assert(events_of(seq![line].drop_first()) =~= Seq::empty());
    assert(events_of(seq![line]) =~= match event_of(line) {
        Some(v) => seq![v],
        None => Seq::empty(),
    });
}

/// Of each number, and of the reason why the answer stopped, the last event that reports it counts;
/// what no event reports is not known.
pub proof fn law_last_report_counts(events: Seq<JVal>, v: JVal, later: Seq<JVal>)
    ensures
        usage_of(Seq::empty()) == (UsageView { prompt: None, completion: None, finish: None }),
        (forall|i: int|
            0 <= i < later.len() ==> (#[trigger] later[i]).at("usage"@).uint_at(
                "prompt_tokens"@,
            ) is None) ==> usage_of(events + seq![v] + later).prompt == match v.at("usage"@).get(
            "prompt_tokens"@,
        ) {
            Some(JVal::Uint(n)) => Some(n),
            _ => usage_of(events).prompt,
        },
        (forall|i: int|
            0 <= i < later.len() ==> (#[trigger] later[i]).at("usage"@).uint_at(
                "completion_tokens"@,
            ) is None) ==> usage_of(events + seq![v] + later).completion == match v.at(
            "usage"@,
        ).get("completion_tokens"@) {
            Some(JVal::Uint(n)) => Some(n),
            _ => usage_of(events).completion,
        },
        (forall|i: int|
            0 <= i < later.len() ==> (#[trigger] later[i]).at("choices"@).first().text_at(
                "finish_reason"@,
            ) is None) ==> usage_of(events + seq![v] + later).finish == match v.at(
            "choices"@,
        ).first().get("finish_reason"@) {
            Some(JVal::Str(s)) => Some(s),
            _ => usage_of(events).finish,
        },
    decreases later.len(),
{
    let all = events + seq![v] + later;
    if later.len() == 0 {
        assert(all.drop_last() =~= events);
        assert(all.last() == v);
    } else {
        let rest = later.drop_last();
        law_last_report_counts(events, v, rest);
        assert(all.drop_last() =~= events + seq![v] + rest);
        assert(all.last() == later[later.len() - 1]);
        assert forall|i: int| 0 <= i < rest.len() implies rest[i] == #[trigger] later[i] by {}
        assert forall|i: int| 0 <= i < rest.len() implies #[trigger] rest[i] == later[i] by {}
    }
}

} // verus!
