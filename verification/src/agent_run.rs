//! What running agents show: the age of a session, and the text of each event of an
//! agent's output stream.

use vstd::prelude::*;
use crate::text::{dec, int_dec, push_i64, push_str, push_u64, str_eq};

verus! {

/// A session's age: whole minutes (at least 1) under an hour, whole hours under a day,
/// whole days beyond.
pub open spec fn spec_run_duration(minutes: i64) -> Seq<char> {
    if minutes < 60 {
        int_dec(if minutes < 1 { 1 } else { minutes as int }) + "m"@
    } else if minutes < 1440 {
        dec((minutes / 60) as nat) + "h"@
    } else {
        dec((minutes / 1440) as nat) + "d"@
    }
}

/// Shows a session's age given in whole minutes; see [`spec_run_duration`].
pub fn format_duration(minutes: i64) -> (r: String)
    ensures
        r@ == spec_run_duration(minutes),
{
    let mut r = String::new();
    if minutes < 60 {
        push_i64(&mut r, if minutes < 1 { 1 } else { minutes });
        push_str(&mut r, "m");
    } else if minutes < 1440 {
        push_u64(&mut r, (minutes / 60) as u64);
        push_str(&mut r, "h");
    } else {
        push_u64(&mut r, (minutes / 1440) as u64);
        push_str(&mut r, "d");
    }
    r
}

/// The fields of a stream event that decide how it shows, each `None` where the event
/// lacks it or it is not a string: the `type`; for each item of `message.content` (when
/// that is an array) its `text`; `delta.text`; `name`; and `error.message`.
pub struct StreamEvent {
    pub kind: Option<String>,
    pub content_texts: Option<Vec<Option<String>>>,
    pub delta_text: Option<String>,
    pub name: Option<String>,
    pub error_message: Option<String>,
}

/// How an event shows: what goes to standard output, whether standard output is then
/// flushed, and what goes to standard error.
pub struct EventText {
    pub out: String,
    pub flush: bool,
    pub err: String,
}

pub open spec fn opt_view(o: Option<String>) -> Option<Seq<char>> {
    match o {
        Some(s) => Some(s@),
        None => None,
    }
}

/// Each present text followed by a newline.
pub open spec fn texts_lines(ts: Seq<Option<Seq<char>>>) -> Seq<char>
    decreases ts.len(),
{
    if ts.len() == 0 {
        Seq::<char>::empty()
    } else {
        texts_lines(ts.drop_last()) + match ts.last() {
            Some(t) => t + "\n"@,
            None => Seq::<char>::empty(),
        }
    }
}

pub open spec fn content_view(v: Seq<Option<String>>) -> Seq<Option<Seq<char>>> {
    v.map_values(|o: Option<String>| opt_view(o))
}

/// The output of an event, as (standard output, flush, standard error): an assistant
/// message prints its texts one per line; a content delta prints its text as is and
/// flushes; a tool event prints `[tool: <name>]`; an error prints `error: <message>` to
/// standard error; start and stop of a message print nothing; any other type prints
/// `[<type>]`, with `unknown` for an event without a type.
pub open spec fn spec_event_text(e: StreamEvent) -> (Seq<char>, bool, Seq<char>) {
    let kind = match e.kind {
        Some(k) => k@,
        None => "unknown"@,
    };
    let nothing = (Seq::<char>::empty(), false, Seq::<char>::empty());
    if kind == "assistant"@ {
        match e.content_texts {
            Some(v) => (texts_lines(content_view(v@)), false, Seq::<char>::empty()),
            None => nothing,
        }
    } else if kind == "content_block_delta"@ {
        match e.delta_text {
            Some(t) => (t@, true, Seq::<char>::empty()),
            None => nothing,
        }
    } else if kind == "tool_use"@ || kind == "tool_result"@ {
        match e.name {
            Some(n) => ("[tool: "@ + n@ + "]\n"@, false, Seq::<char>::empty()),
            None => nothing,
        }
    } else if kind == "error"@ {
        match e.error_message {
            Some(m) => (Seq::<char>::empty(), false, "error: "@ + m@ + "\n"@),
            None => nothing,
        }
    } else if kind == "message_stop"@ || kind == "message_start"@ {
        nothing
    } else {
        ("["@ + kind + "]\n"@, false, Seq::<char>::empty())
    }
}

fn content_lines(v: &Vec<Option<String>>) -> (r: String)
    ensures
        r@ == texts_lines(content_view(v@)),
{
    let ghost cv = content_view(v@);
    let mut r = String::new();
    let mut i: usize = 0;
    while i < v.len()
        invariant
            i <= v.len(),
            cv == content_view(v@),
            r@ == texts_lines(cv.take(i as int)),
        decreases v.len() - i,
    {
        match &v[i] {
            Some(t) => {
                push_str(&mut r, t.as_str());
                push_str(&mut r, "\n");
            },
            None => {},
        }
        assert(cv.take(i + 1).drop_last() =~= cv.take(i as int));
        assert(r@ =~= texts_lines(cv.take(i + 1)));
        i += 1;
    }
    assert(cv.take(v.len() as int) =~= cv);
    r
}

/// How a stream event shows; see [`spec_event_text`].
pub fn event_text(e: &StreamEvent) -> (r: EventText)
    ensures
        (r.out@, r.flush, r.err@) == spec_event_text(*e),
{
    let kind: &str = match &e.kind {
        Some(k) => k.as_str(),
        None => "unknown",
    };
    let mut out = String::new();
    let mut err = String::new();
    let mut flush = false;
    if str_eq(kind, "assistant") {
        match &e.content_texts {
            Some(v) => {
                out = content_lines(v);
            },
            None => {},
        }
    } else if str_eq(kind, "content_block_delta") {
        match &e.delta_text {
            Some(t) => {
                push_str(&mut out, t.as_str());
                flush = true;
            },
            None => {},
        }
    } else if str_eq(kind, "tool_use") || str_eq(kind, "tool_result") {
        match &e.name {
            Some(n) => {
                push_str(&mut out, "[tool: ");
                push_str(&mut out, n.as_str());
                push_str(&mut out, "]\n");
            },
            None => {},
        }
    } else if str_eq(kind, "error") {
        match &e.error_message {
            Some(m) => {
                push_str(&mut err, "error: ");
                push_str(&mut err, m.as_str());
                push_str(&mut err, "\n");
            },
            None => {},
        }
    } else if str_eq(kind, "message_stop") || str_eq(kind, "message_start") {
    } else {
        push_str(&mut out, "[");
        push_str(&mut out, kind);
        push_str(&mut out, "]\n");
    }
    proof {
        assert(out@ =~= spec_event_text(*e).0);
        assert(err@ =~= spec_event_text(*e).2);
    }
    EventText { out, flush, err }
}

} // verus!
