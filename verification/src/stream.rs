//! What is inside the chunks of a response: errors, and candidates without content.

use crate::json;
use crate::json::{Json, JsonView};
use crate::status;
use crate::text;
use crate::text::{chars_of, contains, same_str, string_of, trim};
use vstd::prelude::*;

verus! {

/// The first characters of `s` are those of a JSON object or array.
pub open spec fn looks_like_json(s: Seq<char>) -> bool {
    s.len() > 0 && (s[0] == '{' || s[0] == '[')
}

/// The data of a server-sent event that is written on one line.
pub open spec fn event_data(line: Seq<char>) -> Option<Seq<char>> {
    let body = text::trimmed(line);
    if text::begins(body, "data:"@) {
        Some(text::trimmed(body.skip("data:"@.len() as int)))
    } else {
        None
    }
}

/// The data of a server-sent event that is written on one line.
fn event_data_of<'a>(line: &'a [char]) -> (r: Option<&'a [char]>)
    ensures
        match r {
            Some(data) => event_data(line@) == Some(data@),
            None => event_data(line@) is None,
        },
{
    let body = trim(line);
    let tag = chars_of("data:");
    if text::matches_at(body, &tag, 0) {
        let rest = vstd::slice::slice_subrange(body, tag.len(), body.len());
        proof {
            assert(rest@ =~= body@.skip(tag@.len() as int));
        }
        Some(trim(rest))
    } else {
        None
    }
}

/// Whether the first characters of `s` are those of a JSON object or array.
fn starts_like_json(s: &[char]) -> (r: bool)
    ensures
        r == looks_like_json(s@),
{
    s.len() > 0 && (s[0] == '{' || s[0] == '[')
}

/// The text that a chunk holds besides white space, less the tag of a server-sent event.
pub open spec fn payload(s: Seq<char>) -> Seq<char> {
    match event_data(s) {
        Some(data) => data,
        None => text::trimmed(s),
    }
}

/// The text that a chunk holds besides white space, less the tag of a server-sent event.
fn payload_of<'a>(s: &'a [char]) -> (r: &'a [char])
    ensures
        r@ == payload(s@),
{
    match event_data_of(s) {
        Some(data) => data,
        None => trim(s),
    }
}

/// A number that may be missing or null; anything else is malformed.
pub open spec fn optional_number(value: Option<JsonView>) -> Option<Option<u64>> {
    match value {
        None => Some(None),
        Some(JsonView::Null) => Some(None),
        Some(JsonView::Number(Some(n))) => Some(Some(n)),
        _ => None,
    }
}

/// A text that may be missing or null; anything else is malformed.
pub open spec fn optional_text(value: Option<JsonView>) -> Option<Option<Seq<char>>> {
    match value {
        None => Some(None),
        Some(JsonView::Null) => Some(None),
        Some(JsonView::Text(t)) => Some(Some(t)),
        _ => None,
    }
}

/// What an error object tells: a code, a message and the name of a status.
pub open spec fn details(
    code: Option<JsonView>,
    message: Option<JsonView>,
    status: Option<JsonView>,
) -> Option<(Option<u64>, Option<Seq<char>>, Option<Seq<char>>)> {
    match (optional_number(code), optional_text(message), optional_text(status)) {
        (Some(c), Some(m), Some(s)) => Some((c, m, s)),
        _ => None,
    }
}

/// What an error object tells, whether its three parts are named, each once, or stand in a row.
pub open spec fn error_details(value: JsonView) -> Option<
    (Option<u64>, Option<Seq<char>>, Option<Seq<char>>),
> {
    match value {
        JsonView::Object(_) => if value.repeats("code"@) || value.repeats("message"@)
            || value.repeats("status"@) {
            None
        } else {
            details(value.field("code"@), value.field("message"@), value.field("status"@))
        },
        JsonView::Array(items) => if items.len() == 3 {
            details(Some(items[0]), Some(items[1]), Some(items[2]))
        } else {
            None
        },
        _ => None,
    }
}

/// What the `error` of a response tells, whether it is named, once, or stands by itself in a row.
pub open spec fn wrapped_error(value: JsonView) -> Option<
    (Option<u64>, Option<Seq<char>>, Option<Seq<char>>),
> {
    match value {
        JsonView::Object(_) => match value.field("error"@) {
            Some(error) if !value.repeats("error"@) => error_details(error),
            _ => None,
        },
        JsonView::Array(items) => if items.len() == 1 {
            error_details(items[0])
        } else {
            None
        },
        _ => None,
    }
}

/// What the first of a row of nothing but responses with an error tells.
pub open spec fn row_error(value: JsonView) -> Option<
    (Option<u64>, Option<Seq<char>>, Option<Seq<char>>),
> {
    match value {
        JsonView::Array(items) => if items.len() > 0 && forall|i: int|
            0 <= i < items.len() ==> wrapped_error(#[trigger] items[i]) is Some {
            wrapped_error(items[0])
        } else {
            None
        },
        _ => None,
    }
}

/// What the first error of a row of responses tells, or else the error of a response.
pub open spec fn stream_error(value: JsonView) -> Option<
    (Option<u64>, Option<Seq<char>>, Option<Seq<char>>),
> {
    match row_error(value) {
        Some(d) => Some(d),
        None => wrapped_error(value),
    }
}

/// The HTTP status that goes with the name of a status of the Gemini API.
pub open spec fn named_status(name: Seq<char>) -> u16 {
    if name == "UNAVAILABLE"@ {
        503
    } else if name == "RESOURCE_EXHAUSTED"@ {
        429
    } else if name == "INTERNAL"@ {
        500
    } else if name == "DEADLINE_EXCEEDED"@ {
        504
    } else if name == "BAD_GATEWAY"@ {
        502
    } else if name == "INVALID_ARGUMENT"@ {
        400
    } else if name == "PERMISSION_DENIED"@ {
        403
    } else if name == "NOT_FOUND"@ {
        404
    } else if name == "FAILED_PRECONDITION"@ {
        400
    } else if name == "UNAUTHENTICATED"@ {
        401
    } else {
        500
    }
}

/// The HTTP status that goes with the name of a status of the Gemini API.
fn status_of_name(name: &str) -> (r: u16)
    ensures
        r == named_status(name@),
{
    if same_str(name, "UNAVAILABLE") {
        503
    } else if same_str(name, "RESOURCE_EXHAUSTED") {
        429
    } else if same_str(name, "INTERNAL") {
        500
    } else if same_str(name, "DEADLINE_EXCEEDED") {
        504
    } else if same_str(name, "BAD_GATEWAY") {
        502
    } else if same_str(name, "INVALID_ARGUMENT") {
        400
    } else if same_str(name, "PERMISSION_DENIED") {
        403
    } else if same_str(name, "NOT_FOUND") {
        404
    } else if same_str(name, "FAILED_PRECONDITION") {
        400
    } else if same_str(name, "UNAUTHENTICATED") {
        401
    } else {
        500
    }
}

/// The status and message of the error that a document reports: its code, of which 16 bits are
/// kept, else the status that it names, else 500. A code that HTTP does not allow is no error.
pub open spec fn reported_error(value: JsonView) -> Option<(u16, Seq<char>)> {
    match stream_error(value) {
        Some((code, message, name)) => {
            let status = match code {
                Some(c) => (c % 0x1_0000) as u16,
                None => match name {
                    Some(n) => named_status(n),
                    None => status::INTERNAL_SERVER_ERROR,
                },
            };
            if status::valid(status) {
                Some(
                    (
                        status,
                        match message {
                            Some(m) => m,
                            None => "Unknown in-stream error"@,
                        },
                    ),
                )
            } else {
                None
            }
        },
        None => None,
    }
}

/// What an error object tells.
struct ErrorDetails {
    code: Option<u64>,
    message: Option<String>,
    status: Option<String>,
}

impl View for ErrorDetails {
    type V = (Option<u64>, Option<Seq<char>>, Option<Seq<char>>);

    closed spec fn view(&self) -> (Option<u64>, Option<Seq<char>>, Option<Seq<char>>) {
        (self.code, text::text_of(self.message), text::text_of(self.status))
    }
}

/// The view of an optional document.
pub open spec fn view_of_json(value: Option<&Json>) -> Option<JsonView> {
    match value {
        Some(json) => Some(json@),
        None => None,
    }
}

/// A number that may be missing or null.
fn read_number(value: Option<&Json>) -> (r: Option<Option<u64>>)
    ensures
        r == optional_number(view_of_json(value)),
{
    match value {
        None => Some(None),
        Some(Json::Null) => Some(None),
        Some(Json::Number(Some(n))) => Some(Some(*n)),
        _ => None,
    }
}

/// A text that may be missing or null.
fn read_text(value: Option<&Json>) -> (r: Option<Option<String>>)
    ensures
        match r {
            Some(t) => optional_text(view_of_json(value)) == Some(text::text_of(t)),
            None => optional_text(view_of_json(value)) is None,
        },
{
    match value {
        None => Some(None),
        Some(Json::Null) => Some(None),
        Some(Json::Text(t)) => Some(Some(t.clone())),
        _ => None,
    }
}

/// What an error object tells: a code, a message and the name of a status.
fn read_details(code: Option<&Json>, message: Option<&Json>, status: Option<&Json>) -> (r: Option<
    ErrorDetails,
>)
    ensures
        match r {
            Some(d) => details(view_of_json(code), view_of_json(message), view_of_json(status))
                == Some(d@),
            None => details(
                view_of_json(code),
                view_of_json(message),
                view_of_json(status),
            ) is None,
        },
{
    match (read_number(code), read_text(message), read_text(status)) {
        (Some(code), Some(message), Some(status)) => Some(ErrorDetails { code, message, status }),
        _ => None,
    }
}

/// What an error object tells, whether its three parts are named, each once, or stand in a row.
fn read_error_details(value: &Json) -> (r: Option<ErrorDetails>)
    ensures
        match r {
            Some(d) => error_details(value@) == Some(d@),
            None => error_details(value@) is None,
        },
{
    match value {
        Json::Object(_) => {
            proof {
                json::object_parts(*value);
            }
            if value.has_repeated("code") || value.has_repeated("message") || value.has_repeated(
                "status",
            ) {
                None
            } else {
                read_details(value.get("code"), value.get("message"), value.get("status"))
            }
        },
        Json::Array(items) => {
            proof {
                json::array_parts(*value);
            }
            if items.len() == 3 {
                read_details(Some(&items[0]), Some(&items[1]), Some(&items[2]))
            } else {
                None
            }
        },
        _ => None,
    }
}

/// What the `error` of a response tells, whether it is named, once, or stands by itself in a row.
fn read_wrapped_error(value: &Json) -> (r: Option<ErrorDetails>)
    ensures
        match r {
            Some(d) => wrapped_error(value@) == Some(d@),
            None => wrapped_error(value@) is None,
        },
{
    match value {
        Json::Object(_) => {
            proof {
                json::object_parts(*value);
            }
            match value.get("error") {
                Some(error) => if value.has_repeated("error") {
                    None
                } else {
                    read_error_details(error)
                },
                None => None,
            }
        },
        Json::Array(items) => {
            proof {
                json::array_parts(*value);
            }
            if items.len() == 1 {
                read_error_details(&items[0])
            } else {
                None
            }
        },
        _ => None,
    }
}

/// What the first of a row of nothing but responses with an error tells.
fn read_row_error(value: &Json) -> (r: Option<ErrorDetails>)
    ensures
        match r {
            Some(d) => row_error(value@) == Some(d@),
            None => row_error(value@) is None,
        },
{
    match value {
        Json::Array(items) => {
            proof {
                json::array_parts(*value);
            }
            let mut i: usize = 0;
            while i < items.len()
                invariant
                    i <= items.len(),
                    value@ is Array,
                    value@->Array_0.len() == items@.len(),
                    forall|k: int|
                        0 <= k < items@.len() ==> #[trigger] value@->Array_0[k] == items@[k]@,
                    forall|k: int|
                        0 <= k < i ==> wrapped_error(#[trigger] value@->Array_0[k]) is Some,
                decreases items.len() - i,
            {
                if read_wrapped_error(&items[i]).is_none() {
                    proof {
                        assert(wrapped_error(value@->Array_0[i as int]) is None);
                    }
                    return None;
                }
                i += 1;
            }
            if items.len() > 0 {
                read_wrapped_error(&items[0])
            } else {
                None
            }
        },
        _ => None,
    }
}

/// What the first error of a row of responses tells, or else the error of a response.
fn read_stream_error(value: &Json) -> (r: Option<ErrorDetails>)
    ensures
        match r {
            Some(d) => stream_error(value@) == Some(d@),
            None => stream_error(value@) is None,
        },
{
    match read_row_error(value) {
        Some(d) => Some(d),
        None => read_wrapped_error(value),
    }
}

/// Whether a document has the shape of one that reports an error.
pub fn may_report_error(value: &Json) -> (r: bool)
    ensures
        r == (stream_error(value@) is Some),
{
    read_stream_error(value).is_some()
}

/// `r` is the status and message that `error` gives, or both are missing.
pub open spec fn is_error(r: Option<(u16, String)>, error: Option<(u16, Seq<char>)>) -> bool {
    match r {
        Some((status, message)) => error == Some((status, message@)),
        None => error is None,
    }
}

/// The status and message of the error that a document reports.
pub fn error_in_json(value: &Json) -> (r: Option<(u16, String)>)
    ensures
        is_error(r, reported_error(value@)),
{
    match read_stream_error(value) {
        Some(details) => {
            let status: u16 = match details.code {
                Some(code) => {
                    proof {
                        assert(code as u16 == code % 0x1_0000) by (bit_vector);
                    }
                    #[verifier::truncate]
                    (code as u16)
                },
                None => match &details.status {
                    Some(name) => status_of_name(name.as_str()),
                    None => status::INTERNAL_SERVER_ERROR,
                },
            };
            if status::is_valid(status) {
                let message = match details.message {
                    Some(m) => m,
                    None => "Unknown in-stream error".to_owned(),
                };
                Some((status, message))
            } else {
                None
            }
        },
        None => None,
    }
}

/// The error that a text reports, where it is a JSON object or array. A field that comes again
/// counts as well, so a document that may report one is looked at as it is written.
pub open spec fn error_in_data(data: Seq<char>) -> Option<(u16, Seq<char>)> {
    if looks_like_json(data) {
        match json::document(data) {
            Some(value) if stream_error(value) is Some => match json::as_written(
                vstd::utf8::encode_utf8(data),
            ) {
                Some(written) => reported_error(written),
                None => None,
            },
            _ => None,
        }
    } else {
        None
    }
}

/// The error that a text reports, where it is a JSON object or array.
fn read_error(data: &[char]) -> (r: Option<(u16, String)>)
    ensures
        is_error(r, error_in_data(data@)),
{
    if !starts_like_json(data) {
        return None;
    }
    let body = string_of(data);
    match json::parse(body.as_str()) {
        Some(value) => if may_report_error(&value) {
            match json::parse_as_written(body.as_str().as_bytes()) {
                Some(written) => error_in_json(&written),
                None => None,
            }
        } else {
            None
        },
        None => None,
    }
}

/// The error that the first event to report one reports.
pub open spec fn first_event_error(lines: Seq<Seq<char>>) -> Option<(u16, Seq<char>)>
    decreases lines.len(),
{
    if lines.len() == 0 {
        None
    } else {
        let here = match event_data(lines[0]) {
            Some(data) => error_in_data(data),
            None => None,
        };
        match here {
            Some(error) => Some(error),
            None => first_event_error(lines.drop_first()),
        }
    }
}

/// The error in a chunk of a response: that of the first event to report one, else that of the
/// chunk taken as a whole.
pub open spec fn chunk_error(bytes: Seq<u8>) -> Option<(u16, Seq<char>)> {
    if vstd::utf8::valid_utf8(bytes) {
        let body = vstd::utf8::decode_utf8(bytes);
        match first_event_error(text::line_pieces(body)) {
            Some(error) => Some(error),
            None => error_in_data(payload(body)),
        }
    } else {
        None
    }
}

/// Extracts error code and message from in-stream JSON or SSE event chunks.
pub fn parse_in_stream_error(bytes: &[u8]) -> (r: Option<(u16, String)>)
    ensures
        is_error(r, chunk_error(bytes@)),
{
    let body = match text::from_utf8(bytes) {
        Some(t) => chars_of(t),
        None => {
            return None;
        },
    };
    let lines = text::lines(&body);
    let ghost all = text::slices(lines@);
    proof {
        assert(all.skip(0) =~= all);
    }
    let mut i: usize = 0;
    while i < lines.len()
        invariant
            i <= lines.len(),
            vstd::utf8::valid_utf8(bytes@),
            body@ == vstd::utf8::decode_utf8(bytes@),
            all == text::slices(lines@),
            all == text::line_pieces(body@),
            first_event_error(all) == first_event_error(all.skip(i as int)),
        decreases lines.len() - i,
    {
        proof {
            assert(all.skip(i as int)[0] == lines@[i as int]@);
            assert(all.skip(i as int).drop_first() =~= all.skip(i + 1));
        }
        if let Some(data) = event_data_of(lines[i]) {
            if let Some(error) = read_error(data) {
                return Some(error);
            }
        }
        i += 1;
    }
    read_error(payload_of(&body))
}

/// One of `parts` holds text that is more than white space.
pub open spec fn has_text(parts: Seq<JsonView>) -> bool {
    exists|k: int|
        0 <= k < parts.len() && ((#[trigger] parts[k]).text_field("text"@) matches Some(t)
            && text::trimmed(t).len() > 0)
}

/// The first of `candidates` brings nothing: there is none, it is null, its content is missing or
/// null, or no part of its content holds text. A candidate that says it is `clean` or `partial`
/// needs no content.
pub open spec fn no_content(candidates: JsonView) -> bool {
    match candidates {
        JsonView::Array(list) => {
            ||| list.len() == 0
            ||| list[0] is Null
            ||| match list[0].field("content"@) {
                None => needs_content(list[0]),
                Some(JsonView::Null) => needs_content(list[0]),
                Some(content) => match content.field("parts"@) {
                    Some(JsonView::Array(parts)) => !has_text(parts),
                    _ => true,
                },
            }
        },
        _ => false,
    }
}

/// `candidate` does not say that it is `clean` or `partial`.
pub open spec fn needs_content(candidate: JsonView) -> bool {
    candidate.field("clean"@) is None && candidate.field("partial"@) is None
}

/// Whether one of `parts` holds text that is more than white space; `views` are their views.
fn any_text(parts: &Vec<Json>, Ghost(views): Ghost<Seq<JsonView>>) -> (r: bool)
    requires
        views.len() == parts@.len(),
        forall|k: int| 0 <= k < parts@.len() ==> #[trigger] views[k] == parts@[k]@,
    ensures
        r == has_text(views),
{
    let mut i: usize = 0;
    while i < parts.len()
        invariant
            i <= parts.len(),
            views.len() == parts@.len(),
            forall|k: int| 0 <= k < parts@.len() ==> #[trigger] views[k] == parts@[k]@,
            forall|k: int|
                0 <= k < i ==> !((#[trigger] views[k]).text_field("text"@) matches Some(t)
                    && text::trimmed(t).len() > 0),
        decreases parts.len() - i,
    {
        proof {
            assert(views[i as int] == parts@[i as int]@);
        }
        if let Some(t) = parts[i].get_text("text") {
            if trim(&chars_of(t.as_str())).len() > 0 {
                return true;
            }
        }
        i += 1;
    }
    false
}

/// Whether the first of `candidates` brings nothing.
fn lacks_content(candidates: &Json) -> (r: bool)
    ensures
        r == no_content(candidates@),
{
    match candidates {
        Json::Array(list) => {
            proof {
                json::array_parts(*candidates);
            }
            if list.len() == 0 {
                return true;
            }
            let first = &list[0];
            proof {
                assert(candidates@->Array_0[0] == first@);
            }
            match first {
                Json::Null => {
                    return true;
                },
                _ => {},
            }
            match first.get("content") {
                None => first.get("clean").is_none() && first.get("partial").is_none(),
                Some(Json::Null) => first.get("clean").is_none() && first.get("partial").is_none(),
                Some(content) => match content.get("parts") {
                    Some(parts) => match parts {
                        Json::Array(items) => {
                            proof {
                                json::array_parts(*parts);
                            }
                            !any_text(items, Ghost(parts@->Array_0))
                        },
                        _ => true,
                    },
                    None => true,
                },
            }
        },
        _ => false,
    }
}

/// Whether an object brings nothing, where it has an `error`, which is no such case, or
/// `candidates`.
pub open spec fn object_verdict(value: JsonView) -> Option<bool> {
    if value.field("error"@) is Some {
        Some(false)
    } else {
        match value.field("candidates"@) {
            Some(candidates) => Some(no_content(candidates)),
            None => None,
        }
    }
}

/// The first verdict on one of `items`.
pub open spec fn first_verdict(items: Seq<JsonView>) -> Option<bool>
    decreases items.len(),
{
    if items.len() == 0 {
        None
    } else {
        match object_verdict(items[0]) {
            Some(verdict) => Some(verdict),
            None => first_verdict(items.drop_first()),
        }
    }
}

/// Whether a document brings nothing, where it, or one of the items that it lists, can tell.
pub open spec fn verdict(value: JsonView) -> Option<bool> {
    match value {
        JsonView::Array(items) => first_verdict(items),
        _ => object_verdict(value),
    }
}

/// Whether an object brings nothing, where it has an `error` or `candidates`.
fn judge_object(value: &Json) -> (r: Option<bool>)
    ensures
        r == object_verdict(value@),
{
    if value.get("error").is_some() {
        return Some(false);
    }
    match value.get("candidates") {
        Some(candidates) => Some(lacks_content(candidates)),
        None => None,
    }
}

/// Whether a document brings nothing, where it, or one of the items that it lists, can tell.
pub fn empty_candidates_in_json(value: &Json) -> (r: Option<bool>)
    ensures
        r == verdict(value@),
{
    match value {
        Json::Array(items) => {
            let ghost all = value@->Array_0;
            proof {
                json::array_parts(*value);
                assert(all.skip(0) =~= all);
            }
            let mut i: usize = 0;
            while i < items.len()
                invariant
                    i <= items.len(),
                    value@ == JsonView::Array(all),
                    all.len() == items@.len(),
                    forall|k: int| 0 <= k < items@.len() ==> #[trigger] all[k] == items@[k]@,
                    first_verdict(all) == first_verdict(all.skip(i as int)),
                decreases items.len() - i,
            {
                proof {
                    assert(all.skip(i as int)[0] == all[i as int]);
                    assert(all.skip(i as int).drop_first() =~= all.skip(i + 1));
                }
                if let Some(verdict) = judge_object(&items[i]) {
                    return Some(verdict);
                }
                i += 1;
            }
            None
        },
        _ => judge_object(value),
    }
}

/// Whether a text brings nothing, where it is a JSON object or array that can tell.
pub open spec fn data_verdict(data: Seq<char>) -> Option<bool> {
    if looks_like_json(data) {
        match json::document(data) {
            Some(value) => verdict(value),
            None => None,
        }
    } else {
        None
    }
}

/// Whether a text brings nothing, where it is a JSON object or array that can tell.
fn judge_data(data: &[char]) -> (r: Option<bool>)
    ensures
        r == data_verdict(data@),
{
    if starts_like_json(data) {
        match json::parse(string_of(data).as_str()) {
            Some(value) => empty_candidates_in_json(&value),
            None => None,
        }
    } else {
        None
    }
}

/// The verdict on an event, which spells out `candidates` or `error`.
pub open spec fn event_verdict(line: Seq<char>) -> Option<bool> {
    match event_data(line) {
        Some(data) => if text::occurs(data, "candidates"@) || text::occurs(data, "error"@) {
            data_verdict(data)
        } else {
            None
        },
        None => None,
    }
}

/// The first verdict on an event.
pub open spec fn first_event_verdict(lines: Seq<Seq<char>>) -> Option<bool>
    decreases lines.len(),
{
    if lines.len() == 0 {
        None
    } else {
        match event_verdict(lines[0]) {
            Some(verdict) => Some(verdict),
            None => first_event_verdict(lines.drop_first()),
        }
    }
}

/// A response brings nothing: it is blank, or the first event that can tell says so, or, where
/// none can, the response taken as a whole says so.
pub open spec fn empty_response(bytes: Seq<u8>) -> bool {
    let body = vstd::utf8::decode_utf8(bytes);
    &&& vstd::utf8::valid_utf8(bytes)
    &&& {
        ||| text::trimmed(body).len() == 0
        ||| match first_event_verdict(text::line_pieces(body)) {
            Some(verdict) => verdict,
            None => data_verdict(payload(body)) == Some(true),
        }
    }
}

/// Detects empty candidate responses (Gemini 200 but candidates empty) that should be retried.
/// - Returns true if entire body is whitespace/empty
/// - Handles SSE `data:` prefix stripping same as `parse_in_stream_error`
/// - If JSON contains `error` field returns false (handled by `parse_in_stream_error`)
/// - If JSON contains `candidates` field evaluates emptiness: empty array, missing/null content,
///   missing/empty parts, or all `text` fields empty/whitespace => true
pub fn is_empty_candidate_response(bytes: &[u8]) -> (r: bool)
    ensures
        r == empty_response(bytes@),
{
    let body = match text::from_utf8(bytes) {
        Some(t) => chars_of(t),
        None => {
            return false;
        },
    };
    if trim(&body).len() == 0 {
        return true;
    }
    let lines = text::lines(&body);
    let ghost all = text::slices(lines@);
    proof {
        assert(all.skip(0) =~= all);
    }
    let mut i: usize = 0;
    while i < lines.len()
        invariant
            i <= lines.len(),
            vstd::utf8::valid_utf8(bytes@),
            body@ == vstd::utf8::decode_utf8(bytes@),
            text::trimmed(body@).len() > 0,
            all == text::slices(lines@),
            all == text::line_pieces(body@),
            first_event_verdict(all) == first_event_verdict(all.skip(i as int)),
        decreases lines.len() - i,
    {
        proof {
            assert(all.skip(i as int)[0] == lines@[i as int]@);
            assert(all.skip(i as int).drop_first() =~= all.skip(i + 1));
        }
        if let Some(data) = event_data_of(lines[i]) {
            if contains(data, "candidates") || contains(data, "error") {
                if let Some(verdict) = judge_data(data) {
                    return verdict;
                }
            }
        }
        i += 1;
    }
    match judge_data(payload_of(&body)) {
        Some(verdict) => verdict,
        None => false,
    }
}

/// The data of the first event that is a JSON object or array.
pub open spec fn first_data(lines: Seq<Seq<char>>) -> Option<Seq<char>>
    decreases lines.len(),
{
    if lines.len() == 0 {
        None
    } else {
        match event_data(lines[0]) {
            Some(data) if looks_like_json(data) => Some(data),
            _ => first_data(lines.drop_first()),
        }
    }
}

/// The first JSON object or array that is the data of an event or a line by itself.
pub open spec fn first_object(lines: Seq<Seq<char>>) -> Option<Seq<char>>
    decreases lines.len(),
{
    if lines.len() == 0 {
        None
    } else {
        let line = text::trimmed(lines[0]);
        match event_data(lines[0]) {
            Some(data) if looks_like_json(data) => Some(data),
            _ => if looks_like_json(line) {
                Some(line)
            } else {
                first_object(lines.drop_first())
            },
        }
    }
}

/// The error that the first event of a text reports.
pub open spec fn first_data_error(opening: Seq<char>) -> Option<(u16, Seq<char>)> {
    match first_data(text::line_pieces(opening)) {
        Some(data) => chunk_error(vstd::utf8::encode_utf8(data)),
        None => None,
    }
}

/// The error that the first event of a stream's first chunk reports.
pub open spec fn opening_error(chunk: Seq<u8>) -> Option<(u16, Seq<char>)> {
    first_data_error(text::utf8_lossy(chunk))
}

/// Extracts error code and message from the first event of a stream's first chunk, and from none
/// that follows it.
pub fn parse_opening_error(chunk: &[u8]) -> (r: Option<(u16, String)>)
    ensures
        is_error(r, opening_error(chunk@)),
{
    error_in_opening(text::from_utf8_lossy(chunk).as_str())
}

/// Extracts error code and message from the first event of a text, and from none that follows it.
pub fn error_in_opening(opening: &str) -> (r: Option<(u16, String)>)
    ensures
        is_error(r, first_data_error(opening@)),
{
    let body = chars_of(opening);
    let lines = text::lines(&body);
    let ghost all = text::slices(lines@);
    proof {
        assert(all.skip(0) =~= all);
    }
    let mut i: usize = 0;
    while i < lines.len()
        invariant
            i <= lines.len(),
            body@ == opening@,
            all == text::slices(lines@),
            all == text::line_pieces(body@),
            first_data(all) == first_data(all.skip(i as int)),
        decreases lines.len() - i,
    {
        proof {
            assert(all.skip(i as int)[0] == lines@[i as int]@);
            assert(all.skip(i as int).drop_first() =~= all.skip(i + 1));
        }
        if let Some(data) = event_data_of(lines[i]) {
            if starts_like_json(data) {
                let data_text = string_of(data);
                return parse_in_stream_error(data_text.as_str().as_bytes());
            }
        }
        i += 1;
    }
    None
}

/// Whether the first JSON object or array in a text brings nothing, where there is one.
pub open spec fn first_object_empty(opening: Seq<char>) -> Option<bool> {
    match first_object(text::line_pieces(opening)) {
        Some(data) => Some(empty_response(vstd::utf8::encode_utf8(data))),
        None => None,
    }
}

/// The first chunk of a stream brings nothing.
pub open spec fn opening_empty(chunk: Seq<u8>) -> bool {
    match first_object_empty(text::utf8_lossy(chunk)) {
        Some(empty) => empty,
        None => empty_response(chunk),
    }
}

/// Detects empty candidates in the first event of a stream's first chunk.
pub fn is_opening_empty(chunk: &[u8]) -> (r: bool)
    ensures
        r == opening_empty(chunk@),
{
    match empty_in_opening(text::from_utf8_lossy(chunk).as_str()) {
        Some(empty) => empty,
        None => is_empty_candidate_response(chunk),
    }
}

/// Whether the first JSON object or array in a text brings nothing, where there is one.
pub fn empty_in_opening(opening: &str) -> (r: Option<bool>)
    ensures
        r == first_object_empty(opening@),
{
    let body = chars_of(opening);
    let lines = text::lines(&body);
    let ghost all = text::slices(lines@);
    proof {
        assert(all.skip(0) =~= all);
    }
    let mut i: usize = 0;
    while i < lines.len()
        invariant
            i <= lines.len(),
            body@ == opening@,
            all == text::slices(lines@),
            all == text::line_pieces(body@),
            first_object(all) == first_object(all.skip(i as int)),
        decreases lines.len() - i,
    {
        proof {
            assert(all.skip(i as int)[0] == lines@[i as int]@);
            assert(all.skip(i as int).drop_first() =~= all.skip(i + 1));
        }
        if let Some(data) = event_data_of(lines[i]) {
            if starts_like_json(data) {
                let data_text = string_of(data);
                return Some(is_empty_candidate_response(data_text.as_str().as_bytes()));
            }
        }
        let line = trim(lines[i]);
        if starts_like_json(line) {
            let line_text = string_of(line);
            return Some(is_empty_candidate_response(line_text.as_str().as_bytes()));
        }
        i += 1;
    }
    None
}

/// An error in any event of a chunk is found, wherever in the chunk the event stands.
pub proof fn error_in_any_event_is_found(bytes: Seq<u8>, k: int)
    requires
        vstd::utf8::valid_utf8(bytes),
        0 <= k < text::line_pieces(vstd::utf8::decode_utf8(bytes)).len(),
        event_data(text::line_pieces(vstd::utf8::decode_utf8(bytes))[k]) matches Some(data)
            && error_in_data(data) is Some,
    ensures
        chunk_error(bytes) is Some,
{
    event_error_is_found(text::line_pieces(vstd::utf8::decode_utf8(bytes)), k);
}

proof fn event_error_is_found(lines: Seq<Seq<char>>, k: int)
    requires
        0 <= k < lines.len(),
        event_data(lines[k]) matches Some(data) && error_in_data(data) is Some,
    ensures
        first_event_error(lines) is Some,
    decreases k,
{
    if k > 0 {
        assert(lines.drop_first()[k - 1] == lines[k]);
        event_error_is_found(lines.drop_first(), k - 1);
    }
}

/// A response with an error tells the same by itself and as the only one of a row.
pub proof fn a_row_of_one_tells_its_error(value: JsonView)
    requires
        value is Object,
        wrapped_error(value) is Some,
    ensures
        reported_error(JsonView::Array(seq![value])) == reported_error(value),
{
    let row = seq![value];
    assert(row[0] == value);
    assert(forall|i: int| 0 <= i < row.len() ==> wrapped_error(#[trigger] row[i]) is Some);
}

/// A response with more than one `error` reports none.
pub proof fn repeated_errors_are_none(value: JsonView)
    requires
        value is Object,
        value.repeats("error"@),
    ensures
        reported_error(value) is None,
{
}

/// A response with an `error` does not count as one without content.
pub proof fn an_error_is_not_empty(value: JsonView)
    requires
        value is Object,
        value.field("error"@) is Some,
    ensures
        verdict(value) == Some(false),
{
}

/// A response whose first candidate holds text does not count as one without content.
pub proof fn text_is_not_empty(
    value: JsonView,
    list: Seq<JsonView>,
    content: JsonView,
    parts: Seq<JsonView>,
    k: int,
    t: Seq<char>,
)
    requires
        value is Object,
        value.field("candidates"@) == Some(JsonView::Array(list)),
        list.len() > 0,
        list[0].field("content"@) == Some(content),
        content.field("parts"@) == Some(JsonView::Array(parts)),
        0 <= k < parts.len(),
        parts[k].text_field("text"@) == Some(t),
        text::trimmed(t).len() > 0,
    ensures
        verdict(value) == Some(false),
{
    assert(has_text(parts));
}

/// A chunk reports no status that HTTP does not allow.
pub proof fn reported_status_is_valid(bytes: Seq<u8>)
    ensures
        chunk_error(bytes) matches Some((status, _)) ==> status::valid(status),
{
    if vstd::utf8::valid_utf8(bytes) {
        event_status_is_valid(text::line_pieces(vstd::utf8::decode_utf8(bytes)));
    }
}

proof fn event_status_is_valid(lines: Seq<Seq<char>>)
    ensures
        first_event_error(lines) matches Some((status, _)) ==> status::valid(status),
    decreases lines.len(),
{
    if lines.len() > 0 {
        event_status_is_valid(lines.drop_first());
    }
}

/// The data of an event is what follows `data:` on its line, without white space around it; a line
/// that does not begin so is no event.
pub proof fn events_begin_with_data(line: Seq<char>, rest: Seq<char>)
    ensures
        text::trimmed(line) == "data:"@ + rest ==> event_data(line) == Some(text::trimmed(rest)),
        event_data(line) is Some ==> exists|tail: Seq<char>| #[trigger]
            ("data:"@ + tail) == text::trimmed(line),
{
    let body = text::trimmed(line);
    let tag = "data:"@;
    if body == tag + rest {
        assert(body.subrange(0, tag.len() as int) =~= tag);
        assert(body.skip(tag.len() as int) =~= rest);
    }
    if text::begins(body, tag) {
        assert(tag + body.skip(tag.len() as int) =~= body);
    }
}

/// JSON is what begins with a brace or a bracket.
pub proof fn json_begins_with_a_bracket(c: char, rest: Seq<char>)
    ensures
        looks_like_json(seq![c] + rest) <==> c == '{' || c == '[',
        !looks_like_json(Seq::empty()),
{
    assert((seq![c] + rest)[0] == c);
}

/// What an event tells by itself: whether it brings nothing, where its data is a document that can
/// tell and spells out `candidates` or `error`.
pub open spec fn told_by(line: Seq<char>) -> Option<bool> {
    match event_data(line) {
        Some(data) if data.len() > 0 && (data[0] == '{' || data[0] == '[') && (text::occurs(
            data,
            "candidates"@,
        ) || text::occurs(data, "error"@)) => match json::document(data) {
            Some(value) => verdict(value),
            None => None,
        },
        _ => None,
    }
}

/// The first event that can tell decides whether a response brings nothing, whatever the lines
/// after it hold.
pub proof fn the_first_telling_event_decides(bytes: Seq<u8>, lines: Seq<Seq<char>>, k: int)
    requires
        vstd::utf8::valid_utf8(bytes),
        lines == text::line_pieces(vstd::utf8::decode_utf8(bytes)),
        text::trimmed(vstd::utf8::decode_utf8(bytes)).len() > 0,
        0 <= k < lines.len(),
        told_by(lines[k]) is Some,
        forall|j: int| 0 <= j < k ==> told_by(#[trigger] lines[j]) is None,
    ensures
        empty_response(bytes) == told_by(lines[k])->0,
{
    assert forall|j: int| 0 <= j < k implies event_verdict(#[trigger] lines[j]) is None by {
        assert(told_by(lines[j]) is None);
    }
    first_verdict_is_first(lines, k);
}

proof fn first_verdict_is_first(lines: Seq<Seq<char>>, k: int)
    requires
        0 <= k < lines.len(),
        event_verdict(lines[k]) is Some,
        forall|j: int| 0 <= j < k ==> event_verdict(#[trigger] lines[j]) is None,
    ensures
        first_event_verdict(lines) == event_verdict(lines[k]),
    decreases k,
{
    if k > 0 {
        let rest = lines.drop_first();
        assert(event_verdict(lines[0]) is None);
        assert forall|j: int| 0 <= j < k - 1 implies event_verdict(#[trigger] rest[j]) is None by {
            assert(rest[j] == lines[j + 1]);
        }
        assert(rest[k - 1] == lines[k]);
        first_verdict_is_first(rest, k - 1);
    }
}

/// An answer in several events is not empty if the first with candidates holds text, whatever the
/// others hold.
pub proof fn an_answer_that_begins_with_text_is_not_empty(
    bytes: Seq<u8>,
    lines: Seq<Seq<char>>,
    k: int,
    data: Seq<char>,
    value: JsonView,
    list: Seq<JsonView>,
    content: JsonView,
    parts: Seq<JsonView>,
    m: int,
    t: Seq<char>,
)
    requires
        vstd::utf8::valid_utf8(bytes),
        lines == text::line_pieces(vstd::utf8::decode_utf8(bytes)),
        text::trimmed(vstd::utf8::decode_utf8(bytes)).len() > 0,
        0 <= k < lines.len(),
        forall|j: int| 0 <= j < k ==> told_by(#[trigger] lines[j]) is None,
        event_data(lines[k]) == Some(data),
        data.len() > 0,
        data[0] == '{',
        text::occurs(data, "candidates"@),
        json::document(data) == Some(value),
        value is Object,
        value.field("candidates"@) == Some(JsonView::Array(list)),
        list.len() > 0,
        list[0].field("content"@) == Some(content),
        content.field("parts"@) == Some(JsonView::Array(parts)),
        0 <= m < parts.len(),
        parts[m].field("text"@) == Some(JsonView::Text(t)),
        text::trimmed(t).len() > 0,
    ensures
        !empty_response(bytes),
{
    text_is_not_empty(value, list, content, parts, m, t);
    the_first_telling_event_decides(bytes, lines, k);
}

/// A response without an event that can tell is judged as a whole: it is empty where it is blank,
/// or where it is a document that says so; and what is no UTF-8 is never empty.
pub proof fn a_response_without_events_is_judged_whole(bytes: Seq<u8>, lines: Seq<Seq<char>>)
    requires
        lines == text::line_pieces(vstd::utf8::decode_utf8(bytes)),
        forall|j: int| 0 <= j < lines.len() ==> told_by(#[trigger] lines[j]) is None,
    ensures
        !vstd::utf8::valid_utf8(bytes) ==> !empty_response(bytes),
        vstd::utf8::valid_utf8(bytes) ==> {
            let body = text::trimmed(vstd::utf8::decode_utf8(bytes));
            let whole = match event_data(vstd::utf8::decode_utf8(bytes)) {
                Some(data) => data,
                None => body,
            };
            empty_response(bytes) <==> body.len() == 0 || whole.len() > 0 && (whole[0] == '{'
                || whole[0] == '[') && (json::document(whole) matches Some(value) && verdict(value)
                == Some(true))
        },
{
    assert forall|j: int| 0 <= j < lines.len() implies event_verdict(#[trigger] lines[j])
        is None by {
        assert(told_by(lines[j]) is None);
    }
    no_event_tells(lines);
}

proof fn no_event_tells(lines: Seq<Seq<char>>)
    requires
        forall|j: int| 0 <= j < lines.len() ==> event_verdict(#[trigger] lines[j]) is None,
    ensures
        first_event_verdict(lines) is None,
    decreases lines.len(),
{
    if lines.len() > 0 {
        let rest = lines.drop_first();
        assert(event_verdict(lines[0]) is None);
        assert forall|j: int| 0 <= j < rest.len() implies event_verdict(#[trigger] rest[j])
            is None by {
            assert(rest[j] == lines[j + 1]);
        }
        no_event_tells(rest);
    }
}

/// A blank response brings nothing.
pub proof fn a_blank_response_is_empty(bytes: Seq<u8>)
    requires
        vstd::utf8::valid_utf8(bytes),
        forall|i: int|
            0 <= i < vstd::utf8::decode_utf8(bytes).len() ==> text::white_space(
                #[trigger] vstd::utf8::decode_utf8(bytes)[i],
            ),
    ensures
        empty_response(bytes),
{
    let body = vstd::utf8::decode_utf8(bytes);
    text::trimming_takes_white_space(body);
    if text::trimmed(body).len() > 0 {
        let (a, b) = choose|a: Seq<char>, b: Seq<char>| #[trigger]
            (a + text::trimmed(body) + b) == body;
        assert(body[a.len() as int] == text::trimmed(body)[0]);
    }
}

/// A response with candidates and without an error brings nothing just where the first candidate
/// does: there is none, or it is null; its content is missing or null, unless it says that it is
/// `clean` or `partial`; or no part of its content holds a text that is more than white space.
pub proof fn candidates_tell_what_they_bring(value: JsonView, list: Seq<JsonView>)
    requires
        value is Object,
        value.field("error"@) is None,
        value.field("candidates"@) == Some(JsonView::Array(list)),
    ensures
        list.len() == 0 ==> verdict(value) == Some(true),
        list.len() > 0 && list[0] is Null ==> verdict(value) == Some(true),
        list.len() > 0 && !(list[0] is Null) && (list[0].field("content"@) is None
            || list[0].field("content"@) == Some(JsonView::Null)) ==> verdict(value) == Some(
            list[0].field("clean"@) is None && list[0].field("partial"@) is None,
        ),
        list.len() > 0 && !(list[0] is Null) && (list[0].field("content"@) matches Some(content)
            && !(content is Null)) ==> verdict(value) == Some(
            !(list[0].field("content"@)->0.field("parts"@) matches Some(JsonView::Array(parts))
                && exists|m: int|
                0 <= m < parts.len() && ((#[trigger] parts[m]).field("text"@) matches Some(
                    JsonView::Text(t),
                ) && text::trimmed(t).len() > 0)),
        ),
{
    if list.len() > 0 {
        if let Some(content) = list[0].field("content"@) {
            if let Some(JsonView::Array(parts)) = content.field("parts"@) {
                assert forall|m: int| 0 <= m < parts.len() implies ((
                #[trigger] parts[m]).text_field("text"@) matches Some(t) && text::trimmed(t).len()
                    > 0) == (parts[m].field("text"@) matches Some(JsonView::Text(t))
                    && text::trimmed(t).len() > 0) by {}
            }
        }
    }
}

/// A document with neither an error nor candidates cannot tell, candidates that are no list are not
/// empty, and of a row of documents the first that can tell decides.
pub proof fn other_documents_tell_nothing(
    value: JsonView,
    before: Seq<JsonView>,
    after: Seq<JsonView>,
)
    ensures
        value is Object && value.field("error"@) is None && value.field("candidates"@) is None
            ==> verdict(value) is None,
        value is Object && value.field("error"@) is None && (value.field(
            "candidates"@,
        ) matches Some(candidates) && !(candidates is Array)) ==> verdict(value) == Some(false),
        value is Object && verdict(value) is Some && (forall|i: int|
            0 <= i < before.len() ==> (#[trigger] before[i]) is Object && verdict(before[i])
                is None) ==> verdict(JsonView::Array(before + seq![value] + after)) == verdict(
            value,
        ),
    decreases before.len(),
{
    if value is Object && verdict(value) is Some && (forall|i: int|
        0 <= i < before.len() ==> (#[trigger] before[i]) is Object && verdict(before[i]) is None) {
        let all = before + seq![value] + after;
        if before.len() == 0 {
            assert(all[0] == value);
        } else {
            let rest = before.drop_first();
            assert forall|i: int| 0 <= i < rest.len() implies (#[trigger] rest[i]) is Object
                && verdict(rest[i]) is None by {
                assert(rest[i] == before[i + 1]);
            }
            assert(before[0] is Object && verdict(before[0]) is None);
            assert(all[0] == before[0]);
            assert(all.drop_first() =~= rest + seq![value] + after);
            other_documents_tell_nothing(value, rest, after);
        }
    }
}

/// The error of the first event that reports one is reported, whatever the lines after it hold.
pub proof fn the_first_event_error_is_reported(
    bytes: Seq<u8>,
    lines: Seq<Seq<char>>,
    k: int,
    data: Seq<char>,
)
    requires
        vstd::utf8::valid_utf8(bytes),
        lines == text::line_pieces(vstd::utf8::decode_utf8(bytes)),
        0 <= k < lines.len(),
        event_data(lines[k]) == Some(data),
        error_in_data(data) is Some,
        forall|j: int|
            0 <= j < k ==> (event_data(#[trigger] lines[j]) matches Some(other) ==> error_in_data(
                other,
            ) is None),
    ensures
        chunk_error(bytes) == error_in_data(data),
{
    first_error_is_first(lines, k, data);
}

proof fn first_error_is_first(lines: Seq<Seq<char>>, k: int, data: Seq<char>)
    requires
        0 <= k < lines.len(),
        event_data(lines[k]) == Some(data),
        error_in_data(data) is Some,
        forall|j: int|
            0 <= j < k ==> (event_data(#[trigger] lines[j]) matches Some(other) ==> error_in_data(
                other,
            ) is None),
    ensures
        first_event_error(lines) == error_in_data(data),
    decreases k,
{
    if k > 0 {
        let rest = lines.drop_first();
        assert(event_data(lines[0]) matches Some(other) ==> error_in_data(other) is None);
        assert forall|j: int| 0 <= j < k - 1 implies (event_data(
            #[trigger] rest[j],
        ) matches Some(other) ==> error_in_data(other) is None) by {
            assert(rest[j] == lines[j + 1]);
        }
        assert(rest[k - 1] == lines[k]);
        first_error_is_first(rest, k - 1, data);
    }
}

/// A chunk in which no event reports an error reports the one of the document that it is as a
/// whole, if any; and what is no UTF-8 reports none.
pub proof fn a_chunk_without_events_is_read_whole(bytes: Seq<u8>, lines: Seq<Seq<char>>)
    requires
        lines == text::line_pieces(vstd::utf8::decode_utf8(bytes)),
        forall|j: int|
            0 <= j < lines.len() ==> (event_data(#[trigger] lines[j]) matches Some(other)
                ==> error_in_data(other) is None),
    ensures
        !vstd::utf8::valid_utf8(bytes) ==> chunk_error(bytes) is None,
        vstd::utf8::valid_utf8(bytes) ==> chunk_error(bytes) == error_in_data(
            match event_data(vstd::utf8::decode_utf8(bytes)) {
                Some(data) => data,
                None => text::trimmed(vstd::utf8::decode_utf8(bytes)),
            },
        ),
{
    no_event_error(lines);
}

proof fn no_event_error(lines: Seq<Seq<char>>)
    requires
        forall|j: int|
            0 <= j < lines.len() ==> (event_data(#[trigger] lines[j]) matches Some(other)
                ==> error_in_data(other) is None),
    ensures
        first_event_error(lines) is None,
    decreases lines.len(),
{
    if lines.len() > 0 {
        let rest = lines.drop_first();
        assert(event_data(lines[0]) matches Some(other) ==> error_in_data(other) is None);
        assert forall|j: int| 0 <= j < rest.len() implies (event_data(
            #[trigger] rest[j],
        ) matches Some(other) ==> error_in_data(other) is None) by {
            assert(rest[j] == lines[j + 1]);
        }
        no_event_error(rest);
    }
}

/// An error with a code reports that code, and with a message that message; a message that is
/// missing is told as unknown, and a code that is no status makes it no error.
pub proof fn a_code_is_reported(
    value: JsonView,
    error: JsonView,
    code: u64,
    message: Option<JsonView>,
    status: Option<JsonView>,
)
    requires
        value is Object,
        value.field("error"@) == Some(error),
        !value.repeats("error"@),
        error is Object,
        !error.repeats("code"@) && !error.repeats("message"@) && !error.repeats("status"@),
        error.field("code"@) == Some(JsonView::Number(Some(code))),
        error.field("message"@) == message,
        error.field("status"@) == status,
        status is None || status == Some(JsonView::Null) || status->0 is Text,
        code <= u16::MAX,
    ensures
        !(100 <= code <= 999) ==> reported_error(value) is None,
        100 <= code <= 999 && (message is None || message == Some(JsonView::Null))
            ==> reported_error(value) == Some((code as u16, "Unknown in-stream error"@)),
        100 <= code <= 999 ==> (message matches Some(JsonView::Text(m)) ==> reported_error(value)
            == Some((code as u16, m))),
        message matches Some(JsonView::Number(_)) ==> reported_error(value) is None,
{
    assert(row_error(value) is None);
}

/// An error without a code reports the status that goes with the name that it gives, and 500 where
/// it gives none or an unknown one.
pub proof fn a_name_is_reported_as_its_status(value: JsonView, error: JsonView, m: Seq<char>)
    requires
        value is Object,
        value.field("error"@) == Some(error),
        !value.repeats("error"@),
        error is Object,
        !error.repeats("code"@) && !error.repeats("message"@) && !error.repeats("status"@),
        error.field("code"@) is None || error.field("code"@) == Some(JsonView::Null),
        error.field("message"@) == Some(JsonView::Text(m)),
    ensures
        error.field("status"@) is None || error.field("status"@) == Some(JsonView::Null)
            ==> reported_error(value) == Some((500u16, m)),
        error.field("status"@) matches Some(JsonView::Text(name)) ==> {
            &&& name == "UNAVAILABLE"@ ==> reported_error(value) == Some((503u16, m))
            &&& name == "RESOURCE_EXHAUSTED"@ ==> reported_error(value) == Some((429u16, m))
            &&& name == "INTERNAL"@ ==> reported_error(value) == Some((500u16, m))
            &&& name == "DEADLINE_EXCEEDED"@ ==> reported_error(value) == Some((504u16, m))
            &&& name == "BAD_GATEWAY"@ ==> reported_error(value) == Some((502u16, m))
            &&& name == "INVALID_ARGUMENT"@ ==> reported_error(value) == Some((400u16, m))
            &&& name == "PERMISSION_DENIED"@ ==> reported_error(value) == Some((403u16, m))
            &&& name == "NOT_FOUND"@ ==> reported_error(value) == Some((404u16, m))
            &&& name == "FAILED_PRECONDITION"@ ==> reported_error(value) == Some((400u16, m))
            &&& name == "UNAUTHENTICATED"@ ==> reported_error(value) == Some((401u16, m))
            &&& name != "UNAVAILABLE"@ && name != "RESOURCE_EXHAUSTED"@ && name
                != "DEADLINE_EXCEEDED"@ && name != "BAD_GATEWAY"@ && name != "INVALID_ARGUMENT"@
                && name != "PERMISSION_DENIED"@ && name != "NOT_FOUND"@ && name
                != "FAILED_PRECONDITION"@ && name != "UNAUTHENTICATED"@ ==> reported_error(value)
                == Some((500u16, m))
        },
{
    reveal_strlit("UNAVAILABLE");
    reveal_strlit("RESOURCE_EXHAUSTED");
    reveal_strlit("INTERNAL");
    reveal_strlit("DEADLINE_EXCEEDED");
    reveal_strlit("BAD_GATEWAY");
    reveal_strlit("INVALID_ARGUMENT");
    reveal_strlit("PERMISSION_DENIED");
    reveal_strlit("NOT_FOUND");
    reveal_strlit("FAILED_PRECONDITION");
    reveal_strlit("UNAUTHENTICATED");
    assert(row_error(value) is None);
    assert("UNAVAILABLE"@.len() == 11 && "UNAVAILABLE"@[0] == 'U');
    assert("RESOURCE_EXHAUSTED"@.len() == 18 && "RESOURCE_EXHAUSTED"@[0] == 'R');
    assert("INTERNAL"@.len() == 8 && "INTERNAL"@[0] == 'I');
    assert("DEADLINE_EXCEEDED"@.len() == 17 && "DEADLINE_EXCEEDED"@[0] == 'D');
    assert("BAD_GATEWAY"@.len() == 11 && "BAD_GATEWAY"@[0] == 'B');
    assert("INVALID_ARGUMENT"@.len() == 16 && "INVALID_ARGUMENT"@[0] == 'I');
    assert("PERMISSION_DENIED"@.len() == 17 && "PERMISSION_DENIED"@[0] == 'P');
    assert("NOT_FOUND"@.len() == 9 && "NOT_FOUND"@[0] == 'N');
    assert("FAILED_PRECONDITION"@.len() == 19 && "FAILED_PRECONDITION"@[0] == 'F');
    assert("UNAUTHENTICATED"@.len() == 15 && "UNAUTHENTICATED"@[0] == 'U');
}

/// A document without an error reports none.
pub proof fn no_error_no_report(value: JsonView)
    requires
        value is Object,
        value.field("error"@) is None || value.field("error"@) == Some(JsonView::Null),
    ensures
        reported_error(value) is None,
{
}

/// Of a row of responses with errors the first is reported, whatever the others report.
pub proof fn the_first_of_a_row_is_reported(first: JsonView, others: Seq<JsonView>)
    requires
        first is Object,
        reported_error(first) is Some,
        forall|i: int|
            0 <= i < others.len() ==> (#[trigger] others[i]) is Object && reported_error(others[i])
                is Some,
    ensures
        reported_error(JsonView::Array(seq![first] + others)) == reported_error(first),
{
    let all = seq![first] + others;
    assert(all[0] == first);
    assert forall|i: int| 0 <= i < all.len() implies wrapped_error(#[trigger] all[i]) is Some by {
        if i > 0 {
            assert(all[i] == others[i - 1]);
        }
    }
}

/// The opening of a stream reports what its first event reports that is a JSON object or array, and
/// is empty where that is, whatever the lines after it hold.
pub proof fn the_first_event_opens_a_stream(
    opening: Seq<char>,
    lines: Seq<Seq<char>>,
    k: int,
    data: Seq<char>,
)
    requires
        lines == text::line_pieces(opening),
        0 <= k < lines.len(),
        event_data(lines[k]) == Some(data),
        data.len() > 0,
        data[0] == '{' || data[0] == '[',
        forall|j: int|
            0 <= j < k ==> (event_data(#[trigger] lines[j]) matches Some(other) ==> other.len() == 0
                || other[0] != '{' && other[0] != '['),
    ensures
        first_data_error(opening) == chunk_error(vstd::utf8::encode_utf8(data)),
        (forall|j: int|
            0 <= j < k ==> text::trimmed(#[trigger] lines[j]).len() == 0 || text::trimmed(
                lines[j],
            )[0] != '{' && text::trimmed(lines[j])[0] != '[') ==> first_object_empty(opening)
            == Some(empty_response(vstd::utf8::encode_utf8(data))),
{
    first_data_is_first(lines, k, data);
}

proof fn first_data_is_first(lines: Seq<Seq<char>>, k: int, data: Seq<char>)
    requires
        0 <= k < lines.len(),
        event_data(lines[k]) == Some(data),
        looks_like_json(data),
        forall|j: int|
            0 <= j < k ==> (event_data(#[trigger] lines[j]) matches Some(other)
                ==> !looks_like_json(other)),
    ensures
        first_data(lines) == Some(data),
        (forall|j: int| 0 <= j < k ==> !looks_like_json(text::trimmed(#[trigger] lines[j])))
            ==> first_object(lines) == Some(data),
    decreases k,
{
    if k > 0 {
        let rest = lines.drop_first();
        assert(event_data(lines[0]) matches Some(other) ==> !looks_like_json(other));
        assert forall|j: int| 0 <= j < k - 1 implies (event_data(
            #[trigger] rest[j],
        ) matches Some(other) ==> !looks_like_json(other)) by {
            assert(rest[j] == lines[j + 1]);
        }
        assert(rest[k - 1] == lines[k]);
        first_data_is_first(rest, k - 1, data);
        if forall|j: int| 0 <= j < k ==> !looks_like_json(text::trimmed(#[trigger] lines[j])) {
            assert(!looks_like_json(text::trimmed(lines[0])));
            assert forall|j: int| 0 <= j < k - 1 implies !looks_like_json(
                text::trimmed(#[trigger] rest[j]),
            ) by {
                assert(rest[j] == lines[j + 1]);
            }
        }
    }
}

/// A text that is a JSON object or array reports the error that its document reports, where that is
/// what is written; and any other text reports none.
pub proof fn a_document_reports_its_error(data: Seq<char>, value: JsonView)
    requires
        json::document(data) == Some(value),
        json::as_written(vstd::utf8::encode_utf8(data)) == Some(value),
    ensures
        data.len() > 0 && (data[0] == '{' || data[0] == '[') ==> error_in_data(data)
            == reported_error(value),
        data.len() == 0 || data[0] != '{' && data[0] != '[' ==> error_in_data(data) is None,
{
}

/// An opening in which no event and no line by itself is a JSON object or array reports no error,
/// and is judged as a whole.
pub proof fn an_opening_without_json_is_judged_whole(chunk: Seq<u8>, lines: Seq<Seq<char>>)
    requires
        lines == text::line_pieces(text::utf8_lossy(chunk)),
        forall|j: int|
            0 <= j < lines.len() ==> !looks_like_json(text::trimmed(#[trigger] lines[j])) && (
            event_data(lines[j]) matches Some(data) ==> !looks_like_json(data)),
    ensures
        opening_error(chunk) is None,
        opening_empty(chunk) == empty_response(chunk),
{
    no_json_line(lines);
}

proof fn no_json_line(lines: Seq<Seq<char>>)
    requires
        forall|j: int|
            0 <= j < lines.len() ==> !looks_like_json(text::trimmed(#[trigger] lines[j])) && (
            event_data(lines[j]) matches Some(data) ==> !looks_like_json(data)),
    ensures
        first_data(lines) is None,
        first_object(lines) is None,
    decreases lines.len(),
{
    if lines.len() > 0 {
        let rest = lines.drop_first();
        assert(!looks_like_json(text::trimmed(lines[0])) && (event_data(lines[0]) matches Some(data)
            ==> !looks_like_json(data)));
        assert forall|j: int| 0 <= j < rest.len() implies !looks_like_json(
            text::trimmed(#[trigger] rest[j]),
        ) && (event_data(rest[j]) matches Some(data) ==> !looks_like_json(data)) by {
            assert(rest[j] == lines[j + 1]);
        }
        no_json_line(rest);
    }
}

/// A row that is empty, or one of several in which something is no response with an error, reports
/// no error.
pub proof fn a_mixed_row_reports_nothing(items: Seq<JsonView>, k: int)
    requires
        items.len() != 1,
        items.len() == 0 || 0 <= k < items.len() && match items[k] {
            JsonView::Object(fields) => json::lookup(fields, "error"@) is None,
            JsonView::Array(_) => false,
            _ => true,
        },
    ensures
        reported_error(JsonView::Array(items)) is None,
{
    if items.len() > 0 {
        assert(wrapped_error(items[k]) is None);
    }
}

} // verus!
