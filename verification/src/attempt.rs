//! One try of a request: what its outcome means, and whether there is another.

use crate::config::Config;
use crate::delay;
use crate::delay::Delay;
use crate::proxy;
use crate::retry;
use crate::retry::{
    calculate_backoff, is_location_block_error, is_retriable_aggressive, is_retriable_error,
    is_retriable_in_stream_with_flag, is_retriable_status, parse_retry_after, ClientError,
};
use crate::status;
use crate::stream;
use crate::stream::{
    is_empty_candidate_response, is_opening_empty, parse_in_stream_error, parse_opening_error,
};
use crate::text;
use crate::text::{chars_of, string_of, trim};
use vstd::prelude::*;

verus! {

/// What matters of a try besides its outcome.
#[derive(Clone, Copy, Debug, PartialEq, Eq, Structural)]
pub struct Turn {
    /// How many tries there were before it.
    pub attempt: u32,
    /// How many retries there may be; 0 for any number.
    pub max_retries: u32,
    /// Whether everything but success is retried.
    pub retry_all: bool,
    /// How many retries the consensus anchor gets before it is left.
    pub hysteresis: u32,
    /// Whether the node at which it is made is known.
    pub has_node: bool,
    /// Whether that node is the consensus anchor.
    pub at_anchor: bool,
    /// Whether it asks for the generation, counting or embedding of content.
    pub generation: bool,
    /// Whether it makes a call whose answer is generated content.
    pub content_call: bool,
    /// Whether it makes a call whose answer must not be empty.
    pub answering_call: bool,
}

impl Turn {
    /// The try with this number of a request for `path`, made at `node`.
    pub fn new(config: &Config, path: &str, attempt: u32, node: &str, at_anchor: bool) -> (r: Turn)
        ensures
            r == (Turn {
                attempt,
                max_retries: config.max_retries,
                retry_all: config.retry_all,
                hysteresis: config.anchor_hysteresis_retries,
                has_node: node@.len() > 0,
                at_anchor,
                generation: proxy::generation_path(path@),
                content_call: text::occurs_any(path@, proxy::content_calls()),
                answering_call: text::occurs_any(path@, proxy::answering_calls()),
            }),
    {
        Turn {
            attempt,
            max_retries: config.max_retries,
            retry_all: config.retry_all,
            hysteresis: config.anchor_hysteresis_retries,
            has_node: !chars_of(node).is_empty(),
            at_anchor,
            generation: proxy::is_generation_path(path),
            content_call: proxy::is_content_call(path),
            answering_call: proxy::is_answering_call(path),
        }
    }

    /// There may be another try.
    pub open spec fn may_retry(self) -> bool {
        self.max_retries == 0 || self.attempt < self.max_retries
    }

    /// The node has had its three tries.
    pub open spec fn node_is_spent(self) -> bool {
        self.attempt % 3 == 2
    }

    /// The consensus anchor is not left yet.
    pub open spec fn holds_on(self) -> bool {
        self.at_anchor && self.attempt < self.hysteresis
    }

    /// A failure that is not the fault of the location leads to a switch: for generation alone,
    /// when the node is spent; on too many requests only from the sixth try on, and otherwise not
    /// while the consensus anchor is held on to.
    pub open spec fn switches(self, too_many: bool) -> bool {
        &&& self.generation
        &&& self.node_is_spent()
        &&& if too_many {
            self.attempt >= 5
        } else {
            !self.holds_on()
        }
    }

    /// Whether there may be another try.
    fn has_retry(&self) -> (r: bool)
        ensures
            r == self.may_retry(),
    {
        self.max_retries == 0 || self.attempt < self.max_retries
    }

    /// Whether a failure leads to a switch.
    fn should_switch(&self, too_many: bool) -> (r: bool)
        ensures
            r == self.switches(too_many),
    {
        self.generation && proxy::should_switch_for_attempt(self.attempt) && (if too_many {
            self.attempt >= 5
        } else {
            !(self.at_anchor && self.attempt < self.hysteresis)
        })
    }
}

/// What is done before the next try.
#[derive(Clone, Copy, Debug, PartialEq, Eq, Structural)]
pub struct Retry {
    /// Whether the node is switched.
    pub switch: bool,
    /// Whether it counts as a failure of the node.
    pub record_failure: bool,
    /// Whether a wait that the response asks for is kept to.
    pub heed_retry_after: bool,
}

/// What comes next in a try.
#[derive(Clone, Copy, Debug, PartialEq, Eq, Structural)]
pub enum Step {
    /// There is another try.
    Retry(Retry),
    /// The first chunk of the response is to be read and judged.
    ReadBeginning,
    /// The body of the response is to be read and judged.
    ReadBody,
    /// The response is passed on: what was read of it, and what follows. `record_success` tells
    /// whether it counts as a success.
    Forward { record_success: bool },
    /// The client is told that the upstream could not be reached.
    BadGateway,
}

/// A step, and whether the node goes into quarantine for its location.
#[derive(Clone, Copy, Debug, PartialEq, Eq, Structural)]
pub struct Verdict {
    pub step: Step,
    pub quarantine: bool,
}

/// Another try, where there may be one, else `otherwise`.
pub open spec fn retry_or(turn: Turn, retry: Retry, otherwise: Step) -> Step {
    if turn.may_retry() {
        Step::Retry(retry)
    } else {
        otherwise
    }
}

/// Another try, where there may be one, else `otherwise`.
fn try_again_or(turn: &Turn, retry: Retry, otherwise: Step) -> (r: Step)
    ensures
        r == retry_or(*turn, retry, otherwise),
{
    if turn.has_retry() {
        Step::Retry(retry)
    } else {
        otherwise
    }
}

/// What a status means by itself.
pub open spec fn step_on_status(turn: Turn, status: u16) -> Step {
    let too_many = status == status::TOO_MANY_REQUESTS;
    if retry::retriable(status) {
        retry_or(
            turn,
            Retry {
                switch: turn.switches(too_many),
                record_failure: !too_many,
                heed_retry_after: true,
            },
            Step::ReadBody,
        )
    } else if status == status::BAD_REQUEST || turn.retry_all && !status::success(status) {
        Step::ReadBeginning
    } else {
        Step::ReadBody
    }
}

/// What a status means by itself.
pub fn on_status(turn: &Turn, status: u16) -> (r: Step)
    ensures
        r == step_on_status(*turn, status),
{
    let too_many = status == status::TOO_MANY_REQUESTS;
    if is_retriable_status(status) {
        try_again_or(
            turn,
            Retry {
                switch: turn.should_switch(too_many),
                record_failure: !too_many,
                heed_retry_after: true,
            },
            Step::ReadBody,
        )
    } else if status == status::BAD_REQUEST || (turn.retry_all && !status::is_success(status)) {
        Step::ReadBeginning
    } else {
        Step::ReadBody
    }
}

/// What a refusal means whose body begins with `snippet`. A node that is refused for its location
/// goes into quarantine and is left at once.
pub open spec fn verdict_on_refusal(turn: Turn, status: u16, snippet: Seq<char>) -> Verdict {
    let located = retry::location_block(status, snippet);
    let switch = if status == status::BAD_REQUEST {
        turn.generation && (located || turn.node_is_spent())
    } else {
        turn.switches(false)
    };
    Verdict {
        step: if located || turn.retry_all && !status::success(status) {
            retry_or(
                turn,
                Retry { switch, record_failure: true, heed_retry_after: false },
                Step::Forward { record_success: false },
            )
        } else {
            Step::Forward { record_success: false }
        },
        quarantine: located && turn.has_node,
    }
}

/// What a refusal means whose body begins with `snippet`.
pub fn on_refusal(turn: &Turn, status: u16, snippet: &str) -> (r: Verdict)
    ensures
        r == verdict_on_refusal(*turn, status, snippet@),
{
    let located = is_location_block_error(status, snippet);
    let switch = if status == status::BAD_REQUEST {
        turn.generation && (located || proxy::should_switch_for_attempt(turn.attempt))
    } else {
        turn.should_switch(false)
    };
    let step = if located || (turn.retry_all && is_retriable_aggressive(status, snippet)) {
        try_again_or(
            turn,
            Retry { switch, record_failure: true, heed_retry_after: false },
            Step::Forward { record_success: false },
        )
    } else {
        Step::Forward { record_success: false }
    };
    Verdict { step, quarantine: located && turn.has_node }
}

/// What it means that the request could not be sent.
pub open spec fn step_on_client_error(turn: Turn, err: ClientError) -> Step {
    if !err.builder && !err.redirect && !err.status {
        retry_or(
            turn,
            Retry {
                switch: turn.switches(false),
                record_failure: true,
                heed_retry_after: false,
            },
            Step::BadGateway,
        )
    } else {
        Step::BadGateway
    }
}

/// What it means that the request could not be sent, or the body of the response not be read.
pub fn on_client_error(turn: &Turn, err: &ClientError) -> (r: Step)
    ensures
        r == step_on_client_error(*turn, *err),
{
    if is_retriable_error(err) {
        try_again_or(
            turn,
            Retry {
                switch: turn.should_switch(false),
                record_failure: true,
                heed_retry_after: false,
            },
            Step::BadGateway,
        )
    } else {
        Step::BadGateway
    }
}

/// What is done before the next try when an error stands in the body of a response.
pub open spec fn retry_on_stream_error(turn: Turn, status: u16, message: Seq<char>) -> Retry {
    let too_many = status == status::TOO_MANY_REQUESTS;
    Retry {
        switch: if retry::location_block(status, message) {
            turn.generation
        } else {
            turn.switches(too_many)
        },
        record_failure: !too_many,
        heed_retry_after: false,
    }
}

/// What is done before the next try when an error stands in the body of a response.
fn retry_after_stream_error(turn: &Turn, status: u16, message: &str) -> (r: Retry)
    ensures
        r == retry_on_stream_error(*turn, status, message@),
{
    let too_many = status == status::TOO_MANY_REQUESTS;
    Retry {
        switch: if is_location_block_error(status, message) {
            turn.generation
        } else {
            turn.should_switch(too_many)
        },
        record_failure: !too_many,
        heed_retry_after: false,
    }
}

/// The error in a chunk, where it is one to retry.
pub open spec fn chunk_failure(chunk: Seq<u8>, retry_all: bool) -> Option<(u16, Seq<char>)> {
    match stream::chunk_error(chunk) {
        Some((status, message)) if retry::to_retry(status, message, retry_all) => Some(
            (status, message),
        ),
        _ => None,
    }
}

/// The bytes of a row of chunks.
pub open spec fn joined(chunks: Seq<Vec<u8>>) -> Seq<u8>
    decreases chunks.len(),
{
    if chunks.len() == 0 {
        Seq::empty()
    } else {
        joined(chunks.drop_last()) + chunks.last()@
    }
}

/// The body of a response that is being read whole before any of it is passed on.
pub struct Buffer {
    status: u16,
    chunks: Vec<Vec<u8>>,
    failure: Option<(u16, String)>,
    retry_all: bool,
}

impl Buffer {
    /// The status of the response.
    pub closed spec fn status(self) -> u16 {
        self.status
    }

    /// The chunks that were read.
    pub closed spec fn chunks(self) -> Seq<Vec<u8>> {
        self.chunks@
    }

    /// Whether everything but success is retried.
    pub closed spec fn takes_all(self) -> bool {
        self.retry_all
    }

    /// The error that ended the reading.
    pub closed spec fn failure(self) -> Option<(u16, Seq<char>)> {
        match self.failure {
            Some((status, message)) => Some((status, message@)),
            None => None,
        }
    }

    /// The error to retry that a chunk of the response reports. In a response whose status is no
    /// success it is the status that counts, and none is looked for.
    pub open spec fn noticed(self, chunk: Seq<u8>) -> Option<(u16, Seq<char>)> {
        if status::success(self.status()) {
            chunk_failure(chunk, self.takes_all())
        } else {
            None
        }
    }

    /// No chunk reports an error to retry but the last, which reports the one that ended the
    /// reading.
    pub open spec fn well_formed(self) -> bool {
        &&& forall|i: int|
            0 <= i < self.chunks().len() - (if self.failure() is Some {
                1int
            } else {
                0int
            }) ==> self.noticed((#[trigger] self.chunks()[i])@) is None
        &&& self.failure() is Some ==> self.chunks().len() > 0 && self.noticed(
            self.chunks().last()@,
        ) == self.failure()
    }

    /// A body of which nothing was read yet.
    pub fn new(status: u16, retry_all: bool) -> (r: Buffer)
        ensures
            r.well_formed(),
            r.status() == status,
            r.chunks().len() == 0,
            r.failure() is None,
            r.takes_all() == retry_all,
    {
        Buffer { status, chunks: Vec::new(), failure: None, retry_all }
    }

    /// Takes in a chunk. Whether the reading goes on.
    pub fn push(&mut self, chunk: Vec<u8>) -> (r: bool)
        requires
            old(self).well_formed(),
            old(self).failure() is None,
        ensures
            final(self).well_formed(),
            final(self).status() == old(self).status(),
            final(self).chunks() == old(self).chunks().push(chunk),
            final(self).takes_all() == old(self).takes_all(),
            final(self).failure() == old(self).noticed(chunk@),
            r == (final(self).failure() is None),
    {
        let ghost before = self.chunks@;
        let failure = if !status::is_success(self.status) {
            None
        } else {
            match parse_in_stream_error(&chunk) {
                Some((status, message)) => if is_retriable_in_stream_with_flag(
                    status,
                    message.as_str(),
                    self.retry_all,
                ) {
                    Some((status, message))
                } else {
                    None
                },
                None => None,
            }
        };
        let goes_on = failure.is_none();
        self.failure = failure;
        self.chunks.push(chunk);
        proof {
            assert forall|i: int| 0 <= i < before.len() implies self.noticed(
                (#[trigger] self.chunks()[i])@,
            ) is None by {
                assert(self.chunks()[i] == old(self).chunks()[i]);
            }
        }
        goes_on
    }

    /// The chunks that were read.
    pub fn into_chunks(self) -> (r: Vec<Vec<u8>>)
        ensures
            r@ == self.chunks(),
    {
        self.chunks
    }

    /// The body that was read brings nothing: there is no chunk, or what the chunks hold, if that
    /// is anything, is an empty response.
    pub open spec fn brings_nothing(self) -> bool {
        let body = joined(self.chunks());
        self.chunks().len() == 0 || body.len() > 0 && stream::empty_response(body)
    }

    /// Whether the body that was read brings nothing.
    fn is_blank(&self) -> (r: bool)
        ensures
            r == self.brings_nothing(),
    {
        if self.chunks.len() == 0 {
            return true;
        }
        let mut body: Vec<u8> = Vec::new();
        let mut i: usize = 0;
        proof {
            assert(self.chunks@.take(0) =~= Seq::<Vec<u8>>::empty());
        }
        while i < self.chunks.len()
            invariant
                i <= self.chunks@.len(),
                body@ == joined(self.chunks@.take(i as int)),
            decreases self.chunks@.len() - i,
        {
            proof {
                assert(self.chunks@.take(i + 1).drop_last() =~= self.chunks@.take(i as int));
                assert(self.chunks@.take(i + 1).last() == self.chunks@[i as int]);
            }
            body.extend_from_slice(&self.chunks[i]);
            i += 1;
        }
        proof {
            assert(self.chunks@.take(self.chunks@.len() as int) =~= self.chunks@);
        }
        body.len() > 0 && is_empty_candidate_response(&body)
    }
}

/// What it means that a body was read whole, as far as the error in it, or as far as the reading
/// failed. A response without content is no refusal, and is tried again only where it says that it
/// is a success.
pub open spec fn verdict_on_buffer(
    turn: Turn,
    buffer: Buffer,
    broken: Option<ClientError>,
) -> Verdict {
    let success = status::success(buffer.status());
    let forward = Step::Forward { record_success: success && turn.has_node };
    match buffer.failure() {
        Some((inner, message)) => Verdict {
            step: retry_or(turn, retry_on_stream_error(turn, inner, message), forward),
            quarantine: turn.may_retry() && turn.has_node && retry::location_block(
                inner,
                message,
            ),
        },
        None => Verdict {
            step: match broken {
                Some(err) => step_on_client_error(turn, err),
                None => if success && turn.answering_call && buffer.brings_nothing() {
                    retry_or(turn, retry_on_nothing(turn), forward)
                } else {
                    forward
                },
            },
            quarantine: false,
        },
    }
}

/// What is done before the next try when a response has no content.
pub open spec fn retry_on_nothing(turn: Turn) -> Retry {
    Retry { switch: turn.switches(false), record_failure: false, heed_retry_after: false }
}

/// What is done before the next try when a response has no content.
fn retry_after_nothing(turn: &Turn) -> (r: Retry)
    ensures
        r == retry_on_nothing(*turn),
{
    Retry { switch: turn.should_switch(false), record_failure: false, heed_retry_after: false }
}

/// What it means that a body was read whole, as far as the error in it, or as far as the reading
/// failed.
pub fn on_buffer(turn: &Turn, buffer: &Buffer, broken: Option<ClientError>) -> (r: Verdict)
    ensures
        r == verdict_on_buffer(*turn, *buffer, broken),
{
    let success = status::is_success(buffer.status);
    let forward = Step::Forward { record_success: success && turn.has_node };
    match &buffer.failure {
        Some((inner, message)) => {
            let retry = retry_after_stream_error(turn, *inner, message.as_str());
            Verdict {
                step: try_again_or(turn, retry, forward),
                quarantine: turn.has_retry() && turn.has_node && is_location_block_error(
                    *inner,
                    message.as_str(),
                ),
            }
        },
        None => {
            let step = match broken {
                Some(err) => on_client_error(turn, &err),
                None => if success && turn.answering_call && buffer.is_blank() {
                    try_again_or(turn, retry_after_nothing(turn), forward)
                } else {
                    forward
                },
            };
            Verdict { step, quarantine: false }
        },
    }
}

/// The error in the first event of a stream, where it is one to retry.
pub open spec fn opening_failure(chunk: Seq<u8>, retry_all: bool) -> Option<(u16, Seq<char>)> {
    match stream::opening_error(chunk) {
        Some((status, message)) if retry::to_retry(status, message, retry_all) => Some(
            (status, message),
        ),
        _ => None,
    }
}

/// What the first chunk of a stream means, before anything of it is passed on. Errors and missing
/// content in it count only where the response says that it is a success.
pub open spec fn verdict_on_opening(turn: Turn, status: u16, chunk: Seq<u8>) -> Verdict {
    let success = status::success(status);
    let forward = Step::Forward { record_success: success && turn.has_node };
    let failure = opening_failure(chunk, turn.retry_all);
    if success && turn.may_retry() && failure is Some {
        let (inner, message) = failure->0;
        Verdict {
            step: Step::Retry(retry_on_stream_error(turn, inner, message)),
            quarantine: turn.has_node && retry::location_block(inner, message),
        }
    } else if success && turn.may_retry() && turn.content_call && stream::opening_empty(chunk) {
        only(Step::Retry(retry_on_nothing(turn)))
    } else {
        only(forward)
    }
}

/// What the first chunk of a stream means, before anything of it is passed on.
pub fn on_opening(turn: &Turn, status: u16, chunk: &[u8]) -> (r: Verdict)
    ensures
        r == verdict_on_opening(*turn, status, chunk@),
{
    let success = status::is_success(status);
    if success && turn.has_retry() {
        if let Some((inner, message)) = parse_opening_error(chunk) {
            if is_retriable_in_stream_with_flag(inner, message.as_str(), turn.retry_all) {
                let retry = retry_after_stream_error(turn, inner, message.as_str());
                return Verdict {
                    step: Step::Retry(retry),
                    quarantine: turn.has_node && is_location_block_error(inner, message.as_str()),
                };
            }
        }
        if turn.content_call && is_opening_empty(chunk) {
            return Verdict { step: Step::Retry(retry_after_nothing(turn)), quarantine: false };
        }
    }
    Verdict {
        step: Step::Forward { record_success: success && turn.has_node },
        quarantine: false,
    }
}

/// What it means that a stream ends before its first chunk.
pub open spec fn step_on_no_chunk(turn: Turn, status: u16) -> Step {
    let forward = Step::Forward { record_success: false };
    if status::success(status) && turn.content_call {
        retry_or(turn, retry_on_nothing(turn), forward)
    } else {
        forward
    }
}

/// What it means that a stream ends before its first chunk.
pub fn on_no_chunk(turn: &Turn, status: u16) -> (r: Step)
    ensures
        r == step_on_no_chunk(*turn, status),
{
    let forward = Step::Forward { record_success: false };
    if status::is_success(status) && turn.content_call {
        try_again_or(turn, retry_after_nothing(turn), forward)
    } else {
        forward
    }
}

/// What can happen in a try.
pub enum Event {
    /// The request could not be sent, or the first chunk of the response not be read.
    Failed(ClientError),
    /// The response has come, with this status.
    Status(u16),
    /// The first chunk of a refusal was read, if it has one.
    Refusal { status: u16, first: Option<Vec<u8>> },
    /// The body was read into a buffer, as far as `broken` did not end it.
    Body { buffer: Buffer, broken: Option<ClientError> },
    /// The first chunk of the body was read.
    Opening { status: u16, chunk: Vec<u8> },
    /// The body ended before its first chunk.
    NoChunk { status: u16 },
}

/// A step without a quarantine.
pub open spec fn only(step: Step) -> Verdict {
    Verdict { step, quarantine: false }
}

/// What a refusal is judged by: the beginning of its first chunk.
pub open spec fn refusal_text(first: Option<Vec<u8>>) -> Seq<char> {
    match first {
        Some(chunk) => beginning(chunk@, SNIPPET_BYTES as nat),
        None => Seq::empty(),
    }
}

/// What comes next after an event.
pub open spec fn verdict_on(turn: Turn, event: Event) -> Verdict {
    match event {
        Event::Failed(err) => only(step_on_client_error(turn, err)),
        Event::Status(status) => only(step_on_status(turn, status)),
        Event::Refusal { status, first } => verdict_on_refusal(turn, status, refusal_text(first)),
        Event::Body { buffer, broken } => verdict_on_buffer(turn, buffer, broken),
        Event::Opening { status, chunk } => verdict_on_opening(turn, status, chunk@),
        Event::NoChunk { status } => only(step_on_no_chunk(turn, status)),
    }
}

/// What comes next after an event.
pub fn judge(turn: &Turn, event: &Event) -> (r: Verdict)
    ensures
        r == verdict_on(*turn, *event),
{
    match event {
        Event::Failed(err) => Verdict { step: on_client_error(turn, err), quarantine: false },
        Event::Status(status) => Verdict { step: on_status(turn, *status), quarantine: false },
        Event::Refusal { status, first } => {
            let snippet = match first {
                Some(chunk) => snippet_of(chunk, SNIPPET_BYTES),
                None => String::new(),
            };
            on_refusal(turn, *status, snippet.as_str())
        },
        Event::Body { buffer, broken } => on_buffer(turn, buffer, *broken),
        Event::Opening { status, chunk } => on_opening(turn, *status, chunk),
        Event::NoChunk { status } => Verdict {
            step: on_no_chunk(turn, *status),
            quarantine: false,
        },
    }
}

impl Event {
    /// The chunks of the response that were read.
    pub open spec fn chunks_read(self) -> Seq<Vec<u8>> {
        match self {
            Event::Refusal { first: Some(chunk), .. } => seq![chunk],
            Event::Body { buffer, .. } => buffer.chunks(),
            Event::Opening { chunk, .. } => seq![chunk],
            _ => Seq::empty(),
        }
    }
}

/// The chunks that are passed on ahead of what follows them: all that were read, unchanged, where
/// the response is passed on, and else none.
pub open spec fn passed_on(step: Step, event: Event) -> Seq<Vec<u8>> {
    if step is Forward {
        event.chunks_read()
    } else {
        Seq::empty()
    }
}

/// The chunks that are passed on ahead of what follows them: all that were read, unchanged, where
/// the response is passed on, and else none.
pub fn chunks_to_pass_on(step: &Step, event: Event) -> (r: Vec<Vec<u8>>)
    ensures
        r@ == passed_on(*step, event),
{
    match step {
        Step::Forward { .. } => match event {
            Event::Refusal { first, .. } => match first {
                Some(chunk) => vec![chunk],
                None => Vec::new(),
            },
            Event::Body { buffer, .. } => buffer.into_chunks(),
            Event::Opening { chunk, .. } => vec![chunk],
            _ => Vec::new(),
        },
        _ => Vec::new(),
    }
}

/// How much of the first chunk of a refusal is judged, in bytes.
pub const SNIPPET_BYTES: usize = 512;

/// How much of the first chunk of another failure is told, in bytes.
pub const BRIEF_SNIPPET_BYTES: usize = 200;

/// The beginning of a chunk as text, without white space at its ends; with dots where the chunk
/// goes on.
pub open spec fn beginning(chunk: Seq<u8>, limit: nat) -> Seq<char> {
    if chunk.len() > limit {
        text::trimmed(text::utf8_lossy(chunk.take(limit as int))) + "..."@
    } else {
        text::trimmed(text::utf8_lossy(chunk))
    }
}

/// The beginning of a chunk as text.
pub fn snippet_of(chunk: &[u8], limit: usize) -> (r: String)
    ensures
        r@ == beginning(chunk@, limit as nat),
{
    if chunk.len() > limit {
        let head = vstd::slice::slice_subrange(chunk, 0, limit);
        proof {
            assert(head@ =~= chunk@.take(limit as int));
        }
        let all = chars_of(text::from_utf8_lossy(head).as_str());
        string_of(trim(&all)).concat("...")
    } else {
        let all = chars_of(text::from_utf8_lossy(chunk).as_str());
        string_of(trim(&all))
    }
}

/// Why a node that was refused for its location goes into quarantine: whether the refusal stood in
/// the body of a response or was its status.
pub fn quarantine_reason(in_stream: bool) -> (r: &'static str)
    ensures
        r@ == (if in_stream {
            "in_stream_location_blocked"@
        } else {
            "400_location_blocked"@
        }),
        text::occurs(r@, "location"@),
{
    proof {
        reveal_strlit("in_stream_location_blocked");
        reveal_strlit("400_location_blocked");
        reveal_strlit("location");
        assert("in_stream_location_blocked"@.subrange(10, 18) =~= "location"@);
        assert("400_location_blocked"@.subrange(4, 12) =~= "location"@);
        assert(text::occurs_at("in_stream_location_blocked"@, "location"@, 10));
        assert(text::occurs_at("400_location_blocked"@, "location"@, 4));
    }
    if in_stream {
        "in_stream_location_blocked"
    } else {
        "400_location_blocked"
    }
}

/// How long to wait before the next try, where the response asks for `retry_after`, if anything.
pub fn wait_before_retry(
    config: &Config,
    attempt: u32,
    retry: &Retry,
    retry_after: Option<&str>,
) -> (r: Delay)
    ensures
        r@ <= config.max_delay_ms * delay::NANOS_PER_MILLI,
        match heeded(*retry, text::slice_text(retry_after)) {
            Some(header) => exists|now: retry::Moment| #[trigger]
                waits_as_asked(r@, *config, attempt, header, now.nanos()),
            None => waits_unasked(r@, *config, attempt),
        },
{
    let initial = Delay::from_millis(config.initial_delay_ms);
    let max = Delay::from_millis(config.max_delay_ms);
    let asked = match retry_after {
        Some(header) => if retry.heed_retry_after {
            parse_retry_after(header)
        } else {
            None
        },
        None => None,
    };
    let r = calculate_backoff(attempt, initial, max, config.is_jitter_enabled(), asked);
    proof {
        retry::backoff_within_maximum(attempt, initial@, max@);
        assert(initial@ == (config.initial_delay_ms * delay::NANOS_PER_MILLI) as nat);
        assert(max@ == (config.max_delay_ms * delay::NANOS_PER_MILLI) as nat);
        let steady = retry::backoff(attempt, initial@, max@);
        if asked is None && !config.no_jitter {
            let millis = choose|millis: u64| #[trigger] retry::jittered(r@, millis, steady, max@);
            assert(retry::jittered(r@, millis, steady, max@));
        }
        if let Some(header) = heeded(*retry, text::slice_text(retry_after)) {
            let now = choose|now: retry::Moment|
                retry::waits(asked, #[trigger] retry::asked_wait(header, now.nanos()));
            assert(waits_as_asked(r@, *config, attempt, header, now.nanos()));
        }
    }
    r
}

/// The `Retry-After` header that is kept to.
pub open spec fn heeded(retry: Retry, retry_after: Option<Seq<char>>) -> Option<Seq<char>> {
    if retry.heed_retry_after {
        retry_after
    } else {
        None
    }
}

/// A wait is the backoff before the try after this one, or a jittered one where jitter is on.
pub open spec fn waits_unasked(wait: nat, config: Config, attempt: u32) -> bool {
    let initial = (config.initial_delay_ms * delay::NANOS_PER_MILLI) as nat;
    let max = (config.max_delay_ms * delay::NANOS_PER_MILLI) as nat;
    let steady = retry::backoff(attempt, initial, max);
    if config.no_jitter {
        wait == steady
    } else {
        exists|millis: u64| #[trigger] retry::jittered(wait, millis, steady, max)
    }
}

/// A wait is the one that a `Retry-After` header asks for at the moment `now`, within the maximum;
/// where it asks for none, it is a wait as if there were no header.
pub open spec fn waits_as_asked(
    wait: nat,
    config: Config,
    attempt: u32,
    header: Seq<char>,
    now: int,
) -> bool {
    let max = (config.max_delay_ms * delay::NANOS_PER_MILLI) as nat;
    match retry::asked_wait(header, now) {
        Some(asked) => wait == vstd::math::min(asked as int, max as int),
        None => waits_unasked(wait, config, attempt),
    }
}

/// The number of the try after this one, as far as 32 bits tell.
pub fn next_attempt(attempt: u32) -> (r: u32)
    ensures
        r == (if attempt == u32::MAX {
            u32::MAX
        } else {
            (attempt + 1) as u32
        }),
{
    attempt.saturating_add(1)
}

/// There is no other try but where there may be one, whatever happens in this one.
pub proof fn retries_stay_within_limit(turn: Turn, event: Event)
    ensures
        verdict_on(turn, event).step is Retry ==> turn.may_retry(),
{
}

/// A request is tried at most once more than there may be retries: if each try but the last led
/// to another, there are no more than that.
pub proof fn tries_are_limited(turns: Seq<Turn>, events: Seq<Event>, max_retries: u32)
    requires
        max_retries > 0,
        turns.len() == events.len(),
        forall|i: int|
            0 <= i < turns.len() ==> (#[trigger] turns[i]).attempt == i && turns[i].max_retries
                == max_retries,
        forall|i: int|
            0 <= i < turns.len() - 1 ==> verdict_on(#[trigger] turns[i], events[i]).step is Retry,
    ensures
        turns.len() <= max_retries + 1,
{
    if turns.len() > 1 {
        let i = turns.len() - 2;
        retries_stay_within_limit(turns[i], events[i]);
    }
}

/// Nothing of a buffered response in which an error to retry stands is passed on as long as there
/// may be another try, wherever in it the error stands.
pub proof fn buffered_error_is_not_leaked(
    turn: Turn,
    buffer: Buffer,
    broken: Option<ClientError>,
    i: int,
)
    requires
        buffer.well_formed(),
        0 <= i < buffer.chunks().len(),
        buffer.noticed(buffer.chunks()[i]@) is Some,
        turn.may_retry(),
    ensures
        ({
            let event = Event::Body { buffer, broken };
            let step = verdict_on(turn, event).step;
            step is Retry && passed_on(step, event).len() == 0
        }),
{
}

/// Nothing of a buffered response whose connection breaks off is passed on, with or without
/// another try, of which there is one if there may be and the connection is to blame.
pub proof fn broken_response_is_not_leaked(turn: Turn, buffer: Buffer, err: ClientError)
    requires
        buffer.failure() is None,
    ensures
        ({
            let event = Event::Body { buffer, broken: Some(err) };
            let step = verdict_on(turn, event).step;
            &&& passed_on(step, event).len() == 0
            &&& !(step is Forward)
            &&& turn.may_retry() && !err.builder && !err.redirect && !err.status ==> step is Retry
        }),
{
}

/// An error to retry in the first event of a stream is met by another try, if there may be one,
/// before anything is passed on.
pub proof fn opening_error_is_not_leaked(turn: Turn, status: u16, chunk: Vec<u8>)
    requires
        status::success(status),
        opening_failure(chunk@, turn.retry_all) is Some,
        turn.may_retry(),
    ensures
        ({
            let event = Event::Opening { status, chunk };
            let step = verdict_on(turn, event).step;
            step is Retry && passed_on(step, event).len() == 0
        }),
{
}

/// A response that is passed on is passed on as it was read: no chunk is left out, cut or changed.
pub proof fn what_was_read_is_passed_on(turn: Turn, event: Event)
    requires
        verdict_on(turn, event).step is Forward,
    ensures
        passed_on(verdict_on(turn, event).step, event) == event.chunks_read(),
{
}

/// The wait that a response asks for is kept to where its status leads to another try, and nowhere
/// else.
pub proof fn retry_after_is_heeded(turn: Turn, event: Event)
    ensures
        verdict_on(turn, event).step matches Step::Retry(retry) ==> retry.heed_retry_after == (event
            is Status),
{
}

/// Too many requests are never the fault of the node, whether they are told by the status or in
/// the body.
pub proof fn too_many_requests_is_no_failure(turn: Turn, message: Seq<char>)
    ensures
        verdict_on(turn, Event::Status(status::TOO_MANY_REQUESTS)).step matches Step::Retry(retry)
            ==> !retry.record_failure,
        !retry_on_stream_error(turn, status::TOO_MANY_REQUESTS, message).record_failure,
{
}

/// An answer without content is never the fault of the node.
pub proof fn empty_answer_is_no_failure(turn: Turn, status: u16, buffer: Buffer)
    requires
        buffer.failure() is None,
    ensures
        verdict_on(turn, Event::NoChunk { status }).step matches Step::Retry(retry)
            ==> !retry.record_failure,
        verdict_on(turn, Event::Body { buffer, broken: None }).step matches Step::Retry(retry)
            ==> !retry.record_failure,
{
}

/// As long as the consensus anchor is held on to, neither a status other than 429 and 400, nor a
/// lost connection, nor an answer without content leads to a switch; nor does an error in the body
/// that speaks of neither too many requests nor the location.
pub proof fn anchor_is_held_on_to(turn: Turn, event: Event)
    requires
        turn.holds_on(),
        match event {
            Event::Failed(_) => true,
            Event::Status(status) => status != status::TOO_MANY_REQUESTS,
            Event::Refusal { status, .. } => status != status::BAD_REQUEST,
            Event::Body { buffer, .. } => buffer.failure() matches Some((inner, message)) ==> inner
                != status::TOO_MANY_REQUESTS && !retry::location_block(inner, message),
            Event::Opening { chunk, .. } => opening_failure(
                chunk@,
                turn.retry_all,
            ) matches Some((inner, message)) ==> inner != status::TOO_MANY_REQUESTS
                && !retry::location_block(inner, message),
            Event::NoChunk { .. } => true,
        },
    ensures
        verdict_on(turn, event).step matches Step::Retry(retry) ==> !retry.switch,
{
}

/// A request for generation that is refused for the node's location is tried again at another
/// node at once, if there may be another try, and the node goes into quarantine.
pub proof fn refused_location_is_left_at_once(turn: Turn, first: Option<Vec<u8>>)
    requires
        retry::location_block(status::BAD_REQUEST, refusal_text(first)),
        turn.may_retry(),
        turn.generation,
    ensures
        verdict_on(turn, Event::Refusal { status: status::BAD_REQUEST, first }) == (Verdict {
            step: Step::Retry(
                Retry { switch: true, record_failure: true, heed_retry_after: false },
            ),
            quarantine: turn.has_node,
        }),
{
}

/// Only a node that was refused for its location goes into quarantine.
pub proof fn quarantine_is_for_location(turn: Turn, event: Event)
    ensures
        verdict_on(turn, event).quarantine ==> turn.has_node && match event {
            Event::Refusal { status, first } => retry::location_block(status, refusal_text(first)),
            Event::Body { buffer, .. } => buffer.failure() matches Some((inner, message))
                && retry::location_block(inner, message),
            Event::Opening { chunk, .. } => opening_failure(
                chunk@,
                turn.retry_all,
            ) matches Some((inner, message)) && retry::location_block(inner, message),
            _ => false,
        },
{
}

/// A request that is not for generation never leads to a switch.
pub proof fn only_generation_switches(turn: Turn, event: Event)
    requires
        !turn.generation,
    ensures
        verdict_on(turn, event).step matches Step::Retry(retry) ==> !retry.switch,
{
}

/// A node gets three tries: a switch for which no location is to blame comes only after the third.
pub proof fn a_node_gets_three_tries(turn: Turn, event: Event)
    requires
        match event {
            Event::Refusal { status, first } => !retry::location_block(status, refusal_text(first)),
            Event::Body { buffer, .. } => buffer.failure() matches Some((inner, message))
                ==> !retry::location_block(inner, message),
            Event::Opening { chunk, .. } => opening_failure(
                chunk@,
                turn.retry_all,
            ) matches Some((inner, message)) ==> !retry::location_block(inner, message),
            _ => true,
        },
    ensures
        verdict_on(turn, event).step matches Step::Retry(retry) ==> retry.switch ==> turn.attempt
            % 3 == 2,
{
}

/// Without `retry_all`, a status that is no success, is not 400 and is none that the guidance says
/// to retry is passed on at the first try, whatever the body holds, if it holds anything, and
/// whether it is buffered or not.
pub proof fn other_refusals_are_passed_on(
    turn: Turn,
    status: u16,
    buffer: Buffer,
    chunk: Vec<u8>,
)
    requires
        !turn.retry_all,
        !retry::retriable(status),
        status != status::BAD_REQUEST,
        !status::success(status),
        buffer.well_formed(),
        buffer.status() == status,
    ensures
        verdict_on(turn, Event::Status(status)) == only(Step::ReadBody),
        verdict_on(turn, Event::Body { buffer, broken: None }) == only(
            Step::Forward { record_success: false },
        ),
        verdict_on(turn, Event::Opening { status, chunk }) == only(
            Step::Forward { record_success: false },
        ),
        verdict_on(turn, Event::NoChunk { status }) == only(
            Step::Forward { record_success: false },
        ),
{
}

/// Without `retry_all`, a 400 that does not speak of the location is passed on at the first try,
/// with the chunk that it was judged by as it came.
pub proof fn plain_bad_request_is_passed_on(turn: Turn, first: Option<Vec<u8>>)
    requires
        !turn.retry_all,
        !retry::speaks_of_location(refusal_text(first)),
    ensures
        ({
            let event = Event::Refusal { status: status::BAD_REQUEST, first };
            let verdict = verdict_on(turn, event);
            &&& verdict_on(turn, Event::Status(status::BAD_REQUEST)) == only(Step::ReadBeginning)
            &&& verdict == only(Step::Forward { record_success: false })
            &&& passed_on(verdict.step, event) == (match first {
                Some(chunk) => seq![chunk],
                None => Seq::empty(),
            })
        }),
{
}

/// With `retry_all`, whatever is no success is met by another try, if there may be one.
pub proof fn retry_all_retries_refusals(turn: Turn, status: u16, first: Option<Vec<u8>>)
    requires
        turn.retry_all,
        turn.may_retry(),
        !status::success(status),
    ensures
        verdict_on(turn, Event::Status(status)).step is Retry || verdict_on(
            turn,
            Event::Refusal { status, first },
        ).step is Retry && verdict_on(turn, Event::Status(status)).step is ReadBeginning,
{
}

/// A transient status leads to another try as long as fewer retries were made than there may be, of
/// which 0 means any number. A switch goes with it for generation alone, on every third try: for
/// 429 from the sixth on, and for the others unless the try is made at the consensus anchor and its
/// retries are not used up. All but 429 count as failures of the node, and a wait that is asked for
/// is kept to.
pub proof fn transient_statuses_lead_to_another_try(turn: Turn, status: u16)
    requires
        status == 408 || status == 429 || status == 500 || status == 502 || status == 503 || status
            == 504,
    ensures
        turn.max_retries == 0 || turn.attempt < turn.max_retries ==> verdict_on(
            turn,
            Event::Status(status),
        ) == (Verdict {
            step: Step::Retry(
                Retry {
                    switch: turn.generation && turn.attempt % 3 == 2 && (if status == 429 {
                        turn.attempt > 4
                    } else {
                        !turn.at_anchor || turn.attempt >= turn.hysteresis
                    }),
                    record_failure: status != 429,
                    heed_retry_after: true,
                },
            ),
            quarantine: false,
        }),
        turn.max_retries > 0 && turn.attempt >= turn.max_retries ==> verdict_on(
            turn,
            Event::Status(status),
        ) == (Verdict { step: Step::ReadBody, quarantine: false }),
{
}

/// Any other status is judged by what follows: a 400, and with `retry_all` all that is no success,
/// by the first chunk, and everything else by the body.
pub proof fn other_statuses_are_looked_into(turn: Turn, status: u16)
    requires
        status != 408 && status != 429 && status != 500 && status != 502 && status != 503 && status
            != 504,
    ensures
        verdict_on(turn, Event::Status(status)) == (Verdict {
            step: if status == 400 || turn.retry_all && !(200 <= status <= 299) {
                Step::ReadBeginning
            } else {
                Step::ReadBody
            },
            quarantine: false,
        }),
{
}

/// A lost connection leads to another try as long as there may be one, and counts as a failure of
/// the node; without another try, and where the request itself is to blame, the client is told of a
/// bad gateway.
pub proof fn lost_connections_are_tried_again(turn: Turn, err: ClientError)
    ensures
        verdict_on(turn, Event::Failed(err)) == (Verdict {
            step: if !err.builder && !err.redirect && !err.status && (turn.max_retries == 0
                || turn.attempt < turn.max_retries) {
                Step::Retry(
                    Retry {
                        switch: turn.generation && turn.attempt % 3 == 2 && (!turn.at_anchor
                            || turn.attempt >= turn.hysteresis),
                        record_failure: true,
                        heed_retry_after: false,
                    },
                )
            } else {
                Step::BadGateway
            },
            quarantine: false,
        }),
{
}

/// With `retry_all` a refusal other than 400 is met by another try like a lost connection, and
/// passed on where there may be none.
pub proof fn retry_all_treats_refusals_as_failures(
    turn: Turn,
    status: u16,
    first: Option<Vec<u8>>,
)
    requires
        turn.retry_all,
        status != 400,
        !(200 <= status <= 299),
    ensures
        verdict_on(turn, Event::Refusal { status, first }) == (Verdict {
            step: if turn.max_retries == 0 || turn.attempt < turn.max_retries {
                Step::Retry(
                    Retry {
                        switch: turn.generation && turn.attempt % 3 == 2 && (!turn.at_anchor
                            || turn.attempt >= turn.hysteresis),
                        record_failure: true,
                        heed_retry_after: false,
                    },
                )
            } else {
                Step::Forward { record_success: false }
            },
            quarantine: false,
        }),
{
}

/// An error that a chunk of a successful response reports is one to retry where its status is
/// transient, where it is a refusal for the location, and with `retry_all` where it is no success.
pub proof fn errors_to_retry_are_noticed(buffer: Buffer, chunk: Seq<u8>)
    ensures
        !(200 <= buffer.status() <= 299) ==> buffer.noticed(chunk) is None,
        200 <= buffer.status() <= 299 ==> match stream::chunk_error(chunk) {
            Some((status, message)) => {
                let retried = if buffer.takes_all() {
                    !(200 <= status <= 299)
                } else {
                    status == 408 || status == 429 || status == 500 || status == 502 || status
                        == 503 || status == 504 || retry::location_block(status, message)
                };
                buffer.noticed(chunk) == (if retried {
                    Some((status, message))
                } else {
                    None
                })
            },
            None => buffer.noticed(chunk) is None,
        },
{
}

/// An error to retry in a buffered body leads to another try as long as there may be one: at once
/// at another node where it is a refusal for the location, which puts the node in quarantine, and
/// else as the status of the error would. Without another try the response is passed on.
pub proof fn an_error_in_the_body_is_met_like_its_status(
    turn: Turn,
    buffer: Buffer,
    broken: Option<ClientError>,
    status: u16,
    message: Seq<char>,
)
    requires
        buffer.failure() == Some((status, message)),
    ensures
        turn.max_retries == 0 || turn.attempt < turn.max_retries ==> verdict_on(
            turn,
            Event::Body { buffer, broken },
        ) == (Verdict {
            step: Step::Retry(
                Retry {
                    switch: turn.generation && (retry::location_block(status, message)
                        || turn.attempt % 3 == 2 && (if status == 429 {
                        turn.attempt > 4
                    } else {
                        !turn.at_anchor || turn.attempt >= turn.hysteresis
                    })),
                    record_failure: status != 429,
                    heed_retry_after: false,
                },
            ),
            quarantine: turn.has_node && retry::location_block(status, message),
        }),
        turn.max_retries > 0 && turn.attempt >= turn.max_retries ==> verdict_on(
            turn,
            Event::Body { buffer, broken },
        ) == (Verdict {
            step: Step::Forward {
                record_success: 200 <= buffer.status() <= 299 && turn.has_node,
            },
            quarantine: false,
        }),
{
}

/// A buffered body that was read to its end without an error is tried again just where a success
/// owes an answer and there is none: there is no chunk, or what the chunks hold together brings
/// nothing. Else it is passed on, and counts as a success where the status says so and the node is
/// known.
pub proof fn a_whole_body_is_judged_by_what_it_brings(turn: Turn, buffer: Buffer)
    requires
        buffer.failure() is None,
    ensures
        ({
            let body = joined(buffer.chunks());
            let success = 200 <= buffer.status() <= 299;
            let nothing = buffer.chunks().len() == 0 || body.len() > 0 && stream::empty_response(
                body,
            );
            let again = turn.max_retries == 0 || turn.attempt < turn.max_retries;
            verdict_on(turn, Event::Body { buffer, broken: None }) == (Verdict {
                step: if success && turn.answering_call && nothing && again {
                    Step::Retry(
                        Retry {
                            switch: turn.generation && turn.attempt % 3 == 2 && (!turn.at_anchor
                                || turn.attempt >= turn.hysteresis),
                            record_failure: false,
                            heed_retry_after: false,
                        },
                    )
                } else {
                    Step::Forward { record_success: success && turn.has_node }
                },
                quarantine: false,
            })
        }),
{
}

/// The chunks of a body hold together what they hold one after the other.
pub proof fn chunks_are_joined_in_order(chunks: Seq<Vec<u8>>, chunk: Vec<u8>)
    ensures
        joined(Seq::empty()) == Seq::<u8>::empty(),
        joined(chunks.push(chunk)) == joined(chunks) + chunk@,
{
    assert(chunks.push(chunk).drop_last() =~= chunks);
}

/// The first chunk of a stream that is a success is met by another try, if there may be one, where
/// its first event reports an error to retry, or where content is owed and it brings none. Else the
/// stream is passed on.
pub proof fn a_stream_is_judged_by_its_first_chunk(turn: Turn, status: u16, chunk: Vec<u8>)
    ensures
        ({
            let success = 200 <= status <= 299;
            let again = success && (turn.max_retries == 0 || turn.attempt < turn.max_retries);
            let error = stream::opening_error(chunk@);
            let retried = match error {
                Some((inner, message)) => if turn.retry_all {
                    !(200 <= inner <= 299)
                } else {
                    inner == 408 || inner == 429 || inner == 500 || inner == 502 || inner == 503
                        || inner == 504 || retry::location_block(inner, message)
                },
                None => false,
            };
            let verdict = verdict_on(turn, Event::Opening { status, chunk });
            &&& again && retried ==> match error {
                Some((inner, message)) => verdict == (Verdict {
                    step: Step::Retry(
                        Retry {
                            switch: turn.generation && (retry::location_block(inner, message)
                                || turn.attempt % 3 == 2 && (if inner == 429 {
                                turn.attempt > 4
                            } else {
                                !turn.at_anchor || turn.attempt >= turn.hysteresis
                            })),
                            record_failure: inner != 429,
                            heed_retry_after: false,
                        },
                    ),
                    quarantine: turn.has_node && retry::location_block(inner, message),
                }),
                None => false,
            }
            &&& again && !retried && turn.content_call && stream::opening_empty(chunk@)
                ==> verdict == (Verdict {
                step: Step::Retry(
                    Retry {
                        switch: turn.generation && turn.attempt % 3 == 2 && (!turn.at_anchor
                            || turn.attempt >= turn.hysteresis),
                        record_failure: false,
                        heed_retry_after: false,
                    },
                ),
                quarantine: false,
            })
            &&& !again || !retried && !(turn.content_call && stream::opening_empty(chunk@))
                ==> verdict == (Verdict {
                step: Step::Forward { record_success: success && turn.has_node },
                quarantine: false,
            })
        }),
{
}

/// A successful stream without a first chunk is met by another try where content is owed and there
/// may be one, and else passed on without counting as a success.
pub proof fn a_stream_without_chunks_is_judged(turn: Turn, status: u16)
    ensures
        verdict_on(turn, Event::NoChunk { status }) == (Verdict {
            step: if 200 <= status <= 299 && turn.content_call && (turn.max_retries == 0
                || turn.attempt < turn.max_retries) {
                Step::Retry(
                    Retry {
                        switch: turn.generation && turn.attempt % 3 == 2 && (!turn.at_anchor
                            || turn.attempt >= turn.hysteresis),
                        record_failure: false,
                        heed_retry_after: false,
                    },
                )
            } else {
                Step::Forward { record_success: false }
            },
            quarantine: false,
        }),
{
}

/// A 400 that is no refusal for the location is passed on by default; with `retry_all` it is met by
/// another try, if there may be one, at another node on every third try of a generation.
pub proof fn a_plain_bad_request_is_met(turn: Turn, first: Option<Vec<u8>>)
    requires
        !retry::location_block(400, refusal_text(first)),
    ensures
        verdict_on(turn, Event::Refusal { status: 400, first }) == (Verdict {
            step: if turn.retry_all && (turn.max_retries == 0 || turn.attempt < turn.max_retries) {
                Step::Retry(
                    Retry {
                        switch: turn.generation && turn.attempt % 3 == 2,
                        record_failure: true,
                        heed_retry_after: false,
                    },
                )
            } else {
                Step::Forward { record_success: false }
            },
            quarantine: false,
        }),
{
}

/// A refusal is judged by the first 512 bytes of its first chunk alone, and not at all by what
/// comes after them.
pub proof fn a_refusal_is_judged_by_its_beginning(a: Vec<u8>, b: Vec<u8>)
    requires
        a@.len() > 512,
        b@.len() > 512,
        a@.take(512) == b@.take(512),
    ensures
        refusal_text(Some(a)) == refusal_text(Some(b)),
        refusal_text(None) == Seq::<char>::empty(),
{
}

/// A refusal of up to 512 bytes is judged by all of them, and what is told of a failure in brief
/// holds up to 200 bytes; longer ones are cut there.
pub proof fn short_refusals_are_judged_whole(chunk: Vec<u8>)
    ensures
        chunk@.len() <= 512 ==> refusal_text(Some(chunk)) == text::trimmed(
            text::utf8_lossy(chunk@),
        ),
        chunk@.len() > 512 ==> refusal_text(Some(chunk)) == text::trimmed(
            text::utf8_lossy(chunk@.subrange(0, 512)),
        ) + seq!['.', '.', '.'],
        chunk@.len() <= 200 ==> beginning(chunk@, BRIEF_SNIPPET_BYTES as nat) == text::trimmed(
            text::utf8_lossy(chunk@),
        ),
        chunk@.len() > 200 ==> beginning(chunk@, BRIEF_SNIPPET_BYTES as nat) == text::trimmed(
            text::utf8_lossy(chunk@.subrange(0, 200)),
        ) + seq!['.', '.', '.'],
{
    a_chunk_is_told_by_its_beginning(chunk@, 512);
    a_chunk_is_told_by_its_beginning(chunk@, 200);
}

/// A short chunk is told whole as text, but for white space at its ends; a longer one by its
/// beginning, with dots.
pub proof fn a_chunk_is_told_by_its_beginning(chunk: Seq<u8>, limit: nat)
    ensures
        chunk.len() <= limit ==> beginning(chunk, limit) == text::trimmed(text::utf8_lossy(chunk)),
        chunk.len() > limit ==> beginning(chunk, limit) == text::trimmed(
            text::utf8_lossy(chunk.subrange(0, limit as int)),
        ) + seq!['.', '.', '.'],
{
    reveal_strlit("...");
    assert("..."@ =~= seq!['.', '.', '.']);
    if chunk.len() > limit {
        assert(chunk.take(limit as int) =~= chunk.subrange(0, limit as int));
    }
}

/// Without jitter and without a wait that is asked for, the wait before the second try is the
/// initial one of the settings, within their maximum, and no wait is longer than that; a number of
/// seconds that a header asks for is waited, within the maximum.
pub proof fn waits_follow_the_settings(
    wait: nat,
    config: Config,
    attempt: u32,
    header: Seq<char>,
    secs: nat,
    now: int,
)
    requires
        text::unsigned(text::trimmed(header)) == Some(secs),
        secs <= u64::MAX,
    ensures
        config.no_jitter && waits_unasked(wait, config, 0) ==> wait == vstd::math::min(
            1_000_000 * config.initial_delay_ms,
            1_000_000 * config.max_delay_ms,
        ),
        waits_unasked(wait, config, attempt) ==> wait <= 1_000_000 * config.max_delay_ms,
        waits_as_asked(wait, config, attempt, header, now) <==> wait == vstd::math::min(
            1_000_000_000 * secs as int,
            1_000_000 * config.max_delay_ms,
        ),
{
    let initial = (config.initial_delay_ms * delay::NANOS_PER_MILLI) as nat;
    let max = (config.max_delay_ms * delay::NANOS_PER_MILLI) as nat;
    retry::the_first_wait_is_the_initial_one(initial, max);
    retry::backoff_within_maximum(attempt, initial, max);
    retry::a_number_asks_for_seconds(header, secs, now);
}

/// What is passed on are the chunks that were read: of a refusal its first, of a buffered body all,
/// of a stream its first; and none where the response is not passed on.
pub proof fn chunks_that_were_read_are_passed_on(
    step: Step,
    status: u16,
    chunk: Vec<u8>,
    buffer: Buffer,
    broken: Option<ClientError>,
    event: Event,
)
    ensures
        step is Forward ==> passed_on(step, Event::Refusal { status, first: Some(chunk) }) == seq![
            chunk,
        ],
        step is Forward ==> passed_on(step, Event::Body { buffer, broken }) == buffer.chunks(),
        step is Forward ==> passed_on(step, Event::Opening { status, chunk }) == seq![chunk],
        !(step is Forward) ==> passed_on(step, event).len() == 0,
{
}

/// A wait that is asked for is kept to just where the next try is to heed it.
pub proof fn a_header_is_heeded_where_it_is_to_be(retry: Retry, header: Seq<char>)
    ensures
        retry.heed_retry_after ==> heeded(retry, Some(header)) == Some(header),
        !retry.heed_retry_after ==> heeded(retry, Some(header)) is None,
        heeded(retry, None) is None,
{
}

} // verus!
