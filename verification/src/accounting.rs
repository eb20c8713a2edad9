//! What is recorded of each request: its usage, and the attempts that it took.

use crate::ids;
use crate::state::opt_text;
use crate::text;
use vstd::prelude::*;

verus! {

/// Which parts of the relay are set up.
#[derive(Debug, Clone, Copy)]
pub struct AppState {
    /// A log of usage.
    pub usage_recorder: bool,
    /// Running totals of usage.
    pub usage_aggregator: bool,
    /// Totals per client key.
    pub client_keys: bool,
    /// A log of attempts.
    pub trace_store: bool,
}

/// The usage of one request.
#[derive(Debug)]
pub struct UsageRecord {
    /// When the request ended.
    pub ts: String,
    pub key_id: u64,
    pub credential_id: u64,
    pub model: String,
    pub input_tokens: u64,
    pub output_tokens: u64,
    pub cache_creation_tokens: u64,
    pub cache_read_tokens: u64,
    pub status: String,
}

/// A usage record, and where it goes.
#[derive(Debug)]
pub struct RecordPlan {
    pub record: UsageRecord,
    pub to_recorder: bool,
    pub to_aggregator: bool,
    pub to_client_keys: bool,
}

/// Records the usage of one request at its end.
#[derive(Debug)]
pub struct UsageRecordHook {
    pub recorder: bool,
    pub aggregator: bool,
    pub client_keys: bool,
    pub key_id: u64,
    pub model: String,
}

/// Calls `chrono::Utc::now`, then `to_rfc3339`.
///
/// The text depends on the time, so nothing is said of it.
#[verifier::external_body]
fn current_time() -> String {
    chrono::Utc::now().to_rfc3339()
}

/// A count that is not below zero.
pub open spec fn at_least_zero(n: int) -> int {
    if n < 0 {
        0
    } else {
        n
    }
}

fn non_negative(n: i32) -> (r: u64)
    ensures
        r == at_least_zero(n as int),
{
    if n < 0 {
        0
    } else {
        n as u64
    }
}

/// Whether `plan` is the plan for a request with the given counts and status. A client key is
/// charged for its successes only, and the relay's own key for nothing.
pub open spec fn records(
    plan: RecordPlan,
    hook: UsageRecordHook,
    credential_id: u64,
    counts: (int, int, int, int),
    status: Seq<char>,
) -> bool {
    &&& plan.record.key_id == hook.key_id
    &&& plan.record.credential_id == credential_id
    &&& plan.record.model@ == hook.model@
    &&& plan.record.input_tokens == at_least_zero(counts.0)
    &&& plan.record.output_tokens == at_least_zero(counts.1)
    &&& plan.record.cache_creation_tokens == at_least_zero(counts.2)
    &&& plan.record.cache_read_tokens == at_least_zero(counts.3)
    &&& plan.record.status@ == status
    &&& plan.to_recorder == hook.recorder
    &&& plan.to_aggregator == hook.aggregator
    &&& plan.to_client_keys == (hook.client_keys && status == "success"@ && hook.key_id != 0)
}

impl UsageRecordHook {
    /// A hook for the parts that are set up.
    pub fn from_state(state: &AppState, key_id: u64, model: String) -> (r: UsageRecordHook)
        ensures
            r == (UsageRecordHook {
                recorder: state.usage_recorder,
                aggregator: state.usage_aggregator,
                client_keys: state.client_keys,
                key_id,
                model,
            }),
    {
        UsageRecordHook {
            recorder: state.usage_recorder,
            aggregator: state.usage_aggregator,
            client_keys: state.client_keys,
            key_id,
            model,
        }
    }

    /// Plans the record of a request.
    pub fn record(
        &self,
        credential_id: u64,
        input_tokens: i32,
        output_tokens: i32,
        cache_creation_tokens: i32,
        cache_read_tokens: i32,
        status: &str,
    ) -> (r: RecordPlan)
        ensures
            records(
                r,
                *self,
                credential_id,
                (
                    input_tokens as int,
                    output_tokens as int,
                    cache_creation_tokens as int,
                    cache_read_tokens as int,
                ),
                status@,
            ),
    {
        RecordPlan {
            record: UsageRecord {
                ts: current_time(),
                key_id: self.key_id,
                credential_id,
                model: self.model.clone(),
                input_tokens: non_negative(input_tokens),
                output_tokens: non_negative(output_tokens),
                cache_creation_tokens: non_negative(cache_creation_tokens),
                cache_read_tokens: non_negative(cache_read_tokens),
                status: status.to_owned(),
            },
            to_recorder: self.recorder,
            to_aggregator: self.aggregator,
            to_client_keys: text::same(status, "success") && self.key_id != 0 && self.client_keys,
        }
    }
}

/// How an attempt came out.
#[derive(Debug, Clone, Copy, PartialEq, Eq, Structural)]
pub enum AttemptOutcome {
    Success,
    QuotaExhausted,
    AccountThrottled,
    AuthFailed,
    Transient,
    NetworkError,
    BadRequest,
    StreamInterrupted,
    Unknown,
}

/// One attempt at the upstream.
#[derive(Debug, Clone, Copy)]
pub struct TraceAttempt {
    pub credential_id: u64,
    pub outcome: AttemptOutcome,
}

/// All that is traced of one request.
#[derive(Debug)]
pub struct TraceRecord {
    pub trace_id: String,
    pub ts: String,
    pub key_id: u64,
    pub model: String,
    pub is_stream: bool,
    pub final_status: String,
    pub final_credential_id: u64,
    pub error_type: Option<AttemptOutcome>,
    pub error_message: Option<String>,
    pub total_attempts: u32,
    pub interrupted_after_bytes: Option<u64>,
    pub input_tokens: u64,
    pub output_tokens: u64,
    pub cache_creation_tokens: u64,
    pub cache_read_tokens: u64,
    pub attempts: Vec<TraceAttempt>,
}

/// Traces one request.
#[derive(Debug)]
pub struct RequestTracer {
    pub store: bool,
    pub trace_id: String,
    pub ts: String,
    pub key_id: u64,
    pub model: String,
    pub is_stream: bool,
    pub attempts: Vec<TraceAttempt>,
    /// Input, output, cache writes and cache reads.
    pub usage: Option<(i32, i32, i32, i32)>,
}

/// The class of a failure that is told of a whole request.
pub open spec fn failure_class(outcome: AttemptOutcome) -> AttemptOutcome {
    match outcome {
        AttemptOutcome::QuotaExhausted => outcome,
        AttemptOutcome::AccountThrottled => outcome,
        AttemptOutcome::AuthFailed => outcome,
        AttemptOutcome::Transient => outcome,
        AttemptOutcome::NetworkError => outcome,
        AttemptOutcome::BadRequest => outcome,
        _ => AttemptOutcome::Unknown,
    }
}

/// The class of the last attempt's failure.
pub open spec fn last_failure(attempts: Seq<TraceAttempt>) -> Option<AttemptOutcome> {
    if attempts.len() == 0 {
        None
    } else {
        Some(failure_class(attempts.last().outcome))
    }
}

/// The counts that were set, or zeros.
pub open spec fn counts_or_zero(usage: Option<(i32, i32, i32, i32)>) -> (i32, i32, i32, i32) {
    match usage {
        Some(counts) => counts,
        None => (0, 0, 0, 0),
    }
}

/// Whether `t` is the trace of a request with the given end.
pub open spec fn traces(
    t: TraceRecord,
    tracer: RequestTracer,
    final_status: Seq<char>,
    error_type: Option<AttemptOutcome>,
    error_message: Option<Seq<char>>,
    interrupted_after_bytes: Option<u64>,
) -> bool {
    let counts = counts_or_zero(tracer.usage);
    &&& t.trace_id@ == tracer.trace_id@
    &&& t.ts@ == tracer.ts@
    &&& t.key_id == tracer.key_id
    &&& t.model@ == tracer.model@
    &&& t.is_stream == tracer.is_stream
    &&& t.final_status@ == final_status
    &&& t.final_credential_id == (if tracer.attempts@.len() == 0 {
        0
    } else {
        tracer.attempts@.last().credential_id
    })
    &&& t.error_type == error_type
    &&& opt_text(t.error_message) == error_message
    &&& t.total_attempts == tracer.attempts@.len() as u32
    &&& t.interrupted_after_bytes == interrupted_after_bytes
    &&& t.input_tokens == at_least_zero(counts.0 as int)
    &&& t.output_tokens == at_least_zero(counts.1 as int)
    &&& t.cache_creation_tokens == at_least_zero(counts.2 as int)
    &&& t.cache_read_tokens == at_least_zero(counts.3 as int)
    &&& t.attempts@ == tracer.attempts@
}

impl RequestTracer {
    /// A tracer with the given id and time.
    pub fn with_identity(
        trace_id: String,
        ts: String,
        state: &AppState,
        key_id: u64,
        model: String,
        is_stream: bool,
    ) -> (r: RequestTracer)
        ensures
            r.trace_id@ == trace_id@,
            r.ts@ == ts@,
            r.store == state.trace_store,
            r.key_id == key_id,
            r.model@ == model@,
            r.is_stream == is_stream,
            r.attempts@ == Seq::<TraceAttempt>::empty(),
            r.usage is None,
    {
        RequestTracer {
            store: state.trace_store,
            trace_id,
            ts,
            key_id,
            model,
            is_stream,
            attempts: Vec::new(),
            usage: None,
        }
    }

    /// A tracer with a new id, from now on.
    pub fn new(state: &AppState, key_id: u64, model: String, is_stream: bool) -> (r: RequestTracer)
        ensures
            ids::uuid_shape(r.trace_id@),
            r.store == state.trace_store,
            r.key_id == key_id,
            r.model@ == model@,
            r.is_stream == is_stream,
            r.attempts@ == Seq::<TraceAttempt>::empty(),
            r.usage is None,
    {
        RequestTracer::with_identity(
            ids::new_uuid(),
            current_time(),
            state,
            key_id,
            model,
            is_stream,
        )
    }

    /// Sets the final counts of the request; the last ones hold.
    pub fn set_usage(&mut self, input: i32, output: i32, cache_creation: i32, cache_read: i32)
        ensures
            *final(self) == (RequestTracer {
                usage: Some((input, output, cache_creation, cache_read)),
                ..*old(self)
            }),
    {
        self.usage = Some((input, output, cache_creation, cache_read));
    }

    /// Notes one attempt.
    pub fn on_attempt(&mut self, attempt: TraceAttempt)
        ensures
            final(self).attempts@ == old(self).attempts@.push(attempt),
            *final(self) == (RequestTracer { attempts: final(self).attempts, ..*old(self) }),
    {
        self.attempts.push(attempt);
    }

    /// The class of the last attempt's failure.
    pub fn last_attempt_outcome(&self) -> (r: Option<AttemptOutcome>)
        ensures
            r == last_failure(self.attempts@),
    {
        let n = self.attempts.len();
        if n == 0 {
            return None;
        }
        Some(
            match self.attempts[n - 1].outcome {
                AttemptOutcome::QuotaExhausted => AttemptOutcome::QuotaExhausted,
                AttemptOutcome::AccountThrottled => AttemptOutcome::AccountThrottled,
                AttemptOutcome::AuthFailed => AttemptOutcome::AuthFailed,
                AttemptOutcome::Transient => AttemptOutcome::Transient,
                AttemptOutcome::NetworkError => AttemptOutcome::NetworkError,
                AttemptOutcome::BadRequest => AttemptOutcome::BadRequest,
                _ => AttemptOutcome::Unknown,
            },
        )
    }

    /// Books the attempts that the upstream refused, with the given estimate of the input.
    pub fn refusal(&self, input_tokens: i32, message: &str) -> (r: Closing)
        ensures
            r.view() == failed(
                (input_tokens as int, 0, 0, 0),
                last_failure(self.attempts@),
                message@,
            ),
    {
        Closing::failed((input_tokens, 0, 0, 0), self.last_attempt_outcome(), message)
    }

    /// Puts the trace together, where it is kept, and hands the attempts over to it.
    pub fn finalize(
        &mut self,
        final_status: &str,
        error_type: Option<AttemptOutcome>,
        error_message: Option<String>,
        interrupted_after_bytes: Option<u64>,
    ) -> (r: Option<TraceRecord>)
        ensures
            r is Some <==> old(self).store,
            r is None ==> *final(self) == *old(self),
            r is Some ==> final(self).attempts@ == Seq::<TraceAttempt>::empty() && *final(self)
                == (RequestTracer { attempts: final(self).attempts, ..*old(self) }),
            r matches Some(t) ==> traces(
                t,
                *old(self),
                final_status@,
                error_type,
                opt_text(error_message),
                interrupted_after_bytes,
            ),
    {
        if !self.store {
            return None;
        }
        let n = self.attempts.len();
        let final_credential_id: u64 = if n == 0 {
            0
        } else {
            self.attempts[n - 1].credential_id
        };
        let mut attempts: Vec<TraceAttempt> = Vec::new();
        std::mem::swap(&mut attempts, &mut self.attempts);
        let (input, output, cache_creation, cache_read) = match self.usage {
            Some(counts) => counts,
            None => (0, 0, 0, 0),
        };
        Some(
            TraceRecord {
                trace_id: self.trace_id.clone(),
                ts: self.ts.clone(),
                key_id: self.key_id,
                model: self.model.clone(),
                is_stream: self.is_stream,
                final_status: final_status.to_owned(),
                final_credential_id,
                error_type,
                error_message,
                total_attempts: n as u32,
                interrupted_after_bytes,
                input_tokens: non_negative(input),
                output_tokens: non_negative(output),
                cache_creation_tokens: non_negative(cache_creation),
                cache_read_tokens: non_negative(cache_read),
                attempts,
            },
        )
    }
}

/// What is recorded at the end of a request.
pub struct ClosingV {
    /// Input, output, cache writes and cache reads.
    pub counts: (int, int, int, int),
    /// How the usage is booked.
    pub status: Seq<char>,
    /// How the trace is booked.
    pub trace_status: Seq<char>,
    pub error_type: Option<AttemptOutcome>,
    pub error_message: Option<Seq<char>>,
    pub interrupted_after_bytes: Option<int>,
    /// Whether the counts go into the trace as well.
    pub traces_counts: bool,
}

/// Counts as numbers.
pub open spec fn int_four(counts: (i32, i32, i32, i32)) -> (int, int, int, int) {
    (counts.0 as int, counts.1 as int, counts.2 as int, counts.3 as int)
}

/// A number of bytes that may be there.
pub open spec fn opt_bytes(n: Option<u64>) -> Option<int> {
    match n {
        Some(n) => Some(n as int),
        None => None,
    }
}

/// A request that was answered.
pub open spec fn success(counts: (int, int, int, int)) -> ClosingV {
    ClosingV {
        counts,
        status: "success"@,
        trace_status: "success"@,
        error_type: None,
        error_message: None,
        interrupted_after_bytes: None,
        traces_counts: true,
    }
}

/// A request that failed before there was an answer, with the class of the failure.
pub open spec fn failed(
    counts: (int, int, int, int),
    error_type: Option<AttemptOutcome>,
    message: Seq<char>,
) -> ClosingV {
    ClosingV {
        counts,
        status: "error"@,
        trace_status: "error"@,
        error_type,
        error_message: Some(message),
        interrupted_after_bytes: None,
        traces_counts: false,
    }
}

/// A request whose answer holds a tool call that cannot be used.
pub open spec fn bad_call(counts: (int, int, int, int), message: Seq<char>) -> ClosingV {
    ClosingV {
        traces_counts: true,
        ..failed(counts, Some(AttemptOutcome::BadRequest), message)
    }
}

/// A request whose answer broke off: in the middle of a stream, behind so many bytes, or before
/// there was anything to answer with.
pub open spec fn interrupted(
    counts: (int, int, int, int),
    message: Seq<char>,
    bytes: Option<int>,
) -> ClosingV {
    ClosingV {
        counts,
        status: "error"@,
        trace_status: "interrupted"@,
        error_type: Some(AttemptOutcome::StreamInterrupted),
        error_message: Some(message),
        interrupted_after_bytes: bytes,
        traces_counts: bytes is Some,
    }
}

/// What is recorded at the end of a request.
#[derive(Debug)]
pub struct Closing {
    pub counts: (i32, i32, i32, i32),
    pub status: String,
    pub trace_status: String,
    pub error_type: Option<AttemptOutcome>,
    pub error_message: Option<String>,
    pub interrupted_after_bytes: Option<u64>,
    /// Whether the counts go into the trace as well.
    pub traces_counts: bool,
}

impl Closing {
    pub open spec fn view(&self) -> ClosingV {
        ClosingV {
            counts: int_four(self.counts),
            status: self.status@,
            trace_status: self.trace_status@,
            error_type: self.error_type,
            error_message: opt_text(self.error_message),
            interrupted_after_bytes: opt_bytes(self.interrupted_after_bytes),
            traces_counts: self.traces_counts,
        }
    }

    /// A request that was answered.
    pub fn success(counts: (i32, i32, i32, i32)) -> (r: Closing)
        ensures
            r.view() == success(int_four(counts)),
    {
        Closing {
            counts,
            status: "success".to_owned(),
            trace_status: "success".to_owned(),
            error_type: None,
            error_message: None,
            interrupted_after_bytes: None,
            traces_counts: true,
        }
    }

    /// A request that failed before there was an answer.
    pub fn failed(
        counts: (i32, i32, i32, i32),
        error_type: Option<AttemptOutcome>,
        message: &str,
    ) -> (r: Closing)
        ensures
            r.view() == failed(int_four(counts), error_type, message@),
    {
        Closing {
            counts,
            status: "error".to_owned(),
            trace_status: "error".to_owned(),
            error_type,
            error_message: Some(message.to_owned()),
            interrupted_after_bytes: None,
            traces_counts: false,
        }
    }

    /// A request whose answer holds a tool call that cannot be used.
    pub fn bad_call(counts: (i32, i32, i32, i32), message: &str) -> (r: Closing)
        ensures
            r.view() == bad_call(int_four(counts), message@),
    {
        Closing {
            traces_counts: true,
            ..Closing::failed(counts, Some(AttemptOutcome::BadRequest), message)
        }
    }

    /// A request whose answer broke off.
    pub fn interrupted(
        counts: (i32, i32, i32, i32),
        message: &str,
        interrupted_after_bytes: Option<u64>,
    ) -> (r: Closing)
        ensures
            r.view() == interrupted(
                int_four(counts),
                message@,
                opt_bytes(interrupted_after_bytes),
            ),
    {
        Closing {
            counts,
            status: "error".to_owned(),
            trace_status: "interrupted".to_owned(),
            error_type: Some(AttemptOutcome::StreamInterrupted),
            error_message: Some(message.to_owned()),
            interrupted_after_bytes,
            traces_counts: interrupted_after_bytes.is_some(),
        }
    }
}

impl RequestTracer {
    /// Puts the trace of a request with the given end together, where it is kept.
    pub fn close(&mut self, closing: &Closing) -> (r: Option<TraceRecord>)
        ensures
            r is Some <==> old(self).store,
            *final(self) == (RequestTracer {
                usage: if closing.traces_counts {
                    Some(closing.counts)
                } else {
                    old(self).usage
                },
                attempts: final(self).attempts,
                ..*old(self)
            }),
            final(self).attempts@ == (if old(self).store {
                Seq::<TraceAttempt>::empty()
            } else {
                old(self).attempts@
            }),
            r matches Some(t) ==> traces(
                t,
                (RequestTracer {
                    usage: if closing.traces_counts {
                        Some(closing.counts)
                    } else {
                        old(self).usage
                    },
                    ..*old(self)
                }),
                closing.trace_status@,
                closing.error_type,
                opt_text(closing.error_message),
                closing.interrupted_after_bytes,
            ),
    {
        if closing.traces_counts {
            let (input, output, creation, read) = closing.counts;
            self.set_usage(input, output, creation, read);
        }
        let message = match &closing.error_message {
            Some(message) => Some(message.clone()),
            None => None,
        };
        self.finalize(
            closing.trace_status.as_str(),
            closing.error_type,
            message,
            closing.interrupted_after_bytes,
        )
    }
}

impl UsageRecordHook {
    /// Plans the record of a request with the given end.
    pub fn close(&self, credential_id: u64, closing: &Closing) -> (r: RecordPlan)
        ensures
            records(r, *self, credential_id, int_four(closing.counts), closing.status@),
    {
        let (input, output, creation, read) = closing.counts;
        self.record(credential_id, input, output, creation, read, closing.status.as_str())
    }
}

/// The usage of a request is booked as it was told: input as input, output as output, cache
/// writes as cache writes and cache reads as cache reads, on the credential and under the status
/// that were told, for the key and the model that the hook was made for. Nothing is counted below
/// zero.
pub proof fn law_usage_is_booked_as_told(
    hook: UsageRecordHook,
    credential_id: u64,
    input_tokens: i32,
    output_tokens: i32,
    cache_creation_tokens: i32,
    cache_read_tokens: i32,
    status: &str,
    plan: RecordPlan,
)
    requires
        call_ensures(
            UsageRecordHook::record,
            (
                &hook,
                credential_id,
                input_tokens,
                output_tokens,
                cache_creation_tokens,
                cache_read_tokens,
                status,
            ),
            plan,
        ),
    ensures
        input_tokens >= 0 ==> plan.record.input_tokens == input_tokens,
        output_tokens >= 0 ==> plan.record.output_tokens == output_tokens,
        cache_creation_tokens >= 0 ==> plan.record.cache_creation_tokens == cache_creation_tokens,
        cache_read_tokens >= 0 ==> plan.record.cache_read_tokens == cache_read_tokens,
        input_tokens < 0 ==> plan.record.input_tokens == 0,
        output_tokens < 0 ==> plan.record.output_tokens == 0,
        cache_creation_tokens < 0 ==> plan.record.cache_creation_tokens == 0,
        cache_read_tokens < 0 ==> plan.record.cache_read_tokens == 0,
        plan.record.credential_id == credential_id,
        plan.record.status@ == status@,
        plan.record.key_id == hook.key_id,
        plan.record.model@ == hook.model@,
{
}

/// The end of a request is booked with the counts and the status that it came to.
pub proof fn law_end_is_booked_as_told(
    hook: UsageRecordHook,
    credential_id: u64,
    closing: Closing,
    plan: RecordPlan,
)
    requires
        call_ensures(UsageRecordHook::close, (&hook, credential_id, &closing), plan),
        closing.counts.0 >= 0,
        closing.counts.1 >= 0,
        closing.counts.2 >= 0,
        closing.counts.3 >= 0,
    ensures
        plan.record.input_tokens == closing.counts.0,
        plan.record.output_tokens == closing.counts.1,
        plan.record.cache_creation_tokens == closing.counts.2,
        plan.record.cache_read_tokens == closing.counts.3,
        plan.record.credential_id == credential_id,
        plan.record.status@ == closing.status@,
        plan.record.key_id == hook.key_id,
        plan.record.model@ == hook.model@,
{
}

/// A record goes to the log and to the running totals wherever they are set up, whatever came of
/// the request; a client key is charged for a request that was answered, never for another one,
/// and the relay's own key for none.
pub proof fn law_only_answers_are_charged(
    state: AppState,
    key_id: u64,
    model: String,
    hook: UsageRecordHook,
    credential_id: u64,
    closing: Closing,
    plan: RecordPlan,
)
    requires
        call_ensures(UsageRecordHook::from_state, (&state, key_id, model), hook),
        call_ensures(UsageRecordHook::close, (&hook, credential_id, &closing), plan),
    ensures
        plan.to_recorder == state.usage_recorder,
        plan.to_aggregator == state.usage_aggregator,
        plan.record.key_id == key_id,
        plan.record.model@ == model@,
        plan.to_client_keys ==> state.client_keys && key_id != 0 && closing.status@ == "success"@,
        state.client_keys && key_id != 0 && closing.status@ == "success"@ ==> plan.to_client_keys,
{
}

/// A request that failed, in whatever way, is booked as an error with the message that told of
/// it, and no client key is charged for it; one that was answered is booked as a success without
/// a message.
pub proof fn law_failures_are_booked_as_errors(
    counts: (i32, i32, i32, i32),
    class: Option<AttemptOutcome>,
    message: &str,
    bytes: Option<u64>,
    answered: Closing,
    refused: Closing,
    unusable: Closing,
    cut: Closing,
)
    requires
        call_ensures(Closing::success, (counts,), answered),
        call_ensures(Closing::failed, (counts, class, message), refused),
        call_ensures(Closing::bad_call, (counts, message), unusable),
        call_ensures(Closing::interrupted, (counts, message, bytes), cut),
    ensures
        answered.counts == counts && refused.counts == counts && unusable.counts == counts
            && cut.counts == counts,
        answered.status@ == "success"@ && answered.trace_status@ == "success"@,
        answered.error_type is None && answered.error_message is None,
        refused.status@ == "error"@ && unusable.status@ == "error"@ && cut.status@ == "error"@,
        refused.trace_status@ == "error"@ && unusable.trace_status@ == "error"@,
        cut.trace_status@ == "interrupted"@,
        refused.error_message matches Some(m) && m@ == message@,
        unusable.error_message matches Some(m) && m@ == message@,
        cut.error_message matches Some(m) && m@ == message@,
        refused.error_type == class,
        unusable.error_type == Some(AttemptOutcome::BadRequest),
        cut.error_type == Some(AttemptOutcome::StreamInterrupted),
        answered.interrupted_after_bytes is None && refused.interrupted_after_bytes is None
            && unusable.interrupted_after_bytes is None,
        cut.interrupted_after_bytes == bytes,
        answered.traces_counts && unusable.traces_counts && !refused.traces_counts,
        cut.traces_counts == (bytes is Some),
        "error"@ != "success"@,
{
    reveal_strlit("error");
    reveal_strlit("success");
    assert("error"@.len() == 5 && "success"@.len() == 7);
}

/// A trace holds what the tracer was made for, all attempts in order, the credential of the last
/// one, the end that was told, and the last counts that were set, each under its own name.
pub proof fn law_trace_holds_the_request(
    tracer: &mut RequestTracer,
    final_status: &str,
    error_type: Option<AttemptOutcome>,
    error_message: Option<String>,
    interrupted_after_bytes: Option<u64>,
    t: TraceRecord,
)
    requires
        call_ensures(
            RequestTracer::finalize,
            (tracer, final_status, error_type, error_message, interrupted_after_bytes),
            Some(t),
        ),
    ensures
        old(tracer).store,
        t.trace_id@ == old(tracer).trace_id@,
        t.ts@ == old(tracer).ts@,
        t.key_id == old(tracer).key_id,
        t.model@ == old(tracer).model@,
        t.is_stream == old(tracer).is_stream,
        t.final_status@ == final_status@,
        t.error_type == error_type,
        error_message matches Some(m) ==> (t.error_message matches Some(n) && n@ == m@),
        error_message is None ==> t.error_message is None,
        t.interrupted_after_bytes == interrupted_after_bytes,
        t.attempts@ == old(tracer).attempts@,
        t.attempts@.len() <= u32::MAX ==> t.total_attempts == t.attempts@.len(),
        t.attempts@.len() > 0 ==> t.final_credential_id == t.attempts@.last().credential_id,
        t.attempts@.len() == 0 ==> t.final_credential_id == 0,
        old(tracer).usage matches Some(u) ==> {
            &&& u.0 >= 0 ==> t.input_tokens == u.0
            &&& u.1 >= 0 ==> t.output_tokens == u.1
            &&& u.2 >= 0 ==> t.cache_creation_tokens == u.2
            &&& u.3 >= 0 ==> t.cache_read_tokens == u.3
        },
        old(tracer).usage is None ==> t.input_tokens == 0 && t.output_tokens == 0
            && t.cache_creation_tokens == 0 && t.cache_read_tokens == 0,
{
}

/// Counts that are set stand in the trace that follows, each under its own name.
pub proof fn law_set_counts_are_traced(
    tracer: &mut RequestTracer,
    input: i32,
    output: i32,
    cache_creation: i32,
    cache_read: i32,
    after: &mut RequestTracer,
    final_status: &str,
    t: TraceRecord,
)
    requires
        call_ensures(
            RequestTracer::set_usage,
            (tracer, input, output, cache_creation, cache_read),
            (),
        ),
        *old(after) == *final(tracer),
        call_ensures(RequestTracer::finalize, (after, final_status, None, None, None), Some(t)),
        input >= 0 && output >= 0 && cache_creation >= 0 && cache_read >= 0,
    ensures
        t.input_tokens == input,
        t.output_tokens == output,
        t.cache_creation_tokens == cache_creation,
        t.cache_read_tokens == cache_read,
        t.attempts@ == old(tracer).attempts@,
{
}

/// An attempt that is noted is the last of the trace that follows, and its credential is the one
/// that the request ended with.
pub proof fn law_last_attempt_is_traced(
    tracer: &mut RequestTracer,
    attempt: TraceAttempt,
    after: &mut RequestTracer,
    final_status: &str,
    t: TraceRecord,
)
    requires
        call_ensures(RequestTracer::on_attempt, (tracer, attempt), ()),
        *old(after) == *final(tracer),
        call_ensures(RequestTracer::finalize, (after, final_status, None, None, None), Some(t)),
    ensures
        t.attempts@ == old(tracer).attempts@.push(attempt),
        t.final_credential_id == attempt.credential_id,
{
}

/// The end of a request is traced as it was told. Its counts go into the trace where they are to;
/// else those hold that were set before.
pub proof fn law_end_is_traced_as_told(
    tracer: &mut RequestTracer,
    closing: Closing,
    r: Option<TraceRecord>,
)
    requires
        call_ensures(RequestTracer::close, (tracer, &closing), r),
    ensures
        r is Some <==> old(tracer).store,
        r matches Some(t) ==> {
            &&& t.final_status@ == closing.trace_status@
            &&& t.error_type == closing.error_type
            &&& closing.error_message matches Some(m) ==> (t.error_message matches Some(n) && n@
                == m@)
            &&& closing.error_message is None ==> t.error_message is None
            &&& t.interrupted_after_bytes == closing.interrupted_after_bytes
            &&& t.attempts@ == old(tracer).attempts@
            &&& t.trace_id@ == old(tracer).trace_id@
        },
        r matches Some(t) ==> (closing.traces_counts ==> {
            &&& closing.counts.0 >= 0 ==> t.input_tokens == closing.counts.0
            &&& closing.counts.1 >= 0 ==> t.output_tokens == closing.counts.1
            &&& closing.counts.2 >= 0 ==> t.cache_creation_tokens == closing.counts.2
            &&& closing.counts.3 >= 0 ==> t.cache_read_tokens == closing.counts.3
        }),
        r matches Some(t) ==> (!closing.traces_counts && old(tracer).usage is None
            ==> t.input_tokens == 0 && t.output_tokens == 0 && t.cache_creation_tokens == 0
            && t.cache_read_tokens == 0),
{
}

/// A refusal of the upstream is traced with the class of the last attempt's failure, and with the
/// estimate of the input alone as its counts. What is no failure of an attempt has no class of
/// its own.
pub proof fn law_refusal_names_the_last_failure(
    tracer: RequestTracer,
    input_tokens: i32,
    message: &str,
    r: Closing,
)
    requires
        call_ensures(RequestTracer::refusal, (&tracer, input_tokens, message), r),
    ensures
        r.counts == (input_tokens, 0i32, 0i32, 0i32),
        r.status@ == "error"@,
        r.error_message matches Some(m) && m@ == message@,
        tracer.attempts@.len() == 0 ==> r.error_type is None,
        tracer.attempts@.len() > 0 ==> {
            let last = tracer.attempts@.last().outcome;
            if last is Success || last is StreamInterrupted || last is Unknown {
                r.error_type == Some(AttemptOutcome::Unknown)
            } else {
                r.error_type == Some(last)
            }
        },
{
}

} // verus!
