use std::fmt::Write;
use vstd::prelude::*;

verus! {

/// A mutation that has already passed the caller's domain/interface admission.
///
/// `payload` is an opaque JSON string: this seam neither validates forms nor
/// owns the public wire schema.
#[derive(Clone, Copy, Debug, PartialEq, Eq)]
pub enum AdmittedMutation<'a> {
    Upsert {
        table: &'a str,
        record_id: &'a str,
        payload: &'a str,
        base_revision: Option<&'a str>,
    },
    Delete {
        table: &'a str,
        record_id: &'a str,
        base_revision: Option<&'a str>,
    },
}

/// Stable operation vocabulary shared by renderer adapters and telemetry.
#[derive(Clone, Copy, Debug, PartialEq, Eq)]
pub enum SyncOperation {
    Upsert,
    Delete,
}

impl<'a> AdmittedMutation<'a> {
    /// The operation this mutation asks the queue to perform.
    pub open spec fn spec_operation(self) -> SyncOperation {
        match self {
            AdmittedMutation::Upsert { .. } => SyncOperation::Upsert,
            AdmittedMutation::Delete { .. } => SyncOperation::Delete,
        }
    }

    pub open spec fn spec_table(self) -> Seq<char> {
        match self {
            AdmittedMutation::Upsert { table, .. } => table@,
            AdmittedMutation::Delete { table, .. } => table@,
        }
    }

    pub open spec fn spec_record_id(self) -> Seq<char> {
        match self {
            AdmittedMutation::Upsert { record_id, .. } => record_id@,
            AdmittedMutation::Delete { record_id, .. } => record_id@,
        }
    }

    pub fn operation(self) -> (op: SyncOperation)
        ensures
            op == self.spec_operation(),
    {
        match self {
            AdmittedMutation::Upsert { .. } => SyncOperation::Upsert,
            AdmittedMutation::Delete { .. } => SyncOperation::Delete,
        }
    }

    pub fn table(self) -> (t: &'a str)
        ensures
            t@ == self.spec_table(),
    {
        match self {
            AdmittedMutation::Upsert { table, .. } => table,
            AdmittedMutation::Delete { table, .. } => table,
        }
    }

    pub fn record_id(self) -> (r: &'a str)
        ensures
            r@ == self.spec_record_id(),
    {
        match self {
            AdmittedMutation::Upsert { record_id, .. } => record_id,
            AdmittedMutation::Delete { record_id, .. } => record_id,
        }
    }
}


/// Correlation identifiers supplied by the HTTP/RPC application boundary.
///
/// No request body, record id, table value, cookies, authorization headers or
/// form values are admitted into this type.
#[derive(Clone, Copy, Debug, PartialEq, Eq)]
pub struct CorrelationContext<'a> {
    pub request_id: &'a str,
    pub trace_id: Option<&'a str>,
    pub sync_cycle_id: Option<&'a str>,
}

pub open spec fn opt_view(o: Option<&str>) -> Option<Seq<char>> {
    match o {
        Some(s) => Some(s@),
        None => None,
    }
}

/// What a queue is handed for one mutation.
pub enum QueueRequest {
    Upsert {
        table: Seq<char>,
        record_id: Seq<char>,
        payload: Seq<char>,
        base_revision: Option<Seq<char>>,
    },
    Delete { table: Seq<char>, record_id: Seq<char>, base_revision: Option<Seq<char>> },
}

/// One request a queue answered, and its answer: the mutation identifier it
/// assigned, or its error.
pub struct Admission<E> {
    pub request: QueueRequest,
    pub answer: Result<Seq<char>, E>,
}

/// One lookup a local readback answered, and its answer.
pub struct Lookup<E> {
    pub table: Seq<char>,
    pub record_id: Seq<char>,
    pub answer: Result<Option<Seq<char>>, E>,
}

pub open spec fn answer_view<E>(r: Result<String, E>) -> Result<Seq<char>, E> {
    match r {
        Ok(id) => Ok(id@),
        Err(e) => Err(e),
    }
}

pub open spec fn lookup_view<E>(r: Result<Option<String>, E>) -> Result<Option<Seq<char>>, E> {
    match r {
        Ok(Some(json)) => Ok(Some(json@)),
        Ok(None) => Ok(None),
        Err(e) => Err(e),
    }
}

/// Durable mutation queue capability, implemented by the application.
///
/// `admissions` is the queue's history: every request it was handed, in
/// order, with what it answered.
pub trait MutationQueue {
    type Error;

    /// Defined by each verified implementation. The default leaves it
    /// unspecified, so that implementations without spec code still compile.
    closed spec fn admissions(&self) -> Seq<Admission<Self::Error>> {
        vstd::pervasive::arbitrary()
    }

    fn queue_upsert(
        &mut self,
        table: &str,
        record_id: &str,
        payload: &str,
        base_revision: Option<&str>,
    ) -> (r: Result<String, Self::Error>)
        ensures
            final(self).admissions() == old(self).admissions().push(
                Admission {
                    request: QueueRequest::Upsert {
                        table: table@,
                        record_id: record_id@,
                        payload: payload@,
                        base_revision: opt_view(base_revision),
                    },
                    answer: answer_view(r),
                },
            ),
    ;

    fn queue_delete(
        &mut self,
        table: &str,
        record_id: &str,
        base_revision: Option<&str>,
    ) -> (r: Result<String, Self::Error>)
        ensures
            final(self).admissions() == old(self).admissions().push(
                Admission {
                    request: QueueRequest::Delete {
                        table: table@,
                        record_id: record_id@,
                        base_revision: opt_view(base_revision),
                    },
                    answer: answer_view(r),
                },
            ),
    ;
}

/// Optimistic local projection capability shared by web and RPC adapters.
///
/// `lookups` is the readback's history: every record it was asked for, in
/// order, with what it answered.
pub trait LocalReadback {
    type Error;

    /// Defined by each verified implementation. The default leaves it
    /// unspecified, so that implementations without spec code still compile.
    closed spec fn lookups(&self) -> Seq<Lookup<Self::Error>> {
        vstd::pervasive::arbitrary()
    }

    fn local_json(&mut self, table: &str, record_id: &str) -> (r: Result<Option<String>, Self::Error>)
        ensures
            final(self).lookups() == old(self).lookups().push(
                Lookup { table: table@, record_id: record_id@, answer: lookup_view(r) },
            ),
    ;
}

/// Privacy-bounded lifecycle event.
///
/// Deliberately excluded: payload/body, table, record id, base revision, auth
/// data, cookies, headers and form values.
#[derive(Clone, Copy, Debug, PartialEq, Eq)]
pub struct SyncTelemetryEvent<'a> {
    pub stage: SyncTelemetryStage,
    pub operation: SyncOperation,
    pub request_id: &'a str,
    pub trace_id: Option<&'a str>,
    pub sync_cycle_id: Option<&'a str>,
    pub mutation_id: Option<&'a str>,
}

#[derive(Clone, Copy, Debug, PartialEq, Eq)]
pub enum SyncTelemetryStage {
    Queued,
    LocalProjectionAvailable,
    LocalProjectionMissing,
}

/// The content of one telemetry event, by value.
pub struct TelemetryRecord {
    pub stage: SyncTelemetryStage,
    pub operation: SyncOperation,
    pub request_id: Seq<char>,
    pub trace_id: Option<Seq<char>>,
    pub sync_cycle_id: Option<Seq<char>>,
    pub mutation_id: Option<Seq<char>>,
}

impl<'a> SyncTelemetryEvent<'a> {
    pub open spec fn record_view(self) -> TelemetryRecord {
        TelemetryRecord {
            stage: self.stage,
            operation: self.operation,
            request_id: self.request_id@,
            trace_id: opt_view(self.trace_id),
            sync_cycle_id: opt_view(self.sync_cycle_id),
            mutation_id: opt_view(self.mutation_id),
        }
    }
}

/// Lifecycle telemetry sink; exporter setup remains application-owned.
///
/// A sink that keeps its events (`keeps_events`) has, in `events`, every
/// event it received, in order; a sink that discards them promises nothing
/// about `events`.
pub trait SyncTelemetry {
    /// By default a sink keeps no events.
    closed spec fn keeps_events(&self) -> bool {
        false
    }

    /// By default a sink has no events to show.
    closed spec fn events(&self) -> Seq<TelemetryRecord> {
        Seq::empty()
    }

    fn record(&mut self, event: SyncTelemetryEvent<'_>)
        ensures
            final(self).keeps_events() == old(self).keeps_events(),
            old(self).keeps_events() ==> final(self).events() == old(self).events().push(
                event.record_view(),
            ),
    ;
}

/// A telemetry sink that discards every event.
#[derive(Clone, Copy, Debug, Default)]
pub struct NoopSyncTelemetry;

impl SyncTelemetry for NoopSyncTelemetry {
    open spec fn keeps_events(&self) -> bool {
        false
    }

    open spec fn events(&self) -> Seq<TelemetryRecord> {
        Seq::empty()
    }

    fn record(&mut self, _event: SyncTelemetryEvent<'_>) {
    }
}

/// Result of durable queue admission before optimistic readback is required.
#[derive(Clone, Debug, PartialEq, Eq)]
pub struct QueueReceipt {
    pub mutation_id: String,
}

/// Durable queue receipt plus the truthful optimistic local projection.
#[derive(Clone, Debug, PartialEq, Eq)]
pub struct OptimisticMutation {
    pub mutation_id: String,
    pub local_json: String,
}

#[derive(Debug)]
pub enum WebSyncError<Q, R> {
    Queue(Q),
    Readback(R),
    MissingLocalProjection,
}

impl<'a> AdmittedMutation<'a> {
    /// What the queue is handed for this mutation: an upsert with its payload,
    /// or a delete without one.
    pub open spec fn queue_request(self) -> QueueRequest {
        match self {
            AdmittedMutation::Upsert { table, record_id, payload, base_revision } => QueueRequest::Upsert {
                table: table@,
                record_id: record_id@,
                payload: payload@,
                base_revision: opt_view(base_revision),
            },
            AdmittedMutation::Delete { table, record_id, base_revision } => QueueRequest::Delete {
                table: table@,
                record_id: record_id@,
                base_revision: opt_view(base_revision),
            },
        }
    }
}

// ---------------------------------------------------------------------------
// Decisions, as functions of what the collaborators answered
// ---------------------------------------------------------------------------

/// The telemetry record for `stage` of a mutation with identifier `mutation_id`.
pub open spec fn lifecycle_record(
    stage: SyncTelemetryStage,
    operation: SyncOperation,
    correlation: CorrelationContext,
    mutation_id: Seq<char>,
) -> TelemetryRecord {
    TelemetryRecord {
        stage,
        operation,
        request_id: correlation.request_id@,
        trace_id: opt_view(correlation.trace_id),
        sync_cycle_id: opt_view(correlation.sync_cycle_id),
        mutation_id: Some(mutation_id),
    }
}

/// What admission reports, given the queue's answer: its identifier, or its
/// error as `WebSyncError::Queue`.
pub open spec fn admission_result<QE, RE>(answer: Result<Seq<char>, QE>) -> Result<
    Seq<char>,
    WebSyncError<QE, RE>,
> {
    match answer {
        Ok(id) => Ok(id),
        Err(e) => Err(WebSyncError::Queue(e)),
    }
}

pub open spec fn receipt_view<QE, RE>(r: Result<QueueReceipt, WebSyncError<QE, RE>>) -> Result<
    Seq<char>,
    WebSyncError<QE, RE>,
> {
    match r {
        Ok(receipt) => Ok(receipt.mutation_id@),
        Err(e) => Err(e),
    }
}

/// The events that admission emits, given the queue's answer.
pub open spec fn admission_events<QE>(
    mutation: AdmittedMutation,
    correlation: CorrelationContext,
    answer: Result<Seq<char>, QE>,
) -> Seq<TelemetryRecord> {
    match answer {
        Ok(id) => seq![
            lifecycle_record(SyncTelemetryStage::Queued, mutation.spec_operation(), correlation, id),
        ],
        Err(_) => seq![],
    }
}

/// What a submission reports once the queue assigned `mutation_id`, given the
/// readback's answer: the projection it found, its error, or a missing
/// projection.
pub open spec fn projection_result<QE, RE>(
    mutation_id: Seq<char>,
    answer: Result<Option<Seq<char>>, RE>,
) -> Result<(Seq<char>, Seq<char>), WebSyncError<QE, RE>> {
    match answer {
        Ok(Some(json)) => Ok((mutation_id, json)),
        Ok(None) => Err(WebSyncError::MissingLocalProjection),
        Err(e) => Err(WebSyncError::Readback(e)),
    }
}

/// What a submission reports, given both answers; the readback's answer
/// matters only when the queue accepted.
pub open spec fn submission_result<QE, RE>(
    queued: Result<Seq<char>, QE>,
    read: Result<Option<Seq<char>>, RE>,
) -> Result<(Seq<char>, Seq<char>), WebSyncError<QE, RE>> {
    match queued {
        Err(e) => Err(WebSyncError::Queue(e)),
        Ok(id) => projection_result(id, read),
    }
}

pub open spec fn optimistic_view<QE, RE>(r: Result<OptimisticMutation, WebSyncError<QE, RE>>) -> Result<
    (Seq<char>, Seq<char>),
    WebSyncError<QE, RE>,
> {
    match r {
        Ok(m) => Ok((m.mutation_id@, m.local_json@)),
        Err(e) => Err(e),
    }
}

/// The events that follow admission in a submission, given the readback's
/// answer.
pub open spec fn projection_events<RE>(
    mutation: AdmittedMutation,
    correlation: CorrelationContext,
    mutation_id: Seq<char>,
    read: Result<Option<Seq<char>>, RE>,
) -> Seq<TelemetryRecord> {
    let op = mutation.spec_operation();
    match read {
        Ok(Some(_)) => seq![
            lifecycle_record(SyncTelemetryStage::LocalProjectionAvailable, op, correlation, mutation_id),
        ],
        Ok(None) => seq![
            lifecycle_record(SyncTelemetryStage::LocalProjectionMissing, op, correlation, mutation_id),
        ],
        Err(_) => seq![],
    }
}

/// The events that a submission emits, given both answers.
pub open spec fn submission_events<QE, RE>(
    mutation: AdmittedMutation,
    correlation: CorrelationContext,
    queued: Result<Seq<char>, QE>,
    read: Result<Option<Seq<char>>, RE>,
) -> Seq<TelemetryRecord> {
    match queued {
        Err(_) => seq![],
        Ok(id) => admission_events(mutation, correlation, queued) + projection_events(
            mutation,
            correlation,
            id,
            read,
        ),
    }
}

/// The receipt for the queue's answer.
pub fn admission_outcome<QE, RE>(answer: Result<String, QE>) -> (r: Result<
    QueueReceipt,
    WebSyncError<QE, RE>,
>)
    ensures
        receipt_view(r) == admission_result::<QE, RE>(answer_view(answer)),
{
    match answer {
        Ok(mutation_id) => Ok(QueueReceipt { mutation_id }),
        Err(error) => Err(WebSyncError::Queue(error)),
    }
}

/// The outcome of a submission whose mutation the queue accepted under
/// `receipt`, for the readback's answer.
pub fn project<QE, RE>(receipt: QueueReceipt, answer: Result<Option<String>, RE>) -> (r: Result<
    OptimisticMutation,
    WebSyncError<QE, RE>,
>)
    ensures
        optimistic_view(r) == projection_result::<QE, RE>(receipt.mutation_id@, lookup_view(answer)),
{
    match answer {
        Ok(Some(local_json)) => Ok(OptimisticMutation { mutation_id: receipt.mutation_id, local_json }),
        Ok(None) => Err(WebSyncError::MissingLocalProjection),
        Err(error) => Err(WebSyncError::Readback(error)),
    }
}

/// The telemetry event for `stage` of the mutation with identifier
/// `mutation_id`, carrying only correlation metadata.
pub fn lifecycle_event<'a>(
    stage: SyncTelemetryStage,
    operation: SyncOperation,
    correlation: CorrelationContext<'a>,
    mutation_id: &'a str,
) -> (e: SyncTelemetryEvent<'a>)
    ensures
        e.record_view() == lifecycle_record(stage, operation, correlation, mutation_id@),
{
    SyncTelemetryEvent {
        stage,
        operation,
        request_id: correlation.request_id,
        trace_id: correlation.trace_id,
        sync_cycle_id: correlation.sync_cycle_id,
        mutation_id: Some(mutation_id),
    }
}

// ---------------------------------------------------------------------------
// The service
// ---------------------------------------------------------------------------

/// One application service for every Rust renderer.
pub struct WebSyncService<Q, R, T = NoopSyncTelemetry> {
    queue: Q,
    readback: R,
    telemetry: T,
}

impl<Q, R, T> WebSyncService<Q, R, T> {
    pub closed spec fn spec_queue(&self) -> Q {
        self.queue
    }

    pub closed spec fn spec_readback(&self) -> R {
        self.readback
    }

    pub closed spec fn spec_telemetry(&self) -> T {
        self.telemetry
    }
}

impl<Q, R> WebSyncService<Q, R, NoopSyncTelemetry> {
    pub fn new(queue: Q, readback: R) -> (s: Self)
        ensures
            s.spec_queue() == queue,
            s.spec_readback() == readback,
            s.spec_telemetry() == NoopSyncTelemetry,
    {
        WebSyncService { queue, readback, telemetry: NoopSyncTelemetry }
    }
}

impl<Q, R, T> WebSyncService<Q, R, T> {
    pub fn with_telemetry(queue: Q, readback: R, telemetry: T) -> (s: Self)
        ensures
            s.spec_queue() == queue,
            s.spec_readback() == readback,
            s.spec_telemetry() == telemetry,
    {
        WebSyncService { queue, readback, telemetry }
    }

    pub fn into_parts(self) -> (parts: (Q, R, T))
        ensures
            parts == (self.spec_queue(), self.spec_readback(), self.spec_telemetry()),
    {
        (self.queue, self.readback, self.telemetry)
    }
}

impl<Q: MutationQueue, R: LocalReadback, T: SyncTelemetry> WebSyncService<Q, R, T> {
    /// The queue's answer to the latest request it was handed.
    pub open spec fn latest_admission(&self) -> Result<Seq<char>, Q::Error> {
        self.spec_queue().admissions().last().answer
    }

    /// The readback's answer to the latest lookup it was asked for.
    pub open spec fn latest_lookup(&self) -> Result<Option<Seq<char>>, R::Error> {
        self.spec_readback().lookups().last().answer
    }

    /// The queue was handed `mutation` once more, and nothing else.
    pub open spec fn admitted_once(old_queue: Q, new_queue: Q, mutation: AdmittedMutation) -> bool {
        new_queue.admissions() == old_queue.admissions().push(
            Admission {
                request: mutation.queue_request(),
                answer: new_queue.admissions().last().answer,
            },
        )
    }

    fn emit(&mut self, event: SyncTelemetryEvent<'_>)
        ensures
            final(self).spec_queue() == old(self).spec_queue(),
            final(self).spec_readback() == old(self).spec_readback(),
            final(self).spec_telemetry().keeps_events() == old(self).spec_telemetry().keeps_events(),
            old(self).spec_telemetry().keeps_events() ==> final(self).spec_telemetry().events()
                == old(self).spec_telemetry().events().push(event.record_view()),
    {
        self.telemetry.record(event);
    }

    /// Persist an already-admitted mutation without requiring a local projection.
    pub fn enqueue(
        &mut self,
        mutation: AdmittedMutation<'_>,
        correlation: CorrelationContext<'_>,
    ) -> (res: Result<QueueReceipt, WebSyncError<Q::Error, R::Error>>)
        ensures
            Self::admitted_once(old(self).spec_queue(), final(self).spec_queue(), mutation),
            receipt_view(res) == admission_result::<Q::Error, R::Error>(final(self).latest_admission()),
            final(self).spec_readback() == old(self).spec_readback(),
            final(self).spec_telemetry().keeps_events() == old(self).spec_telemetry().keeps_events(),
            old(self).spec_telemetry().keeps_events() ==> final(self).spec_telemetry().events()
                == old(self).spec_telemetry().events() + admission_events(
                mutation,
                correlation,
                final(self).latest_admission(),
            ),
    {
        let operation = mutation.operation();
        let answer = match mutation {
            AdmittedMutation::Upsert { table, record_id, payload, base_revision } =>
                self.queue.queue_upsert(table, record_id, payload, base_revision),
            AdmittedMutation::Delete { table, record_id, base_revision } =>
                self.queue.queue_delete(table, record_id, base_revision),
        };
        let ghost events_before = self.telemetry.events();
        if let Ok(mutation_id) = &answer {
            let event = lifecycle_event(
                SyncTelemetryStage::Queued,
                operation,
                correlation,
                mutation_id.as_str(),
            );
            self.emit(event);
        }
        assert(self.telemetry.keeps_events() ==> self.telemetry.events() =~= events_before
            + admission_events(mutation, correlation, answer_view(answer)));
        admission_outcome(answer)
    }

    /// Queue a mutation and require the optimistic local view that UI/RPC
    /// callers may truthfully render while the authoritative write is pending.
    pub fn submit_and_project(
        &mut self,
        mutation: AdmittedMutation<'_>,
        correlation: CorrelationContext<'_>,
    ) -> (res: Result<OptimisticMutation, WebSyncError<Q::Error, R::Error>>)
        ensures
            Self::admitted_once(old(self).spec_queue(), final(self).spec_queue(), mutation),
            match final(self).latest_admission() {
                Err(_) => final(self).spec_readback().lookups() == old(
                    self,
                ).spec_readback().lookups(),
                Ok(_) => final(self).spec_readback().lookups() == old(
                    self,
                ).spec_readback().lookups().push(
                    Lookup {
                        table: mutation.spec_table(),
                        record_id: mutation.spec_record_id(),
                        answer: final(self).latest_lookup(),
                    },
                ),
            },
            optimistic_view(res) == submission_result(
                final(self).latest_admission(),
                final(self).latest_lookup(),
            ),
            final(self).spec_telemetry().keeps_events() == old(self).spec_telemetry().keeps_events(),
            old(self).spec_telemetry().keeps_events() ==> final(self).spec_telemetry().events()
                == old(self).spec_telemetry().events() + submission_events(
                mutation,
                correlation,
                final(self).latest_admission(),
                final(self).latest_lookup(),
            ),
    {
        let table = mutation.table();
        let record_id = mutation.record_id();
        let operation = mutation.operation();
        let ghost lookups_before = self.readback.lookups();
        let ghost events_before = self.telemetry.events();
        let receipt = match self.enqueue(mutation, correlation) {
            Ok(receipt) => receipt,
            Err(error) => {
                assert(self.telemetry.keeps_events() ==> self.telemetry.events() =~= events_before
                    + submission_events(
                    mutation,
                    correlation,
                    self.latest_admission(),
                    self.latest_lookup(),
                ));
                return Err(error);
            },
        };
        let ghost queue_after = self.queue;
        let ghost events_queued = self.telemetry.events();
        let answer = self.readback.local_json(table, record_id);
        let ghost read = lookup_view(answer);
        let stage = match &answer {
            Ok(Some(_)) => Some(SyncTelemetryStage::LocalProjectionAvailable),
            Ok(None) => Some(SyncTelemetryStage::LocalProjectionMissing),
            Err(_) => None,
        };
        if let Some(stage) = stage {
            let event = lifecycle_event(stage, operation, correlation, receipt.mutation_id.as_str());
            self.emit(event);
        }
        assert(self.queue == queue_after);
        assert(self.telemetry.keeps_events() ==> self.telemetry.events() =~= events_queued
            + projection_events(mutation, correlation, receipt.mutation_id@, read));
        assert(self.telemetry.keeps_events() ==> self.telemetry.events() =~= events_before
            + submission_events(mutation, correlation, self.latest_admission(), read));
        project(receipt, answer)
    }
}

/// The `Debug` text of a value; whatever the value's `Debug` wrote before
/// reporting an error is kept, and the error itself is dropped.
#[verifier::external_body]
fn debug_text<E: std::fmt::Debug>(e: &E) -> String {
    let mut text = String::new();
    let _ = write!(text, "{e:?}");
    text
}

impl<Q, R> WebSyncError<Q, R> {
    /// The description of this error, with `detail` standing for the inner
    /// error's text.
    pub fn message_with(&self, detail: &str) -> (m: String)
        ensures
            m@ == match self {
                WebSyncError::Queue(_) => "opto-sync queue rejected mutation: "@ + detail@,
                WebSyncError::Readback(_) => "opto-sync local readback failed: "@ + detail@,
                WebSyncError::MissingLocalProjection => "queued mutation has no truthful local projection"@,
            },
    {
        match self {
            WebSyncError::Queue(_) => String::from_str("opto-sync queue rejected mutation: ").concat(
                detail,
            ),
            WebSyncError::Readback(_) => String::from_str("opto-sync local readback failed: ").concat(
                detail,
            ),
            WebSyncError::MissingLocalProjection => String::from_str(
                "queued mutation has no truthful local projection",
            ),
        }
    }
}

impl<Q: std::fmt::Debug, R: std::fmt::Debug> WebSyncError<Q, R> {
    /// The human-readable description of this error, with the inner error's
    /// `Debug` text as its detail.
    pub fn message(&self) -> (m: String)
        ensures
            match self {
                WebSyncError::Queue(_) => exists|detail: Seq<char>|
                    m@ == "opto-sync queue rejected mutation: "@ + detail,
                WebSyncError::Readback(_) => exists|detail: Seq<char>|
                    m@ == "opto-sync local readback failed: "@ + detail,
                WebSyncError::MissingLocalProjection => m@
                    == "queued mutation has no truthful local projection"@,
            },
    {
        let detail = match self {
            WebSyncError::Queue(error) => debug_text(error),
            WebSyncError::Readback(error) => debug_text(error),
            WebSyncError::MissingLocalProjection => String::new(),
        };
        self.message_with(detail.as_str())
    }
}

// ---------------------------------------------------------------------------
// Laws of the service boundary
// ---------------------------------------------------------------------------

/// A delete is handed to the queue's delete path and carries no payload.
pub proof fn law_delete_never_invents_a_payload(
    table: &str,
    record_id: &str,
    base_revision: Option<&str>,
)
    ensures
        (AdmittedMutation::Delete { table, record_id, base_revision }).queue_request()
            == (QueueRequest::Delete {
            table: table@,
            record_id: record_id@,
            base_revision: opt_view(base_revision),
        }),
{
}

/// When the queue rejects a mutation, the submission reports the queue's own
/// error and emits no telemetry, whatever the readback would answer.
pub proof fn law_queue_failure_stops_before_projection<QE, RE>(
    mutation: AdmittedMutation,
    correlation: CorrelationContext,
    error: QE,
    read: Result<Option<Seq<char>>, RE>,
)
    ensures
        submission_result(Err::<Seq<char>, QE>(error), read) == Err::<
            (Seq<char>, Seq<char>),
            WebSyncError<QE, RE>,
        >(WebSyncError::Queue(error)),
        submission_events(mutation, correlation, Err::<Seq<char>, QE>(error), read) == Seq::<
            TelemetryRecord,
        >::empty(),
{
}

/// A readback failure is reported as such, after the `Queued` event and with
/// no projection event.
pub proof fn law_readback_failure_follows_admission<QE, RE>(
    mutation: AdmittedMutation,
    correlation: CorrelationContext,
    id: Seq<char>,
    error: RE,
)
    ensures
        submission_result(Ok::<Seq<char>, QE>(id), Err::<Option<Seq<char>>, RE>(error)) == Err::<
            (Seq<char>, Seq<char>),
            WebSyncError<QE, RE>,
        >(WebSyncError::Readback(error)),
        submission_events(mutation, correlation, Ok::<Seq<char>, QE>(id), Err::<Option<Seq<char>>, RE>(error))
            == seq![
            lifecycle_record(SyncTelemetryStage::Queued, mutation.spec_operation(), correlation, id),
        ],
{
}

/// A submission reports success only with a projection that the local readback
/// produced, under the identifier that the queue produced; a missing
/// projection is reported as `MissingLocalProjection`, never as success.
pub proof fn law_success_is_a_truthful_projection<QE, RE>(
    queued: Result<Seq<char>, QE>,
    read: Result<Option<Seq<char>>, RE>,
)
    ensures
        submission_result(queued, read) matches Ok((id, json)) ==> queued == Ok::<Seq<char>, QE>(id)
            && read == Ok::<Option<Seq<char>>, RE>(Some(json)),
        (queued is Ok && read == Ok::<Option<Seq<char>>, RE>(None)) ==> submission_result(queued, read)
            == Err::<(Seq<char>, Seq<char>), WebSyncError<QE, RE>>(
            WebSyncError::MissingLocalProjection,
        ),
{
}

/// Telemetry receives only lifecycle and correlation metadata: every event of
/// a submission carries the caller's correlation identifiers and the queue's
/// mutation identifier, and none is emitted unless the queue accepted.
pub proof fn law_telemetry_is_privacy_bounded<QE, RE>(
    mutation: AdmittedMutation,
    correlation: CorrelationContext,
    queued: Result<Seq<char>, QE>,
    read: Result<Option<Seq<char>>, RE>,
)
    ensures
        forall|i: int|
            0 <= i < submission_events(mutation, correlation, queued, read).len() ==> ({
                let r = #[trigger] submission_events(mutation, correlation, queued, read)[i];
                &&& queued is Ok
                &&& r.request_id == correlation.request_id@
                &&& r.trace_id == opt_view(correlation.trace_id)
                &&& r.sync_cycle_id == opt_view(correlation.sync_cycle_id)
                &&& Ok::<Seq<char>, QE>(r.mutation_id.unwrap()) == queued
                &&& r.mutation_id is Some
                &&& r.operation == mutation.spec_operation()
            }),
{
}


/// The events of an admission depend on nothing of the mutation but its
/// operation: two mutations of the same kind, whatever their table, record
/// id, payload and base revision, yield equal events for equal answers.
pub proof fn law_admission_events_ignore_content<QE>(
    m1: AdmittedMutation,
    m2: AdmittedMutation,
    correlation: CorrelationContext,
    answer: Result<Seq<char>, QE>,
)
    requires
        m1.spec_operation() == m2.spec_operation(),
    ensures
        admission_events(m1, correlation, answer) == admission_events(m2, correlation, answer),
{
}

/// Whether two readback answers have the same shape: both errors, both
/// missing, or both found (whatever the JSON text).
pub open spec fn same_shape<RE>(a: Result<Option<Seq<char>>, RE>, b: Result<Option<Seq<char>>, RE>) -> bool {
    match (a, b) {
        (Err(_), Err(_)) => true,
        (Ok(None), Ok(None)) => true,
        (Ok(Some(_)), Ok(Some(_))) => true,
        _ => false,
    }
}

/// The events of a submission depend on nothing of the mutation but its
/// operation, nor on the projection's text: two mutations of the same kind,
/// whatever their table, record id, payload and base revision, yield equal
/// events when the queue gives the same answer and the readback answers of
/// the same shape.
pub proof fn law_submission_events_ignore_content<QE, RE>(
    m1: AdmittedMutation,
    m2: AdmittedMutation,
    correlation: CorrelationContext,
    queued: Result<Seq<char>, QE>,
    read1: Result<Option<Seq<char>>, RE>,
    read2: Result<Option<Seq<char>>, RE>,
)
    requires
        m1.spec_operation() == m2.spec_operation(),
        same_shape(read1, read2),
    ensures
        submission_events(m1, correlation, queued, read1) == submission_events(
            m2,
            correlation,
            queued,
            read2,
        ),
{
}
} // verus!
