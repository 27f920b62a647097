use std::cell::{Cell, RefCell};

use opto_sync_web_server::web_sync::{
    admission_outcome, lifecycle_event, project, AdmittedMutation, QueueReceipt, CorrelationContext, LocalReadback, MutationQueue, NoopSyncTelemetry,
    SyncOperation, SyncTelemetry, SyncTelemetryEvent, SyncTelemetryStage, WebSyncError,
    WebSyncService,
};

#[derive(Debug, Default)]
struct FakeQueue {
    calls: Vec<String>,
}

impl MutationQueue for FakeQueue {
    type Error = &'static str;

    fn queue_upsert(
        &mut self,
        table: &str,
        record_id: &str,
        payload: &str,
        base_revision: Option<&str>,
    ) -> Result<String, Self::Error> {
        self.calls.push(format!(
            "upsert:{table}:{record_id}:{payload}:{}",
            base_revision.unwrap_or("-")
        ));
        Ok("mutation-upsert".to_string())
    }

    fn queue_delete(
        &mut self,
        table: &str,
        record_id: &str,
        base_revision: Option<&str>,
    ) -> Result<String, Self::Error> {
        self.calls.push(format!(
            "delete:{table}:{record_id}:{}",
            base_revision.unwrap_or("-")
        ));
        Ok("mutation-delete".to_string())
    }
}

#[derive(Debug)]
struct FakeReadback(Option<String>);

impl LocalReadback for FakeReadback {
    type Error = &'static str;

    fn local_json(&mut self, _table: &str, _record_id: &str) -> Result<Option<String>, Self::Error> {
        Ok(self.0.clone())
    }
}

#[derive(Debug, PartialEq, Eq)]
struct RecordedEvent {
    stage: SyncTelemetryStage,
    operation: SyncOperation,
    request_id: String,
    trace_id: Option<String>,
    sync_cycle_id: Option<String>,
    mutation_id: Option<String>,
}

#[derive(Debug, Default)]
struct FullTelemetry(RefCell<Vec<RecordedEvent>>);

impl SyncTelemetry for FullTelemetry {
    fn record(&mut self, event: SyncTelemetryEvent<'_>) {
        self.0.borrow_mut().push(RecordedEvent {
            stage: event.stage,
            operation: event.operation,
            request_id: event.request_id.to_string(),
            trace_id: event.trace_id.map(str::to_string),
            sync_cycle_id: event.sync_cycle_id.map(str::to_string),
            mutation_id: event.mutation_id.map(str::to_string),
        });
    }
}

fn unit_correlation() -> CorrelationContext<'static> {
    CorrelationContext {
        request_id: "req-1",
        trace_id: Some("trace-1"),
        sync_cycle_id: Some("cycle-1"),
    }
}

#[test]
fn upsert_uses_one_queue_and_truthful_local_projection_boundary() {
    let telemetry = FullTelemetry::default();
    let mut service = WebSyncService::with_telemetry(
        FakeQueue::default(),
        FakeReadback(Some(r#"{"id":"42","name":"local"}"#.to_string())),
        telemetry,
    );

    let result = service
        .submit_and_project(
            AdmittedMutation::Upsert {
                table: "widgets",
                record_id: "42",
                payload: r#"{"name":"local"}"#,
                base_revision: Some("7"),
            },
            unit_correlation(),
        )
        .expect("admitted mutation should queue and project");

    assert_eq!(result.mutation_id, "mutation-upsert");
    assert_eq!(result.local_json, r#"{"id":"42","name":"local"}"#);

    let (queue, _readback, telemetry) = service.into_parts();
    assert_eq!(
        queue.calls,
        [r#"upsert:widgets:42:{"name":"local"}:7"#.to_string()]
    );
    let events = telemetry.0.into_inner();
    assert_eq!(events.len(), 2);
    assert_eq!(events[0].stage, SyncTelemetryStage::Queued);
    assert_eq!(events[1].stage, SyncTelemetryStage::LocalProjectionAvailable);
}

#[test]
fn delete_never_invents_a_payload() {
    let mut service = WebSyncService::new(
        FakeQueue::default(),
        FakeReadback(Some(r#"{"id":"42","deleted":true}"#.to_string())),
    );

    let result = service
        .submit_and_project(
            AdmittedMutation::Delete {
                table: "widgets",
                record_id: "42",
                base_revision: None,
            },
            unit_correlation(),
        )
        .expect("delete should use the delete queue operation");

    assert_eq!(result.mutation_id, "mutation-delete");
    let (queue, _readback, _telemetry) = service.into_parts();
    assert_eq!(queue.calls, ["delete:widgets:42:-".to_string()]);
}

#[test]
fn missing_projection_is_not_reported_as_authoritative_success() {
    let telemetry = FullTelemetry::default();
    let mut service =
        WebSyncService::with_telemetry(FakeQueue::default(), FakeReadback(None), telemetry);

    let error = service
        .submit_and_project(
            AdmittedMutation::Upsert {
                table: "widgets",
                record_id: "42",
                payload: r#"{"name":"local"}"#,
                base_revision: None,
            },
            unit_correlation(),
        )
        .expect_err("missing local readback must fail closed");

    assert!(matches!(error, WebSyncError::MissingLocalProjection));
    let (_queue, _readback, telemetry) = service.into_parts();
    let events = telemetry.0.into_inner();
    assert_eq!(
        events.last().map(|event| event.stage),
        Some(SyncTelemetryStage::LocalProjectionMissing)
    );
}

#[test]
fn telemetry_surface_cannot_receive_body_or_record_identifiers() {
    let event = SyncTelemetryEvent {
        stage: SyncTelemetryStage::Queued,
        operation: SyncOperation::Upsert,
        request_id: "req-privacy",
        trace_id: Some("trace-privacy"),
        sync_cycle_id: Some("cycle-privacy"),
        mutation_id: Some("mutation-privacy"),
    };

    let debug = format!("{event:?}");
    assert!(!debug.contains("secret-body"));
    assert!(!debug.contains("record-123"));
    assert!(!debug.contains("authorization"));
}

// Failure conformance.

#[derive(Default)]
struct FailingQueue;

impl MutationQueue for FailingQueue {
    type Error = &'static str;

    fn queue_upsert(
        &mut self,
        _table: &str,
        _record_id: &str,
        _payload: &str,
        _base_revision: Option<&str>,
    ) -> Result<String, Self::Error> {
        Err("queue unavailable")
    }

    fn queue_delete(
        &mut self,
        _table: &str,
        _record_id: &str,
        _base_revision: Option<&str>,
    ) -> Result<String, Self::Error> {
        Err("queue unavailable")
    }
}

#[derive(Default)]
struct SuccessQueue {
    upserts: usize,
    deletes: usize,
}

impl MutationQueue for SuccessQueue {
    type Error = &'static str;

    fn queue_upsert(
        &mut self,
        _table: &str,
        _record_id: &str,
        _payload: &str,
        _base_revision: Option<&str>,
    ) -> Result<String, Self::Error> {
        self.upserts += 1;
        Ok("mutation-1".to_owned())
    }

    fn queue_delete(
        &mut self,
        _table: &str,
        _record_id: &str,
        _base_revision: Option<&str>,
    ) -> Result<String, Self::Error> {
        self.deletes += 1;
        Ok("mutation-delete-1".to_owned())
    }
}

#[derive(Default)]
struct CountingReadback {
    calls: Cell<usize>,
}

impl LocalReadback for CountingReadback {
    type Error = &'static str;

    fn local_json(&mut self, _table: &str, _record_id: &str) -> Result<Option<String>, Self::Error> {
        self.calls.set(self.calls.get() + 1);
        Ok(Some(r#"{"id":"42"}"#.to_owned()))
    }
}

struct FailingReadback;

impl LocalReadback for FailingReadback {
    type Error = &'static str;

    fn local_json(&mut self, _table: &str, _record_id: &str) -> Result<Option<String>, Self::Error> {
        Err("readback unavailable")
    }
}

struct PanicReadback;

impl LocalReadback for PanicReadback {
    type Error = &'static str;

    fn local_json(&mut self, _table: &str, _record_id: &str) -> Result<Option<String>, Self::Error> {
        panic!("enqueue must not consult local readback")
    }
}

#[derive(Default)]
struct RecordingTelemetry {
    stages: RefCell<Vec<SyncTelemetryStage>>,
}

impl SyncTelemetry for RecordingTelemetry {
    fn record(&mut self, event: SyncTelemetryEvent<'_>) {
        self.stages.borrow_mut().push(event.stage);
    }
}

fn correlation() -> CorrelationContext<'static> {
    CorrelationContext {
        request_id: "req-failure-conformance",
        trace_id: Some("trace-failure-conformance"),
        sync_cycle_id: Some("cycle-failure-conformance"),
    }
}

fn upsert() -> AdmittedMutation<'static> {
    AdmittedMutation::Upsert {
        table: "widgets",
        record_id: "42",
        payload: r#"{"name":"queued"}"#,
        base_revision: Some("8"),
    }
}

#[test]
fn queue_failure_never_reads_local_projection_or_emits_queued_telemetry() {
    let telemetry = RecordingTelemetry::default();
    let mut service =
        WebSyncService::with_telemetry(FailingQueue, CountingReadback::default(), telemetry);

    let error = service
        .submit_and_project(upsert(), correlation())
        .expect_err("queue failure must stop before local projection");

    assert!(matches!(error, WebSyncError::Queue("queue unavailable")));

    let (_queue, readback, telemetry) = service.into_parts();
    assert_eq!(readback.calls.get(), 0, "readback ran after queue failure");
    assert!(
        telemetry.stages.into_inner().is_empty(),
        "queued telemetry was emitted before durable queue admission"
    );
}

#[test]
fn readback_failure_occurs_only_after_durable_queue_admission() {
    let telemetry = RecordingTelemetry::default();
    let mut service =
        WebSyncService::with_telemetry(SuccessQueue::default(), FailingReadback, telemetry);

    let error = service
        .submit_and_project(upsert(), correlation())
        .expect_err("readback failure must remain distinct from queue failure");

    assert!(matches!(
        error,
        WebSyncError::Readback("readback unavailable")
    ));

    let (queue, _readback, telemetry) = service.into_parts();
    assert_eq!(queue.upserts, 1, "mutation was not durably admitted first");
    assert_eq!(queue.deletes, 0);
    assert_eq!(
        telemetry.stages.into_inner(),
        vec![SyncTelemetryStage::Queued],
        "readback failure must not emit projection-available or projection-missing telemetry"
    );
}

#[test]
fn enqueue_is_a_projection_free_durability_boundary() {
    let telemetry = RecordingTelemetry::default();
    let mut service =
        WebSyncService::with_telemetry(SuccessQueue::default(), PanicReadback, telemetry);

    let receipt = service
        .enqueue(upsert(), correlation())
        .expect("durable admission should not require local readback");

    assert_eq!(receipt.mutation_id, "mutation-1");
    let (queue, _readback, telemetry) = service.into_parts();
    assert_eq!(queue.upserts, 1);
    assert_eq!(queue.deletes, 0);
    assert_eq!(
        telemetry.stages.into_inner(),
        vec![SyncTelemetryStage::Queued]
    );
}

struct DeleteOnlyFailure {
    upsert_called: Cell<bool>,
    delete_called: Cell<bool>,
}

impl MutationQueue for DeleteOnlyFailure {
    type Error = &'static str;

    fn queue_upsert(
        &mut self,
        _table: &str,
        _record_id: &str,
        _payload: &str,
        _base_revision: Option<&str>,
    ) -> Result<String, Self::Error> {
        self.upsert_called.set(true);
        Err("wrong path")
    }

    fn queue_delete(
        &mut self,
        _table: &str,
        _record_id: &str,
        _base_revision: Option<&str>,
    ) -> Result<String, Self::Error> {
        self.delete_called.set(true);
        Err("delete unavailable")
    }
}

#[test]
fn failed_delete_uses_only_the_delete_queue_path() {
    let queue = DeleteOnlyFailure {
        upsert_called: Cell::new(false),
        delete_called: Cell::new(false),
    };
    let mut service = WebSyncService::new(queue, CountingReadback::default());

    let error = service
        .submit_and_project(
            AdmittedMutation::Delete {
                table: "widgets",
                record_id: "42",
                base_revision: Some("8"),
            },
            correlation(),
        )
        .expect_err("delete queue failure must fail closed");

    assert!(matches!(error, WebSyncError::Queue("delete unavailable")));
    let (queue, readback, _telemetry) = service.into_parts();
    assert!(queue.delete_called.get());
    assert!(!queue.upsert_called.get());
    assert_eq!(readback.calls.get(), 0);
}

// Further cases.

#[test]
fn telemetry_carries_correlation_and_queue_identifier_only() {
    let telemetry = FullTelemetry::default();
    let mut service = WebSyncService::with_telemetry(
        FakeQueue::default(),
        FakeReadback(Some("{}".to_string())),
        telemetry,
    );
    service
        .submit_and_project(
            AdmittedMutation::Delete { table: "widgets", record_id: "record-123", base_revision: Some("3") },
            CorrelationContext { request_id: "req-9", trace_id: None, sync_cycle_id: Some("cycle-9") },
        )
        .expect("delete projects");
    let (_queue, _readback, telemetry) = service.into_parts();
    let events = telemetry.0.into_inner();
    assert_eq!(
        events,
        vec![
            RecordedEvent {
                stage: SyncTelemetryStage::Queued,
                operation: SyncOperation::Delete,
                request_id: "req-9".to_string(),
                trace_id: None,
                sync_cycle_id: Some("cycle-9".to_string()),
                mutation_id: Some("mutation-delete".to_string()),
            },
            RecordedEvent {
                stage: SyncTelemetryStage::LocalProjectionAvailable,
                operation: SyncOperation::Delete,
                request_id: "req-9".to_string(),
                trace_id: None,
                sync_cycle_id: Some("cycle-9".to_string()),
                mutation_id: Some("mutation-delete".to_string()),
            },
        ]
    );
}

#[test]
fn enqueue_receipt_carries_the_queue_identifier_for_deletes() {
    let mut service = WebSyncService::new(SuccessQueue::default(), PanicReadback);
    let receipt = service
        .enqueue(
            AdmittedMutation::Delete { table: "widgets", record_id: "42", base_revision: None },
            correlation(),
        )
        .expect("delete admitted");
    assert_eq!(receipt.mutation_id, "mutation-delete-1");
    let (queue, _readback, _telemetry) = service.into_parts();
    assert_eq!((queue.upserts, queue.deletes), (0, 1));
}

#[test]
fn enqueue_reports_queue_rejection() {
    let mut service = WebSyncService::new(FailingQueue, PanicReadback);
    let error = service.enqueue(upsert(), correlation()).expect_err("queue rejects");
    assert!(matches!(error, WebSyncError::Queue("queue unavailable")));
}

#[test]
fn mutation_accessors_report_operation_table_and_record() {
    let delete = AdmittedMutation::Delete { table: "t", record_id: "r", base_revision: None };
    assert_eq!(delete.operation(), SyncOperation::Delete);
    assert_eq!(delete.table(), "t");
    assert_eq!(delete.record_id(), "r");
    let up = upsert();
    assert_eq!(up.operation(), SyncOperation::Upsert);
    assert_eq!(up.table(), "widgets");
    assert_eq!(up.record_id(), "42");
}

#[test]
fn error_messages_describe_each_failure() {
    let queue: WebSyncError<&str, &str> = WebSyncError::Queue("full");
    assert_eq!(queue.message(), "opto-sync queue rejected mutation: \"full\"");
    let readback: WebSyncError<&str, &str> = WebSyncError::Readback("down");
    assert_eq!(readback.message(), "opto-sync local readback failed: \"down\"");
    let missing: WebSyncError<&str, &str> = WebSyncError::MissingLocalProjection;
    assert_eq!(missing.message(), "queued mutation has no truthful local projection");
}

#[test]
fn noop_telemetry_service_still_projects() {
    let mut service = WebSyncService::new(SuccessQueue::default(), CountingReadback::default());
    let projected = service.submit_and_project(upsert(), correlation()).expect("projects");
    assert_eq!(projected.mutation_id, "mutation-1");
    assert_eq!(projected.local_json, r#"{"id":"42"}"#);
    let (_queue, readback, telemetry) = service.into_parts();
    assert_eq!(readback.calls.get(), 1);
    let _: NoopSyncTelemetry = telemetry;
}

#[test]
fn admission_outcome_maps_the_queue_answer() {
    let ok: Result<QueueReceipt, WebSyncError<&str, &str>> = admission_outcome(Ok("m-7".to_string()));
    assert_eq!(ok.expect("accepted").mutation_id, "m-7");
    let err: Result<QueueReceipt, WebSyncError<&str, &str>> = admission_outcome(Err("full"));
    assert!(matches!(err, Err(WebSyncError::Queue("full"))));
}

#[test]
fn project_maps_the_readback_answer() {
    let receipt = || QueueReceipt { mutation_id: "m-1".to_string() };
    let found: Result<_, WebSyncError<&str, &str>> = project(receipt(), Ok(Some("{\"a\":1}".to_string())));
    let found = found.expect("projection found");
    assert_eq!(found.mutation_id, "m-1");
    assert_eq!(found.local_json, "{\"a\":1}");
    let missing: Result<_, WebSyncError<&str, &str>> = project(receipt(), Ok(None));
    assert!(matches!(missing, Err(WebSyncError::MissingLocalProjection)));
    let failed: Result<_, WebSyncError<&str, &str>> = project(receipt(), Err("down"));
    assert!(matches!(failed, Err(WebSyncError::Readback("down"))));
}

#[test]
fn lifecycle_event_carries_only_correlation_and_mutation_id() {
    let event = lifecycle_event(
        SyncTelemetryStage::LocalProjectionMissing,
        SyncOperation::Upsert,
        correlation(),
        "m-2",
    );
    assert_eq!(event.stage, SyncTelemetryStage::LocalProjectionMissing);
    assert_eq!(event.operation, SyncOperation::Upsert);
    assert_eq!(event.request_id, "req-failure-conformance");
    assert_eq!(event.trace_id, Some("trace-failure-conformance"));
    assert_eq!(event.sync_cycle_id, Some("cycle-failure-conformance"));
    assert_eq!(event.mutation_id, Some("m-2"));
}

#[test]
fn message_with_places_the_detail_after_the_prefix() {
    let queue: WebSyncError<(), ()> = WebSyncError::Queue(());
    assert_eq!(queue.message_with("x"), "opto-sync queue rejected mutation: x");
    let missing: WebSyncError<(), ()> = WebSyncError::MissingLocalProjection;
    assert_eq!(missing.message_with("x"), "queued mutation has no truthful local projection");
}

#[test]
fn readback_is_asked_for_the_mutation_table_and_record() {
    struct AskedReadback(Vec<(String, String)>);
    impl LocalReadback for AskedReadback {
        type Error = &'static str;
        fn local_json(&mut self, table: &str, record_id: &str) -> Result<Option<String>, Self::Error> {
            self.0.push((table.to_string(), record_id.to_string()));
            Ok(Some("{}".to_string()))
        }
    }
    let mut service = WebSyncService::new(SuccessQueue::default(), AskedReadback(Vec::new()));
    service.submit_and_project(upsert(), correlation()).expect("projects");
    let (_queue, readback, _telemetry) = service.into_parts();
    assert_eq!(readback.0, vec![("widgets".to_string(), "42".to_string())]);
}

struct FailingDebug;

impl std::fmt::Debug for FailingDebug {
    fn fmt(&self, f: &mut std::fmt::Formatter<'_>) -> std::fmt::Result {
        f.write_str("partial")?;
        Err(std::fmt::Error)
    }
}

#[test]
fn message_survives_a_failing_debug_impl() {
    let error: WebSyncError<FailingDebug, ()> = WebSyncError::Queue(FailingDebug);
    assert_eq!(error.message(), "opto-sync queue rejected mutation: partial");
}
