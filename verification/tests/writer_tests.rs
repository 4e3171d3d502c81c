use lnx_core::document::{shadow_entry, Document, FieldValue, Term};
use lnx_core::writer::{
    Batch, EngineCall, Handling, IndexWriterWorker, Lifecycle, ManyOutcome, SendOutcome, WriterOp,
    WRITER_QUEUE_CAPACITY,
};

fn doc(id: u128) -> Document {
    let mut d = Document::new(id);
    d.add_value("title", FieldValue::Text(format!("doc {}", id)));
    d
}

fn ids(batch: &Batch) -> Vec<u128> {
    batch
        .ops
        .iter()
        .map(|op| match op {
            WriterOp::AddDocument(d) => d.id,
            _ => u128::MAX,
        })
        .collect()
}

#[test]
fn the_queue_holds_twenty_operations() {
    assert_eq!(WRITER_QUEUE_CAPACITY, 20);
}

#[test]
fn the_twenty_first_offer_parks_and_everything_arrives_in_order() {
    let mut worker: IndexWriterWorker<u32> = IndexWriterWorker::new();
    let mut pending: Vec<Document> = Vec::new();
    for i in 0..30u128 {
        match worker.offer(WriterOp::AddDocument(doc(i)), i as u32) {
            SendOutcome::Sent(waiter) => {
                assert!(i < 20);
                assert_eq!(waiter, i as u32);
            },
            SendOutcome::Parked(WriterOp::AddDocument(back)) => {
                assert!(i >= 20);
                assert_eq!(back.id, i);
                pending.push(back);
            },
            other => panic!("unexpected {:?}", other),
        }
        assert!(worker.queued() <= 20);
    }
    assert_eq!(worker.queued(), 20);
    assert_eq!(worker.waiting(), 10);
    let first = worker.process_messages();
    assert!(!first.shutdown);
    assert_eq!(ids(&first), (0..20).collect::<Vec<u128>>());
    assert_eq!(worker.wake_waiters(), (20..30).collect::<Vec<u32>>());
    assert_eq!(worker.waiting(), 0);
    for d in pending {
        assert!(matches!(worker.offer(WriterOp::AddDocument(d), 0), SendOutcome::Sent(0)));
    }
    assert!(matches!(worker.offer(WriterOp::Commit, 0), SendOutcome::Sent(0)));
    let second = worker.process_messages();
    assert_eq!(second.ops.len(), 11);
    assert_eq!(ids(&second)[..10], (20..30).collect::<Vec<u128>>()[..]);
    assert!(matches!(second.ops[10], WriterOp::Commit));
}

#[test]
fn shutdown_cuts_the_wave_and_closes_the_writer() {
    let mut worker: IndexWriterWorker<&'static str> = IndexWriterWorker::new();
    assert!(matches!(worker.offer(WriterOp::AddDocument(doc(1)), "a"), SendOutcome::Sent("a")));
    assert!(matches!(worker.offer(WriterOp::Shutdown, "b"), SendOutcome::Sent("b")));
    assert!(matches!(worker.offer(WriterOp::AddDocument(doc(2)), "c"), SendOutcome::Sent("c")));
    let batch = worker.process_messages();
    assert!(batch.shutdown);
    assert_eq!(ids(&batch), vec![1]);
    assert_eq!(worker.lifecycle(), Lifecycle::Draining);
    assert_eq!(worker.queued(), 0);
    match worker.offer(WriterOp::Commit, "d") {
        SendOutcome::Closed(WriterOp::Commit, "d") => {},
        other => panic!("unexpected {:?}", other),
    }
    assert_eq!(worker.finish(), Vec::<&str>::new());
    assert_eq!(worker.lifecycle(), Lifecycle::Exited);
}

#[test]
fn finish_releases_the_waiters_that_are_left() {
    let mut worker: IndexWriterWorker<u8> = IndexWriterWorker::new();
    for _ in 0..20 {
        worker.offer(WriterOp::DeleteAll, 0);
    }
    assert!(matches!(worker.offer(WriterOp::Commit, 7), SendOutcome::Parked(WriterOp::Commit)));
    assert!(matches!(worker.offer(WriterOp::Rollback, 8), SendOutcome::Parked(WriterOp::Rollback)));
    assert_eq!(worker.finish(), vec![7, 8]);
    assert_eq!(worker.queued(), 0);
    assert!(matches!(worker.offer(WriterOp::Commit, 9), SendOutcome::Closed(_, 9)));
}

#[test]
fn disconnect_makes_the_next_wave_the_last() {
    let mut worker: IndexWriterWorker<u8> = IndexWriterWorker::new();
    worker.offer(WriterOp::AddDocument(doc(5)), 0);
    worker.disconnect();
    assert!(matches!(worker.offer(WriterOp::Commit, 1), SendOutcome::Closed(_, 1)));
    let batch = worker.process_messages();
    assert!(batch.shutdown);
    assert_eq!(ids(&batch), vec![5]);
    assert_eq!(worker.lifecycle(), Lifecycle::Draining);
}

#[test]
fn an_empty_wave_of_a_running_writer_does_not_stop_it() {
    let mut worker: IndexWriterWorker<u8> = IndexWriterWorker::new();
    let batch = worker.process_messages();
    assert!(!batch.shutdown);
    assert!(batch.ops.is_empty());
    assert_eq!(worker.lifecycle(), Lifecycle::Running);
}

#[test]
fn handle_msg_turns_operations_into_engine_calls() {
    assert!(matches!(IndexWriterWorker::<u8>::handle_msg(WriterOp::Shutdown), Handling::Stop));
    match IndexWriterWorker::<u8>::handle_msg(WriterOp::AddDocument(doc(9))) {
        Handling::Apply(calls) => {
            assert_eq!(calls.len(), 2);
            assert!(matches!(calls[0], EngineCall::Delete(Term::PrimaryKey(9))));
            assert!(matches!(&calls[1], EngineCall::Add(d) if d.id == 9));
        },
        other => panic!("unexpected {:?}", other),
    }
    match IndexWriterWorker::<u8>::handle_msg(WriterOp::Commit) {
        Handling::Apply(calls) => assert!(matches!(calls[..], [EngineCall::Commit])),
        other => panic!("unexpected {:?}", other),
    }
    match IndexWriterWorker::<u8>::handle_msg(WriterOp::Rollback) {
        Handling::Apply(calls) => assert!(matches!(calls[..], [EngineCall::Rollback])),
        other => panic!("unexpected {:?}", other),
    }
    match IndexWriterWorker::<u8>::handle_msg(WriterOp::DeleteAll) {
        Handling::Apply(calls) => assert!(matches!(calls[..], [EngineCall::DeleteAll])),
        other => panic!("unexpected {:?}", other),
    }
}

#[test]
fn labels_name_the_operations() {
    assert_eq!(WriterOp::Commit.label(), "COMMIT");
    assert_eq!(WriterOp::Rollback.label(), "ROLLBACK");
    assert_eq!(WriterOp::AddDocument(doc(1)).label(), "ADD-DOCUMENT");
    assert_eq!(WriterOp::DeleteTerm(Term::PrimaryKey(1)).label(), "DELETE-TERM");
    assert_eq!(WriterOp::DeleteAll.label(), "DELETE-ALL");
}

#[test]
fn many_documents_fill_the_queue_and_hand_the_rest_back() {
    let mut worker: IndexWriterWorker<u8> = IndexWriterWorker::new();
    match worker.offer_documents((0..25).map(doc).collect(), 1) {
        ManyOutcome::Parked(rest) => {
            assert_eq!(rest.iter().map(|d| d.id).collect::<Vec<_>>(), (20..25).collect::<Vec<u128>>())
        },
        other => panic!("unexpected {:?}", other),
    }
    assert_eq!(worker.queued(), 20);
    assert_eq!(worker.waiting(), 1);
    let batch = worker.process_messages();
    assert_eq!(ids(&batch), (0..20).collect::<Vec<u128>>());
    assert!(matches!(worker.offer_documents(vec![doc(1), doc(2)], 2), ManyOutcome::Sent(2)));
    assert_eq!(worker.queued(), 2);
    worker.finish();
    assert!(matches!(worker.offer_documents(vec![doc(3)], 3), ManyOutcome::Closed(back, 3) if back.len() == 1));
}

#[test]
fn documents_collect_values_by_field() {
    let mut d = Document::new(1);
    d.add_value("tag", FieldValue::Text("a".to_string()));
    d.add_value("n", FieldValue::Unsigned(3));
    d.add_value("tag", FieldValue::Text("b".to_string()));
    assert_eq!(d.fields.len(), 2);
    assert_eq!(d.fields[0].name, "tag");
    assert_eq!(d.fields[0].values.len(), 2);
    assert!(matches!(&d.fields[0].values[1], FieldValue::Text(t) if t == "b"));
    assert!(matches!(d.fields[1].values[0], FieldValue::Unsigned(3)));
}

#[test]
fn pre_processed_forms_go_under_the_shadow_field() {
    let entry = shadow_entry("123456789", vec!["rust".to_string(), "rusty".to_string()]);
    assert_eq!(entry.name, "_3421780262");
    assert_eq!(entry.values.len(), 2);
    assert!(matches!(&entry.values[0], FieldValue::Text(t) if t == "rust"));
    assert!(matches!(&entry.values[1], FieldValue::Text(t) if t == "rusty"));
    assert!(shadow_entry("title", vec![]).values.is_empty());
}
