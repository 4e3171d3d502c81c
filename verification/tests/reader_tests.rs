use lnx_core::index::{IndexHandler, IndexStorageType, LoadedIndex};
use lnx_core::query::{
    BoostEntry, InvalidQuery, QueryContext, QueryError, QueryMode, QueryPayload, QueryPlan,
    RefAddress,
};
use lnx_core::reader::{executor_for, search, Admission, ExecutorKind, SearchLimiter, SearchStep};
use lnx_core::writer::{Lifecycle, SendOutcome};
use lnx_core::document::{Document, Term};
use tantivy::schema::{Schema, FAST, INDEXED, STORED, TEXT};

fn schema() -> Schema {
    let mut builder = Schema::builder();
    builder.add_text_field("title", TEXT | STORED);
    builder.add_u64_field("year", FAST | INDEXED);
    builder.add_u64_field("pages", INDEXED);
    builder.build()
}

fn loader(search_fields: &[&str], boosts: &[&str], max_concurrency: u32, reader_threads: u32) -> LoadedIndex {
    LoadedIndex {
        name: "books".to_string(),
        schema: schema(),
        storage_type: IndexStorageType::Memory,
        query_context: QueryContext {
            search_fields: search_fields.iter().map(|s| s.to_string()).collect(),
            boost_fields: boosts.iter().map(|s| BoostEntry { field: s.to_string(), factor_bits: 1 }).collect(),
            set_conjunction_by_default: true,
            use_fast_fuzzy: false,
            strip_stop_words: false,
        },
        stop_words: vec![],
        correction_enabled: false,
        writer_threads: 2,
        writer_buffer: 50_000_000,
        max_concurrency,
        reader_threads,
    }
}

fn payload(mode: QueryMode, query: Option<&str>, reference: Option<&str>, order_by: Option<&str>) -> QueryPayload {
    QueryPayload {
        mode,
        query: query.map(|s| s.to_string()),
        ref_document: reference.map(|s| s.to_string()),
        limit: 10,
        offset: 5,
        order_by: order_by.map(|s| s.to_string()),
    }
}

#[test]
fn limiter_never_lets_more_than_max_run() {
    let mut limiter: SearchLimiter<u32> = SearchLimiter::new(2);
    assert!(matches!(limiter.acquire(1), Admission::Granted(1)));
    assert!(matches!(limiter.acquire(2), Admission::Granted(2)));
    assert!(matches!(limiter.acquire(3), Admission::Parked));
    assert!(matches!(limiter.acquire(4), Admission::Parked));
    assert_eq!(limiter.active(), 2);
    assert_eq!(limiter.waiting(), 2);
    assert_eq!(limiter.release(), Some(3));
    assert_eq!(limiter.active(), 2);
    assert_eq!(limiter.release(), Some(4));
    assert_eq!(limiter.release(), None);
    assert_eq!(limiter.active(), 1);
    assert_eq!(limiter.release(), None);
    assert_eq!(limiter.active(), 0);
    assert_eq!(limiter.release(), None);
    assert_eq!(limiter.active(), 0);
    assert_eq!(limiter.max_concurrency(), 2);
}

#[test]
fn limiter_without_permits_parks_everyone() {
    let mut limiter: SearchLimiter<u32> = SearchLimiter::new(0);
    assert!(matches!(limiter.acquire(1), Admission::Parked));
    assert_eq!(limiter.release(), None);
    assert_eq!(limiter.waiting(), 1);
}

#[test]
fn executor_is_a_pool_only_above_one_thread() {
    assert_eq!(executor_for(0), ExecutorKind::SingleThread);
    assert_eq!(executor_for(1), ExecutorKind::SingleThread);
    assert_eq!(executor_for(2), ExecutorKind::MultiThread(2));
}

#[test]
fn build_loaded_wires_writer_and_reader() {
    let index: IndexHandler<u8, u8> = IndexHandler::build_loaded(loader(&["title"], &["title"], 3, 4)).unwrap();
    assert_eq!(index.name, "books");
    assert_eq!(index.writer.index_name, "books");
    assert_eq!(index.writer.worker.lifecycle(), Lifecycle::Running);
    assert_eq!(index.writer.worker.queued(), 0);
    assert_eq!(index.reader.limiter.max_concurrency(), 3);
    assert_eq!(index.reader.pool_threads, 3);
    assert_eq!(index.reader.executor, ExecutorKind::MultiThread(4));
    assert!(index.reader.handler.normal_factory.conjunction_by_default);
    assert_eq!(index.reader.handler.normal_factory.fields.len(), 1);
    assert_eq!(index.reader.resolve_order_by(&Some("year".to_string())), Some(1));
}

#[test]
fn build_loaded_reports_unknown_search_and_boost_fields() {
    match IndexHandler::<u8, u8>::build_loaded(loader(&["title", "author"], &["nope"], 1, 1)) {
        Err(QueryError::UnknownField(name)) => assert_eq!(name, "author"),
        _ => panic!("expected an unknown search field"),
    }
    match IndexHandler::<u8, u8>::build_loaded(loader(&["title"], &["title", "nope", "nada"], 1, 1)) {
        Err(QueryError::UnknownField(name)) => assert_eq!(name, "nope"),
        _ => panic!("expected an unknown boost field"),
    }
}

#[test]
fn order_by_is_kept_only_for_fast_fields() {
    let index: IndexHandler<u8, u8> = IndexHandler::build_loaded(loader(&["title"], &[], 1, 1)).unwrap();
    assert_eq!(index.reader.resolve_order_by(&Some("year".to_string())), Some(1));
    assert_eq!(index.reader.resolve_order_by(&Some("pages".to_string())), None);
    assert_eq!(index.reader.resolve_order_by(&Some("title".to_string())), None);
    assert_eq!(index.reader.resolve_order_by(&Some("missing".to_string())), None);
    assert_eq!(index.reader.resolve_order_by(&None), None);
}

#[test]
fn search_admits_plans_and_releases() {
    let mut index: IndexHandler<u8, u32> = IndexHandler::build_loaded(loader(&["title"], &[], 1, 1)).unwrap();
    let first = payload(QueryMode::Normal, Some("rust programming"), None, Some("year"));
    match index.search(&first, 1) {
        SearchStep::Run(job, 1) => {
            assert!(matches!(&job.query, QueryPlan::Parsed(text) if text == "rust programming"));
            assert_eq!(job.limit, 10);
            assert_eq!(job.offset, 5);
            assert_eq!(job.order_by, Some(1));
        },
        other => panic!("unexpected {:?}", other),
    }
    assert!(matches!(index.search(&first, 2), SearchStep::Parked));
    assert_eq!(index.reader.limiter.active(), 1);
    assert_eq!(index.reader.finish_search(), Some(2));
    assert_eq!(index.reader.limiter.active(), 1);
    assert!(index.reader.plan_search(&first).is_ok());
    assert_eq!(index.reader.finish_search(), None);
    assert_eq!(index.reader.limiter.active(), 0);
}

#[test]
fn invalid_payloads_are_rejected_without_taking_a_permit() {
    let mut index: IndexHandler<u8, u32> = IndexHandler::build_loaded(loader(&["title"], &[], 1, 1)).unwrap();
    let cases = vec![
        (payload(QueryMode::Normal, None, None, None), InvalidQuery::MissingQueryForNormal),
        (payload(QueryMode::Fuzzy, None, None, None), InvalidQuery::MissingQueryForFuzzy),
        (payload(QueryMode::MoreLikeThis, Some("x"), None, None), InvalidQuery::MissingReferenceDocument),
        (payload(QueryMode::Normal, Some("x"), Some("not-an-address"), None), InvalidQuery::MalformedReference),
        (payload(QueryMode::Normal, None, Some("bad"), None), InvalidQuery::MalformedReference),
    ];
    for (p, expected) in cases {
        match index.search(&p, 9) {
            SearchStep::Rejected(reason, 9) => assert_eq!(reason, expected),
            other => panic!("unexpected {:?}", other),
        }
        assert_eq!(index.reader.limiter.active(), 0);
    }
    match index.search(&payload(QueryMode::MoreLikeThis, None, Some("2-7"), None), 9) {
        SearchStep::Run(job, 9) => match job.query {
            QueryPlan::MoreLikeThis(plan) => assert_eq!(plan.reference, RefAddress { segment_id: 2, doc_id: 7 }),
            other => panic!("unexpected {:?}", other),
        },
        other => panic!("unexpected {:?}", other),
    }
}

#[test]
fn results_carry_tokens_in_order_and_count_the_hits() {
    let top = vec![
        (RefAddress { segment_id: 0, doc_id: 4 }, "a"),
        (RefAddress { segment_id: 1, doc_id: 0 }, "b"),
        (RefAddress { segment_id: 0, doc_id: 9 }, "c"),
    ];
    let results = search(top, 1_500);
    assert_eq!(results.count, 3);
    assert_eq!(results.time_taken_nanos, 1_500);
    let got: Vec<(&str, &str)> = results.hits.iter().map(|h| (h.ref_address.as_str(), h.doc)).collect();
    assert_eq!(got, vec![("0-4", "a"), ("1-0", "b"), ("0-9", "c")]);
    let empty = search(Vec::<(RefAddress, u8)>::new(), 0);
    assert_eq!(empty.count, 0);
    assert!(empty.hits.is_empty());
}

#[test]
fn index_handle_forwards_operations_to_the_writer() {
    let mut index: IndexHandler<u8, u8> = IndexHandler::build_loaded(loader(&["title"], &[], 1, 1)).unwrap();
    assert!(matches!(index.add_document(Document::new(1), 0), SendOutcome::Sent(0)));
    assert!(matches!(index.delete_term(Term::PrimaryKey(1), 0), SendOutcome::Sent(0)));
    assert!(matches!(index.delete_documents(0), SendOutcome::Sent(0)));
    assert!(matches!(index.rollback(0), SendOutcome::Sent(0)));
    assert!(matches!(index.commit(0), SendOutcome::Sent(0)));
    let batch = index.writer.worker.process_messages();
    let labels: Vec<&str> = batch.ops.iter().map(|op| op.label()).collect();
    assert_eq!(labels, vec!["ADD-DOCUMENT", "DELETE-TERM", "DELETE-ALL", "ROLLBACK", "COMMIT"]);
}
