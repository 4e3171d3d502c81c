use lnx_core::changelog::{
    bootstrap_for, pending_in_order, plan_batch, retry_delay_ms, translate,
    watermark_after_peer_load, Bootstrap, Change, ChangeKind, ChangeLogEntry, Poller,
};
use lnx_core::context::{PollingMode, MIN_POLLING_INTERVAL_MS};
use lnx_core::document::{Document, Term};
use lnx_core::writer::WriterOp;
use std::collections::BTreeMap;

fn add(segment_id: i64, timestamp: i64, id: u128) -> ChangeLogEntry {
    ChangeLogEntry { segment_id, timestamp, change: Change::Add(Document::new(id)) }
}

fn remove(segment_id: i64, timestamp: i64, ids: Vec<u128>) -> ChangeLogEntry {
    ChangeLogEntry { segment_id, timestamp, change: Change::Remove(ids) }
}

fn clear(segment_id: i64, timestamp: i64) -> ChangeLogEntry {
    ChangeLogEntry { segment_id, timestamp, change: Change::Clear }
}

fn describe(ops: &[WriterOp]) -> Vec<String> {
    ops.iter()
        .map(|op| match op {
            WriterOp::AddDocument(d) => format!("add {}", d.id),
            WriterOp::DeleteTerm(Term::PrimaryKey(id)) => format!("del {}", id),
            WriterOp::DeleteAll => "clear".to_string(),
            WriterOp::Commit => "commit".to_string(),
            other => format!("{:?}", other),
        })
        .collect()
}

fn run(state: &mut BTreeMap<u128, u128>, ops: &[WriterOp]) {
    for op in ops {
        match op {
            WriterOp::AddDocument(d) => {
                state.insert(d.id, d.id);
            },
            WriterOp::DeleteTerm(Term::PrimaryKey(id)) => {
                state.remove(id);
            },
            WriterOp::DeleteAll => state.clear(),
            _ => {},
        }
    }
}

#[test]
fn entries_know_their_kind() {
    assert_eq!(add(0, 0, 1).kind(), ChangeKind::Add);
    assert_eq!(remove(0, 0, vec![]).kind(), ChangeKind::Remove);
    assert_eq!(clear(0, 0).kind(), ChangeKind::Clear);
}

#[test]
fn pending_entries_come_out_by_segment_then_time() {
    let entries = vec![add(2, 50, 1), add(1, 70, 2), add(1, 60, 3), add(1, 10, 4), add(2, 11, 5)];
    let sorted = pending_in_order(entries, 10);
    let keys: Vec<(i64, i64)> = sorted.iter().map(|e| (e.segment_id, e.timestamp)).collect();
    assert_eq!(keys, vec![(1, 60), (1, 70), (2, 11), (2, 50)]);
}

#[test]
fn a_batch_replays_in_order_and_ends_with_a_commit() {
    let entries = vec![remove(2, 30, vec![7, 8]), add(1, 20, 7), clear(1, 15), add(1, 5, 9)];
    let batch = plan_batch(10, entries);
    assert_eq!(describe(&batch.ops), vec!["clear", "add 7", "del 7", "del 8", "commit"]);
    assert_eq!(batch.watermark, 30);
}

#[test]
fn an_empty_batch_sends_nothing_and_keeps_the_watermark() {
    let batch = plan_batch(10, vec![]);
    assert!(batch.ops.is_empty());
    assert_eq!(batch.watermark, 10);
    let stale = plan_batch(10, vec![add(1, 10, 1), add(1, 3, 2)]);
    assert!(stale.ops.is_empty());
    assert_eq!(stale.watermark, 10);
    assert!(translate(vec![]).is_empty());
}

#[test]
fn replaying_a_batch_twice_is_replaying_it_once() {
    let log = || vec![add(1, 1, 1), add(1, 2, 2), remove(1, 3, vec![1, 5]), add(2, 1, 1), clear(3, 1), add(3, 2, 4)];
    let mut once: BTreeMap<u128, u128> = BTreeMap::new();
    once.insert(9, 9);
    once.insert(5, 5);
    let mut twice = once.clone();
    run(&mut once, &plan_batch(0, log()).ops);
    run(&mut twice, &plan_batch(0, log()).ops);
    run(&mut twice, &plan_batch(0, log()).ops);
    assert_eq!(once, twice);
    assert_eq!(once.keys().copied().collect::<Vec<_>>(), vec![4]);
}

#[test]
fn the_poller_moves_its_watermark_forward_only() {
    let mut poller = Poller::new(PollingMode::OnDemand, 100);
    let batch = poller.plan(vec![add(1, 150, 1), add(1, 120, 2), add(1, 90, 3)]);
    assert_eq!(describe(&batch.ops), vec!["add 2", "add 1", "commit"]);
    assert_eq!(batch.watermark, 150);
    poller.advance(batch.watermark);
    assert_eq!(poller.watermark, 150);
    poller.advance(120);
    assert_eq!(poller.watermark, 150);
}

#[test]
fn retry_delays_double_up_to_the_cap() {
    assert_eq!(retry_delay_ms(0), 100);
    assert_eq!(retry_delay_ms(1), 200);
    assert_eq!(retry_delay_ms(3), 800);
    assert_eq!(retry_delay_ms(8), 25_600);
    assert_eq!(retry_delay_ms(9), 30_000);
    assert_eq!(retry_delay_ms(1_000), 30_000);
}

#[test]
fn bootstrap_loads_from_a_peer_only_for_fresh_indexes_with_remote_documents() {
    assert_eq!(bootstrap_for(true, true), Bootstrap::LoadFromPeer);
    assert_eq!(bootstrap_for(true, false), Bootstrap::Resume);
    assert_eq!(bootstrap_for(false, true), Bootstrap::Resume);
    assert_eq!(bootstrap_for(false, false), Bootstrap::Resume);
    assert_eq!(watermark_after_peer_load(Some(77)), 77);
    assert_eq!(watermark_after_peer_load(None), 0);
}

#[test]
fn polling_intervals_have_a_floor() {
    assert_eq!(MIN_POLLING_INTERVAL_MS, 10);
    assert_eq!(PollingMode::Continuous(0).interval_ms(), Some(10));
    assert_eq!(PollingMode::Continuous(10).interval_ms(), Some(10));
    assert_eq!(PollingMode::Continuous(2_000).interval_ms(), Some(2_000));
    assert_eq!(PollingMode::OnDemand.interval_ms(), None);
}
