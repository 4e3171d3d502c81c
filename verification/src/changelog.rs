//! The change-log of an index and the poller that turns it into writer
//! operations, together with the model of the local index that says what
//! those operations mean.

use crate::document::{selects, DocId, Document, SegmentId, Term, Timestamp};
use crate::context::PollingMode;
use crate::writer::{reversed, WriterOp};
use vstd::prelude::*;

verus! {

/// One recorded change.
#[derive(Debug)]
pub enum Change {
    /// A document was written.
    Add(Document),
    /// The documents with these primary keys were removed.
    Remove(Vec<DocId>),
    /// Every document was removed.
    Clear,
}

/// The kind of a change.
#[derive(Clone, Copy, Debug, PartialEq, Eq, Structural)]
pub enum ChangeKind {
    Add,
    Remove,
    Clear,
}

/// An entry of the change-log.
#[derive(Debug)]
pub struct ChangeLogEntry {
    pub segment_id: SegmentId,
    pub timestamp: Timestamp,
    pub change: Change,
}

impl ChangeLogEntry {
    /// The kind of the change.
    pub fn kind(&self) -> (kind: ChangeKind)
        ensures
            kind == match self.change {
                Change::Add(_) => ChangeKind::Add,
                Change::Remove(_) => ChangeKind::Remove,
                Change::Clear => ChangeKind::Clear,
            },
    {
        match &self.change {
            Change::Add(_) => ChangeKind::Add,
            Change::Remove(_) => ChangeKind::Remove,
            Change::Clear => ChangeKind::Clear,
        }
    }
}

/// The local index as searches and the writer see it.
pub struct IndexModel {
    /// What searches see: the documents as of the last commit, by primary key.
    pub committed: Map<DocId, Document>,
    /// What the writer has built since.
    pub working: Map<DocId, Document>,
}

/// Whether every document is stored under its own primary key.
pub open spec fn keyed(docs: Map<DocId, Document>) -> bool {
    forall|id: DocId| #[trigger] docs.contains_key(id) ==> docs[id].id == id
}

/// The documents left after those that `term` selects are deleted.
pub open spec fn without(docs: Map<DocId, Document>, term: Term) -> Map<DocId, Document> {
    docs.restrict(Set::new(|id: DocId| docs.contains_key(id) && !selects(term, docs[id])))
}

/// The index after the writer has applied `op`.
pub open spec fn apply_op(index: IndexModel, op: WriterOp) -> IndexModel {
    match op {
        WriterOp::Commit => IndexModel { committed: index.working, ..index },
        WriterOp::Rollback => IndexModel { working: index.committed, ..index },
        WriterOp::AddDocument(doc) => IndexModel {
            working: index.working.insert(doc.id, doc),
            ..index
        },
        WriterOp::DeleteTerm(term) => IndexModel { working: without(index.working, term), ..index },
        WriterOp::DeleteAll => IndexModel { working: Map::empty(), ..index },
        WriterOp::Shutdown => index,
    }
}

/// The index after the writer has applied `ops`, in order.
pub open spec fn apply_ops(index: IndexModel, ops: Seq<WriterOp>) -> IndexModel
    decreases ops.len(),
{
    if ops.len() == 0 {
        index
    } else {
        apply_op(apply_ops(index, ops.drop_last()), ops.last())
    }
}

/// Whether none of `ops` is a commit.
pub open spec fn no_commit(ops: Seq<WriterOp>) -> bool {
    forall|i: int| 0 <= i < ops.len() ==> !(#[trigger] ops[i] is Commit)
}

/// A commit publishes everything applied before it: after `ops` and a
/// commit, searches see exactly what the writer had built by `ops`.
pub proof fn lemma_commit_publishes(index: IndexModel, ops: Seq<WriterOp>)
    ensures
        apply_ops(index, ops.push(WriterOp::Commit)).committed == apply_ops(index, ops).working,
{
    assert(ops.push(WriterOp::Commit).drop_last() =~= ops);
}

/// Nothing applied after a commit is seen before the next one: operations
/// without a commit among them leave what searches see unchanged.
pub proof fn lemma_uncommitted_is_invisible(index: IndexModel, ops: Seq<WriterOp>)
    requires
        no_commit(ops),
    ensures
        apply_ops(index, ops).committed == index.committed,
    decreases ops.len(),
{
    if ops.len() > 0 {
        let before = ops.drop_last();
        assert forall|i: int| 0 <= i < before.len() implies !(#[trigger] before[i] is Commit) by {
            assert(before[i] == ops[i]);
        }
        lemma_uncommitted_is_invisible(index, before);
        assert(!(ops[ops.len() - 1] is Commit));
    }
}

/// What searches see is always one committed state: either the state they
/// saw before `ops`, or exactly what the writer had built when one of the
/// commits among `ops` was applied.
pub proof fn lemma_searches_see_a_committed_state(index: IndexModel, ops: Seq<WriterOp>)
    ensures
        apply_ops(index, ops).committed == index.committed || exists|k: int|
            0 <= k < ops.len() && ops[k] is Commit && apply_ops(index, ops).committed
                == #[trigger] apply_ops(index, ops.take(k)).working,
    decreases ops.len(),
{
    if ops.len() > 0 {
        let before = ops.drop_last();
        let n = ops.len() - 1;
        assert(ops.take(n) =~= before);
        if ops.last() is Commit {
            assert(apply_ops(index, ops).committed == apply_ops(index, ops.take(n)).working);
        } else {
            lemma_searches_see_a_committed_state(index, before);
            assert(apply_ops(index, ops).committed == apply_ops(index, before).committed);
            if apply_ops(index, before).committed != index.committed {
                let k = choose|k: int|
                    0 <= k < before.len() && before[k] is Commit && apply_ops(
                        index,
                        before,
                    ).committed == #[trigger] apply_ops(index, before.take(k)).working;
                assert(before.take(k) =~= ops.take(k));
                assert(ops[k] == before[k]);
            }
        }
    }
}

/// A document that is added and then committed is found under its primary
/// key, equal to what was added.
pub proof fn lemma_committed_document_is_found(index: IndexModel, ops: Seq<WriterOp>, doc: Document)
    ensures
        ({
            let after = apply_ops(index, ops.push(WriterOp::AddDocument(doc)).push(WriterOp::Commit));
            after.committed.contains_key(doc.id) && after.committed[doc.id] == doc
        }),
{
    let added = ops.push(WriterOp::AddDocument(doc));
    let all = added.push(WriterOp::Commit);
    assert(all.drop_last() =~= added);
    assert(added.drop_last() =~= ops);
    assert(apply_ops(index, added) == apply_op(apply_ops(index, ops), WriterOp::AddDocument(doc)));
    assert(apply_ops(index, all) == apply_op(apply_ops(index, added), WriterOp::Commit));
}

/// The documents after `change` is applied to `docs`: an added document
/// replaces the one with its primary key.
pub open spec fn apply_change(docs: Map<DocId, Document>, change: Change) -> Map<DocId, Document> {
    match change {
        Change::Add(doc) => docs.insert(doc.id, doc),
        Change::Remove(ids) => docs.remove_keys(ids@.to_set()),
        Change::Clear => Map::empty(),
    }
}

/// The documents after the changes of `log` are applied to `docs`, in order.
pub open spec fn replay(docs: Map<DocId, Document>, log: Seq<Change>) -> Map<DocId, Document>
    decreases log.len(),
{
    if log.len() == 0 {
        docs
    } else {
        apply_change(replay(docs, log.drop_last()), log.last())
    }
}

/// What `log` does to the primary key `id`: `None` if no change touches it,
/// and otherwise what the last change that touches it leaves under it.
pub open spec fn effect_on(log: Seq<Change>, id: DocId) -> Option<Option<Document>>
    decreases log.len(),
{
    if log.len() == 0 {
        None
    } else {
        match log.last() {
            Change::Add(doc) => if doc.id == id {
                Some(Some(doc))
            } else {
                effect_on(log.drop_last(), id)
            },
            Change::Remove(ids) => if ids@.contains(id) {
                Some(None)
            } else {
                effect_on(log.drop_last(), id)
            },
            Change::Clear => Some(None),
        }
    }
}

/// After a replay, a primary key holds what the log's last change to it
/// left, or what it held before where the log does not touch it.
pub proof fn lemma_replay_by_key(docs: Map<DocId, Document>, log: Seq<Change>, id: DocId)
    ensures
        match effect_on(log, id) {
            Some(Some(doc)) => replay(docs, log).contains_key(id) && replay(docs, log)[id] == doc,
            Some(None) => !replay(docs, log).contains_key(id),
            None => replay(docs, log).contains_key(id) == docs.contains_key(id) && (
            docs.contains_key(id) ==> replay(docs, log)[id] == docs[id]),
        },
    decreases log.len(),
{
    if log.len() > 0 {
        lemma_replay_by_key(docs, log.drop_last(), id);
        match log.last() {
            Change::Remove(ids) => {
                assert(ids@.to_set().contains(id) <==> ids@.contains(id));
            },
            _ => {},
        }
    }
}

/// Replaying a log a second time changes nothing: the documents after two
/// replays are the documents after one.
pub proof fn lemma_replay_is_idempotent(docs: Map<DocId, Document>, log: Seq<Change>)
    ensures
        replay(replay(docs, log), log) == replay(docs, log),
{
    let once = replay(docs, log);
    let twice = replay(once, log);
    assert forall|id: DocId| #[trigger] once.dom().contains(id) == twice.dom().contains(id) by {
        lemma_replay_by_key(docs, log, id);
        lemma_replay_by_key(once, log, id);
    }
    assert(once.dom() =~= twice.dom());
    assert forall|id: DocId| once.dom().contains(id) implies #[trigger] once[id] == twice[id] by {
        lemma_replay_by_key(docs, log, id);
        lemma_replay_by_key(once, log, id);
    }
    assert(once =~= twice);
}

/// The changes of the entries of a log, in order.
pub open spec fn changes_of(entries: Seq<ChangeLogEntry>) -> Seq<Change> {
    Seq::new(entries.len(), |i: int| entries[i].change)
}

/// The predicate that holds of entries recorded after `from` and not after `to`.
pub open spec fn in_window(from: Timestamp, to: Timestamp) -> spec_fn(ChangeLogEntry) -> bool {
    |entry: ChangeLogEntry| from < entry.timestamp <= to
}

/// Applying the part of a change-log that lies in a window of time twice
/// leaves the local index as applying it once does.
pub proof fn lemma_window_replay_is_idempotent(
    docs: Map<DocId, Document>,
    entries: Seq<ChangeLogEntry>,
    from: Timestamp,
    to: Timestamp,
)
    requires
        from <= to,
    ensures
        ({
            let window = changes_of(entries.filter(in_window(from, to)));
            replay(replay(docs, window), window) == replay(docs, window)
        }),
{
    lemma_replay_is_idempotent(docs, changes_of(entries.filter(in_window(from, to))));
}

/// The writer operations that carry out a change.
pub open spec fn ops_of(change: Change) -> Seq<WriterOp> {
    match change {
        Change::Add(doc) => seq![WriterOp::AddDocument(doc)],
        Change::Remove(ids) => Seq::new(
            ids@.len(),
            |i: int| WriterOp::DeleteTerm(Term::PrimaryKey(ids@[i])),
        ),
        Change::Clear => seq![WriterOp::DeleteAll],
    }
}

/// Deleting by primary key, key after key, removes exactly those keys.
pub proof fn lemma_delete_keys(index: IndexModel, ids: Seq<DocId>)
    requires
        keyed(index.working),
    ensures
        apply_ops(
            index,
            Seq::new(ids.len(), |i: int| WriterOp::DeleteTerm(Term::PrimaryKey(ids[i]))),
        ) == (IndexModel { working: index.working.remove_keys(ids.to_set()), ..index }),
    decreases ids.len(),
{
    let ops = Seq::new(ids.len(), |i: int| WriterOp::DeleteTerm(Term::PrimaryKey(ids[i])));
    if ids.len() == 0 {
        assert(index.working.remove_keys(ids.to_set()) =~= index.working);
    } else {
        let head = ids.drop_last();
        let head_ops = Seq::new(head.len(), |i: int| WriterOp::DeleteTerm(Term::PrimaryKey(head[i])));
        assert(ops.drop_last() =~= head_ops);
        lemma_delete_keys(index, head);
        let mid = index.working.remove_keys(head.to_set());
        let last = ids.last();
        assert(ops.last() == WriterOp::DeleteTerm(Term::PrimaryKey(last)));
        assert forall|id: DocId| ids.to_set().contains(id) <==> (head.to_set().contains(id) || id
            == last) by {
            if ids.contains(id) {
                let j = choose|j: int| 0 <= j < ids.len() && ids[j] == id;
                if j < head.len() {
                    assert(head[j] == id);
                }
            }
            if head.contains(id) {
                let j = choose|j: int| 0 <= j < head.len() && head[j] == id;
                assert(ids[j] == id);
            }
            if id == last {
                assert(ids[ids.len() - 1] == id);
            }
        }
        let left = without(mid, Term::PrimaryKey(last));
        let right = index.working.remove_keys(ids.to_set());
        assert forall|id: DocId| #[trigger] left.dom().contains(id) == right.dom().contains(id) by {
            if mid.contains_key(id) {
                assert(index.working.contains_key(id));
                assert(mid[id] == index.working[id]);
                assert(selects(Term::PrimaryKey(last), mid[id]) == (mid[id].id == last));
            }
        }
        assert(left.dom() =~= right.dom());
        assert(left =~= right);
    }
}

/// The writer operations of a change do to the writer's documents what the
/// change says, and leave what searches see alone.
pub proof fn lemma_ops_carry_out_change(index: IndexModel, change: Change)
    requires
        keyed(index.working),
    ensures
        keyed(apply_change(index.working, change)),
        apply_ops(index, ops_of(change)) == (IndexModel {
            working: apply_change(index.working, change),
            ..index
        }),
{
    match change {
        Change::Add(doc) => {
            let ops = seq![WriterOp::AddDocument(doc)];
            assert(ops.drop_last() =~= Seq::<WriterOp>::empty());
            assert(apply_ops(index, ops.drop_last()) == index);
        },
        Change::Remove(ids) => {
            lemma_delete_keys(index, ids@);
        },
        Change::Clear => {
            let ops = seq![WriterOp::DeleteAll];
            assert(ops.drop_last() =~= Seq::<WriterOp>::empty());
            assert(apply_ops(index, ops.drop_last()) == index);
        },
    }
}

/// Whether `a` comes no later than `b` in the order of replay: by segment
/// first and by time within a segment.
pub open spec fn replays_before(a: ChangeLogEntry, b: ChangeLogEntry) -> bool {
    a.segment_id < b.segment_id || (a.segment_id == b.segment_id && a.timestamp <= b.timestamp)
}

/// Whether `entries` are in the order of replay.
pub open spec fn in_replay_order(entries: Seq<ChangeLogEntry>) -> bool {
    forall|i: int, j: int|
        0 <= i < j < entries.len() ==> replays_before(#[trigger] entries[i], #[trigger] entries[j])
}

/// The predicate that holds of entries recorded after `watermark`.
pub open spec fn is_pending(watermark: Timestamp) -> spec_fn(ChangeLogEntry) -> bool {
    |entry: ChangeLogEntry| entry.timestamp > watermark
}

fn comes_before(a: &ChangeLogEntry, b: &ChangeLogEntry) -> (r: bool)
    ensures
        r == replays_before(*a, *b),
{
    a.segment_id < b.segment_id || (a.segment_id == b.segment_id && a.timestamp <= b.timestamp)
}

/// Selects the entries recorded after `watermark` and puts them in the
/// order of replay.
pub fn pending_in_order(entries: Vec<ChangeLogEntry>, watermark: Timestamp) -> (out: Vec<
    ChangeLogEntry,
>)
    ensures
        in_replay_order(out@),
        out@.to_multiset() == entries@.filter(is_pending(watermark)).to_multiset(),
{
    broadcast use vstd::seq_lib::group_to_multiset_ensures;

    let ghost all = entries@;
    let ghost keep = is_pending(watermark);
    let mut rest = entries;
    let mut out: Vec<ChangeLogEntry> = Vec::new();
    proof {
        assert(rest@.take(rest@.len() as int) =~= rest@);
        assert(out@.to_multiset().add(all.filter(keep).to_multiset()) =~= all.filter(
            keep,
        ).to_multiset());
    }
    while rest.len() > 0
        invariant
            keep == is_pending(watermark),
            in_replay_order(out@),
            out@.to_multiset().add(rest@.filter(keep).to_multiset()) == all.filter(
                keep,
            ).to_multiset(),
        decreases rest@.len(),
    {
        let ghost before = rest@;
        let ghost sorted = out@;
        let popped = rest.pop();
        match popped {
            None => {},
            Some(entry) => {
                proof {
                    assert(rest@ =~= before.drop_last());
                    assert(entry == before.last());
                    reveal(Seq::filter);
                    assert(before.filter(keep) == if keep(entry) {
                        rest@.filter(keep).push(entry)
                    } else {
                        rest@.filter(keep)
                    });
                }
                if entry.timestamp > watermark {
                    let mut at: usize = 0;
                    while at < out.len() && comes_before(&out[at], &entry)
                        invariant
                            at <= out@.len(),
                            out@ == sorted,
                            forall|j: int| 0 <= j < at ==> replays_before(#[trigger] out@[j], entry),
                        decreases out@.len() - at,
                    {
                        at += 1;
                    }
                    out.insert(at, entry);
                    proof {
                        let after = out@;
                        assert(after == sorted.insert(at as int, entry));
                        assert forall|i: int, j: int| 0 <= i < j < after.len() implies replays_before(
                            #[trigger] after[i],
                            #[trigger] after[j],
                        ) by {
                            if j < at {
                                assert(after[i] == sorted[i] && after[j] == sorted[j]);
                            } else if j == at {
                                assert(after[i] == sorted[i]);
                            } else if i == at {
                                assert(after[j] == sorted[j - 1]);
                                assert(!replays_before(sorted[at as int], entry));
                                if j - 1 > at {
                                    assert(replays_before(sorted[at as int], sorted[j - 1]));
                                }
                            } else if i < at {
                                assert(after[i] == sorted[i] && after[j] == sorted[j - 1]);
                            } else {
                                assert(after[i] == sorted[i - 1] && after[j] == sorted[j - 1]);
                            }
                        }
                        assert(after.remove(at as int) =~= sorted);
                        assert(after.contains(entry)) by {
                            assert(after[at as int] == entry);
                        }
                        vstd::seq_lib::to_multiset_remove(after, at as int);
                        after.to_multiset_ensures();
                        assert(after.to_multiset().count(entry) > 0);
                        assert(after.to_multiset() =~= after.to_multiset().remove(entry).insert(
                            entry,
                        ));
                        assert(after.to_multiset() =~= sorted.to_multiset().insert(entry));
                        vstd::seq_lib::to_multiset_build(rest@.filter(keep), entry);
                        assert(after.to_multiset().add(rest@.filter(keep).to_multiset())
                            =~= sorted.to_multiset().add(
                            rest@.filter(keep).push(entry).to_multiset(),
                        ));
                    }
                }
            },
        }
    }
    proof {
        assert(rest@.filter(keep) =~= Seq::<ChangeLogEntry>::empty()) by {
            reveal(Seq::filter);
        }
        assert(out@.to_multiset().add(Seq::<ChangeLogEntry>::empty().to_multiset())
            =~= out@.to_multiset());
    }
    out
}

/// The writer operations that replay `entries`, in order.
pub open spec fn replay_ops(entries: Seq<ChangeLogEntry>) -> Seq<WriterOp>
    decreases entries.len(),
{
    if entries.len() == 0 {
        Seq::empty()
    } else {
        ops_of(entries[0].change) + replay_ops(entries.drop_first())
    }
}

/// The writer operations of a batch: those that replay its entries,
/// followed by a commit; nothing for a batch without entries.
pub open spec fn batch_ops(entries: Seq<ChangeLogEntry>) -> Seq<WriterOp> {
    if entries.len() == 0 {
        Seq::empty()
    } else {
        replay_ops(entries).push(WriterOp::Commit)
    }
}

/// The latest time among `watermark` and the times of `entries`.
pub open spec fn latest(watermark: Timestamp, entries: Seq<ChangeLogEntry>) -> Timestamp
    decreases entries.len(),
{
    if entries.len() == 0 {
        watermark
    } else {
        let before = latest(watermark, entries.drop_last());
        if entries.last().timestamp > before {
            entries.last().timestamp
        } else {
            before
        }
    }
}

/// The latest time among `watermark` and the times of `entries`.
pub fn next_watermark(watermark: Timestamp, entries: &Vec<ChangeLogEntry>) -> (next: Timestamp)
    ensures
        next == latest(watermark, entries@),
{
    let mut next = watermark;
    let mut i: usize = 0;
    assert(entries@.take(0) =~= Seq::<ChangeLogEntry>::empty());
    while i < entries.len()
        invariant
            i <= entries@.len(),
            next == latest(watermark, entries@.take(i as int)),
        decreases entries@.len() - i,
    {
        assert(entries@.take(i + 1).drop_last() =~= entries@.take(i as int));
        assert(entries@.take(i + 1).last() == entries@[i as int]);
        if entries[i].timestamp > next {
            next = entries[i].timestamp;
        }
        i += 1;
    }
    assert(entries@.take(entries@.len() as int) =~= entries@);
    next
}

/// Turns the entries of a batch into the operations the writer is sent:
/// each entry becomes the operations that carry out its change, and a
/// commit ends the batch.
pub fn translate(entries: Vec<ChangeLogEntry>) -> (ops: Vec<WriterOp>)
    ensures
        ops@ == batch_ops(entries@),
{
    let ghost all = entries@;
    let mut rest = reversed(entries);
    let mut ops: Vec<WriterOp> = Vec::new();
    if rest.len() == 0 {
        return ops;
    }
    proof {
        assert(all.skip(0) =~= all);
        assert(ops@ + replay_ops(all) =~= replay_ops(all));
    }
    while rest.len() > 0
        invariant
            rest@.len() <= all.len(),
            rest@ == all.skip(all.len() - rest@.len()).reverse(),
            ops@ + replay_ops(all.skip(all.len() - rest@.len())) == replay_ops(all),
        decreases rest@.len(),
    {
        let ghost at = all.len() - rest@.len();
        let ghost suffix = all.skip(at);
        let ghost done = ops@;
        match rest.pop() {
            None => {},
            Some(entry) => {
                proof {
                    assert(entry == suffix[0]);
                    assert(suffix.drop_first() =~= all.skip(at + 1));
                    assert(rest@ =~= all.skip(at + 1).reverse());
                }
                match entry.change {
                    Change::Add(doc) => {
                        ops.push(WriterOp::AddDocument(doc));
                        assert(ops@ =~= done + ops_of(suffix[0].change));
                    },
                    Change::Clear => {
                        ops.push(WriterOp::DeleteAll);
                        assert(ops@ =~= done + ops_of(suffix[0].change));
                    },
                    Change::Remove(ids) => {
                        let mut i: usize = 0;
                        while i < ids.len()
                            invariant
                                i <= ids@.len(),
                                ops@ == done + ops_of(Change::Remove(ids)).take(i as int),
                            decreases ids@.len() - i,
                        {
                            let ghost row = ops_of(Change::Remove(ids));
                            assert(row.take(i + 1) =~= row.take(i as int).push(
                                WriterOp::DeleteTerm(Term::PrimaryKey(ids@[i as int])),
                            ));
                            ops.push(WriterOp::DeleteTerm(Term::PrimaryKey(ids[i])));
                            i += 1;
                        }
                        proof {
                            let row = ops_of(Change::Remove(ids));
                            assert(row.take(ids@.len() as int) =~= row);
                        }
                    },
                }
                proof {
                    assert(ops@ + replay_ops(all.skip(at + 1)) =~= done + (ops_of(suffix[0].change)
                        + replay_ops(suffix.drop_first())));
                }
            },
        }
    }
    proof {
        assert(all.skip(all.len() as int) =~= Seq::<ChangeLogEntry>::empty());
        assert(ops@ =~= replay_ops(all));
    }
    ops.push(WriterOp::Commit);
    ops
}

/// What the poller sends the writer for one poll, and the watermark to
/// record once the writer has applied it.
#[derive(Debug)]
pub struct PollBatch {
    pub ops: Vec<WriterOp>,
    pub watermark: Timestamp,
}

/// Plans one poll: the entries recorded after `watermark` are replayed in
/// the order of replay and committed, and the watermark moves to the latest
/// of their times.
pub fn plan_batch(watermark: Timestamp, entries: Vec<ChangeLogEntry>) -> (batch: PollBatch)
    ensures
        batch.watermark == latest(watermark, entries@),
        batch.watermark >= watermark,
        exists|sorted: Seq<ChangeLogEntry>|
            in_replay_order(sorted) && sorted.to_multiset() == entries@.filter(
                is_pending(watermark),
            ).to_multiset() && batch.ops@ == #[trigger] batch_ops(sorted),
{
    let next = next_watermark(watermark, &entries);
    proof {
        lemma_latest_is_no_earlier(watermark, entries@);
    }
    let sorted = pending_in_order(entries, watermark);
    let ghost witness = sorted@;
    let ops = translate(sorted);
    assert(ops@ == batch_ops(witness));
    PollBatch { ops, watermark: next }
}

/// The watermark never moves back.
pub proof fn lemma_latest_is_no_earlier(watermark: Timestamp, entries: Seq<ChangeLogEntry>)
    ensures
        latest(watermark, entries) >= watermark,
        forall|i: int| 0 <= i < entries.len() ==> latest(watermark, entries) >= (
        #[trigger] entries[i]).timestamp,
    decreases entries.len(),
{
    if entries.len() > 0 {
        let before = entries.drop_last();
        lemma_latest_is_no_earlier(watermark, before);
        assert forall|i: int| 0 <= i < entries.len() implies latest(watermark, entries) >= (
        #[trigger] entries[i]).timestamp by {
            if i < before.len() {
                assert(before[i] == entries[i]);
            }
        }
    }
}

/// The base of the delay between two attempts to reach the durable store, in milliseconds.
pub const RETRY_BASE_DELAY_MS: u64 = 100;

/// The longest delay between two attempts, in milliseconds.
pub const RETRY_MAX_DELAY_MS: u64 = 30_000;

/// The delay before attempt `attempt` (counted from zero): the base delay
/// doubled once per earlier attempt, and no more than the longest delay.
pub open spec fn backoff_ms(attempt: nat) -> nat
    decreases attempt,
{
    if attempt == 0 {
        RETRY_BASE_DELAY_MS as nat
    } else {
        let doubled = backoff_ms((attempt - 1) as nat) * 2;
        if doubled > RETRY_MAX_DELAY_MS {
            RETRY_MAX_DELAY_MS as nat
        } else {
            doubled
        }
    }
}

/// The delay before attempt `attempt` to reach the durable store, in milliseconds.
pub fn retry_delay_ms(attempt: u32) -> (delay: u64)
    ensures
        delay == backoff_ms(attempt as nat),
        RETRY_BASE_DELAY_MS <= delay <= RETRY_MAX_DELAY_MS,
{
    let mut delay: u64 = RETRY_BASE_DELAY_MS;
    let mut i: u32 = 0;
    while i < attempt
        invariant
            i <= attempt,
            delay == backoff_ms(i as nat),
            RETRY_BASE_DELAY_MS <= delay <= RETRY_MAX_DELAY_MS,
        decreases attempt - i,
    {
        delay = if delay * 2 > RETRY_MAX_DELAY_MS {
            RETRY_MAX_DELAY_MS
        } else {
            delay * 2
        };
        i += 1;
    }
    delay
}

/// How a node fills a local index on first open.
#[derive(Clone, Copy, Debug, PartialEq, Eq, Structural)]
pub enum Bootstrap {
    /// There is nothing to fetch: polling starts at the recorded watermark.
    Resume,
    /// The segment files of a peer are copied first.
    LoadFromPeer,
}

/// Decides how a local index is filled when it is opened: a fresh index
/// whose durable store already holds documents is loaded from a peer; any
/// other index resumes polling.
pub fn bootstrap_for(fresh_index: bool, store_has_documents: bool) -> (plan: Bootstrap)
    ensures
        plan == if fresh_index && store_has_documents {
            Bootstrap::LoadFromPeer
        } else {
            Bootstrap::Resume
        },
{
    if fresh_index && store_has_documents {
        Bootstrap::LoadFromPeer
    } else {
        Bootstrap::Resume
    }
}

/// The watermark from which polling starts after an attempt to load from a
/// peer: the peer's watermark where the load succeeded, and the beginning
/// of time, which replays the whole change-log, where no peer was at hand.
pub fn watermark_after_peer_load(peer_watermark: Option<Timestamp>) -> (watermark: Timestamp)
    ensures
        watermark == match peer_watermark {
            Some(at) => at,
            None => 0,
        },
{
    match peer_watermark {
        Some(at) => at,
        None => 0,
    }
}

/// The poller of an index: when it polls and how far it has come.
#[derive(Debug)]
pub struct Poller {
    pub mode: PollingMode,
    /// The latest time of a change that the local index has applied.
    pub watermark: Timestamp,
}

impl Poller {
    /// A poller that resumes at `watermark`.
    pub fn new(mode: PollingMode, watermark: Timestamp) -> (poller: Poller)
        ensures
            poller.mode == mode,
            poller.watermark == watermark,
    {
        Poller { mode, watermark }
    }

    /// Plans the next poll from the entries the durable store returned.
    pub fn plan(&self, entries: Vec<ChangeLogEntry>) -> (batch: PollBatch)
        ensures
            batch.watermark == latest(self.watermark, entries@),
            batch.watermark >= self.watermark,
            exists|sorted: Seq<ChangeLogEntry>|
                in_replay_order(sorted) && sorted.to_multiset() == entries@.filter(
                    is_pending(self.watermark),
                ).to_multiset() && batch.ops@ == #[trigger] batch_ops(sorted),
    {
        plan_batch(self.watermark, entries)
    }

    /// Records that the writer has applied a batch: the watermark moves to
    /// the batch's, and never back.
    pub fn advance(&mut self, applied: Timestamp)
        ensures
            final(self).mode == old(self).mode,
            final(self).watermark == if applied > old(self).watermark {
                applied
            } else {
                old(self).watermark
            },
    {
        if applied > self.watermark {
            self.watermark = applied;
        }
    }
}

/// Applying one list of operations after another is applying their concatenation.
pub proof fn lemma_apply_ops_concat(index: IndexModel, first: Seq<WriterOp>, second: Seq<WriterOp>)
    ensures
        apply_ops(index, first + second) == apply_ops(apply_ops(index, first), second),
    decreases second.len(),
{
    if second.len() == 0 {
        assert(first + second =~= first);
    } else {
        lemma_apply_ops_concat(index, first, second.drop_last());
        assert((first + second).drop_last() =~= first + second.drop_last());
        assert((first + second).last() == second.last());
    }
}

/// Replaying from the front is replaying from the back.
pub proof fn lemma_replay_from_front(docs: Map<DocId, Document>, log: Seq<Change>)
    requires
        log.len() > 0,
    ensures
        replay(docs, log) == replay(apply_change(docs, log[0]), log.drop_first()),
    decreases log.len(),
{
    if log.len() == 1 {
        assert(log.drop_last() =~= Seq::<Change>::empty());
        assert(log.drop_first() =~= Seq::<Change>::empty());
        assert(replay(docs, log.drop_last()) == docs);
        assert(log.last() == log[0]);
        assert(replay(docs, log) == apply_change(docs, log[0]));
        assert(replay(apply_change(docs, log[0]), log.drop_first()) == apply_change(docs, log[0]));
    } else {
        let front = log.drop_last();
        let back = log.drop_first();
        lemma_replay_from_front(docs, front);
        assert(front.drop_first() =~= back.drop_last());
        assert(front[0] == log[0]);
        assert(back.last() == log.last());
        assert(replay(docs, log) == apply_change(replay(docs, front), log.last()));
        assert(replay(apply_change(docs, log[0]), back) == apply_change(
            replay(apply_change(docs, log[0]), back.drop_last()),
            back.last(),
        ));
    }
}

/// The operations the poller sends for a list of entries do to the writer's
/// documents what replaying the changes of the entries says, and leave what
/// searches see alone; the commit that ends the batch then publishes them.
pub proof fn lemma_batch_carries_out_log(index: IndexModel, entries: Seq<ChangeLogEntry>)
    requires
        keyed(index.working),
    ensures
        keyed(replay(index.working, changes_of(entries))),
        apply_ops(index, replay_ops(entries)) == (IndexModel {
            working: replay(index.working, changes_of(entries)),
            ..index
        }),
        entries.len() > 0 ==> apply_ops(index, batch_ops(entries)).committed == replay(
            index.working,
            changes_of(entries),
        ),
    decreases entries.len(),
{
    let log = changes_of(entries);
    if entries.len() == 0 {
        assert(replay_ops(entries) =~= Seq::<WriterOp>::empty());
    } else {
        let head = entries[0].change;
        let tail = entries.drop_first();
        lemma_ops_carry_out_change(index, head);
        let mid = IndexModel { working: apply_change(index.working, head), ..index };
        lemma_batch_carries_out_log(mid, tail);
        lemma_apply_ops_concat(index, ops_of(head), replay_ops(tail));
        assert(changes_of(tail) =~= log.drop_first());
        assert(log[0] == head);
        lemma_replay_from_front(index.working, log);
        lemma_commit_publishes(index, replay_ops(entries));
    }
}

} // verus!
