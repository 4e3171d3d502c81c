//! An index as a whole: the writer and the reader behind one handle.

use crate::document::{Document, Term};
use crate::query::{
    all_known, is_text_target, parser_targets, BoostEntry, InvalidQuery, QueryContext,
    QueryError, QueryHandler, QueryPayload,
};
use crate::reader::{
    after_acquire, after_release, is_job_for, within_bound, IndexReaderHandler, LimiterState,
    SearchJob, SearchStep, ExecutorKind,
};
use crate::schema::{
    engine_fields, engine_get_field, field_id_of, lemma_lookup_result_unique, FieldShape,
};
use crate::text::texts;
use crate::writer::{
    additions, after_send, initial_state, state_ok, IndexWriterWorker, Lifecycle, MailboxState,
    ManyOutcome, SendOutcome,
    WriterOp, WRITER_QUEUE_CAPACITY,
};
use vstd::prelude::*;

verus! {

/// `Clone::clone` on an engine schema hands out another handle to the same schema.
#[verifier::external_body]
pub(crate) fn share_schema(schema: &tantivy::schema::Schema) -> (shared: tantivy::schema::Schema)
    ensures
        shared == *schema,
{
    schema.clone()
}

/// The producer side of a writer.
pub struct IndexWriterHandler<W> {
    /// The name of the index the writer belongs to.
    pub index_name: String,
    /// The queue and the waiters of the writer.
    pub worker: IndexWriterWorker<W>,
}

impl<W> IndexWriterHandler<W> {
    /// A running writer for the index called `index_name`, with an empty
    /// queue of capacity [`WRITER_QUEUE_CAPACITY`].
    pub fn create(index_name: String) -> (handler: Self)
        ensures
            handler.index_name == index_name,
            handler.worker@ == initial_state::<W>(),
    {
        IndexWriterHandler { index_name, worker: IndexWriterWorker::new() }
    }

    /// Offers `op` to the writer.  It is queued if there is room; otherwise
    /// the waiter is registered and the operation is handed back, to be
    /// offered again once the waiter has been woken.  A writer that has shut
    /// down refuses the operation.
    pub fn send_op(&mut self, op: WriterOp, waiter: W) -> (outcome: SendOutcome<W>)
        ensures
            final(self).index_name == old(self).index_name,
            final(self).worker@ == after_send(old(self).worker@, op, waiter),
            state_ok(final(self).worker@),
            match outcome {
                SendOutcome::Closed(back, unused) => (old(self).worker@.lifecycle
                    != Lifecycle::Running || !old(self).worker@.connected) && back == op && unused
                    == waiter,
                SendOutcome::Sent(unused) => old(self).worker@.lifecycle == Lifecycle::Running
                    && old(self).worker@.connected && old(self).worker@.queue.len()
                    < WRITER_QUEUE_CAPACITY && unused == waiter,
                SendOutcome::Parked(back) => old(self).worker@.lifecycle == Lifecycle::Running
                    && old(self).worker@.connected && old(self).worker@.queue.len()
                    == WRITER_QUEUE_CAPACITY && back == op,
            },
    {
        self.worker.offer(op, waiter)
    }
}

/// Where the inverted index of an index lives.
#[derive(Debug)]
pub enum IndexStorageType {
    /// In a temporary directory.
    TempFile,
    /// In memory.
    Memory,
    /// In the directory with this path.
    FileSystem(String),
}

/// Everything needed to bring an index up.
pub struct LoadedIndex {
    pub name: String,
    pub schema: tantivy::schema::Schema,
    pub storage_type: IndexStorageType,
    pub query_context: QueryContext,
    /// The stop words of the index.
    pub stop_words: Vec<String>,
    /// Whether correction data for fast-fuzzy is loaded.
    pub correction_enabled: bool,
    pub writer_threads: usize,
    pub writer_buffer: usize,
    pub max_concurrency: u32,
    pub reader_threads: u32,
}

/// The position of the first boost entry whose field the schema lacks.
pub open spec fn first_unknown_boost(fields: Seq<FieldShape>, boosts: Seq<BoostEntry>) -> Option<int>
    decreases boosts.len(),
{
    if boosts.len() == 0 {
        None
    } else {
        match first_unknown_boost(fields, boosts.drop_last()) {
            Some(i) => Some(i),
            None => if field_id_of(fields, boosts.last().field@) is None {
                Some(boosts.len() - 1)
            } else {
                None
            },
        }
    }
}

/// Whether `name` is the field of the first boost entry whose field is unknown.
pub open spec fn unknown_boost_is(
    fields: Seq<FieldShape>,
    boosts: Seq<BoostEntry>,
    name: Seq<char>,
) -> bool {
    match first_unknown_boost(fields, boosts) {
        Some(i) => 0 <= i < boosts.len() && name == boosts[i].field@,
        None => false,
    }
}

/// Finds the first boost entry whose field `schema` lacks.
pub fn check_boost_fields(schema: &tantivy::schema::Schema, boosts: &Vec<BoostEntry>) -> (missing:
    Option<usize>)
    ensures
        match first_unknown_boost(engine_fields(*schema), boosts@) {
            Some(i) => missing == Some(i as usize) && 0 <= i < boosts@.len(),
            None => missing is None,
        },
{
    let ghost fields = engine_fields(*schema);
    let mut i: usize = 0;
    assert(boosts@.take(0) =~= Seq::<BoostEntry>::empty());
    while i < boosts.len()
        invariant
            i <= boosts@.len(),
            fields == engine_fields(*schema),
            first_unknown_boost(fields, boosts@.take(i as int)) is None,
        decreases boosts@.len() - i,
    {
        let found = engine_get_field(schema, boosts[i].field.as_str());
        proof {
            lemma_lookup_result_unique(fields, boosts@[i as int].field@, found, found);
            assert(boosts@.take(i + 1).drop_last() =~= boosts@.take(i as int));
            assert(boosts@.take(i + 1).last() == boosts@[i as int]);
        }
        if found.is_none() {
            proof {
                lemma_first_unknown_boost_extends(fields, boosts@, i + 1);
            }
            return Some(i);
        }
        i += 1;
    }
    assert(boosts@.take(boosts@.len() as int) =~= boosts@);
    None
}

/// An unknown boost field found among the first `k` entries stays the first
/// one when more entries follow.
pub proof fn lemma_first_unknown_boost_extends(
    fields: Seq<FieldShape>,
    boosts: Seq<BoostEntry>,
    k: int,
)
    requires
        0 <= k <= boosts.len(),
        first_unknown_boost(fields, boosts.take(k)) is Some,
    ensures
        first_unknown_boost(fields, boosts) == first_unknown_boost(fields, boosts.take(k)),
        0 <= first_unknown_boost(fields, boosts)->0 < k,
    decreases boosts.len() - k,
{
    lemma_first_unknown_boost_bound(fields, boosts.take(k));
    if k < boosts.len() {
        assert(boosts.take(k + 1).drop_last() =~= boosts.take(k));
        lemma_first_unknown_boost_extends(fields, boosts, k + 1);
    } else {
        assert(boosts.take(k) =~= boosts);
    }
}

/// The first unknown boost field lies within the list.
pub proof fn lemma_first_unknown_boost_bound(fields: Seq<FieldShape>, boosts: Seq<BoostEntry>)
    ensures
        first_unknown_boost(fields, boosts) matches Some(i) ==> 0 <= i < boosts.len(),
    decreases boosts.len(),
{
    if boosts.len() > 0 {
        lemma_first_unknown_boost_bound(fields, boosts.drop_last());
    }
}

/// An index: its name, what its engine needs to come up, its writer and its reader.
pub struct IndexHandler<W, R> {
    pub name: String,
    pub schema: tantivy::schema::Schema,
    pub storage_type: IndexStorageType,
    pub writer_threads: usize,
    pub writer_buffer: usize,
    pub writer: IndexWriterHandler<W>,
    pub reader: IndexReaderHandler<R>,
}

impl<W, R> IndexHandler<W, R> {
    /// Brings up the handle of a loaded index.
    ///
    /// Every search field and every boosted field must be a field of the
    /// schema; the first search field that is not is reported, and if all
    /// are, the first boosted field that is not.  The writer starts running
    /// with an empty queue; the reader admits `max_concurrency` searches at
    /// once and plans queries as the query context asks.
    pub fn build_loaded(loader: LoadedIndex) -> (r: Result<Self, QueryError>)
        ensures
            ({
                let fields = engine_fields(loader.schema);
                let names = texts(loader.query_context.search_fields@);
                let boosts = loader.query_context.boost_fields@;
                let fast = loader.query_context.use_fast_fuzzy && loader.correction_enabled;
                match r {
                    Ok(index) => {
                        &&& all_known(fields, names, fast, names.len() as int)
                        &&& first_unknown_boost(fields, boosts) is None
                        &&& index.name == loader.name
                        &&& index.schema == loader.schema
                        &&& index.storage_type == loader.storage_type
                        &&& index.writer_threads == loader.writer_threads
                        &&& index.writer_buffer == loader.writer_buffer
                        &&& index.writer.index_name@ == loader.name@
                        &&& index.writer.worker@ == initial_state::<W>()
                        &&& index.reader.limiter@ == (LimiterState::<R> {
                            max: loader.max_concurrency as nat,
                            active: 0,
                            waiting: Seq::empty(),
                        })
                        &&& index.reader.pool_threads == loader.max_concurrency
                        &&& index.reader.executor == if loader.reader_threads > 1 {
                            ExecutorKind::MultiThread(loader.reader_threads as usize)
                        } else {
                            ExecutorKind::SingleThread
                        }
                        &&& index.reader.schema == loader.schema
                        &&& index.reader.handler.normal_factory.fields@ == parser_targets(
                            fields,
                            names,
                            boosts,
                            fast,
                        )
                        &&& index.reader.handler.normal_factory.conjunction_by_default == (
                        loader.query_context.set_conjunction_by_default
                            || loader.query_context.use_fast_fuzzy)
                        &&& index.reader.handler.fuzzy_factory.search_fields@ == parser_targets(
                            fields,
                            names,
                            boosts,
                            fast,
                        ).filter(is_text_target(fields))
                        &&& index.reader.handler.fuzzy_factory.strip_stop_words
                            == loader.query_context.strip_stop_words
                        &&& texts(index.reader.handler.fuzzy_factory.stop_words@) == texts(
                            loader.stop_words@,
                        )
                        &&& texts(index.reader.handler.more_like_this_factory.stop_words@) == texts(
                            loader.stop_words@,
                        )
                    },
                    Err(QueryError::UnknownField(name)) => {
                        ||| exists|i: int|
                            0 <= i < names.len() && all_known(fields, names, fast, i)
                                && crate::query::target_of(fields, names[i], fast) is None && name@
                                == #[trigger] names[i]
                        ||| all_known(fields, names, fast, names.len() as int) && unknown_boost_is(
                            fields,
                            boosts,
                            name@,
                        )
                    },
                    Err(_) => false,
                }
            }),
    {
        let handler = match QueryHandler::create(
            &loader.schema,
            &loader.query_context,
            loader.correction_enabled,
            &loader.stop_words,
        ) {
            Ok(handler) => handler,
            Err(e) => {
                return Err(e);
            },
        };
        match check_boost_fields(&loader.schema, &loader.query_context.boost_fields) {
            Some(i) => {
                return Err(QueryError::UnknownField(loader.query_context.boost_fields[i].field.clone()));
            },
            None => {},
        }
        let writer = IndexWriterHandler::create(loader.name.clone());
        let reader = IndexReaderHandler::create(
            loader.max_concurrency as usize,
            loader.reader_threads as usize,
            handler,
            share_schema(&loader.schema),
        );
        Ok(
            IndexHandler {
                name: loader.name,
                schema: loader.schema,
                storage_type: loader.storage_type,
                writer_threads: loader.writer_threads,
                writer_buffer: loader.writer_buffer,
                writer,
                reader,
            },
        )
    }

    /// Offers a document to the writer.
    pub fn add_document(&mut self, document: Document, waiter: W) -> (outcome: SendOutcome<W>)
        ensures
            Self::sent(*old(self), *final(self), WriterOp::AddDocument(document), waiter, outcome),
    {
        self.writer.send_op(WriterOp::AddDocument(document), waiter)
    }

    /// Offers documents to the writer, in order, for as long as its queue has
    /// room; see [`IndexWriterWorker::offer_documents`].
    pub fn add_many_documents(&mut self, documents: Vec<Document>, waiter: W) -> (outcome:
        ManyOutcome<W>)
        ensures
            final(self).name == old(self).name,
            final(self).schema == old(self).schema,
            final(self).reader == old(self).reader,
            final(self).writer.index_name == old(self).writer.index_name,
            state_ok(final(self).writer.worker@),
            final(self).writer.worker@.lifecycle == old(self).writer.worker@.lifecycle,
            final(self).writer.worker@.connected == old(self).writer.worker@.connected,
            match outcome {
                ManyOutcome::Closed(back, unused) => (old(self).writer.worker@.lifecycle
                    != Lifecycle::Running || !old(self).writer.worker@.connected) && back@
                    == documents@ && unused == waiter && final(self).writer.worker@ == old(self).writer.worker@,
                ManyOutcome::Sent(unused) => unused == waiter && old(self).writer.worker@.queue.len()
                    + documents@.len() <= WRITER_QUEUE_CAPACITY && final(self).writer.worker@.queue
                    == old(self).writer.worker@.queue + additions(documents@) && final(self).writer.worker@.waiters == old(self).writer.worker@.waiters,
                ManyOutcome::Parked(back) => old(self).writer.worker@.queue.len()
                    + documents@.len() > WRITER_QUEUE_CAPACITY && final(self).writer.worker@.queue
                    == old(self).writer.worker@.queue + additions(
                    documents@.take(WRITER_QUEUE_CAPACITY - old(self).writer.worker@.queue.len()),
                ) && back@ == documents@.skip(
                    WRITER_QUEUE_CAPACITY - old(self).writer.worker@.queue.len(),
                ) && final(self).writer.worker@.waiters == old(self).writer.worker@.waiters.push(
                    waiter,
                ),
            },
    {
        self.writer.worker.offer_documents(documents, waiter)
    }

    /// Offers the deletion of every document to the writer.
    pub fn delete_documents(&mut self, waiter: W) -> (outcome: SendOutcome<W>)
        ensures
            Self::sent(*old(self), *final(self), WriterOp::DeleteAll, waiter, outcome),
    {
        self.writer.send_op(WriterOp::DeleteAll, waiter)
    }

    /// Offers the deletion of the documents that `term` selects to the writer.
    pub fn delete_term(&mut self, term: Term, waiter: W) -> (outcome: SendOutcome<W>)
        ensures
            Self::sent(*old(self), *final(self), WriterOp::DeleteTerm(term), waiter, outcome),
    {
        self.writer.send_op(WriterOp::DeleteTerm(term), waiter)
    }

    /// Offers a commit to the writer.  Once it is applied, every change
    /// offered before it is visible to searches.
    pub fn commit(&mut self, waiter: W) -> (outcome: SendOutcome<W>)
        ensures
            Self::sent(*old(self), *final(self), WriterOp::Commit, waiter, outcome),
    {
        self.writer.send_op(WriterOp::Commit, waiter)
    }

    /// Offers a rollback to the writer.  Once it is applied, every change
    /// made since the last commit is gone.
    pub fn rollback(&mut self, waiter: W) -> (outcome: SendOutcome<W>)
        ensures
            Self::sent(*old(self), *final(self), WriterOp::Rollback, waiter, outcome),
    {
        self.writer.send_op(WriterOp::Rollback, waiter)
    }

    /// What offering `op` does to an index and what it answers.
    pub open spec fn sent(
        before: Self,
        after: Self,
        op: WriterOp,
        waiter: W,
        outcome: SendOutcome<W>,
    ) -> bool {
        &&& after.name == before.name
        &&& after.schema == before.schema
        &&& after.storage_type == before.storage_type
        &&& after.writer_threads == before.writer_threads
        &&& after.writer_buffer == before.writer_buffer
        &&& after.reader == before.reader
        &&& after.writer.index_name == before.writer.index_name
        &&& after.writer.worker@ == after_send(before.writer.worker@, op, waiter)
        &&& state_ok(after.writer.worker@)
        &&& match outcome {
            SendOutcome::Closed(back, unused) => (before.writer.worker@.lifecycle
                != Lifecycle::Running || !before.writer.worker@.connected) && back == op && unused
                == waiter,
            SendOutcome::Sent(unused) => before.writer.worker@.lifecycle == Lifecycle::Running
                && before.writer.worker@.connected && before.writer.worker@.queue.len()
                < WRITER_QUEUE_CAPACITY && unused == waiter,
            SendOutcome::Parked(back) => before.writer.worker@.lifecycle == Lifecycle::Running
                && before.writer.worker@.connected && before.writer.worker@.queue.len()
                == WRITER_QUEUE_CAPACITY && back == op,
        }
    }

    /// Admits and plans a search; see [`IndexReaderHandler::search`].
    pub fn search(&mut self, payload: &QueryPayload, waiter: R) -> (step: SearchStep<R>)
        ensures
            final(self).name == old(self).name,
            final(self).schema == old(self).schema,
            final(self).storage_type == old(self).storage_type,
            final(self).writer == old(self).writer,
            final(self).reader.executor == old(self).reader.executor,
            final(self).reader.pool_threads == old(self).reader.pool_threads,
            final(self).reader.handler == old(self).reader.handler,
            final(self).reader.schema == old(self).reader.schema,
            within_bound(final(self).reader.limiter@),
            match step {
                SearchStep::Parked => old(self).reader.limiter@.active == old(self).reader.limiter@.max && final(self).reader.limiter@ == after_acquire(
                    old(self).reader.limiter@,
                    waiter,
                ),
                SearchStep::Rejected(reason, unused) => old(self).reader.limiter@.active < old(self).reader.limiter@.max && final(self).reader.limiter@ == old(self).reader.limiter@
                    && unused == waiter && is_job_for(
                    old(self).reader.handler,
                    engine_fields(old(self).reader.schema),
                    *payload,
                    Err::<SearchJob, InvalidQuery>(reason),
                ),
                SearchStep::Run(job, unused) => old(self).reader.limiter@.active < old(self).reader.limiter@.max && final(self).reader.limiter@ == after_acquire(
                    old(self).reader.limiter@,
                    waiter,
                ) && unused == waiter && is_job_for(
                    old(self).reader.handler,
                    engine_fields(old(self).reader.schema),
                    *payload,
                    Ok::<SearchJob, InvalidQuery>(job),
                ),
            },
    {
        self.reader.search(payload, waiter)
    }
}

} // verus!
