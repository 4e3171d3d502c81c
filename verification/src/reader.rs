//! The reader of an index: admission of searches up to a fixed number, the
//! planning of each search, and the shape of what a search returns.

use crate::query::{
    address_text, decoded, is_plan_for, InvalidQuery, QueryHandler, QueryPayload, QueryPlan,
    RefAddress,
};
use crate::schema::{
    engine_field, engine_fields, engine_get_field, field_id_of, lemma_lookup_result_unique,
    text_of, FieldShape,
};
use vstd::prelude::*;

verus! {

/// The state of a limiter as its contracts see it.
pub struct LimiterState<W> {
    /// The number of searches that may run at once.
    pub max: nat,
    /// The number of searches that hold a permit.
    pub active: nat,
    /// The callers that wait for a permit, in the order they arrived.
    pub waiting: Seq<W>,
}

/// Whether a limiter state obeys the bound: no more permits are out than
/// there are, and callers only wait while every permit is out.
pub open spec fn within_bound<W>(state: LimiterState<W>) -> bool {
    &&& state.active <= state.max
    &&& state.waiting.len() > 0 ==> state.active == state.max
}

/// What became of a request for a permit.
#[derive(Debug)]
pub enum Admission<W> {
    /// The caller holds a permit.  Its waiter was not needed.
    Granted(W),
    /// Every permit is out.  The waiter is registered and is handed a permit
    /// when its turn comes.
    Parked,
}

/// The state after a caller asks for a permit with `waiter` at hand.
pub open spec fn after_acquire<W>(state: LimiterState<W>, waiter: W) -> LimiterState<W> {
    if state.active < state.max {
        LimiterState { active: state.active + 1, ..state }
    } else {
        LimiterState { waiting: state.waiting.push(waiter), ..state }
    }
}

/// The state after a permit is given back: it passes to the caller that has
/// waited longest, if any waits.
pub open spec fn after_release<W>(state: LimiterState<W>) -> LimiterState<W> {
    if state.active == 0 {
        state
    } else if state.waiting.len() > 0 {
        LimiterState { waiting: state.waiting.drop_first(), ..state }
    } else {
        LimiterState { active: (state.active - 1) as nat, ..state }
    }
}

/// A counting limiter that hands its permits to waiting callers in the order
/// in which they arrived.
pub struct SearchLimiter<W> {
    max: usize,
    active: usize,
    waiters: Vec<W>,
}

impl<W> SearchLimiter<W> {
    #[verifier::type_invariant]
    spec fn inv(self) -> bool {
        &&& self.active <= self.max
        &&& self.waiters@.len() > 0 ==> self.active == self.max
    }

    /// The state of the limiter.
    pub closed spec fn view(&self) -> LimiterState<W> {
        LimiterState { max: self.max as nat, active: self.active as nat, waiting: self.waiters@ }
    }

    /// A limiter with `max_concurrency` permits, all of them free.
    pub fn new(max_concurrency: usize) -> (limiter: Self)
        ensures
            limiter@ == (LimiterState::<W> {
                max: max_concurrency as nat,
                active: 0,
                waiting: Seq::empty(),
            }),
    {
        SearchLimiter { max: max_concurrency, active: 0, waiters: Vec::new() }
    }

    /// The number of permits.
    pub fn max_concurrency(&self) -> (n: usize)
        ensures
            n == self@.max,
    {
        self.max
    }

    /// The number of permits that are out.  It never exceeds the number of permits.
    pub fn active(&self) -> (n: usize)
        ensures
            n == self@.active,
            within_bound(self@),
    {
        proof {
            use_type_invariant(self);
        }
        self.active
    }

    /// The number of callers that wait for a permit.
    pub fn waiting(&self) -> (n: usize)
        ensures
            n == self@.waiting.len(),
    {
        self.waiters.len()
    }

    /// Asks for a permit.  The caller gets one if one is free; otherwise its
    /// waiter is registered behind those already waiting.
    pub fn acquire(&mut self, waiter: W) -> (admission: Admission<W>)
        ensures
            final(self)@ == after_acquire(old(self)@, waiter),
            within_bound(final(self)@),
            match admission {
                Admission::Granted(unused) => old(self)@.active < old(self)@.max && unused
                    == waiter,
                Admission::Parked => old(self)@.active == old(self)@.max,
            },
    {
        proof {
            use_type_invariant(&*self);
        }
        if self.active < self.max {
            self.active = self.active + 1;
            Admission::Granted(waiter)
        } else {
            let mut holder = Self::new(0);
            std::mem::swap(&mut holder, self);
            let SearchLimiter { max, active, mut waiters } = holder;
            waiters.push(waiter);
            *self = SearchLimiter { max, active, waiters };
            Admission::Parked
        }
    }

    /// Gives a permit back.  If a caller waits, the permit passes to the one
    /// that has waited longest, which is handed out to be woken; otherwise
    /// the permit becomes free.  Nothing happens if no permit is out.
    pub fn release(&mut self) -> (next: Option<W>)
        ensures
            final(self)@ == after_release(old(self)@),
            within_bound(final(self)@),
            next == if old(self)@.active > 0 && old(self)@.waiting.len() > 0 {
                Some(old(self)@.waiting[0])
            } else {
                None
            },
    {
        proof {
            use_type_invariant(&*self);
        }
        if self.active == 0 {
            return None;
        }
        if self.waiters.len() > 0 {
            let mut holder = Self::new(0);
            std::mem::swap(&mut holder, self);
            let SearchLimiter { max, active, mut waiters } = holder;
            let first = waiters.remove(0);
            assert(waiters@ =~= old(self)@.waiting.drop_first());
            *self = SearchLimiter { max, active, waiters };
            Some(first)
        } else {
            self.active = self.active - 1;
            None
        }
    }
}

/// Something that happens to a limiter.
pub enum LimiterEvent<W> {
    /// A caller asks for a permit, with a waiter at hand.
    Acquire(W),
    /// A caller that holds a permit gives it back.
    Release,
}

/// The state of a limiter with `max` permits after `events` have happened, in order.
pub open spec fn limiter_run<W>(max: nat, events: Seq<LimiterEvent<W>>) -> LimiterState<W>
    decreases events.len(),
{
    if events.len() == 0 {
        LimiterState { max, active: 0, waiting: Seq::empty() }
    } else {
        let before = limiter_run(max, events.drop_last());
        match events.last() {
            LimiterEvent::Acquire(waiter) => after_acquire(before, waiter),
            LimiterEvent::Release => after_release(before),
        }
    }
}

/// Whatever happens to a limiter, no more searches hold a permit at once
/// than it has permits.
pub proof fn lemma_concurrency_is_bounded<W>(max: nat, events: Seq<LimiterEvent<W>>)
    ensures
        limiter_run(max, events).max == max,
        limiter_run(max, events).active <= max,
        within_bound(limiter_run(max, events)),
    decreases events.len(),
{
    if events.len() > 0 {
        lemma_concurrency_is_bounded(max, events.drop_last());
    }
}

/// How the segments of one query are searched.
#[derive(Clone, Copy, Debug, PartialEq, Eq, Structural)]
pub enum ExecutorKind {
    /// On the calling thread.
    SingleThread,
    /// On a pool of this many threads.
    MultiThread(usize),
}

/// The executor for a reader with `reader_threads` threads: a pool where
/// there is more than one, the calling thread otherwise.
pub fn executor_for(reader_threads: usize) -> (kind: ExecutorKind)
    ensures
        kind == if reader_threads > 1 {
            ExecutorKind::MultiThread(reader_threads)
        } else {
            ExecutorKind::SingleThread
        },
{
    if reader_threads > 1 {
        ExecutorKind::MultiThread(reader_threads)
    } else {
        ExecutorKind::SingleThread
    }
}

/// A search that is ready to run.
#[derive(Debug)]
pub struct SearchJob {
    pub query: QueryPlan,
    /// The greatest number of hits to return.
    pub limit: usize,
    /// The number of leading hits to skip.
    pub offset: usize,
    /// The fast field that orders the hits, greatest first.  Without one
    /// the hits are ordered by score, greatest first.
    pub order_by: Option<u32>,
}

/// The field that orders the hits of a search that asks for `order_by`: the
/// field of that name if the schema has one and it is a fast field.
pub open spec fn ordering_field(fields: Seq<FieldShape>, order_by: Option<Seq<char>>) -> Option<u32> {
    match order_by {
        Some(name) => match field_id_of(fields, name) {
            Some(id) => if fields[id as int].fast {
                Some(id)
            } else {
                None
            },
            None => None,
        },
        None => None,
    }
}

/// The reference document of a payload, read from its token.
pub open spec fn reference_of(token: Option<Seq<char>>) -> Result<Option<RefAddress>, InvalidQuery> {
    match token {
        Some(text) => match decoded(text) {
            Some(address) => Ok(Some(address)),
            None => Err(InvalidQuery::MalformedReference),
        },
        None => Ok(None),
    }
}

/// Whether `r` is the outcome of planning the search that `payload` asks
/// for: the reference document is read first, then the ordering field is
/// resolved, then the query is built.
pub open spec fn is_job_for(
    handler: QueryHandler,
    fields: Seq<FieldShape>,
    payload: QueryPayload,
    r: Result<SearchJob, InvalidQuery>,
) -> bool {
    match reference_of(text_of(payload.ref_document)) {
        Err(reason) => r == Err::<SearchJob, InvalidQuery>(reason),
        Ok(reference) => match r {
            Ok(job) => {
                &&& is_plan_for(
                    handler,
                    payload.query,
                    reference,
                    payload.mode,
                    Ok::<QueryPlan, InvalidQuery>(job.query),
                )
                &&& job.limit == payload.limit
                &&& job.offset == payload.offset
                &&& job.order_by == ordering_field(fields, text_of(payload.order_by))
            },
            Err(reason) => is_plan_for(
                handler,
                payload.query,
                reference,
                payload.mode,
                Err::<QueryPlan, InvalidQuery>(reason),
            ),
        },
    }
}

/// What became of a search request.
#[derive(Debug)]
pub enum SearchStep<W> {
    /// Every permit is out.  The caller's waiter is registered; once it is
    /// woken the caller holds a permit and plans its search.
    Parked,
    /// The payload is invalid.  No permit is held.
    Rejected(InvalidQuery, W),
    /// The caller holds a permit and runs this job.
    Run(SearchJob, W),
}

/// The reader side of an index.
pub struct IndexReaderHandler<W> {
    /// Bounds the number of searches that run at once.
    pub limiter: SearchLimiter<W>,
    /// How the segments of one query are searched.
    pub executor: ExecutorKind,
    /// The number of threads that run searches.
    pub pool_threads: usize,
    /// The query factories of the index.
    pub handler: QueryHandler,
    /// The engine schema of the index.
    pub schema: tantivy::schema::Schema,
}

impl<W> IndexReaderHandler<W> {
    /// A reader that admits `max_concurrency` searches at once and runs them
    /// on as many threads.  Each search spreads over `reader_threads`
    /// threads where that is more than one.
    pub fn create(
        max_concurrency: usize,
        reader_threads: usize,
        handler: QueryHandler,
        schema: tantivy::schema::Schema,
    ) -> (reader: Self)
        ensures
            reader.limiter@ == (LimiterState::<W> {
                max: max_concurrency as nat,
                active: 0,
                waiting: Seq::empty(),
            }),
            reader.pool_threads == max_concurrency,
            reader.executor == if reader_threads > 1 {
                ExecutorKind::MultiThread(reader_threads)
            } else {
                ExecutorKind::SingleThread
            },
            reader.handler == handler,
            reader.schema == schema,
    {
        IndexReaderHandler {
            limiter: SearchLimiter::new(max_concurrency),
            executor: executor_for(reader_threads),
            pool_threads: max_concurrency,
            handler,
            schema,
        }
    }

    /// Resolves the field that orders the hits.  A name that the schema does
    /// not have, or that names a field that is not fast, is ignored.
    pub fn resolve_order_by(&self, order_by: &Option<String>) -> (field: Option<u32>)
        ensures
            field == ordering_field(engine_fields(self.schema), text_of(*order_by)),
    {
        match order_by {
            Some(name) => {
                let found = engine_get_field(&self.schema, name.as_str());
                proof {
                    lemma_lookup_result_unique(engine_fields(self.schema), name@, found, found);
                }
                match found {
                    Some(id) => if engine_field(&self.schema, id).fast {
                        Some(id)
                    } else {
                        None
                    },
                    None => None,
                }
            },
            None => None,
        }
    }

    /// Plans the search that `payload` asks for, for a caller that holds a permit.
    pub fn plan_search(&self, payload: &QueryPayload) -> (r: Result<SearchJob, InvalidQuery>)
        ensures
            is_job_for(self.handler, engine_fields(self.schema), *payload, r),
    {
        let reference = match &payload.ref_document {
            Some(token) => match RefAddress::try_from(token.as_str()) {
                Ok(address) => Some(address),
                Err(reason) => {
                    return Err(reason);
                },
            },
            None => None,
        };
        let order_by = self.resolve_order_by(&payload.order_by);
        match self.handler.parse_query(&payload.query, reference, payload.mode) {
            Ok(query) => Ok(
                SearchJob { query, limit: payload.limit, offset: payload.offset, order_by },
            ),
            Err(reason) => Err(reason),
        }
    }

    /// Admits and plans a search.
    ///
    /// If every permit is out the caller is parked.  Otherwise the search is
    /// planned; a valid payload takes a permit and runs, an invalid one is
    /// rejected and takes none.
    pub fn search(&mut self, payload: &QueryPayload, waiter: W) -> (step: SearchStep<W>)
        ensures
            final(self).executor == old(self).executor,
            final(self).pool_threads == old(self).pool_threads,
            final(self).handler == old(self).handler,
            final(self).schema == old(self).schema,
            within_bound(final(self).limiter@),
            match step {
                SearchStep::Parked => old(self).limiter@.active == old(self).limiter@.max && final(self).limiter@ == after_acquire(old(self).limiter@, waiter),
                SearchStep::Rejected(reason, unused) => old(self).limiter@.active < old(self).limiter@.max && final(self).limiter@ == old(self).limiter@ && unused == waiter
                    && is_job_for(
                    old(self).handler,
                    engine_fields(old(self).schema),
                    *payload,
                    Err::<SearchJob, InvalidQuery>(reason),
                ),
                SearchStep::Run(job, unused) => old(self).limiter@.active < old(self).limiter@.max
                    && final(self).limiter@ == after_acquire(old(self).limiter@, waiter) && unused
                    == waiter && is_job_for(
                    old(self).handler,
                    engine_fields(old(self).schema),
                    *payload,
                    Ok::<SearchJob, InvalidQuery>(job),
                ),
            },
    {
        if self.limiter.active() >= self.limiter.max_concurrency() {
            match self.limiter.acquire(waiter) {
                Admission::Parked => SearchStep::Parked,
                Admission::Granted(unused) => SearchStep::Parked,
            }
        } else {
            match self.plan_search(payload) {
                Err(reason) => SearchStep::Rejected(reason, waiter),
                Ok(job) => match self.limiter.acquire(waiter) {
                    Admission::Granted(unused) => SearchStep::Run(job, unused),
                    Admission::Parked => SearchStep::Parked,
                },
            }
        }
    }

    /// Ends a search: its permit passes to the caller that has waited
    /// longest, which is handed out to be woken, or becomes free.
    pub fn finish_search(&mut self) -> (next: Option<W>)
        ensures
            final(self).executor == old(self).executor,
            final(self).pool_threads == old(self).pool_threads,
            final(self).handler == old(self).handler,
            final(self).schema == old(self).schema,
            final(self).limiter@ == after_release(old(self).limiter@),
            within_bound(final(self).limiter@),
            next == if old(self).limiter@.active > 0 && old(self).limiter@.waiting.len() > 0 {
                Some(old(self).limiter@.waiting[0])
            } else {
                None
            },
    {
        self.limiter.release()
    }
}

/// One hit of a search.
#[derive(Debug)]
pub struct QueryHit<D> {
    /// The token of the hit's address, for use in similarity queries.
    pub ref_address: String,
    /// The content of the document.
    pub doc: D,
}

/// What a search returns.
#[derive(Debug)]
pub struct QueryResults<D> {
    /// The hits, best first.
    pub hits: Vec<QueryHit<D>>,
    /// The number of hits returned.
    pub count: usize,
    /// The time the search took, in nanoseconds.
    pub time_taken_nanos: u128,
}

/// Shapes the outcome of a search: every retrieved document becomes a hit
/// that carries the token of its address, in the order of retrieval, and the
/// count is the number of hits.
pub fn search<D>(top_docs: Vec<(RefAddress, D)>, elapsed_nanos: u128) -> (results: QueryResults<D>)
    ensures
        results.count == top_docs@.len(),
        results.hits@.len() == top_docs@.len(),
        forall|i: int|
            0 <= i < top_docs@.len() ==> (#[trigger] results.hits@[i]).ref_address@ == address_text(
                top_docs@[i].0.segment_id,
                top_docs@[i].0.doc_id,
            ) && results.hits@[i].doc == top_docs@[i].1,
        results.time_taken_nanos == elapsed_nanos,
{
    let count = top_docs.len();
    let ghost all = top_docs@;
    let mut rest = top_docs;
    let mut reversed: Vec<QueryHit<D>> = Vec::new();
    while rest.len() > 0
        invariant
            rest@.len() <= all.len(),
            rest@ == all.take(rest@.len() as int),
            reversed@.len() == all.len() - rest@.len(),
            forall|j: int|
                0 <= j < reversed@.len() ==> (#[trigger] reversed@[j]).ref_address@ == address_text(
                    all[all.len() - 1 - j].0.segment_id,
                    all[all.len() - 1 - j].0.doc_id,
                ) && reversed@[j].doc == all[all.len() - 1 - j].1,
        decreases rest@.len(),
    {
        let ghost n = rest@.len() as int;
        let last = rest.pop();
        match last {
            Some((address, doc)) => {
                assert(rest@ =~= all.take(n - 1));
                reversed.push(QueryHit { ref_address: address.encode(), doc });
            },
            None => {},
        }
    }
    let mut hits: Vec<QueryHit<D>> = Vec::new();
    while reversed.len() > 0
        invariant
            reversed@.len() + hits@.len() == all.len(),
            forall|j: int|
                0 <= j < reversed@.len() ==> (#[trigger] reversed@[j]).ref_address@ == address_text(
                    all[all.len() - 1 - j].0.segment_id,
                    all[all.len() - 1 - j].0.doc_id,
                ) && reversed@[j].doc == all[all.len() - 1 - j].1,
            forall|i: int|
                0 <= i < hits@.len() ==> (#[trigger] hits@[i]).ref_address@ == address_text(
                    all[i].0.segment_id,
                    all[i].0.doc_id,
                ) && hits@[i].doc == all[i].1,
        decreases reversed@.len(),
    {
        match reversed.pop() {
            Some(hit) => {
                hits.push(hit);
            },
            None => {},
        }
    }
    QueryResults { hits, count, time_taken_nanos: elapsed_nanos }
}

} // verus!
