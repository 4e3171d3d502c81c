//! The facade that binds the parts of one index.

use crate::context::IndexContext;
use vstd::prelude::*;

verus! {

/// The storage and configuration of an index: its context, the handle of
/// its local index, the handle of its durable store and its meta store.
pub struct IndexStore<I, S, M> {
    ctx: IndexContext,
    index: I,
    store: S,
    meta_store: M,
}

impl<I, S, M> IndexStore<I, S, M> {
    /// The context of the index.
    pub closed spec fn context(&self) -> IndexContext {
        self.ctx
    }

    /// The handle of the local index.
    pub closed spec fn local_index(&self) -> I {
        self.index
    }

    /// The handle of the durable store.
    pub closed spec fn durable_store(&self) -> S {
        self.store
    }

    /// The handle of the meta store.
    pub closed spec fn meta(&self) -> M {
        self.meta_store
    }

    /// Binds the parts of an index.
    pub fn new(ctx: IndexContext, index: I, store: S, meta_store: M) -> (bound: Self)
        ensures
            bound.context() == ctx,
            bound.local_index() == index,
            bound.durable_store() == store,
            bound.meta() == meta_store,
    {
        IndexStore { ctx, index, store, meta_store }
    }

    /// The handle of the local index.
    pub fn index(&self) -> (index: &I)
        ensures
            *index == self.local_index(),
    {
        &self.index
    }

    /// The context of the index.
    pub fn ctx(&self) -> (ctx: &IndexContext)
        ensures
            *ctx == self.context(),
    {
        &self.ctx
    }

    /// The handle of the meta store.
    pub fn meta_store(&self) -> (meta_store: &M)
        ensures
            *meta_store == self.meta(),
    {
        &self.meta_store
    }

    /// The handle of the durable store.
    pub fn store_handle(&self) -> (store: &S)
        ensures
            *store == self.durable_store(),
    {
        &self.store
    }

    /// Takes the facade apart, for shutting the index down.
    pub fn destroy(self) -> (parts: (IndexContext, I, S, M))
        ensures
            parts == (self.context(), self.local_index(), self.durable_store(), self.meta()),
    {
        (self.ctx, self.index, self.store, self.meta_store)
    }
}

} // verus!
