//! The identity of an index: its name, its schema and what is derived from them.

use crate::hashing::{hash_name, stable_hash};
use crate::schema::{FieldShape, IndexSchema};
use crate::text::{chars_of, decimal, push_all, push_decimal, string_of};
use vstd::prelude::*;

verus! {

#[verifier::external_type_specification]
#[verifier::external_body]
pub struct ExJsonValue(serde_json::Value);

/// The shortest interval at which the change-log is polled, in milliseconds.
pub const MIN_POLLING_INTERVAL_MS: u64 = 10;

/// When the change-log of an index is read.
#[derive(Clone, Copy, Debug, PartialEq, Eq, Structural)]
pub enum PollingMode {
    /// Again and again, with this many milliseconds in between.
    Continuous(u64),
    /// Only when asked.
    OnDemand,
}

impl PollingMode {
    /// The time to let pass between two polls, in milliseconds, or `None`
    /// where polling happens on demand.  Intervals below
    /// [`MIN_POLLING_INTERVAL_MS`] are raised to it.
    pub fn interval_ms(&self) -> (interval: Option<u64>)
        ensures
            interval == match *self {
                PollingMode::Continuous(ms) => Some(
                    if ms < MIN_POLLING_INTERVAL_MS {
                        MIN_POLLING_INTERVAL_MS
                    } else {
                        ms
                    },
                ),
                PollingMode::OnDemand => None,
            },
    {
        match self {
            PollingMode::Continuous(ms) => if *ms < MIN_POLLING_INTERVAL_MS {
                Some(MIN_POLLING_INTERVAL_MS)
            } else {
                Some(*ms)
            },
            PollingMode::OnDemand => None,
        }
    }
}

/// The characters of the keyspace of an index whose name hashes to `hash`.
pub open spec fn keyspace_for(hash: u32) -> Seq<char> {
    "lnx_search"@ + seq!['_'] + decimal(hash as nat)
}

/// The characters of the directory of an index whose name hashes to `hash`, below `base`.
pub open spec fn storage_path_for(base: Seq<char>, hash: u32) -> Seq<char> {
    base + seq!['/'] + decimal(hash as nat)
}

/// Renders the keyspace of an index whose name hashes to `hash`.
pub fn keyspace_name(hash: u32) -> (out: String)
    ensures
        out@ == keyspace_for(hash),
{
    let mut chars = chars_of("lnx_search");
    chars.push('_');
    push_decimal(&mut chars, hash as u64);
    string_of(&chars)
}

/// Renders the path `base/leaf`.
pub fn join_path(base: &str, leaf: &str) -> (out: String)
    ensures
        out@ == base@ + seq!['/'] + leaf@,
{
    let mut chars = chars_of(base);
    chars.push('/');
    let tail = chars_of(leaf);
    push_all(&mut chars, &tail);
    string_of(&chars)
}

/// The immutable description of an index.
pub struct IndexContext {
    name: String,
    schema: IndexSchema,
    polling_mode: PollingMode,
    storage_config: Option<serde_json::Value>,
    keyspace: String,
    node_id: u128,
}

impl IndexContext {
    #[verifier::type_invariant]
    spec fn inv(self) -> bool {
        self.keyspace@ == keyspace_for(stable_hash(self.name@))
    }

    /// The name of the index.
    pub closed spec fn name_text(&self) -> Seq<char> {
        self.name@
    }

    /// The fields of the schema of the index.
    pub closed spec fn schema_fields(&self) -> Seq<FieldShape> {
        self.schema@
    }

    /// The polling mode of the index.
    pub closed spec fn polling(&self) -> PollingMode {
        self.polling_mode
    }

    /// The storage configuration of the index.
    pub closed spec fn config(&self) -> Option<serde_json::Value> {
        self.storage_config
    }

    /// The identifier of the node that holds this context.
    pub closed spec fn node(&self) -> u128 {
        self.node_id
    }

    /// The context of the index called `name`, held by the node `node_id`.
    pub fn new(
        name: String,
        schema: IndexSchema,
        polling_mode: PollingMode,
        storage_cfg: Option<serde_json::Value>,
        node_id: u128,
    ) -> (ctx: Self)
        ensures
            ctx.name_text() == name@,
            ctx.schema_fields() == schema@,
            ctx.polling() == polling_mode,
            ctx.config() == storage_cfg,
            ctx.node() == node_id,
    {
        let keyspace = keyspace_name(hash_name(name.as_str()));
        IndexContext { name, schema, polling_mode, storage_config: storage_cfg, keyspace, node_id }
    }

    /// Replaces the identifier of the node.
    pub fn set_node_id(&mut self, node_id: u128)
        ensures
            final(self).node() == node_id,
            final(self).name_text() == old(self).name_text(),
            final(self).schema_fields() == old(self).schema_fields(),
            final(self).polling() == old(self).polling(),
            final(self).config() == old(self).config(),
    {
        proof {
            use_type_invariant(&*self);
        }
        self.node_id = node_id;
    }

    /// The identifier of the node.
    pub fn node_id(&self) -> (id: u128)
        ensures
            id == self.node(),
    {
        self.node_id
    }

    /// The name of the index.
    pub fn name(&self) -> (name: &str)
        ensures
            name@ == self.name_text(),
    {
        self.name.as_str()
    }

    /// The schema of the index.
    pub fn schema(&self) -> (schema: &IndexSchema)
        ensures
            schema@ == self.schema_fields(),
    {
        &self.schema
    }

    /// The identifier of the index: the stable hash of its name.
    pub fn id(&self) -> (id: u64)
        ensures
            id == stable_hash(self.name_text()),
    {
        hash_name(self.name.as_str()) as u64
    }

    /// The polling mode of the index.
    pub fn polling_mode(&self) -> (mode: PollingMode)
        ensures
            mode == self.polling(),
    {
        self.polling_mode
    }

    /// The storage configuration of the index.
    pub fn storage_config(&self) -> (config: Option<&serde_json::Value>)
        ensures
            config == match self.config() {
                Some(value) => Some(&value),
                None => None,
            },
    {
        self.storage_config.as_ref()
    }

    /// The keyspace of the index in the durable store.
    pub fn keyspace(&self) -> (keyspace: &str)
        ensures
            keyspace@ == keyspace_for(stable_hash(self.name_text())),
    {
        proof {
            use_type_invariant(self);
        }
        self.keyspace.as_str()
    }

    /// The directory that holds the local data of the index, below `base_path`.
    pub fn root_storage_path(&self, base_path: &str) -> (path: String)
        ensures
            path@ == storage_path_for(base_path@, stable_hash(self.name_text())),
    {
        let mut chars = chars_of(base_path);
        chars.push('/');
        push_decimal(&mut chars, hash_name(self.name.as_str()) as u64);
        string_of(&chars)
    }

    /// The directory of the inverted index, below `base_path`.
    pub fn data_path(&self, base_path: &str) -> (path: String)
        ensures
            path@ == storage_path_for(base_path@, stable_hash(self.name_text())) + seq!['/']
                + "data"@,
    {
        let root = self.root_storage_path(base_path);
        join_path(root.as_str(), "data")
    }

    /// The directory of the meta store, below `base_path`.
    pub fn meta_path(&self, base_path: &str) -> (path: String)
        ensures
            path@ == storage_path_for(base_path@, stable_hash(self.name_text())) + seq!['/']
                + "meta"@,
    {
        let root = self.root_storage_path(base_path);
        join_path(root.as_str(), "meta")
    }
}

} // verus!
