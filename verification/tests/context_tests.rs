use lnx_core::context::{join_path, keyspace_name, IndexContext, PollingMode};
use lnx_core::error::ErrorKind;
use lnx_core::names::NameMap;
use lnx_core::registry::{get, new, remove, IndexRegistry};
use lnx_core::schema::{FieldDecl, FieldKind, IndexSchema, SchemaError, SchemaMismatch};
use lnx_core::setup::{auth_settings, log_search, runtime_threads, setup, LogLevel, Settings};
use lnx_core::stores::IndexStore;
use tantivy::schema::{Schema, FAST, INDEXED, STORED, STRING, TEXT};

fn text(name: &str, stored: bool, tokenizer: &str) -> FieldDecl {
    FieldDecl {
        name: name.to_string(),
        kind: FieldKind::Text,
        indexed: true,
        stored,
        fast: false,
        tokenizer: Some(tokenizer.to_string()),
    }
}

fn number(name: &str, indexed: bool, fast: bool) -> FieldDecl {
    FieldDecl { name: name.to_string(), kind: FieldKind::Unsigned, indexed, stored: false, fast, tokenizer: None }
}

fn declared() -> IndexSchema {
    IndexSchema::new(
        vec![text("_id", true, "raw"), text("title", true, "default"), number("year", true, true)],
        "_id".to_string(),
    )
    .unwrap()
}

fn engine() -> Schema {
    let mut builder = Schema::builder();
    builder.add_text_field("_id", STRING | STORED);
    builder.add_text_field("title", TEXT | STORED);
    builder.add_u64_field("year", FAST | INDEXED);
    builder.build()
}

fn context(name: &str) -> IndexContext {
    IndexContext::new(name.to_string(), declared(), PollingMode::Continuous(500), None, 42)
}

#[test]
fn schemas_refuse_duplicates_and_missing_keys() {
    assert!(matches!(
        IndexSchema::new(vec![text("a", false, "raw"), number("b", true, false), text("a", true, "raw")], "a".to_string()),
        Err(SchemaError::DuplicateField(name)) if name == "a"
    ));
    assert!(matches!(
        IndexSchema::new(vec![text("a", false, "raw")], "_id".to_string()),
        Err(SchemaError::MissingPrimaryKey)
    ));
    assert!(matches!(IndexSchema::new(vec![], "_id".to_string()), Err(SchemaError::MissingPrimaryKey)));
    let schema = declared();
    assert_eq!(schema.primary_key(), "_id");
    assert_eq!(schema.fields().len(), 3);
    assert_eq!(schema.get_field("year"), Some(2));
    assert_eq!(schema.get_field("pages"), None);
    assert_eq!(schema.duplicate().get_field("title"), Some(1));
}

#[test]
fn tokenized_means_indexed_text_with_a_splitting_tokenizer() {
    assert!(text("t", false, "default").is_tokenized());
    assert!(!text("t", false, "raw").is_tokenized());
    assert!(!number("n", true, false).is_tokenized());
    assert!(text("t", true, "raw").same_as(&text("t", true, "raw").duplicate()));
    assert!(!text("t", true, "raw").same_as(&text("t", false, "raw")));
    assert!(!text("t", true, "raw").same_as(&text("t", true, "default")));
}

#[test]
fn a_matching_engine_schema_validates() {
    assert_eq!(declared().validate_with_tantivy_schema(&engine()), Ok(()));
}

#[test]
fn schema_mismatches_name_the_length_or_the_first_difference() {
    let mut builder = Schema::builder();
    builder.add_text_field("_id", STRING | STORED);
    builder.add_text_field("title", TEXT | STORED);
    assert_eq!(
        declared().validate_with_tantivy_schema(&builder.build()),
        Err(SchemaMismatch::FieldCount { declared: 3, found: 2 })
    );
    let mut builder = Schema::builder();
    builder.add_text_field("_id", STRING | STORED);
    builder.add_text_field("title", TEXT);
    builder.add_u64_field("year", INDEXED);
    assert_eq!(
        declared().validate_with_tantivy_schema(&builder.build()),
        Err(SchemaMismatch::Field { index: 1 })
    );
    let mut builder = Schema::builder();
    builder.add_text_field("_id", STRING | STORED);
    builder.add_text_field("title", TEXT | STORED);
    builder.add_i64_field("year", FAST | INDEXED);
    assert_eq!(
        declared().validate_with_tantivy_schema(&builder.build()),
        Err(SchemaMismatch::Field { index: 2 })
    );
}

#[test]
fn identity_derives_from_the_name() {
    let ctx = context("123456789");
    assert_eq!(ctx.name(), "123456789");
    assert_eq!(ctx.id(), 3421780262);
    assert_eq!(ctx.keyspace(), "lnx_search_3421780262");
    assert_eq!(ctx.root_storage_path("/var/lnx"), "/var/lnx/3421780262");
    assert_eq!(ctx.data_path("/var/lnx"), "/var/lnx/3421780262/data");
    assert_eq!(ctx.meta_path("/var/lnx"), "/var/lnx/3421780262/meta");
    assert_eq!(ctx.polling_mode(), PollingMode::Continuous(500));
    assert!(ctx.storage_config().is_none());
    assert_eq!(ctx.schema().primary_key(), "_id");
    assert_eq!(context("123456789").id(), ctx.id());
    assert_ne!(context("books").id(), ctx.id());
    assert_eq!(keyspace_name(0), "lnx_search_0");
    assert_eq!(join_path("a", "b"), "a/b");
}

#[test]
fn node_ids_and_storage_config_are_carried() {
    let config = serde_json::Value::String("eu-west".to_string());
    let mut ctx = IndexContext::new("books".to_string(), declared(), PollingMode::OnDemand, Some(config.clone()), 7);
    assert_eq!(ctx.node_id(), 7);
    ctx.set_node_id(8);
    assert_eq!(ctx.node_id(), 8);
    assert_eq!(ctx.storage_config(), Some(&config));
    assert_eq!(ctx.name(), "books");
}

#[test]
fn the_registry_refuses_a_name_that_is_taken() {
    let mut registry: IndexRegistry<u32> = IndexRegistry::empty();
    assert_eq!(new(&mut registry, "books".to_string(), 1), Ok(()));
    assert_eq!(new(&mut registry, "films".to_string(), 2), Ok(()));
    assert_eq!(new(&mut registry, "books".to_string(), 3), Err(3));
    assert_eq!(get(&registry, "books"), Some(&1));
    assert_eq!(get(&registry, "music"), None);
    assert_eq!(remove(&mut registry, "books"), Some(1));
    assert_eq!(remove(&mut registry, "books"), None);
    assert_eq!(get(&registry, "books"), None);
    assert_eq!(get(&registry, "films"), Some(&2));
    assert_eq!(new(&mut registry, "books".to_string(), 4), Ok(()));
    assert_eq!(get(&registry, "books"), Some(&4));
}

#[test]
fn name_maps_replace_and_remove() {
    let mut map: NameMap<u8> = NameMap::new();
    assert_eq!(map.insert("a".to_string(), 1), None);
    assert_eq!(map.insert("b".to_string(), 2), None);
    assert_eq!(map.insert("a".to_string(), 3), Some(1));
    assert_eq!(map.get("a"), Some(&3));
    assert!(map.contains("b"));
    assert_eq!(map.remove("b"), Some(2));
    assert!(!map.contains("b"));
    map.clear();
    assert_eq!(map.get("a"), None);
}

#[test]
fn the_store_facade_hands_its_parts_out() {
    let bound = IndexStore::new(context("books"), "index", 7u8, vec![1u8]);
    assert_eq!(*bound.index(), "index");
    assert_eq!(bound.ctx().name(), "books");
    assert_eq!(*bound.meta_store(), vec![1u8]);
    assert_eq!(*bound.store_handle(), 7);
    let (ctx, index, store, meta) = bound.destroy();
    assert_eq!((ctx.name(), index, store, meta), ("books", "index", 7, vec![1u8]));
}

#[test]
fn setup_derives_the_logger_from_the_settings() {
    let mut settings = Settings {
        log_level: LogLevel::Debug,
        pretty_logs: None,
        host: "127.0.0.1".to_string(),
        port: 8000,
        cors_origins: "*".to_string(),
        cors_methods: "*".to_string(),
        super_user_key: None,
        runtime_threads: None,
        log_file: Some("lnx.log".to_string()),
        silent_search: false,
    };
    let logger = setup(&settings);
    assert_eq!(logger.level, LogLevel::Debug);
    assert!(logger.pretty);
    assert_eq!(logger.log_file.as_deref(), Some("lnx.log"));
    assert_eq!(runtime_threads(&settings, 12), 12);
    assert_eq!(auth_settings(&settings), (false, String::new()));
    assert!(log_search(&settings));
    settings.pretty_logs = Some(false);
    settings.runtime_threads = Some(3);
    settings.super_user_key = Some("key".to_string());
    settings.silent_search = true;
    settings.log_file = None;
    assert!(!setup(&settings).pretty);
    assert!(setup(&settings).log_file.is_none());
    assert_eq!(runtime_threads(&settings, 12), 3);
    assert_eq!(auth_settings(&settings), (true, "key".to_string()));
    assert!(!log_search(&settings));
    settings.pretty_logs = Some(true);
    assert!(setup(&settings).pretty);
}

#[test]
fn error_kinds_map_to_status_codes() {
    assert_eq!(ErrorKind::InvalidQuery.status(), 400);
    assert_eq!(ErrorKind::PermissionDenied.status(), 401);
    assert_eq!(ErrorKind::NotFound.status(), 404);
    assert_eq!(ErrorKind::WriterShutdown.status(), 503);
    assert_eq!(ErrorKind::BackendError.status(), 500);
    assert_eq!(ErrorKind::Internal.status(), 500);
    assert!(ErrorKind::SchemaMismatch.is_fatal_at_open());
    assert!(ErrorKind::UnknownField.is_fatal_at_open());
    assert!(!ErrorKind::InvalidQuery.is_fatal_at_open());
    assert!(ErrorKind::BackendError.is_retried_by_poller());
    assert!(!ErrorKind::Internal.is_retried_by_poller());
}
