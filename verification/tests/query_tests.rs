use lnx_core::hashing::shadow_field_of;
use lnx_core::query::{
    boost_of, select_target, BoostEntry, BoostedField, InvalidQuery, QueryContext, QueryError,
    QueryHandler, QueryMode, QueryPlan, RefAddress, FUZZY_DISTANCE, MLT_BOOST_BITS,
};
use tantivy::schema::{Schema, FAST, INDEXED, STORED, TEXT};

fn books_schema(with_shadow: bool) -> Schema {
    let mut builder = Schema::builder();
    builder.add_text_field("title", TEXT | STORED);
    builder.add_text_field("body", TEXT);
    builder.add_u64_field("year", FAST | INDEXED);
    if with_shadow {
        builder.add_text_field(&shadow_field_of("title"), TEXT);
    }
    builder.build()
}

fn context(fields: &[&str], fast: bool) -> QueryContext {
    QueryContext {
        search_fields: fields.iter().map(|f| f.to_string()).collect(),
        boost_fields: vec![BoostEntry { field: "title".to_string(), factor_bits: 2.0f32.to_bits() }],
        set_conjunction_by_default: false,
        use_fast_fuzzy: fast,
        strip_stop_words: false,
    }
}

#[test]
fn create_resolves_search_fields_in_order() {
    let schema = books_schema(false);
    let handler = QueryHandler::create(&schema, &context(&["body", "title", "year"], false), true, &vec![])
        .unwrap();
    assert_eq!(
        handler.normal_factory.fields,
        vec![
            BoostedField { field: 1, boost_bits: 0 },
            BoostedField { field: 0, boost_bits: 2.0f32.to_bits() },
            BoostedField { field: 2, boost_bits: 0 },
        ]
    );
    assert_eq!(
        handler.fuzzy_factory.search_fields,
        vec![
            BoostedField { field: 1, boost_bits: 0 },
            BoostedField { field: 0, boost_bits: 2.0f32.to_bits() },
        ]
    );
    assert!(!handler.normal_factory.conjunction_by_default);
}

#[test]
fn create_reports_the_first_unknown_field() {
    let schema = books_schema(false);
    match QueryHandler::create(&schema, &context(&["title", "author", "publisher"], false), true, &vec![]) {
        Err(QueryError::UnknownField(name)) => assert_eq!(name, "author"),
        other => panic!("unexpected {:?}", other),
    }
}

#[test]
fn create_targets_shadow_fields_only_with_fast_fuzzy() {
    let schema = books_schema(true);
    let shadow = 3;
    let slow = QueryHandler::create(&schema, &context(&["title", "body"], false), true, &vec![]).unwrap();
    assert_eq!(slow.normal_factory.fields[0].field, 0);
    assert_eq!(slow.fuzzy_factory.search_fields[0].field, 0);
    let fast = QueryHandler::create(&schema, &context(&["title", "body"], true), true, &vec![]).unwrap();
    assert_eq!(fast.normal_factory.fields[0].field, shadow);
    assert_eq!(fast.normal_factory.fields[1].field, 1);
    assert_eq!(fast.fuzzy_factory.search_fields[0].field, shadow);
    assert!(fast.normal_factory.conjunction_by_default);
    let unloaded = QueryHandler::create(&schema, &context(&["title"], true), false, &vec![]).unwrap();
    assert_eq!(unloaded.normal_factory.fields[0].field, 0);
    assert!(unloaded.normal_factory.conjunction_by_default);
}

#[test]
fn later_field_of_the_same_name_shadows_the_earlier() {
    let mut builder = Schema::builder();
    builder.add_u64_field("title", INDEXED);
    builder.add_text_field("title", TEXT);
    let schema = builder.build();
    let handler = QueryHandler::create(&schema, &context(&["title"], false), true, &vec![]).unwrap();
    assert_eq!(handler.normal_factory.fields[0].field, 1);
    assert_eq!(handler.fuzzy_factory.search_fields.len(), 1);
}

#[test]
fn boost_lookup_takes_the_first_entry_and_defaults_to_zero() {
    let boosts = vec![
        BoostEntry { field: "title".to_string(), factor_bits: 7 },
        BoostEntry { field: "title".to_string(), factor_bits: 9 },
    ];
    assert_eq!(boost_of(&boosts, "title"), 7);
    assert_eq!(boost_of(&boosts, "body"), 0);
    assert_eq!(select_target(1, Some(5), true), 5);
    assert_eq!(select_target(1, Some(5), false), 1);
    assert_eq!(select_target(1, None, true), 1);
}

#[test]
fn fuzzy_query_pairs_every_lowercase_word_with_every_text_field() {
    let schema = books_schema(false);
    let handler = QueryHandler::create(&schema, &context(&["title", "body", "year"], false), true, &vec![])
        .unwrap();
    let clauses = handler.fuzzy_factory.build("  Rust\tPROGRAMING ");
    let got: Vec<(u32, &str)> = clauses.iter().map(|c| (c.field, c.term.as_str())).collect();
    assert_eq!(got, vec![(0, "rust"), (1, "rust"), (0, "programing"), (1, "programing")]);
    assert_eq!(clauses[0].boost_bits, 2.0f32.to_bits());
    assert_eq!(FUZZY_DISTANCE, 1);
    assert!(handler.fuzzy_factory.build("   ").is_empty());
}

#[test]
fn fuzzy_query_strips_stop_words_when_asked() {
    let schema = books_schema(false);
    let mut ctx = context(&["title"], false);
    ctx.strip_stop_words = true;
    let stop = vec!["the".to_string()];
    let handler = QueryHandler::create(&schema, &ctx, true, &stop).unwrap();
    let terms: Vec<String> = handler.fuzzy_factory.build("The Rust the book").into_iter().map(|c| c.term).collect();
    assert_eq!(terms, vec!["rust".to_string(), "book".to_string()]);
    ctx.strip_stop_words = false;
    let keeping = QueryHandler::create(&schema, &ctx, true, &stop).unwrap();
    assert_eq!(keeping.fuzzy_factory.build("the rust").len(), 2);
}

#[test]
fn parse_query_validates_the_payload_by_mode() {
    let schema = books_schema(false);
    let handler = QueryHandler::create(&schema, &context(&["title"], false), true, &vec![]).unwrap();
    let address = RefAddress { segment_id: 3, doc_id: 14 };
    assert!(matches!(
        handler.parse_query(&None, Some(address), QueryMode::Normal),
        Err(InvalidQuery::MissingQueryForNormal)
    ));
    assert!(matches!(
        handler.parse_query(&None, Some(address), QueryMode::Fuzzy),
        Err(InvalidQuery::MissingQueryForFuzzy)
    ));
    assert!(matches!(
        handler.parse_query(&Some("x".to_string()), None, QueryMode::MoreLikeThis),
        Err(InvalidQuery::MissingReferenceDocument)
    ));
    match handler.parse_query(&Some("rust programming".to_string()), None, QueryMode::Normal) {
        Ok(QueryPlan::Parsed(text)) => assert_eq!(text, "rust programming"),
        other => panic!("unexpected {:?}", other),
    }
    match handler.parse_query(&Some("Rust".to_string()), None, QueryMode::Fuzzy) {
        Ok(QueryPlan::Fuzzy(clauses)) => {
            assert_eq!(clauses.len(), 1);
            assert_eq!(clauses[0].term, "rust");
        },
        other => panic!("unexpected {:?}", other),
    }
}

#[test]
fn more_like_this_carries_the_documented_parameters() {
    let schema = books_schema(false);
    let mut handler = QueryHandler::create(&schema, &context(&["title"], false), true, &vec![]).unwrap();
    let address = RefAddress { segment_id: 3, doc_id: 14 };
    match handler.parse_query(&None, Some(address), QueryMode::MoreLikeThis) {
        Ok(QueryPlan::MoreLikeThis(plan)) => {
            assert_eq!(plan.reference, address);
            assert_eq!(plan.min_doc_frequency, 1);
            assert_eq!(plan.max_doc_frequency, 10);
            assert_eq!(plan.min_term_frequency, 1);
            assert_eq!(plan.min_word_length, 2);
            assert_eq!(plan.max_word_length, 5);
            assert_eq!(f32::from_bits(plan.boost_bits), 1.0);
            assert_eq!(plan.boost_bits, MLT_BOOST_BITS);
            assert_eq!(plan.stop_words, vec!["for".to_string()]);
        },
        other => panic!("unexpected {:?}", other),
    }
    handler.set_stop_words(&vec!["a".to_string(), "an".to_string()]);
    match handler.parse_query(&None, Some(address), QueryMode::MoreLikeThis) {
        Ok(QueryPlan::MoreLikeThis(plan)) => {
            assert_eq!(plan.stop_words, vec!["a".to_string(), "an".to_string()])
        },
        other => panic!("unexpected {:?}", other),
    }
}

#[test]
fn ref_address_round_trips_through_its_token() {
    for (segment_id, doc_id) in [(0u32, 0u32), (3, 14), (u32::MAX, u32::MAX), (10, 0)] {
        let address = RefAddress { segment_id, doc_id };
        let token = address.encode();
        assert_eq!(token, format!("{}-{}", segment_id, doc_id));
        assert_eq!(RefAddress::try_from(&token), Ok(address));
        assert_eq!(address.as_doc_address(), (segment_id, doc_id));
    }
}

#[test]
fn ref_address_rejects_everything_but_canonical_tokens() {
    for token in ["", "-", "3", "3-", "-14", "3-14-1", "03-14", "3-014", "3 -14", "4294967296-0", "0-4294967296", "a-b", "3--14"] {
        assert_eq!(
            RefAddress::try_from(token),
            Err(InvalidQuery::MalformedReference),
            "{:?}",
            token
        );
    }
}
