//! Query planning: which engine fields a query targets, and the query a
//! search payload asks for.

use crate::hashing::{shadow_field_of, shadow_name};
use crate::schema::{
    engine_field, engine_fields, engine_get_field, field_id_of, lemma_lookup_result_unique,
    lookup_result, FieldKind, FieldShape,
};
use crate::text::{
    chars_of, contains_text, copy_strings, decimal, is_digit, lemma_decimal_injective, lemma_decimal_is_numeral, lowercase_of,
    parse_decimal, push_decimal, same_text, split_words, string_of, texts, words,
};
use vstd::prelude::*;

verus! {

/// A boost factor for one named field.  The factor is carried as the bit
/// pattern of an IEEE 754 single-precision number.
#[derive(Debug)]
pub struct BoostEntry {
    pub field: String,
    pub factor_bits: u32,
}

/// How queries on an index are to be built.
#[derive(Debug)]
pub struct QueryContext {
    /// The fields searched by queries.  Fuzzy queries use the text fields among them.
    pub search_fields: Vec<String>,
    /// Boost factors by field name.
    pub boost_fields: Vec<BoostEntry>,
    /// Whether the terms of a parsed query are joined by AND rather than OR.
    pub set_conjunction_by_default: bool,
    /// Whether queries target the pre-processed shadow fields.
    pub use_fast_fuzzy: bool,
    /// Whether stop words are stripped from fuzzy queries.
    pub strip_stop_words: bool,
}

/// An engine field together with the boost factor applied to it.
#[derive(Clone, Copy, Debug, PartialEq, Eq, Structural)]
pub struct BoostedField {
    pub field: u32,
    pub boost_bits: u32,
}

/// Why a query handler or a query could not be built.
#[derive(Debug)]
pub enum QueryError {
    /// A declared search field has no entry in the schema.
    UnknownField(String),
    /// The payload lacks what its mode requires, or cannot be read.
    InvalidQuery(InvalidQuery),
}

/// What is wrong with a query payload.
#[derive(Clone, Copy, Debug, PartialEq, Eq, Structural)]
pub enum InvalidQuery {
    /// The mode is `Normal` but there is no query string.
    MissingQueryForNormal,
    /// The mode is `Fuzzy` but there is no query string.
    MissingQueryForFuzzy,
    /// The mode is `MoreLikeThis` but there is no reference document.
    MissingReferenceDocument,
    /// The reference document is not a well-formed address.
    MalformedReference,
}

/// The boost configured for `name`: the factor of the first entry that names
/// it, and the all-zero pattern where none does.
pub open spec fn boost_for(boosts: Seq<BoostEntry>, name: Seq<char>) -> u32
    decreases boosts.len(),
{
    if boosts.len() == 0 {
        0
    } else if boosts[0].field@ == name {
        boosts[0].factor_bits
    } else {
        boost_for(boosts.drop_first(), name)
    }
}

/// Looks up the boost configured for `name`.
pub fn boost_of(boosts: &Vec<BoostEntry>, name: &str) -> (bits: u32)
    ensures
        bits == boost_for(boosts@, name@),
{
    let mut i: usize = 0;
    assert(boosts@.skip(0) =~= boosts@);
    while i < boosts.len()
        invariant
            i <= boosts@.len(),
            boost_for(boosts@, name@) == boost_for(boosts@.skip(i as int), name@),
        decreases boosts@.len() - i,
    {
        let ghost rest = boosts@.skip(i as int);
        assert(rest[0] == boosts@[i as int]);
        assert(rest.drop_first() =~= boosts@.skip(i + 1));
        if same_text(boosts[i].field.as_str(), name) {
            return boosts[i].factor_bits;
        }
        i += 1;
    }
    0
}

/// The field a search field resolves to, given the ids found for it and for
/// its shadow field: the shadow field where fast-fuzzy is active and the
/// shadow exists, the field itself otherwise.
pub open spec fn chosen_target(standard: u32, shadow: Option<u32>, fast_fuzzy: bool) -> u32 {
    match shadow {
        Some(pre_processed) => if fast_fuzzy {
            pre_processed
        } else {
            standard
        },
        None => standard,
    }
}

/// Chooses the field that queries on a search field target.
pub fn select_target(standard: u32, shadow: Option<u32>, fast_fuzzy: bool) -> (target: u32)
    ensures
        target == chosen_target(standard, shadow, fast_fuzzy),
{
    match shadow {
        Some(pre_processed) => if fast_fuzzy {
            pre_processed
        } else {
            standard
        },
        None => standard,
    }
}

/// The engine field that queries on the search field `name` target, or
/// `None` where the schema has no field of that name.
pub open spec fn target_of(fields: Seq<FieldShape>, name: Seq<char>, fast_fuzzy: bool) -> Option<u32> {
    match field_id_of(fields, name) {
        Some(standard) => Some(
            chosen_target(standard, field_id_of(fields, shadow_name(name)), fast_fuzzy),
        ),
        None => None,
    }
}

/// Whether every one of the first `upto` names resolves.
pub open spec fn all_known(
    fields: Seq<FieldShape>,
    names: Seq<Seq<char>>,
    fast_fuzzy: bool,
    upto: int,
) -> bool {
    forall|j: int| 0 <= j < upto ==> (#[trigger] target_of(fields, names[j], fast_fuzzy)) is Some
}

/// The targets of all search fields, in the order the fields are declared,
/// each with its boost.
pub open spec fn parser_targets(
    fields: Seq<FieldShape>,
    names: Seq<Seq<char>>,
    boosts: Seq<BoostEntry>,
    fast_fuzzy: bool,
) -> Seq<BoostedField> {
    Seq::new(
        names.len(),
        |i: int|
            BoostedField {
                field: target_of(fields, names[i], fast_fuzzy).unwrap(),
                boost_bits: boost_for(boosts, names[i]),
            },
    )
}

/// The predicate that holds of targets that are text fields of `fields`.
pub open spec fn is_text_target(fields: Seq<FieldShape>) -> spec_fn(BoostedField) -> bool {
    |t: BoostedField| t.field < fields.len() && fields[t.field as int].kind == FieldKind::Text
}

/// The query parser's configuration.
#[derive(Debug)]
pub struct NormalQueryFactory {
    /// The default fields of a parsed query, each with its boost.
    pub fields: Vec<BoostedField>,
    /// Whether the terms of a parsed query are joined by AND rather than OR.
    pub conjunction_by_default: bool,
}

/// The fields a fuzzy query is run against, and how its terms are chosen.
#[derive(Debug)]
pub struct FuzzyQueryFactory {
    pub search_fields: Vec<BoostedField>,
    /// Whether terms that are stop words are left out.
    pub strip_stop_words: bool,
    /// The stop words of the index.
    pub stop_words: Vec<String>,
}

/// The configuration of similarity queries.
#[derive(Debug)]
pub struct MoreLikeThisQueryFactory {
    /// The stop words of the index; where there are none, the built-in list applies.
    pub stop_words: Vec<String>,
}

/// The three query factories of an index.
#[derive(Debug)]
pub struct QueryHandler {
    pub normal_factory: NormalQueryFactory,
    pub fuzzy_factory: FuzzyQueryFactory,
    pub more_like_this_factory: MoreLikeThisQueryFactory,
}

impl QueryHandler {
    /// Resolves the search fields of `ctx` against `schema`.
    ///
    /// Every search field must name a field of the schema; the first one
    /// that does not is reported.  A search field targets its shadow field
    /// where the context asks for fast-fuzzy, correction data is loaded and
    /// the schema has the shadow field; otherwise it targets the field
    /// itself.  The parser searches every target; fuzzy queries search the
    /// targets that are text fields.  Parsed queries join their terms by AND
    /// where the context asks for it or for fast-fuzzy.  The stop words are
    /// handed to the factories that use them.
    pub fn create(
        schema: &tantivy::schema::Schema,
        ctx: &QueryContext,
        correction_enabled: bool,
        stop_words: &Vec<String>,
    ) -> (r: Result<QueryHandler, QueryError>)
        ensures
            ({
                let fields = engine_fields(*schema);
                let names = texts(ctx.search_fields@);
                let fast = ctx.use_fast_fuzzy && correction_enabled;
                match r {
                    Ok(handler) => {
                        &&& all_known(fields, names, fast, names.len() as int)
                        &&& handler.normal_factory.fields@ == parser_targets(
                            fields,
                            names,
                            ctx.boost_fields@,
                            fast,
                        )
                        &&& handler.normal_factory.conjunction_by_default == (
                        ctx.set_conjunction_by_default || ctx.use_fast_fuzzy)
                        &&& handler.fuzzy_factory.search_fields@ == parser_targets(
                            fields,
                            names,
                            ctx.boost_fields@,
                            fast,
                        ).filter(is_text_target(fields))
                        &&& handler.fuzzy_factory.strip_stop_words == ctx.strip_stop_words
                        &&& texts(handler.fuzzy_factory.stop_words@) == texts(stop_words@)
                        &&& texts(handler.more_like_this_factory.stop_words@) == texts(
                            stop_words@,
                        )
                    },
                    Err(QueryError::UnknownField(name)) => exists|i: int|
                        0 <= i < names.len() && all_known(fields, names, fast, i) && target_of(
                            fields,
                            names[i],
                            fast,
                        ) is None && name@ == #[trigger] names[i],
                    Err(_) => false,
                }
            }),
    {
        let fast = ctx.use_fast_fuzzy && correction_enabled;
        let ghost fields = engine_fields(*schema);
        let ghost names = texts(ctx.search_fields@);
        let ghost boosts = ctx.boost_fields@;
        let mut parser_fields: Vec<BoostedField> = Vec::new();
        let mut fuzzy_fields: Vec<BoostedField> = Vec::new();
        let mut i: usize = 0;
        proof {
            assert(parser_fields@ =~= parser_targets(fields, names.take(0), boosts, fast));
            reveal(Seq::filter);
        }
        while i < ctx.search_fields.len()
            invariant
                i <= ctx.search_fields@.len(),
                fields == engine_fields(*schema),
                names == texts(ctx.search_fields@),
                boosts == ctx.boost_fields@,
                fast == (ctx.use_fast_fuzzy && correction_enabled),
                all_known(fields, names, fast, i as int),
                parser_fields@ == parser_targets(fields, names.take(i as int), boosts, fast),
                fuzzy_fields@ == parser_fields@.filter(is_text_target(fields)),
            decreases ctx.search_fields@.len() - i,
        {
            let name = &ctx.search_fields[i];
            assert(name@ == names[i as int]);
            let shadow = shadow_field_of(name.as_str());
            let standard = engine_get_field(schema, name.as_str());
            let pre_processed = engine_get_field(schema, shadow.as_str());
            proof {
                lemma_lookup_result_unique(fields, name@, standard, standard);
                lemma_lookup_result_unique(fields, shadow@, pre_processed, pre_processed);
            }
            match standard {
                None => {
                    return Err(QueryError::UnknownField(name.clone()));
                },
                Some(found) => {
                    let target = select_target(found, pre_processed, fast);
                    let entry = BoostedField {
                        field: target,
                        boost_bits: boost_of(&ctx.boost_fields, name.as_str()),
                    };
                    let decl = engine_field(schema, target);
                    proof {
                        assert(target_of(fields, names[i as int], fast) == Some(target));
                        let before = parser_targets(fields, names.take(i as int), boosts, fast);
                        let after = parser_targets(fields, names.take(i + 1), boosts, fast);
                        assert(names.take(i + 1)[i as int] == names[i as int]);
                        assert forall|j: int| 0 <= j < i implies names.take(i + 1)[j] == names.take(
                            i as int,
                        )[j] by {}
                        assert(after =~= before.push(entry));
                        parser_fields@.lemma_filter_push(entry, is_text_target(fields));
                    }
                    parser_fields.push(entry);
                    if decl.kind == FieldKind::Text {
                        fuzzy_fields.push(entry);
                    }
                },
            }
            i += 1;
        }
        proof {
            assert(names.take(names.len() as int) =~= names);
        }
        Ok(
            QueryHandler {
                normal_factory: NormalQueryFactory {
                    fields: parser_fields,
                    conjunction_by_default: ctx.set_conjunction_by_default || ctx.use_fast_fuzzy,
                },
                fuzzy_factory: FuzzyQueryFactory {
                    search_fields: fuzzy_fields,
                    strip_stop_words: ctx.strip_stop_words,
                    stop_words: copy_strings(stop_words),
                },
                more_like_this_factory: MoreLikeThisQueryFactory {
                    stop_words: copy_strings(stop_words),
                },
            },
        )
    }
}

/// The address of a hit within one searcher snapshot.
#[derive(Clone, Copy, Debug, PartialEq, Eq, Structural)]
pub struct RefAddress {
    pub segment_id: u32,
    pub doc_id: u32,
}

/// The token that stands for the address `(segment_id, doc_id)`: the two
/// ordinals in decimal, joined by a hyphen.
pub open spec fn address_text(segment_id: u32, doc_id: u32) -> Seq<char> {
    decimal(segment_id as nat) + seq!['-'] + decimal(doc_id as nat)
}

/// The position of the hyphen in an address token.
proof fn lemma_address_hyphen(segment_id: u32, doc_id: u32)
    ensures
        ({
            let text = address_text(segment_id, doc_id);
            let at = decimal(segment_id as nat).len() as int;
            &&& 0 < at < text.len()
            &&& text[at] == '-'
            &&& forall|j: int| 0 <= j < at ==> #[trigger] text[j] != '-'
            &&& text.subrange(0, at) == decimal(segment_id as nat)
            &&& text.subrange(at + 1, text.len() as int) == decimal(doc_id as nat)
        }),
{
    let head = decimal(segment_id as nat);
    let tail = decimal(doc_id as nat);
    let text = address_text(segment_id, doc_id);
    lemma_decimal_is_numeral(segment_id as nat);
    lemma_decimal_is_numeral(doc_id as nat);
    let at = head.len() as int;
    assert forall|j: int| 0 <= j < at implies #[trigger] text[j] != '-' by {
        assert(text[j] == head[j]);
        assert(is_digit(head[j]));
    }
    assert(text.subrange(0, at) =~= head);
    assert(text.subrange(at + 1, text.len() as int) =~= tail);
}

/// Distinct addresses have distinct tokens.
pub proof fn lemma_address_text_injective(a: RefAddress, b: RefAddress)
    requires
        address_text(a.segment_id, a.doc_id) == address_text(b.segment_id, b.doc_id),
    ensures
        a == b,
{
    lemma_address_hyphen(a.segment_id, a.doc_id);
    lemma_address_hyphen(b.segment_id, b.doc_id);
    let text = address_text(a.segment_id, a.doc_id);
    let x = decimal(a.segment_id as nat).len() as int;
    let y = decimal(b.segment_id as nat).len() as int;
    if x < y {
        assert(text[x] != '-');
    } else if y < x {
        assert(text[y] != '-');
    }
    lemma_decimal_injective(a.segment_id as nat, b.segment_id as nat);
    lemma_decimal_injective(a.doc_id as nat, b.doc_id as nat);
}

/// Whether `token` stands for `address`.
pub open spec fn is_token_of(token: Seq<char>, address: RefAddress) -> bool {
    token == address_text(address.segment_id, address.doc_id)
}

/// The address a token stands for, if it stands for one.
pub open spec fn decoded(token: Seq<char>) -> Option<RefAddress> {
    if exists|a: RefAddress| is_token_of(token, a) {
        Some(choose|a: RefAddress| is_token_of(token, a))
    } else {
        None
    }
}

impl RefAddress {
    /// The token that stands for this address.
    pub fn encode(&self) -> (token: String)
        ensures
            token@ == address_text(self.segment_id, self.doc_id),
    {
        let mut chars: Vec<char> = Vec::new();
        push_decimal(&mut chars, self.segment_id as u64);
        chars.push('-');
        push_decimal(&mut chars, self.doc_id as u64);
        assert(chars@ =~= address_text(self.segment_id, self.doc_id));
        string_of(&chars)
    }

    /// Reads an address back from its token.  Exactly the tokens that
    /// [`RefAddress::encode`] produces are accepted.
    pub fn try_from(token: &str) -> (r: Result<RefAddress, InvalidQuery>)
        ensures
            match r {
                Ok(address) => token@ == address_text(address.segment_id, address.doc_id),
                Err(reason) => reason == InvalidQuery::MalformedReference && forall|
                    segment_id: u32,
                    doc_id: u32,
                | token@ != #[trigger] address_text(segment_id, doc_id),
            },
            r == match decoded(token@) {
                Some(address) => Ok::<RefAddress, InvalidQuery>(address),
                None => Err(InvalidQuery::MalformedReference),
            },
    {
        let r = Self::read_token(token);
        proof {
            match r {
                Ok(address) => {
                    assert(is_token_of(token@, address));
                    lemma_address_text_injective(
                        address,
                        choose|a: RefAddress| is_token_of(token@, a),
                    );
                },
                Err(_) => {
                    assert forall|a: RefAddress| !is_token_of(token@, a) by {
                        assert(token@ != address_text(a.segment_id, a.doc_id));
                    }
                },
            }
        }
        r
    }

    fn read_token(token: &str) -> (r: Result<RefAddress, InvalidQuery>)
        ensures
            match r {
                Ok(address) => token@ == address_text(address.segment_id, address.doc_id),
                Err(reason) => reason == InvalidQuery::MalformedReference && forall|
                    segment_id: u32,
                    doc_id: u32,
                | token@ != #[trigger] address_text(segment_id, doc_id),
            },
    {
        let chars = chars_of(token);
        let mut at: usize = 0;
        while at < chars.len() && chars[at] != '-'
            invariant
                at <= chars@.len(),
                forall|j: int| 0 <= j < at ==> #[trigger] chars@[j] != '-',
            decreases chars@.len() - at,
        {
            at += 1;
        }
        if at >= chars.len() {
            proof {
                assert forall|segment_id: u32, doc_id: u32| token@ != #[trigger] address_text(
                    segment_id,
                    doc_id,
                ) by {
                    lemma_address_hyphen(segment_id, doc_id);
                    if token@ == address_text(segment_id, doc_id) {
                        let h = decimal(segment_id as nat).len() as int;
                        assert(chars@[h] == '-');
                    }
                }
            }
            return Err(InvalidQuery::MalformedReference);
        }
        let segment = parse_decimal(&chars, 0, at);
        let doc = parse_decimal(&chars, at + 1, chars.len());
        proof {
            assert forall|segment_id: u32, doc_id: u32|
                token@ == #[trigger] address_text(segment_id, doc_id) implies segment == Some(
                segment_id as u64,
            ) && doc == Some(doc_id as u64) by {
                lemma_address_hyphen(segment_id, doc_id);
                let h = decimal(segment_id as nat).len() as int;
                if h < at {
                    assert(chars@[h] != '-');
                } else if at < h {
                    assert(chars@[at as int] == '-');
                    assert(address_text(segment_id, doc_id)[at as int] != '-');
                }
                assert(chars@.subrange(0, at as int) == decimal(segment_id as nat));
                assert(chars@.subrange(at + 1, chars@.len() as int) == decimal(doc_id as nat));
                match segment {
                    Some(n) => lemma_decimal_injective(n as nat, segment_id as nat),
                    None => {},
                }
                match doc {
                    Some(n) => lemma_decimal_injective(n as nat, doc_id as nat),
                    None => {},
                }
            }
        }
        match (segment, doc) {
            (Some(segment_id), Some(doc_id)) => {
                if segment_id <= u32::MAX as u64 && doc_id <= u32::MAX as u64 {
                    let address = RefAddress { segment_id: segment_id as u32, doc_id: doc_id as u32 };
                    assert(chars@ =~= chars@.subrange(0, at as int) + seq!['-'] + chars@.subrange(
                        at + 1,
                        chars@.len() as int,
                    ));
                    Ok(address)
                } else {
                    Err(InvalidQuery::MalformedReference)
                }
            },
            _ => Err(InvalidQuery::MalformedReference),
        }
    }

    /// The segment ordinal and the document ordinal, in this order.
    pub fn as_doc_address(&self) -> (r: (u32, u32))
        ensures
            r == (self.segment_id, self.doc_id),
    {
        (self.segment_id, self.doc_id)
    }
}

/// Reading back the token of an address yields the address.
pub proof fn lemma_address_round_trip(address: RefAddress)
    ensures
        decoded(address_text(address.segment_id, address.doc_id)) == Some(address),
{
    let token = address_text(address.segment_id, address.doc_id);
    assert(is_token_of(token, address));
    let found = choose|a: RefAddress| is_token_of(token, a);
    lemma_address_text_injective(address, found);
}

/// How a query is matched: the mode of a search payload.
#[derive(Clone, Copy, Debug, PartialEq, Eq, Structural)]
pub enum QueryMode {
    /// The query string is parsed as a boolean expression.
    Normal,
    /// Every word of the query string is matched with edit distance one.
    Fuzzy,
    /// Documents similar to a reference document are sought.
    MoreLikeThis,
}

/// What a caller sends to search an index.
#[derive(Debug)]
pub struct QueryPayload {
    pub mode: QueryMode,
    pub query: Option<String>,
    /// The token of a hit of an earlier search.
    pub ref_document: Option<String>,
    pub limit: usize,
    pub offset: usize,
    pub order_by: Option<String>,
}

/// The edit distance a fuzzy term tolerates.
pub const FUZZY_DISTANCE: u8 = 1;

/// Whether swapping two neighbouring characters counts as one edit.
pub const FUZZY_TRANSPOSITION_IS_ONE_EDIT: bool = true;

/// One optional clause of a fuzzy query: documents whose `field` holds a
/// term that starts with something within [`FUZZY_DISTANCE`] of `term`.
#[derive(Debug)]
pub struct FuzzyTerm {
    pub field: u32,
    pub boost_bits: u32,
    pub term: String,
}

/// The mathematical content of a [`FuzzyTerm`].
#[verifier::ext_equal]
pub struct FuzzyShape {
    pub field: u32,
    pub boost_bits: u32,
    pub term: Seq<char>,
}

impl View for FuzzyTerm {
    type V = FuzzyShape;

    open spec fn view(&self) -> FuzzyShape {
        FuzzyShape { field: self.field, boost_bits: self.boost_bits, term: self.term@ }
    }
}

/// The shapes of a list of clauses, in order.
pub open spec fn clause_shapes(clauses: Seq<FuzzyTerm>) -> Seq<FuzzyShape> {
    Seq::new(clauses.len(), |i: int| clauses[i]@)
}

/// The words of a query, each in lowercase.
pub open spec fn lowered_words(query: Seq<char>) -> Seq<Seq<char>> {
    Seq::new(words(query).len(), |i: int| lowercase_of(words(query)[i]))
}

/// The predicate that holds of the terms a fuzzy query keeps.
pub open spec fn is_kept(stop_words: Seq<Seq<char>>, strip: bool) -> spec_fn(Seq<char>) -> bool {
    |term: Seq<char>| !(strip && stop_words.contains(term))
}

/// The terms of a fuzzy query: its lowercase words, without the stop words
/// where those are stripped.
pub open spec fn fuzzy_terms(query: Seq<char>, stop_words: Seq<Seq<char>>, strip: bool) -> Seq<
    Seq<char>,
> {
    lowered_words(query).filter(is_kept(stop_words, strip))
}

/// The clauses one term contributes: one per field, in field order.
pub open spec fn term_row(term: Seq<char>, fields: Seq<BoostedField>) -> Seq<FuzzyShape> {
    Seq::new(
        fields.len(),
        |f: int| FuzzyShape { field: fields[f].field, boost_bits: fields[f].boost_bits, term },
    )
}

/// The clauses of a fuzzy query: the rows of its terms, in term order.
pub open spec fn fuzzy_clauses(terms: Seq<Seq<char>>, fields: Seq<BoostedField>) -> Seq<FuzzyShape>
    decreases terms.len(),
{
    if terms.len() == 0 {
        Seq::empty()
    } else {
        fuzzy_clauses(terms.drop_last(), fields) + term_row(terms.last(), fields)
    }
}

/// A fuzzy query has one clause for every pair of a term and a field.
pub proof fn lemma_fuzzy_clauses_len(terms: Seq<Seq<char>>, fields: Seq<BoostedField>)
    ensures
        fuzzy_clauses(terms, fields).len() == terms.len() * fields.len(),
    decreases terms.len(),
{
    if terms.len() > 0 {
        lemma_fuzzy_clauses_len(terms.drop_last(), fields);
        assert((terms.len() - 1) * fields.len() + fields.len() == terms.len() * fields.len())
            by (nonlinear_arith);
    }
}

impl FuzzyQueryFactory {
    /// Builds the clauses of the fuzzy query for `query`: the query is split
    /// at whitespace, each word is put in lowercase, stop words are left out
    /// where the factory strips them, and every remaining term is paired
    /// with every search field.
    pub fn build(&self, query: &str) -> (clauses: Vec<FuzzyTerm>)
        ensures
            clause_shapes(clauses@) == fuzzy_clauses(
                fuzzy_terms(query@, texts(self.stop_words@), self.strip_stop_words),
                self.search_fields@,
            ),
    {
        let chars = chars_of(query);
        let found = split_words(&chars);
        let ghost lowered = lowered_words(query@);
        let ghost keep = is_kept(texts(self.stop_words@), self.strip_stop_words);
        let ghost fields = self.search_fields@;
        let mut clauses: Vec<FuzzyTerm> = Vec::new();
        let ghost mut kept: Seq<Seq<char>> = Seq::empty();
        let mut t: usize = 0;
        proof {
            reveal(Seq::filter);
            assert(lowered.take(0).filter(keep) =~= kept);
            assert(clause_shapes(clauses@) =~= fuzzy_clauses(kept, fields));
        }
        while t < found.len()
            invariant
                t <= found@.len(),
                found@.len() == words(query@).len(),
                forall|w: int| 0 <= w < found@.len() ==> (#[trigger] found@[w])@ == words(query@)[w],
                lowered == lowered_words(query@),
                keep == is_kept(texts(self.stop_words@), self.strip_stop_words),
                fields == self.search_fields@,
                kept == lowered.take(t as int).filter(keep),
                clause_shapes(clauses@) == fuzzy_clauses(kept, fields),
            decreases found@.len() - t,
        {
            let term = found[t].as_str().to_lowercase();
            proof {
                assert(term@ == lowered[t as int]);
                assert(lowered.take(t + 1) =~= lowered.take(t as int).push(term@));
                lowered.take(t as int).lemma_filter_push(term@, keep);
            }
            let dropped = self.strip_stop_words && contains_text(&self.stop_words, term.as_str());
            if !dropped {
                let ghost before = clause_shapes(clauses@);
                let mut f: usize = 0;
                while f < self.search_fields.len()
                    invariant
                        f <= fields.len(),
                        fields == self.search_fields@,
                        clause_shapes(clauses@) == before + term_row(term@, fields).take(f as int),
                    decreases fields.len() - f,
                {
                    let target = self.search_fields[f];
                    let clause = FuzzyTerm {
                        field: target.field,
                        boost_bits: target.boost_bits,
                        term: term.clone(),
                    };
                    proof {
                        let row = term_row(term@, fields);
                        assert(clause@ =~= row[f as int]);
                        assert(clause_shapes(clauses@.push(clause)) =~= clause_shapes(
                            clauses@,
                        ).push(clause@));
                        assert(row.take(f + 1) =~= row.take(f as int).push(row[f as int]));
                        assert((before + row.take(f as int)).push(row[f as int]) =~= before
                            + row.take(f + 1));
                    }
                    clauses.push(clause);
                    f += 1;
                }
                proof {
                    let row = term_row(term@, fields);
                    assert(row.take(fields.len() as int) =~= row);
                    assert(kept.push(term@).drop_last() =~= kept);
                    kept = kept.push(term@);
                }
            }
            t += 1;
        }
        proof {
            assert(lowered.take(lowered.len() as int) =~= lowered);
        }
        clauses
    }
}

/// A document must contain a term at least this often for the term to count.
pub const MLT_MIN_TERM_FREQUENCY: usize = 1;

/// A term must occur in at least this many documents to count.
pub const MLT_MIN_DOC_FREQUENCY: u64 = 1;

/// A term must occur in at most this many documents to count.
pub const MLT_MAX_DOC_FREQUENCY: u64 = 10;

/// Words shorter than this do not count.
pub const MLT_MIN_WORD_LENGTH: usize = 2;

/// Words longer than this do not count.
pub const MLT_MAX_WORD_LENGTH: usize = 5;

/// The boost applied to the terms of a similarity query: the bit pattern of
/// the single-precision number one.
pub const MLT_BOOST_BITS: u32 = 0x3F80_0000;

/// A similarity query with all its parameters.
#[derive(Debug)]
pub struct MoreLikeThisPlan {
    pub reference: RefAddress,
    pub min_doc_frequency: u64,
    pub max_doc_frequency: u64,
    pub min_term_frequency: usize,
    pub min_word_length: usize,
    pub max_word_length: usize,
    pub boost_bits: u32,
    pub stop_words: Vec<String>,
}

/// The stop words of a similarity query: those of the index where it has
/// any, the single word `for` otherwise.
pub open spec fn similarity_stop_words(loaded: Seq<Seq<char>>) -> Seq<Seq<char>> {
    if loaded.len() > 0 {
        loaded
    } else {
        seq!["for"@]
    }
}

impl MoreLikeThisQueryFactory {
    /// Builds the similarity query for the document at `reference`.
    pub fn build(&self, reference: RefAddress) -> (plan: MoreLikeThisPlan)
        ensures
            plan.reference == reference,
            plan.min_doc_frequency == MLT_MIN_DOC_FREQUENCY,
            plan.max_doc_frequency == MLT_MAX_DOC_FREQUENCY,
            plan.min_term_frequency == MLT_MIN_TERM_FREQUENCY,
            plan.min_word_length == MLT_MIN_WORD_LENGTH,
            plan.max_word_length == MLT_MAX_WORD_LENGTH,
            plan.boost_bits == MLT_BOOST_BITS,
            texts(plan.stop_words@) == similarity_stop_words(texts(self.stop_words@)),
    {
        let stop_words = if self.stop_words.len() > 0 {
            copy_strings(&self.stop_words)
        } else {
            let mut builtin: Vec<String> = Vec::new();
            builtin.push("for".to_owned());
            assert(texts(builtin@) =~= seq!["for"@]);
            builtin
        };
        MoreLikeThisPlan {
            reference,
            min_doc_frequency: MLT_MIN_DOC_FREQUENCY,
            max_doc_frequency: MLT_MAX_DOC_FREQUENCY,
            min_term_frequency: MLT_MIN_TERM_FREQUENCY,
            min_word_length: MLT_MIN_WORD_LENGTH,
            max_word_length: MLT_MAX_WORD_LENGTH,
            boost_bits: MLT_BOOST_BITS,
            stop_words,
        }
    }
}

/// The query the engine is asked to run.
#[derive(Debug)]
pub enum QueryPlan {
    /// The text is handed to the engine's query parser.
    Parsed(String),
    /// Any of the clauses may match.
    Fuzzy(Vec<FuzzyTerm>),
    /// Documents similar to the reference are sought.
    MoreLikeThis(MoreLikeThisPlan),
}

/// Whether `r` is the outcome of building the query that a payload with
/// the given mode, query string and reference document asks for.
pub open spec fn is_plan_for(
    handler: QueryHandler,
    query: Option<String>,
    reference: Option<RefAddress>,
    mode: QueryMode,
    r: Result<QueryPlan, InvalidQuery>,
) -> bool {
    match (mode, query, reference) {
        (QueryMode::Normal, None, _) => r == Err::<QueryPlan, InvalidQuery>(
            InvalidQuery::MissingQueryForNormal,
        ),
        (QueryMode::Normal, Some(text), _) => r matches Ok(QueryPlan::Parsed(parsed)) && parsed@
            == text@,
        (QueryMode::Fuzzy, None, _) => r == Err::<QueryPlan, InvalidQuery>(
            InvalidQuery::MissingQueryForFuzzy,
        ),
        (QueryMode::Fuzzy, Some(text), _) => r matches Ok(QueryPlan::Fuzzy(clauses))
            && clause_shapes(clauses@) == fuzzy_clauses(
            fuzzy_terms(
                text@,
                texts(handler.fuzzy_factory.stop_words@),
                handler.fuzzy_factory.strip_stop_words,
            ),
            handler.fuzzy_factory.search_fields@,
        ),
        (QueryMode::MoreLikeThis, _, None) => r == Err::<QueryPlan, InvalidQuery>(
            InvalidQuery::MissingReferenceDocument,
        ),
        (QueryMode::MoreLikeThis, _, Some(address)) => r matches Ok(QueryPlan::MoreLikeThis(plan))
            && plan.reference == address && plan.min_doc_frequency == MLT_MIN_DOC_FREQUENCY
            && plan.max_doc_frequency == MLT_MAX_DOC_FREQUENCY && plan.min_term_frequency
            == MLT_MIN_TERM_FREQUENCY && plan.min_word_length == MLT_MIN_WORD_LENGTH
            && plan.max_word_length == MLT_MAX_WORD_LENGTH && plan.boost_bits == MLT_BOOST_BITS
            && texts(plan.stop_words@) == similarity_stop_words(
            texts(handler.more_like_this_factory.stop_words@),
        ),
    }
}

impl QueryHandler {
    /// Replaces the stop words of the index.
    pub fn set_stop_words(&mut self, stop_words: &Vec<String>)
        ensures
            final(self).normal_factory == old(self).normal_factory,
            final(self).fuzzy_factory.search_fields == old(self).fuzzy_factory.search_fields,
            final(self).fuzzy_factory.strip_stop_words == old(self).fuzzy_factory.strip_stop_words,
            texts(final(self).fuzzy_factory.stop_words@) == texts(stop_words@),
            texts(final(self).more_like_this_factory.stop_words@) == texts(stop_words@),
    {
        self.fuzzy_factory.stop_words = copy_strings(stop_words);
        self.more_like_this_factory.stop_words = copy_strings(stop_words);
    }

    /// Builds the query a payload asks for.
    ///
    /// `Normal` and `Fuzzy` need a query string and `MoreLikeThis` needs a
    /// reference document; a payload without what its mode needs is invalid.
    pub fn parse_query(
        &self,
        query: &Option<String>,
        ref_document: Option<RefAddress>,
        mode: QueryMode,
    ) -> (r: Result<QueryPlan, InvalidQuery>)
        ensures
            is_plan_for(*self, *query, ref_document, mode, r),
    {
        match mode {
            QueryMode::Normal => match query {
                None => Err(InvalidQuery::MissingQueryForNormal),
                Some(text) => Ok(QueryPlan::Parsed(text.clone())),
            },
            QueryMode::Fuzzy => match query {
                None => Err(InvalidQuery::MissingQueryForFuzzy),
                Some(text) => Ok(QueryPlan::Fuzzy(self.fuzzy_factory.build(text.as_str()))),
            },
            QueryMode::MoreLikeThis => match ref_document {
                None => Err(InvalidQuery::MissingReferenceDocument),
                Some(reference) => Ok(
                    QueryPlan::MoreLikeThis(self.more_like_this_factory.build(reference)),
                ),
            },
        }
    }
}

} // verus!
