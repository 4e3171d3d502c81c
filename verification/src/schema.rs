//! Field declarations, the declared schema of an index, and the view this
//! crate takes of the search engine's own schema objects.

use crate::text::same_text;
use tantivy::schema::{Field, FieldType};
use vstd::prelude::*;

verus! {

/// The type of the values a field holds.
#[derive(Clone, Copy, Debug, PartialEq, Eq, Structural)]
pub enum FieldKind {
    Text,
    Unsigned,
    Signed,
    Float,
    Date,
    Facet,
    Bytes,
}

/// One named field with its type and indexing flags.
#[derive(Debug)]
pub struct FieldDecl {
    pub name: String,
    pub kind: FieldKind,
    pub indexed: bool,
    pub stored: bool,
    pub fast: bool,
    /// The tokenizer applied to an indexed text field.
    pub tokenizer: Option<String>,
}

/// The mathematical content of a [`FieldDecl`].
#[verifier::ext_equal]
pub struct FieldShape {
    pub name: Seq<char>,
    pub kind: FieldKind,
    pub indexed: bool,
    pub stored: bool,
    pub fast: bool,
    pub tokenizer: Option<Seq<char>>,
}

impl View for FieldDecl {
    type V = FieldShape;

    open spec fn view(&self) -> FieldShape {
        FieldShape {
            name: self.name@,
            kind: self.kind,
            indexed: self.indexed,
            stored: self.stored,
            fast: self.fast,
            tokenizer: text_of(self.tokenizer),
        }
    }
}

/// The characters of an optional string.
pub open spec fn text_of(s: Option<String>) -> Option<Seq<char>> {
    match s {
        Some(t) => Some(t@),
        None => None,
    }
}

/// The shapes of a list of declarations, in order.
pub open spec fn shapes(fields: Seq<FieldDecl>) -> Seq<FieldShape> {
    Seq::new(fields.len(), |i: int| fields[i]@)
}

impl FieldDecl {
    /// Whether text of this field is split into terms: it is indexed text
    /// whose tokenizer is not the verbatim one.
    pub open spec fn spec_is_tokenized(&self) -> bool {
        self.kind == FieldKind::Text && match self.tokenizer {
            Some(t) => t@ != "raw"@,
            None => false,
        }
    }

    /// Whether text of this field is split into terms.
    pub fn is_tokenized(&self) -> (r: bool)
        ensures
            r == self.spec_is_tokenized(),
    {
        match &self.tokenizer {
            Some(t) => self.kind == FieldKind::Text && !same_text(t.as_str(), "raw"),
            None => false,
        }
    }

    /// A declaration with the same content.
    pub fn duplicate(&self) -> (copy: FieldDecl)
        ensures
            copy@ == self@,
    {
        FieldDecl {
            name: self.name.clone(),
            kind: self.kind,
            indexed: self.indexed,
            stored: self.stored,
            fast: self.fast,
            tokenizer: match &self.tokenizer {
                Some(t) => Some(t.clone()),
                None => None,
            },
        }
    }

    /// Whether two declarations have the same content.
    pub fn same_as(&self, other: &FieldDecl) -> (r: bool)
        ensures
            r == (self@ == other@),
    {
        let tokenizers_agree = match (&self.tokenizer, &other.tokenizer) {
            (Some(a), Some(b)) => same_text(a.as_str(), b.as_str()),
            (None, None) => true,
            _ => false,
        };
        let r = same_text(self.name.as_str(), other.name.as_str()) && self.kind == other.kind
            && self.indexed == other.indexed && self.stored == other.stored && self.fast
            == other.fast && tokenizers_agree;
        assert(r == (self@ =~= other@));
        r
    }
}

#[verifier::external_type_specification]
#[verifier::external_body]
pub struct ExEngineSchema(tantivy::schema::Schema);

/// The field entries of an engine schema in field-id order, each as the
/// engine reports it: its name, its value type, whether it is indexed,
/// stored and fast, and the tokenizer of an indexed text field.
pub uninterp spec fn engine_fields(schema: tantivy::schema::Schema) -> Seq<FieldShape>;

/// What a lookup by name yields on a list of entries in which a later entry
/// shadows an earlier one of the same name.
pub open spec fn lookup_result(fields: Seq<FieldShape>, name: Seq<char>, found: Option<u32>) -> bool {
    match found {
        Some(id) => id < fields.len() && fields[id as int].name == name && forall|j: int|
            id < j < fields.len() ==> (#[trigger] fields[j]).name != name,
        None => forall|j: int| 0 <= j < fields.len() ==> (#[trigger] fields[j]).name != name,
    }
}

/// The id under which `name` is found in `fields`, if any.
pub open spec fn field_id_of(fields: Seq<FieldShape>, name: Seq<char>) -> Option<u32> {
    choose|found: Option<u32>| lookup_result(fields, name, found)
}

/// At most one answer satisfies [`lookup_result`].
pub proof fn lemma_lookup_result_unique(
    fields: Seq<FieldShape>,
    name: Seq<char>,
    a: Option<u32>,
    b: Option<u32>,
)
    requires
        lookup_result(fields, name, a),
        lookup_result(fields, name, b),
    ensures
        a == b,
        field_id_of(fields, name) == a,
{
    let c = field_id_of(fields, name);
    assert(lookup_result(fields, name, c));
    match (a, b) {
        (Some(x), Some(y)) => {
            if x < y {
                assert(fields[y as int].name != name);
            } else if y < x {
                assert(fields[x as int].name != name);
            }
        },
        (Some(x), None) => {
            assert(fields[x as int].name != name);
        },
        (None, Some(y)) => {
            assert(fields[y as int].name != name);
        },
        (None, None) => {},
    }
    match (a, c) {
        (Some(x), Some(y)) => {
            if x < y {
                assert(fields[y as int].name != name);
            } else if y < x {
                assert(fields[x as int].name != name);
            }
        },
        (Some(x), None) => {
            assert(fields[x as int].name != name);
        },
        (None, Some(y)) => {
            assert(fields[y as int].name != name);
        },
        (None, None) => {},
    }
}

/// `Schema::fields` walks the entries once, in field-id order; this counts them.
#[verifier::external_body]
pub(crate) fn engine_field_count(schema: &tantivy::schema::Schema) -> (n: usize)
    ensures
        n == engine_fields(*schema).len(),
{
    schema.fields().count()
}

/// `Schema::get_field` consults the name index that the schema builder fills
/// as entries are added, so it yields the id of the last entry with that
/// name, or nothing where no entry has it.
#[verifier::external_body]
pub(crate) fn engine_get_field(schema: &tantivy::schema::Schema, name: &str) -> (found: Option<u32>)
    ensures
        lookup_result(engine_fields(*schema), name@, found),
{
    schema.get_field(name).map(|field| field.field_id())
}

/// `Schema::get_field_entry` indexes the entry list by field id and panics
/// past its end; the variant of the entry's field type gives the value type
/// and, for indexed text, the tokenizer's name.
#[verifier::external_body]
pub(crate) fn engine_field_kind(schema: &tantivy::schema::Schema, id: u32) -> (r: (
    FieldKind,
    Option<String>,
))
    requires
        id < engine_fields(*schema).len(),
    ensures
        r.0 == engine_fields(*schema)[id as int].kind,
        text_of(r.1) == engine_fields(*schema)[id as int].tokenizer,
{
    match schema.get_field_entry(Field::from_field_id(id)).field_type() {
        FieldType::Str(o) => (FieldKind::Text, o.get_indexing_options().map(|i| i.tokenizer().to_string())),
        FieldType::U64(_) => (FieldKind::Unsigned, None),
        FieldType::I64(_) => (FieldKind::Signed, None),
        FieldType::F64(_) => (FieldKind::Float, None),
        FieldType::Date(_) => (FieldKind::Date, None),
        FieldType::HierarchicalFacet(_) => (FieldKind::Facet, None),
        FieldType::Bytes(_) => (FieldKind::Bytes, None),
    }
}

/// `Schema::get_field_entry` indexes the entry list by field id and panics
/// past its end; the entry's accessors give its name and whether it is
/// indexed, stored and fast.
#[verifier::external_body]
pub(crate) fn engine_field_flags(schema: &tantivy::schema::Schema, id: u32) -> (r: (
    String,
    bool,
    bool,
    bool,
))
    requires
        id < engine_fields(*schema).len(),
    ensures
        r.0@ == engine_fields(*schema)[id as int].name,
        r.1 == engine_fields(*schema)[id as int].indexed,
        r.2 == engine_fields(*schema)[id as int].stored,
        r.3 == engine_fields(*schema)[id as int].fast,
{
    let entry = schema.get_field_entry(Field::from_field_id(id));
    (entry.name().to_string(), entry.is_indexed(), entry.is_stored(), entry.is_fast())
}

/// The entry of `schema` with field id `id`.
pub(crate) fn engine_field(schema: &tantivy::schema::Schema, id: u32) -> (decl: FieldDecl)
    requires
        id < engine_fields(*schema).len(),
    ensures
        decl@ == engine_fields(*schema)[id as int],
{
    let (kind, tokenizer) = engine_field_kind(schema, id);
    let (name, indexed, stored, fast) = engine_field_flags(schema, id);
    let decl = FieldDecl { name, kind, indexed, stored, fast, tokenizer };
    assert(decl@ =~= engine_fields(*schema)[id as int]);
    decl
}

/// Why a list of declarations is no schema.
#[derive(Debug)]
pub enum SchemaError {
    /// Two declarations carry this name.
    DuplicateField(String),
    /// No declaration carries the name of the primary key.
    MissingPrimaryKey,
    /// There are more declarations than field ids.
    TooManyFields,
}

/// How an engine schema differs from the declared one.
#[derive(Clone, Copy, Debug, PartialEq, Eq, Structural)]
pub enum SchemaMismatch {
    /// The engine schema has another number of fields.
    FieldCount { declared: usize, found: usize },
    /// The field at this position differs, and none before it does.
    Field { index: usize },
}

/// Whether no two shapes carry the same name.
pub open spec fn distinct_field_names(fields: Seq<FieldShape>) -> bool {
    forall|i: int, j: int|
        0 <= i < j < fields.len() ==> (#[trigger] fields[i]).name != (#[trigger] fields[j]).name
}

/// Whether some shape carries the name `name`.
pub open spec fn has_field(fields: Seq<FieldShape>, name: Seq<char>) -> bool {
    exists|i: int| 0 <= i < fields.len() && (#[trigger] fields[i]).name == name
}

/// Whether `fields` with the primary key `primary_key` form a schema.
pub open spec fn is_schema(fields: Seq<FieldShape>, primary_key: Seq<char>) -> bool {
    &&& fields.len() <= u32::MAX
    &&& distinct_field_names(fields)
    &&& has_field(fields, primary_key)
}

/// The outcome of holding an engine schema against the declared one.
pub open spec fn validation_of(declared: Seq<FieldShape>, engine: Seq<FieldShape>) -> Result<
    (),
    SchemaMismatch,
> {
    if declared.len() != engine.len() {
        Err(SchemaMismatch::FieldCount { declared: declared.len() as usize, found: engine.len() as usize })
    } else if declared == engine {
        Ok(())
    } else {
        Err(
            SchemaMismatch::Field {
                index: (choose|i: int|
                    0 <= i < declared.len() && declared[i] != engine[i] && forall|j: int|
                        0 <= j < i ==> declared[j] == engine[j]) as usize,
            },
        )
    }
}

/// The declared schema of an index: its fields in order, no two of the same
/// name, one of them the primary key.
#[derive(Debug)]
pub struct IndexSchema {
    fields: Vec<FieldDecl>,
    primary_key: String,
}

impl IndexSchema {
    #[verifier::type_invariant]
    spec fn inv(self) -> bool {
        is_schema(shapes(self.fields@), self.primary_key@)
    }

    /// The shapes of the fields, in order.
    pub closed spec fn view(&self) -> Seq<FieldShape> {
        shapes(self.fields@)
    }

    /// The name of the primary key.
    pub closed spec fn key_name(&self) -> Seq<char> {
        self.primary_key@
    }

    /// Makes a schema of `fields` whose primary key is the field called
    /// `primary_key`.  Lists with two fields of one name, lists without the
    /// primary key and lists longer than the range of field ids are refused.
    pub fn new(fields: Vec<FieldDecl>, primary_key: String) -> (r: Result<IndexSchema, SchemaError>)
        ensures
            match r {
                Ok(schema) => schema@ == shapes(fields@) && schema.key_name() == primary_key@
                    && is_schema(shapes(fields@), primary_key@),
                Err(SchemaError::TooManyFields) => fields@.len() > u32::MAX,
                Err(SchemaError::DuplicateField(name)) => fields@.len() <= u32::MAX && exists|
                    i: int,
                    j: int,
                |
                    0 <= i < j < fields@.len() && (#[trigger] fields@[i]).name@ == name@ && (
                    #[trigger] fields@[j]).name@ == name@,
                Err(SchemaError::MissingPrimaryKey) => fields@.len() <= u32::MAX
                    && distinct_field_names(shapes(fields@)) && !has_field(
                    shapes(fields@),
                    primary_key@,
                ),
            },
    {
        if fields.len() > u32::MAX as usize {
            return Err(SchemaError::TooManyFields);
        }
        let ghost all = shapes(fields@);
        let mut found_key = false;
        let mut j: usize = 0;
        while j < fields.len()
            invariant
                j <= fields@.len() <= u32::MAX,
                all == shapes(fields@),
                forall|a: int, b: int|
                    0 <= a < b < j ==> (#[trigger] all[a]).name != (#[trigger] all[b]).name,
                found_key == exists|a: int| 0 <= a < j && (#[trigger] all[a]).name == primary_key@,
            decreases fields@.len() - j,
        {
            let mut i: usize = 0;
            while i < j
                invariant
                    i <= j < fields@.len() <= u32::MAX,
                    all == shapes(fields@),
                    forall|a: int| 0 <= a < i ==> (#[trigger] all[a]).name != all[j as int].name,
                decreases j - i,
            {
                if same_text(fields[i].name.as_str(), fields[j].name.as_str()) {
                    assert(fields@[i as int].name@ == fields@[j as int].name@);
                    return Err(SchemaError::DuplicateField(fields[j].name.clone()));
                }
                i += 1;
            }
            if same_text(fields[j].name.as_str(), primary_key.as_str()) {
                assert(all[j as int].name == primary_key@);
                found_key = true;
            }
            j += 1;
        }
        if !found_key {
            return Err(SchemaError::MissingPrimaryKey);
        }
        Ok(IndexSchema { fields, primary_key })
    }

    /// The fields, in order.
    pub fn fields(&self) -> (fields: &Vec<FieldDecl>)
        ensures
            shapes(fields@) == self@,
            is_schema(self@, self.key_name()),
    {
        proof {
            use_type_invariant(self);
        }
        &self.fields
    }

    /// The name of the primary key.
    pub fn primary_key(&self) -> (name: &str)
        ensures
            name@ == self.key_name(),
    {
        self.primary_key.as_str()
    }

    /// The position of the field called `name`.
    pub fn get_field(&self, name: &str) -> (found: Option<u32>)
        ensures
            match found {
                Some(id) => id < self@.len() && self@[id as int].name == name@,
                None => !has_field(self@, name@),
            },
    {
        proof {
            use_type_invariant(self);
        }
        let mut i: usize = 0;
        while i < self.fields.len()
            invariant
                i <= self.fields@.len() <= u32::MAX,
                forall|a: int| 0 <= a < i ==> (#[trigger] shapes(self.fields@)[a]).name != name@,
            decreases self.fields@.len() - i,
        {
            if same_text(self.fields[i].name.as_str(), name) {
                return Some(i as u32);
            }
            i += 1;
        }
        None
    }

    /// A schema with the same content.
    pub fn duplicate(&self) -> (copy: IndexSchema)
        ensures
            copy@ == self@,
            copy.key_name() == self.key_name(),
    {
        proof {
            use_type_invariant(self);
        }
        let mut fields: Vec<FieldDecl> = Vec::new();
        let mut i: usize = 0;
        while i < self.fields.len()
            invariant
                i <= self.fields@.len(),
                fields@.len() == i,
                forall|a: int| 0 <= a < i ==> (#[trigger] fields@[a])@ == self.fields@[a]@,
            decreases self.fields@.len() - i,
        {
            fields.push(self.fields[i].duplicate());
            i += 1;
        }
        assert(shapes(fields@) =~= shapes(self.fields@));
        IndexSchema { fields, primary_key: self.primary_key.clone() }
    }

    /// Holds the schema of an index on disk against this one.  They agree
    /// when they have the same fields in the same order; otherwise the
    /// difference in length, or the first position that differs, is reported.
    pub fn validate_with_tantivy_schema(&self, engine: &tantivy::schema::Schema) -> (r: Result<
        (),
        SchemaMismatch,
    >)
        ensures
            r == validation_of(self@, engine_fields(*engine)),
    {
        proof {
            use_type_invariant(self);
        }
        let ghost declared = shapes(self.fields@);
        let ghost found = engine_fields(*engine);
        let count = engine_field_count(engine);
        if count != self.fields.len() {
            return Err(SchemaMismatch::FieldCount { declared: self.fields.len(), found: count });
        }
        let mut i: usize = 0;
        while i < self.fields.len()
            invariant
                i <= self.fields@.len() <= u32::MAX,
                declared == shapes(self.fields@),
                found == engine_fields(*engine),
                declared.len() == found.len(),
                forall|a: int| 0 <= a < i ==> declared[a] == found[a],
            decreases self.fields@.len() - i,
        {
            let other = engine_field(engine, i as u32);
            if !self.fields[i].same_as(&other) {
                proof {
                    let w = choose|w: int|
                        0 <= w < declared.len() && declared[w] != found[w] && forall|j: int|
                            0 <= j < w ==> declared[j] == found[j];
                    assert(declared[i as int] != found[i as int]);
                    if w < i {
                        assert(declared[w] == found[w]);
                    } else if i < w {
                        assert(declared[i as int] == found[i as int]);
                    }
                }
                return Err(SchemaMismatch::Field { index: i });
            }
            i += 1;
        }
        assert(declared =~= found);
        Ok(())
    }
}

} // verus!
