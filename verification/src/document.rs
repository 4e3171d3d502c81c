//! Documents, the values their fields hold, and the terms that select them.

use crate::hashing::{shadow_field_of, shadow_name};
use crate::text::same_text;
use vstd::prelude::*;

verus! {

/// The primary key of a document: a universally unique identifier.
pub type DocId = u128;

/// The handle of a group of documents that replicate together.
pub type SegmentId = i64;

/// The position of a change in time, in milliseconds.
pub type Timestamp = i64;

/// One value of a field.
#[derive(Debug)]
pub enum FieldValue {
    Text(String),
    Unsigned(u64),
    Signed(i64),
    /// A double-precision number, carried as its IEEE 754 bit pattern.
    FloatBits(u64),
    /// A point in time, in seconds since the epoch.
    Date(i64),
    Facet(String),
    Bytes(Vec<u8>),
}

/// The mathematical content of a [`FieldValue`].
#[verifier::ext_equal]
pub enum ValueShape {
    Text(Seq<char>),
    Unsigned(u64),
    Signed(i64),
    FloatBits(u64),
    Date(i64),
    Facet(Seq<char>),
    Bytes(Seq<u8>),
}

impl View for FieldValue {
    type V = ValueShape;

    open spec fn view(&self) -> ValueShape {
        match *self {
            FieldValue::Text(s) => ValueShape::Text(s@),
            FieldValue::Unsigned(n) => ValueShape::Unsigned(n),
            FieldValue::Signed(n) => ValueShape::Signed(n),
            FieldValue::FloatBits(n) => ValueShape::FloatBits(n),
            FieldValue::Date(n) => ValueShape::Date(n),
            FieldValue::Facet(s) => ValueShape::Facet(s@),
            FieldValue::Bytes(b) => ValueShape::Bytes(b@),
        }
    }
}

/// The values a document holds under one field name.
#[derive(Debug)]
pub struct FieldValues {
    pub name: String,
    pub values: Vec<FieldValue>,
}

/// A document: its primary key and the values of its fields.
#[derive(Debug)]
pub struct Document {
    pub id: DocId,
    pub fields: Vec<FieldValues>,
}

/// What selects the documents a deletion removes.
#[derive(Debug)]
pub enum Term {
    /// The document with this primary key.
    PrimaryKey(DocId),
    /// Every document that holds `value` under the field `name`.
    Field { name: String, value: FieldValue },
}

/// Whether `doc` holds `value` under the field called `name`.
pub open spec fn holds_value(doc: Document, name: Seq<char>, value: ValueShape) -> bool {
    exists|f: int, v: int|
        0 <= f < doc.fields@.len() && 0 <= v < doc.fields@[f].values@.len() && (
        #[trigger] doc.fields@[f]).name@ == name && (#[trigger] doc.fields@[f].values@[v])@
            == value
}

/// Whether `term` selects `doc`.
pub open spec fn selects(term: Term, doc: Document) -> bool {
    match term {
        Term::PrimaryKey(id) => doc.id == id,
        Term::Field { name, value } => holds_value(doc, name@, value@),
    }
}

impl Document {
    /// A document with the primary key `id` and no field values yet.
    pub fn new(id: DocId) -> (doc: Document)
        ensures
            doc.id == id,
            doc.fields@.len() == 0,
    {
        Document { id, fields: Vec::new() }
    }

    /// Adds `value` under the field `name`, after the values the field already holds.
    pub fn add_value(&mut self, name: &str, value: FieldValue)
        ensures
            final(self).id == old(self).id,
            holds_value(*final(self), name@, value@),
            forall|other: Seq<char>, held: ValueShape|
                holds_value(*old(self), other, held) ==> holds_value(*final(self), other, held),
            forall|other: Seq<char>, held: ValueShape|
                holds_value(*final(self), other, held) ==> holds_value(*old(self), other, held) || (
                other == name@ && held == value@),
    {
        let ghost before = *self;
        let mut f: usize = 0;
        while f < self.fields.len()
            invariant
                *self == before,
                before == *old(self),
                f <= self.fields@.len(),
                forall|j: int| 0 <= j < f ==> (#[trigger] self.fields@[j]).name@ != name@,
            decreases self.fields@.len() - f,
        {
            if same_text(self.fields[f].name.as_str(), name) {
                let mut entry = self.fields.remove(f);
                entry.values.push(value);
                self.fields.insert(f, entry);
                proof {
                    let after = *self;
                    let n = before.fields@[f as int].values@.len() as int;
                    assert(after.fields@.len() == before.fields@.len());
                    assert(after.fields@[f as int].name@ == name@);
                    assert(after.fields@[f as int].values@[n]@ == value@);
                    assert forall|j: int| 0 <= j < after.fields@.len() && j != f implies
                        after.fields@[j] == before.fields@[j] by {}
                    assert forall|other: Seq<char>, held: ValueShape|
                        holds_value(before, other, held) implies holds_value(after, other, held) by {
                        let (x, y) = choose|x: int, y: int|
                            0 <= x < before.fields@.len() && 0 <= y < before.fields@[x].values@.len()
                                && (#[trigger] before.fields@[x]).name@ == other && (
                            #[trigger] before.fields@[x].values@[y])@ == held;
                        if x == f {
                            assert(after.fields@[x].values@[y] == before.fields@[x].values@[y]);
                        }
                        assert(after.fields@[x].name@ == other && after.fields@[x].values@[y]@
                            == held);
                    }
                    assert forall|other: Seq<char>, held: ValueShape|
                        holds_value(after, other, held) implies holds_value(before, other, held)
                        || (other == name@ && held == value@) by {
                        let (x, y) = choose|x: int, y: int|
                            0 <= x < after.fields@.len() && 0 <= y < after.fields@[x].values@.len()
                                && (#[trigger] after.fields@[x]).name@ == other && (
                            #[trigger] after.fields@[x].values@[y])@ == held;
                        if x == f && y == n {
                        } else {
                            if x == f {
                                assert(after.fields@[x].values@[y] == before.fields@[x].values@[y]);
                            }
                            assert(before.fields@[x].name@ == other && before.fields@[x].values@[y]@
                                == held);
                        }
                    }
                }
                return ;
            }
            f += 1;
        }
        let mut values: Vec<FieldValue> = Vec::new();
        values.push(value);
        self.fields.push(FieldValues { name: name.to_owned(), values });
        proof {
            let after = *self;
            let last = before.fields@.len() as int;
            assert(after.fields@[last].name@ == name@);
            assert(after.fields@[last].values@[0]@ == value@);
            assert forall|other: Seq<char>, held: ValueShape|
                holds_value(before, other, held) implies holds_value(after, other, held) by {
                let (x, y) = choose|x: int, y: int|
                    0 <= x < before.fields@.len() && 0 <= y < before.fields@[x].values@.len() && (
                    #[trigger] before.fields@[x]).name@ == other && (
                    #[trigger] before.fields@[x].values@[y])@ == held;
                assert(after.fields@[x] == before.fields@[x]);
                assert(after.fields@[x].name@ == other && after.fields@[x].values@[y]@ == held);
            }
            assert forall|other: Seq<char>, held: ValueShape|
                holds_value(after, other, held) implies holds_value(before, other, held) || (other
                == name@ && held == value@) by {
                let (x, y) = choose|x: int, y: int|
                    0 <= x < after.fields@.len() && 0 <= y < after.fields@[x].values@.len() && (
                    #[trigger] after.fields@[x]).name@ == other && (
                    #[trigger] after.fields@[x].values@[y])@ == held;
                if x < last {
                    assert(after.fields@[x] == before.fields@[x]);
                    assert(before.fields@[x].name@ == other && before.fields@[x].values@[y]@
                        == held);
                }
            }
        }
    }
}

/// The entry that carries the pre-processed forms of the values of the text
/// field `field`: the forms go under the shadow field of `field`, as text,
/// in their order.
pub fn shadow_entry(field: &str, forms: Vec<String>) -> (entry: FieldValues)
    ensures
        entry.name@ == shadow_name(field@),
        entry.values@.len() == forms@.len(),
        forall|i: int|
            0 <= i < forms@.len() ==> (#[trigger] entry.values@[i])@ == ValueShape::Text(
                forms@[i]@,
            ),
{
    let ghost all = forms@;
    let mut rest = crate::writer::reversed(forms);
    let mut values: Vec<FieldValue> = Vec::new();
    while rest.len() > 0
        invariant
            rest@.len() + values@.len() == all.len(),
            rest@ == all.skip(values@.len() as int).reverse(),
            forall|i: int|
                0 <= i < values@.len() ==> (#[trigger] values@[i])@ == ValueShape::Text(
                    all[i]@,
                ),
        decreases rest@.len(),
    {
        let ghost done = values@.len() as int;
        match rest.pop() {
            Some(form) => {
                assert(form == all[done]);
                assert(rest@ =~= all.skip(done + 1).reverse());
                values.push(FieldValue::Text(form));
            },
            None => {},
        }
    }
    FieldValues { name: shadow_field_of(field), values }
}

} // verus!
