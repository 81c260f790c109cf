//! Schemas: the ordered list of named, typed output columns of an operator.

use vstd::prelude::*;

verus! {

/// The type of one column.  The tags matter to this core only as data; the
/// concrete columnar representation is an external collaborator.
#[derive(Clone, Copy, Debug, PartialEq, Eq, Structural)]
pub enum DataType {
    Boolean,
    Int64,
    UInt64,
    Utf8,
    Float32,
}

/// The mathematical model of a column: its qualified name and type.
pub struct SpecField {
    pub name: Seq<char>,
    pub data_type: DataType,
}

/// The mathematical model of a schema.
pub struct SpecSchema {
    pub fields: Seq<SpecField>,
}

/// One named, typed output column.
#[derive(Debug)]
pub struct Field {
    pub name: String,
    pub data_type: DataType,
}

/// The derived output schema every plan node exposes.
#[derive(Debug)]
pub struct Schema {
    pub fields: Vec<Field>,
}

impl View for Field {
    type V = SpecField;

    open spec fn view(&self) -> SpecField {
        SpecField { name: self.name@, data_type: self.data_type }
    }
}

impl DeepView for Field {
    type V = SpecField;

    open spec fn deep_view(&self) -> SpecField {
        self.view()
    }
}

impl View for Schema {
    type V = SpecSchema;

    open spec fn view(&self) -> SpecSchema {
        SpecSchema { fields: self.fields.deep_view() }
    }
}

impl DeepView for Schema {
    type V = SpecSchema;

    open spec fn deep_view(&self) -> SpecSchema {
        self.view()
    }
}

impl Clone for Field {
    /// Cloning keeps the field's value.
    fn clone(&self) -> (r: Self)
        ensures
            r@ == self@,
    {
        Field { name: self.name.clone(), data_type: self.data_type }
    }
}

impl Clone for Schema {
    /// Cloning keeps the schema's value.
    fn clone(&self) -> (r: Self)
        ensures
            r@ == self@,
    {
        let mut fields: Vec<Field> = Vec::new();
        let mut i: usize = 0;
        while i < self.fields.len()
            invariant
                i <= self.fields.len(),
                fields@.len() == i,
                forall|j: int| 0 <= j < i ==> #[trigger] fields@[j]@ == self.fields@[j]@,
            decreases self.fields.len() - i,
        {
            let f = self.fields[i].clone();
            fields.push(f);
            i = i + 1;
        }
        proof {
            assert(fields.deep_view() =~= self.fields.deep_view());
        }
        Schema { fields }
    }
}

impl Schema {
    /// An empty schema.
    pub fn empty() -> (r: Schema)
        ensures
            r@.fields == Seq::<SpecField>::empty(),
    {
        let r = Schema { fields: Vec::new() };
        proof {
            assert(r@.fields =~= Seq::<SpecField>::empty());
        }
        r
    }

    /// Builds a schema from its fields.
    pub fn new(fields: Vec<Field>) -> (r: Schema)
        ensures
            r@.fields == fields.deep_view(),
    {
        Schema { fields }
    }
}

} // verus!
