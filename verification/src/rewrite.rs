//! Laying the reconciled directives over an inferred schema.

use vstd::prelude::*;
use crate::overrides::TypeOverrides;
use crate::schema::{
    column_type_of, fields_view, ColumnType, Field, FieldView, NumericType, Schema,
};

verus! {

/// The type that a field ends with. A column with an entry in `overrides` gets
/// the width of that entry. Of the others, one inferred as a 64-bit integer
/// gets the default integer width, one inferred as a 64-bit float the default
/// float width, and every other keeps its type.
pub open spec fn final_type(
    field: FieldView,
    overrides: Map<Seq<char>, NumericType>,
    default_int: NumericType,
    default_float: NumericType,
) -> ColumnType {
    if overrides.contains_key(field.name) {
        column_type_of(overrides[field.name])
    } else {
        match field.data_type {
            ColumnType::Int64 => column_type_of(default_int),
            ColumnType::Float64 => column_type_of(default_float),
            other => other,
        }
    }
}

/// A field with its final type: name and nullability stay.
pub open spec fn final_field(
    field: FieldView,
    overrides: Map<Seq<char>, NumericType>,
    default_int: NumericType,
    default_float: NumericType,
) -> FieldView {
    FieldView {
        name: field.name,
        data_type: final_type(field, overrides, default_int, default_float),
        nullable: field.nullable,
    }
}

/// A schema with each field's final type: the fields stay in their order.
pub open spec fn final_schema(
    schema: Seq<FieldView>,
    overrides: Map<Seq<char>, NumericType>,
    default_int: NumericType,
    default_float: NumericType,
) -> Seq<FieldView> {
    Seq::new(
        schema.len(),
        |i: int| final_field(schema[i], overrides, default_int, default_float),
    )
}

/// One field with its final type.
pub fn rewrite_field(
    field: &Field,
    overrides: &TypeOverrides,
    default_int: NumericType,
    default_float: NumericType,
) -> (r: Field)
    requires
        overrides.wf(),
    ensures
        r@ == final_field(field@, overrides@, default_int, default_float),
{
    let data_type = match overrides.get(field.name.as_str()) {
        Some(numeric) => numeric.column_type(),
        None => match field.data_type {
            ColumnType::Int64 => default_int.column_type(),
            ColumnType::Float64 => default_float.column_type(),
            other => other,
        },
    };
    Field { name: field.name.clone(), data_type, nullable: field.nullable }
}

/// Gives each field of the schema its final type, in place.
pub fn apply_schema_overrides(
    schema: &mut Schema,
    overrides: &TypeOverrides,
    default_int: NumericType,
    default_float: NumericType,
)
    requires
        overrides.wf(),
    ensures
        final(schema)@ == final_schema(old(schema)@, overrides@, default_int, default_float),
{
    let mut new_fields: Vec<Field> = Vec::with_capacity(schema.fields.len());
    let mut i: usize = 0;
    while i < schema.fields.len()
        invariant
            i <= schema.fields@.len(),
            overrides.wf(),
            new_fields@.len() == i,
            forall|k: int|
                0 <= k < i ==> (#[trigger] new_fields@[k])@ == final_field(
                    schema.fields@[k]@,
                    overrides@,
                    default_int,
                    default_float,
                ),
        decreases schema.fields@.len() - i,
    {
        let field = rewrite_field(&schema.fields[i], overrides, default_int, default_float);
        new_fields.push(field);
        i += 1;
    }
    proof {
        assert(fields_view(new_fields@) =~= final_schema(
            schema@,
            overrides@,
            default_int,
            default_float,
        ));
    }
    schema.fields = new_fields;
}

} // verus!
