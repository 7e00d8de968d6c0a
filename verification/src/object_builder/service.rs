use vstd::prelude::*;

use crate::json::{entries_get, json_entry_views, json_view, lemma_json_entry_views, object_get, JsonValue, JsonView};
use crate::schema_registry::types::{fields_view, FieldDefinition};

verus! {

/// A row of a view built from one object: the object and its fields by name.
#[derive(Debug)]
pub struct ObjectRow {
    pub object_id: u128,
    pub fields: Vec<(String, JsonValue)>,
}

/// Why an object gave no row.
#[derive(Debug, PartialEq)]
pub enum RowError {
    /// The object with this id is not a JSON object.
    NotAnObject(u128),
    /// The object with this id has no field of this name.
    MissingField(u128, String),
}

/// The fields of a row, each the value of the named field of the object, or the first field
/// name that the object lacks.
pub open spec fn row_fields(object: Seq<(Seq<char>, JsonView)>, defs: Seq<(Seq<char>, Seq<char>)>) -> Result<
    Seq<(Seq<char>, JsonView)>,
    Seq<char>,
>
    decreases defs.len(),
{
    if defs.len() == 0 {
        Ok(Seq::empty())
    } else {
        match row_fields(object, defs.drop_last()) {
            Err(e) => Err(e),
            Ok(fs) => match entries_get(object, defs.last().1) {
                None => Err(defs.last().1),
                Some(v) => Ok(fs.push((defs.last().0, v))),
            },
        }
    }
}

/// The row of an object for a view's fields: the object must be a JSON object with every
/// named field; the row holds each field under the view's name for it.
pub fn build_row_def(object_id: u128, object: &JsonValue, fields_defs: &Vec<(String, FieldDefinition)>) -> (r:
    Result<ObjectRow, RowError>)
    ensures
        match object@ {
            JsonView::Object(entries) => match row_fields(entries, fields_view(fields_defs@)) {
                Ok(fs) => r matches Ok(row) && row.object_id == object_id && json_entry_views(
                    row.fields@,
                ) == fs,
                Err(name) => r matches Err(RowError::MissingField(id, n)) && id == object_id && n@
                    == name,
            },
            _ => r == Err::<ObjectRow, RowError>(RowError::NotAnObject(object_id)),
        },
{
    let entries = match object {
        JsonValue::Object(entries) => entries,
        _ => {
            return Err(RowError::NotAnObject(object_id));
        },
    };
    let ghost es = json_entry_views(entries@);
    let ghost defs = fields_view(fields_defs@);
    let mut fields: Vec<(String, JsonValue)> = Vec::new();
    let mut i: usize = 0;
    assert(defs.take(0) =~= Seq::<(Seq<char>, Seq<char>)>::empty());
    proof {
        lemma_json_entry_views(fields@);
    }
    while i < fields_defs.len()
        invariant
            i <= fields_defs.len(),
            es == json_entry_views(entries@),
            object@ == JsonView::Object(es),
            defs == fields_view(fields_defs@),
            row_fields(es, defs.take(i as int)) == Ok::<Seq<(Seq<char>, JsonView)>, Seq<char>>(
                json_entry_views(fields@),
            ),
        decreases fields_defs.len() - i,
    {
        let (key, def) = &fields_defs[i];
        let FieldDefinition::FieldName(name) = def;
        assert(defs.take(i + 1).drop_last() =~= defs.take(i as int));
        assert(defs.take(i + 1).last() == (key@, name@));
        match object_get(entries, name) {
            None => {
                proof {
                    assert(defs.take(i + 1) =~= defs.take(i as int).push((key@, name@)));
                    lemma_row_fields_prefix_err(es, defs, i as int + 1);
                }
                return Err(RowError::MissingField(object_id, name.clone()));
            },
            Some(v) => {
                let ghost old_fields = fields@;
                let ghost before = json_entry_views(fields@);
                fields.push((key.clone(), v.duplicate()));
                proof {
                    lemma_json_entry_views(fields@);
                    lemma_json_entry_views(old_fields);
                    assert forall|k: int| 0 <= k < old_fields.len() implies fields@[k] == old_fields[k] by {}
                    assert(json_entry_views(fields@) =~= before.push((key@, v@)));
                }
            },
        }
        i = i + 1;
    }
    assert(defs.take(i as int) =~= defs);
    Ok(ObjectRow { object_id, fields })
}

/// Once a prefix of the fields fails, all of them fail the same way.
proof fn lemma_row_fields_prefix_err(
    object: Seq<(Seq<char>, JsonView)>,
    defs: Seq<(Seq<char>, Seq<char>)>,
    n: int,
)
    requires
        0 <= n <= defs.len(),
        row_fields(object, defs.take(n)) is Err,
    ensures
        row_fields(object, defs) == row_fields(object, defs.take(n)),
    decreases defs.len() - n,
{
    if n < defs.len() {
        assert(defs.take(n + 1).drop_last() =~= defs.take(n));
        lemma_row_fields_prefix_err(object, defs, n + 1);
    } else {
        assert(defs.take(n) =~= defs);
    }
}

} // verus!
