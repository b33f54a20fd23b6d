//! Catalog-level data model: field types, named fields, and schemas.
//!
//! A schema is an ordered sequence of named, typed fields; it describes the
//! columns a plan node or a columnar batch produces. Schemas are immutable
//! after construction: a node that changes its output columns is replaced by
//! a new node with a new schema.

use vstd::prelude::*;

verus! {

/// The closed set of column types the core moves through its operators.
///
/// Temporal values are carried as plain integers (milliseconds since the
/// epoch for timestamps, milliseconds of duration for intervals), so every
/// cell of a columnar batch is representable as an `i64`.
#[derive(Clone, Copy, Debug, PartialEq, Eq, Structural)]
pub enum DataType {
    Int32,
    Int64,
    Varchar,
    Timestamp,
    Interval,
}

/// One column of a schema: a type together with a column name.
#[derive(Debug)]
pub struct Field {
    pub data_type: DataType,
    pub name: String,
}

impl Clone for Field {
    fn clone(&self) -> (r: Field)
        ensures
            r == *self,
    {
        Field { data_type: self.data_type, name: self.name.clone() }
    }
}

impl Field {
    /// Build a field from its type and name.
    pub fn with_name(data_type: DataType, name: String) -> (r: Field)
        ensures
            r.data_type == data_type,
            r.name@ == name@,
    {
        Field { data_type, name }
    }

    /// Build an unnamed field from its type alone.
    pub fn unnamed(data_type: DataType) -> (r: Field)
        ensures
            r.data_type == data_type,
            r.name@.len() == 0,
    {
        Field { data_type, name: String::new() }
    }
}

/// An ordered sequence of named, typed fields.
#[derive(Debug)]
pub struct Schema {
    pub fields: Vec<Field>,
}

impl Clone for Schema {
    fn clone(&self) -> (r: Schema)
        ensures
            r.fields@ == self.fields@,
    {
        let fields = self.fields.clone();
        proof {
            assert(fields@ =~= self.fields@);
        }
        Schema { fields }
    }
}

impl Schema {
    /// The sequence of column types of this schema, in column order.
    pub open spec fn types(self) -> Seq<DataType> {
        self.fields@.map_values(|f: Field| f.data_type)
    }

    /// Build a schema from its fields.
    pub fn new(fields: Vec<Field>) -> (r: Schema)
        ensures
            r.fields@ == fields@,
    {
        Schema { fields }
    }

    /// The number of columns.
    pub fn len(&self) -> (r: usize)
        ensures
            r == self.fields@.len(),
    {
        self.fields.len()
    }
}

/// One scalar cell of a catalog row; absent cells are carried as `None`
/// around it.
pub enum Scalar {
    Int32(i32),
    Utf8(String),
}

/// One row of a system view.
pub struct Row(pub Vec<Option<Scalar>>);

/// A catalog entry as the read-only listing interface reports it.
pub struct Table {
    pub id: i32,
    pub name: String,
    pub is_materialized_view: bool,
    pub associated_table_id: Option<i32>,
}

/// The schema of the system view listing materialized views: one row per
/// materialized view.
pub fn rw_materialized_view_schema() -> (r: Schema)
    ensures
        r.fields@.len() == 3,
        r.fields@[0].data_type == DataType::Int32,
        r.fields@[1].data_type == DataType::Varchar,
        r.fields@[2].data_type == DataType::Int32,
        r.fields@[0].name@ == "id"@,
        r.fields@[1].name@ == "rel_name"@,
        r.fields@[2].name@ == "associated_table_id"@,
{
    let fields = vec![
        Field::with_name(DataType::Int32, "id".to_string()),
        Field::with_name(DataType::Varchar, "rel_name".to_string()),
        Field::with_name(DataType::Int32, "associated_table_id".to_string()),
    ];
    Schema::new(fields)
}

/// The row the materialized-view listing shows for one catalog entry.
pub open spec fn mv_row(t: Table) -> Seq<Option<Scalar>> {
    seq![
        Some(Scalar::Int32(t.id)),
        Some(Scalar::Utf8(t.name)),
        match t.associated_table_id {
            Some(a) => Some(Scalar::Int32(a)),
            None => None,
        },
    ]
}

/// The catalog entries that are materialized views, in listing order.
pub open spec fn mv_tables(tables: Seq<Table>) -> Seq<Table> {
    tables.filter(|t: Table| t.is_materialized_view)
}

/// List the materialized views the catalog holds: one row per materialized
/// view, in listing order, holding its id, its name, and its associated
/// table id where one exists.
pub fn list_materialized_views(tables: &Vec<Table>) -> (r: Vec<Row>)
    ensures
        r@.len() == mv_tables(tables@).len(),
        forall|i: int| 0 <= i < r@.len() ==> (#[trigger] r@[i]).0@ == mv_row(
            mv_tables(tables@)[i],
        ),
{
    let n = tables.len();
    let mut out: Vec<Row> = Vec::new();
    let mut i: usize = 0;
    proof {
        reveal(Seq::filter);
        assert(tables@.subrange(0, 0) =~= Seq::<Table>::empty());
    }
    while i < n
        invariant
            n == tables@.len(),
            i <= n,
            out@.len() == mv_tables(tables@.subrange(0, i as int)).len(),
            forall|k: int| 0 <= k < out@.len() ==> (#[trigger] out@[k]).0@ == mv_row(
                mv_tables(tables@.subrange(0, i as int))[k],
            ),
        decreases n - i,
    {
        let t = &tables[i];
        if t.is_materialized_view {
            let assoc = match &t.associated_table_id {
                Some(a) => Some(Scalar::Int32(*a)),
                None => None,
            };
            let cells = vec![
                Some(Scalar::Int32(t.id)),
                Some(Scalar::Utf8(t.name.clone())),
                assoc,
            ];
            let row = Row(cells);
            proof {
                assert(row.0@ =~= mv_row(tables@[i as int]));
            }
            out.push(row);
        }
        i += 1;
        proof {
            reveal(Seq::filter);
            let prev = tables@.subrange(0, i - 1);
            let cur = tables@.subrange(0, i as int);
            assert(cur.drop_last() =~= prev);
            assert(cur.last() == tables@[i - 1]);
        }
    }
    proof {
        assert(tables@.subrange(0, n as int) =~= tables@);
    }
    out
}

} // verus!
