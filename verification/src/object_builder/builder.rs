use vstd::prelude::*;

use crate::ids::{id_text, id_to_string};
use crate::json::{json_view, JsonValue, JsonView};
use crate::object_builder::model::{FullView, Relation};
use crate::object_builder::row_builder::RowDefinition;
use crate::partial_update::tree::{query_view, query_views, lemma_query_views, texts, Schema, TreeQuery, TreeQueryView};

verus! {

/// The texts of ids.
pub open spec fn id_texts(ids: Seq<u128>) -> Seq<Seq<char>> {
    ids.map_values(|u: u128| id_text(u))
}

/// The query of a relation of a view and the relations nested in it, every one restricted to
/// the same objects.
pub open spec fn resolve_query(r: Relation, filters: Seq<Seq<char>>) -> TreeQueryView
    decreases r, 1nat,
{
    TreeQueryView {
        relation_id: id_text(r.global_id),
        relations: resolve_queries(r.relations@, filters),
        filter_ids: filters,
    }
}

pub open spec fn resolve_queries(s: Seq<Relation>, filters: Seq<Seq<char>>) -> Seq<TreeQueryView>
    decreases s, 0nat,
{
    if s.len() == 0 {
        Seq::empty()
    } else {
        seq![resolve_query(s[0], filters)] + resolve_queries(s.drop_first(), filters)
    }
}

pub proof fn lemma_resolve_queries(s: Seq<Relation>, filters: Seq<Seq<char>>)
    ensures
        resolve_queries(s, filters).len() == s.len(),
        forall|i: int|
            0 <= i < s.len() ==> #[trigger] resolve_queries(s, filters)[i] == resolve_query(s[i], filters),
    decreases s.len(),
{
    if s.len() > 0 {
        lemma_resolve_queries(s.drop_first(), filters);
        assert forall|i: int| 0 <= i < s.len() implies #[trigger] resolve_queries(s, filters)[i]
            == resolve_query(s[i], filters) by {
            if i > 0 {
                assert(s.drop_first()[i - 1] == s[i]);
            }
        }
    }
}

/// The texts of the object filters.
pub fn filter_texts(object_filters: &Vec<u128>) -> (r: Vec<String>)
    ensures
        texts(r@) == id_texts(object_filters@),
{
    let mut out: Vec<String> = Vec::new();
    let mut i: usize = 0;
    while i < object_filters.len()
        invariant
            i <= object_filters.len(),
            out@.len() == i,
            forall|k: int| 0 <= k < i ==> (#[trigger] out@[k])@ == id_text(object_filters@[k]),
        decreases object_filters.len() - i,
    {
        out.push(id_to_string(object_filters[i]));
        i = i + 1;
    }
    assert(texts(out@) =~= id_texts(object_filters@));
    out
}

fn copy_texts(s: &Vec<String>) -> (r: Vec<String>)
    ensures
        r@ == s@,
{
    let mut out: Vec<String> = Vec::new();
    let mut i: usize = 0;
    while i < s.len()
        invariant
            i <= s.len(),
            out@ =~= s@.take(i as int),
        decreases s.len() - i,
    {
        out.push(s[i].clone());
        i = i + 1;
    }
    assert(s@.take(i as int) =~= s@);
    out
}

/// The query for the edge registry of a relation and the relations nested in it, every one
/// restricted to the objects given as text.
#[verifier::loop_isolation(false)]
pub fn into_resolve_tree_request(relation: &Relation, filters: &Vec<String>) -> (r: TreeQuery)
    ensures
        query_view(r) == resolve_query(*relation, texts(filters@)),
    decreases relation,
{
    let mut relations: Vec<TreeQuery> = Vec::new();
    let mut i: usize = 0;
    while i < relation.relations.len()
        invariant
            i <= relation.relations.len(),
            relations.len() == i,
            forall|j: int|
                0 <= j < i ==> query_view(#[trigger] relations@[j]) == resolve_query(
                    relation.relations@[j],
                    texts(filters@),
                ),
        decreases relation.relations.len() - i,
    {
        proof {
            assert(decreases_to!(relation => relation.relations));
            vstd::std_specs::vec::axiom_vec_index_decreases(relation.relations, i as int);
        }
        let q = into_resolve_tree_request(&relation.relations[i], filters);
        relations.push(q);
        i = i + 1;
    }
    proof {
        lemma_query_views(relations@);
        lemma_resolve_queries(relation.relations@, texts(filters@));
        assert(query_views(relations@) =~= resolve_queries(relation.relations@, texts(filters@)));
    }
    TreeQuery {
        relation_id: id_to_string(relation.global_id),
        relations,
        filter_ids: copy_texts(filters),
    }
}

/// The queries for the edge registry that resolve the relations of a view: one per
/// top-level relation, in order, each restricted to the objects.
pub fn resolve_tree_requests(view: &FullView, object_filters: &Vec<u128>) -> (r: Vec<TreeQuery>)
    ensures
        query_views(r@) == resolve_queries(view.relations@, id_texts(object_filters@)),
{
    let filters = filter_texts(object_filters);
    let mut out: Vec<TreeQuery> = Vec::new();
    let mut i: usize = 0;
    while i < view.relations.len()
        invariant
            i <= view.relations.len(),
            texts(filters@) == id_texts(object_filters@),
            out@.len() == i,
            forall|j: int|
                0 <= j < i ==> query_view(#[trigger] out@[j]) == resolve_query(
                    view.relations@[j],
                    id_texts(object_filters@),
                ),
        decreases view.relations.len() - i,
    {
        out.push(into_resolve_tree_request(&view.relations[i], &filters));
        i = i + 1;
    }
    proof {
        lemma_query_views(out@);
        lemma_resolve_queries(view.relations@, id_texts(object_filters@));
        assert(query_views(out@) =~= resolve_queries(view.relations@, id_texts(object_filters@)));
    }
    out
}

/// The objects named by the schemas of a request, schema after schema.
pub open spec fn object_filters_of(schemas: Seq<(u128, Schema)>) -> Seq<u128>
    decreases schemas.len(),
{
    if schemas.len() == 0 {
        Seq::empty()
    } else {
        object_filters_of(schemas.drop_last()) + schemas.last().1.object_ids@
    }
}

/// Every object that the schemas of a request name, schema after schema.
pub fn create_object_filters(schemas: &Vec<(u128, Schema)>) -> (r: Vec<u128>)
    ensures
        r@ == object_filters_of(schemas@),
{
    let mut out: Vec<u128> = Vec::new();
    let mut i: usize = 0;
    assert(schemas@.take(0) =~= Seq::<(u128, Schema)>::empty());
    while i < schemas.len()
        invariant
            i <= schemas.len(),
            out@ == object_filters_of(schemas@.take(i as int)),
        decreases schemas.len() - i,
    {
        let ids = &schemas[i].1.object_ids;
        let ghost before = out@;
        let mut k: usize = 0;
        while k < ids.len()
            invariant
                k <= ids.len(),
                out@ == before + ids@.take(k as int),
            decreases ids.len() - k,
        {
            out.push(ids[k]);
            assert(ids@.take(k + 1) =~= ids@.take(k as int).push(ids@[k as int]));
            k = k + 1;
        }
        assert(ids@.take(k as int) =~= ids@);
        assert(schemas@.take(i + 1).drop_last() =~= schemas@.take(i as int));
        i = i + 1;
    }
    assert(schemas@.take(i as int) =~= schemas@);
    out
}

/// Rows cut into chunks of the capacity, in order; the last may be shorter.
pub open spec fn chunks_of<A>(rows: Seq<A>, capacity: nat) -> Seq<Seq<A>>
    recommends
        capacity > 0,
    decreases rows.len(),
    when capacity > 0
{
    if rows.len() == 0 {
        Seq::empty()
    } else if rows.len() <= capacity {
        seq![rows]
    } else {
        seq![rows.take(capacity as int)] + chunks_of(rows.skip(capacity as int), capacity)
    }
}

/// The rows of the chunks, in order.
pub open spec fn unchunk<A>(chunks: Seq<Seq<A>>) -> Seq<A>
    decreases chunks.len(),
{
    if chunks.len() == 0 {
        Seq::empty()
    } else {
        chunks[0] + unchunk(chunks.drop_first())
    }
}

/// Chunking loses no row and keeps their order; every chunk holds between one row and the
/// capacity, and all but the last hold exactly the capacity.
pub proof fn law_chunks_keep_rows<A>(rows: Seq<A>, capacity: nat)
    requires
        capacity > 0,
    ensures
        unchunk(chunks_of(rows, capacity)) == rows,
        forall|i: int|
            0 <= i < chunks_of(rows, capacity).len() ==> 0 < (#[trigger] chunks_of(rows, capacity)[i]).len()
                <= capacity,
        forall|i: int|
            0 <= i < chunks_of(rows, capacity).len() - 1 ==> (#[trigger] chunks_of(rows, capacity)[i]).len()
                == capacity,
    decreases rows.len(),
{
    if rows.len() == 0 {
    } else if rows.len() <= capacity {
        let c = chunks_of(rows, capacity);
        assert(c == seq![rows]);
        assert(c[0] == rows);
        assert(c.drop_first() =~= Seq::<Seq<A>>::empty());
        assert(unchunk(c.drop_first()) == Seq::<A>::empty());
        assert(unchunk(c) =~= rows + Seq::<A>::empty());
    } else {
        let rest = rows.skip(capacity as int);
        law_chunks_keep_rows(rest, capacity);
        let c = chunks_of(rows, capacity);
        assert(c.drop_first() =~= chunks_of(rest, capacity));
        assert(rows.take(capacity as int) + rest =~= rows);
        assert forall|i: int| 0 <= i < c.len() implies 0 < (#[trigger] c[i]).len() <= capacity by {
            if i > 0 {
                assert(c[i] == chunks_of(rest, capacity)[i - 1]);
            }
        }
        assert forall|i: int| 0 <= i < c.len() - 1 implies (#[trigger] c[i]).len() == capacity by {
            if i > 0 {
                assert(c[i] == chunks_of(rest, capacity)[i - 1]);
            }
        }
    }
}

/// A materialized chunk of a view: its id, the materializer's options and rows.
#[derive(Debug)]
pub struct MaterializedView {
    pub view_id: u128,
    pub options: JsonValue,
    pub rows: Vec<RowDefinition>,
}

/// The rows of a view cut into materialized chunks of the capacity (see `chunks_of`).
pub fn build_materialized_chunks(view: &FullView, rows: Vec<RowDefinition>, capacity: usize) -> (r: Vec<
    MaterializedView,
>)
    requires
        capacity > 0,
    ensures
        r@.map_values(|m: MaterializedView| m.rows@) == chunks_of(rows@, capacity as nat),
        forall|i: int|
            0 <= i < r@.len() ==> (#[trigger] r@[i]).view_id == view.id && json_view(r@[i].options)
                == json_view(view.materializer_options),
{
    let ghost all = rows@;
    let mut rest = rows;
    let mut out: Vec<MaterializedView> = Vec::new();
    assert(out@.map_values(|m: MaterializedView| m.rows@) =~= Seq::<Seq<RowDefinition>>::empty());
    while rest.len() > 0
        invariant
            capacity > 0,
            chunks_of(all, capacity as nat) == out@.map_values(|m: MaterializedView| m.rows@) + chunks_of(
                rest@,
                capacity as nat,
            ),
            forall|i: int|
                0 <= i < out@.len() ==> (#[trigger] out@[i]).view_id == view.id && json_view(
                    out@[i].options,
                ) == json_view(view.materializer_options),
        decreases rest.len(),
    {
        let ghost before = out@.map_values(|m: MaterializedView| m.rows@);
        let ghost r0 = rest@;
        let chunk: Vec<RowDefinition>;
        if rest.len() <= capacity {
            chunk = rest;
            rest = Vec::new();
            assert(chunks_of(r0, capacity as nat) == seq![r0]);
        } else {
            let tail = rest.split_off(capacity);
            chunk = rest;
            rest = tail;
            assert(chunks_of(r0, capacity as nat) == seq![r0.take(capacity as int)] + chunks_of(
                r0.skip(capacity as int),
                capacity as nat,
            ));
            assert(chunk@ =~= r0.take(capacity as int));
            assert(rest@ =~= r0.skip(capacity as int));
        }
        let ghost c = chunk@;
        let ghost old_out = out@;
        out.push(MaterializedView { view_id: view.id, options: view.materializer_options.duplicate(), rows: chunk });
        proof {
            assert(out@.map_values(|m: MaterializedView| m.rows@) =~= before.push(c));
            assert(before + (seq![c] + chunks_of(rest@, capacity as nat)) =~= before.push(c) + chunks_of(
                rest@,
                capacity as nat,
            ));
            assert forall|i: int| 0 <= i < out@.len() implies (#[trigger] out@[i]).view_id == view.id
                && json_view(out@[i].options) == json_view(view.materializer_options) by {
                if i < old_out.len() {
                    assert(out@[i] == old_out[i]);
                }
            }
        }
    }
    assert(chunks_of(rest@, capacity as nat) =~= Seq::<Seq<RowDefinition>>::empty());
    assert(out@.map_values(|m: MaterializedView| m.rows@) + Seq::<Seq<RowDefinition>>::empty()
        =~= out@.map_values(|m: MaterializedView| m.rows@));
    out
}

/// How the objects of a schema are asked of its query service.
#[derive(Debug, PartialEq)]
pub enum ObjectQuery {
    /// Every object of the schema.
    BySchema,
    /// The objects with these ids (as text).
    Multiple(Vec<String>),
}

/// Why the objects of a schema cannot be asked for.
#[derive(Debug, PartialEq)]
pub enum ObjectQueryError {
    /// Timeseries storage is not supported yet.
    TimeseriesNotSupported,
}

/// How to ask for the objects of a schema: documents by schema where no object is named,
/// else by their ids; timeseries are not supported.
pub fn object_query(schema_type: crate::schema_registry::types::SchemaType, object_ids: &Vec<u128>) -> (r: Result<
    ObjectQuery,
    ObjectQueryError,
>)
    ensures
        match schema_type {
            crate::schema_registry::types::SchemaType::Timeseries => r == Err::<ObjectQuery, ObjectQueryError>(
                ObjectQueryError::TimeseriesNotSupported,
            ),
            crate::schema_registry::types::SchemaType::DocumentStorage => if object_ids@.len() == 0 {
                r == Ok::<ObjectQuery, ObjectQueryError>(ObjectQuery::BySchema)
            } else {
                r matches Ok(ObjectQuery::Multiple(ids)) && texts(ids@) == id_texts(object_ids@)
            },
        },
{
    match schema_type {
        crate::schema_registry::types::SchemaType::Timeseries => Err(
            ObjectQueryError::TimeseriesNotSupported,
        ),
        crate::schema_registry::types::SchemaType::DocumentStorage => {
            if object_ids.len() == 0 {
                Ok(ObjectQuery::BySchema)
            } else {
                Ok(ObjectQuery::Multiple(filter_texts(object_ids)))
            }
        },
    }
}

/// The object builder: where it finds the registries, and how many rows a chunk holds.
#[derive(Clone, Debug)]
pub struct ObjectBuilderImpl {
    schema_registry_url: String,
    edge_registry_url: String,
    chunk_capacity: usize,
}

impl ObjectBuilderImpl {
    pub closed spec fn chunk_capacity_spec(&self) -> usize {
        self.chunk_capacity
    }

    /// The address of the schema registry.
    pub closed spec fn schema_registry(&self) -> Seq<char> {
        self.schema_registry_url@
    }

    /// The address of the edge registry.
    pub closed spec fn edge_registry(&self) -> Seq<char> {
        self.edge_registry_url@
    }

    pub fn new(schema_registry_url: String, edge_registry_url: String, chunk_capacity: usize) -> (r: Self)
        ensures
            r.chunk_capacity_spec() == chunk_capacity,
            r.schema_registry() == schema_registry_url@,
            r.edge_registry() == edge_registry_url@,
    {
        Self { schema_registry_url, edge_registry_url, chunk_capacity }
    }

    pub fn chunk_capacity(&self) -> (r: usize)
        ensures
            r == self.chunk_capacity_spec(),
    {
        self.chunk_capacity
    }

    pub fn schema_registry_url(&self) -> (r: &str)
        ensures
            r@ == self.schema_registry(),
    {
        self.schema_registry_url.as_str()
    }

    pub fn edge_registry_url(&self) -> (r: &str)
        ensures
            r@ == self.edge_registry(),
    {
        self.edge_registry_url.as_str()
    }
}

} // verus!
