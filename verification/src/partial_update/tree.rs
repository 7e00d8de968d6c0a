use vstd::prelude::*;

use crate::ids::{parse_id, parsed_id};
use crate::object_builder::view_plan::lemma_to_set_push;

verus! {

/// A relation of a view, as the schema registry describes it.
#[derive(Debug)]
pub struct Relation {
    pub global_id: String,
    pub relations: Vec<Relation>,
}

/// A view, as the schema registry describes it: its id and its relations.
#[derive(Debug)]
pub struct FullView {
    pub id: String,
    pub relations: Vec<Relation>,
}

/// A question for the edge registry: the tree of a relation and of the relations nested
/// in it, from the given objects (from every object where `filter_ids` is empty).
#[derive(Debug)]
pub struct TreeQuery {
    pub relation_id: String,
    pub relations: Vec<TreeQuery>,
    pub filter_ids: Vec<String>,
}

/// The model of a `TreeQuery`.
pub struct TreeQueryView {
    pub relation_id: Seq<char>,
    pub relations: Seq<TreeQueryView>,
    pub filter_ids: Seq<Seq<char>>,
}

/// The texts of a list of strings.
pub open spec fn texts(s: Seq<String>) -> Seq<Seq<char>> {
    s.map_values(|t: String| t@)
}

pub open spec fn query_view(q: TreeQuery) -> TreeQueryView
    decreases q, 1nat,
{
    TreeQueryView {
        relation_id: q.relation_id@,
        relations: query_views(q.relations@),
        filter_ids: texts(q.filter_ids@),
    }
}

pub open spec fn query_views(s: Seq<TreeQuery>) -> Seq<TreeQueryView>
    decreases s, 0nat,
{
    if s.len() == 0 {
        Seq::empty()
    } else {
        seq![query_view(s[0])] + query_views(s.drop_first())
    }
}

/// The query for a nested relation: its tree and the trees of the relations in it, with no
/// object filter.
pub open spec fn relation_query(r: Relation) -> TreeQueryView
    decreases r, 1nat,
{
    TreeQueryView {
        relation_id: r.global_id@,
        relations: relation_queries(r.relations@),
        filter_ids: Seq::empty(),
    }
}

pub open spec fn relation_queries(s: Seq<Relation>) -> Seq<TreeQueryView>
    decreases s, 0nat,
{
    if s.len() == 0 {
        Seq::empty()
    } else {
        seq![relation_query(s[0])] + relation_queries(s.drop_first())
    }
}

/// The queries for a view: one per top-level relation, in order, each from the given objects.
pub open spec fn view_queries(relations: Seq<Relation>, ids: Seq<Seq<char>>) -> Seq<TreeQueryView> {
    Seq::new(
        relations.len(),
        |i: int|
            TreeQueryView {
                relation_id: relations[i].global_id@,
                relations: relation_queries(relations[i].relations@),
                filter_ids: ids,
            },
    )
}

pub proof fn lemma_query_views(s: Seq<TreeQuery>)
    ensures
        query_views(s).len() == s.len(),
        forall|i: int| 0 <= i < s.len() ==> #[trigger] query_views(s)[i] == query_view(s[i]),
    decreases s.len(),
{
    if s.len() > 0 {
        lemma_query_views(s.drop_first());
        assert forall|i: int| 0 <= i < s.len() implies #[trigger] query_views(s)[i] == query_view(
            s[i],
        ) by {
            if i > 0 {
                assert(s.drop_first()[i - 1] == s[i]);
            }
        }
    }
}

pub proof fn lemma_relation_queries(s: Seq<Relation>)
    ensures
        relation_queries(s).len() == s.len(),
        forall|i: int|
            0 <= i < s.len() ==> #[trigger] relation_queries(s)[i] == relation_query(s[i]),
    decreases s.len(),
{
    if s.len() > 0 {
        lemma_relation_queries(s.drop_first());
        assert forall|i: int| 0 <= i < s.len() implies #[trigger] relation_queries(s)[i]
            == relation_query(s[i]) by {
            if i > 0 {
                assert(s.drop_first()[i - 1] == s[i]);
            }
        }
    }
}

/// A copy of a list of ids.
fn copy_ids(s: &Vec<u128>) -> (r: Vec<u128>)
    ensures
        r@ == s@,
{
    let mut out: Vec<u128> = Vec::new();
    let mut i: usize = 0;
    while i < s.len()
        invariant
            i <= s.len(),
            out@ =~= s@.take(i as int),
        decreases s.len() - i,
    {
        out.push(s[i]);
        i = i + 1;
    }
    assert(s@.take(i as int) =~= s@);
    out
}

/// A copy of a list of strings.
fn copy_texts(s: &Vec<String>) -> (r: Vec<String>)
    ensures
        r@ == s@,
{
    let mut out: Vec<String> = Vec::new();
    let mut i: usize = 0;
    while i < s.len()
        invariant
            i <= s.len(),
            out@ =~= s@.take(i as int),
        decreases s.len() - i,
    {
        out.push(s[i].clone());
        i = i + 1;
    }
    assert(s@.take(i as int) =~= s@);
    out
}

/// The queries for the relations nested in a relation.
#[verifier::loop_isolation(false)]
fn nested_queries(relation: &Relation) -> (r: Vec<TreeQuery>)
    ensures
        query_views(r@) == relation_queries(relation.relations@),
    decreases relation, 0nat,
{
    let mut out: Vec<TreeQuery> = Vec::new();
    let mut i: usize = 0;
    while i < relation.relations.len()
        invariant
            i <= relation.relations.len(),
            out.len() == i,
            forall|j: int|
                0 <= j < i ==> query_view(#[trigger] out@[j]) == relation_query(
                    relation.relations@[j],
                ),
        decreases relation.relations.len() - i,
    {
        proof {
            assert(decreases_to!(relation => relation.relations));
            vstd::std_specs::vec::axiom_vec_index_decreases(relation.relations, i as int);
        }
        let q = relation_to_tree_query(&relation.relations[i]);
        out.push(q);
        i = i + 1;
    }
    proof {
        lemma_query_views(out@);
        lemma_relation_queries(relation.relations@);
        assert(query_views(out@) =~= relation_queries(relation.relations@));
    }
    out
}

/// The query for a nested relation: its id, the queries of the relations in it, and no
/// object filter.
pub fn relation_to_tree_query(relation: &Relation) -> (r: TreeQuery)
    ensures
        query_view(r) == relation_query(*relation),
    decreases relation, 1nat,
{
    let relations = nested_queries(relation);
    let r = TreeQuery {
        relation_id: relation.global_id.clone(),
        relations,
        filter_ids: Vec::new(),
    };
    assert(texts(r.filter_ids@) =~= Seq::<Seq<char>>::empty());
    r
}

/// The queries that find what a change to the given objects touches in a view: one per
/// top-level relation of the view, each restricted to those objects.
pub fn view_to_tree_query(view: &FullView, object_ids: Vec<String>) -> (r: Vec<TreeQuery>)
    ensures
        query_views(r@) == view_queries(view.relations@, texts(object_ids@)),
{
    let mut out: Vec<TreeQuery> = Vec::new();
    let mut i: usize = 0;
    while i < view.relations.len()
        invariant
            i <= view.relations.len(),
            out.len() == i,
            forall|j: int|
                0 <= j < i ==> query_view(#[trigger] out@[j]) == view_queries(
                    view.relations@,
                    texts(object_ids@),
                )[j],
        decreases view.relations.len() - i,
    {
        let relation = &view.relations[i];
        let relations = nested_queries(relation);
        let filter_ids = copy_texts(&object_ids);
        let q = TreeQuery { relation_id: relation.global_id.clone(), relations, filter_ids };
        out.push(q);
        i = i + 1;
    }
    proof {
        lemma_query_views(out@);
        assert(query_views(out@) =~= view_queries(view.relations@, texts(object_ids@)));
    }
    out
}

/// A tree of objects, as the edge registry answers a `TreeQuery`.
#[derive(Debug)]
pub struct TreeResponse {
    pub objects: Vec<TreeObject>,
}

/// An object of a tree: its id, the ids of its children through the relation, and the
/// trees of the nested relations.
#[derive(Debug)]
pub struct TreeObject {
    pub object_id: String,
    pub children: Vec<String>,
    pub subtrees: Vec<TreeResponse>,
}

/// The objects of one schema that a materialization request names.
#[derive(Debug)]
pub struct Schema {
    pub object_ids: Vec<u128>,
}

impl Schema {
    /// Each id occurs once.
    pub open spec fn wf(&self) -> bool {
        self.object_ids@.no_duplicates()
    }

    /// The set of ids.
    pub open spec fn ids(&self) -> Set<u128> {
        self.object_ids@.to_set()
    }

    pub fn new() -> (r: Schema)
        ensures
            r.wf(),
            r.ids() == Set::<u128>::empty(),
    {
        let r = Schema { object_ids: Vec::new() };
        assert(r.ids() =~= Set::<u128>::empty());
        r
    }

    /// Adds an id to the set.
    pub fn insert(&mut self, id: u128)
        requires
            old(self).wf(),
        ensures
            final(self).wf(),
            final(self).ids() == old(self).ids().insert(id),
    {
        let mut i: usize = 0;
        while i < self.object_ids.len()
            invariant
                i <= self.object_ids.len(),
                self.object_ids@ == old(self).object_ids@,
                self.wf(),
                forall|j: int| 0 <= j < i ==> self.object_ids@[j] != id,
            decreases self.object_ids.len() - i,
        {
            if self.object_ids[i] == id {
                proof {
                    assert(self.object_ids@.contains(id));
                    assert(self.ids().insert(id) =~= self.ids());
                }
                return;
            }
            i = i + 1;
        }
        let ghost before = self.object_ids@;
        self.object_ids.push(id);
        proof {
            lemma_to_set_push(before, id);
        }
    }
}

/// How reading the ids of a tree into a set ends.
pub enum TreeWalk {
    /// Every id was read; the set after them.
    Done(Set<u128>),
    /// A child id could not be read: the set up to it, and its text.
    Failed(Set<u128>, Seq<char>),
    /// An object id could not be read.
    Unreadable,
}

/// Reads child ids in order into the set, up to the first that cannot be read.
pub open spec fn walk_ids(ids: Seq<String>, acc: Set<u128>) -> TreeWalk
    decreases ids.len(),
{
    if ids.len() == 0 {
        TreeWalk::Done(acc)
    } else {
        match parsed_id(ids[0]@) {
            None => TreeWalk::Failed(acc, ids[0]@),
            Some(id) => walk_ids(ids.drop_first(), acc.insert(id)),
        }
    }
}

/// Reads an object: its id, then its children, then its subtrees.
pub open spec fn walk_object(o: TreeObject, acc: Set<u128>) -> TreeWalk
    decreases o, 2nat,
{
    match parsed_id(o.object_id@) {
        None => TreeWalk::Unreadable,
        Some(id) => match walk_ids(o.children@, acc.insert(id)) {
            TreeWalk::Done(a) => walk_responses(o.subtrees@, a),
            other => other,
        },
    }
}

/// Reads the objects of each tree in turn.
pub open spec fn walk_responses(rs: Seq<TreeResponse>, acc: Set<u128>) -> TreeWalk
    decreases rs, 1nat,
{
    if rs.len() == 0 {
        TreeWalk::Done(acc)
    } else {
        match walk_objects(rs[0].objects@, acc) {
            TreeWalk::Done(a) => walk_responses(rs.drop_first(), a),
            other => other,
        }
    }
}

/// Reads objects in turn.
pub open spec fn walk_objects(os: Seq<TreeObject>, acc: Set<u128>) -> TreeWalk
    decreases os, 0nat,
{
    if os.len() == 0 {
        TreeWalk::Done(acc)
    } else {
        match walk_object(os[0], acc) {
            TreeWalk::Done(a) => walk_objects(os.drop_first(), a),
            other => other,
        }
    }
}

/// A child id that could not be read as an identifier.
#[derive(Debug, PartialEq)]
pub struct MalformedId {
    pub text: String,
}

/// How `walk_objects_exec` ended.
enum Walked {
    Done,
    Failed(String),
    Unreadable,
}

spec fn walked_matches(w: Walked, outcome: TreeWalk, ids: Set<u128>) -> bool {
    match w {
        Walked::Done => outcome == TreeWalk::Done(ids),
        Walked::Failed(t) => outcome == TreeWalk::Failed(ids, t@),
        Walked::Unreadable => outcome is Unreadable,
    }
}

fn walk_ids_exec(ids: &Vec<String>, schema: &mut Schema) -> (w: Walked)
    requires
        old(schema).wf(),
    ensures
        final(schema).wf(),
        walked_matches(w, walk_ids(ids@, old(schema).ids()), final(schema).ids()),
{
    let mut i: usize = 0;
    assert(ids@.skip(0) =~= ids@);
    while i < ids.len()
        invariant
            i <= ids.len(),
            schema.wf(),
            walk_ids(ids@, old(schema).ids()) == walk_ids(ids@.skip(i as int), schema.ids()),
        decreases ids.len() - i,
    {
        assert(ids@.skip(i as int)[0] == ids@[i as int]);
        assert(ids@.skip(i as int).drop_first() =~= ids@.skip(i + 1));
        match parse_id(ids[i].as_str()) {
            None => {
                return Walked::Failed(ids[i].clone());
            },
            Some(id) => {
                schema.insert(id);
            },
        }
        i = i + 1;
    }
    Walked::Done
}

fn walk_object_exec(o: &TreeObject, schema: &mut Schema) -> (w: Walked)
    requires
        old(schema).wf(),
    ensures
        final(schema).wf(),
        walked_matches(w, walk_object(*o, old(schema).ids()), final(schema).ids()),
    decreases o, 2nat,
{
    match parse_id(o.object_id.as_str()) {
        None => Walked::Unreadable,
        Some(id) => {
            schema.insert(id);
            let w = walk_ids_exec(&o.children, schema);
            match w {
                Walked::Done => {
                    proof {
                        assert(decreases_to!(o => o.subtrees));
                    }
                    walk_responses_exec(&o.subtrees, schema)
                },
                _ => w,
            }
        },
    }
}

#[verifier::loop_isolation(false)]
fn walk_responses_exec(rs: &Vec<TreeResponse>, schema: &mut Schema) -> (w: Walked)
    requires
        old(schema).wf(),
    ensures
        final(schema).wf(),
        walked_matches(w, walk_responses(rs@, old(schema).ids()), final(schema).ids()),
    decreases rs, 1nat,
{
    let mut i: usize = 0;
    assert(rs@.skip(0) =~= rs@);
    while i < rs.len()
        invariant
            i <= rs.len(),
            schema.wf(),
            walk_responses(rs@, old(schema).ids()) == walk_responses(rs@.skip(i as int), schema.ids()),
        decreases rs.len() - i,
    {
        assert(rs@.skip(i as int)[0] == rs@[i as int]);
        assert(rs@.skip(i as int).drop_first() =~= rs@.skip(i + 1));
        proof {
            vstd::std_specs::vec::axiom_vec_index_decreases(*rs, i as int);
        }
        let w = walk_objects_exec(&rs[i].objects, schema);
        match w {
            Walked::Done => {},
            _ => {
                return w;
            },
        }
        i = i + 1;
    }
    Walked::Done
}

#[verifier::loop_isolation(false)]
fn walk_objects_exec(os: &Vec<TreeObject>, schema: &mut Schema) -> (w: Walked)
    requires
        old(schema).wf(),
    ensures
        final(schema).wf(),
        walked_matches(w, walk_objects(os@, old(schema).ids()), final(schema).ids()),
    decreases os, 0nat,
{
    let mut i: usize = 0;
    assert(os@.skip(0) =~= os@);
    while i < os.len()
        invariant
            i <= os.len(),
            schema.wf(),
            walk_objects(os@, old(schema).ids()) == walk_objects(os@.skip(i as int), schema.ids()),
        decreases os.len() - i,
    {
        assert(os@.skip(i as int)[0] == os@[i as int]);
        assert(os@.skip(i as int).drop_first() =~= os@.skip(i + 1));
        proof {
            vstd::std_specs::vec::axiom_vec_index_decreases(*os, i as int);
        }
        let w = walk_object_exec(&os[i], schema);
        match w {
            Walked::Done => {},
            _ => {
                return w;
            },
        }
        i = i + 1;
    }
    Walked::Done
}

/// Adds every object of a tree to the set of a schema: each object, then its children,
/// then its subtrees, depth first. A child id that is not an identifier ends the walk
/// with an error; the ids read before it stay in the set.
///
/// An object id that is not an identifier is a broken answer of the edge registry, which
/// is not handled: `requires` leaves it out (see `try_process_tree_response`).
pub fn process_tree_response(tree_response: TreeResponse, schema: &mut Schema) -> (r: Result<
    (),
    MalformedId,
>)
    requires
        old(schema).wf(),
        !(walk_objects(tree_response.objects@, old(schema).ids()) is Unreadable),
    ensures
        final(schema).wf(),
        match walk_objects(tree_response.objects@, old(schema).ids()) {
            TreeWalk::Done(ids) => r is Ok && final(schema).ids() == ids,
            TreeWalk::Failed(ids, text) => r matches Err(e) && e.text@ == text
                && final(schema).ids() == ids,
            TreeWalk::Unreadable => false,
        },
{
    match walk_objects_exec(&tree_response.objects, schema) {
        Walked::Done => Ok(()),
        Walked::Failed(text) => Err(MalformedId { text }),
        Walked::Unreadable => {
            proof {
                assert(false);
            }
            Ok(())
        },
    }
}

/// `process_tree_response` where every object id of the tree reads as an identifier;
/// `None`, and the schema unchanged, where one does not.
pub fn try_process_tree_response(tree_response: TreeResponse, schema: &mut Schema) -> (r: Option<
    Result<(), MalformedId>,
>)
    requires
        old(schema).wf(),
    ensures
        final(schema).wf(),
        match walk_objects(tree_response.objects@, old(schema).ids()) {
            TreeWalk::Done(ids) => r matches Some(Ok(_)) && final(schema).ids() == ids,
            TreeWalk::Failed(ids, text) => r matches Some(Err(e)) && e.text@ == text
                && final(schema).ids() == ids,
            TreeWalk::Unreadable => r is None && *final(schema) == *old(schema),
        },
{
    let mut scratch = Schema { object_ids: copy_ids(&schema.object_ids) };
    match walk_objects_exec(&tree_response.objects, &mut scratch) {
        Walked::Unreadable => None,
        _ => Some(process_tree_response(tree_response, schema)),
    }
}

} // verus!
