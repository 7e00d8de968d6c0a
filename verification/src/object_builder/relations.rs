use vstd::prelude::*;

use crate::object_builder::model::{
    base_object_of, FullView, ObjectIdPair, Relation, SearchFor, TreeObject, TreeResponse,
};

verus! {

/// Why the relations of a view could not be followed.
#[derive(Clone, Copy, PartialEq, Eq, Structural, Debug)]
pub enum RelationError {
    /// The view has no relation with this local id.
    RelationNotFound(u8),
    /// A relation was needed but no edges were given.
    NoEdges,
    /// The edges hold no tree object for the relation with this local id.
    RelationNotInEdges(u8),
    /// An array field must name a relation (a local id above zero).
    ArrayNeedsRelation,
    /// A single object was asked for through a relation to children.
    SingleObjectFromChildren,
}

/// The relation with the given local id: this one or one nested in it, depth first.
pub open spec fn find_relation(r: Relation, id: u8) -> Option<Relation>
    decreases r, 1nat,
{
    if r.local_id == id {
        Some(r)
    } else {
        find_relation_in(r.relations@, id)
    }
}

/// The first relation, depth first, with the given local id.
pub open spec fn find_relation_in(rs: Seq<Relation>, id: u8) -> Option<Relation>
    decreases rs, 0nat,
{
    if rs.len() == 0 {
        None
    } else {
        match find_relation(rs[0], id) {
            Some(x) => Some(x),
            None => find_relation_in(rs.drop_first(), id),
        }
    }
}

/// The tree object of the given relation: this one or one in its subtrees, depth first.
pub open spec fn find_tree_object(t: TreeObject, global_id: u128) -> Option<TreeObject>
    decreases t, 2nat,
{
    if t.relation_id == global_id {
        Some(t)
    } else {
        find_tree_in_responses(t.subtrees@, global_id)
    }
}

pub open spec fn find_tree_in_responses(rs: Seq<TreeResponse>, global_id: u128) -> Option<TreeObject>
    decreases rs, 1nat,
{
    if rs.len() == 0 {
        None
    } else {
        match find_tree_in_objects(rs[0].objects@, global_id) {
            Some(x) => Some(x),
            None => find_tree_in_responses(rs.drop_first(), global_id),
        }
    }
}

pub open spec fn find_tree_in_objects(os: Seq<TreeObject>, global_id: u128) -> Option<TreeObject>
    decreases os, 0nat,
{
    if os.len() == 0 {
        None
    } else {
        match find_tree_object(os[0], global_id) {
            Some(x) => Some(x),
            None => find_tree_in_objects(os.drop_first(), global_id),
        }
    }
}

/// The objects that a relation reaches from a tree object: its children, or its parent.
pub open spec fn reached_objects(search_for: SearchFor, t: TreeObject) -> Seq<ObjectIdPair> {
    match search_for {
        SearchFor::Children => t.children@.map_values(
            |c: u128| ObjectIdPair { schema_id: t.relation.child_schema_id, object_id: c },
        ),
        SearchFor::Parents => seq![base_object_of(t)],
    }
}

/// The tree object for a relation of a view, where `id` names one (is not zero).
pub open spec fn tree_object_for(view: FullView, id: u8, tree: Option<TreeObject>) -> Result<
    TreeObject,
    RelationError,
> {
    match find_relation_in(view.relations@, id) {
        None => Err(RelationError::RelationNotFound(id)),
        Some(rel) => match tree {
            None => Err(RelationError::NoEdges),
            Some(t) => match find_tree_object(t, rel.global_id) {
                None => Err(RelationError::RelationNotInEdges(id)),
                Some(found) => Ok(found),
            },
        },
    }
}

/// What `find_tree_object_for_relation` gives.
pub open spec fn tree_object_for_relation(view: FullView, id: u8, tree: Option<TreeObject>) -> Result<
    Option<TreeObject>,
    RelationError,
> {
    if id == 0 {
        Ok(None)
    } else {
        match tree_object_for(view, id, tree) {
            Ok(t) => Ok(Some(t)),
            Err(e) => Err(e),
        }
    }
}

/// What `get_objects_ids_for_relation` gives: `None` for the base object (relation `0`).
pub open spec fn objects_for_relation(view: FullView, id: u8, tree: Option<TreeObject>) -> Result<
    Option<Seq<ObjectIdPair>>,
    RelationError,
> {
    if id == 0 {
        Ok(None)
    } else {
        match tree_object_for(view, id, tree) {
            Ok(t) => Ok(
                Some(reached_objects(find_relation_in(view.relations@, id).unwrap().search_for, t)),
            ),
            Err(e) => Err(e),
        }
    }
}

pub open spec fn opt_ref_is<T>(r: Option<&T>, s: Option<T>) -> bool {
    match r {
        Some(x) => s == Some(*x),
        None => s is None,
    }
}

/// Finds the relation with the given local id in a relation and the relations nested in it.
pub fn find_relation_exec<'a>(relation: &'a Relation, id: u8) -> (r: Option<&'a Relation>)
    ensures
        opt_ref_is(r, find_relation(*relation, id)),
    decreases relation,
{
    if relation.local_id == id {
        return Some(relation);
    }
    find_relation_in_exec(&relation.relations, id)
}

/// Finds the first relation, depth first, with the given local id.
pub fn find_relation_in_exec<'a>(relations: &'a Vec<Relation>, id: u8) -> (r: Option<&'a Relation>)
    ensures
        opt_ref_is(r, find_relation_in(relations@, id)),
    decreases relations, 0nat,
{
    let mut i: usize = 0;
    assert(relations@.skip(0) =~= relations@);
    while i < relations.len()
        invariant
            i <= relations.len(),
            find_relation_in(relations@, id) == find_relation_in(relations@.skip(i as int), id),
        decreases relations.len() - i,
    {
        assert(relations@.skip(i as int).drop_first() =~= relations@.skip(i + 1));
        assert(relations@.skip(i as int)[0] == relations@[i as int]);
        proof {
            vstd::std_specs::vec::axiom_vec_index_decreases(*relations, i as int);
        }
        let found = find_relation_exec(&relations[i], id);
        if found.is_some() {
            return found;
        }
        i = i + 1;
    }
    None
}

/// Finds the tree object of the given relation in a tree object and its subtrees.
pub fn find_tree_object_exec<'a>(t: &'a TreeObject, global_id: u128) -> (r: Option<&'a TreeObject>)
    ensures
        opt_ref_is(r, find_tree_object(*t, global_id)),
    decreases t, 2nat,
{
    if t.relation_id == global_id {
        return Some(t);
    }
    find_tree_in_responses_exec(&t.subtrees, global_id)
}

fn find_tree_in_responses_exec<'a>(rs: &'a Vec<TreeResponse>, global_id: u128) -> (r: Option<
    &'a TreeObject,
>)
    ensures
        opt_ref_is(r, find_tree_in_responses(rs@, global_id)),
    decreases rs, 1nat,
{
    let mut i: usize = 0;
    assert(rs@.skip(0) =~= rs@);
    while i < rs.len()
        invariant
            i <= rs.len(),
            find_tree_in_responses(rs@, global_id) == find_tree_in_responses(
                rs@.skip(i as int),
                global_id,
            ),
        decreases rs.len() - i,
    {
        assert(rs@.skip(i as int).drop_first() =~= rs@.skip(i + 1));
        assert(rs@.skip(i as int)[0] == rs@[i as int]);
        proof {
            vstd::std_specs::vec::axiom_vec_index_decreases(*rs, i as int);
        }
        let found = find_tree_in_objects_exec(&rs[i].objects, global_id);
        if found.is_some() {
            return found;
        }
        i = i + 1;
    }
    None
}

fn find_tree_in_objects_exec<'a>(os: &'a Vec<TreeObject>, global_id: u128) -> (r: Option<
    &'a TreeObject,
>)
    ensures
        opt_ref_is(r, find_tree_in_objects(os@, global_id)),
    decreases os, 0nat,
{
    let mut i: usize = 0;
    assert(os@.skip(0) =~= os@);
    while i < os.len()
        invariant
            i <= os.len(),
            find_tree_in_objects(os@, global_id) == find_tree_in_objects(os@.skip(i as int), global_id),
        decreases os.len() - i,
    {
        assert(os@.skip(i as int).drop_first() =~= os@.skip(i + 1));
        assert(os@.skip(i as int)[0] == os@[i as int]);
        proof {
            vstd::std_specs::vec::axiom_vec_index_decreases(*os, i as int);
        }
        let found = find_tree_object_exec(&os[i], global_id);
        if found.is_some() {
            return found;
        }
        i = i + 1;
    }
    None
}

} // verus!

verus! {

/// The objects that a relation reaches from a tree object.
pub fn reached_objects_exec(search_for: SearchFor, t: &TreeObject) -> (r: Vec<ObjectIdPair>)
    ensures
        r@ == reached_objects(search_for, *t),
{
    match search_for {
        SearchFor::Children => {
            let schema_id = t.relation.child_schema_id;
            let mut out: Vec<ObjectIdPair> = Vec::new();
            let mut i: usize = 0;
            while i < t.children.len()
                invariant
                    i <= t.children.len(),
                    schema_id == t.relation.child_schema_id,
                    out@ =~= t.children@.take(i as int).map_values(
                        |c: u128| ObjectIdPair { schema_id: t.relation.child_schema_id, object_id: c },
                    ),
                decreases t.children.len() - i,
            {
                out.push(ObjectIdPair { schema_id, object_id: t.children[i] });
                i = i + 1;
            }
            assert(t.children@.take(i as int) =~= t.children@);
            out
        },
        SearchFor::Parents => {
            let mut out: Vec<ObjectIdPair> = Vec::new();
            out.push(ObjectIdPair { schema_id: t.relation.parent_schema_id, object_id: t.object_id });
            assert(out@ =~= seq![base_object_of(*t)]);
            out
        },
    }
}

/// The relation with the given local id and its tree object, where `id` is not zero.
fn relation_and_tree_object<'a, 'b>(view: &'a FullView, id: u8, tree: Option<&'b TreeObject>) -> (r:
    Result<(&'a Relation, &'b TreeObject), RelationError>)
    ensures
        match r {
            Ok((rel, t)) => find_relation_in(view.relations@, id) == Some(*rel) && tree_object_for(
                *view,
                id,
                match tree {
                    Some(x) => Some(*x),
                    None => None,
                },
            ) == Ok::<TreeObject, RelationError>(*t),
            Err(e) => tree_object_for(
                *view,
                id,
                match tree {
                    Some(x) => Some(*x),
                    None => None,
                },
            ) == Err::<TreeObject, RelationError>(e),
        },
{
    let relation = match find_relation_in_exec(&view.relations, id) {
        Some(rel) => rel,
        None => return Err(RelationError::RelationNotFound(id)),
    };
    let t = match tree {
        Some(t) => t,
        None => return Err(RelationError::NoEdges),
    };
    match find_tree_object_exec(t, relation.global_id) {
        Some(found) => Ok((relation, found)),
        None => Err(RelationError::RelationNotInEdges(id)),
    }
}

pub open spec fn opt_deref<T>(o: Option<&T>) -> Option<T> {
    match o {
        Some(x) => Some(*x),
        None => None,
    }
}

/// The tree object for a relation of a view; `None` for the base object (relation `0`).
pub fn find_tree_object_for_relation<'b>(view: &FullView, relation_id: u8, tree: Option<&'b TreeObject>) -> (r:
    Result<Option<&'b TreeObject>, RelationError>)
    ensures
        match r {
            Ok(o) => tree_object_for_relation(*view, relation_id, opt_deref(tree)) == Ok::<
                Option<TreeObject>,
                RelationError,
            >(opt_deref(o)),
            Err(e) => tree_object_for_relation(*view, relation_id, opt_deref(tree)) == Err::<
                Option<TreeObject>,
                RelationError,
            >(e),
        },
{
    if relation_id == 0 {
        return Ok(None);
    }
    match relation_and_tree_object(view, relation_id, tree) {
        Ok((_, t)) => Ok(Some(t)),
        Err(e) => Err(e),
    }
}

/// The objects that a relation of a view reaches; `None` for the base object (relation `0`).
pub fn get_objects_ids_for_relation(view: &FullView, relation_id: u8, tree: Option<&TreeObject>) -> (r:
    Result<Option<Vec<ObjectIdPair>>, RelationError>)
    ensures
        match r {
            Ok(Some(v)) => objects_for_relation(*view, relation_id, opt_deref(tree)) == Ok::<
                Option<Seq<ObjectIdPair>>,
                RelationError,
            >(Some(v@)),
            Ok(None) => objects_for_relation(*view, relation_id, opt_deref(tree)) == Ok::<
                Option<Seq<ObjectIdPair>>,
                RelationError,
            >(None),
            Err(e) => objects_for_relation(*view, relation_id, opt_deref(tree)) == Err::<
                Option<Seq<ObjectIdPair>>,
                RelationError,
            >(e),
        },
{
    if relation_id == 0 {
        return Ok(None);
    }
    match relation_and_tree_object(view, relation_id, tree) {
        Ok((rel, t)) => Ok(Some(reached_objects_exec(rel.search_for, t))),
        Err(e) => Err(e),
    }
}

/// The single object that a relation of a view reaches from a row whose base object is `base`.
pub open spec fn object_for_relation(view: FullView, id: u8, base: ObjectIdPair, tree: TreeObject) -> Result<
    ObjectIdPair,
    RelationError,
> {
    if id == 0 {
        Ok(base)
    } else {
        match find_relation_in(view.relations@, id) {
            None => Err(RelationError::RelationNotFound(id)),
            Some(rel) => match rel.search_for {
                SearchFor::Parents => match find_tree_object(tree, rel.global_id) {
                    None => Err(RelationError::RelationNotInEdges(id)),
                    Some(t) => Ok(base_object_of(t)),
                },
                SearchFor::Children => Err(RelationError::SingleObjectFromChildren),
            },
        }
    }
}

/// The single object that a relation of a view reaches: the base object for
/// relation `0`, the parent for a relation to parents; a relation to children
/// is refused.
pub fn get_object_id_for_relation(
    relation_id: u8,
    base_pair: ObjectIdPair,
    view: &FullView,
    tree_object: &TreeObject,
) -> (r: Result<ObjectIdPair, RelationError>)
    ensures
        r == object_for_relation(*view, relation_id, base_pair, *tree_object),
{
    if relation_id == 0 {
        return Ok(base_pair);
    }
    let relation = match find_relation_in_exec(&view.relations, relation_id) {
        Some(rel) => rel,
        None => return Err(RelationError::RelationNotFound(relation_id)),
    };
    match relation.search_for {
        SearchFor::Parents => match find_tree_object_exec(tree_object, relation.global_id) {
            Some(t) => Ok(ObjectIdPair { schema_id: t.relation.parent_schema_id, object_id: t.object_id }),
            None => Err(RelationError::RelationNotInEdges(relation_id)),
        },
        SearchFor::Children => Err(RelationError::SingleObjectFromChildren),
    }
}

/// The objects that an array field reaches through its relation.
pub open spec fn array_objects_for_relation(view: FullView, id: u8, tree: TreeObject) -> Result<
    Seq<ObjectIdPair>,
    RelationError,
> {
    if id == 0 {
        Err(RelationError::ArrayNeedsRelation)
    } else {
        match tree_object_for(view, id, Some(tree)) {
            Ok(t) => Ok(reached_objects(find_relation_in(view.relations@, id).unwrap().search_for, t)),
            Err(e) => Err(e),
        }
    }
}

/// The objects that an array field reaches through its relation (which must not be `0`).
pub fn get_array_objects_for_relation(relation_id: u8, view: &FullView, tree_object: &TreeObject) -> (r:
    Result<Vec<ObjectIdPair>, RelationError>)
    ensures
        match r {
            Ok(v) => array_objects_for_relation(*view, relation_id, *tree_object) == Ok::<
                Seq<ObjectIdPair>,
                RelationError,
            >(v@),
            Err(e) => array_objects_for_relation(*view, relation_id, *tree_object) == Err::<
                Seq<ObjectIdPair>,
                RelationError,
            >(e),
        },
{
    if relation_id == 0 {
        return Err(RelationError::ArrayNeedsRelation);
    }
    match relation_and_tree_object(view, relation_id, Some(tree_object)) {
        Ok((rel, t)) => Ok(reached_objects_exec(rel.search_for, t)),
        Err(e) => Err(e),
    }
}

/// The tree object reached from `t` by a path of steps, each step picking a subtree
/// response and an object of it; `None` where a step leaves the tree.
pub open spec fn object_at_path(t: TreeObject, path: Seq<(int, int)>) -> Option<TreeObject>
    decreases path.len(),
{
    if path.len() == 0 {
        Some(t)
    } else {
        let (i, j) = path[0];
        if 0 <= i < t.subtrees@.len() && 0 <= j < t.subtrees@[i].objects@.len() {
            object_at_path(t.subtrees@[i].objects@[j], path.drop_first())
        } else {
            None
        }
    }
}

/// Some object of the tree, at any depth, belongs to the relation.
pub open spec fn relation_occurs(t: TreeObject, global_id: u128) -> bool {
    exists|path: Seq<(int, int)>| #[trigger] object_at_path(t, path) matches Some(o) && o.relation_id == global_id
}

proof fn lemma_found_in_objects(os: Seq<TreeObject>, j: int, global_id: u128)
    requires
        0 <= j < os.len(),
        find_tree_object(os[j], global_id) is Some,
    ensures
        find_tree_in_objects(os, global_id) is Some,
    decreases j,
{
    if j > 0 && find_tree_object(os[0], global_id) is None {
        assert(os.drop_first()[j - 1] == os[j]);
        lemma_found_in_objects(os.drop_first(), j - 1, global_id);
    }
}

proof fn lemma_found_in_responses(rs: Seq<TreeResponse>, i: int, j: int, global_id: u128)
    requires
        0 <= i < rs.len(),
        0 <= j < rs[i].objects@.len(),
        find_tree_object(rs[i].objects@[j], global_id) is Some,
    ensures
        find_tree_in_responses(rs, global_id) is Some,
    decreases i,
{
    if i == 0 {
        lemma_found_in_objects(rs[0].objects@, j, global_id);
    } else if find_tree_in_objects(rs[0].objects@, global_id) is None {
        assert(rs.drop_first()[i - 1] == rs[i]);
        lemma_found_in_responses(rs.drop_first(), i - 1, j, global_id);
    }
}

proof fn lemma_path_found(t: TreeObject, path: Seq<(int, int)>, global_id: u128)
    requires
        object_at_path(t, path) matches Some(o) && o.relation_id == global_id,
    ensures
        find_tree_object(t, global_id) is Some,
    decreases path.len(),
{
    if path.len() > 0 && t.relation_id != global_id {
        let (i, j) = path[0];
        let sub = t.subtrees@[i].objects@[j];
        lemma_path_found(sub, path.drop_first(), global_id);
        lemma_found_in_responses(t.subtrees@, i, j, global_id);
    }
}

proof fn lemma_found_has_id(t: TreeObject, global_id: u128)
    ensures
        find_tree_object(t, global_id) matches Some(o) ==> o.relation_id == global_id,
    decreases t, 2nat,
{
    if t.relation_id != global_id {
        lemma_found_in_responses_has_id(t.subtrees@, global_id);
    }
}

proof fn lemma_found_in_responses_has_id(rs: Seq<TreeResponse>, global_id: u128)
    ensures
        find_tree_in_responses(rs, global_id) matches Some(o) ==> o.relation_id == global_id,
    decreases rs, 1nat,
{
    if rs.len() > 0 {
        lemma_found_in_objects_has_id(rs[0].objects@, global_id);
        lemma_found_in_responses_has_id(rs.drop_first(), global_id);
    }
}

proof fn lemma_found_in_objects_has_id(os: Seq<TreeObject>, global_id: u128)
    ensures
        find_tree_in_objects(os, global_id) matches Some(o) ==> o.relation_id == global_id,
    decreases os, 0nat,
{
    if os.len() > 0 {
        lemma_found_has_id(os[0], global_id);
        lemma_found_in_objects_has_id(os.drop_first(), global_id);
    }
}

/// Looking up the tree object of a relation finds one whenever the relation occurs anywhere
/// in the tree (in any subtree response, at any depth), and what it finds belongs to the
/// relation.
pub proof fn law_tree_lookup_finds_every_relation(t: TreeObject, global_id: u128)
    ensures
        relation_occurs(t, global_id) ==> find_tree_object(t, global_id) is Some,
        find_tree_object(t, global_id) matches Some(o) ==> o.relation_id == global_id,
{
    if relation_occurs(t, global_id) {
        let path = choose|path: Seq<(int, int)>| #[trigger]
            object_at_path(t, path) matches Some(o) && o.relation_id == global_id;
        lemma_path_found(t, path, global_id);
    }
    lemma_found_has_id(t, global_id);
}

} // verus!
