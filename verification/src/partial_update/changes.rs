use vstd::prelude::*;

use crate::ids::{id_text, id_to_string, parse_id, parsed_id};
use crate::keyed::{find_key, has_key, keys_distinct, lemma_first_key, lemma_push_new_key, value_at};
use crate::partial_update::notifications::PartialNotification;
use crate::partial_update::object_sets::ObjectSets;
use crate::partial_update::tree::{
    query_views, texts, view_queries, view_to_tree_query, walk_objects, FullView, MalformedId,
    TreeQuery, TreeResponse, TreeWalk,
};

verus! {

/// The groups of consecutive changes of one schema, in order: each group is a schema and
/// its objects, in the order in which they came.
pub open spec fn runs(s: Seq<(u128, u128)>) -> Seq<(u128, Seq<u128>)>
    decreases s.len(),
{
    if s.len() == 0 {
        Seq::empty()
    } else {
        let r = runs(s.drop_last());
        let k = s.last().0;
        let v = s.last().1;
        if r.len() > 0 && r.last().0 == k {
            r.drop_last().push((k, r.last().1.push(v)))
        } else {
            r.push((k, seq![v]))
        }
    }
}

/// The changes of a list of groups, in order.
pub open spec fn ungroup(g: Seq<(u128, Seq<u128>)>) -> Seq<(u128, u128)>
    decreases g.len(),
{
    if g.len() == 0 {
        Seq::empty()
    } else {
        ungroup(g.drop_last()) + g.last().1.map_values(|v: u128| (g.last().0, v))
    }
}

pub open spec fn groups_view(g: Seq<(u128, Vec<u128>)>) -> Seq<(u128, Seq<u128>)> {
    g.map_values(|p: (u128, Vec<u128>)| (p.0, p.1@))
}

/// Grouping loses no change and keeps their order; no group is empty, and two groups side
/// by side are of different schemas.
pub proof fn law_grouping_keeps_changes(s: Seq<(u128, u128)>)
    ensures
        ungroup(runs(s)) == s,
        forall|i: int| 0 <= i < runs(s).len() ==> (#[trigger] runs(s)[i]).1.len() > 0,
        forall|i: int| 0 <= i < runs(s).len() - 1 ==> #[trigger] runs(s)[i].0 != runs(s)[i + 1].0,
    decreases s.len(),
{
    if s.len() > 0 {
        let p = s.drop_last();
        law_grouping_keeps_changes(p);
        let r = runs(p);
        let k = s.last().0;
        let v = s.last().1;
        if r.len() > 0 && r.last().0 == k {
            let g = r.drop_last().push((k, r.last().1.push(v)));
            assert(g.drop_last() =~= r.drop_last());
            assert(r =~= r.drop_last().push(r.last()));
            assert(ungroup(r) == ungroup(r.drop_last()) + r.last().1.map_values(|x: u128| (k, x)));
            assert(r.last().1.push(v).map_values(|x: u128| (k, x)) =~= r.last().1.map_values(
                |x: u128| (k, x),
            ).push((k, v)));
            assert(ungroup(g) =~= ungroup(r).push((k, v)));
            assert(s =~= p.push(s.last()));
            assert forall|i: int| 0 <= i < g.len() - 1 implies #[trigger] g[i].0 != g[i + 1].0 by {
                assert(g[i] == r[i]);
                if i + 1 < g.len() - 1 {
                    assert(g[i + 1] == r[i + 1]);
                }
            }
            assert forall|i: int| 0 <= i < g.len() implies (#[trigger] g[i]).1.len() > 0 by {
                if i < g.len() - 1 {
                    assert(g[i] == r[i]);
                }
            }
        } else {
            let g = r.push((k, seq![v]));
            assert(g.drop_last() =~= r);
            assert(seq![v].map_values(|x: u128| (k, x)) =~= seq![(k, v)]);
            assert(ungroup(g) =~= ungroup(r).push((k, v)));
            assert(s =~= p.push(s.last()));
            assert forall|i: int| 0 <= i < g.len() - 1 implies #[trigger] g[i].0 != g[i + 1].0 by {
                assert(g[i] == r[i]);
                if i + 1 < g.len() - 1 {
                    assert(g[i + 1] == r[i + 1]);
                }
            }
            assert forall|i: int| 0 <= i < g.len() implies (#[trigger] g[i]).1.len() > 0 by {
                if i < g.len() - 1 {
                    assert(g[i] == r[i]);
                }
            }
        }
    }
}

/// Groups consecutive changes of one schema: each group is a schema and the objects of the
/// changes in it, in order.
pub fn group_changes(changes: &Vec<(u128, u128)>) -> (r: Vec<(u128, Vec<u128>)>)
    ensures
        groups_view(r@) == runs(changes@),
{
    let mut out: Vec<(u128, Vec<u128>)> = Vec::new();
    let mut i: usize = 0;
    assert(changes@.take(0) =~= Seq::<(u128, u128)>::empty());
    assert(groups_view(out@) =~= Seq::<(u128, Seq<u128>)>::empty());
    while i < changes.len()
        invariant
            i <= changes.len(),
            groups_view(out@) == runs(changes@.take(i as int)),
        decreases changes.len() - i,
    {
        let (k, v) = changes[i];
        let ghost t = changes@.take(i + 1);
        assert(t.drop_last() =~= changes@.take(i as int));
        assert(t.last() == (k, v));
        let ghost r = runs(changes@.take(i as int));
        let n = out.len();
        if n > 0 && out[n - 1].0 == k {
            let (key, mut objects) = out.pop().unwrap();
            objects.push(v);
            out.push((key, objects));
            assert(groups_view(out@) =~= r.drop_last().push((k, r.last().1.push(v))));
        } else {
            let mut objects: Vec<u128> = Vec::new();
            objects.push(v);
            out.push((k, objects));
            assert(groups_view(out@) =~= r.push((k, seq![v])));
        }
        i = i + 1;
    }
    assert(changes@.take(i as int) =~= changes@);
    out
}

/// Where the schema and the object of a change come from.
#[derive(Debug, PartialEq)]
pub enum ChangeSource {
    /// The notification names them: the schema, then the object.
    Known(u128, u128),
    /// The schema is the parent schema of a relation, which the edge registry knows: the
    /// relation's id as text, and the parent object.
    ThroughRelation { relation_id: String, parent_object_id: u128 },
}

/// Where the schema and object of a notification come from.
pub fn change_source(notification: &PartialNotification) -> (r: ChangeSource)
    ensures
        match *notification {
            PartialNotification::CommandServiceNotification(n) => r == ChangeSource::Known(
                n.schema_id,
                n.object_id,
            ),
            PartialNotification::EdgeRegistryNotification(n) => r matches ChangeSource::ThroughRelation {
                relation_id,
                parent_object_id,
            } && relation_id@ == id_text(n.relation_id) && parent_object_id == n.parent_object_id,
        },
{
    match notification {
        PartialNotification::CommandServiceNotification(n) => ChangeSource::Known(
            n.schema_id,
            n.object_id,
        ),
        PartialNotification::EdgeRegistryNotification(n) => ChangeSource::ThroughRelation {
            relation_id: id_to_string(n.relation_id),
            parent_object_id: n.parent_object_id,
        },
    }
}

/// The change of an edge: the parent schema of its relation, as the edge registry names it,
/// and the parent object.
pub fn change_from_relation(parent_schema_id: &str, parent_object_id: u128) -> (r: Result<
    (u128, u128),
    MalformedId,
>)
    ensures
        match parsed_id(parent_schema_id@) {
            Some(schema) => r == Ok::<(u128, u128), MalformedId>((schema, parent_object_id)),
            None => r matches Err(e) && e.text@ == parent_schema_id@,
        },
{
    match parse_id(parent_schema_id) {
        Some(schema) => Ok((schema, parent_object_id)),
        None => Err(MalformedId { text: parent_schema_id.to_string() }),
    }
}

/// The view at `i` has an id that does not read as an identifier.
pub open spec fn unreadable_view(views: Seq<FullView>, i: int) -> bool {
    0 <= i < views.len() && parsed_id(views[i].id@) is None
}

/// The view at `i` is the first whose id does not read.
pub open spec fn first_unreadable_at(views: Seq<FullView>, i: int) -> bool {
    unreadable_view(views, i) && forall|j: int| 0 <= j < i ==> !#[trigger] unreadable_view(views, j)
}

/// The index of the first view whose id does not read as an identifier, if one does not.
pub open spec fn first_unreadable_view(views: Seq<FullView>) -> Option<int> {
    if exists|i: int| #[trigger] unreadable_view(views, i) {
        Some(choose|i: int| first_unreadable_at(views, i))
    } else {
        None
    }
}

/// The ids of views that all read.
pub open spec fn view_ids(views: Seq<FullView>) -> Seq<u128> {
    Seq::new(views.len(), |i: int| parsed_id(views[i].id@).unwrap())
}

/// A copy of a list of ids.
fn copy_u128s(s: &Vec<u128>) -> (r: Vec<u128>)
    ensures
        r@ == s@,
{
    let mut out: Vec<u128> = Vec::new();
    let mut k: usize = 0;
    while k < s.len()
        invariant
            k <= s.len(),
            out@ =~= s@.take(k as int),
        decreases s.len() - k,
    {
        out.push(s[k]);
        k = k + 1;
    }
    assert(s@.take(k as int) =~= s@);
    out
}

/// The ids of views, or the first that does not read as an identifier.
fn parse_view_ids(views: &Vec<FullView>) -> (r: Result<Vec<u128>, MalformedId>)
    ensures
        match first_unreadable_view(views@) {
            Some(i) => r matches Err(e) && e.text@ == views@[i].id@,
            None => r matches Ok(ids) && ids@ == view_ids(views@),
        },
{
    let mut ids: Vec<u128> = Vec::new();
    let mut i: usize = 0;
    while i < views.len()
        invariant
            i <= views.len(),
            ids@.len() == i,
            forall|j: int| 0 <= j < i ==> parsed_id(views@[j].id@) == Some(#[trigger] ids@[j]),
        decreases views.len() - i,
    {
        match parse_id(views[i].id.as_str()) {
            Some(id) => {
                ids.push(id);
            },
            None => {
                proof {
                    assert(unreadable_view(views@, i as int));
                    assert forall|j: int| 0 <= j < i implies !#[trigger] unreadable_view(views@, j) by {
                        assert(parsed_id(views@[j].id@) == Some(ids@[j]));
                    }
                    assert(first_unreadable_at(views@, i as int));
                    let f = first_unreadable_view(views@)->0;
                    assert(first_unreadable_at(views@, f));
                    if f < i {
                        assert(parsed_id(views@[f].id@) == Some(ids@[f]));
                    } else if f > i {
                        assert(!unreadable_view(views@, i as int));
                    }
                }
                return Err(MalformedId { text: views[i].id.clone() });
            },
        }
        i = i + 1;
    }
    proof {
        assert forall|k: int| !#[trigger] unreadable_view(views@, k) by {
            if 0 <= k < views@.len() {
                assert(parsed_id(views@[k].id@) == Some(ids@[k]));
            }
        }
        assert(ids@ =~= view_ids(views@));
    }
    Ok(ids)
}

/// Keeps each view whose id is not a key yet, the first of a repeated id.
fn cache_views(cache: &mut Vec<(u128, FullView)>, ids: &Vec<u128>, views: Vec<FullView>)
    requires
        keys_distinct(old(cache)@),
        ids@.len() == views@.len(),
    ensures
        keys_distinct(final(cache)@),
        forall|v: u128|
            #[trigger] has_key(final(cache)@, v) == (has_key(old(cache)@, v) || ids@.contains(v)),
        forall|v: u128|
            has_key(old(cache)@, v) ==> #[trigger] value_at(final(cache)@, v) == value_at(
                old(cache)@,
                v,
            ),
        forall|i: int|
            0 <= i < ids@.len() && !has_key(old(cache)@, ids@[i]) && (forall|j: int|
                0 <= j < i ==> ids@[j] != ids@[i]) ==> #[trigger] value_at(final(cache)@, ids@[i])
                == views@[i],
{
    let ghost all_views = views@;
    let ghost start = cache@;
    let mut views = views;
    let mut n: usize = 0;
    assert(all_views.skip(0) =~= all_views);
    assert(ids@.take(0) =~= Seq::<u128>::empty());
    while views.len() > 0
        invariant
            n + views.len() == all_views.len(),
            all_views.len() == ids@.len(),
            ids@.len() == ids.len(),
            views@ == all_views.skip(n as int),
            keys_distinct(cache@),
            forall|v: u128|
                #[trigger] has_key(cache@, v) == (has_key(start, v) || ids@.take(n as int).contains(
                    v,
                )),
            forall|v: u128|
                has_key(start, v) ==> #[trigger] value_at(cache@, v) == value_at(start, v),
            forall|i: int|
                0 <= i < n && !has_key(start, ids@[i]) && (forall|j: int|
                    0 <= j < i ==> ids@[j] != ids@[i]) ==> #[trigger] value_at(cache@, ids@[i])
                    == all_views[i],
        decreases views.len(),
    {
        assert(all_views.skip(n as int).remove(0) =~= all_views.skip(n + 1));
        assert(all_views.skip(n as int)[0] == all_views[n as int]);
        let view = views.remove(0);
        let id = ids[n];
        assert(ids@.take(n + 1) =~= ids@.take(n as int).push(id));
        let ghost t0 = ids@.take(n as int);
        let ghost t1 = ids@.take(n + 1);
        assert forall|v: u128| #[trigger] t1.contains(v) == (t0.contains(v) || v == id) by {
            if t1.contains(v) && v != id {
                let j = choose|j: int| 0 <= j < t1.len() && t1[j] == v;
                assert(t0[j] == v);
            }
            if t0.contains(v) {
                let j = choose|j: int| 0 <= j < t0.len() && t0[j] == v;
                assert(t1[j] == v);
            }
            if v == id {
                assert(t1[n as int] == v);
            }
        }
        let ghost before = cache@;
        match find_key(cache, id) {
            Some(_) => {
                proof {
                    assert forall|v: u128| #[trigger] has_key(cache@, v) == (has_key(start, v)
                        || t1.contains(v)) by {
                        if v == id {
                            assert(has_key(cache@, id));
                        }
                    }
                    assert forall|i: int|
                        0 <= i < n + 1 && !has_key(start, ids@[i]) && (forall|j: int|
                            0 <= j < i ==> ids@[j] != ids@[i]) implies #[trigger] value_at(
                        cache@,
                        ids@[i],
                    ) == all_views[i] by {
                        if i == n {
                            assert(!ids@.take(n as int).contains(id)) by {
                                if ids@.take(n as int).contains(id) {
                                    let j = choose|j: int| 0 <= j < n && ids@.take(n as int)[j] == id;
                                    assert(ids@[j] == ids@[i]);
                                }
                            }
                        }
                    }
                }
            },
            None => {
                proof {
                    lemma_push_new_key(cache@, id, view);
                }
                cache.push((id, view));
                proof {
                    assert forall|v: u128| #[trigger] has_key(cache@, v) == (has_key(start, v)
                        || t1.contains(v)) by {
                        if v != id {
                            assert(has_key(cache@, v) == has_key(before, v));
                        }
                    }
                    assert forall|v: u128| has_key(start, v) implies #[trigger] value_at(cache@, v)
                        == value_at(start, v) by {
                        assert(has_key(before, v));
                    }
                    assert forall|i: int|
                        0 <= i < n + 1 && !has_key(start, ids@[i]) && (forall|j: int|
                            0 <= j < i ==> ids@[j] != ids@[i]) implies #[trigger] value_at(
                        cache@,
                        ids@[i],
                    ) == all_views[i] by {
                        if i < n {
                            assert(ids@.take(n as int)[i] == ids@[i]);
                            assert(ids@.take(n as int).contains(ids@[i]));
                            assert(has_key(before, ids@[i]));
                        }
                    }
                }
            },
        }
        n = n + 1;
    }
    assert(ids@.take(n as int) =~= ids@);
}

/// What planning a partial update gathers: the views of each schema met so far, each view
/// once, and the changed objects per view and schema.
pub struct ChangePlan {
    schema_views: Vec<(u128, Vec<u128>)>,
    views: Vec<(u128, FullView)>,
    objects: ObjectSets,
}

impl ChangePlan {
    pub closed spec fn wf(&self) -> bool {
        &&& keys_distinct(self.schema_views@)
        &&& keys_distinct(self.views@)
        &&& self.objects.wf()
        &&& forall|s: u128, v: u128|
            #[trigger] self.objects.has(v, s) ==> has_key(self.views@, v)
        &&& forall|s: u128, i: int|
            has_key(self.schema_views@, s) && 0 <= i < value_at(self.schema_views@, s)@.len()
                ==> has_key(self.views@, #[trigger] value_at(self.schema_views@, s)@[i])
    }

    /// Whether the views of the schema are known.
    pub closed spec fn schema_cached(&self, schema: u128) -> bool {
        has_key(self.schema_views@, schema)
    }

    /// The views of a schema, where they are known.
    pub closed spec fn views_of(&self, schema: u128) -> Seq<u128> {
        value_at(self.schema_views@, schema)@
    }

    /// Whether a view is known.
    pub closed spec fn view_cached(&self, view: u128) -> bool {
        has_key(self.views@, view)
    }

    /// A known view.
    pub closed spec fn view(&self, view: u128) -> FullView {
        value_at(self.views@, view)
    }

    /// Whether objects of a schema changed for a view.
    pub closed spec fn has_objects(&self, view: u128, schema: u128) -> bool {
        self.objects.has(view, schema)
    }

    /// The changed objects of a schema, for a view.
    pub closed spec fn objects(&self, view: u128, schema: u128) -> Set<u128> {
        self.objects.ids(view, schema)
    }

    pub fn new() -> (r: ChangePlan)
        ensures
            r.wf(),
            forall|s: u128| !r.schema_cached(s),
            forall|v: u128| !r.view_cached(v),
            forall|v: u128, s: u128| !r.has_objects(v, s),
    {
        ChangePlan { schema_views: Vec::new(), views: Vec::new(), objects: ObjectSets::new() }
    }

    /// The views of a schema, where they are known.
    pub fn views_of_schema(&self, schema: u128) -> (r: Option<Vec<u128>>)
        ensures
            r is Some == self.schema_cached(schema),
            r matches Some(ids) ==> ids@ == self.views_of(schema),
    {
        match find_key(&self.schema_views, schema) {
            Some(i) => {
                let ids = &self.schema_views[i].1;
                let mut out: Vec<u128> = Vec::new();
                let mut k: usize = 0;
                while k < ids.len()
                    invariant
                        k <= ids.len(),
                        out@ =~= ids@.take(k as int),
                    decreases ids.len() - k,
                {
                    out.push(ids[k]);
                    k = k + 1;
                }
                assert(ids@.take(k as int) =~= ids@);
                Some(out)
            },
            None => None,
        }
    }

    /// Learns the views of a schema, as the schema registry lists them. Every view id must
    /// read as an identifier: the first that does not is the error, and nothing is learnt.
    /// Otherwise the schema's views are their ids, in order, and each view not known yet
    /// is kept, the first of a repeated id.
    pub fn add_schema_views(&mut self, schema: u128, views: Vec<FullView>) -> (r: Result<
        (),
        MalformedId,
    >)
        requires
            old(self).wf(),
            !old(self).schema_cached(schema),
        ensures
            final(self).wf(),
            match first_unreadable_view(views@) {
                Some(i) => r matches Err(e) && e.text@ == views@[i].id@ && *final(self) == *old(self),
                None => {
                    &&& r is Ok
                    &&& forall|s: u128|
                        #[trigger] final(self).schema_cached(s) == (old(self).schema_cached(s) || s
                            == schema)
                    &&& final(self).views_of(schema) == view_ids(views@)
                    &&& forall|s: u128|
                        old(self).schema_cached(s) ==> #[trigger] final(self).views_of(s)
                            == old(self).views_of(s)
                    &&& forall|v: u128|
                        #[trigger] final(self).view_cached(v) == (old(self).view_cached(v)
                            || view_ids(views@).contains(v))
                    &&& forall|v: u128|
                        old(self).view_cached(v) ==> #[trigger] final(self).view(v) == old(
                            self,
                        ).view(v)
                    &&& forall|i: int|
                        0 <= i < views@.len() && !old(self).view_cached(view_ids(views@)[i])
                            && (forall|j: int|
                            0 <= j < i ==> view_ids(views@)[j] != view_ids(views@)[i])
                            ==> #[trigger] final(self).view(view_ids(views@)[i]) == views@[i]
                    &&& forall|v: u128, s: u128|
                        #[trigger] final(self).has_objects(v, s) == old(self).has_objects(v, s)
                    &&& forall|v: u128, s: u128|
                        #[trigger] final(self).objects(v, s) == old(self).objects(v, s)
                },
            },
    {
        let ids = match parse_view_ids(&views) {
            Ok(ids) => ids,
            Err(e) => {
                return Err(e);
            },
        };
        let ghost old_plan = *self;
        let listed = copy_u128s(&ids);
        proof {
            lemma_push_new_key(self.schema_views@, schema, listed);
        }
        self.schema_views.push((schema, listed));
        let ghost sv = self.schema_views@;
        cache_views(&mut self.views, &ids, views);
        proof {
            let sv_old = old_plan.schema_views@;
            assert forall|s2: u128, i: int|
                has_key(self.schema_views@, s2) && 0 <= i < value_at(self.schema_views@, s2)@.len()
                    implies has_key(self.views@, #[trigger] value_at(self.schema_views@, s2)@[i]) by {
                if s2 == schema {
                    assert(ids@.contains(ids@[i]));
                } else {
                    assert(has_key(sv_old, s2));
                    assert(has_key(old_plan.views@, value_at(sv_old, s2)@[i]));
                }
            }
        }
        Ok(())
    }
}


impl ChangePlan {
    /// Adds a group of changed objects of a schema whose views are known: for each of its
    /// views, the objects join the view's changed objects of that schema.
    pub fn add_group(&mut self, schema: u128, object_ids: &Vec<u128>)
        requires
            old(self).wf(),
            old(self).schema_cached(schema),
        ensures
            final(self).wf(),
            forall|s: u128| #[trigger] final(self).schema_cached(s) == old(self).schema_cached(s),
            forall|s: u128| #[trigger] final(self).views_of(s) == old(self).views_of(s),
            forall|v: u128| #[trigger] final(self).view_cached(v) == old(self).view_cached(v),
            forall|v: u128| #[trigger] final(self).view(v) == old(self).view(v),
            forall|v: u128, s: u128|
                #[trigger] final(self).has_objects(v, s) == (old(self).has_objects(v, s) || (s
                    == schema && old(self).views_of(schema).contains(v))),
            forall|v: u128, s: u128|
                #[trigger] final(self).objects(v, s) == if s == schema && old(self).views_of(
                    schema,
                ).contains(v) {
                    old(self).objects(v, s).union(object_ids@.to_set())
                } else {
                    old(self).objects(v, s)
                },
    {
        let views = match self.views_of_schema(schema) {
            Some(views) => views,
            None => {
                proof {
                    assert(false);
                }
                Vec::new()
            },
        };
        let ghost start = self.objects;
        let mut k: usize = 0;
        assert(views@.take(0) =~= Seq::<u128>::empty());
        while k < views.len()
            invariant
                k <= views.len(),
                views@ == old(self).views_of(schema),
                self.schema_views == old(self).schema_views,
                self.views == old(self).views,
                self.objects.wf(),
                start == old(self).objects,
                forall|v: u128, s: u128|
                    #[trigger] self.objects.has(v, s) == (start.has(v, s) || (s == schema
                        && views@.take(k as int).contains(v))),
                forall|v: u128, s: u128|
                    #[trigger] self.objects.ids(v, s) == if s == schema && views@.take(
                        k as int,
                    ).contains(v) {
                        start.ids(v, s).union(object_ids@.to_set())
                    } else {
                        start.ids(v, s)
                    },
            decreases views.len() - k,
        {
            let v = views[k];
            let ghost t0 = views@.take(k as int);
            let ghost t1 = views@.take(k + 1);
            assert forall|x: u128| #[trigger] t1.contains(x) == (t0.contains(x) || x == v) by {
                if t1.contains(x) && x != v {
                    let j = choose|j: int| 0 <= j < t1.len() && t1[j] == x;
                    assert(t0[j] == x);
                }
                if t0.contains(x) {
                    let j = choose|j: int| 0 <= j < t0.len() && t0[j] == x;
                    assert(t1[j] == x);
                }
                if x == v {
                    assert(t1[k as int] == x);
                }
            }
            let ghost mid = self.objects;
            self.objects.add_ids(v, schema, object_ids);
            proof {
                assert forall|x: u128, s: u128| #[trigger] self.objects.ids(x, s) == if s == schema
                    && t1.contains(x) {
                    start.ids(x, s).union(object_ids@.to_set())
                } else {
                    start.ids(x, s)
                } by {
                    if x == v && s == schema {
                        if t0.contains(x) {
                            assert(mid.ids(x, s).union(object_ids@.to_set()) =~= mid.ids(x, s));
                        }
                    }
                }
            }
            k = k + 1;
        }
        assert(views@.take(k as int) =~= views@);
        proof {
            assert forall|s: u128, v: u128| #[trigger] self.objects.has(v, s) implies has_key(
                self.views@,
                v,
            ) by {
                if !start.has(v, s) {
                    let j = choose|j: int| 0 <= j < views@.len() && views@[j] == v;
                    assert(has_key(self.views@, value_at(self.schema_views@, schema)@[j]));
                }
            }
        }
    }

    /// Every view and schema with changed objects, and those objects, once each.
    pub fn entries(&self) -> (r: Vec<(u128, u128, Vec<u128>)>)
        requires
            self.wf(),
        ensures
            forall|i: int, j: int|
                0 <= i < j < r@.len() ==> !(r@[i].0 == r@[j].0 && r@[i].1 == r@[j].1),
            forall|i: int| 0 <= i < r@.len() ==> #[trigger] r@[i].2@.no_duplicates(),
            forall|i: int|
                0 <= i < r@.len() ==> #[trigger] self.has_objects(r@[i].0, r@[i].1)
                    && self.view_cached(r@[i].0),
            forall|i: int|
                0 <= i < r@.len() ==> #[trigger] r@[i].2@.to_set() == self.objects(r@[i].0, r@[i].1),
            forall|v: u128, s: u128|
                #[trigger] self.has_objects(v, s) ==> exists|i: int|
                    0 <= i < r@.len() && r@[i].0 == v && r@[i].1 == s,
    {
        let r = self.objects.entries();
        proof {
            assert forall|i: int| 0 <= i < r@.len() implies #[trigger] self.has_objects(
                r@[i].0,
                r@[i].1,
            ) && self.view_cached(r@[i].0) by {
                assert(self.objects.has(r@[i].0, r@[i].1));
            }
        }
        r
    }

    /// The queries for the edge registry about changed objects of a known view: one per
    /// top-level relation of the view, each restricted to the objects, named by their text.
    pub fn queries_for(&self, view: u128, object_ids: &Vec<u128>) -> (r: Vec<TreeQuery>)
        requires
            self.wf(),
            self.view_cached(view),
        ensures
            query_views(r@) == view_queries(
                self.view(view).relations@,
                object_ids@.map_values(|u: u128| id_text(u)),
            ),
    {
        let mut names: Vec<String> = Vec::new();
        let mut k: usize = 0;
        while k < object_ids.len()
            invariant
                k <= object_ids.len(),
                names@.len() == k,
                forall|j: int| 0 <= j < k ==> (#[trigger] names@[j])@ == id_text(object_ids@[j]),
            decreases object_ids.len() - k,
        {
            names.push(id_to_string(object_ids[k]));
            k = k + 1;
        }
        assert(texts(names@) =~= object_ids@.map_values(|u: u128| id_text(u)));
        match find_key(&self.views, view) {
            Some(i) => view_to_tree_query(&self.views[i].1, names),
            None => {
                proof {
                    assert(false);
                }
                Vec::new()
            },
        }
    }
}

/// A materialization request: a view, and per schema the objects to materialize it from.
#[derive(Debug)]
pub struct Request {
    pub view_id: u128,
    pub schemas: Vec<(u128, Vec<u128>)>,
}

/// The requests that the answers of the edge registry build up.
pub struct RequestSet {
    sets: ObjectSets,
}

impl RequestSet {
    pub closed spec fn wf(&self) -> bool {
        self.sets.wf()
    }

    /// Whether the request of a view names a schema.
    pub closed spec fn has(&self, view: u128, schema: u128) -> bool {
        self.sets.has(view, schema)
    }

    /// The objects that the request of a view names of a schema.
    pub closed spec fn ids(&self, view: u128, schema: u128) -> Set<u128> {
        self.sets.ids(view, schema)
    }

    pub fn new() -> (r: RequestSet)
        ensures
            r.wf(),
            forall|v: u128, s: u128| !r.has(v, s) && r.ids(v, s) == Set::<u128>::empty(),
    {
        RequestSet { sets: ObjectSets::new() }
    }

    /// Adds the answer of the edge registry to one query of a view, for a schema: the
    /// request of the view names the schema, and gains the ids of the tree (see
    /// `try_process_tree_response`).
    pub fn add_response(&mut self, view: u128, schema: u128, response: TreeResponse) -> (r: Option<
        Result<(), MalformedId>,
    >)
        requires
            old(self).wf(),
        ensures
            final(self).wf(),
            forall|v: u128, s: u128|
                #[trigger] final(self).has(v, s) == (old(self).has(v, s) || (v == view && s
                    == schema)),
            forall|v: u128, s: u128|
                !(v == view && s == schema) ==> #[trigger] final(self).ids(v, s) == old(self).ids(v, s),
            match walk_objects(response.objects@, old(self).ids(view, schema)) {
                TreeWalk::Done(ids) => r matches Some(Ok(_)) && final(self).ids(view, schema) == ids,
                TreeWalk::Failed(ids, text) => r matches Some(Err(e)) && e.text@ == text
                    && final(self).ids(view, schema) == ids,
                TreeWalk::Unreadable => r is None && final(self).ids(view, schema) == old(self).ids(
                    view,
                    schema,
                ),
            },
    {
        self.sets.add_tree(view, schema, response)
    }

    /// The requests: one per view, each naming every schema of the view once, with its
    /// objects.
    #[verifier::loop_isolation(false)]
    pub fn requests(&self) -> (r: Vec<Request>)
        requires
            self.wf(),
        ensures
            forall|i: int, j: int| 0 <= i < j < r@.len() ==> r@[i].view_id != r@[j].view_id,
            forall|i: int, a: int, b: int|
                0 <= i < r@.len() && 0 <= a < b < r@[i].schemas@.len() ==> r@[i].schemas@[a].0
                    != r@[i].schemas@[b].0,
            forall|i: int, k: int|
                0 <= i < r@.len() && 0 <= k < r@[i].schemas@.len() ==> self.has(
                    r@[i].view_id,
                    #[trigger] r@[i].schemas@[k].0,
                ) && r@[i].schemas@[k].1@.to_set() == self.ids(r@[i].view_id, r@[i].schemas@[k].0)
                    && r@[i].schemas@[k].1@.no_duplicates(),
            forall|v: u128, s: u128|
                #[trigger] self.has(v, s) ==> exists|i: int, k: int|
                    0 <= i < r@.len() && 0 <= k < r@[i].schemas@.len() && r@[i].view_id == v
                        && r@[i].schemas@[k].0 == s,
    {
        let entries = self.sets.entries();
        let mut out: Vec<Request> = Vec::new();
        let mut i: usize = 0;
        while i < entries.len()
            invariant
                i <= entries.len(),
                forall|a: int, b: int| 0 <= a < b < out@.len() ==> out@[a].view_id != out@[b].view_id,
                forall|a: int|
                    0 <= a < out@.len() ==> request_of(#[trigger] out@[a], entries@),
                forall|j: int|
                    0 <= j < i ==> exists|a: int|
                        0 <= a < out@.len() && out@[a].view_id == (#[trigger] entries@[j]).0,
                forall|a: int, b: int| 0 <= a < b < entries@.len() ==> !(entries@[a].0 == entries@[b].0 && entries@[a].1 == entries@[b].1),
            decreases entries.len() - i,
        {
            let v = entries[i].0;
            let found = has_request(&out, v);
            if !found {
                let schemas = schemas_of_view(&entries, v);
                let ghost old_out = out@;
                out.push(Request { view_id: v, schemas });
                proof {
                    assert forall|a: int, b: int| 0 <= a < b < out@.len() implies out@[a].view_id
                        != out@[b].view_id by {
                        if b == out@.len() - 1 {
                            assert(old_out[a].view_id != v);
                        } else {
                            assert(old_out[a].view_id != old_out[b].view_id);
                        }
                    }
                    assert forall|a: int| 0 <= a < out@.len() implies request_of(
                        #[trigger] out@[a],
                        entries@,
                    ) by {
                        if a < out@.len() - 1 {
                            assert(out@[a] == old_out[a]);
                        }
                    }
                    assert forall|j: int| 0 <= j < i + 1 implies exists|a: int|
                        0 <= a < out@.len() && out@[a].view_id == (#[trigger] entries@[j]).0 by {
                        if j == i {
                            assert(out@[out@.len() - 1].view_id == v);
                        } else {
                            let a = choose|a: int| 0 <= a < old_out.len() && old_out[a].view_id == (#[trigger] entries@[j]).0;
                            assert(out@[a] == old_out[a]);
                        }
                    }
                }
            }
            i = i + 1;
        }
        proof {
            assert forall|i: int, k: int|
                0 <= i < out@.len() && 0 <= k < out@[i].schemas@.len() implies self.has(
                out@[i].view_id,
                #[trigger] out@[i].schemas@[k].0,
            ) && out@[i].schemas@[k].1@.to_set() == self.ids(out@[i].view_id, out@[i].schemas@[k].0)
                && out@[i].schemas@[k].1@.no_duplicates() by {
                assert(request_of(out@[i], entries@));
                assert(has_source(out@[i].view_id, out@[i].schemas@[k], entries@));
                let j = choose|j: int|
                    0 <= j < entries@.len() && entries@[j].0 == out@[i].view_id && entries@[j].1
                        == out@[i].schemas@[k].0 && entries@[j].2@ == out@[i].schemas@[k].1@;
                assert(self.sets.has(entries@[j].0, entries@[j].1));
                assert(entries@[j].2@.no_duplicates());
                assert(entries@[j].2@.to_set() == self.sets.ids(entries@[j].0, entries@[j].1));
            }
            assert forall|vv: u128, s: u128| #[trigger] self.has(vv, s) implies exists|a: int, k: int|
                0 <= a < out@.len() && 0 <= k < out@[a].schemas@.len() && out@[a].view_id == vv
                    && out@[a].schemas@[k].0 == s by {
                let j = choose|j: int| 0 <= j < entries@.len() && entries@[j].0 == vv && entries@[j].1 == s;
                let a = choose|a: int| 0 <= a < out@.len() && out@[a].view_id == (#[trigger] entries@[j]).0;
                assert(request_of(out@[a], entries@));
                let k = choose|k: int| 0 <= k < out@[a].schemas@.len() && out@[a].schemas@[k].0 == s;
            }
        }
        out
    }
}

/// Some entry is of the view and the schema, with these ids.
spec fn has_source(view: u128, schema: (u128, Vec<u128>), entries: Seq<(u128, u128, Vec<u128>)>) -> bool {
    exists|j: int|
        0 <= j < entries.len() && entries[j].0 == view && entries[j].1 == schema.0 && entries[j].2@
            == schema.1@
}

/// The schemas list exactly the entries of the view, each schema once, with its ids.
spec fn schemas_of(view: u128, schemas: Seq<(u128, Vec<u128>)>, entries: Seq<(u128, u128, Vec<u128>)>) -> bool {
    &&& forall|a: int, b: int|
        0 <= a < b < schemas.len() ==> schemas[a].0 != schemas[b].0
    &&& forall|k: int| 0 <= k < schemas.len() ==> #[trigger] has_source(view, schemas[k], entries)
    &&& forall|j: int|
        0 <= j < entries.len() && (#[trigger] entries[j]).0 == view ==> exists|k: int|
            0 <= k < schemas.len() && schemas[k].0 == entries[j].1
}

/// Whether some request is of the view.
fn has_request(out: &Vec<Request>, v: u128) -> (r: bool)
    ensures
        r == exists|b: int| 0 <= b < out@.len() && out@[b].view_id == v,
{
    let mut a: usize = 0;
    while a < out.len()
        invariant
            a <= out.len(),
            forall|b: int| 0 <= b < a ==> out@[b].view_id != v,
        decreases out.len() - a,
    {
        if out[a].view_id == v {
            return true;
        }
        a = a + 1;
    }
    false
}

/// The request lists exactly the entries of its view.
spec fn request_of(r: Request, entries: Seq<(u128, u128, Vec<u128>)>) -> bool {
    schemas_of(r.view_id, r.schemas@, entries)
}

/// The schemas of a view among the entries, with copies of their ids.
fn schemas_of_view(entries: &Vec<(u128, u128, Vec<u128>)>, view: u128) -> (r: Vec<(u128, Vec<u128>)>)
    requires
        forall|a: int, b: int| 0 <= a < b < entries@.len() ==> !(entries@[a].0 == entries@[b].0 && entries@[a].1 == entries@[b].1),
    ensures
        schemas_of(view, r@, entries@),
{
    let mut out: Vec<(u128, Vec<u128>)> = Vec::new();
    let ghost mut src: Seq<int> = Seq::empty();
    let mut j: usize = 0;
    while j < entries.len()
        invariant
            j <= entries.len(),
            forall|a: int, b: int|
                0 <= a < b < entries@.len() ==> !(entries@[a].0 == entries@[b].0 && entries@[a].1
                    == entries@[b].1),
            src.len() == out@.len(),
            forall|k: int|
                0 <= k < src.len() ==> 0 <= #[trigger] src[k] < j && entries@[src[k]].0 == view
                    && entries@[src[k]].1 == out@[k].0 && entries@[src[k]].2@ == out@[k].1@,
            forall|a: int, b: int| 0 <= a < b < src.len() ==> src[a] < src[b],
            forall|m: int|
                0 <= m < j && (#[trigger] entries@[m]).0 == view ==> exists|k: int|
                    0 <= k < src.len() && src[k] == m,
        decreases entries.len() - j,
    {
        let ghost old_src = src;
        if entries[j].0 == view {
            let ids = copy_u128s(&entries[j].2);
            out.push((entries[j].1, ids));
            proof {
                src = src.push(j as int);
            }
        }
        proof {
            assert forall|m: int|
                0 <= m < j + 1 && (#[trigger] entries@[m]).0 == view implies exists|k: int|
                0 <= k < src.len() && src[k] == m by {
                if m == j {
                    assert(src[src.len() - 1] == m);
                } else {
                    let k = choose|k: int| 0 <= k < old_src.len() && old_src[k] == m;
                    assert(src[k] == m);
                }
            }
        }
        j = j + 1;
    }
    proof {
        assert forall|a: int, b: int| 0 <= a < b < out@.len() implies out@[a].0 != out@[b].0 by {
            assert(src[a] < src[b]);
            assert(!(entries@[src[a]].0 == entries@[src[b]].0 && entries@[src[a]].1
                == entries@[src[b]].1));
        }
        let sch = out@;
        assert forall|k: int| 0 <= k < sch.len() implies #[trigger] has_source(view, sch[k], entries@) by {
            let m = src[k];
            assert(0 <= m < entries@.len() && entries@[m].0 == view && entries@[m].1 == sch[k].0
                && entries@[m].2@ == sch[k].1@);
        }
        assert forall|m: int|
            0 <= m < entries@.len() && (#[trigger] entries@[m]).0 == view implies exists|k: int|
            0 <= k < out@.len() && out@[k].0 == entries@[m].1 by {
            let k = choose|k: int| 0 <= k < src.len() && src[k] == m;
            assert(out@[k].0 == entries@[m].1);
        }
    }
    out
}
/// The schemas on both ends of a relation, as the edge registry names them.
#[derive(Clone, Debug, PartialEq)]
pub struct RelationSchemas {
    pub parent_schema_id: String,
    pub child_schema_id: String,
}

/// The change of an edge, given the edge registry's answer for its relation: the relation's
/// parent schema, read as an identifier, and the parent object.
pub fn change_of_edge(relation: &RelationSchemas, parent_object_id: u128) -> (r: Result<(u128, u128), MalformedId>)
    ensures
        match parsed_id(relation.parent_schema_id@) {
            Some(schema) => r == Ok::<(u128, u128), MalformedId>((schema, parent_object_id)),
            None => r matches Err(e) && e.text@ == relation.parent_schema_id@,
        },
{
    change_from_relation(relation.parent_schema_id.as_str(), parent_object_id)
}

/// The edge registry's answer is at hand for every change that names a relation.
pub open spec fn answers_given(ns: Seq<PartialNotification>, relations: Seq<Option<RelationSchemas>>) -> bool {
    &&& ns.len() == relations.len()
    &&& forall|i: int|
        0 <= i < ns.len() && (#[trigger] ns[i]) is EdgeRegistryNotification ==> relations[i] is Some
}

/// The change of a notification: the schema and object it names, or, for an edge, the parent
/// schema of its relation (which must read) and the parent object.
pub open spec fn notification_change(n: PartialNotification, relation: Option<RelationSchemas>) -> Result<
    (u128, u128),
    Seq<char>,
> {
    match n {
        PartialNotification::CommandServiceNotification(c) => Ok((c.schema_id, c.object_id)),
        PartialNotification::EdgeRegistryNotification(e) => {
            let text = relation.unwrap().parent_schema_id@;
            match parsed_id(text) {
                Some(schema) => Ok((schema, e.parent_object_id)),
                None => Err(text),
            }
        },
    }
}

/// The changes of notifications, in order, or the first parent schema id that does not read.
pub open spec fn notification_changes_model(
    ns: Seq<PartialNotification>,
    relations: Seq<Option<RelationSchemas>>,
) -> Result<Seq<(u128, u128)>, Seq<char>>
    decreases ns.len(),
{
    if ns.len() == 0 {
        Ok(Seq::empty())
    } else {
        match notification_changes_model(ns.drop_last(), relations.drop_last()) {
            Err(t) => Err(t),
            Ok(cs) => match notification_change(ns.last(), relations[ns.len() - 1]) {
                Err(t) => Err(t),
                Ok(c) => Ok(cs.push(c)),
            },
        }
    }
}

/// The (schema, object) changes of the drained notifications, in order: a notification of the
/// command service names both; an edge is a change of its relation's parent schema (from the
/// edge registry's answer at the same position) and of its parent object. The first parent
/// schema id that does not read is the error.
pub fn notification_changes(
    notifications: &Vec<PartialNotification>,
    relations: &Vec<Option<RelationSchemas>>,
) -> (r: Result<Vec<(u128, u128)>, MalformedId>)
    requires
        answers_given(notifications@, relations@),
    ensures
        match notification_changes_model(notifications@, relations@) {
            Ok(cs) => r matches Ok(v) && v@ == cs,
            Err(t) => r matches Err(e) && e.text@ == t,
        },
{
    let mut out: Vec<(u128, u128)> = Vec::new();
    let mut i: usize = 0;
    assert(notifications@.take(0) =~= Seq::<PartialNotification>::empty());
    assert(relations@.take(0) =~= Seq::<Option<RelationSchemas>>::empty());
    while i < notifications.len()
        invariant
            i <= notifications.len(),
            answers_given(notifications@, relations@),
            notification_changes_model(notifications@.take(i as int), relations@.take(i as int))
                == Ok::<Seq<(u128, u128)>, Seq<char>>(out@),
        decreases notifications.len() - i,
    {
        let ghost ns = notifications@.take(i + 1);
        let ghost rs = relations@.take(i + 1);
        assert(ns.drop_last() =~= notifications@.take(i as int));
        assert(rs.drop_last() =~= relations@.take(i as int));
        assert(ns.last() == notifications@[i as int]);
        assert(rs[ns.len() - 1] == relations@[i as int]);
        let change = match &notifications[i] {
            PartialNotification::CommandServiceNotification(c) => (c.schema_id, c.object_id),
            PartialNotification::EdgeRegistryNotification(e) => {
                assert(notifications@[i as int] is EdgeRegistryNotification);
                let relation = match &relations[i] {
                    Some(rel) => rel,
                    None => {
                        proof {
                            assert(false);
                        }
                        return Err(MalformedId { text: String::new() });
                    },
                };
                match change_of_edge(relation, e.parent_object_id) {
                    Ok(c) => c,
                    Err(err) => {
                        proof {
                            lemma_changes_err_extends(notifications@, relations@, (i + 1) as int);
                        }
                        return Err(err);
                    },
                }
            },
        };
        out.push(change);
        i = i + 1;
    }
    assert(notifications@.take(i as int) =~= notifications@);
    assert(relations@.take(i as int) =~= relations@);
    Ok(out)
}

/// A failure among the first `n` notifications is the failure of all of them.
proof fn lemma_changes_err_extends(
    ns: Seq<PartialNotification>,
    relations: Seq<Option<RelationSchemas>>,
    n: int,
)
    requires
        0 <= n <= ns.len(),
        ns.len() == relations.len(),
        notification_changes_model(ns.take(n), relations.take(n)) is Err,
    ensures
        notification_changes_model(ns, relations) == notification_changes_model(ns.take(n), relations.take(n)),
    decreases ns.len() - n,
{
    if n < ns.len() {
        let a = ns.take(n + 1);
        let b = relations.take(n + 1);
        assert(a.drop_last() =~= ns.take(n));
        assert(b.drop_last() =~= relations.take(n));
        lemma_changes_err_extends(ns, relations, n + 1);
    } else {
        assert(ns.take(n) =~= ns);
        assert(relations.take(n) =~= relations);
    }
}

/// A message to publish: the topic, the key, and the request it carries.
#[derive(Debug)]
pub struct Record {
    pub topic: String,
    pub key: String,
    pub request: Request,
}

fn copy_ids(v: &Vec<u128>) -> (r: Vec<u128>)
    ensures
        r@ == v@,
{
    let mut out: Vec<u128> = Vec::new();
    let mut k: usize = 0;
    while k < v.len()
        invariant
            k <= v.len(),
            out@ =~= v@.take(k as int),
        decreases v.len() - k,
    {
        out.push(v[k]);
        k = k + 1;
    }
    assert(v@.take(k as int) =~= v@);
    out
}

/// The record that publishes a request: to the given topic, keyed by the text of its view,
/// carrying a copy of the request.
pub fn request_record(r: &Request, egest_topic: &str) -> (rec: Record)
    ensures
        rec.topic@ == egest_topic@,
        rec.key@ == id_text(r.view_id),
        parsed_id(rec.key@) == Some(r.view_id),
        rec.request.view_id == r.view_id,
        rec.request.schemas@.len() == r.schemas@.len(),
        forall|k: int|
            0 <= k < r.schemas@.len() ==> (#[trigger] rec.request.schemas@[k]).0 == r.schemas@[k].0
                && rec.request.schemas@[k].1@ == r.schemas@[k].1@,
{
    let mut schemas: Vec<(u128, Vec<u128>)> = Vec::new();
    let mut k: usize = 0;
    while k < r.schemas.len()
        invariant
            k <= r.schemas.len(),
            schemas@.len() == k,
            forall|j: int|
                0 <= j < k ==> (#[trigger] schemas@[j]).0 == r.schemas@[j].0 && schemas@[j].1@
                    == r.schemas@[j].1@,
        decreases r.schemas.len() - k,
    {
        let ids = copy_ids(&r.schemas[k].1);
        schemas.push((r.schemas[k].0, ids));
        k = k + 1;
    }
    Record {
        topic: egest_topic.to_string(),
        key: id_to_string(r.view_id),
        request: Request { view_id: r.view_id, schemas },
    }
}

impl RequestSet {
    /// The records that publish the requests: one per view, to the given topic, keyed by the
    /// view's text, each carrying the view's request.
    pub fn records(&self, egest_topic: &str) -> (r: Vec<Record>)
        requires
            self.wf(),
        ensures
            forall|i: int, j: int| 0 <= i < j < r@.len() ==> r@[i].key@ != r@[j].key@,
            forall|i: int|
                0 <= i < r@.len() ==> (#[trigger] r@[i]).topic@ == egest_topic@ && r@[i].key@ == id_text(
                    r@[i].request.view_id,
                ),
            forall|i: int, a: int, b: int|
                0 <= i < r@.len() && 0 <= a < b < r@[i].request.schemas@.len() ==> r@[i].request.schemas@[a].0
                    != r@[i].request.schemas@[b].0,
            forall|i: int, k: int|
                0 <= i < r@.len() && 0 <= k < r@[i].request.schemas@.len() ==> self.has(
                    r@[i].request.view_id,
                    #[trigger] r@[i].request.schemas@[k].0,
                ) && r@[i].request.schemas@[k].1@.to_set() == self.ids(
                    r@[i].request.view_id,
                    r@[i].request.schemas@[k].0,
                ),
            forall|v: u128, s: u128|
                #[trigger] self.has(v, s) ==> exists|i: int, k: int|
                    0 <= i < r@.len() && 0 <= k < r@[i].request.schemas@.len() && r@[i].request.view_id
                        == v && r@[i].request.schemas@[k].0 == s,
    {
        let requests = self.requests();
        let mut out: Vec<Record> = Vec::new();
        let mut i: usize = 0;
        while i < requests.len()
            invariant
                i <= requests.len(),
                out@.len() == i,
                forall|a: int, b: int| 0 <= a < b < requests@.len() ==> requests@[a].view_id != requests@[b].view_id,
                forall|j: int|
                    0 <= j < i ==> (#[trigger] out@[j]).topic@ == egest_topic@ && out@[j].key@ == id_text(
                        requests@[j].view_id,
                    ) && parsed_id(out@[j].key@) == Some(requests@[j].view_id)
                        && out@[j].request.view_id == requests@[j].view_id
                        && out@[j].request.schemas@.len() == requests@[j].schemas@.len() && forall|k: int|
                        0 <= k < requests@[j].schemas@.len() ==> (#[trigger] out@[j].request.schemas@[k]).0
                            == requests@[j].schemas@[k].0 && out@[j].request.schemas@[k].1@
                            == requests@[j].schemas@[k].1@,
            decreases requests.len() - i,
        {
            let rec = request_record(&requests[i], egest_topic);
            out.push(rec);
            i = i + 1;
        }
        assert forall|i: int, j: int| 0 <= i < j < out@.len() implies out@[i].key@ != out@[j].key@ by {
            if out@[i].key@ == out@[j].key@ {
                assert(parsed_id(out@[i].key@) == Some(requests@[i].view_id));
            }
        }
        assert forall|v: u128, s: u128| #[trigger] self.has(v, s) implies exists|i: int, k: int|
            0 <= i < out@.len() && 0 <= k < out@[i].request.schemas@.len() && out@[i].request.view_id == v
                && out@[i].request.schemas@[k].0 == s by {
            let (i, k) = choose|i: int, k: int|
                0 <= i < requests@.len() && 0 <= k < requests@[i].schemas@.len() && requests@[i].view_id == v
                    && requests@[i].schemas@[k].0 == s;
            assert(out@[i].request.schemas@[k].0 == requests@[i].schemas@[k].0);
        }
        out
    }
}

} // verus!
