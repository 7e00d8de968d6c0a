use vstd::prelude::*;

use crate::json::{JsonValue, JsonView};
use crate::object_builder::model::{
    base_object_of, get_base_object, insert_object, keys_unique, objects_map, source_fields_view,
    FieldSourceView, FullView, ObjectIdPair, RowSource, RowSourceView, TreeObject, TreeResponse,
};
use crate::object_builder::relations::RelationError;
use crate::object_builder::view_plan::{
    is_fresh, pair_view, pairs_view, prep_rows, RowPlanView, UnfinishedRow, UnfinishedRowPair,
    ViewPlanBuilder,
};

verus! {

impl UnfinishedRow {
    /// The row of a view without relations, built from one object.
    pub fn into_single(self, value: JsonValue) -> (r: RowSource)
        ensures
            r@ == RowSourceView::Single(self.root_object, value@, source_fields_view(self.fields@)),
    {
        RowSource::Single { root_object: self.root_object, value, fields: self.fields }
    }

    /// The row of a finished join.
    pub fn into_join(self) -> (r: RowSource)
        ensures
            r@ == RowSourceView::Join(
                objects_map(self.objects@),
                self.root_object,
                source_fields_view(self.fields@),
            ),
    {
        RowSource::Join { objects: self.objects, root_object: self.root_object, fields: self.fields }
    }
}

/// The model of a row that waits for objects.
pub struct RowModel {
    pub missing: nat,
    pub objects: Map<ObjectIdPair, JsonView>,
    pub root: ObjectIdPair,
    pub fields: Seq<(Seq<char>, FieldSourceView)>,
}

pub open spec fn row_model(r: UnfinishedRow) -> RowModel {
    RowModel {
        missing: r.missing as nat,
        objects: objects_map(r.objects@),
        root: r.root_object,
        fields: source_fields_view(r.fields@),
    }
}

pub open spec fn rows_model(s: Seq<Option<UnfinishedRow>>) -> Seq<Option<RowModel>> {
    s.map_values(
        |o: Option<UnfinishedRow>|
            match o {
                Some(r) => Some(row_model(r)),
                None => None,
            },
    )
}

pub open spec fn sets_of(s: Seq<Vec<ObjectIdPair>>) -> Seq<Set<ObjectIdPair>> {
    s.map_values(|v: Vec<ObjectIdPair>| v@.to_set())
}

/// The tree objects of all edges, in order.
pub open spec fn edge_objects(edges: Seq<TreeResponse>) -> Seq<TreeObject>
    decreases edges.len(),
{
    if edges.len() == 0 {
        Seq::empty()
    } else {
        edge_objects(edges.drop_last()) + edges.last().objects@
    }
}

/// The rows that a view plans for the given tree objects, in order.
pub open spec fn plan_tree_objects(view: FullView, objs: Seq<TreeObject>) -> Result<
    Seq<RowPlanView>,
    RelationError,
>
    decreases objs.len(),
{
    if objs.len() == 0 {
        Ok(Seq::empty())
    } else {
        match plan_tree_objects(view, objs.drop_last()) {
            Err(e) => Err(e),
            Ok(a) => match prep_rows(view, base_object_of(objs.last()), view.fields@, Some(objs.last())) {
                Err(e) => Err(e),
                Ok(b) => Ok(a + b),
            },
        }
    }
}

/// The model of a row as planned: it needs all its objects and holds none.
pub open spec fn planned_row(p: RowPlanView) -> RowModel {
    RowModel { missing: p.objects.len(), objects: Map::empty(), root: p.root, fields: p.fields }
}

/// What the rows waiting for an object become when it arrives, taking the rows
/// that need it in order, up to row `n`; the flag tells that a row that needed
/// it had already been handed out, which stops the walk.
pub open spec fn feed(
    rows: Seq<Option<RowModel>>,
    needed: Seq<Set<ObjectIdPair>>,
    n: nat,
    pair: ObjectIdPair,
    value: JsonView,
) -> (Seq<Option<RowModel>>, Seq<RowSourceView>, bool)
    decreases n,
{
    if n == 0 {
        (rows, Seq::empty(), false)
    } else {
        let (rs, out, stop) = feed(rows, needed, (n - 1) as nat, pair, value);
        let i = n - 1;
        if stop || !needed[i].contains(pair) {
            (rs, out, stop)
        } else {
            match rs[i] {
                None => (rs, out, true),
                Some(row) => {
                    let m: nat = if row.missing == 0 {
                        0
                    } else {
                        (row.missing - 1) as nat
                    };
                    let objects = row.objects.insert(pair, value);
                    if m == 0 {
                        (
                            rs.update(i, None),
                            out.push(RowSourceView::Join(objects, row.root, row.fields)),
                            false,
                        )
                    } else {
                        (
                            rs.update(i, Some(RowModel { missing: m, objects, ..row })),
                            out,
                            false,
                        )
                    }
                },
            }
        }
    }
}

/// Some row needs the object.
pub open spec fn is_needed(needed: Seq<Set<ObjectIdPair>>, pair: ObjectIdPair) -> bool {
    exists|i: int| 0 <= i < needed.len() && #[trigger] needed[i].contains(pair)
}

/// What the arrival of an object does: the rows that need it take it, and those
/// that it completes are handed out; an object that no row needs makes the rows
/// of a view without relations.
pub open spec fn add_object_model(
    view: FullView,
    rows: Seq<Option<RowModel>>,
    needed: Seq<Set<ObjectIdPair>>,
    pair: ObjectIdPair,
    value: JsonView,
) -> (Seq<Option<RowModel>>, Option<Result<Seq<RowSourceView>, RelationError>>) {
    if is_needed(needed, pair) {
        let (rs, out, stop) = feed(rows, needed, needed.len(), pair, value);
        (
            rs,
            if stop || out.len() == 0 {
                None
            } else {
                Some(Ok(out))
            },
        )
    } else {
        (
            rows,
            Some(
                match prep_rows(view, pair, view.fields@, None) {
                    Err(e) => Err(e),
                    Ok(planned) => Ok(
                        planned.map_values(
                            |p: RowPlanView| RowSourceView::Single(p.root, value, p.fields),
                        ),
                    ),
                },
            ),
        )
    }
}

pub open spec fn sources_view(s: Seq<RowSource>) -> Seq<RowSourceView> {
    s.map_values(|r: RowSource| r@)
}

/// Because objects are received on the go, and object builder needs to create joins,
/// these objects need to be temporarily stored in some kind of buffer until the last part
/// of the join arrives.
pub struct ViewPlan {
    pub unfinished_rows: Vec<Option<UnfinishedRow>>,
    /// For each row, the objects it needs, each once.
    pub needed: Vec<Vec<ObjectIdPair>>,
    pub view: FullView,
}

impl ViewPlan {
    pub open spec fn wf(&self) -> bool {
        &&& self.unfinished_rows.len() == self.needed.len()
        &&& forall|i: int| 0 <= i < self.needed.len() ==> (#[trigger] self.needed@[i])@.no_duplicates()
        &&& forall|i: int|
            0 <= i < self.unfinished_rows.len() ==> match #[trigger] self.unfinished_rows@[i] {
                Some(r) => keys_unique(r.objects@),
                None => true,
            }
    }

    pub open spec fn rows(&self) -> Seq<Option<RowModel>> {
        rows_model(self.unfinished_rows@)
    }

    pub open spec fn needed_sets(&self) -> Seq<Set<ObjectIdPair>> {
        sets_of(self.needed@)
    }

    /// The builder that plans rows of this view.
    pub fn builder(&self) -> (r: ViewPlanBuilder<'_>)
        ensures
            *r.view == self.view,
    {
        ViewPlanBuilder { view: &self.view }
    }
}

pub proof fn lemma_feed_len(
    rows: Seq<Option<RowModel>>,
    needed: Seq<Set<ObjectIdPair>>,
    n: nat,
    pair: ObjectIdPair,
    value: JsonView,
)
    requires
        n <= rows.len(),
        n <= needed.len(),
    ensures
        feed(rows, needed, n, pair, value).0.len() == rows.len(),
        forall|j: int|
            n <= j < rows.len() ==> #[trigger] feed(rows, needed, n, pair, value).0[j] == rows[j],
    decreases n,
{
    if n > 0 {
        lemma_feed_len(rows, needed, (n - 1) as nat, pair, value);
    }
}

/// Removes the first occurrences of repeated objects.
pub fn distinct_objects(v: &Vec<ObjectIdPair>) -> (r: Vec<ObjectIdPair>)
    ensures
        r@.no_duplicates(),
        r@.to_set() == v@.to_set(),
{
    let mut out: Vec<ObjectIdPair> = Vec::new();
    let mut i: usize = 0;
    while i < v.len()
        invariant
            i <= v.len(),
            out@.no_duplicates(),
            out@.to_set() == v@.take(i as int).to_set(),
        decreases v.len() - i,
    {
        let x = v[i];
        let mut found = false;
        let mut j: usize = 0;
        while j < out.len()
            invariant
                j <= out.len(),
                found ==> out@.contains(x),
                !found ==> forall|k: int| 0 <= k < j ==> out@[k] != x,
            decreases out.len() - j,
        {
            if out[j] == x {
                found = true;
            }
            j = j + 1;
        }
        assert(v@.take(i + 1) =~= v@.take(i as int).push(x));
        proof {
            crate::object_builder::view_plan::lemma_to_set_push(v@.take(i as int), x);
        }
        if !found {
            proof {
                crate::object_builder::view_plan::lemma_to_set_push(out@, x);
            }
            out.push(x);
        } else {
            assert(out@.to_set().insert(x) =~= out@.to_set());
        }
        i = i + 1;
    }
    assert(v@.take(i as int) =~= v@);
    out
}

/// Takes the row out of its slot, leaving the slot empty.
fn take_row(rows: &mut Vec<Option<UnfinishedRow>>, i: usize) -> (r: Option<UnfinishedRow>)
    requires
        i < old(rows).len(),
    ensures
        r == old(rows)@[i as int],
        final(rows)@ == old(rows)@.update(i as int, None),
{
    rows.push(None);
    let r = rows.swap_remove(i);
    assert(rows@ =~= old(rows)@.update(i as int, None));
    r
}

} // verus!

verus! {

pub open spec fn result_view(r: Option<Result<Vec<RowSource>, RelationError>>) -> Option<
    Result<Seq<RowSourceView>, RelationError>,
> {
    match r {
        None => None,
        Some(Ok(v)) => Some(Ok(sources_view(v@))),
        Some(Err(e)) => Some(Err(e)),
    }
}

pub proof fn lemma_edge_objects_concat(a: Seq<TreeResponse>, b: Seq<TreeResponse>)
    ensures
        edge_objects(a + b) == edge_objects(a) + edge_objects(b),
    decreases b.len(),
{
    if b.len() == 0 {
        assert(a + b =~= a);
        assert(edge_objects(b) =~= Seq::<TreeObject>::empty());
        assert(edge_objects(a) + edge_objects(b) =~= edge_objects(a));
    } else {
        assert((a + b).drop_last() =~= a + b.drop_last());
        lemma_edge_objects_concat(a, b.drop_last());
        assert(edge_objects(a + b) =~= edge_objects(a) + edge_objects(b));
    }
}

pub proof fn lemma_plan_err_extends(view: FullView, objs: Seq<TreeObject>, n: int)
    requires
        0 <= n <= objs.len(),
        plan_tree_objects(view, objs.take(n)) is Err,
    ensures
        plan_tree_objects(view, objs) == plan_tree_objects(view, objs.take(n)),
    decreases objs.len() - n,
{
    if objs.len() > n {
        assert(objs.drop_last().take(n) =~= objs.take(n));
        lemma_plan_err_extends(view, objs.drop_last(), n);
    } else {
        assert(objs.take(n) =~= objs);
    }
}

impl ViewPlan {
    /// Plans the rows of a view for the given edges: one set of rows for each
    /// tree object, each row waiting for the objects it needs.
    pub fn try_new(view: FullView, edges: &Vec<TreeResponse>) -> (r: Result<ViewPlan, RelationError>)
        ensures
            match r {
                Ok(p) => {
                    &&& p.wf()
                    &&& p.view == view
                    &&& plan_tree_objects(view, edge_objects(edges@)) matches Ok(planned)
                    &&& p.rows() == planned.map_values(|q: RowPlanView| Some(planned_row(q)))
                    &&& p.needed_sets() == planned.map_values(|q: RowPlanView| q.objects)
                },
                Err(e) => plan_tree_objects(view, edge_objects(edges@)) == Err::<
                    Seq<RowPlanView>,
                    RelationError,
                >(e),
            },
    {
        let ghost all = edge_objects(edges@);
        let mut planned: Vec<UnfinishedRowPair> = Vec::new();
        {
            let builder = ViewPlanBuilder { view: &view };
            let mut i: usize = 0;
            assert(edges@.take(0) =~= Seq::<TreeResponse>::empty());
            assert(edge_objects(Seq::<TreeResponse>::empty()) =~= Seq::<TreeObject>::empty());
            assert(pairs_view(planned@) =~= Seq::<RowPlanView>::empty());
            assert(plan_tree_objects(view, Seq::<TreeObject>::empty()) == Ok::<Seq<RowPlanView>, RelationError>(Seq::<RowPlanView>::empty()));
            while i < edges.len()
                invariant
                    i <= edges.len(),
                    *builder.view == view,
                    all == edge_objects(edges@),
                    crate::object_builder::view_plan::all_fresh(planned@),
                    plan_tree_objects(view, edge_objects(edges@.take(i as int))) == Ok::<
                        Seq<RowPlanView>,
                        RelationError,
                    >(pairs_view(planned@)),
                decreases edges.len() - i,
            {
                let objects = &edges[i].objects;
                let ghost before = edge_objects(edges@.take(i as int));
                proof {
                    assert(edges@.take(i + 1) =~= edges@.take(i as int).push(edges@[i as int]));
                    assert(edges@.take(i + 1).drop_last() =~= edges@.take(i as int));
                    lemma_edge_objects_concat(edges@.take(i + 1), edges@.skip(i + 1));
                    assert(edges@.take(i + 1) + edges@.skip(i + 1) =~= edges@);
                }
                let mut j: usize = 0;
                assert(before + objects@.take(0) =~= before);
                while j < objects.len()
                    invariant
                        i < edges.len(),
                        j <= objects.len(),
                        objects@ == edges@[i as int].objects@,
                        *builder.view == view,
                        all == edge_objects(edges@),
                        before == edge_objects(edges@.take(i as int)),
                        edge_objects(edges@.take(i + 1)) == before + objects@,
                        all == edge_objects(edges@.take(i + 1)) + edge_objects(edges@.skip(i + 1)),
                        crate::object_builder::view_plan::all_fresh(planned@),
                        plan_tree_objects(view, before + objects@.take(j as int)) == Ok::<
                            Seq<RowPlanView>,
                            RelationError,
                        >(pairs_view(planned@)),
                    decreases objects.len() - j,
                {
                    let t = &objects[j];
                    let ghost pre = before + objects@.take(j as int);
                    assert((before + objects@.take(j + 1)).drop_last() =~= pre);
                    assert((before + objects@.take(j + 1)).last() == *t);
                    let root = get_base_object(t);
                    match builder.prepare_unfinished_rows(root, &view.fields, Some(t)) {
                        Err(e) => {
                            proof {
                                assert(all.take((before.len() + j + 1) as int) =~= before + objects@.take(j + 1));
                                lemma_plan_err_extends(view, all, (before.len() + j + 1) as int);
                            }
                            return Err(e);
                        },
                        Ok(rows) => {
                            let ghost prev = planned@;
                            let ghost rws = rows@;
                            let mut rows = rows;
                            planned.append(&mut rows);
                            assert(planned@ =~= prev + rws);
                            assert(pairs_view(planned@) =~= pairs_view(prev) + pairs_view(rws));
                            assert(crate::object_builder::view_plan::all_fresh(planned@)) by {
                                assert forall|k: int| 0 <= k < planned@.len() implies is_fresh(
                                    #[trigger] planned@[k],
                                ) by {
                                    if k >= prev.len() {
                                        assert(planned@[k] == rws[k - prev.len()]);
                                    }
                                }
                            }
                        },
                    }
                    j = j + 1;
                }
                assert(objects@.take(j as int) =~= objects@);
                i = i + 1;
            }
            assert(edges@.take(i as int) =~= edges@);
        }
        let ghost pv = pairs_view(planned@);
        let ghost planned0 = planned@;
        let n = planned.len();
        let mut unfinished_rows: Vec<Option<UnfinishedRow>> = Vec::new();
        let mut needed: Vec<Vec<ObjectIdPair>> = Vec::new();
        let mut k: usize = 0;
        while planned.len() > 0
            invariant
                k + planned.len() == n,
                n == planned0.len(),
                pv == pairs_view(planned0),
                planned@ == planned0.skip(k as int),
                crate::object_builder::view_plan::all_fresh(planned0),
                unfinished_rows.len() == k,
                needed.len() == k,
                forall|i: int| 0 <= i < k ==> (#[trigger] needed@[i])@.no_duplicates(),
                forall|i: int|
                    0 <= i < k ==> match #[trigger] unfinished_rows@[i] {
                        Some(r) => keys_unique(r.objects@),
                        None => true,
                    },
                rows_model(unfinished_rows@) =~= pv.take(k as int).map_values(
                    |q: RowPlanView| Some(planned_row(q)),
                ),
                sets_of(needed@) =~= pv.take(k as int).map_values(|q: RowPlanView| q.objects),
            decreases planned.len(),
        {
            let (row, set) = planned.remove(0);
            assert(planned0[k as int] == (row, set));
            assert(is_fresh(planned0[k as int]));
            let d = distinct_objects(&set);
            proof {
                d@.unique_seq_to_set();
            }
            let mut row = row;
            row.missing = d.len();
            let ghost r_prev = unfinished_rows@;
            let ghost n_prev = needed@;
            unfinished_rows.push(Some(row));
            needed.push(d);
            proof {
                assert(pv[k as int] == pair_view((row, set)));
                assert(objects_map(row.objects@) =~= Map::<ObjectIdPair, JsonView>::empty());
                assert(row_model(row) == planned_row(pv[k as int]));
                assert(pv.take(k + 1) =~= pv.take(k as int).push(pv[k as int]));
                assert(unfinished_rows@ =~= r_prev.push(Some(row)));
                assert(needed@ =~= n_prev.push(d));
                assert(rows_model(unfinished_rows@) =~= rows_model(r_prev).push(Some(row_model(row))));
                assert(sets_of(needed@) =~= sets_of(n_prev).push(d@.to_set()));
            }
            k = k + 1;
        }
        assert(pv.take(k as int) =~= pv);
        Ok(ViewPlan { unfinished_rows, needed, view })
    }
}

} // verus!

verus! {

/// Whether the list holds the object.
pub fn contains_object(v: &Vec<ObjectIdPair>, x: ObjectIdPair) -> (r: bool)
    ensures
        r == v@.contains(x),
{
    let mut i: usize = 0;
    while i < v.len()
        invariant
            i <= v.len(),
            forall|k: int| 0 <= k < i ==> v@[k] != x,
        decreases v.len() - i,
    {
        if v[i] == x {
            assert(v@[i as int] == x);
            return true;
        }
        i = i + 1;
    }
    false
}

pub proof fn lemma_feed_stopped(
    rows: Seq<Option<RowModel>>,
    needed: Seq<Set<ObjectIdPair>>,
    m: nat,
    n: nat,
    pair: ObjectIdPair,
    value: JsonView,
)
    requires
        m <= n,
        feed(rows, needed, m, pair, value).2,
    ensures
        feed(rows, needed, n, pair, value) == feed(rows, needed, m, pair, value),
    decreases n - m,
{
    if n > m {
        lemma_feed_stopped(rows, needed, m, (n - 1) as nat, pair, value);
    }
}

impl ViewPlan {
    /// Takes in an object as it arrives. The rows that need it store it; those
    /// that then have all their objects are handed out as joins. An object that
    /// no row needs comes from a view without relations: it makes its rows at once.
    pub fn add_object(&mut self, pair: ObjectIdPair, value: JsonValue) -> (r: Option<
        Result<Vec<RowSource>, RelationError>,
    >)
        requires
            old(self).wf(),
        ensures
            final(self).wf(),
            final(self).needed == old(self).needed,
            final(self).view == old(self).view,
            (final(self).rows(), result_view(r)) == add_object_model(
                old(self).view,
                old(self).rows(),
                old(self).needed_sets(),
                pair,
                value@,
            ),
    {
        let ghost old_rows = self.rows();
        let ghost needed = self.needed_sets();
        let n = self.needed.len();
        let mut found = false;
        let mut i: usize = 0;
        while i < n
            invariant
                n == self.needed.len(),
                needed == self.needed_sets(),
                i <= n,
                found ==> is_needed(needed, pair),
                !found ==> forall|k: int| 0 <= k < i ==> !needed[k].contains(pair),
            decreases n - i,
        {
            if contains_object(&self.needed[i], pair) {
                assert(needed[i as int].contains(pair));
                found = true;
            }
            i = i + 1;
        }
        if !found {
            let rows = self.builder().prepare_unfinished_rows(pair, &self.view.fields, None);
            match rows {
                Err(e) => {
                    return Some(Err(e));
                },
                Ok(rows) => {
                    let ghost planned = pairs_view(rows@);
                    let mut rows = rows;
                    let mut out: Vec<RowSource> = Vec::new();
                    let m = rows.len();
                    let ghost rows0 = rows@;
                    let mut k: usize = 0;
                    while rows.len() > 0
                        invariant
                            k + rows.len() == m,
                            m == rows0.len(),
                            rows@ == rows0.skip(k as int),
                            planned == pairs_view(rows0),
                            sources_view(out@) =~= planned.take(k as int).map_values(
                                |p: RowPlanView| RowSourceView::Single(p.root, value@, p.fields),
                            ),
                        decreases rows.len(),
                    {
                        let (row, _set) = rows.remove(0);
                        assert(rows0[k as int] == (row, _set));
                        let ghost prev = out@;
                        let src = row.into_single(value.duplicate());
                        assert(planned[k as int] == pair_view((row, _set)));
                        assert(src@ == RowSourceView::Single(planned[k as int].root, value@, planned[k as int].fields));
                        out.push(src);
                        assert(out@ =~= prev.push(src));
                        assert(sources_view(out@) =~= sources_view(prev).push(src@));
                        assert(planned.take(k + 1) =~= planned.take(k as int).push(planned[k as int]));
                        k = k + 1;
                    }
                    assert(planned.take(k as int) =~= planned);
                    return Some(Ok(out));
                },
            }
        }
        let mut result: Vec<RowSource> = Vec::new();
        let mut i: usize = 0;
        proof {
            lemma_feed_len(old_rows, needed, 0, pair, value@);
        }
        assert(sources_view(result@) =~= Seq::<RowSourceView>::empty());
        while i < n
            invariant
                n == self.needed.len(),
                needed == self.needed_sets(),
                needed.len() == n,
                old_rows.len() == n,
                old_rows == old(self).rows(),
                needed == old(self).needed_sets(),
                i <= n,
                self.wf(),
                self.needed == old(self).needed,
                self.view == old(self).view,
                is_needed(needed, pair),
                (self.rows(), sources_view(result@), false) == feed(old_rows, needed, i as nat, pair, value@),
            decreases n - i,
        {
            let ghost before_rows = self.rows();
            let ghost before_out = sources_view(result@);
            if contains_object(&self.needed[i], pair) {
                assert(needed[i as int].contains(pair));
                let taken = take_row(&mut self.unfinished_rows, i);
                match taken {
                    None => {
                        proof {
                            assert(self.rows() =~= before_rows);
                            assert(before_rows[i as int] is None);
                            assert(feed(old_rows, needed, (i + 1) as nat, pair, value@) == (before_rows, before_out, true));
                            lemma_feed_stopped(old_rows, needed, (i + 1) as nat, n as nat, pair, value@);
                            assert(feed(old_rows, needed, needed.len(), pair, value@).2);
                            assert(add_object_model(old(self).view, old_rows, needed, pair, value@).1 is None);
                            assert(add_object_model(old(self).view, old_rows, needed, pair, value@).0 == before_rows);
                        }
                        return None;
                    },
                    Some(row) => {
                        let mut row = row;
                        let ghost rm = row_model(row);
                        assert(before_rows[i as int] == Some(rm));
                        if row.missing > 0 {
                            row.missing = row.missing - 1;
                        }
                        let copy = value.duplicate();
                        insert_object(&mut row.objects, pair, copy);
                        if row.missing == 0 {
                            let ghost prev = result@;
                            let src = row.into_join();
                            result.push(src);
                            proof {
                                assert(result@ =~= prev.push(src));
                                assert(self.rows() =~= before_rows.update(i as int, None));
                            }
                        } else {
                            self.unfinished_rows.set(i, Some(row));
                            proof {
                                assert(self.rows() =~= before_rows.update(
                                    i as int,
                                    Some(RowModel { missing: (rm.missing - 1) as nat, objects: rm.objects.insert(pair, value@), ..rm }),
                                ));
                            }
                        }
                    },
                }
            }
            i = i + 1;
        }
        if result.len() == 0 {
            None
        } else {
            Some(Ok(result))
        }
    }
}

} // verus!
