use vstd::prelude::*;

use crate::json::JsonView;
use crate::object_builder::buffer::{
    add_object_model, feed, is_needed, planned_row, RowModel, ViewPlan,
};
use crate::object_builder::model::{FullView, ObjectIdPair, RowSourceView};
use crate::object_builder::view_plan::{equals_product, prep_computation, RowPlanView};
use crate::object_builder::model::{Computation, ComputationSourceView, TreeObject};

verus! {

/// The rows of a plan agree with what has arrived so far: a row whose objects
/// have all arrived was handed out; every other row holds exactly the arrived
/// objects it needs and counts the ones it still waits for.
pub open spec fn plan_consistent(
    rows: Seq<Option<RowModel>>,
    plan: Seq<RowPlanView>,
    arrived: Map<ObjectIdPair, JsonView>,
) -> bool {
    &&& rows.len() == plan.len()
    &&& forall|i: int|
        0 <= i < rows.len() ==> {
            let s = (#[trigger] plan[i]).objects;
            &&& s.finite()
            &&& match rows[i] {
                None => s.len() > 0 && s.subset_of(arrived.dom()),
                Some(r) => {
                    &&& r.root == plan[i].root
                    &&& r.fields == plan[i].fields
                    &&& r.objects == arrived.restrict(s)
                    &&& r.missing == s.difference(arrived.dom()).len()
                    &&& (s.len() > 0 ==> !s.subset_of(arrived.dom()))
                },
            }
        }
}

/// The joins that the arrival of `pair` completes among the first `n` rows, in row order.
pub open spec fn completed_joins(
    plan: Seq<RowPlanView>,
    arrived: Map<ObjectIdPair, JsonView>,
    pair: ObjectIdPair,
    n: nat,
) -> Seq<RowSourceView>
    decreases n,
{
    if n == 0 {
        Seq::empty()
    } else {
        let prev = completed_joins(plan, arrived, pair, (n - 1) as nat);
        let s = plan[n - 1].objects;
        if s.contains(pair) && s.subset_of(arrived.dom()) {
            prev.push(RowSourceView::Join(arrived.restrict(s), plan[n - 1].root, plan[n - 1].fields))
        } else {
            prev
        }
    }
}

pub proof fn lemma_missing_after(s: Set<ObjectIdPair>, a: Set<ObjectIdPair>, pair: ObjectIdPair)
    requires
        s.finite(),
        s.contains(pair),
        !a.contains(pair),
    ensures
        s.difference(a.insert(pair)) == s.difference(a).remove(pair),
        s.difference(a).len() == s.difference(a.insert(pair)).len() + 1,
        s.difference(a.insert(pair)).len() == 0 <==> s.subset_of(a.insert(pair)),
        s.difference(a).len() > 0,
{
    assert(s.difference(a.insert(pair)) =~= s.difference(a).remove(pair));
    vstd::set::axiom_set_difference_finite(s, a);
    vstd::set::axiom_set_remove_len(s.difference(a), pair);
    assert(s.difference(a).contains(pair));
    vstd::set::axiom_set_difference_finite(s, a.insert(pair));
    if s.difference(a.insert(pair)).len() == 0 {
        s.difference(a.insert(pair)).lemma_len0_is_empty();
        assert forall|x: ObjectIdPair| s.contains(x) implies a.insert(pair).contains(x) by {
            assert(!s.difference(a.insert(pair)).contains(x));
        }
    }
    if s.subset_of(a.insert(pair)) {
        assert(s.difference(a.insert(pair)) =~= Set::<ObjectIdPair>::empty());
    }
}

pub proof fn lemma_feed_consistent(
    rows: Seq<Option<RowModel>>,
    plan: Seq<RowPlanView>,
    arrived: Map<ObjectIdPair, JsonView>,
    pair: ObjectIdPair,
    value: JsonView,
    n: nat,
)
    requires
        plan_consistent(rows, plan, arrived),
        !arrived.contains_key(pair),
        n <= plan.len(),
    ensures
        ({
            let (rs, out, stop) = feed(rows, plan.map_values(|q: RowPlanView| q.objects), n, pair, value);
            let after = arrived.insert(pair, value);
            &&& !stop
            &&& rs.len() == rows.len()
            &&& out == completed_joins(plan, after, pair, n)
            &&& forall|j: int| n <= j < rows.len() ==> rs[j] == rows[j]
            &&& forall|j: int| 0 <= j < n ==> {
                let s = (#[trigger] plan[j]).objects;
                match rs[j] {
                    None => s.len() > 0 && s.subset_of(after.dom()),
                    Some(r) => {
                        &&& r.root == plan[j].root
                        &&& r.fields == plan[j].fields
                        &&& r.objects == after.restrict(s)
                        &&& r.missing == s.difference(after.dom()).len()
                        &&& (s.len() > 0 ==> !s.subset_of(after.dom()))
                    },
                }
            }
        }),
    decreases n,
{
    let needed = plan.map_values(|q: RowPlanView| q.objects);
    let after = arrived.insert(pair, value);
    assert(after.dom() =~= arrived.dom().insert(pair));
    if n > 0 {
        lemma_feed_consistent(rows, plan, arrived, pair, value, (n - 1) as nat);
        let i = n - 1;
        let s = plan[i].objects;
        assert(needed[i] == s);
        assert(s.finite());
        if s.contains(pair) {
            match rows[i] {
                None => {
                    assert(s.subset_of(arrived.dom()));
                    assert(arrived.dom().contains(pair));
                },
                Some(r) => {
                    lemma_missing_after(s, arrived.dom(), pair);
                    assert(r.objects.insert(pair, value) =~= after.restrict(s));
                },
            }
        } else {
            match rows[i] {
                None => {},
                Some(r) => {
                    assert(r.objects =~= after.restrict(s));
                    assert(s.difference(after.dom()) =~= s.difference(arrived.dom()));
                    if s.len() > 0 && s.subset_of(after.dom()) {
                        assert(s.subset_of(arrived.dom()));
                    }
                },
            }
        }
    }
}

/// Join completeness: while no object arrives twice, the arrival of an object
/// hands out exactly the rows that it completes (those that need it and whose
/// other objects have all arrived), in row order, each with exactly the objects
/// it needs and their values; every other row keeps waiting, holding the
/// objects that have arrived for it.
pub proof fn law_add_object_completes_joins(
    view: FullView,
    rows: Seq<Option<RowModel>>,
    plan: Seq<RowPlanView>,
    arrived: Map<ObjectIdPair, JsonView>,
    pair: ObjectIdPair,
    value: JsonView,
)
    requires
        plan_consistent(rows, plan, arrived),
        !arrived.contains_key(pair),
        is_needed(plan.map_values(|q: RowPlanView| q.objects), pair),
    ensures
        ({
            let (rs, res) = add_object_model(
                view,
                rows,
                plan.map_values(|q: RowPlanView| q.objects),
                pair,
                value,
            );
            let after = arrived.insert(pair, value);
            let done = completed_joins(plan, after, pair, plan.len());
            &&& plan_consistent(rs, plan, after)
            &&& res == if done.len() == 0 {
                None
            } else {
                Some(Ok::<Seq<RowSourceView>, crate::object_builder::relations::RelationError>(done))
            }
        }),
{
    lemma_feed_consistent(rows, plan, arrived, pair, value, plan.len());
    let needed = plan.map_values(|q: RowPlanView| q.objects);
    assert(needed.len() == plan.len());
    let (rs, out, stop) = feed(rows, needed, needed.len(), pair, value);
    let after = arrived.insert(pair, value);
    assert forall|i: int| 0 <= i < rs.len() implies {
        let s = (#[trigger] plan[i]).objects;
        &&& s.finite()
        &&& match rs[i] {
            None => s.len() > 0 && s.subset_of(after.dom()),
            Some(r) => {
                &&& r.root == plan[i].root
                &&& r.fields == plan[i].fields
                &&& r.objects == after.restrict(s)
                &&& r.missing == s.difference(after.dom()).len()
                &&& (s.len() > 0 ==> !s.subset_of(after.dom()))
            },
        }
    } by {
        assert(plan[i].objects.finite());
    }
}

/// A new plan holds every planned row, each waiting for all the objects it needs.
pub proof fn law_new_plan_waits_for_all(planned: Seq<RowPlanView>)
    requires
        forall|i: int| 0 <= i < planned.len() ==> (#[trigger] planned[i]).objects.finite(),
    ensures
        plan_consistent(
            planned.map_values(|q: RowPlanView| Some(planned_row(q))),
            planned,
            Map::<ObjectIdPair, JsonView>::empty(),
        ),
{
    let rows = planned.map_values(|q: RowPlanView| Some(planned_row(q)));
    let empty = Map::<ObjectIdPair, JsonView>::empty();
    assert forall|i: int| 0 <= i < rows.len() implies {
        let s = (#[trigger] planned[i]).objects;
        &&& s.finite()
        &&& match rows[i] {
            None => s.len() > 0 && s.subset_of(empty.dom()),
            Some(r) => {
                &&& r.root == planned[i].root
                &&& r.fields == planned[i].fields
                &&& r.objects == empty.restrict(s)
                &&& r.missing == s.difference(empty.dom()).len()
                &&& (s.len() > 0 ==> !s.subset_of(empty.dom()))
            },
        }
    } by {
        let s = planned[i].objects;
        assert(empty.restrict(s) =~= Map::<ObjectIdPair, JsonView>::empty());
        assert(s.difference(empty.dom()) =~= s);
        if s.len() > 0 && s.subset_of(empty.dom()) {
            assert(s =~= Set::<ObjectIdPair>::empty());
        }
    }
}

/// The indices below `n` of the rows that were waiting before and were handed out after,
/// in order.
pub open spec fn cleared_upto(before: Seq<Option<RowModel>>, after: Seq<Option<RowModel>>, n: nat) -> Seq<int>
    decreases n,
{
    if n == 0 {
        Seq::empty()
    } else {
        let prev = cleared_upto(before, after, (n - 1) as nat);
        if before[n - 1] is Some && after[n - 1] is None {
            prev.push(n - 1)
        } else {
            prev
        }
    }
}

proof fn lemma_cleared_prefix(before: Seq<Option<RowModel>>, a1: Seq<Option<RowModel>>, a2: Seq<Option<RowModel>>, n: nat)
    requires
        forall|j: int| 0 <= j < n ==> a1[j] == a2[j],
    ensures
        cleared_upto(before, a1, n) == cleared_upto(before, a2, n),
    decreases n,
{
    if n > 0 {
        lemma_cleared_prefix(before, a1, a2, (n - 1) as nat);
    }
}

/// What the walk of an arrival does to the slots of the rows: it keeps their number, a row
/// handed out earlier stays handed out, and, where the walk is not stopped, the joins it
/// hands out are, in order, those of the rows it turns from waiting to handed out.
pub proof fn lemma_feed_hands_out(
    rows: Seq<Option<RowModel>>,
    needed: Seq<Set<ObjectIdPair>>,
    n: nat,
    pair: ObjectIdPair,
    value: JsonView,
)
    requires
        n <= rows.len(),
        n <= needed.len(),
    ensures
        ({
            let (rs, out, stop) = feed(rows, needed, n, pair, value);
            let c = cleared_upto(rows, rs, n);
            &&& rs.len() == rows.len()
            &&& forall|j: int| n <= j < rows.len() ==> rs[j] == rows[j]
            &&& forall|j: int| 0 <= j < rows.len() && rows[j] is None ==> rs[j] is None
            &&& !stop ==> out.len() == c.len()
            &&& !stop ==> forall|k: int|
                0 <= k < out.len() ==> {
                    &&& 0 <= c[k] < n
                    &&& rows[c[k]] is Some
                    &&& (#[trigger] out[k]) matches RowSourceView::Join(_, root, fields)
                    &&& root == rows[c[k]]->0.root
                    &&& fields == rows[c[k]]->0.fields
                }
        }),
    decreases n,
{
    if n > 0 {
        lemma_feed_hands_out(rows, needed, (n - 1) as nat, pair, value);
        let (rs1, out1, stop1) = feed(rows, needed, (n - 1) as nat, pair, value);
        let i = n - 1;
        let (rs, out, stop) = feed(rows, needed, n, pair, value);
        if stop1 || !needed[i].contains(pair) {
        } else {
            match rs1[i] {
                None => {},
                Some(row) => {
                    lemma_cleared_prefix(rows, rs, rs1, (n - 1) as nat);
                    let c1 = cleared_upto(rows, rs1, (n - 1) as nat);
                    let c = cleared_upto(rows, rs, n);
                    let m: nat = if row.missing == 0 {
                        0
                    } else {
                        (row.missing - 1) as nat
                    };
                    if m == 0 {
                        assert(c == c1.push(i as int));
                        assert forall|k: int| 0 <= k < out.len() implies {
                            &&& 0 <= c[k] < n
                            &&& rows[c[k]] is Some
                            &&& (#[trigger] out[k]) matches RowSourceView::Join(_, root, fields)
                            &&& root == rows[c[k]]->0.root
                            &&& fields == rows[c[k]]->0.fields
                        } by {
                            if k < out1.len() {
                                assert(out[k] == out1[k]);
                                assert(c[k] == c1[k]);
                            }
                        }
                    } else {
                        assert(c == c1);
                        assert forall|k: int| 0 <= k < out.len() implies {
                            &&& 0 <= c[k] < n
                            &&& rows[c[k]] is Some
                            &&& (#[trigger] out[k]) matches RowSourceView::Join(_, root, fields)
                            &&& root == rows[c[k]]->0.root
                            &&& fields == rows[c[k]]->0.fields
                        } by {
                            assert(out[k] == out1[k]);
                        }
                    }
                },
            }
        }
    }
}

/// The rows after a sequence of arrivals (objects and their values), one after the other.
pub open spec fn rows_after(
    view: FullView,
    rows: Seq<Option<RowModel>>,
    needed: Seq<Set<ObjectIdPair>>,
    arrivals: Seq<(ObjectIdPair, JsonView)>,
) -> Seq<Option<RowModel>>
    decreases arrivals.len(),
{
    if arrivals.len() == 0 {
        rows
    } else {
        add_object_model(
            view,
            rows_after(view, rows, needed, arrivals.drop_last()),
            needed,
            arrivals.last().0,
            arrivals.last().1,
        ).0
    }
}

/// The row at `i` is handed out by the arrival at step `k`: it was waiting before it
/// and is no longer after it.
pub open spec fn handed_out_at(
    view: FullView,
    rows: Seq<Option<RowModel>>,
    needed: Seq<Set<ObjectIdPair>>,
    arrivals: Seq<(ObjectIdPair, JsonView)>,
    k: int,
    i: int,
) -> bool {
    &&& rows_after(view, rows, needed, arrivals.take(k))[i] is Some
    &&& rows_after(view, rows, needed, arrivals.take(k + 1))[i] is None
}

/// One arrival: the number of rows stays, a row handed out stays handed out, and the joins
/// handed out are, in order, those of the rows that the arrival turns from waiting to
/// handed out, each with that row's root and fields.
pub proof fn law_arrival_hands_out_cleared_rows(
    view: FullView,
    rows: Seq<Option<RowModel>>,
    needed: Seq<Set<ObjectIdPair>>,
    pair: ObjectIdPair,
    value: JsonView,
)
    requires
        rows.len() == needed.len(),
    ensures
        ({
            let (rs, res) = add_object_model(view, rows, needed, pair, value);
            let c = cleared_upto(rows, rs, rows.len());
            &&& rs.len() == rows.len()
            &&& forall|j: int| 0 <= j < rows.len() && rows[j] is None ==> rs[j] is None
            &&& is_needed(needed, pair) ==> match res {
                Some(Ok(out)) => {
                    &&& out.len() == c.len()
                    &&& forall|k: int|
                        0 <= k < out.len() ==> {
                            &&& 0 <= c[k] < rows.len()
                            &&& rows[c[k]] is Some
                            &&& (#[trigger] out[k]) matches RowSourceView::Join(_, root, fields)
                            &&& root == rows[c[k]]->0.root
                            &&& fields == rows[c[k]]->0.fields
                        }
                },
                _ => true,
            }
            &&& !is_needed(needed, pair) ==> rs == rows
        }),
{
    if is_needed(needed, pair) {
        lemma_feed_hands_out(rows, needed, needed.len(), pair, value);
    }
}

proof fn lemma_rows_after_len(
    view: FullView,
    rows: Seq<Option<RowModel>>,
    needed: Seq<Set<ObjectIdPair>>,
    arrivals: Seq<(ObjectIdPair, JsonView)>,
)
    requires
        rows.len() == needed.len(),
    ensures
        rows_after(view, rows, needed, arrivals).len() == rows.len(),
    decreases arrivals.len(),
{
    if arrivals.len() > 0 {
        lemma_rows_after_len(view, rows, needed, arrivals.drop_last());
        law_arrival_hands_out_cleared_rows(
            view,
            rows_after(view, rows, needed, arrivals.drop_last()),
            needed,
            arrivals.last().0,
            arrivals.last().1,
        );
    }
}

proof fn lemma_handed_out_stays(
    view: FullView,
    rows: Seq<Option<RowModel>>,
    needed: Seq<Set<ObjectIdPair>>,
    arrivals: Seq<(ObjectIdPair, JsonView)>,
    k: int,
    m: int,
    i: int,
)
    requires
        rows.len() == needed.len(),
        0 <= k <= m <= arrivals.len(),
        0 <= i < rows.len(),
        rows_after(view, rows, needed, arrivals.take(k))[i] is None,
    ensures
        rows_after(view, rows, needed, arrivals.take(m))[i] is None,
    decreases m - k,
{
    if k < m {
        lemma_handed_out_stays(view, rows, needed, arrivals, k, m - 1, i);
        let prev = arrivals.take(m - 1);
        assert(arrivals.take(m).drop_last() =~= prev);
        assert(arrivals.take(m).last() == arrivals[m - 1]);
        lemma_rows_after_len(view, rows, needed, prev);
        law_arrival_hands_out_cleared_rows(
            view,
            rows_after(view, rows, needed, prev),
            needed,
            arrivals[m - 1].0,
            arrivals[m - 1].1,
        );
    }
}

/// Over any sequence of arrivals, a row of the plan is handed out at most once: once
/// handed out its slot stays empty, so no later arrival hands it out again (and each
/// arrival hands out exactly the rows it empties, `law_arrival_hands_out_cleared_rows`).
pub proof fn law_rows_handed_out_once(
    view: FullView,
    rows: Seq<Option<RowModel>>,
    needed: Seq<Set<ObjectIdPair>>,
    arrivals: Seq<(ObjectIdPair, JsonView)>,
    k1: int,
    k2: int,
    i: int,
)
    requires
        rows.len() == needed.len(),
        0 <= k1 < k2 < arrivals.len(),
        0 <= i < rows.len(),
    ensures
        !(handed_out_at(view, rows, needed, arrivals, k1, i) && handed_out_at(
            view,
            rows,
            needed,
            arrivals,
            k2,
            i,
        )),
{
    if handed_out_at(view, rows, needed, arrivals, k1, i) {
        lemma_handed_out_stays(view, rows, needed, arrivals, k1 + 1, k2, i);
    }
}

/// The product of resolved computations is laid out left by left: it has one entry per pair,
/// and the pair of the `i`-th left one with the `j`-th right one stands at `i * |R| + j`,
/// needing the objects of both.
pub proof fn lemma_equals_product_layout(
    ls: Seq<(ComputationSourceView, Set<ObjectIdPair>)>,
    rs: Seq<(ComputationSourceView, Set<ObjectIdPair>)>,
)
    ensures
        equals_product(ls, rs).len() == ls.len() * rs.len(),
        forall|i: int, j: int|
            0 <= i < ls.len() && 0 <= j < rs.len() ==> #[trigger] equals_product(ls, rs)[i * rs.len() + j]
                == (ComputationSourceView::Equals(Box::new(ls[i].0), Box::new(rs[j].0)), ls[i].1.union(rs[j].1)),
    decreases ls.len(),
{
    let n = rs.len() as int;
    if ls.len() == 0 {
        assert(ls.len() * rs.len() == 0) by (nonlinear_arith)
            requires
                ls.len() == 0,
        ;
    } else {
        let m = ls.len() as int;
        lemma_equals_product_layout(ls.drop_last(), rs);
        let p = equals_product(ls, rs);
        let q = equals_product(ls.drop_last(), rs);
        assert((m - 1) * n + n == m * n) by (nonlinear_arith);
        assert(ls.drop_last().len() == m - 1);
        assert(q.len() == (m - 1) * n);
        assert(p.len() == q.len() + n);
        assert(ls.len() * rs.len() == m * n);
        assert forall|i: int, j: int| 0 <= i < ls.len() && 0 <= j < rs.len() implies #[trigger] p[i * n + j]
            == (ComputationSourceView::Equals(Box::new(ls[i].0), Box::new(rs[j].0)), ls[i].1.union(rs[j].1)) by {
            if i < m - 1 {
                assert(i * n + j < (m - 1) * n) by (nonlinear_arith)
                    requires
                        0 <= i < m - 1,
                        0 <= j < n,
                ;
                assert(ls.drop_last()[i] == ls[i]);
                assert(p[i * n + j] == q[i * n + j]);
            } else {
                assert(i * n + j == (m - 1) * n + j) by (nonlinear_arith)
                    requires
                        i == m - 1,
                ;
                assert(p[i * n + j] == p[q.len() + j]);
            }
        }
    }
}

/// An `Equals` computation resolves to every pairing of a resolved left side with a
/// resolved right side: `|L| * |R|` of them, the pair of `L[i]` and `R[j]` at `i * |R| + j`,
/// needing the objects of both.
pub proof fn law_equals_computation_product(
    view: FullView,
    base: ObjectIdPair,
    lhs: Computation,
    rhs: Computation,
    tree: Option<TreeObject>,
)
    ensures
        match (prep_computation(view, base, lhs, tree), prep_computation(view, base, rhs, tree)) {
            (Ok(ls), Ok(rs)) => prep_computation(
                view,
                base,
                Computation::Equals { lhs: Box::new(lhs), rhs: Box::new(rhs) },
                tree,
            ) matches Ok(v) && v.len() == ls.len() * rs.len() && forall|i: int, j: int|
                0 <= i < ls.len() && 0 <= j < rs.len() ==> #[trigger] v[i * rs.len() + j] == (
                    ComputationSourceView::Equals(Box::new(ls[i].0), Box::new(rs[j].0)),
                    ls[i].1.union(rs[j].1),
                ),
            _ => true,
        },
{
    match (prep_computation(view, base, lhs, tree), prep_computation(view, base, rhs, tree)) {
        (Ok(ls), Ok(rs)) => {
            lemma_equals_product_layout(ls, rs);
        },
        _ => {},
    }
}

} // verus!
