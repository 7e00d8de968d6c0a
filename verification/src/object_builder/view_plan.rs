use vstd::prelude::*;

use crate::json::JsonValue;
use crate::object_builder::model::{
    base_object_of, lemma_source_fields_view, source_fields_view, ArrayElementSource, Computation,
    ComputationSource, ComputationSourceView, FieldDefinition, FieldDefinitionSource,
    FieldSourceView, FullView, ObjectIdPair, TreeObject,
};
use crate::object_builder::relations::{
    find_tree_object_for_relation, get_objects_ids_for_relation, objects_for_relation, opt_deref,
    tree_object_for_relation, RelationError,
};

verus! {

/// A row of a view that waits for the objects it joins.
pub struct UnfinishedRow {
    /// Number of objects that are still missing to finish the join.
    pub missing: usize,
    /// Stored objects waiting for missing ones.
    pub objects: Vec<(ObjectIdPair, JsonValue)>,
    pub root_object: ObjectIdPair,
    pub fields: Vec<(String, FieldDefinitionSource)>,
}

/// A planned row with the objects it needs.
pub type UnfinishedRowPair = (UnfinishedRow, Vec<ObjectIdPair>);

/// The model of a planned row: its base object, its fields and the objects it needs.
pub struct RowPlanView {
    pub root: ObjectIdPair,
    pub fields: Seq<(Seq<char>, FieldSourceView)>,
    pub objects: Set<ObjectIdPair>,
}

pub open spec fn pair_view(p: UnfinishedRowPair) -> RowPlanView {
    RowPlanView { root: p.0.root_object, fields: source_fields_view(p.0.fields@), objects: p.1@.to_set() }
}

pub open spec fn pairs_view(s: Seq<UnfinishedRowPair>) -> Seq<RowPlanView> {
    s.map_values(|p: UnfinishedRowPair| pair_view(p))
}

/// A row that holds no object yet and waits for none.
pub open spec fn is_fresh(p: UnfinishedRowPair) -> bool {
    p.0.missing == 0 && p.0.objects@.len() == 0
}

pub open spec fn all_fresh(s: Seq<UnfinishedRowPair>) -> bool {
    forall|i: int| 0 <= i < s.len() ==> is_fresh(#[trigger] s[i])
}

/// The row that a field definition goes into, keyed by `key`; an earlier entry with that key is replaced.
pub open spec fn fields_insert(
    fs: Seq<(Seq<char>, FieldSourceView)>,
    key: Seq<char>,
    value: FieldSourceView,
) -> Seq<(Seq<char>, FieldSourceView)>
    decreases fs.len(),
{
    if fs.len() == 0 {
        seq![(key, value)]
    } else if fs[0].0 == key {
        seq![(key, value)] + fs.drop_first()
    } else {
        seq![fs[0]] + fields_insert(fs.drop_first(), key, value)
    }
}

pub open spec fn comp_pairs_view(s: Seq<(ComputationSource, Vec<ObjectIdPair>)>) -> Seq<
    (ComputationSourceView, Set<ObjectIdPair>),
> {
    s.map_values(|p: (ComputationSource, Vec<ObjectIdPair>)| (p.0@, p.1@.to_set()))
}

/// Every pairing of a left computation with a right one, left first.
pub open spec fn equals_product(
    ls: Seq<(ComputationSourceView, Set<ObjectIdPair>)>,
    rs: Seq<(ComputationSourceView, Set<ObjectIdPair>)>,
) -> Seq<(ComputationSourceView, Set<ObjectIdPair>)>
    decreases ls.len(),
{
    if ls.len() == 0 {
        Seq::empty()
    } else {
        let l = ls.last();
        equals_product(ls.drop_last(), rs) + rs.map_values(
            |r: (ComputationSourceView, Set<ObjectIdPair>)|
                (ComputationSourceView::Equals(Box::new(l.0), Box::new(r.0)), l.1.union(r.1)),
        )
    }
}

/// The resolved variants of a computation for a row with base object `base`,
/// each with the objects it needs.
pub open spec fn prep_computation(
    view: FullView,
    base: ObjectIdPair,
    c: Computation,
    tree: Option<TreeObject>,
) -> Result<Seq<(ComputationSourceView, Set<ObjectIdPair>)>, RelationError>
    decreases c,
{
    match c {
        Computation::RawValue { value } => Ok(
            seq![(ComputationSourceView::RawValue(value@), Set::<ObjectIdPair>::empty())],
        ),
        Computation::FieldValue { schema_id, field_path } => match objects_for_relation(
            view,
            schema_id,
            tree,
        ) {
            Err(e) => Err(e),
            Ok(o) => {
                let objs = match o {
                    Some(v) => v,
                    None => seq![base],
                };
                Ok(
                    objs.map_values(
                        |obj: ObjectIdPair|
                            (
                                ComputationSourceView::FieldValue(obj, field_path@),
                                set![obj, base],
                            ),
                    ),
                )
            },
        },
        Computation::Equals { lhs, rhs } => match prep_computation(view, base, *lhs, tree) {
            Err(e) => Err(e),
            Ok(ls) => match prep_computation(view, base, *rhs, tree) {
                Err(e) => Err(e),
                Ok(rs) => Ok(equals_product(ls, rs)),
            },
        },
    }
}

/// The objects that any of the rows needs.
pub open spec fn union_objects(rows: Seq<RowPlanView>) -> Set<ObjectIdPair>
    decreases rows.len(),
{
    if rows.len() == 0 {
        Set::empty()
    } else {
        union_objects(rows.drop_last()).union(rows.last().objects)
    }
}

/// The rows that one planned row becomes once the field `name` is added to it.
pub open spec fn prep_field(
    view: FullView,
    row: RowPlanView,
    name: Seq<char>,
    def: FieldDefinition,
    tree: Option<TreeObject>,
) -> Result<Seq<RowPlanView>, RelationError>
    decreases def, 2nat, 0nat,
{
    match def {
        FieldDefinition::Simple { field_name, field_type } => Ok(
            seq![
                RowPlanView {
                    root: row.root,
                    fields: fields_insert(
                        row.fields,
                        field_name@,
                        FieldSourceView::Simple(row.root, field_name@, field_type),
                    ),
                    objects: row.objects.insert(row.root),
                },
            ],
        ),
        FieldDefinition::Computed { computation, field_type } => match prep_computation(
            view,
            row.root,
            computation,
            tree,
        ) {
            Err(e) => Err(e),
            Ok(cs) => Ok(
                cs.map_values(
                    |c: (ComputationSourceView, Set<ObjectIdPair>)|
                        RowPlanView {
                            root: row.root,
                            fields: fields_insert(
                                row.fields,
                                name,
                                FieldSourceView::Computed(c.0, field_type),
                            ),
                            objects: row.objects.union(c.1),
                        },
                ),
            ),
        },
        FieldDefinition::Array { base, fields } => match tree_object_for_relation(view, base, tree) {
            Err(e) => Err(e),
            Ok(None) => Err(RelationError::ArrayNeedsRelation),
            Ok(Some(t)) => match prep_fields(
                view,
                seq![initial_row(base_object_of(t))],
                fields@,
                Some(t),
            ) {
                Err(e) => Err(e),
                Ok(rows) => Ok(
                    seq![
                        RowPlanView {
                            root: row.root,
                            fields: fields_insert(
                                row.fields,
                                name,
                                FieldSourceView::Array(rows.map_values(|r: RowPlanView| r.fields)),
                            ),
                            objects: row.objects.union(union_objects(rows)),
                        },
                    ],
                ),
            },
        },
    }
}

/// The rows that all planned rows become once the field `name` is added to each, in order.
pub open spec fn expand_rows(
    view: FullView,
    rows: Seq<RowPlanView>,
    name: Seq<char>,
    def: FieldDefinition,
    tree: Option<TreeObject>,
) -> Result<Seq<RowPlanView>, RelationError>
    decreases def, 3nat, rows.len(),
{
    if rows.len() == 0 {
        Ok(Seq::empty())
    } else {
        match expand_rows(view, rows.drop_last(), name, def, tree) {
            Err(e) => Err(e),
            Ok(a) => match prep_field(view, rows.last(), name, def, tree) {
                Err(e) => Err(e),
                Ok(b) => Ok(a + b),
            },
        }
    }
}

/// The rows that planned rows become once the given fields are added, one field after another.
pub open spec fn prep_fields(
    view: FullView,
    rows: Seq<RowPlanView>,
    fields: Seq<(String, FieldDefinition)>,
    tree: Option<TreeObject>,
) -> Result<Seq<RowPlanView>, RelationError>
    decreases fields, 1nat, 0nat,
{
    if fields.len() == 0 {
        Ok(rows)
    } else {
        match expand_rows(view, rows, fields[0].0@, fields[0].1, tree) {
            Err(e) => Err(e),
            Ok(next) => prep_fields(view, next, fields.drop_first(), tree),
        }
    }
}

/// A row with no fields that needs no object.
pub open spec fn initial_row(root: ObjectIdPair) -> RowPlanView {
    RowPlanView { root, fields: Seq::empty(), objects: Set::empty() }
}

/// The rows that a view gives for the base object `root`.
pub open spec fn prep_rows(
    view: FullView,
    root: ObjectIdPair,
    fields: Seq<(String, FieldDefinition)>,
    tree: Option<TreeObject>,
) -> Result<Seq<RowPlanView>, RelationError> {
    prep_fields(view, seq![initial_row(root)], fields, tree)
}

pub proof fn lemma_fields_insert_at(
    fs: Seq<(Seq<char>, FieldSourceView)>,
    key: Seq<char>,
    value: FieldSourceView,
    i: int,
)
    requires
        0 <= i < fs.len(),
        fs[i].0 == key,
        forall|j: int| 0 <= j < i ==> fs[j].0 != key,
    ensures
        fields_insert(fs, key, value) == fs.update(i, (key, value)),
    decreases fs.len(),
{
    if i == 0 {
        assert(fields_insert(fs, key, value) =~= fs.update(i, (key, value)));
    } else {
        lemma_fields_insert_at(fs.drop_first(), key, value, i - 1);
        assert(fields_insert(fs, key, value) =~= fs.update(i, (key, value)));
    }
}

pub proof fn lemma_fields_insert_absent(
    fs: Seq<(Seq<char>, FieldSourceView)>,
    key: Seq<char>,
    value: FieldSourceView,
)
    requires
        forall|j: int| 0 <= j < fs.len() ==> fs[j].0 != key,
    ensures
        fields_insert(fs, key, value) == fs.push((key, value)),
    decreases fs.len(),
{
    if fs.len() > 0 {
        lemma_fields_insert_absent(fs.drop_first(), key, value);
        assert(fields_insert(fs, key, value) =~= fs.push((key, value)));
    } else {
        assert(fields_insert(fs, key, value) =~= fs.push((key, value)));
    }
}

/// Puts a field into a row; an earlier field with that key is replaced.
pub fn insert_field(
    fields: &mut Vec<(String, FieldDefinitionSource)>,
    key: String,
    value: FieldDefinitionSource,
)
    ensures
        source_fields_view(final(fields)@) == fields_insert(
            source_fields_view(old(fields)@),
            key@,
            value@,
        ),
{
    let ghost old_view = source_fields_view(fields@);
    proof {
        lemma_source_fields_view(fields@);
    }
    let mut i: usize = 0;
    while i < fields.len()
        invariant
            i <= fields.len(),
            fields@ == old(fields)@,
            old_view == source_fields_view(fields@),
            old_view.len() == fields.len(),
            forall|j: int|
                0 <= j < fields.len() ==> #[trigger] old_view[j] == (
                    fields@[j].0@,
                    fields@[j].1@,
                ),
            forall|j: int| 0 <= j < i ==> old_view[j].0 != key@,
        decreases fields.len() - i,
    {
        if fields[i].0 == key {
            proof {
                lemma_fields_insert_at(old_view, key@, value@, i as int);
            }
            let ghost v = value@;
            fields.set(i, (key, value));
            proof {
                lemma_source_fields_view(fields@);
                assert(source_fields_view(fields@) =~= old_view.update(i as int, (key@, v)));
            }
            return ;
        }
        i = i + 1;
    }
    proof {
        lemma_fields_insert_absent(old_view, key@, value@);
    }
    let ghost k = key@;
    let ghost v = value@;
    fields.push((key, value));
    proof {
        lemma_source_fields_view(fields@);
        assert(source_fields_view(fields@) =~= old_view.push((k, v)));
    }
}

} // verus!

verus! {

pub proof fn lemma_to_set_concat<A>(a: Seq<A>, b: Seq<A>)
    ensures
        (a + b).to_set() == a.to_set().union(b.to_set()),
{
    assert forall|x: A| (a + b).contains(x) <==> a.contains(x) || b.contains(x) by {
        if (a + b).contains(x) {
            let i = choose|i: int| 0 <= i < (a + b).len() && (a + b)[i] == x;
            if i < a.len() {
                assert(a[i] == x);
            } else {
                assert(b[i - a.len()] == x);
            }
        }
        if a.contains(x) {
            let i = choose|i: int| 0 <= i < a.len() && a[i] == x;
            assert((a + b)[i] == x);
        }
        if b.contains(x) {
            let i = choose|i: int| 0 <= i < b.len() && b[i] == x;
            assert((a + b)[a.len() + i] == x);
        }
    }
    assert((a + b).to_set() =~= a.to_set().union(b.to_set()));
}

pub proof fn lemma_to_set_push<A>(a: Seq<A>, x: A)
    ensures
        a.push(x).to_set() == a.to_set().insert(x),
{
    lemma_to_set_concat(a, seq![x]);
    assert(a.push(x) =~= a + seq![x]);
    assert(seq![x].to_set() =~= Set::<A>::empty().insert(x)) by {
        assert(seq![x][0] == x);
    }
    assert(a.to_set().union(Set::<A>::empty().insert(x)) =~= a.to_set().insert(x));
}

/// A copy of a list of objects.
pub fn copy_objects(v: &Vec<ObjectIdPair>) -> (r: Vec<ObjectIdPair>)
    ensures
        r@ == v@,
{
    let mut out: Vec<ObjectIdPair> = Vec::new();
    let mut i: usize = 0;
    while i < v.len()
        invariant
            i <= v.len(),
            out@ =~= v@.take(i as int),
        decreases v.len() - i,
    {
        out.push(v[i]);
        i = i + 1;
    }
    assert(v@.take(i as int) =~= v@);
    out
}

impl UnfinishedRow {
    /// A row with no fields that needs no object.
    pub fn new(root_object: ObjectIdPair) -> (r: UnfinishedRowPair)
        ensures
            pair_view(r) == initial_row(root_object),
            is_fresh(r),
    {
        let r = (
            UnfinishedRow {
                missing: 0,
                objects: Vec::new(),
                root_object,
                fields: Vec::new(),
            },
            Vec::new(),
        );
        assert(source_fields_view(r.0.fields@) =~= Seq::empty());
        assert(r.1@.to_set() =~= Set::<ObjectIdPair>::empty());
        r
    }

    /// A copy of a planned row.
    pub fn duplicate(&self) -> (r: UnfinishedRow)
        requires
            self.missing == 0,
            self.objects@.len() == 0,
        ensures
            r.missing == 0,
            r.objects@.len() == 0,
            r.root_object == self.root_object,
            source_fields_view(r.fields@) == source_fields_view(self.fields@),
    {
        UnfinishedRow {
            missing: 0,
            objects: Vec::new(),
            root_object: self.root_object,
            fields: crate::object_builder::model::duplicate_source_fields(&self.fields),
        }
    }
}

/// Plans the rows of a view: each field of the view is resolved against the
/// relations of the view and the edges of the base object.
pub struct ViewPlanBuilder<'a> {
    pub view: &'a FullView,
}

impl<'a> ViewPlanBuilder<'a> {
    /// The resolved variants of a computation for a planned row, each with the objects it needs.
    pub fn prepare_computation(
        &self,
        pair: &UnfinishedRowPair,
        computation: &Computation,
        tree_obj: Option<&TreeObject>,
    ) -> (r: Result<Vec<(ComputationSource, Vec<ObjectIdPair>)>, RelationError>)
        ensures
            match r {
                Ok(v) => prep_computation(*self.view, pair.0.root_object, *computation, opt_deref(tree_obj))
                    == Ok::<Seq<(ComputationSourceView, Set<ObjectIdPair>)>, RelationError>(
                    comp_pairs_view(v@),
                ),
                Err(e) => prep_computation(*self.view, pair.0.root_object, *computation, opt_deref(tree_obj))
                    == Err::<Seq<(ComputationSourceView, Set<ObjectIdPair>)>, RelationError>(e),
            },
        decreases computation,
    {
        let base_object = pair.0.root_object;
        match computation {
            Computation::RawValue { value } => {
                let mut out: Vec<(ComputationSource, Vec<ObjectIdPair>)> = Vec::new();
                out.push((ComputationSource::RawValue { value: value.duplicate() }, Vec::new()));
                assert(out@[0].1@.to_set() =~= Set::<ObjectIdPair>::empty());
                assert(comp_pairs_view(out@) =~= seq![
                    (ComputationSourceView::RawValue(value@), Set::<ObjectIdPair>::empty()),
                ]);
                Ok(out)
            },
            Computation::FieldValue { schema_id, field_path } => {
                let objects = match get_objects_ids_for_relation(self.view, *schema_id, tree_obj) {
                    Err(e) => return Err(e),
                    Ok(Some(v)) => v,
                    Ok(None) => {
                        let mut v: Vec<ObjectIdPair> = Vec::new();
                        v.push(base_object);
                        assert(v@ =~= seq![base_object]);
                        v
                    },
                };
                let ghost objs = objects@;
                let mut out: Vec<(ComputationSource, Vec<ObjectIdPair>)> = Vec::new();
                let mut i: usize = 0;
                while i < objects.len()
                    invariant
                        i <= objects.len(),
                        objs == objects@,
                        comp_pairs_view(out@) =~= objs.take(i as int).map_values(
                            |obj: ObjectIdPair|
                                (
                                    ComputationSourceView::FieldValue(obj, field_path@),
                                    set![obj, base_object],
                                ),
                        ),
                    decreases objects.len() - i,
                {
                    let object = objects[i];
                    let mut set: Vec<ObjectIdPair> = Vec::new();
                    set.push(object);
                    set.push(base_object);
                    assert(set@.to_set() =~= set![object, base_object]) by {
                        assert(set@[0] == object);
                        assert(set@[1] == base_object);
                    }
                    let ghost prev = out@;
                    let item = (ComputationSource::FieldValue { object, field_path: field_path.clone() }, set);
                    assert(item.0@ == ComputationSourceView::FieldValue(object, field_path@));
                    out.push(item);
                    assert(out@ =~= prev.push(item));
                    assert(comp_pairs_view(out@) =~= comp_pairs_view(prev).push(
                        (ComputationSourceView::FieldValue(object, field_path@), set![object, base_object]),
                    ));
                    assert(objs.take(i + 1) =~= objs.take(i as int).push(object));
                    i = i + 1;
                }
                assert(objs.take(i as int) =~= objs);
                Ok(out)
            },
            Computation::Equals { lhs, rhs } => {
                let ls = match self.prepare_computation(pair, &**lhs, tree_obj) {
                    Err(e) => return Err(e),
                    Ok(v) => v,
                };
                let rs = match self.prepare_computation(pair, &**rhs, tree_obj) {
                    Err(e) => return Err(e),
                    Ok(v) => v,
                };
                let ghost lv = comp_pairs_view(ls@);
                let ghost rv = comp_pairs_view(rs@);
                let mut out: Vec<(ComputationSource, Vec<ObjectIdPair>)> = Vec::new();
                let mut i: usize = 0;
                while i < ls.len()
                    invariant
                        i <= ls.len(),
                        lv == comp_pairs_view(ls@),
                        rv == comp_pairs_view(rs@),
                        comp_pairs_view(out@) =~= equals_product(lv.take(i as int), rv),
                    decreases ls.len() - i,
                {
                    let ghost before = comp_pairs_view(out@);
                    let ghost l = lv[i as int];
                    let mut j: usize = 0;
                    while j < rs.len()
                        invariant
                            i < ls.len(),
                            j <= rs.len(),
                            l == lv[i as int],
                            lv == comp_pairs_view(ls@),
                            rv == comp_pairs_view(rs@),
                            comp_pairs_view(out@) =~= before + rv.take(j as int).map_values(
                                |r: (ComputationSourceView, Set<ObjectIdPair>)|
                                    (
                                        ComputationSourceView::Equals(Box::new(l.0), Box::new(r.0)),
                                        l.1.union(r.1),
                                    ),
                            ),
                        decreases rs.len() - j,
                    {
                        let (lc, lo) = &ls[i];
                        let (rc, ro) = &rs[j];
                        let mut set = copy_objects(lo);
                        let mut more = copy_objects(ro);
                        proof {
                            lemma_to_set_concat(lo@, ro@);
                        }
                        set.append(&mut more);
                        let src = ComputationSource::Equals {
                            lhs: Box::new(lc.duplicate()),
                            rhs: Box::new(rc.duplicate()),
                        };
                        let ghost prev = out@;
                        assert(src@ == ComputationSourceView::Equals(Box::new(lc@), Box::new(rc@)));
                        assert(lv[i as int] == (lc@, lo@.to_set()));
                        assert(rv[j as int] == (rc@, ro@.to_set()));
                        let item = (src, set);
                        out.push(item);
                        assert(out@ =~= prev.push(item));
                        assert(comp_pairs_view(out@) =~= comp_pairs_view(prev).push(
                            (ComputationSourceView::Equals(Box::new(l.0), Box::new(rv[j as int].0)), l.1.union(rv[j as int].1)),
                        ));
                        assert(rv.take(j + 1) =~= rv.take(j as int).push(rv[j as int]));
                        j = j + 1;
                    }
                    assert(rv.take(j as int) =~= rv);
                    assert(lv.take(i + 1).drop_last() =~= lv.take(i as int));
                    i = i + 1;
                }
                assert(lv.take(i as int) =~= lv);
                Ok(out)
            },
        }
    }
}

} // verus!

verus! {

pub proof fn lemma_expand_rows_err_extends(
    view: FullView,
    rows: Seq<RowPlanView>,
    n: int,
    name: Seq<char>,
    def: FieldDefinition,
    tree: Option<TreeObject>,
)
    requires
        0 <= n <= rows.len(),
        expand_rows(view, rows.take(n), name, def, tree) is Err,
    ensures
        expand_rows(view, rows, name, def, tree) == expand_rows(view, rows.take(n), name, def, tree),
    decreases rows.len() - n,
{
    if rows.len() > n {
        assert(rows.drop_last().take(n) =~= rows.take(n));
        lemma_expand_rows_err_extends(view, rows.drop_last(), n, name, def, tree);
    } else {
        assert(rows.take(n) =~= rows);
    }
}

pub proof fn lemma_union_objects_push(rows: Seq<RowPlanView>, r: RowPlanView)
    ensures
        union_objects(rows.push(r)) == union_objects(rows).union(r.objects),
{
    assert(rows.push(r).drop_last() =~= rows);
}

impl<'a> ViewPlanBuilder<'a> {
    /// The rows that a planned row becomes once the field `field_name` is added.
    pub fn prepare_unfinished_row(
        &self,
        pair: UnfinishedRowPair,
        field_name: &String,
        field: &FieldDefinition,
        tree_obj: Option<&TreeObject>,
    ) -> (r: Result<Vec<UnfinishedRowPair>, RelationError>)
        requires
            is_fresh(pair),
        ensures
            match r {
                Ok(v) => prep_field(*self.view, pair_view(pair), field_name@, *field, opt_deref(tree_obj))
                    == Ok::<Seq<RowPlanView>, RelationError>(pairs_view(v@)) && all_fresh(v@),
                Err(e) => prep_field(*self.view, pair_view(pair), field_name@, *field, opt_deref(tree_obj))
                    == Err::<Seq<RowPlanView>, RelationError>(e),
            },
        decreases field, 2nat, 0nat,
    {
        let mut pair = pair;
        let base_object = pair.0.root_object;
        let ghost pv = pair_view(pair);
        match field {
            FieldDefinition::Simple { field_name, field_type } => {
                let source = FieldDefinitionSource::Simple {
                    object: base_object,
                    field_name: field_name.clone(),
                    field_type: *field_type,
                };
                insert_field(&mut pair.0.fields, field_name.clone(), source);
                proof {
                    lemma_to_set_push(pair.1@, base_object);
                }
                pair.1.push(base_object);
                let mut out: Vec<UnfinishedRowPair> = Vec::new();
                out.push(pair);
                assert(pairs_view(out@) =~= seq![pair_view(pair)]);
                Ok(out)
            },
            FieldDefinition::Computed { computation, field_type } => {
                let computations = match self.prepare_computation(&pair, computation, tree_obj) {
                    Err(e) => return Err(e),
                    Ok(v) => v,
                };
                let ghost cv = comp_pairs_view(computations@);
                let mut out: Vec<UnfinishedRowPair> = Vec::new();
                let mut i: usize = 0;
                while i < computations.len()
                    invariant
                        i <= computations.len(),
                        is_fresh(pair),
                        pv == pair_view(pair),
                        cv == comp_pairs_view(computations@),
                        all_fresh(out@),
                        pairs_view(out@) =~= cv.take(i as int).map_values(
                            |c: (ComputationSourceView, Set<ObjectIdPair>)|
                                RowPlanView {
                                    root: pv.root,
                                    fields: fields_insert(
                                        pv.fields,
                                        field_name@,
                                        FieldSourceView::Computed(c.0, *field_type),
                                    ),
                                    objects: pv.objects.union(c.1),
                                },
                        ),
                    decreases computations.len() - i,
                {
                    let (c, objs) = &computations[i];
                    let mut row = pair.0.duplicate();
                    let source = FieldDefinitionSource::Computed {
                        computation: c.duplicate(),
                        field_type: *field_type,
                    };
                    insert_field(&mut row.fields, field_name.clone(), source);
                    let mut set = copy_objects(&pair.1);
                    let mut more = copy_objects(objs);
                    proof {
                        lemma_to_set_concat(set@, more@);
                    }
                    set.append(&mut more);
                    let ghost prev = out@;
                    let np = (row, set);
                    out.push(np);
                    assert(out@ =~= prev.push(np));
                    assert(pairs_view(out@) =~= pairs_view(prev).push(pair_view(np)));
                    assert(cv.take(i + 1) =~= cv.take(i as int).push(cv[i as int]));
                    i = i + 1;
                }
                assert(cv.take(i as int) =~= cv);
                Ok(out)
            },
            FieldDefinition::Array { base, fields } => {
                let tree_object = match find_tree_object_for_relation(self.view, *base, tree_obj) {
                    Err(e) => return Err(e),
                    Ok(None) => return Err(RelationError::ArrayNeedsRelation),
                    Ok(Some(t)) => t,
                };
                let root = crate::object_builder::model::get_base_object(tree_object);
                let mut rows = match self.prepare_unfinished_rows(root, fields, Some(tree_object)) {
                    Err(e) => return Err(e),
                    Ok(v) => v,
                };
                let ghost rv = pairs_view(rows@);
                let mut elements: Vec<ArrayElementSource> = Vec::new();
                let mut k: usize = 0;
                let n = rows.len();
                let ghost rows0 = rows@;
                while rows.len() > 0
                    invariant
                        k + rows.len() == n,
                        n == rows0.len(),
                        rv == pairs_view(rows0),
                        rows@ == rows0.skip(k as int),
                        pair.0.root_object == pv.root,
                        source_fields_view(pair.0.fields@) == pv.fields,
                        is_fresh(pair),
                        crate::object_builder::model::elements_view(elements@) =~= rv.take(
                            k as int,
                        ).map_values(|r: RowPlanView| r.fields),
                        pair.1@.to_set() == pv.objects.union(union_objects(rv.take(k as int))),
                    decreases rows.len(),
                {
                    let (row, objs) = rows.remove(0);
                    assert(rows0[k as int] == (row, objs));
                    let ghost prev = elements@;
                    let el = ArrayElementSource { fields: row.fields };
                    elements.push(el);
                    proof {
                        crate::object_builder::model::lemma_elements_view(prev);
                        crate::object_builder::model::lemma_elements_view(elements@);
                        assert(elements@ =~= prev.push(el));
                        assert(crate::object_builder::model::elements_view(elements@) =~= crate::object_builder::model::elements_view(prev).push(rv[k as int].fields));
                        assert(rv.take(k + 1) =~= rv.take(k as int).push(rv[k as int]));
                        lemma_union_objects_push(rv.take(k as int), rv[k as int]);
                        lemma_to_set_concat(pair.1@, objs@);
                    }
                    let mut objs = objs;
                    pair.1.append(&mut objs);
                    proof {
                        assert(pv.objects.union(union_objects(rv.take(k as int))).union(rv[k as int].objects)
                            =~= pv.objects.union(union_objects(rv.take(k as int)).union(rv[k as int].objects)));
                    }
                    k = k + 1;
                }
                assert(rv.take(k as int) =~= rv);
                let source = FieldDefinitionSource::Array { elements };
                insert_field(&mut pair.0.fields, field_name.clone(), source);
                let mut out: Vec<UnfinishedRowPair> = Vec::new();
                out.push(pair);
                assert(pairs_view(out@) =~= seq![pair_view(pair)]);
                Ok(out)
            },
        }
    }

    /// The rows that the given fields make for the base object `root_object`.
    pub fn prepare_unfinished_rows(
        &self,
        root_object: ObjectIdPair,
        fields: &Vec<(String, FieldDefinition)>,
        tree_obj: Option<&TreeObject>,
    ) -> (r: Result<Vec<UnfinishedRowPair>, RelationError>)
        ensures
            match r {
                Ok(v) => prep_rows(*self.view, root_object, fields@, opt_deref(tree_obj)) == Ok::<
                    Seq<RowPlanView>,
                    RelationError,
                >(pairs_view(v@)) && all_fresh(v@),
                Err(e) => prep_rows(*self.view, root_object, fields@, opt_deref(tree_obj)) == Err::<
                    Seq<RowPlanView>,
                    RelationError,
                >(e),
            },
        decreases fields, 1nat, 0nat,
    {
        let mut pairs: Vec<UnfinishedRowPair> = Vec::new();
        pairs.push(UnfinishedRow::new(root_object));
        assert(pairs_view(pairs@) =~= seq![initial_row(root_object)]);
        assert(fields@.skip(0) =~= fields@);
        let mut k: usize = 0;
        while k < fields.len()
            invariant
                k <= fields.len(),
                all_fresh(pairs@),
                prep_rows(*self.view, root_object, fields@, opt_deref(tree_obj)) == prep_fields(
                    *self.view,
                    pairs_view(pairs@),
                    fields@.skip(k as int),
                    opt_deref(tree_obj),
                ),
            decreases fields.len() - k,
        {
            let ghost start = pairs@;
            let ghost sv = pairs_view(start);
            let ghost name = fields@[k as int].0@;
            let ghost def = fields@[k as int].1;
            assert(fields@.skip(k as int)[0] == fields@[k as int]);
            assert(fields@.skip(k as int).drop_first() =~= fields@.skip(k + 1));
            let mut next: Vec<UnfinishedRowPair> = Vec::new();
            let mut c: usize = 0;
            let n = pairs.len();
            assert(sv.take(0) =~= Seq::<RowPlanView>::empty());
            assert(pairs_view(next@) =~= Seq::<RowPlanView>::empty());
            while pairs.len() > 0
                invariant
                    k < fields.len(),
                    c + pairs.len() == n,
                    n == start.len(),
                    sv == pairs_view(start),
                    all_fresh(start),
                    pairs@ == start.skip(c as int),
                    prep_rows(*self.view, root_object, fields@, opt_deref(tree_obj)) == prep_fields(
                        *self.view,
                        sv,
                        fields@.skip(k as int),
                        opt_deref(tree_obj),
                    ),
                    fields@.skip(k as int)[0] == fields@[k as int],
                    name == fields@[k as int].0@,
                    def == fields@[k as int].1,
                    all_fresh(next@),
                    expand_rows(*self.view, sv.take(c as int), name, def, opt_deref(tree_obj)) == Ok::<
                        Seq<RowPlanView>,
                        RelationError,
                    >(pairs_view(next@)),
                decreases pairs.len(),
            {
                let p = pairs.remove(0);
                assert(start[c as int] == p);
                assert(sv.take(c + 1).drop_last() =~= sv.take(c as int));
                assert(sv.take(c + 1).last() == pair_view(p));
                proof {
                    vstd::std_specs::vec::axiom_vec_index_decreases(*fields, k as int);
                    assert(decreases_to!(fields@[k as int] => fields@[k as int].1));
                }
                match self.prepare_unfinished_row(p, &fields[k].0, &fields[k].1, tree_obj) {
                    Err(e) => {
                        proof {
                            lemma_expand_rows_err_extends(
                                *self.view,
                                sv,
                                c + 1,
                                name,
                                def,
                                opt_deref(tree_obj),
                            );
                        }
                        return Err(e);
                    },
                    Ok(rows) => {
                        let ghost prev = next@;
                        let mut rows = rows;
                        let ghost rws = rows@;
                        next.append(&mut rows);
                        assert(next@ =~= prev + rws);
                        assert(pairs_view(next@) =~= pairs_view(prev) + pairs_view(rws));
                        assert(all_fresh(next@)) by {
                            assert forall|i: int| 0 <= i < next@.len() implies is_fresh(
                                #[trigger] next@[i],
                            ) by {
                                if i >= prev.len() {
                                    assert(next@[i] == rws[i - prev.len()]);
                                }
                            }
                        }
                    },
                }
                c = c + 1;
            }
            assert(sv.take(c as int) =~= sv);
            pairs = next;
            k = k + 1;
        }
        assert(fields@.skip(k as int) =~= Seq::<(String, FieldDefinition)>::empty());
        Ok(pairs)
    }
}

} // verus!
