use vstd::prelude::*;

use crate::object_builder::view_plan::lemma_to_set_concat;
use crate::partial_update::tree::{try_process_tree_response, walk_objects, MalformedId, Schema, TreeResponse, TreeWalk};

verus! {

/// Sets of object ids, one per pair of a view and a schema.
pub struct ObjectSets {
    entries: Vec<(u128, u128, Schema)>,
}

/// Some entry belongs to the pair.
pub open spec fn has_pair(e: Seq<(u128, u128, Schema)>, view: u128, schema: u128) -> bool {
    exists|i: int| 0 <= i < e.len() && e[i].0 == view && e[i].1 == schema
}

/// No pair has two entries.
pub open spec fn pairs_distinct(e: Seq<(u128, u128, Schema)>) -> bool {
    forall|i: int, j: int|
        0 <= i < j < e.len() ==> !(e[i].0 == e[j].0 && e[i].1 == e[j].1)
}

/// The ids of the pair's entry; none where it has no entry.
pub open spec fn ids_of_pair(e: Seq<(u128, u128, Schema)>, view: u128, schema: u128) -> Set<u128> {
    if has_pair(e, view, schema) {
        e[choose|i: int| 0 <= i < e.len() && e[i].0 == view && e[i].1 == schema].2.ids()
    } else {
        Set::empty()
    }
}

pub proof fn lemma_pair_at(e: Seq<(u128, u128, Schema)>, i: int)
    requires
        pairs_distinct(e),
        0 <= i < e.len(),
    ensures
        has_pair(e, e[i].0, e[i].1),
        ids_of_pair(e, e[i].0, e[i].1) == e[i].2.ids(),
{
    let k = choose|k: int| 0 <= k < e.len() && e[k].0 == e[i].0 && e[k].1 == e[i].1;
    if k < i {
        assert(!(e[k].0 == e[i].0 && e[k].1 == e[i].1));
    } else if k > i {
        assert(!(e[i].0 == e[k].0 && e[i].1 == e[k].1));
    }
}

impl ObjectSets {
    pub closed spec fn wf(&self) -> bool {
        &&& pairs_distinct(self.entries@)
        &&& forall|i: int| 0 <= i < self.entries@.len() ==> (#[trigger] self.entries@[i]).2.wf()
    }

    /// Whether the pair has an entry.
    pub closed spec fn has(&self, view: u128, schema: u128) -> bool {
        has_pair(self.entries@, view, schema)
    }

    /// The ids of the pair, none where it has no entry.
    pub closed spec fn ids(&self, view: u128, schema: u128) -> Set<u128> {
        ids_of_pair(self.entries@, view, schema)
    }

    pub fn new() -> (r: ObjectSets)
        ensures
            r.wf(),
            forall|v: u128, s: u128| !r.has(v, s) && r.ids(v, s) == Set::<u128>::empty(),
    {
        ObjectSets { entries: Vec::new() }
    }

    fn find(&self, view: u128, schema: u128) -> (r: Option<usize>)
        ensures
            match r {
                Some(i) => i < self.entries@.len() && self.entries@[i as int].0 == view
                    && self.entries@[i as int].1 == schema,
                None => !has_pair(self.entries@, view, schema),
            },
    {
        let mut i: usize = 0;
        while i < self.entries.len()
            invariant
                i <= self.entries.len(),
                forall|j: int|
                    0 <= j < i ==> !(self.entries@[j].0 == view && self.entries@[j].1 == schema),
            decreases self.entries.len() - i,
        {
            if self.entries[i].0 == view && self.entries[i].1 == schema {
                return Some(i);
            }
            i = i + 1;
        }
        None
    }

    /// Makes sure that the pair has an entry, with no ids where it had none; returns its index.
    fn ensure(&mut self, view: u128, schema: u128) -> (r: usize)
        requires
            old(self).wf(),
        ensures
            final(self).wf(),
            r < final(self).entries@.len(),
            final(self).entries@[r as int].0 == view,
            final(self).entries@[r as int].1 == schema,
            forall|v: u128, s: u128|
                #[trigger] final(self).has(v, s) == (old(self).has(v, s) || (v == view && s
                    == schema)),
            forall|v: u128, s: u128| #[trigger] final(self).ids(v, s) == old(self).ids(v, s),
    {
        match self.find(view, schema) {
            Some(i) => i,
            None => {
                let ghost e = self.entries@;
                self.entries.push((view, schema, Schema::new()));
                let ghost f = self.entries@;
                proof {
                    assert(f == e.push(f[e.len() as int]));
                    assert forall|i: int, j: int| 0 <= i < j < f.len() implies !(f[i].0 == f[j].0
                        && f[i].1 == f[j].1) by {
                        if j == e.len() {
                            assert(!(e[i].0 == view && e[i].1 == schema));
                        }
                    }
                    assert forall|v: u128, s: u128| #[trigger] has_pair(f, v, s) == (has_pair(e, v, s)
                        || (v == view && s == schema)) by {
                        if has_pair(e, v, s) {
                            let i = choose|i: int| 0 <= i < e.len() && e[i].0 == v && e[i].1 == s;
                            assert(f[i] == e[i]);
                        }
                        if v == view && s == schema {
                            assert(f[e.len() as int].0 == v);
                        }
                        if has_pair(f, v, s) && !(v == view && s == schema) {
                            let i = choose|i: int| 0 <= i < f.len() && f[i].0 == v && f[i].1 == s;
                            assert(e[i] == f[i]);
                        }
                    }
                    assert forall|v: u128, s: u128| #[trigger] ids_of_pair(f, v, s) == ids_of_pair(e, v, s) by {
                        if has_pair(e, v, s) {
                            let i = choose|i: int| 0 <= i < e.len() && e[i].0 == v && e[i].1 == s;
                            lemma_pair_at(e, i);
                            assert(f[i] == e[i]);
                            lemma_pair_at(f, i);
                        } else if v == view && s == schema {
                            lemma_pair_at(f, e.len() as int);
                            assert(f[e.len() as int].2.ids() =~= Set::<u128>::empty());
                        }
                    }
                }
                self.entries.len() - 1
            },
        }
    }

    /// Replaces the set of the entry at an index.
    fn put(&mut self, i: usize, schema_ids: Schema)
        requires
            old(self).wf(),
            i < old(self).entries@.len(),
            schema_ids.wf(),
        ensures
            final(self).wf(),
            forall|v: u128, s: u128| #[trigger] final(self).has(v, s) == old(self).has(v, s),
            forall|v: u128, s: u128|
                #[trigger] final(self).ids(v, s) == if v == old(self).entries@[i as int].0 && s
                    == old(self).entries@[i as int].1 {
                    schema_ids.ids()
                } else {
                    old(self).ids(v, s)
                },
    {
        let ghost e = self.entries@;
        let (v0, s0, _old) = self.entries.remove(i);
        self.entries.insert(i, (v0, s0, schema_ids));
        let ghost f = self.entries@;
        proof {
            assert forall|k: int| 0 <= k < f.len() && k != i implies f[k] == e[k] by {
                if k < i {
                } else {
                }
            }
            assert forall|a: int, b: int| 0 <= a < b < f.len() implies !(f[a].0 == f[b].0 && f[a].1
                == f[b].1) by {
                assert(f[a].0 == e[a].0 && f[a].1 == e[a].1);
                assert(f[b].0 == e[b].0 && f[b].1 == e[b].1);
            }
            assert forall|k: int| 0 <= k < f.len() implies (#[trigger] f[k]).2.wf() by {
                if k != i {
                    assert(f[k] == e[k]);
                }
            }
            assert forall|v: u128, s: u128| #[trigger] has_pair(f, v, s) == has_pair(e, v, s) by {
                if has_pair(e, v, s) {
                    let k = choose|k: int| 0 <= k < e.len() && e[k].0 == v && e[k].1 == s;
                    assert(f[k].0 == v && f[k].1 == s);
                }
                if has_pair(f, v, s) {
                    let k = choose|k: int| 0 <= k < f.len() && f[k].0 == v && f[k].1 == s;
                    assert(e[k].0 == v && e[k].1 == s);
                }
            }
            assert forall|v: u128, s: u128| #[trigger] ids_of_pair(f, v, s) == if v == e[i as int].0
                && s == e[i as int].1 {
                schema_ids.ids()
            } else {
                ids_of_pair(e, v, s)
            } by {
                if v == e[i as int].0 && s == e[i as int].1 {
                    lemma_pair_at(f, i as int);
                } else if has_pair(e, v, s) {
                    let k = choose|k: int| 0 <= k < e.len() && e[k].0 == v && e[k].1 == s;
                    lemma_pair_at(e, k);
                    assert(f[k] == e[k]);
                    lemma_pair_at(f, k);
                }
            }
        }
    }

    /// A copy of the set of the entry at an index.
    fn get(&self, i: usize) -> (r: Schema)
        requires
            self.wf(),
            i < self.entries@.len(),
        ensures
            r.wf(),
            r.object_ids@ == self.entries@[i as int].2.object_ids@,
            r.ids() == self.ids(self.entries@[i as int].0, self.entries@[i as int].1),
    {
        proof {
            lemma_pair_at(self.entries@, i as int);
            assert(self.entries@[i as int].2.wf());
        }
        let ids = &self.entries[i].2.object_ids;
        let mut out: Vec<u128> = Vec::new();
        let mut k: usize = 0;
        while k < ids.len()
            invariant
                k <= ids.len(),
                out@ =~= ids@.take(k as int),
            decreases ids.len() - k,
        {
            out.push(ids[k]);
            k = k + 1;
        }
        assert(ids@.take(k as int) =~= ids@);
        Schema { object_ids: out }
    }

    /// Adds ids to the set of a pair, giving it an entry where it had none.
    pub fn add_ids(&mut self, view: u128, schema: u128, ids: &Vec<u128>)
        requires
            old(self).wf(),
        ensures
            final(self).wf(),
            forall|v: u128, s: u128|
                #[trigger] final(self).has(v, s) == (old(self).has(v, s) || (v == view && s
                    == schema)),
            forall|v: u128, s: u128|
                #[trigger] final(self).ids(v, s) == if v == view && s == schema {
                    old(self).ids(v, s).union(ids@.to_set())
                } else {
                    old(self).ids(v, s)
                },
    {
        let i = self.ensure(view, schema);
        let mut set = self.get(i);
        let mut k: usize = 0;
        while k < ids.len()
            invariant
                k <= ids.len(),
                set.wf(),
                set.ids() == self.ids(view, schema).union(ids@.take(k as int).to_set()),
            decreases ids.len() - k,
        {
            set.insert(ids[k]);
            proof {
                assert(ids@.take(k + 1) =~= ids@.take(k as int).push(ids@[k as int]));
                crate::object_builder::view_plan::lemma_to_set_push(ids@.take(k as int), ids@[k as int]);
                assert(set.ids() =~= self.ids(view, schema).union(ids@.take(k + 1).to_set()));
            }
            k = k + 1;
        }
        assert(ids@.take(k as int) =~= ids@);
        self.put(i, set);
    }

    /// Walks a tree into the set of a pair (see `try_process_tree_response`), giving the pair
    /// an entry first where it had none.
    pub fn add_tree(&mut self, view: u128, schema: u128, tree: TreeResponse) -> (r: Option<
        Result<(), MalformedId>,
    >)
        requires
            old(self).wf(),
        ensures
            final(self).wf(),
            forall|v: u128, s: u128|
                #[trigger] final(self).has(v, s) == (old(self).has(v, s) || (v == view && s
                    == schema)),
            forall|v: u128, s: u128|
                !(v == view && s == schema) ==> #[trigger] final(self).ids(v, s) == old(self).ids(v, s),
            match walk_objects(tree.objects@, old(self).ids(view, schema)) {
                TreeWalk::Done(ids) => r matches Some(Ok(_)) && final(self).ids(view, schema) == ids,
                TreeWalk::Failed(ids, text) => r matches Some(Err(e)) && e.text@ == text
                    && final(self).ids(view, schema) == ids,
                TreeWalk::Unreadable => r is None && final(self).ids(view, schema) == old(self).ids(
                    view,
                    schema,
                ),
            },
    {
        let i = self.ensure(view, schema);
        let mut set = self.get(i);
        let r = try_process_tree_response(tree, &mut set);
        self.put(i, set);
        r
    }

    /// Every pair with its ids, once each.
    pub fn entries(&self) -> (r: Vec<(u128, u128, Vec<u128>)>)
        requires
            self.wf(),
        ensures
            forall|i: int, j: int|
                0 <= i < j < r@.len() ==> !(r@[i].0 == r@[j].0 && r@[i].1 == r@[j].1),
            forall|i: int| 0 <= i < r@.len() ==> #[trigger] r@[i].2@.no_duplicates(),
            forall|i: int| 0 <= i < r@.len() ==> #[trigger] self.has(r@[i].0, r@[i].1),
            forall|i: int|
                0 <= i < r@.len() ==> #[trigger] r@[i].2@.to_set() == self.ids(r@[i].0, r@[i].1),
            forall|v: u128, s: u128|
                #[trigger] self.has(v, s) ==> exists|i: int|
                    0 <= i < r@.len() && r@[i].0 == v && r@[i].1 == s,
    {
        let mut out: Vec<(u128, u128, Vec<u128>)> = Vec::new();
        let mut i: usize = 0;
        while i < self.entries.len()
            invariant
                i <= self.entries.len(),
                self.wf(),
                out@.len() == i,
                forall|k: int|
                    0 <= k < i ==> (#[trigger] out@[k]).0 == self.entries@[k].0 && out@[k].1
                        == self.entries@[k].1 && out@[k].2@ == self.entries@[k].2.object_ids@,
            decreases self.entries.len() - i,
        {
            let s = self.get(i);
            out.push((self.entries[i].0, self.entries[i].1, s.object_ids));
            i = i + 1;
        }
        proof {
            let e = self.entries@;
            assert forall|a: int, b: int| 0 <= a < b < out@.len() implies !(out@[a].0 == out@[b].0
                && out@[a].1 == out@[b].1) by {
                assert(!(e[a].0 == e[b].0 && e[a].1 == e[b].1));
            }
            assert forall|k: int| 0 <= k < out@.len() implies has_pair(e, #[trigger] out@[k].0, out@[k].1)
                && out@[k].2@.to_set() == ids_of_pair(e, out@[k].0, out@[k].1)
                && out@[k].2@.no_duplicates() by {
                lemma_pair_at(e, k);
                assert(e[k].2.wf());
            }
            assert forall|v: u128, s: u128| #[trigger] has_pair(e, v, s) implies exists|k: int|
                0 <= k < out@.len() && out@[k].0 == v && out@[k].1 == s by {
                let k = choose|k: int| 0 <= k < e.len() && e[k].0 == v && e[k].1 == s;
                assert(out@[k].0 == v && out@[k].1 == s);
            }
        }
        out
    }
}

} // verus!
