use vstd::prelude::*;

use crate::keyed::{find_key, has_key, keys_distinct, lemma_push_new_key, lemma_update_value, value_at};
use crate::object_builder::view_plan::lemma_to_set_push;

verus! {

/// An object was written through the command service.
#[derive(Clone, Copy, PartialEq, Eq, Structural, Debug, Hash)]
pub struct CommandServiceNotification {
    pub object_id: u128,
    pub schema_id: u128,
}

/// An edge was written to the edge registry.
#[derive(Clone, Copy, PartialEq, Eq, Structural, Debug, Hash)]
pub struct EdgeRegistryNotification {
    pub relation_id: u128,
    pub parent_object_id: u128,
}

/// A change that may touch materialized views.
#[derive(Clone, Copy, PartialEq, Eq, Structural, Debug, Hash)]
pub enum PartialNotification {
    CommandServiceNotification(CommandServiceNotification),
    EdgeRegistryNotification(EdgeRegistryNotification),
}

/// The notifications read since the last flush, and, per partition, the offset of the last
/// message read from it.
pub struct NotificationBatch {
    changes: Vec<PartialNotification>,
    offsets: Vec<(i32, i64)>,
}

/// What the consumer loop does when no message came.
#[derive(Clone, Copy, PartialEq, Eq, Structural, Debug)]
pub enum IdleAction {
    /// Process the changes, commit the offsets, then sleep.
    FlushThenSleep,
    /// Only sleep.
    Sleep,
    /// Process the changes, commit the offsets, then stop.
    FlushThenStop,
}

/// The offsets as a list keyed by an unsigned form of the partition.
pub open spec fn offsets_keyed(s: Seq<(i32, i64)>) -> Seq<(u128, i64)> {
    s.map_values(|p: (i32, i64)| (partition_key(p.0), p.1))
}

pub open spec fn partition_key(p: i32) -> u128 {
    (p as int + 0x8000_0000) as u128
}

impl NotificationBatch {
    pub closed spec fn wf(&self) -> bool {
        &&& self.changes@.no_duplicates()
        &&& keys_distinct(offsets_keyed(self.offsets@))
    }

    /// The set of changes.
    pub closed spec fn changes(&self) -> Set<PartialNotification> {
        self.changes@.to_set()
    }

    /// The offset of the last message read from each partition.
    pub closed spec fn offsets(&self) -> Map<i32, i64> {
        Map::new(
            |p: i32| has_key(offsets_keyed(self.offsets@), partition_key(p)),
            |p: i32| value_at(offsets_keyed(self.offsets@), partition_key(p)),
        )
    }

    pub fn new() -> (r: NotificationBatch)
        ensures
            r.wf(),
            r.changes() == Set::<PartialNotification>::empty(),
            r.offsets() == Map::<i32, i64>::empty(),
    {
        let r = NotificationBatch { changes: Vec::new(), offsets: Vec::new() };
        assert(r.changes() =~= Set::<PartialNotification>::empty());
        assert(offsets_keyed(r.offsets@) =~= Seq::<(u128, i64)>::empty());
        assert(r.offsets() =~= Map::<i32, i64>::empty());
        r
    }

    /// Records a notification read from a partition at an offset: the set of changes gains
    /// it, and the offset becomes the partition's last one.
    pub fn new_notification(&mut self, notification: PartialNotification, partition: i32, offset: i64) -> (r: (
        i32,
        i64,
    ))
        requires
            old(self).wf(),
        ensures
            final(self).wf(),
            r == (partition, offset),
            final(self).changes() == old(self).changes().insert(notification),
            final(self).offsets() == old(self).offsets().insert(partition, offset),
    {
        let ghost before = self.changes@;
        let mut i: usize = 0;
        let mut present = false;
        while i < self.changes.len()
            invariant
                i <= self.changes.len(),
                self.changes@ == before,
                !present ==> forall|j: int| 0 <= j < i ==> self.changes@[j] != notification,
                present ==> before.contains(notification),
            decreases self.changes.len() - i,
        {
            if self.changes[i] == notification {
                present = true;
            }
            i = i + 1;
        }
        if present {
            assert(self.changes() =~= self.changes().insert(notification));
        } else {
            self.changes.push(notification);
            proof {
                lemma_to_set_push(before, notification);
            }
        }
        self.set_offset(partition, offset);
        (partition, offset)
    }

    fn set_offset(&mut self, partition: i32, offset: i64)
        requires
            keys_distinct(offsets_keyed(old(self).offsets@)),
        ensures
            keys_distinct(offsets_keyed(final(self).offsets@)),
            final(self).changes@ == old(self).changes@,
            final(self).offsets() == old(self).offsets().insert(partition, offset),
    {
        let ghost s = offsets_keyed(self.offsets@);
        let mut i: usize = 0;
        while i < self.offsets.len()
            invariant
                i <= self.offsets.len(),
                s == offsets_keyed(self.offsets@),
                self.offsets@ == old(self).offsets@,
                self.changes@ == old(self).changes@,
                keys_distinct(s),
                forall|j: int| 0 <= j < i ==> self.offsets@[j].0 != partition,
            decreases self.offsets.len() - i,
        {
            if self.offsets[i].0 == partition {
                let ghost old_offsets = self.offsets@;
                self.offsets.set(i, (partition, offset));
                proof {
                    lemma_update_value(s, i as int, offset);
                    assert(offsets_keyed(self.offsets@) =~= s.update(i as int, (s[i as int].0, offset)));
                    assert(s[i as int].0 == partition_key(partition));
                    assert forall|p: i32| p != partition implies partition_key(p) != partition_key(partition) by {}
                    assert forall|p: i32| #[trigger] self.offsets().contains_key(p) == old(self).offsets().insert(partition, offset).contains_key(p) by {
                        if p != partition {
                            assert(partition_key(p) != partition_key(partition));
                        } else {
                            assert(offsets_keyed(self.offsets@)[i as int].0 == partition_key(partition));
                        }
                    }
                    assert forall|p: i32| #[trigger] self.offsets().contains_key(p) implies self.offsets()[p] == old(self).offsets().insert(partition, offset)[p] by {
                        if p != partition {
                            assert(partition_key(p) != partition_key(partition));
                        }
                    }
                    assert(self.offsets() =~= old(self).offsets().insert(partition, offset));
                }
                return;
            }
            i = i + 1;
        }
        proof {
            assert forall|j: int| 0 <= j < s.len() implies s[j].0 != partition_key(partition) by {
                assert(self.offsets@[j].0 != partition);
            }
            lemma_push_new_key(s, partition_key(partition), offset);
        }
        self.offsets.push((partition, offset));
        proof {
            assert(offsets_keyed(self.offsets@) =~= s.push((partition_key(partition), offset)));
            assert forall|p: i32| p != partition implies partition_key(p) != partition_key(partition) by {}
            assert(self.offsets() =~= old(self).offsets().insert(partition, offset));
        }
    }

    /// Whether any change waits.
    pub fn has_changes(&self) -> (r: bool)
        requires
            self.wf(),
        ensures
            r == (self.changes().len() > 0),
    {
        proof {
            self.changes@.unique_seq_to_set();
        }
        self.changes.len() > 0
    }

    /// Hands out the changes, each once, and empties the set.
    pub fn drain_changes(&mut self) -> (r: Vec<PartialNotification>)
        requires
            old(self).wf(),
        ensures
            final(self).wf(),
            r@.no_duplicates(),
            r@.to_set() == old(self).changes(),
            final(self).changes() == Set::<PartialNotification>::empty(),
            final(self).offsets() == old(self).offsets(),
    {
        let mut out: Vec<PartialNotification> = Vec::new();
        std::mem::swap(&mut out, &mut self.changes);
        assert(self.changes() =~= Set::<PartialNotification>::empty());
        out
    }

    /// The offsets to commit, one past the last read message of each partition, in one
    /// entry per partition; the offsets are then forgotten.
    pub fn commit_offsets(&mut self) -> (r: Vec<(i32, i64)>)
        requires
            old(self).wf(),
            forall|p: i32| #[trigger] old(self).offsets().contains_key(p) ==> old(self).offsets()[p] < i64::MAX,
        ensures
            final(self).wf(),
            final(self).changes() == old(self).changes(),
            final(self).offsets() == Map::<i32, i64>::empty(),
            r@.len() == old(self).offsets().len(),
            forall|i: int, j: int| 0 <= i < j < r@.len() ==> r@[i].0 != r@[j].0,
            forall|i: int|
                0 <= i < r@.len() ==> old(self).offsets().contains_key(#[trigger] r@[i].0)
                    && r@[i].1 == old(self).offsets()[r@[i].0] + 1,
    {
        let ghost s = offsets_keyed(self.offsets@);
        let mut out: Vec<(i32, i64)> = Vec::new();
        let mut i: usize = 0;
        while i < self.offsets.len()
            invariant
                i <= self.offsets.len(),
                s == offsets_keyed(self.offsets@),
                self.offsets@ == old(self).offsets@,
                keys_distinct(s),
                forall|p: i32| #[trigger] old(self).offsets().contains_key(p) ==> old(self).offsets()[p] < i64::MAX,
                out@.len() == i,
                forall|j: int| 0 <= j < i ==> #[trigger] out@[j].0 == self.offsets@[j].0 && out@[j].1 == self.offsets@[j].1 + 1,
            decreases self.offsets.len() - i,
        {
            let (p, o) = self.offsets[i];
            proof {
                crate::keyed::lemma_first_key(s, partition_key(p), i as int);
                assert(old(self).offsets().contains_key(p));
            }
            out.push((p, o + 1));
            i = i + 1;
        }
        proof {
            assert forall|a: int, b: int| 0 <= a < b < out@.len() implies out@[a].0 != out@[b].0 by {
                assert(s[a].0 != s[b].0);
            }
            assert forall|j: int| 0 <= j < out@.len() implies old(self).offsets().contains_key(
                #[trigger] out@[j].0,
            ) && out@[j].1 == old(self).offsets()[out@[j].0] + 1 by {
                crate::keyed::lemma_first_key(s, partition_key(out@[j].0), j);
            }
            self.lemma_offsets_len();
        }
        self.offsets = Vec::new();
        proof {
            assert(offsets_keyed(self.offsets@) =~= Seq::<(u128, i64)>::empty());
            assert(self.offsets() =~= Map::<i32, i64>::empty());
        }
        out
    }

    proof fn lemma_offsets_len(&self)
        requires
            self.wf(),
        ensures
            self.offsets().len() == self.offsets@.len(),
    {
        let s = offsets_keyed(self.offsets@);
        let keys = self.offsets@.map_values(|p: (i32, i64)| p.0);
        assert forall|a: int, b: int| 0 <= a < b < keys.len() implies keys[a] != keys[b] by {
            assert(s[a].0 != s[b].0);
        }
        assert(keys.no_duplicates());
        keys.unique_seq_to_set();
        assert forall|p: i32| #[trigger] self.offsets().dom().contains(p) <==> keys.to_set().contains(p) by {
            if self.offsets().dom().contains(p) {
                let i = choose|i: int| 0 <= i < s.len() && s[i].0 == partition_key(p);
                assert(keys[i] == p);
            }
            if keys.to_set().contains(p) {
                let i = choose|i: int| 0 <= i < keys.len() && keys[i] == p;
                assert(s[i].0 == partition_key(p));
            }
        }
        assert(self.offsets().dom() =~= keys.to_set());
    }

    /// What to do when the stream gives no message: on a timeout, flush only if changes
    /// wait; at the end of the stream, flush in any case and stop.
    pub fn on_idle(&self, stream_ended: bool) -> (r: IdleAction)
        requires
            self.wf(),
        ensures
            r == (if stream_ended {
                IdleAction::FlushThenStop
            } else if self.changes().len() > 0 {
                IdleAction::FlushThenSleep
            } else {
                IdleAction::Sleep
            }),
    {
        if stream_ended {
            IdleAction::FlushThenStop
        } else if self.has_changes() {
            IdleAction::FlushThenSleep
        } else {
            IdleAction::Sleep
        }
    }
}

} // verus!
