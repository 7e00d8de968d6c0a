use vstd::prelude::*;

use crate::json::JsonValue;
use crate::object_builder::buffer::{add_object_model, edge_objects, plan_tree_objects, sources_view, ViewPlan};
use crate::object_builder::model::{FullView, ObjectIdPair, RowSource, TreeResponse};
use crate::object_builder::relations::RelationError;
use crate::object_builder::view_plan::RowPlanView;

verus! {

/// The objects of a view as they stream in, turned into row sources: the rows that an object
/// completes wait in a stack and are handed out last first.
pub struct ObjectBufferedStream {
    buffer: ViewPlan,
    vec: Vec<RowSource>,
}

/// What taking in an object came to.
#[derive(Debug, PartialEq)]
pub enum InputStep {
    /// No row is complete yet.
    Pending,
    /// The view's relations could not be followed.
    Failed(RelationError),
    /// Rows are ready.
    Ready,
}

impl ObjectBufferedStream {
    pub closed spec fn wf(&self) -> bool {
        self.buffer.wf()
    }

    /// The plan that buffers the objects.
    pub closed spec fn plan(&self) -> ViewPlan {
        self.buffer
    }

    /// The rows waiting to be handed out, the next last.
    pub closed spec fn pending(&self) -> Seq<RowSource> {
        self.vec@
    }

    /// The stream of a view for the given edges, with no row waiting.
    pub fn try_new(view: FullView, edges: &Vec<TreeResponse>) -> (r: Result<ObjectBufferedStream, RelationError>)
        ensures
            match r {
                Ok(s) => s.wf() && s.pending().len() == 0 && s.plan().view == view,
                Err(e) => plan_tree_objects(view, edge_objects(edges@)) == Err::<
                    Seq<RowPlanView>,
                    RelationError,
                >(e),
            },
            r is Err <==> plan_tree_objects(view, edge_objects(edges@)) is Err,
    {
        match ViewPlan::try_new(view, edges) {
            Ok(buffer) => Ok(ObjectBufferedStream { buffer, vec: Vec::new() }),
            Err(e) => Err(e),
        }
    }

    /// The next waiting row, if any: the last of the waiting ones.
    pub fn pop_ready(&mut self) -> (r: Option<RowSource>)
        ensures
            final(self).wf() == old(self).wf(),
            final(self).plan() == old(self).plan(),
            old(self).pending().len() == 0 ==> r is None && final(self).pending() == old(self).pending(),
            old(self).pending().len() > 0 ==> r == Some(old(self).pending().last()) && final(self).pending() == old(self).pending().drop_last(),
    {
        self.vec.pop()
    }

    /// Takes in an object (see `ViewPlan::add_object`): the rows it completes, if any, wait to
    /// be handed out in place of those that waited.
    pub fn on_object(&mut self, pair: ObjectIdPair, value: JsonValue) -> (r: InputStep)
        requires
            old(self).wf(),
        ensures
            final(self).wf(),
            final(self).plan().view == old(self).plan().view,
            final(self).plan().needed == old(self).plan().needed,
            ({
                let (rows, out) = add_object_model(
                    old(self).plan().view,
                    old(self).plan().rows(),
                    old(self).plan().needed_sets(),
                    pair,
                    value@,
                );
                &&& final(self).plan().rows() == rows
                &&& match out {
                    None => r is Pending && final(self).pending() == old(self).pending(),
                    Some(Err(e)) => r == InputStep::Failed(e) && final(self).pending() == old(self).pending(),
                    Some(Ok(sources)) => r is Ready && sources_view(final(self).pending())
                        == sources,
                }
            }),
    {
        match self.buffer.add_object(pair, value) {
            None => InputStep::Pending,
            Some(Err(e)) => InputStep::Failed(e),
            Some(Ok(rows)) => {
                self.vec = rows;
                InputStep::Ready
            },
        }
    }
}

} // verus!
