//! A model of the host's exclusively borrowed store, as this layer sees it.

use crate::runner::ScheduleRunner;
use vstd::prelude::*;

verus! {

/// One host entity carrying a runner component.  The entity identity is the
/// only association between the runner and its entity.
pub struct EntityEntry {
    pub entity: u64,
    pub runner: ScheduleRunner,
}

/// What the driver reads and writes of the host's world and resource store:
/// the optional singleton runner resource, every entity carrying a runner
/// component, and the elapsed time of the current drive (`None` while the
/// host's time source is absent).  The host hands the store out under a
/// single exclusive borrow; a schedule stored inside it can therefore only be
/// run after being moved out of its slot.
pub struct HostWorld {
    pub runner_resource: Option<ScheduleRunner>,
    pub entities: Vec<EntityEntry>,
    pub delta_nanos: Option<u64>,
}

impl HostWorld {
    /// Every stored runner is valid and entity identities are pairwise
    /// distinct, as the host guarantees of its component store.
    pub open spec fn wf(self) -> bool {
        &&& match self.runner_resource {
            Option::Some(r) => r.0.wf(),
            Option::None => true,
        }
        &&& forall|i: int| 0 <= i < self.entities@.len() ==> (#[trigger] self.entities@[i]).runner.0.wf()
        &&& forall|i: int, j: int|
            0 <= i < j < self.entities@.len() ==> self.entities@[i].entity != self.entities@[j].entity
    }

    /// An empty store with no time source.
    pub fn new() -> (w: HostWorld)
        ensures
            w.runner_resource is None,
            w.entities@.len() == 0,
            w.delta_nanos is None,
            w.wf(),
    {
        HostWorld { runner_resource: None, entities: Vec::new(), delta_nanos: None }
    }
}

} // verus!

