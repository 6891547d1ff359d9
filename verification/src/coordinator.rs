//! Multi-agent coordination: a graph of workers, each run after the
//! workers it depends on, each a child flow whose id is derived from the
//! coordinator's id and the worker's name, so that a restarted run finds
//! the results of the workers that had finished.

use vstd::prelude::*;
use vstd::utf8::encode_utf8;
use crate::dag::{
    compute_levels, first_missing, grouped, levels_fit, missing_message, cycle_message,
    some_missing, valid_graph, validate_graph, DagNode,
};
use crate::hash::{fnv1a_hash, fnv1a_spec};
use crate::types::ExecutionId;
use crate::uuid::{hyphenated, Uuid};

verus! {

/// The graph of workers of a coordinated run.
pub struct AgentCoordinator {
    workers: Vec<DagNode>,
}

/// The 16 bytes of a child id, from the hash `h1` of the coordinator's
/// id and the worker's name and the hash `h2` of the worker's name: the
/// top 48 bits of `h1`, the version digit 4 and the low 12 bits of `h1`,
/// the variant bits and the low 14 bits of `h2`, the low 48 bits of `h2`,
/// each group most significant first.
pub open spec fn child_id_bytes(h1: u64, h2: u64) -> Seq<u8> {
    seq![
        (h1 >> 56u64) as u8,
        (h1 >> 48u64) as u8,
        (h1 >> 40u64) as u8,
        (h1 >> 32u64) as u8,
        (h1 >> 24u64) as u8,
        (h1 >> 16u64) as u8,
        (0x40u64 | ((h1 >> 8u64) & 0x0fu64)) as u8,
        (h1 & 0xffu64) as u8,
        (0x80u64 | ((h2 >> 8u64) & 0x3fu64)) as u8,
        (h2 & 0xffu64) as u8,
        (h2 >> 40u64) as u8,
        (h2 >> 32u64) as u8,
        (h2 >> 24u64) as u8,
        (h2 >> 16u64) as u8,
        (h2 >> 8u64) as u8,
        (h2 & 0xffu64) as u8,
    ]
}

/// The text hashed for a worker's child id: the coordinator's id, a
/// colon, the worker's name.
pub open spec fn child_seed(coordinator: ExecutionId, worker: Seq<char>) -> Seq<char> {
    hyphenated(coordinator.0@) + ":"@ + worker
}

impl AgentCoordinator {
    /// The registered workers, in order.
    pub closed spec fn nodes(&self) -> Seq<DagNode> {
        self.workers@
    }

    /// A coordinator with no workers.
    pub fn new() -> (c: Self)
        ensures
            c.nodes() == Seq::<DagNode>::empty(),
    {
        AgentCoordinator { workers: Vec::new() }
    }

    /// Register a worker with the workers it depends on; its index is the
    /// number of workers registered before it.
    pub fn add_worker(&mut self, id: String, dependencies: Vec<String>)
        ensures
            final(self).nodes() == old(self).nodes().push(DagNode { id, dependencies }),
    {
        self.workers.push(DagNode { id, dependencies });
    }

    /// The registered workers.
    pub fn workers(&self) -> (w: &Vec<DagNode>)
        ensures
            w@ == self.nodes(),
    {
        &self.workers
    }

    /// Validate the graph (missing dependencies, duplicate ids, cycles).
    pub fn validate(&self) -> (r: Result<(), String>)
        ensures
            r is Ok <==> valid_graph(self.nodes()),
            r matches Err(m) ==> if some_missing(self.nodes()) {
                exists|i: int, j: int| first_missing(self.nodes(), i, j) && m@ == missing_message(
                    "worker"@,
                    self.nodes()[i].id@,
                    self.nodes()[i].dependencies@[j]@,
                )
            } else {
                m@ == cycle_message("worker"@)
            },
    {
        validate_graph(&self.workers, "worker")
    }

    /// The worker indices grouped by level, for a valid graph: workers at
    /// one level can run in parallel.
    pub fn compute_levels(&self) -> (levels: Vec<Vec<usize>>)
        requires
            valid_graph(self.nodes()),
        ensures
            exists|lv: Seq<usize>| levels_fit(self.nodes(), lv) && grouped(lv, levels@),
    {
        compute_levels(&self.workers)
    }

    /// The id of a worker's child flow: the same for the same coordinator
    /// and worker, in every run.
    pub fn child_id(coordinator_id: &ExecutionId, worker_id: &str) -> (r: ExecutionId)
        ensures
            r.0@ == child_id_bytes(
                fnv1a_spec(encode_utf8(child_seed(*coordinator_id, worker_id@))),
                fnv1a_spec(encode_utf8(worker_id@)),
            ),
    {
        let mut seed = coordinator_id.to_text();
        seed.push(':');
        seed.push_str(worker_id);
        proof {
            reveal_strlit(":");
            assert(seed@ =~= child_seed(*coordinator_id, worker_id@));
        }
        let h1 = fnv1a_hash(seed.as_str().as_bytes());
        let h2 = fnv1a_hash(worker_id.as_bytes());
        let bytes: [u8; 16] = [
            (h1 >> 56u64) as u8,
            (h1 >> 48u64) as u8,
            (h1 >> 40u64) as u8,
            (h1 >> 32u64) as u8,
            (h1 >> 24u64) as u8,
            (h1 >> 16u64) as u8,
            (0x40u64 | ((h1 >> 8u64) & 0x0fu64)) as u8,
            (h1 & 0xffu64) as u8,
            (0x80u64 | ((h2 >> 8u64) & 0x3fu64)) as u8,
            (h2 & 0xffu64) as u8,
            (h2 >> 40u64) as u8,
            (h2 >> 32u64) as u8,
            (h2 >> 24u64) as u8,
            (h2 >> 16u64) as u8,
            (h2 >> 8u64) as u8,
            (h2 & 0xffu64) as u8,
        ];
        let u = Uuid::from_bytes(bytes);
        assert(u@ =~= child_id_bytes(h1, h2));
        ExecutionId::from_uuid(u)
    }
}

impl Default for AgentCoordinator {
    fn default() -> (c: Self)
        ensures
            c.nodes() == Seq::<DagNode>::empty(),
    {
        Self::new()
    }
}

} // verus!
