//! Which CPU cores each shard lives on.
//!
//! The operator's choice, the cores the process may use and the machine's
//! memory layout go in; one placement per shard comes out.

use std::collections::HashSet;

use vstd::prelude::*;
use vstd::std_specs::hash::group_hash_axioms;

use crate::lists::lemma_filter_is_subsequence;

verus! {

broadcast use group_hash_axioms;

/// Why shards could not be placed or bound.
#[derive(Debug)]
pub enum ShardingError {
    TopologyDetection { msg: String },
    NoNumaNodes,
    NoTopology,
    BindingFailed,
    InsufficientCores { requested: usize, available: usize, node: usize },
    AllowedCpusExceeded { requested: usize, available: usize },
    CpuNotAllowed { cpu: usize },
    InvalidRange { start: usize, end: usize },
    InvalidNode { requested: usize, available: usize },
    Other { msg: String },
}

/// A choice of cores by memory node.
#[derive(Debug)]
pub struct NumaConfig {
    /// Nodes to use; all of them where empty.
    pub nodes: Vec<usize>,
    /// Cores to use on each node; all of the first node's where zero.
    pub cores_per_node: usize,
    /// Use one CPU of each physical core.
    pub avoid_hyperthread: bool,
}

/// The operator's choice of cores.
#[derive(Debug)]
pub enum CpuAllocation {
    /// As many shards as the process can run in parallel.
    All,
    /// This many shards.
    Count(usize),
    /// One shard for each CPU from the first to before the second.
    Range(usize, usize),
    /// By memory node.
    NumaAware(NumaConfig),
}

impl NumaConfig {
    /// An equal choice.
    pub fn duplicate(&self) -> (copy: NumaConfig)
        ensures
            copy.nodes@ == self.nodes@,
            copy.cores_per_node == self.cores_per_node,
            copy.avoid_hyperthread == self.avoid_hyperthread,
    {
        NumaConfig {
            nodes: self.nodes.clone(),
            cores_per_node: self.cores_per_node,
            avoid_hyperthread: self.avoid_hyperthread,
        }
    }
}

/// Two choices ask for the same.
pub open spec fn same_allocation(left: CpuAllocation, right: CpuAllocation) -> bool {
    match (left, right) {
        (CpuAllocation::All, CpuAllocation::All) => true,
        (CpuAllocation::Count(a), CpuAllocation::Count(b)) => a == b,
        (CpuAllocation::Range(a, b), CpuAllocation::Range(c, d)) => a == c && b == d,
        (CpuAllocation::NumaAware(a), CpuAllocation::NumaAware(b)) => {
            &&& a.nodes@ == b.nodes@
            &&& a.cores_per_node == b.cores_per_node
            &&& a.avoid_hyperthread == b.avoid_hyperthread
        },
        _ => false,
    }
}

impl CpuAllocation {
    /// An equal choice.
    pub fn duplicate(&self) -> (copy: CpuAllocation)
        ensures
            same_allocation(copy, *self),
    {
        match self {
            CpuAllocation::All => CpuAllocation::All,
            CpuAllocation::Count(count) => CpuAllocation::Count(*count),
            CpuAllocation::Range(start, end) => CpuAllocation::Range(*start, *end),
            CpuAllocation::NumaAware(numa) => CpuAllocation::NumaAware(numa.duplicate()),
        }
    }

    /// The choice cannot be carried out without the machine's layout.
    pub fn needs_topology(&self) -> (needs: bool)
        ensures
            needs == (self is NumaAware),
    {
        matches!(self, CpuAllocation::NumaAware(_))
    }
}

/// CPUs in increasing order, each once.
pub open spec fn increasing(cpus: Seq<usize>) -> bool {
    forall|i: int, j: int| #![trigger cpus[i], cpus[j]] 0 <= i < j < cpus.len() ==> cpus[i] < cpus[j]
}

/// The layout a machine reports: the CPUs of each memory node and of each
/// physical core, where it reports them.
#[derive(Debug)]
pub struct MachineLayout {
    pub nodes: Vec<Option<Vec<usize>>>,
    pub cores: Vec<Option<Vec<usize>>>,
}

impl MachineLayout {
    /// A node's CPUs are a set, listed in order.
    pub open spec fn wf(&self) -> bool {
        forall|i: int| #![trigger self.nodes@[i]] 0 <= i < self.nodes@.len() && self.nodes@[i] is Some ==> increasing(self.nodes@[i]->0@)
    }
}

/// The memory nodes of a machine.
#[derive(Debug)]
pub struct NumaTopology {
    /// The CPUs of each node, in increasing order.
    pub nodes: Vec<Vec<usize>>,
    /// The CPUs of each physical core.
    pub cores: Vec<Vec<usize>>,
}

/// Some CPU belongs to both.
pub open spec fn overlaps(left: Seq<usize>, right: Seq<usize>) -> bool {
    exists|i: int| #![trigger left[i]] 0 <= i < left.len() && right.contains(left[i])
}

/// The cores that have a CPU among `cpus`.
pub open spec fn cores_of(cores: Seq<Vec<usize>>, cpus: Seq<usize>) -> nat
    decreases cores.len(),
{
    if cores.len() == 0 {
        0
    } else {
        cores_of(cores.drop_last(), cpus) + if overlaps(cpus, cores.last()@) {
            1nat
        } else {
            0
        }
    }
}

/// The CPU is the lowest of `cpus` on some core.
pub open spec fn leads_a_core(cores: Seq<Vec<usize>>, cpus: Seq<usize>, cpu: usize) -> bool {
    exists|k: int| #![trigger cores[k]] 0 <= k < cores.len() && leads(cores[k]@, cpus, cpu)
}

/// The CPU is the lowest of `cpus` on this core.
pub open spec fn leads(core: Seq<usize>, cpus: Seq<usize>, cpu: usize) -> bool {
    &&& core.contains(cpu)
    &&& forall|i: int| #![trigger cpus[i]] 0 <= i < cpus.len() && core.contains(cpus[i]) ==> cpu <= cpus[i]
}

/// The CPUs of a node that may be used.
pub open spec fn usable_cpus(topology: NumaTopology, node: int, avoid_hyperthread: bool) -> Seq<usize> {
    let cpus = topology.nodes@[node]@;
    if avoid_hyperthread {
        cpus.filter(|cpu: usize| leads_a_core(topology.cores@, cpus, cpu))
    } else {
        cpus
    }
}

fn contains_cpu(cpus: &Vec<usize>, cpu: usize) -> (found: bool)
    ensures
        found == cpus@.contains(cpu),
{
    let mut i: usize = 0;
    while i < cpus.len()
        invariant
            i <= cpus@.len(),
            forall|j: int| #![trigger cpus@[j]] 0 <= j < i ==> cpus@[j] != cpu,
        decreases cpus@.len() - i,
    {
        if cpus[i] == cpu {
            proof {
                assert(cpus@[i as int] == cpu);
            }
            return true;
        }
        i += 1;
    }
    false
}

fn lists_overlap(left: &Vec<usize>, right: &Vec<usize>) -> (found: bool)
    ensures
        found == overlaps(left@, right@),
{
    let mut i: usize = 0;
    while i < left.len()
        invariant
            i <= left@.len(),
            forall|j: int| #![trigger left@[j]] 0 <= j < i ==> !right@.contains(left@[j]),
        decreases left@.len() - i,
    {
        if contains_cpu(right, left[i]) {
            proof {
                assert(right@.contains(left@[i as int]));
            }
            return true;
        }
        i += 1;
    }
    false
}

impl NumaTopology {
    /// There is a node, and each node's CPUs are a set, listed in order.
    pub open spec fn wf(&self) -> bool {
        &&& self.nodes@.len() > 0
        &&& forall|i: int| #![trigger self.nodes@[i]] 0 <= i < self.nodes@.len() ==> increasing(self.nodes@[i]@)
    }

    /// Read the layout a machine reports. Cores it reports without CPUs are on
    /// no node.
    pub fn detect(machine: MachineLayout) -> (topology: Result<NumaTopology, ShardingError>)
        requires
            machine.wf(),
        ensures
            is_detected(machine, topology),
    {
        if machine.nodes.len() == 0 {
            return Err(ShardingError::NoNumaNodes);
        }
        let ghost given = machine;
        let mut nodes: Vec<Vec<usize>> = Vec::new();
        for node in iter: machine.nodes.into_iter()
            invariant
                iter.seq() == given.nodes@,
                nodes@.len() == iter.index(),
                forall|i: int| #![trigger nodes@[i]] 0 <= i < nodes@.len() ==> given.nodes@[i] == Some(nodes@[i]),
        {
            match node {
                Some(cpus) => {
                    nodes.push(cpus);
                },
                None => {
                    proof {
                        assert(given.nodes@[iter.index() as int] is None);
                    }
                    return Err(ShardingError::TopologyDetection { msg: text(NODE_WITHOUT_CPUS) });
                },
            }
        }
        let cores: Vec<Vec<usize>> = keep_reported(machine.cores);
        proof {
            assert forall|i: int| #![trigger nodes@[i]] 0 <= i < nodes@.len() implies increasing(nodes@[i]@) by {
                assert(given.nodes@[i] == Some(nodes@[i]));
            }
        }
        Ok(NumaTopology { nodes, cores })
    }
}

/// The answer to a machine's layout.
pub open spec fn is_detected(machine: MachineLayout, answer: Result<NumaTopology, ShardingError>) -> bool {
    match answer {
        Ok(topology) => topology.wf() && is_layout(machine, topology),
        Err(ShardingError::NoNumaNodes) => machine.nodes@.len() == 0,
        Err(ShardingError::TopologyDetection { msg }) => msg@ == NODE_WITHOUT_CPUS@ && has_bare_node(machine),
        Err(_) => false,
    }
}

/// The lists that are there.
pub open spec fn reported(lists: Seq<Option<Vec<usize>>>) -> Seq<Vec<usize>>
    decreases lists.len(),
{
    if lists.len() == 0 {
        Seq::empty()
    } else {
        match lists.last() {
            Some(list) => reported(lists.drop_last()).push(list),
            None => reported(lists.drop_last()),
        }
    }
}

fn keep_reported(lists: Vec<Option<Vec<usize>>>) -> (kept: Vec<Vec<usize>>)
    ensures
        kept@ == reported(lists@),
{
    let ghost given = lists@;
    let mut kept: Vec<Vec<usize>> = Vec::new();
    proof {
        assert(given.take(0).len() == 0);
    }
    for list in iter: lists.into_iter()
        invariant
            iter.seq() == given,
            kept@ == reported(given.take(iter.index() as int)),
    {
        proof {
            let at = iter.index() as int;
            assert(given.take(at + 1).drop_last() =~= given.take(at));
            assert(given.take(at + 1).last() == list);
        }
        if let Some(list) = list {
            kept.push(list);
        }
    }
    proof {
        assert(given.take(given.len() as int) =~= given);
    }
    kept
}

/// What a machine whose node reports no CPUs is refused with.
pub const NODE_WITHOUT_CPUS: &'static str = "NUMA node has no CPU set";

/// An owned copy of a text.
fn text(words: &str) -> (owned: String)
    ensures
        owned@ == words@,
{
    words.to_string()
}

impl NumaTopology {
    /// Physical cores of a node; zero where there is no such node.
    pub fn physical_cores_for_node(&self, node: usize) -> (count: usize)
        ensures
            count == if node < self.nodes@.len() {
                cores_of(self.cores@, self.nodes@[node as int]@)
            } else {
                0
            },
    {
        if node >= self.nodes.len() {
            return 0;
        }
        let mut count: usize = 0;
        let mut k: usize = 0;
        proof {
            assert(self.cores@.take(0).len() == 0);
        }
        while k < self.cores.len()
            invariant
                node < self.nodes@.len(),
                k <= self.cores@.len(),
                count <= k,
                count == cores_of(self.cores@.take(k as int), self.nodes@[node as int]@),
            decreases self.cores@.len() - k,
        {
            proof {
                assert(self.cores@.take(k + 1).drop_last() =~= self.cores@.take(k as int));
            }
            if lists_overlap(&self.nodes[node], &self.cores[k]) {
                count += 1;
            }
            k += 1;
        }
        proof {
            assert(self.cores@.take(k as int) =~= self.cores@);
        }
        count
    }

    /// CPUs of a node, those that share a core included; zero where there is
    /// no such node.
    pub fn logical_cores_for_node(&self, node: usize) -> (count: usize)
        ensures
            count == if node < self.nodes@.len() {
                self.nodes@[node as int]@.len()
            } else {
                0
            },
    {
        if node < self.nodes.len() {
            self.nodes[node].len()
        } else {
            0
        }
    }

    /// Whether the node's CPU at `at` is the lowest of the node on some core.
    fn leads_some_core(&self, node: usize, at: usize) -> (found: bool)
        requires
            self.wf(),
            node < self.nodes@.len(),
            at < self.nodes@[node as int]@.len(),
        ensures
            found == leads_a_core(self.cores@, self.nodes@[node as int]@, self.nodes@[node as int]@[at as int]),
    {
        let cpus: &Vec<usize> = &self.nodes[node];
        let cpu: usize = cpus[at];
        let mut k: usize = 0;
        while k < self.cores.len()
            invariant
                cpus@ == self.nodes@[node as int]@,
                at < cpus@.len(),
                cpu == cpus@[at as int],
                increasing(cpus@),
                k <= self.cores@.len(),
                forall|j: int| #![trigger self.cores@[j]] 0 <= j < k ==> !leads(self.cores@[j]@, cpus@, cpu),
            decreases self.cores@.len() - k,
        {
            let core: &Vec<usize> = &self.cores[k];
            if contains_cpu(core, cpu) {
                let mut lower: usize = 0;
                while lower < at && !contains_cpu(core, cpus[lower])
                    invariant
                        lower <= at < cpus@.len(),
                        forall|j: int| #![trigger cpus@[j]] 0 <= j < lower ==> !core@.contains(cpus@[j]),
                    decreases at - lower,
                {
                    lower += 1;
                }
                if lower == at {
                    proof {
                        assert(leads(self.cores@[k as int]@, cpus@, cpu));
                    }
                    return true;
                }
                proof {
                    assert(cpus@[lower as int] < cpus@[at as int]);
                    assert(core@.contains(cpus@[lower as int]));
                }
            }
            k += 1;
        }
        false
    }

    /// The CPUs of a node that may be used, in increasing order.
    fn get_cpuset_for_node(&self, node: usize, avoid_hyperthread: bool) -> (cpus: Result<Vec<usize>, ShardingError>)
        requires
            self.wf(),
        ensures
            match cpus {
                Ok(cpus) => node < self.nodes@.len() && cpus@ == usable_cpus(*self, node as int, avoid_hyperthread),
                Err(error) => {
                    &&& node >= self.nodes@.len()
                    &&& error == (ShardingError::InvalidNode { requested: node, available: self.nodes@.len() as usize })
                },
            },
    {
        if node >= self.nodes.len() {
            return Err(ShardingError::InvalidNode { requested: node, available: self.nodes.len() });
        }
        if !avoid_hyperthread {
            return Ok(self.nodes[node].clone());
        }
        let ghost all = self.nodes@[node as int]@;
        let ghost leading = |cpu: usize| leads_a_core(self.cores@, all, cpu);
        let mut physical: Vec<usize> = Vec::new();
        let mut i: usize = 0;
        proof {
            reveal(Seq::filter);
            assert(all.take(0).filter(leading) =~= Seq::empty());
        }
        while i < self.nodes[node].len()
            invariant
                self.wf(),
                node < self.nodes@.len(),
                all == self.nodes@[node as int]@,
                leading == |cpu: usize| leads_a_core(self.cores@, all, cpu),
                i <= all.len(),
                physical@ == all.take(i as int).filter(leading),
            decreases all.len() - i,
        {
            proof {
                reveal(Seq::filter);
                assert(all.take(i + 1).drop_last() =~= all.take(i as int));
                assert(all.take(i + 1).last() == all[i as int]);
            }
            if self.leads_some_core(node, i) {
                physical.push(self.nodes[node][i]);
            }
            i += 1;
        }
        proof {
            assert(all.take(all.len() as int) =~= all);
        }
        Ok(physical)
    }
}

/// Where one shard lives.
#[derive(Debug)]
pub struct ShardInfo {
    /// Cores it may run on; any where empty.
    pub cpu_set: HashSet<usize>,
    /// Memory node its memory stays near, if any.
    pub numa_node: Option<usize>,
}

/// The shard is bound to exactly this CPU.
pub open spec fn is_pinned(shard: ShardInfo, cpu: usize, node: Option<usize>) -> bool {
    shard.cpu_set@ == Set::<usize>::empty().insert(cpu) && shard.numa_node == node
}

/// The shard is bound to nothing.
pub open spec fn is_free(shard: ShardInfo) -> bool {
    shard.cpu_set@ == Set::<usize>::empty() && shard.numa_node is None
}

/// Each shard is bound to the CPU at its index.
pub open spec fn are_pinned(shards: Seq<ShardInfo>, cpus: Seq<usize>) -> bool {
    &&& shards.len() == cpus.len()
    &&& forall|i: int| #![trigger shards[i]] 0 <= i < shards.len() ==> is_pinned(shards[i], cpus[i], None)
}

/// This many shards, bound to nothing.
pub open spec fn are_free(shards: Seq<ShardInfo>, count: int) -> bool {
    &&& shards.len() == count
    &&& forall|i: int| #![trigger shards[i]] 0 <= i < shards.len() ==> is_free(shards[i])
}

fn pinned_to(cpu: usize, numa_node: Option<usize>) -> (shard: ShardInfo)
    ensures
        is_pinned(shard, cpu, numa_node),
{
    let mut cpu_set: HashSet<usize> = HashSet::new();
    cpu_set.insert(cpu);
    ShardInfo { cpu_set, numa_node }
}

/// One shard per core drawn from `allowed`, each bound to its own core.
pub fn pinned_from_allowed(allowed: &[usize], count: usize) -> (shards: Result<Vec<ShardInfo>, ShardingError>)
    ensures
        match shards {
            Ok(shards) => count <= allowed@.len() && are_pinned(shards@, allowed@.take(count as int)),
            Err(error) => {
                &&& count > allowed@.len()
                &&& error == (ShardingError::AllowedCpusExceeded { requested: count, available: allowed@.len() as usize })
            },
        },
{
    if count > allowed.len() {
        return Err(ShardingError::AllowedCpusExceeded { requested: count, available: allowed.len() });
    }
    let mut shards: Vec<ShardInfo> = Vec::new();
    let mut i: usize = 0;
    while i < count
        invariant
            i <= count <= allowed@.len(),
            shards@.len() == i,
            forall|j: int| #![trigger shards@[j]] 0 <= j < i ==> is_pinned(shards@[j], allowed@[j], None),
        decreases count - i,
    {
        shards.push(pinned_to(allowed[i], None));
        i += 1;
    }
    Ok(shards)
}

/// Shards bound to no core: the kernel places their threads. The right mode
/// where the process shares its cores with others.
pub fn unpinned(count: usize) -> (shards: Vec<ShardInfo>)
    ensures
        are_free(shards@, count as int),
{
    let mut shards: Vec<ShardInfo> = Vec::new();
    while shards.len() < count
        invariant
            shards@.len() <= count,
            forall|j: int| #![trigger shards@[j]] 0 <= j < shards@.len() ==> is_free(shards@[j]),
        decreases count - shards@.len(),
    {
        shards.push(ShardInfo { cpu_set: HashSet::new(), numa_node: None });
    }
    shards
}

/// The nodes a choice names; all of them where it names none.
pub open spec fn numa_nodes(topology: NumaTopology, numa: NumaConfig) -> Seq<usize> {
    if numa.nodes@.len() == 0 {
        Seq::new(topology.nodes@.len(), |i: int| i as usize)
    } else {
        numa.nodes@
    }
}

/// The cores a choice takes from each node; where it names no number, as many
/// as the first node has.
pub open spec fn numa_cores(topology: NumaTopology, numa: NumaConfig) -> int {
    let first = numa_nodes(topology, numa)[0];
    if numa.cores_per_node != 0 {
        numa.cores_per_node as int
    } else if first >= topology.nodes@.len() {
        0
    } else if numa.avoid_hyperthread {
        cores_of(topology.cores@, topology.nodes@[first as int]@) as int
    } else {
        topology.nodes@[first as int]@.len() as int
    }
}

/// A CPU and the node it belongs to, for each shard, node by node.
pub open spec fn numa_plan(topology: NumaTopology, nodes: Seq<usize>, cores: int, avoid_hyperthread: bool) -> Seq<(usize, usize)>
    decreases nodes.len(),
{
    if nodes.len() == 0 {
        Seq::empty()
    } else {
        let cpus = usable_cpus(topology, nodes.last() as int, avoid_hyperthread);
        numa_plan(topology, nodes.drop_last(), cores, avoid_hyperthread) + Seq::new(
            cores as nat,
            |i: int| (cpus[i], nodes.last()),
        )
    }
}

/// Each shard is bound to its CPU and its node.
pub open spec fn follows_plan(shards: Seq<ShardInfo>, plan: Seq<(usize, usize)>) -> bool {
    &&& shards.len() == plan.len()
    &&& forall|i: int| #![trigger shards[i]] 0 <= i < shards.len() ==> is_pinned(shards[i], plan[i].0, Some(plan[i].1))
}

/// The first named node the machine does not have stands at `at`.
pub open spec fn first_unknown(topology: NumaTopology, nodes: Seq<usize>, at: int) -> bool {
    &&& 0 <= at < nodes.len()
    &&& nodes[at] >= topology.nodes@.len()
    &&& forall|j: int| #![trigger nodes[j]] 0 <= j < at ==> nodes[j] < topology.nodes@.len()
}

/// Every named node exists.
pub open spec fn all_known(topology: NumaTopology, nodes: Seq<usize>) -> bool {
    forall|j: int| #![trigger nodes[j]] 0 <= j < nodes.len() ==> nodes[j] < topology.nodes@.len()
}

/// The first node with too few CPUs stands at `at`.
pub open spec fn first_short(topology: NumaTopology, nodes: Seq<usize>, cores: int, avoid_hyperthread: bool, at: int) -> bool {
    &&& 0 <= at < nodes.len()
    &&& usable_cpus(topology, nodes[at] as int, avoid_hyperthread).len() < cores
    &&& forall|j: int|
        #![trigger nodes[j]]
        0 <= j < at ==> usable_cpus(topology, nodes[j] as int, avoid_hyperthread).len() >= cores
}

/// Every node has enough CPUs.
pub open spec fn all_suffice(topology: NumaTopology, nodes: Seq<usize>, cores: int, avoid_hyperthread: bool) -> bool {
    forall|j: int|
        #![trigger nodes[j]]
        0 <= j < nodes.len() ==> usable_cpus(topology, nodes[j] as int, avoid_hyperthread).len() >= cores
}

/// The answer to a choice by memory node. An unknown node is reported before
/// a short one.
pub open spec fn is_numa_answer(topology: NumaTopology, numa: NumaConfig, answer: Result<Vec<ShardInfo>, ShardingError>) -> bool {
    let nodes = numa_nodes(topology, numa);
    let cores = numa_cores(topology, numa);
    match answer {
        Ok(shards) => {
            &&& all_known(topology, nodes)
            &&& all_suffice(topology, nodes, cores, numa.avoid_hyperthread)
            &&& follows_plan(shards@, numa_plan(topology, nodes, cores, numa.avoid_hyperthread))
        },
        Err(ShardingError::InvalidNode { requested, available }) => {
            &&& available == topology.nodes@.len()
            &&& exists|at: int| first_unknown(topology, nodes, at) && requested == #[trigger] nodes[at]
        },
        Err(ShardingError::InsufficientCores { requested, available, node }) => {
            &&& all_known(topology, nodes)
            &&& requested == cores
            &&& exists|at: int|
                first_short(topology, nodes, cores, numa.avoid_hyperthread, at) && node == #[trigger] nodes[at] && available
                    == usable_cpus(topology, node as int, numa.avoid_hyperthread).len()
        },
        Err(_) => false,
    }
}

/// The operator's choice with what it needs to be carried out.
pub struct ShardAllocator {
    pub allocation: CpuAllocation,
    pub pin_cores: bool,
    pub topology: Option<NumaTopology>,
}

/// The answer to a choice that is to be carried out on this machine.
pub open spec fn is_allocator(
    allocation: CpuAllocation,
    pin_cores: bool,
    machine: Option<Result<MachineLayout, String>>,
    answer: Result<ShardAllocator, ShardingError>,
) -> bool {
    match answer {
        Ok(allocator) => {
            &&& allocator.wf()
            &&& same_allocation(allocator.allocation, allocation)
            &&& allocator.pin_cores == pin_cores
            &&& allocator.topology is Some <==> allocation is NumaAware && machine is Some
            &&& allocator.topology is Some ==> machine->0 is Ok && is_layout(machine->0->Ok_0, allocator.topology->0)
        },
        Err(ShardingError::TopologyDetection { msg }) => {
            &&& allocation is NumaAware && machine is Some
            &&& match machine->0 {
                Err(words) => msg == words,
                Ok(layout) => msg@ == NODE_WITHOUT_CPUS@ && has_bare_node(layout),
            }
        },
        Err(ShardingError::NoNumaNodes) => {
            &&& allocation is NumaAware && machine is Some
            &&& machine->0 is Ok && machine->0->Ok_0.nodes@.len() == 0
        },
        Err(_) => false,
    }
}

impl ShardAllocator {
    pub open spec fn wf(&self) -> bool {
        self.topology is Some ==> self.topology->0.wf()
    }

    /// Build an allocator. `machine` is the layout read for a choice that
    /// needs it, or the words it could not be read with; other choices do not
    /// look at it.
    pub fn new(allocation: &CpuAllocation, pin_cores: bool, machine: Option<Result<MachineLayout, String>>) -> (allocator: Result<
        ShardAllocator,
        ShardingError,
    >)
        requires
            machine is Some && machine->0 is Ok ==> machine->0->Ok_0.wf(),
        ensures
            is_allocator(*allocation, pin_cores, machine, allocator),
    {
        let mut topology: Option<NumaTopology> = None;
        if allocation.needs_topology() {
            match machine {
                Some(Ok(layout)) => match NumaTopology::detect(layout) {
                    Ok(found) => {
                        topology = Some(found);
                    },
                    Err(error) => {
                        return Err(error);
                    },
                },
                Some(Err(msg)) => {
                    return Err(ShardingError::TopologyDetection { msg });
                },
                None => {},
            }
        }
        Ok(ShardAllocator { allocation: allocation.duplicate(), pin_cores, topology })
    }

    fn compute_numa_assignments(&self, topology: &NumaTopology, numa: &NumaConfig) -> (answer: Result<Vec<ShardInfo>, ShardingError>)
        requires
            topology.wf(),
        ensures
            is_numa_answer(*topology, *numa, answer),
    {
        let nodes: Vec<usize> = if numa.nodes.len() == 0 {
            every_node(topology.nodes.len())
        } else {
            numa.nodes.clone()
        };
        proof {
            assert(nodes@ =~= numa_nodes(*topology, *numa));
        }
        let cores: usize = if numa.cores_per_node == 0 {
            if numa.avoid_hyperthread {
                topology.physical_cores_for_node(nodes[0])
            } else {
                topology.logical_cores_for_node(nodes[0])
            }
        } else {
            numa.cores_per_node
        };
        let node_cpus: Vec<Vec<usize>> = match cpus_of_nodes(topology, &nodes, numa.avoid_hyperthread) {
            Ok(node_cpus) => node_cpus,
            Err(error) => {
                return Err(error);
            },
        };
        place_on_nodes(topology, &nodes, &node_cpus, cores, numa.avoid_hyperthread)
    }
}

/// The layout was taken over as it was reported.
pub open spec fn is_layout(machine: MachineLayout, topology: NumaTopology) -> bool {
    &&& topology.nodes@.len() == machine.nodes@.len()
    &&& forall|i: int|
        #![trigger topology.nodes@[i]]
        0 <= i < topology.nodes@.len() ==> machine.nodes@[i] == Some(topology.nodes@[i])
    &&& topology.cores@ == reported(machine.cores@)
}

/// Some node is reported without CPUs.
pub open spec fn has_bare_node(machine: MachineLayout) -> bool {
    exists|i: int| #![trigger machine.nodes@[i]] 0 <= i < machine.nodes@.len() && machine.nodes@[i] is None
}

fn every_node(count: usize) -> (nodes: Vec<usize>)
    ensures
        nodes@ == Seq::new(count as nat, |i: int| i as usize),
{
    let mut nodes: Vec<usize> = Vec::new();
    while nodes.len() < count
        invariant
            nodes@.len() <= count,
            forall|j: int| #![trigger nodes@[j]] 0 <= j < nodes@.len() ==> nodes@[j] == j,
        decreases count - nodes@.len(),
    {
        nodes.push(nodes.len());
    }
    proof {
        assert(nodes@ =~= Seq::new(count as nat, |i: int| i as usize));
    }
    nodes
}

fn cpus_of_nodes(topology: &NumaTopology, nodes: &Vec<usize>, avoid_hyperthread: bool) -> (lists: Result<
    Vec<Vec<usize>>,
    ShardingError,
>)
    requires
        topology.wf(),
    ensures
        match lists {
            Ok(lists) => {
                &&& all_known(*topology, nodes@)
                &&& lists@.len() == nodes@.len()
                &&& forall|i: int|
                    #![trigger lists@[i]]
                    0 <= i < lists@.len() ==> lists@[i]@ == usable_cpus(*topology, nodes@[i] as int, avoid_hyperthread)
            },
            Err(ShardingError::InvalidNode { requested, available }) => {
                &&& available == topology.nodes@.len()
                &&& exists|at: int| first_unknown(*topology, nodes@, at) && requested == #[trigger] nodes@[at]
            },
            Err(_) => false,
        },
{
    let mut lists: Vec<Vec<usize>> = Vec::new();
    let mut i: usize = 0;
    while i < nodes.len()
        invariant
            topology.wf(),
            i <= nodes@.len(),
            lists@.len() == i,
            forall|j: int| #![trigger nodes@[j]] 0 <= j < i ==> nodes@[j] < topology.nodes@.len(),
            forall|j: int|
                #![trigger lists@[j]]
                0 <= j < i ==> lists@[j]@ == usable_cpus(*topology, nodes@[j] as int, avoid_hyperthread),
        decreases nodes@.len() - i,
    {
        match topology.get_cpuset_for_node(nodes[i], avoid_hyperthread) {
            Ok(cpus) => {
                lists.push(cpus);
            },
            Err(error) => {
                proof {
                    assert(first_unknown(*topology, nodes@, i as int));
                    assert(nodes@[i as int] >= topology.nodes@.len());
                }
                return Err(error);
            },
        }
        i += 1;
    }
    Ok(lists)
}

fn place_on_nodes(
    topology: &NumaTopology,
    nodes: &Vec<usize>,
    node_cpus: &Vec<Vec<usize>>,
    cores: usize,
    avoid_hyperthread: bool,
) -> (placed: Result<Vec<ShardInfo>, ShardingError>)
    requires
        node_cpus@.len() == nodes@.len(),
        forall|i: int|
            #![trigger node_cpus@[i]]
            0 <= i < node_cpus@.len() ==> node_cpus@[i]@ == usable_cpus(*topology, nodes@[i] as int, avoid_hyperthread),
    ensures
        match placed {
            Ok(shards) => {
                &&& all_suffice(*topology, nodes@, cores as int, avoid_hyperthread)
                &&& follows_plan(shards@, numa_plan(*topology, nodes@, cores as int, avoid_hyperthread))
            },
            Err(ShardingError::InsufficientCores { requested, available, node }) => {
                &&& requested == cores
                &&& exists|at: int|
                    first_short(*topology, nodes@, cores as int, avoid_hyperthread, at) && node == #[trigger] nodes@[at] && available
                        == usable_cpus(*topology, node as int, avoid_hyperthread).len()
            },
            Err(_) => false,
        },
{
    let mut shards: Vec<ShardInfo> = Vec::new();
    let mut i: usize = 0;
    proof {
        assert(nodes@.take(0).len() == 0);
    }
    while i < nodes.len()
        invariant
            i <= nodes@.len(),
            node_cpus@.len() == nodes@.len(),
            forall|j: int|
                #![trigger node_cpus@[j]]
                0 <= j < node_cpus@.len() ==> node_cpus@[j]@ == usable_cpus(*topology, nodes@[j] as int, avoid_hyperthread),
            forall|j: int|
                #![trigger nodes@[j]]
                0 <= j < i ==> usable_cpus(*topology, nodes@[j] as int, avoid_hyperthread).len() >= cores,
            follows_plan(shards@, numa_plan(*topology, nodes@.take(i as int), cores as int, avoid_hyperthread)),
        decreases nodes@.len() - i,
    {
        let cpus: &Vec<usize> = &node_cpus[i];
        let ghost planned = numa_plan(*topology, nodes@.take(i as int), cores as int, avoid_hyperthread);
        proof {
            assert(nodes@.take(i + 1).drop_last() =~= nodes@.take(i as int));
            assert(nodes@.take(i + 1).last() == nodes@[i as int]);
        }
        if cpus.len() < cores {
            proof {
                assert(first_short(*topology, nodes@, cores as int, avoid_hyperthread, i as int));
            }
            return Err(ShardingError::InsufficientCores { requested: cores, available: cpus.len(), node: nodes[i] });
        }
        let ghost before = shards@;
        let mut k: usize = 0;
        while k < cores
            invariant
                i < nodes@.len(),
                cpus@ == usable_cpus(*topology, nodes@[i as int] as int, avoid_hyperthread),
                k <= cores <= cpus@.len(),
                follows_plan(before, planned),
                shards@.len() == before.len() + k,
                forall|j: int| #![trigger shards@[j]] 0 <= j < before.len() ==> shards@[j] == before[j],
                forall|j: int|
                    #![trigger shards@[j]]
                    before.len() <= j < shards@.len() ==> is_pinned(
                        shards@[j],
                        cpus@[j - before.len()],
                        Some(nodes@[i as int]),
                    ),
            decreases cores - k,
        {
            shards.push(pinned_to(cpus[k], Some(nodes[i])));
            k += 1;
        }
        proof {
            let plan = numa_plan(*topology, nodes@.take(i + 1), cores as int, avoid_hyperthread);
            assert forall|j: int| #![trigger shards@[j]] 0 <= j < shards@.len() implies is_pinned(
                shards@[j],
                plan[j].0,
                Some(plan[j].1),
            ) by {
                if j < before.len() {
                    assert(shards@[j] == before[j]);
                    assert(plan[j] == planned[j]);
                }
            }
        }
        i += 1;
    }
    proof {
        assert(nodes@.take(i as int) =~= nodes@);
    }
    Ok(shards)
}

/// The first CPU of a range that is not allowed.
pub open spec fn first_refused(allowed: Seq<usize>, start: usize, end: usize, cpu: usize) -> bool {
    &&& start <= cpu < end
    &&& !allowed.contains(cpu)
    &&& forall|other: usize| start <= other < cpu ==> #[trigger] allowed.contains(other)
}

/// The answer to a choice. `parallelism` is how many threads the process can
/// run at once, `allowed` the CPUs it may use.
pub open spec fn is_assignment(
    allocator: ShardAllocator,
    parallelism: Result<usize, String>,
    allowed: Seq<usize>,
    answer: Result<Vec<ShardInfo>, ShardingError>,
) -> bool {
    match allocator.allocation {
        CpuAllocation::All => match parallelism {
            Err(msg) => answer == Err::<Vec<ShardInfo>, ShardingError>(ShardingError::Other { msg }),
            Ok(count) => {
                let available = if count < allowed.len() {
                    count as int
                } else {
                    allowed.len() as int
                };
                &&& answer is Ok
                &&& if allocator.pin_cores {
                    are_pinned(answer->Ok_0@, allowed.take(available))
                } else {
                    are_free(answer->Ok_0@, count as int)
                }
            },
        },
        CpuAllocation::Count(count) => if !allocator.pin_cores {
            answer is Ok && are_free(answer->Ok_0@, count as int)
        } else if count <= allowed.len() {
            answer is Ok && are_pinned(answer->Ok_0@, allowed.take(count as int))
        } else {
            answer is Err && answer->Err_0 == (ShardingError::AllowedCpusExceeded {
                requested: count,
                available: allowed.len() as usize,
            })
        },
        CpuAllocation::Range(start, end) => if start >= end {
            answer is Err && answer->Err_0 == (ShardingError::InvalidRange { start, end })
        } else if !allocator.pin_cores {
            answer is Ok && are_free(answer->Ok_0@, end - start)
        } else {
            match answer {
                Ok(shards) => {
                    &&& forall|cpu: usize| start <= cpu < end ==> #[trigger] allowed.contains(cpu)
                    &&& are_pinned(shards@, Seq::new((end - start) as nat, |i: int| (start + i) as usize))
                },
                Err(ShardingError::CpuNotAllowed { cpu }) => first_refused(allowed, start, end, cpu),
                Err(_) => false,
            }
        },
        CpuAllocation::NumaAware(numa) => match allocator.topology {
            None => answer is Err && answer->Err_0 == ShardingError::NoTopology,
            Some(topology) => if allocator.pin_cores || answer is Err {
                is_numa_answer(topology, numa, answer)
            } else {
                let nodes = numa_nodes(topology, numa);
                let cores = numa_cores(topology, numa);
                &&& all_known(topology, nodes)
                &&& all_suffice(topology, nodes, cores, numa.avoid_hyperthread)
                &&& are_free(answer->Ok_0@, numa_plan(topology, nodes, cores, numa.avoid_hyperthread).len() as int)
            },
        },
    }
}

impl ShardAllocator {
    /// One placement per shard. A range names exact cores and is never moved
    /// into the allowed set: each must be a member of it. A choice by memory
    /// node without binding keeps the number of shards alone.
    pub fn to_shard_assignments(&self, parallelism: Result<usize, String>, allowed: &[usize]) -> (answer: Result<
        Vec<ShardInfo>,
        ShardingError,
    >)
        requires
            self.wf(),
        ensures
            is_assignment(*self, parallelism, allowed@, answer),
    {
        match &self.allocation {
            CpuAllocation::All => {
                let available: usize = match parallelism {
                    Ok(available) => available,
                    Err(msg) => {
                        return Err(ShardingError::Other { msg });
                    },
                };
                if !self.pin_cores {
                    return Ok(unpinned(available));
                }
                let count: usize = if available < allowed.len() {
                    available
                } else {
                    allowed.len()
                };
                pinned_from_allowed(allowed, count)
            },
            CpuAllocation::Count(count) => {
                if !self.pin_cores {
                    return Ok(unpinned(*count));
                }
                pinned_from_allowed(allowed, *count)
            },
            CpuAllocation::Range(start, end) => {
                if *start >= *end {
                    return Err(ShardingError::InvalidRange { start: *start, end: *end });
                }
                if !self.pin_cores {
                    return Ok(unpinned(*end - *start));
                }
                pinned_range(allowed, *start, *end)
            },
            CpuAllocation::NumaAware(numa) => {
                let topology: &NumaTopology = match &self.topology {
                    Some(topology) => topology,
                    None => {
                        return Err(ShardingError::NoTopology);
                    },
                };
                match self.compute_numa_assignments(topology, numa) {
                    Ok(shards) => {
                        if !self.pin_cores {
                            return Ok(unpinned(shards.len()));
                        }
                        Ok(shards)
                    },
                    Err(error) => Err(error),
                }
            },
        }
    }
}

fn allows(allowed: &[usize], cpu: usize) -> (found: bool)
    ensures
        found == allowed@.contains(cpu),
{
    let mut i: usize = 0;
    while i < allowed.len()
        invariant
            i <= allowed@.len(),
            forall|j: int| #![trigger allowed@[j]] 0 <= j < i ==> allowed@[j] != cpu,
        decreases allowed@.len() - i,
    {
        if allowed[i] == cpu {
            proof {
                assert(allowed@[i as int] == cpu);
            }
            return true;
        }
        i += 1;
    }
    false
}

fn pinned_range(allowed: &[usize], start: usize, end: usize) -> (shards: Result<Vec<ShardInfo>, ShardingError>)
    requires
        start < end,
    ensures
        match shards {
            Ok(shards) => {
                &&& forall|cpu: usize| start <= cpu < end ==> #[trigger] allowed@.contains(cpu)
                &&& are_pinned(shards@, Seq::new((end - start) as nat, |i: int| (start + i) as usize))
            },
            Err(ShardingError::CpuNotAllowed { cpu }) => first_refused(allowed@, start, end, cpu),
            Err(_) => false,
        },
{
    let mut shards: Vec<ShardInfo> = Vec::new();
    let mut cpu: usize = start;
    while cpu < end
        invariant
            start <= cpu <= end,
            shards@.len() == cpu - start,
            forall|other: usize| start <= other < cpu ==> #[trigger] allowed@.contains(other),
            forall|j: int|
                #![trigger shards@[j]]
                0 <= j < shards@.len() ==> is_pinned(shards@[j], (start + j) as usize, None),
        decreases end - cpu,
    {
        if !allows(allowed, cpu) {
            return Err(ShardingError::CpuNotAllowed { cpu });
        }
        shards.push(pinned_to(cpu, None));
        cpu += 1;
    }
    Ok(shards)
}

/// A plan by memory node has the same number of shards on each node.
pub proof fn law_numa_plan_is_even(topology: NumaTopology, nodes: Seq<usize>, cores: int, avoid_hyperthread: bool)
    requires
        cores >= 0,
    ensures
        numa_plan(topology, nodes, cores, avoid_hyperthread).len() == nodes.len() * cores,
    decreases nodes.len(),
{
    if nodes.len() > 0 {
        law_numa_plan_is_even(topology, nodes.drop_last(), cores, avoid_hyperthread);
        let fewer = nodes.len() - 1;
        assert((fewer + 1) * cores == fewer * cores + cores) by (nonlinear_arith);
    } else {
        assert(0 * cores == 0);
    }
}

/// A shard placed on a node runs on a CPU of that node.
pub proof fn law_shard_runs_on_its_own_node(
    topology: NumaTopology,
    nodes: Seq<usize>,
    cores: int,
    avoid_hyperthread: bool,
    shard: int,
)
    requires
        cores >= 0,
        all_known(topology, nodes),
        all_suffice(topology, nodes, cores, avoid_hyperthread),
        0 <= shard < numa_plan(topology, nodes, cores, avoid_hyperthread).len(),
    ensures
        ({
            let (cpu, node) = numa_plan(topology, nodes, cores, avoid_hyperthread)[shard];
            &&& nodes.contains(node)
            &&& topology.nodes@[node as int]@.contains(cpu)
        }),
    decreases nodes.len(),
{
    if nodes.len() > 0 {
        let fewer = nodes.drop_last();
        assert forall|j: int| #![trigger fewer[j]] 0 <= j < fewer.len() implies fewer[j] < topology.nodes@.len() && usable_cpus(
            topology,
            fewer[j] as int,
            avoid_hyperthread,
        ).len() >= cores by {
            assert(fewer[j] == nodes[j]);
        }
        let earlier = numa_plan(topology, fewer, cores, avoid_hyperthread);
        if shard < earlier.len() {
            law_shard_runs_on_its_own_node(topology, fewer, cores, avoid_hyperthread, shard);
            let node = earlier[shard].1;
            let k = fewer.index_of(node);
            assert(nodes[k] == node);
        } else {
            let node = nodes.last();
            assert(nodes[nodes.len() - 1] == node);
            let cpus = topology.nodes@[node as int]@;
            let usable = usable_cpus(topology, node as int, avoid_hyperthread);
            let cpu = usable[shard - earlier.len()];
            if avoid_hyperthread {
                lemma_filter_is_subsequence(cpus, |cpu: usize| leads_a_core(topology.cores@, cpus, cpu));
                assert(cpus.contains(cpu));
            } else {
                assert(cpus.contains(cpu));
            }
        }
    }
}

/// Where no two cores share a CPU, no two of a node's usable CPUs share a core
/// once hyperthreads are avoided.
pub proof fn law_avoiding_hyperthreads_leaves_one_cpu_per_core(topology: NumaTopology, node: int, core: int, left: usize, right: usize)
    requires
        topology.wf(),
        0 <= node < topology.nodes@.len(),
        0 <= core < topology.cores@.len(),
        forall|a: int, b: int|
            #![trigger topology.cores@[a], topology.cores@[b]]
            0 <= a < b < topology.cores@.len() ==> !overlaps(topology.cores@[a]@, topology.cores@[b]@),
        usable_cpus(topology, node, true).contains(left),
        usable_cpus(topology, node, true).contains(right),
        topology.cores@[core]@.contains(left),
        topology.cores@[core]@.contains(right),
    ensures
        left == right,
{
    let cpus = topology.nodes@[node]@;
    lemma_usable_leads(topology, node, left);
    lemma_usable_leads(topology, node, right);
    lemma_leads_only_its_core(topology.cores@, cpus, core, left);
    lemma_leads_only_its_core(topology.cores@, cpus, core, right);
    lemma_one_leader(topology.cores@[core]@, cpus, left, right);
}

proof fn lemma_one_leader(core: Seq<usize>, cpus: Seq<usize>, left: usize, right: usize)
    requires
        cpus.contains(left),
        cpus.contains(right),
        leads(core, cpus, left),
        leads(core, cpus, right),
    ensures
        left == right,
{
    let p = cpus.index_of(left);
    let q = cpus.index_of(right);
    assert(cpus[p] == left && cpus[q] == right);
}

proof fn lemma_usable_leads(topology: NumaTopology, node: int, cpu: usize)
    requires
        usable_cpus(topology, node, true).contains(cpu),
    ensures
        topology.nodes@[node]@.contains(cpu),
        leads_a_core(topology.cores@, topology.nodes@[node]@, cpu),
{
    let cpus = topology.nodes@[node]@;
    let leading = |cpu: usize| leads_a_core(topology.cores@, cpus, cpu);
    lemma_filter_is_subsequence(cpus, leading);
    let usable = cpus.filter(leading);
    assert(usable == usable_cpus(topology, node, true));
    let i = usable.index_of(cpu);
    assert(usable[i] == cpu);
    assert(leading(usable[i]));
}

proof fn lemma_leads_only_its_core(cores: Seq<Vec<usize>>, cpus: Seq<usize>, core: int, cpu: usize)
    requires
        0 <= core < cores.len(),
        cores[core]@.contains(cpu),
        leads_a_core(cores, cpus, cpu),
        forall|a: int, b: int|
            #![trigger cores[a], cores[b]]
            0 <= a < b < cores.len() ==> !overlaps(cores[a]@, cores[b]@),
    ensures
        leads(cores[core]@, cpus, cpu),
{
    let k = choose|k: int| #![trigger cores[k]] 0 <= k < cores.len() && leads(cores[k]@, cpus, cpu);
    if k != core {
        let (a, b) = if k < core {
            (k, core)
        } else {
            (core, k)
        };
        let at = cores[a]@.index_of(cpu);
        assert(cores[b]@.contains(cores[a]@[at]));
        assert(overlaps(cores[a]@, cores[b]@));
    }
}

/// Shards bound one to a core never share one, where the allowed CPUs are a
/// set.
pub proof fn law_pinned_shards_never_share_a_core(shards: Seq<ShardInfo>, cpus: Seq<usize>, left: int, right: int)
    requires
        are_pinned(shards, cpus),
        cpus.no_duplicates(),
        0 <= left < right < shards.len(),
    ensures
        shards[left].cpu_set@.disjoint(shards[right].cpu_set@),
{
    assert(is_pinned(shards[left], cpus[left], None));
    assert(is_pinned(shards[right], cpus[right], None));
    assert(cpus[left] != cpus[right]);
}

/// The `core`-th shard of the `at`-th node stands at `at * cores + core` of the
/// plan.
proof fn lemma_plan_at(topology: NumaTopology, nodes: Seq<usize>, cores: int, avoid_hyperthread: bool, at: int, core: int)
    requires
        0 <= at < nodes.len(),
        0 <= core < cores,
    ensures
        0 <= at * cores + core < numa_plan(topology, nodes, cores, avoid_hyperthread).len(),
        numa_plan(topology, nodes, cores, avoid_hyperthread)[at * cores + core] == (
            usable_cpus(topology, nodes[at] as int, avoid_hyperthread)[core],
            nodes[at],
        ),
    decreases nodes.len(),
{
    let fewer = nodes.drop_last();
    law_numa_plan_is_even(topology, nodes, cores, avoid_hyperthread);
    law_numa_plan_is_even(topology, fewer, cores, avoid_hyperthread);
    let last = nodes.len() - 1;
    assert(0 <= at * cores) by (nonlinear_arith)
        requires
            0 <= at,
            0 < cores,
    ;
    if at < last {
        lemma_plan_at(topology, fewer, cores, avoid_hyperthread, at, core);
        assert(fewer[at] == nodes[at]);
    } else {
        assert((last + 1) * cores == last * cores + cores) by (nonlinear_arith);
    }
}

/// Filtering keeps CPUs in increasing order.
proof fn lemma_filter_keeps_order(cpus: Seq<usize>, keep: spec_fn(usize) -> bool)
    requires
        increasing(cpus),
    ensures
        increasing(cpus.filter(keep)),
    decreases cpus.len(),
{
    reveal(Seq::filter);
    if cpus.len() > 0 {
        let front = cpus.drop_last();
        assert forall|i: int, j: int| #![trigger front[i], front[j]] 0 <= i < j < front.len() implies front[i] < front[j] by {
            assert(cpus[i] < cpus[j]);
        }
        lemma_filter_keeps_order(front, keep);
        lemma_filter_is_subsequence(front, keep);
        let kept = front.filter(keep);
        let all = cpus.filter(keep);
        assert forall|i: int, j: int| #![trigger all[i], all[j]] 0 <= i < j < all.len() implies all[i] < all[j] by {
            assert(all[i] == kept[i]);
            if j < kept.len() {
                assert(all[j] == kept[j]);
            } else {
                let from = choose|from: int| #![trigger front[from]] 0 <= from < front.len() && front[from] == kept[i];
                assert(cpus[from] < cpus[cpus.len() - 1]);
            }
        }
    }
}

/// The CPU is on the core, and no lower one of `cpus` is.
pub open spec fn lowest_on(core: Seq<usize>, cpus: Seq<usize>, cpu: usize) -> bool {
    &&& core.contains(cpu)
    &&& forall|other: usize| other < cpu && #[trigger] cpus.contains(other) ==> !core.contains(other)
}

proof fn lemma_leads_is_lowest(core: Seq<usize>, cpus: Seq<usize>, cpu: usize)
    ensures
        leads(core, cpus, cpu) <==> lowest_on(core, cpus, cpu),
{
    if leads(core, cpus, cpu) {
        assert forall|other: usize| other < cpu && #[trigger] cpus.contains(other) implies !core.contains(other) by {
            let i = cpus.index_of(other);
            assert(cpus[i] == other);
        }
    }
    if lowest_on(core, cpus, cpu) {
        assert forall|i: int| #![trigger cpus[i]] 0 <= i < cpus.len() && core.contains(cpus[i]) implies cpu <= cpus[i] by {
            assert(cpus.contains(cpus[i]));
        }
    }
}

proof fn lemma_lowest_is_usable(topology: NumaTopology, node: int, core: int, cpu: usize)
    requires
        topology.nodes@[node]@.contains(cpu),
        0 <= core < topology.cores@.len(),
        leads(topology.cores@[core]@, topology.nodes@[node]@, cpu),
    ensures
        usable_cpus(topology, node, true).contains(cpu),
{
    let cpus = topology.nodes@[node]@;
    let keep = |cpu: usize| leads_a_core(topology.cores@, cpus, cpu);
    lemma_filter_is_subsequence(cpus, keep);
    let at = cpus.index_of(cpu);
    assert(cpus[at] == cpu);
    assert(keep(cpus[at]));
    let usable = cpus.filter(keep);
    let i = choose|i: int| #![trigger usable[i]] 0 <= i < usable.len() && usable[i] == cpus[at];
    assert(usable[i] == cpu);
}

/// A node's usable CPUs are all of it, or, where hyperthreads are avoided,
/// exactly those that are the lowest of the node on some core; either way in
/// increasing order.
pub proof fn law_usable_cpus_are_the_lowest_of_each_core(topology: NumaTopology, node: int, avoid_hyperthread: bool, cpu: usize)
    requires
        topology.wf(),
        0 <= node < topology.nodes@.len(),
    ensures
        increasing(usable_cpus(topology, node, avoid_hyperthread)),
        !avoid_hyperthread ==> usable_cpus(topology, node, avoid_hyperthread) == topology.nodes@[node]@,
        avoid_hyperthread ==> (usable_cpus(topology, node, avoid_hyperthread).contains(cpu) <==> {
            &&& topology.nodes@[node]@.contains(cpu)
            &&& exists|core: int|
                #![trigger topology.cores@[core]]
                0 <= core < topology.cores@.len() && lowest_on(topology.cores@[core]@, topology.nodes@[node]@, cpu)
        }),
{
    let cpus = topology.nodes@[node]@;
    if avoid_hyperthread {
        let keep = |cpu: usize| leads_a_core(topology.cores@, cpus, cpu);
        lemma_filter_keeps_order(cpus, keep);
        if usable_cpus(topology, node, true).contains(cpu) {
            lemma_usable_leads(topology, node, cpu);
            let core = choose|k: int|
                #![trigger topology.cores@[k]]
                0 <= k < topology.cores@.len() && leads(topology.cores@[k]@, cpus, cpu);
            lemma_leads_is_lowest(topology.cores@[core]@, cpus, cpu);
        }
        if cpus.contains(cpu) && exists|core: int|
            #![trigger topology.cores@[core]]
            0 <= core < topology.cores@.len() && lowest_on(topology.cores@[core]@, cpus, cpu) {
            let core = choose|core: int|
                #![trigger topology.cores@[core]]
                0 <= core < topology.cores@.len() && lowest_on(topology.cores@[core]@, cpus, cpu);
            lemma_leads_is_lowest(topology.cores@[core]@, cpus, cpu);
            lemma_lowest_is_usable(topology, node, core, cpu);
        }
    }
}

/// A choice by memory node takes from each named node, or from every node
/// where it names none, exactly its first usable CPUs: as many as it asks for,
/// one shard each, in order, next to that node's memory.
pub proof fn law_numa_takes_the_first_cpus_of_each_node(
    topology: NumaTopology,
    numa: NumaConfig,
    shards: Vec<ShardInfo>,
    at: int,
    core: int,
)
    requires
        topology.wf(),
        is_numa_answer(topology, numa, Ok(shards)),
    ensures
        ({
            let count = if numa.nodes@.len() == 0 {
                topology.nodes@.len()
            } else {
                numa.nodes@.len()
            };
            let node = if numa.nodes@.len() == 0 {
                at
            } else {
                numa.nodes@[at] as int
            };
            let cores = numa_cores(topology, numa);
            &&& numa.cores_per_node != 0 ==> cores == numa.cores_per_node
            &&& shards@.len() == count * cores
            &&& 0 <= at < count && 0 <= core < cores ==> {
                let shard = shards@[at * cores + core];
                let usable = usable_cpus(topology, node, numa.avoid_hyperthread);
                &&& 0 <= at * cores + core < shards@.len()
                &&& core < usable.len()
                &&& node < topology.nodes@.len()
                &&& shard.numa_node == Some(node as usize)
                &&& forall|cpu: usize| #[trigger] shard.cpu_set@.contains(cpu) <==> cpu == usable[core]
            }
        }),
{
    let nodes = numa_nodes(topology, numa);
    let cores = numa_cores(topology, numa);
    law_numa_plan_is_even(topology, nodes, cores, numa.avoid_hyperthread);
    if 0 <= at < nodes.len() && 0 <= core < cores {
        lemma_plan_at(topology, nodes, cores, numa.avoid_hyperthread, at, core);
        let _ = nodes[at];
        let _ = shards@[at * cores + core];
        if numa.nodes@.len() == 0 {
            assert(topology.nodes.len() == topology.nodes@.len());
        }
    }
}

/// No two entries of a plan name the same CPU.
proof fn lemma_plan_names_each_cpu_once(
    topology: NumaTopology,
    nodes: Seq<usize>,
    cores: int,
    avoid_hyperthread: bool,
    left: int,
    right: int,
)
    requires
        topology.wf(),
        cores >= 0,
        all_known(topology, nodes),
        all_suffice(topology, nodes, cores, avoid_hyperthread),
        nodes.no_duplicates(),
        share_no_cpu(topology, nodes),
        0 <= left < right < numa_plan(topology, nodes, cores, avoid_hyperthread).len(),
    ensures
        numa_plan(topology, nodes, cores, avoid_hyperthread)[left].0 != numa_plan(topology, nodes, cores, avoid_hyperthread)[right].0,
    decreases nodes.len(),
{
    let fewer = nodes.drop_last();
    let earlier = numa_plan(topology, fewer, cores, avoid_hyperthread);
    let last = nodes.last();
    let usable = usable_cpus(topology, last as int, avoid_hyperthread);
    assert forall|j: int| #![trigger fewer[j]] 0 <= j < fewer.len() implies fewer[j] < topology.nodes@.len() && usable_cpus(
        topology,
        fewer[j] as int,
        avoid_hyperthread,
    ).len() >= cores by {
        assert(fewer[j] == nodes[j]);
    }
    assert(nodes[nodes.len() - 1] == last);
    law_usable_cpus_are_the_lowest_of_each_core(topology, last as int, avoid_hyperthread, 0);
    if right < earlier.len() {
        assert forall|i: int, j: int| #![trigger fewer[i], fewer[j]] 0 <= i < j < fewer.len() implies !overlaps(
            topology.nodes@[fewer[i] as int]@,
            topology.nodes@[fewer[j] as int]@,
        ) by {
            assert(fewer[i] == nodes[i] && fewer[j] == nodes[j]);
        }
        lemma_plan_names_each_cpu_once(topology, fewer, cores, avoid_hyperthread, left, right);
    } else if left >= earlier.len() {
        assert(usable[left - earlier.len()] < usable[right - earlier.len()]);
    } else {
        let whole = numa_plan(topology, nodes, cores, avoid_hyperthread);
        law_shard_runs_on_its_own_node(topology, nodes, cores, avoid_hyperthread, right);
        law_shard_runs_on_its_own_node(topology, fewer, cores, avoid_hyperthread, left);
        let at = fewer.index_of(earlier[left].1);
        assert(nodes[at] == earlier[left].1);
        assert(!overlaps(topology.nodes@[nodes[at] as int]@, topology.nodes@[nodes[nodes.len() - 1] as int]@));
        let cpus = topology.nodes@[nodes[at] as int]@;
        let i = cpus.index_of(whole[left].0);
        assert(cpus[i] == whole[left].0);
        assert(whole[right].1 == last);
    }
}

/// No two of the nodes have a CPU in common.
pub open spec fn share_no_cpu(topology: NumaTopology, nodes: Seq<usize>) -> bool {
    forall|i: int, j: int|
        #![trigger nodes[i], nodes[j]]
        0 <= i < j < nodes.len() ==> !overlaps(topology.nodes@[nodes[i] as int]@, topology.nodes@[nodes[j] as int]@)
}

/// Where the nodes of a choice are distinct and share no CPU, no two shards of
/// the placement are bound to the same CPU.
pub proof fn law_numa_shards_never_share_a_cpu(
    topology: NumaTopology,
    numa: NumaConfig,
    shards: Vec<ShardInfo>,
    left: int,
    right: int,
)
    requires
        topology.wf(),
        is_numa_answer(topology, numa, Ok(shards)),
        numa_nodes(topology, numa).no_duplicates(),
        share_no_cpu(topology, numa_nodes(topology, numa)),
        0 <= left < right < shards@.len(),
    ensures
        shards@[left].cpu_set@.disjoint(shards@[right].cpu_set@),
        shards@[left].cpu_set@.len() == 1,
        shards@[right].cpu_set@.len() == 1,
{
    let nodes = numa_nodes(topology, numa);
    let cores = numa_cores(topology, numa);
    lemma_plan_names_each_cpu_once(topology, nodes, cores, numa.avoid_hyperthread, left, right);
    let _ = (shards@[left], shards@[right]);
}

/// A choice that names no number takes as many CPUs from each node as the
/// first one has, or cores where hyperthreads are avoided: a core counts
/// exactly where one of its CPUs is on the node.
pub proof fn law_unnamed_number_is_that_of_the_first_node(topology: NumaTopology, numa: NumaConfig)
    requires
        topology.wf(),
        numa.cores_per_node == 0,
    ensures
        ({
            let first = if numa.nodes@.len() == 0 {
                0
            } else {
                numa.nodes@[0]
            };
            let held = Set::new(
                |core: int|
                    0 <= core < topology.cores@.len() && exists|cpu: usize| #[trigger]
                        topology.cores@[core]@.contains(cpu) && topology.nodes@[first as int]@.contains(cpu),
            );
            first < topology.nodes@.len() ==> {
                &&& !numa.avoid_hyperthread ==> numa_cores(topology, numa) == topology.nodes@[first as int]@.len()
                &&& numa.avoid_hyperthread ==> held.finite() && numa_cores(topology, numa) == held.len()
            }
        }),
{
    let first = numa_nodes(topology, numa)[0];
    if first < topology.nodes@.len() && numa.avoid_hyperthread {
        let cpus = topology.nodes@[first as int]@;
        lemma_cores_of_counts(topology.cores@, cpus);
        assert(on_some_core(topology.cores@, cpus) =~= Set::new(
            |core: int|
                0 <= core < topology.cores@.len() && exists|cpu: usize| #[trigger]
                    topology.cores@[core]@.contains(cpu) && cpus.contains(cpu),
        ));
    }
}

/// The cores that have a CPU among `cpus`, by index.
spec fn on_some_core(cores: Seq<Vec<usize>>, cpus: Seq<usize>) -> Set<int> {
    Set::new(
        |core: int|
            0 <= core < cores.len() && exists|cpu: usize| #[trigger] cores[core]@.contains(cpu) && cpus.contains(cpu),
    )
}

proof fn lemma_cores_of_counts(cores: Seq<Vec<usize>>, cpus: Seq<usize>)
    ensures
        on_some_core(cores, cpus).finite(),
        cores_of(cores, cpus) == on_some_core(cores, cpus).len(),
    decreases cores.len(),
{
    let held = on_some_core(cores, cpus);
    if cores.len() == 0 {
        assert(held =~= Set::empty());
    } else {
        let fewer = cores.drop_last();
        let last = cores.len() - 1;
        let before = on_some_core(fewer, cpus);
        lemma_cores_of_counts(fewer, cpus);
        if overlaps(cpus, cores.last()@) {
            let i = choose|i: int| #![trigger cpus[i]] 0 <= i < cpus.len() && cores.last()@.contains(cpus[i]);
            assert(cores[last]@.contains(cpus[i]) && cpus.contains(cpus[i]));
            assert forall|core: int| #[trigger] held.contains(core) <==> before.insert(last).contains(core) by {
                if core != last && 0 <= core < fewer.len() {
                    assert(fewer[core] == cores[core]);
                }
            }
            assert(held =~= before.insert(last));
            assert(!before.contains(last));
        } else {
            assert forall|core: int| #[trigger] held.contains(core) <==> before.contains(core) by {
                if core == last && held.contains(core) {
                    let cpu = choose|cpu: usize| #[trigger] cores[core]@.contains(cpu) && cpus.contains(cpu);
                    let i = cpus.index_of(cpu);
                    assert(cores.last()@.contains(cpus[i]));
                }
                if 0 <= core < fewer.len() {
                    assert(fewer[core] == cores[core]);
                }
            }
            assert(held =~= before);
        }
    }
}

/// A choice by memory node is refused for a node the machine does not have
/// and for a node with too few CPUs, and for nothing else: the one named in
/// the refusal is such a node, and no node before it is.
pub proof fn law_numa_refusal_names_the_node(
    topology: NumaTopology,
    numa: NumaConfig,
    answer: Result<Vec<ShardInfo>, ShardingError>,
)
    requires
        topology.wf(),
        is_numa_answer(topology, numa, answer),
    ensures
        ({
            let nodes = numa_nodes(topology, numa);
            let cores = numa_cores(topology, numa);
            let missing = |at: int| nodes[at] >= topology.nodes@.len();
            let short = |at: int| usable_cpus(topology, nodes[at] as int, numa.avoid_hyperthread).len() < cores;
            &&& answer is Ok <==> forall|at: int|
                #![trigger nodes[at]]
                0 <= at < nodes.len() ==> !missing(at) && !short(at)
            &&& answer is Err && answer->Err_0 is InvalidNode ==> {
                &&& answer->Err_0->InvalidNode_requested >= topology.nodes@.len()
                &&& nodes.contains(answer->Err_0->InvalidNode_requested)
                &&& answer->Err_0->InvalidNode_available == topology.nodes@.len()
            }
            &&& answer is Err && !(answer->Err_0 is InvalidNode) ==> {
                let node = answer->Err_0->node;
                &&& answer->Err_0 is InsufficientCores
                &&& nodes.contains(node) && node < topology.nodes@.len()
                &&& answer->Err_0->InsufficientCores_requested == cores
                &&& answer->Err_0->InsufficientCores_available == usable_cpus(topology, node as int, numa.avoid_hyperthread).len()
                &&& answer->Err_0->InsufficientCores_available < cores
                &&& forall|at: int| #![trigger nodes[at]] 0 <= at < nodes.len() ==> !missing(at)
            }
        }),
{
    let nodes = numa_nodes(topology, numa);
    let cores = numa_cores(topology, numa);
    match answer {
        Err(ShardingError::InvalidNode { requested, available }) => {
            let at = choose|at: int| first_unknown(topology, nodes, at) && requested == #[trigger] nodes[at];
            assert(nodes[at] == requested);
        },
        Err(ShardingError::InsufficientCores { requested, available, node }) => {
            let at = choose|at: int|
                first_short(topology, nodes, cores, numa.avoid_hyperthread, at) && node == #[trigger] nodes[at] && available
                    == usable_cpus(topology, node as int, numa.avoid_hyperthread).len();
            assert(nodes[at] == node);
        },
        _ => {},
    }
}

/// Without binding, a choice yields as many shards as with it, each free to
/// run anywhere, and is refused alike.
pub proof fn law_binding_changes_no_numa_count(
    bound: ShardAllocator,
    free: ShardAllocator,
    parallelism: Result<usize, String>,
    allowed: Seq<usize>,
    placed: Result<Vec<ShardInfo>, ShardingError>,
    unplaced: Result<Vec<ShardInfo>, ShardingError>,
    shard: int,
)
    requires
        bound.allocation is NumaAware,
        bound.pin_cores,
        bound.wf(),
        free.allocation == bound.allocation,
        free.topology == bound.topology,
        !free.pin_cores,
        is_assignment(bound, parallelism, allowed, placed),
        is_assignment(free, parallelism, allowed, unplaced),
    ensures
        placed is Ok <==> unplaced is Ok,
        placed is Ok ==> bound.topology is Some && placed->Ok_0@.len() == unplaced->Ok_0@.len(),
        placed is Ok ==> is_numa_answer(bound.topology->0, bound.allocation->NumaAware_0, placed),
        bound.topology is None ==> placed is Err && placed->Err_0 is NoTopology,
        unplaced is Ok && 0 <= shard < unplaced->Ok_0@.len() ==> unplaced->Ok_0@[shard].cpu_set@.len() == 0
            && unplaced->Ok_0@[shard].numa_node is None,
{
    if bound.topology is Some {
        let topology = bound.topology->0;
        let numa = bound.allocation->NumaAware_0;
        if placed is Err {
            law_numa_refusal_names_the_node(topology, numa, placed);
        }
        if unplaced is Err {
            law_numa_refusal_names_the_node(topology, numa, unplaced);
        }
        if unplaced is Ok && 0 <= shard < unplaced->Ok_0@.len() {
            let _ = unplaced->Ok_0@[shard];
        }
    }
}

/// A number of shards is met exactly: free ones, or the first allowed CPUs one
/// each; it is refused only where it is bound and more than are allowed.
pub proof fn law_count_is_met_or_refused(
    allocator: ShardAllocator,
    parallelism: Result<usize, String>,
    allowed: Seq<usize>,
    answer: Result<Vec<ShardInfo>, ShardingError>,
    shard: int,
)
    requires
        allocator.allocation is Count,
        allowed.len() <= usize::MAX,
        is_assignment(allocator, parallelism, allowed, answer),
    ensures
        ({
            let count = allocator.allocation->Count_0;
            &&& answer is Ok <==> !allocator.pin_cores || count <= allowed.len()
            &&& answer is Ok ==> answer->Ok_0@.len() == count
            &&& answer is Err ==> answer->Err_0 is AllowedCpusExceeded && answer->Err_0->AllowedCpusExceeded_requested == count
                && answer->Err_0->AllowedCpusExceeded_available == allowed.len()
            &&& answer is Ok && 0 <= shard < count ==> {
                let placed = answer->Ok_0@[shard];
                &&& placed.numa_node is None
                &&& forall|cpu: usize| #[trigger] placed.cpu_set@.contains(cpu) <==> allocator.pin_cores && cpu == allowed[shard]
            }
        }),
{
    if answer is Ok && 0 <= shard < answer->Ok_0@.len() {
        let _ = answer->Ok_0@[shard];
    }
}

/// All means one shard for each thread the process can run at once, and no
/// more than there are allowed CPUs to bind them to.
pub proof fn law_all_uses_what_the_process_may_run(
    allocator: ShardAllocator,
    parallelism: Result<usize, String>,
    allowed: Seq<usize>,
    answer: Result<Vec<ShardInfo>, ShardingError>,
    shard: int,
)
    requires
        allocator.allocation is All,
        is_assignment(allocator, parallelism, allowed, answer),
    ensures
        answer is Ok <==> parallelism is Ok,
        parallelism is Err ==> answer->Err_0 is Other && answer->Err_0->Other_msg == parallelism->Err_0,
        answer is Ok ==> {
            let count = parallelism->Ok_0;
            let placed = answer->Ok_0@;
            &&& !allocator.pin_cores ==> placed.len() == count
            &&& allocator.pin_cores ==> placed.len() <= count && placed.len() <= allowed.len() && (placed.len() == count
                || placed.len() == allowed.len())
            &&& 0 <= shard < placed.len() ==> {
                &&& placed[shard].numa_node is None
                &&& forall|cpu: usize| #[trigger]
                    placed[shard].cpu_set@.contains(cpu) <==> allocator.pin_cores && cpu == allowed[shard]
            }
        },
{
    if answer is Ok && 0 <= shard < answer->Ok_0@.len() {
        let _ = answer->Ok_0@[shard];
    }
}

/// A range yields one shard for each CPU it names, bound to exactly that CPU
/// where shards are bound. It is refused where it is empty, and where a CPU of
/// it is not allowed to a shard that would be bound: the lowest such is named.
pub proof fn law_range_is_taken_as_named(
    allocator: ShardAllocator,
    parallelism: Result<usize, String>,
    allowed: Seq<usize>,
    answer: Result<Vec<ShardInfo>, ShardingError>,
    shard: int,
    other: usize,
)
    requires
        allocator.allocation is Range,
        is_assignment(allocator, parallelism, allowed, answer),
    ensures
        ({
            let start = allocator.allocation->Range_0;
            let end = allocator.allocation->Range_1;
            &&& start >= end <==> answer is Err && answer->Err_0 is InvalidRange
            &&& start >= end ==> answer->Err_0->start == start && answer->Err_0->end == end
            &&& answer is Ok ==> {
                &&& answer->Ok_0@.len() == end - start
                &&& allocator.pin_cores && start <= other < end ==> allowed.contains(other)
                &&& 0 <= shard < end - start ==> {
                    let placed = answer->Ok_0@[shard];
                    &&& placed.numa_node is None
                    &&& forall|cpu: usize| #[trigger]
                        placed.cpu_set@.contains(cpu) <==> allocator.pin_cores && cpu == start + shard
                }
            }
            &&& start < end && answer is Err ==> {
                let cpu = answer->Err_0->cpu;
                &&& allocator.pin_cores
                &&& answer->Err_0 is CpuNotAllowed
                &&& start <= cpu < end
                &&& !allowed.contains(cpu)
                &&& start <= other < cpu ==> allowed.contains(other)
            }
        }),
{
    if answer is Ok && 0 <= shard < answer->Ok_0@.len() {
        let _ = answer->Ok_0@[shard];
    }
}

/// The layout is read as the machine reports it: every node with its CPUs, and
/// every core that is reported with some. It is refused where there is no node
/// or a node is reported without CPUs, and only there.
pub proof fn law_layout_is_read_as_reported(
    machine: MachineLayout,
    answer: Result<NumaTopology, ShardingError>,
    at: int,
)
    requires
        is_detected(machine, answer),
    ensures
        answer is Ok <==> machine.nodes@.len() > 0 && forall|i: int|
            #![trigger machine.nodes@[i]]
            0 <= i < machine.nodes@.len() ==> machine.nodes@[i] is Some,
        answer is Err && answer->Err_0 is NoNumaNodes <==> machine.nodes@.len() == 0,
        answer is Ok ==> {
            &&& answer->Ok_0.nodes@.len() == machine.nodes@.len()
            &&& 0 <= at < machine.nodes@.len() ==> machine.nodes@[at] == Some(answer->Ok_0.nodes@[at])
        },
        answer is Ok && 0 <= at < machine.cores@.len() && machine.cores@[at] is Some ==> answer->Ok_0.cores@.contains(
            machine.cores@[at]->0,
        ),
        answer is Ok && 0 <= at < answer->Ok_0.cores@.len() ==> machine.cores@.contains(Some(answer->Ok_0.cores@[at])),
{
    lemma_reported(machine.cores@);
    if answer is Ok {
        let topology = answer->Ok_0;
        assert forall|i: int| #![trigger machine.nodes@[i]] 0 <= i < machine.nodes@.len() implies machine.nodes@[i] is Some by {
            let _ = topology.nodes@[i];
        }
        if 0 <= at < machine.nodes@.len() {
            let _ = topology.nodes@[at];
        }
    }
}

proof fn lemma_reported(lists: Seq<Option<Vec<usize>>>)
    ensures
        forall|i: int| #![trigger lists[i]] 0 <= i < lists.len() && lists[i] is Some ==> reported(lists).contains(lists[i]->0),
        forall|i: int| #![trigger reported(lists)[i]] 0 <= i < reported(lists).len() ==> lists.contains(Some(reported(lists)[i])),
    decreases lists.len(),
{
    if lists.len() > 0 {
        let front = lists.drop_last();
        let kept = reported(front);
        let all = reported(lists);
        lemma_reported(front);
        assert forall|i: int| #![trigger lists[i]] 0 <= i < lists.len() && lists[i] is Some implies all.contains(lists[i]->0) by {
            if i < front.len() {
                assert(front[i] == lists[i]);
                let j = kept.index_of(lists[i]->0);
                assert(all[j] == kept[j]);
            } else {
                assert(all[all.len() - 1] == lists[i]->0);
            }
        }
        assert forall|i: int| #![trigger all[i]] 0 <= i < all.len() implies lists.contains(Some(all[i])) by {
            if i < kept.len() {
                assert(all[i] == kept[i]);
                let j = front.index_of(Some(kept[i]));
                assert(lists[j] == Some(all[i]));
            } else {
                assert(lists[lists.len() - 1] == Some(all[i]));
            }
        }
    }
}

/// An allocator carries out the very choice it was built for. A choice by
/// memory node needs the machine's layout and fails with what the machine
/// fails with; any other choice never fails and never looks at it.
pub proof fn law_allocator_keeps_the_choice(
    allocation: CpuAllocation,
    pin_cores: bool,
    machine: Option<Result<MachineLayout, String>>,
    answer: Result<ShardAllocator, ShardingError>,
)
    requires
        is_allocator(allocation, pin_cores, machine, answer),
    ensures
        !(allocation is NumaAware) ==> answer is Ok && answer->Ok_0.topology is None,
        answer is Ok ==> {
            let kept = answer->Ok_0.allocation;
            &&& answer->Ok_0.pin_cores == pin_cores
            &&& allocation is All ==> kept is All
            &&& allocation is Count ==> kept is Count && kept->Count_0 == allocation->Count_0
            &&& allocation is Range ==> kept is Range && kept->Range_0 == allocation->Range_0 && kept->Range_1
                == allocation->Range_1
            &&& allocation is NumaAware ==> {
                &&& kept is NumaAware
                &&& kept->NumaAware_0.nodes@ == allocation->NumaAware_0.nodes@
                &&& kept->NumaAware_0.cores_per_node == allocation->NumaAware_0.cores_per_node
                &&& kept->NumaAware_0.avoid_hyperthread == allocation->NumaAware_0.avoid_hyperthread
            }
        },
        allocation is NumaAware && machine is None ==> answer is Ok && answer->Ok_0.topology is None,
        allocation is NumaAware && machine is Some && machine->0 is Err ==> answer is Err && answer->Err_0 is TopologyDetection
            && answer->Err_0->TopologyDetection_msg == machine->0->Err_0,
        allocation is NumaAware && machine is Some && machine->0 is Ok && answer is Ok ==> {
            &&& answer->Ok_0.topology is Some
            &&& answer->Ok_0.topology->0.nodes@.len() == machine->0->Ok_0.nodes@.len()
        },
{
}

} // verus!
