use std::collections::HashSet;

use shard::allocator::{
    pinned_from_allowed, unpinned, CpuAllocation, MachineLayout, NumaConfig, NumaTopology, ShardAllocator, ShardInfo, ShardingError,
};

fn answer(allocation: CpuAllocation, pin_cores: bool, allowed: &[usize]) -> Result<Vec<ShardInfo>, ShardingError> {
    match ShardAllocator::new(&allocation, pin_cores, None) {
        Ok(allocator) => allocator.to_shard_assignments(Ok(8), allowed),
        Err(error) => panic!("allocator ok, got {error:?}"),
    }
}

/// Two nodes of four CPUs; each core has two neighbouring CPUs.
fn layout() -> MachineLayout {
    MachineLayout {
        nodes: vec![Some(vec![0, 1, 2, 3]), Some(vec![4, 5, 6, 7])],
        cores: vec![Some(vec![0, 1]), Some(vec![2, 3]), Some(vec![4, 5]), Some(vec![6, 7]), None],
    }
}

fn numa(nodes: Vec<usize>, cores_per_node: usize, avoid_hyperthread: bool) -> CpuAllocation {
    CpuAllocation::NumaAware(NumaConfig { nodes, cores_per_node, avoid_hyperthread })
}

fn numa_answer(allocation: CpuAllocation, pin_cores: bool) -> Result<Vec<ShardInfo>, ShardingError> {
    match ShardAllocator::new(&allocation, pin_cores, Some(Ok(layout()))) {
        Ok(allocator) => allocator.to_shard_assignments(Ok(8), &[]),
        Err(error) => panic!("allocator ok, got {error:?}"),
    }
}

#[test]
fn pinned_from_allowed_draws_cores_from_the_allowed_set() {
    let allowed = vec![2, 3, 6, 7];
    let shards = pinned_from_allowed(&allowed, 2).unwrap();
    assert_eq!(shards.len(), 2);
    assert_eq!(shards[0].cpu_set, HashSet::from([2]));
    assert_eq!(shards[1].cpu_set, HashSet::from([3]));
    assert!(shards.iter().all(|shard| shard.numa_node.is_none()));
}

#[test]
fn pinned_from_allowed_rejects_more_shards_than_allowed_cores() {
    let allowed = vec![0, 1];
    let err = pinned_from_allowed(&allowed, 3).unwrap_err();
    assert!(matches!(
        err,
        ShardingError::AllowedCpusExceeded {
            requested: 3,
            available: 2,
        }
    ));
}

#[test]
fn unpinned_shards_have_empty_cpu_sets() {
    let shards = unpinned(4);
    assert_eq!(shards.len(), 4);
    assert!(shards.iter().all(|shard| shard.cpu_set.is_empty()));
    assert!(shards.iter().all(|shard| shard.numa_node.is_none()));
}

#[test]
fn count_without_pinning_yields_unpinned_shards() {
    let shards = answer(CpuAllocation::Count(1), false, &[0, 1]).unwrap();
    assert_eq!(shards.len(), 1);
    assert!(shards[0].cpu_set.is_empty());
}

#[test]
fn count_with_pinning_stays_within_the_allowed_set() {
    let allowed = vec![3, 5];
    let shards = answer(CpuAllocation::Count(1), true, &allowed).unwrap();
    assert_eq!(shards.len(), 1);
    assert!(shards[0].cpu_set.iter().all(|cpu| allowed.contains(cpu)));
    assert_eq!(shards[0].cpu_set.len(), 1);
}

#[test]
fn range_without_pinning_keeps_shard_count() {
    let shards = answer(CpuAllocation::Range(0, 1), false, &[]).unwrap();
    assert_eq!(shards.len(), 1);
    assert!(shards[0].cpu_set.is_empty());
}

#[test]
fn inverted_range_is_rejected_regardless_of_pinning() {
    for pin_cores in [false, true] {
        let err = answer(CpuAllocation::Range(2, 1), pin_cores, &[0, 1, 2]).unwrap_err();
        assert!(matches!(
            err,
            ShardingError::InvalidRange { start: 2, end: 1 }
        ));
    }
}

#[test]
fn empty_range_is_rejected() {
    assert!(matches!(
        answer(CpuAllocation::Range(2, 2), true, &[2]).unwrap_err(),
        ShardingError::InvalidRange { start: 2, end: 2 }
    ));
}

#[test]
fn range_names_exact_cores() {
    let shards = answer(CpuAllocation::Range(2, 5), true, &[4, 3, 2, 9]).unwrap();
    assert_eq!(shards.len(), 3);
    assert_eq!(shards[0].cpu_set, HashSet::from([2]));
    assert_eq!(shards[2].cpu_set, HashSet::from([4]));
}

#[test]
fn range_outside_the_allowed_set_names_the_first_refused_core() {
    assert!(matches!(
        answer(CpuAllocation::Range(0, 4), true, &[0, 3]).unwrap_err(),
        ShardingError::CpuNotAllowed { cpu: 1 }
    ));
}

#[test]
fn all_takes_the_smaller_of_parallelism_and_allowed_cores() {
    let allocator = ShardAllocator::new(&CpuAllocation::All, true, None).unwrap();
    let few = allocator.to_shard_assignments(Ok(2), &[5, 6, 7]).unwrap();
    assert_eq!(few.len(), 2);
    assert_eq!(few[1].cpu_set, HashSet::from([6]));
    let many = allocator.to_shard_assignments(Ok(9), &[5, 6, 7]).unwrap();
    assert_eq!(many.len(), 3);
}

#[test]
fn all_without_pinning_follows_the_parallelism() {
    let allocator = ShardAllocator::new(&CpuAllocation::All, false, None).unwrap();
    let shards = allocator.to_shard_assignments(Ok(9), &[5]).unwrap();
    assert_eq!(shards.len(), 9);
    assert!(shards.iter().all(|shard| shard.cpu_set.is_empty()));
}

#[test]
fn unknown_parallelism_is_reported_even_unpinned() {
    for pin_cores in [false, true] {
        let allocator = ShardAllocator::new(&CpuAllocation::All, pin_cores, None).unwrap();
        match allocator.to_shard_assignments(Err("no answer".to_string()), &[0]) {
            Err(ShardingError::Other { msg }) => assert_eq!(msg, "no answer"),
            other => panic!("expected Other, got {other:?}"),
        }
    }
}

#[test]
fn numa_uses_every_node_and_all_cores_of_the_first_by_default() {
    let shards = numa_answer(numa(vec![], 0, false), true).unwrap();
    assert_eq!(shards.len(), 8);
    assert_eq!(shards[0].cpu_set, HashSet::from([0]));
    assert_eq!(shards[0].numa_node, Some(0));
    assert_eq!(shards[7].cpu_set, HashSet::from([7]));
    assert_eq!(shards[7].numa_node, Some(1));
}

#[test]
fn numa_avoiding_hyperthreads_takes_one_cpu_per_core() {
    let shards = numa_answer(numa(vec![1], 0, true), true).unwrap();
    assert_eq!(shards.len(), 2);
    assert_eq!(shards[0].cpu_set, HashSet::from([4]));
    assert_eq!(shards[1].cpu_set, HashSet::from([6]));
    assert!(shards.iter().all(|shard| shard.numa_node == Some(1)));
}

#[test]
fn numa_with_too_few_cores_names_the_node() {
    assert!(matches!(
        numa_answer(numa(vec![1, 0], 3, true), true).unwrap_err(),
        ShardingError::InsufficientCores { requested: 3, available: 2, node: 1 }
    ));
}

#[test]
fn numa_unknown_node_outranks_a_short_one() {
    assert!(matches!(
        numa_answer(numa(vec![0, 7], 99, false), true).unwrap_err(),
        ShardingError::InvalidNode { requested: 7, available: 2 }
    ));
}

#[test]
fn numa_without_pinning_keeps_the_count_alone() {
    let shards = numa_answer(numa(vec![0, 1], 2, false), false).unwrap();
    assert_eq!(shards.len(), 4);
    assert!(shards.iter().all(|shard| shard.cpu_set.is_empty() && shard.numa_node.is_none()));
}

#[test]
fn numa_without_a_layout_has_no_topology() {
    let allocator = ShardAllocator::new(&numa(vec![], 0, false), true, None).unwrap();
    assert!(matches!(
        allocator.to_shard_assignments(Ok(1), &[0]).unwrap_err(),
        ShardingError::NoTopology
    ));
}

#[test]
fn layout_is_not_looked_at_by_simpler_choices() {
    let empty = MachineLayout { nodes: vec![], cores: vec![] };
    let allocator = ShardAllocator::new(&CpuAllocation::Count(2), false, Some(Ok(empty))).unwrap();
    assert!(allocator.topology.is_none());
}

#[test]
fn layout_that_cannot_be_read_is_reported() {
    match ShardAllocator::new(&numa(vec![], 0, false), true, Some(Err("broken".to_string()))).err() {
        Some(ShardingError::TopologyDetection { msg }) => assert_eq!(msg, "broken"),
        other => panic!("expected TopologyDetection, got {other:?}"),
    }
}

#[test]
fn detect_rejects_a_machine_without_nodes() {
    let machine = MachineLayout { nodes: vec![], cores: vec![Some(vec![0])] };
    assert!(matches!(NumaTopology::detect(machine).err(), Some(ShardingError::NoNumaNodes)));
}

#[test]
fn detect_rejects_a_node_without_cpus() {
    let machine = MachineLayout { nodes: vec![Some(vec![0]), None], cores: vec![] };
    match NumaTopology::detect(machine).err() {
        Some(ShardingError::TopologyDetection { msg }) => assert_eq!(msg, "NUMA node has no CPU set"),
        other => panic!("expected TopologyDetection, got {other:?}"),
    }
}

#[test]
fn cores_are_counted_per_node() {
    let topology = NumaTopology::detect(layout()).unwrap();
    assert_eq!(topology.physical_cores_for_node(0), 2);
    assert_eq!(topology.logical_cores_for_node(0), 4);
    assert_eq!(topology.physical_cores_for_node(2), 0);
    assert_eq!(topology.logical_cores_for_node(2), 0);
}

#[test]
fn core_that_spans_nodes_counts_for_both() {
    let machine = MachineLayout {
        nodes: vec![Some(vec![0, 1]), Some(vec![2, 3])],
        cores: vec![Some(vec![1, 2])],
    };
    let topology = NumaTopology::detect(machine).unwrap();
    assert_eq!(topology.physical_cores_for_node(0), 1);
    assert_eq!(topology.physical_cores_for_node(1), 1);
}

#[test]
fn pinned_shards_never_share_a_core() {
    let shards = pinned_from_allowed(&[4, 9, 1], 3).unwrap();
    for left in 0..3 {
        for right in left + 1..3 {
            assert!(shards[left].cpu_set.is_disjoint(&shards[right].cpu_set));
        }
    }
}
