//! Splitting a model over machines, and keeping the machines together.
use llm_engine::cluster::analyzer::{assign_layers, order_nodes, partition_model, ClusterPartition, NodeCapability};
use llm_engine::cluster::collective::{read_chunk, write_chunk, CollectiveComm};
use llm_engine::cluster::moe::{ExpertRouter, RouteError};
use llm_engine::cluster::pipeline::{check_length, ActivationMessage, ShapeError, MAX_MESSAGE_LEN_BYTES};
use llm_engine::cluster::protocol::{
    after_prefix, frame_message, is_welcome, message_len, ClusterMessage, Reaction, Received, WorkerConnection,
    MAX_MESSAGE_BYTES,
};
use llm_engine::cluster::recovery::ClusterHealthMonitor;
use llm_engine::cluster::tensor_parallel::{
    shard_bounds, shard_col_parallel, shard_row_parallel, ShardError,
};

fn names(list: &[&str]) -> Vec<String> {
    list.iter().map(|s| s.to_string()).collect()
}

/// Partitions `n_layers` over nodes with the given speeds, as a coordinator does.
fn partition(n_layers: usize, nodes: &[(&str, f64)]) -> Vec<ClusterPartition> {
    let ids: Vec<String> = nodes.iter().map(|n| n.0.to_string()).collect();
    let order = order_nodes(&ids);
    let sorted: Vec<String> = order.iter().map(|&i| ids[i].clone()).collect();
    let speeds: Vec<f64> = order.iter().map(|&i| nodes[i].1).collect();
    let total: f64 = speeds.iter().sum();
    let shares: Vec<usize> =
        speeds.iter().map(|s| ((s / total) * n_layers as f64).floor() as usize).collect();
    let bits: Vec<u64> = speeds.iter().map(|s| s.to_bits()).collect();
    partition_model(n_layers, &sorted, &bits, &shares)
}

#[test]
fn remainder_goes_to_highest_gflops_node_not_alphabetically_last() {
    let partitions = partition(10, &[("a-node", 100.0), ("m-node", 10.0), ("z-node", 10.0)]);

    let total: usize = partitions.iter().map(|p| p.end_layer - p.start_layer).sum();
    assert_eq!(total, 10);

    let a_layers = partitions.iter().find(|p| p.node_id == "a-node").unwrap();
    let a_count = a_layers.end_layer - a_layers.start_layer;

    let z_layers = partitions.iter().find(|p| p.node_id == "z-node");
    let z_count = z_layers.map(|p| p.end_layer - p.start_layer).unwrap_or(0);

    assert!(a_count > z_count, "expected a-node ({}) > z-node ({})", a_count, z_count);
}

#[test]
fn all_layers_assigned_when_evenly_divisible() {
    let partitions = partition(9, &[("n1", 10.0), ("n2", 10.0), ("n3", 10.0)]);
    let total: usize = partitions.iter().map(|p| p.end_layer - p.start_layer).sum();
    assert_eq!(total, 9);
}

#[test]
fn layers_run_through_the_nodes_in_order_without_a_gap() {
    let partitions = partition(11, &[("c", 3.0), ("a", 1.0), ("b", 2.0)]);
    let mut at = 0;
    for p in partitions.iter() {
        assert_eq!(p.start_layer, at);
        at = p.end_layer;
    }
    assert_eq!(at, 11);
    let ids: Vec<&str> = partitions.iter().map(|p| p.node_id.as_str()).collect();
    assert_eq!(ids, vec!["a", "b", "c"]);
    let counts: Vec<usize> = partitions.iter().map(|p| p.end_layer - p.start_layer).collect();
    // Floors 1, 3 and 5 leave two layers, for the two fastest.
    assert_eq!(counts, vec![1, 4, 6]);
}

#[test]
fn nodes_are_ordered_by_name() {
    assert_eq!(order_nodes(&names(&["z", "a", "m"])), vec![1, 2, 0]);
    assert_eq!(order_nodes(&names(&["b", "B", "ab"])), vec![1, 2, 0]);
}

#[test]
fn route_rejects_undersized_logits_buffer_instead_of_panicking() {
    let router = ExpertRouter::new(4, 2);
    let logits: Vec<u32> = vec![0.1f32; 8].into_iter().map(|x| x.to_bits()).collect();
    let result = router.route(&logits, 3);
    assert!(result.is_err());
}

#[test]
fn route_succeeds_with_correctly_sized_logits_buffer() {
    let router = ExpertRouter::new(2, 1);
    let logits: Vec<u32> =
        vec![1.0f32, 0.0, 0.0, 1.0].into_iter().map(|x| x.to_bits()).collect();
    let result = router.route(&logits, 2);
    assert!(result.is_ok());
}

#[test]
fn every_token_goes_to_its_best_experts() {
    let router = ExpertRouter::new(3, 2);
    let gates: Vec<u32> =
        [0.2f32, 0.5, 0.3, 0.6, 0.1, 0.3].iter().map(|x| x.to_bits()).collect();
    let routed = router.route(&gates, 2).unwrap();
    let mut pairs: Vec<(usize, usize, f32)> = Vec::new();
    for r in routed.iter() {
        for (t, w) in r.token_indices.iter().zip(r.weights.iter()) {
            pairs.push((*t, r.expert_id, f32::from_bits(*w)));
        }
    }
    pairs.sort_by_key(|p| (p.0, p.1));
    assert_eq!(pairs, vec![(0, 1, 0.5), (0, 2, 0.3), (1, 0, 0.6), (1, 2, 0.3)]);
}

#[test]
fn routing_refuses_what_cannot_be_counted() {
    let router = ExpertRouter::new(usize::MAX, 1);
    assert!(matches!(router.route(&[0; 4], 2), Err(RouteError::Overflow)));
    let router = ExpertRouter::new(4, 1);
    assert!(matches!(
        router.route(&[0; 4], 2),
        Err(RouteError::TooShort { required: 8, given: 4 })
    ));
    assert_eq!(router.check(8, 2).unwrap(), 8);
}

#[test]
fn shard_bounds_covers_every_index_when_uneven() {
    let dim_size = 10;
    let world_size = 3;
    let mut covered = vec![false; dim_size];
    let mut total = 0usize;
    for rank in 0..world_size {
        let (start, end) = shard_bounds(dim_size, rank, world_size).unwrap();
        for i in start..end {
            assert!(!covered[i], "index {} assigned to more than one rank", i);
            covered[i] = true;
        }
        total += end - start;
    }
    assert_eq!(total, dim_size);
    assert!(covered.iter().all(|&c| c), "index 9 (or others) must not be dropped");
}

#[test]
fn shard_bounds_rejects_zero_world_size() {
    assert!(shard_bounds(10, 0, 0).is_err());
}

#[test]
fn shard_bounds_even_split() {
    let (start, end) = shard_bounds(12, 1, 4).unwrap();
    assert_eq!(end - start, 3);
}

#[test]
fn the_first_ranks_take_the_remainder() {
    let bounds: Vec<(usize, usize)> = (0..3).map(|r| shard_bounds(11, r, 3).unwrap()).collect();
    assert_eq!(bounds, vec![(0, 4), (4, 8), (8, 11)]);
}

#[test]
fn a_silent_node_fails_and_is_told_once() {
    let mut m = ClusterHealthMonitor::new(100);
    m.record_heartbeat("a", 0);
    m.record_heartbeat("b", 50);
    assert_eq!(m.check_failures(100), Vec::<String>::new());
    assert_eq!(m.check_failures(101), names(&["a"]));
    assert_eq!(m.check_failures(101), Vec::<String>::new());
    m.record_heartbeat("b", 140);
    assert_eq!(m.check_failures(240), Vec::<String>::new());
    assert_eq!(m.check_failures(241), names(&["b"]));
}

/// Runs the ring on `w` ranks that hold `data[rank]`, and hands back what each holds.
fn all_reduce(w: usize, mut data: Vec<Vec<u64>>) -> Vec<Vec<u64>> {
    let len = data[0].len();
    let comms: Vec<CollectiveComm> = (0..w).map(|r| CollectiveComm::new(r, w)).collect();
    for step in 0..w - 1 {
        let sent: Vec<Vec<u64>> = comms
            .iter()
            .map(|c| {
                let (from, to) = c.chunk_range(c.scatter_step(step).send, len);
                data[c.rank][from..to].to_vec()
            })
            .collect();
        for c in comms.iter() {
            let (_, prev) = c.neighbours();
            let (from, to) = c.chunk_range(c.scatter_step(step).recv, len);
            assert_eq!(c.scatter_step(step).recv, comms[prev].scatter_step(step).send);
            for (i, v) in (from..to).zip(sent[prev].iter()) {
                data[c.rank][i] += v;
            }
        }
    }
    for step in 0..w - 1 {
        let sent: Vec<Vec<u64>> = comms
            .iter()
            .map(|c| {
                let (from, to) = c.chunk_range(c.gather_step(step).send, len);
                data[c.rank][from..to].to_vec()
            })
            .collect();
        for c in comms.iter() {
            let (_, prev) = c.neighbours();
            let (from, to) = c.chunk_range(c.gather_step(step).recv, len);
            data[c.rank][from..to].copy_from_slice(&sent[prev]);
        }
    }
    data
}

#[test]
fn the_ring_gives_every_rank_the_sum() {
    for w in 1..6 {
        for len in 0..4 * w {
            let data: Vec<Vec<u64>> =
                (0..w).map(|r| (0..len).map(|i| (r * 1000 + i) as u64).collect()).collect();
            let expected: Vec<u64> =
                (0..len).map(|i| (0..w).map(|r| (r * 1000 + i) as u64).sum()).collect();
            for held in all_reduce(w, data) {
                assert_eq!(held, expected);
            }
        }
    }
}

#[test]
fn neighbours_close_the_ring() {
    assert_eq!(CollectiveComm::new(0, 3).neighbours(), (1, 2));
    assert_eq!(CollectiveComm::new(2, 3).neighbours(), (0, 1));
}

#[test]
fn chunks_survive_the_wire() {
    let bits: Vec<u32> = [1.5f32, -2.25, 0.0].iter().map(|x| x.to_bits()).collect();
    let bytes = write_chunk(&bits);
    let expected: Vec<u8> =
        [1.5f32, -2.25, 0.0].iter().flat_map(|x| x.to_le_bytes()).collect();
    assert_eq!(bytes, expected);
    assert_eq!(read_chunk(&bytes), bits);
}

fn capability() -> NodeCapability {
    NodeCapability {
        total_memory_gb: 16.0f64.to_bits(),
        available_memory_gb: 8.0f64.to_bits(),
        cpu_gflops: 10.0f64.to_bits(),
    }
}

fn hello(id: &str) -> Received {
    Received::Message(ClusterMessage::Hello { node_id: id.to_string(), capability: capability() })
}

fn heartbeat(id: &str) -> Received {
    Received::Message(ClusterMessage::Heartbeat { node_id: id.to_string() })
}

#[test]
fn a_message_is_framed_by_its_length() {
    let framed = frame_message(&[7, 8, 9]);
    assert_eq!(framed, vec![0, 0, 0, 3, 7, 8, 9]);
    assert_eq!(message_len(&[0, 0, 0, 3]).unwrap(), 3);
    assert_eq!(message_len(&MAX_MESSAGE_BYTES.to_be_bytes()).unwrap(), MAX_MESSAGE_BYTES);
    let declared = MAX_MESSAGE_BYTES + 1;
    assert_eq!(message_len(&declared.to_be_bytes()).unwrap_err().declared, declared);
}

#[test]
fn a_connection_speaks_for_the_node_that_said_hello() {
    let mut c = WorkerConnection::new();
    match c.handle(heartbeat("n1")) {
        Reaction::Beat { .. } => panic!("a heartbeat before the hello"),
        _ => {},
    }
    match c.handle(hello("n1")) {
        Reaction::Register { node_id, .. } => assert_eq!(node_id, "n1"),
        _ => panic!("expected a registration"),
    }
    match c.handle(heartbeat("n2")) {
        Reaction::Beat { node_id, named_other } => {
            assert_eq!(node_id, "n1");
            assert!(named_other);
        },
        _ => panic!("expected a beat"),
    }
    match c.handle(heartbeat("n1")) {
        Reaction::Beat { node_id, named_other } => {
            assert_eq!(node_id, "n1");
            assert!(!named_other);
        },
        _ => panic!("expected a beat"),
    }
    match c.handle(Received::Closed) {
        Reaction::Remove { node_id } => assert_eq!(node_id, "n1"),
        _ => panic!("expected a removal"),
    }
}

#[test]
fn only_a_welcome_welcomes() {
    assert!(is_welcome(&Received::Message(ClusterMessage::Welcome)));
    assert!(!is_welcome(&heartbeat("n1")));
    assert!(!is_welcome(&Received::Closed));
    assert!(!is_welcome(&Received::Broken));
}

#[test]
fn activation_lengths_are_bounded() {
    assert_eq!(check_length(MAX_MESSAGE_LEN_BYTES).unwrap(), MAX_MESSAGE_LEN_BYTES);
    let declared = MAX_MESSAGE_LEN_BYTES + 1;
    assert_eq!(check_length(declared).unwrap_err().declared, declared);
}

#[test]
fn activation_shapes_must_fit_their_data() {
    let m = |shape: Vec<usize>, n: usize| ActivationMessage { seq_ids: vec![1], shape, data: vec![0; n] };
    assert!(m(vec![2, 3], 6).check().is_ok());
    assert!(matches!(m(vec![2, 3], 5).check(), Err(ShapeError::Mismatch { implied: 6, given: 5 })));
    assert!(matches!(m(vec![usize::MAX, 2], 5).check(), Err(ShapeError::Overflow)));
}

fn counted(rows: usize, columns: usize) -> candle_core::Tensor {
    let numbers: Vec<u32> = (0..(rows * columns) as u32).collect();
    candle_core::Tensor::from_vec(numbers, (rows, columns), &candle_core::Device::Cpu).unwrap()
}

#[test]
fn a_weight_is_split_by_its_outputs() {
    let weight = counted(4, 3);
    let rows = |rank: usize| {
        let share = shard_col_parallel(&weight, rank, 3).unwrap();
        share.to_vec2::<u32>().unwrap()
    };
    assert_eq!(rows(0), vec![vec![0, 1, 2], vec![3, 4, 5]]);
    assert_eq!(rows(1), vec![vec![6, 7, 8]]);
    assert_eq!(rows(2), vec![vec![9, 10, 11]]);
}

#[test]
fn a_weight_is_split_by_its_inputs() {
    let weight = counted(2, 5);
    let rows = |rank: usize| {
        let share = shard_row_parallel(&weight, rank, 2).unwrap();
        share.to_vec2::<u32>().unwrap()
    };
    assert_eq!(rows(0), vec![vec![0, 1, 2], vec![5, 6, 7]]);
    assert_eq!(rows(1), vec![vec![3, 4], vec![8, 9]]);
    let whole = shard_row_parallel(&weight, 0, 1).unwrap();
    assert_eq!(whole.to_vec2::<u32>().unwrap(), weight.to_vec2::<u32>().unwrap());
}

#[test]
fn a_share_that_cannot_be_cut_is_refused() {
    let weight = counted(4, 3);
    assert_eq!(shard_col_parallel(&weight, 0, 0).unwrap_err(), ShardError::NoRanks);
    assert_eq!(shard_col_parallel(&weight, 2, 2).unwrap_err(), ShardError::Beyond);
    assert_eq!(shard_row_parallel(&weight, usize::MAX, 2).unwrap_err(), ShardError::Beyond);
    let flat = weight.flatten_all().unwrap();
    assert_eq!(shard_row_parallel(&flat, 0, 1).unwrap_err(), ShardError::NoAxis);
    let empty = shard_col_parallel(&weight, 7, 5).unwrap();
    assert_eq!(empty.dims(), &[0, 3]);
}

#[test]
fn layers_follow_the_names_of_the_nodes() {
    let ids = names(&["z", "a", "m"]);
    let speeds: Vec<u64> = [10.0f64, 30.0, 20.0].iter().map(|s| s.to_bits()).collect();
    let parts = assign_layers(7, &ids, &speeds, &[1, 3, 2]);
    let seen: Vec<(&str, usize, usize)> =
        parts.iter().map(|p| (p.node_id.as_str(), p.start_layer, p.end_layer)).collect();
    assert_eq!(seen, vec![("a", 0, 4), ("m", 4, 6), ("z", 6, 7)]);
    let sorted = partition_model(7, &names(&["a", "m", "z"]), &[speeds[1], speeds[2], speeds[0]], &[3, 2, 1]);
    assert_eq!(format!("{:?}", parts), format!("{:?}", sorted));
    assert_eq!(assign_layers(5, &[], &[], &[])[0].node_id, "local");
}

#[test]
fn a_connection_that_ends_within_a_length_broke() {
    assert!(matches!(after_prefix(0), Received::Closed));
    for read in 1..4 {
        assert!(matches!(after_prefix(read), Received::Broken));
    }
}

#[test]
fn positive_gates_fill_every_place() {
    for (experts, top_k) in [(4usize, 1usize), (4, 3), (4, 4), (3, 5)] {
        let gates: Vec<u32> = (0..experts).map(|e| (0.1 + ((e * 7) % 3) as f32).to_bits()).collect();
        let routed = ExpertRouter::new(experts, top_k).route(&gates, 1).unwrap();
        let chosen: usize = routed.iter().map(|r| r.token_indices.len()).sum();
        assert_eq!(chosen, top_k.min(experts));
    }
}
