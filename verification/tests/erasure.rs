use era_engine::block_iter::BlockIterStats;
use era_engine::block_iter_erasure::ErasureBlockIterator;
use era_engine::erasure_scan::{
    erasure_data_end, even_aligned_shard_size, normalize_data_lengths, parity_bound_from_lengths,
    parse_stripe_lengths, reconcile_stripe_prefixes, write_length_table,
};
use era_engine::erasure_stage::{BlockMeta, EncryptedMacroBlock, ErasureStage};
use era_engine::types::{ChunkHash, EraError, ErasureCodeConfig, MatrixDistributionStrategy};

#[test]
fn test_block_iter_stats_default() {
    let stats = BlockIterStats::default();
    assert_eq!(stats.blocks_read, 0);
    assert_eq!(stats.blocks_failed, 0);
    assert_eq!(stats.corrupted_shards, 0);
}

#[test]
fn test_erasure_iterator_accepts_sparse_original_indices() {
    let iter =
        ErasureBlockIterator::new(vec![4096, 4096], vec![4096, 4096], &vec![0, 2], 2, 1).unwrap();
    assert_eq!(iter.original_volume_count, 3);
    assert_eq!(iter.vol_index_map, vec![Some(0), None, Some(1)]);
}

#[test]
fn test_erasure_iterator_rejects_duplicate_original_indices() {
    let err = ErasureBlockIterator::new(vec![4096, 4096], vec![4096, 4096], &vec![0, 0], 2, 1)
        .err()
        .expect("duplicate indices must be rejected");
    let msg = format!("{:?}", err);
    assert!(msg.contains("duplicate index 0"), "got: {msg}");
}

#[test]
fn test_parse_stripe_lengths() {
    let bytes = [100u8, 0, 0, 0, 200, 0, 0, 0];
    assert_eq!(parse_stripe_lengths(&bytes, 2), vec![100, 200]);
}

#[test]
fn test_reconcile_stripe_prefixes_prefers_repeated_copy() {
    let true_prefix = vec![100u8, 0, 0, 0, 200, 0, 0, 0];
    let corrupted = vec![99u8, 0, 0, 0, 200, 0, 0, 0];
    let copies = vec![corrupted.clone(), true_prefix.clone(), true_prefix.clone()];
    assert_eq!(reconcile_stripe_prefixes(&copies, 2), Some(vec![100, 200]));
}

#[test]
fn test_reconcile_stripe_prefixes_returns_none_without_duplicate_agreement() {
    let a = vec![1u8, 0, 0, 0];
    let b = vec![2u8, 0, 0, 0];
    let c = vec![3u8, 0, 0, 0];
    let copies = vec![a, b, c];
    assert_eq!(reconcile_stripe_prefixes(&copies, 1), None);
}

#[test]
fn test_reconcile_stripe_prefixes_returns_none_for_single_copy() {
    let copies = vec![vec![1u8, 0, 0, 0]];
    assert_eq!(reconcile_stripe_prefixes(&copies, 1), None);
}

#[test]
fn test_reconcile_stripe_prefixes_returns_none_on_two_way_tie() {
    let a = vec![1u8, 0, 0, 0];
    let b = vec![2u8, 0, 0, 0];
    let copies = vec![a.clone(), a.clone(), b.clone(), b.clone()];
    assert_eq!(reconcile_stripe_prefixes(&copies, 1), None);
}

#[test]
fn test_reconcile_stripe_prefixes_returns_none_on_three_way_tie() {
    let a = vec![1u8, 0, 0, 0];
    let b = vec![2u8, 0, 0, 0];
    let c = vec![3u8, 0, 0, 0];
    let copies = vec![a.clone(), b.clone(), c.clone(), a.clone(), b.clone(), c.clone()];
    assert_eq!(reconcile_stripe_prefixes(&copies, 1), None);
}

#[test]
fn test_reconcile_stripe_prefixes_exactly_two_identical_copies_wins() {
    let a = vec![1u8, 0, 0, 0];
    let b = vec![2u8, 0, 0, 0];
    let c = vec![3u8, 0, 0, 0];
    let copies = vec![a.clone(), a.clone(), b, c];
    assert_eq!(reconcile_stripe_prefixes(&copies, 1), Some(vec![1]));
}

#[test]
fn test_reconcile_stripe_prefixes_wins_despite_lower_tie() {
    let a = vec![1u8, 0, 0, 0];
    let b = vec![2u8, 0, 0, 0];
    let c = vec![3u8, 0, 0, 0];
    let copies = vec![
        a.clone(),
        a.clone(),
        b.clone(),
        b.clone(),
        c.clone(),
        c.clone(),
        c.clone(),
    ];
    assert_eq!(reconcile_stripe_prefixes(&copies, 1), Some(vec![3]));
}

#[test]
fn test_reconcile_stripe_prefixes_wins_despite_later_lower_tie() {
    let a = vec![1u8, 0, 0, 0];
    let b = vec![2u8, 0, 0, 0];
    let c = vec![3u8, 0, 0, 0];
    let copies = vec![
        a.clone(),
        a.clone(),
        a.clone(),
        b.clone(),
        b.clone(),
        c.clone(),
        c.clone(),
    ];
    assert_eq!(reconcile_stripe_prefixes(&copies, 1), Some(vec![1]));
}

#[test]
fn test_parity_bound_rounds_up_to_even_max_data_length() {
    assert_eq!(parity_bound_from_lengths(Some(&[100, 200])), Some(200));
    assert_eq!(parity_bound_from_lengths(Some(&[100, 201])), Some(202));
}

#[test]
fn test_parity_bound_from_lengths_returns_none_for_empty() {
    assert_eq!(parity_bound_from_lengths(Some(&[])), None);
    assert_eq!(parity_bound_from_lengths(None), None);
}

#[test]
fn test_even_aligned_shard_size() {
    assert_eq!(even_aligned_shard_size(100), 100);
    assert_eq!(even_aligned_shard_size(101), 102);
    assert_eq!(even_aligned_shard_size(0), 0);
}

#[test]
fn test_data_length_normalization_backfills_missing_data_lengths_from_consensus_prefix() {
    let mut data_lengths = vec![Some(50u32), None, None];
    let mut max_len = 50usize;
    normalize_data_lengths(&mut data_lengths, Some(&[50, 100, 200]), &mut max_len);
    assert_eq!(max_len, 200);
    assert_eq!(data_lengths, vec![Some(50), Some(100), Some(200)]);
}

#[test]
fn test_data_length_normalization_no_panic_when_stripe_lengths_none() {
    let mut data_lengths = vec![None, None];
    let mut max_len = 0usize;
    normalize_data_lengths(&mut data_lengths, None, &mut max_len);
    assert_eq!(max_len, 0);
    assert_eq!(data_lengths, vec![None, None]);
}

#[test]
fn length_table_is_read_back() {
    let lengths = vec![0u32, 1, 255, 256, 65536, 16777216, u32::MAX];
    let table = write_length_table(&lengths);
    assert_eq!(table.len(), 28);
    assert_eq!(parse_stripe_lengths(&table, 7), lengths);
}

#[test]
fn consensus_does_not_depend_on_order() {
    let a = vec![1u8, 0, 0, 0];
    let b = vec![2u8, 0, 0, 0];
    let first = vec![a.clone(), b.clone(), a.clone()];
    let second = vec![b, a.clone(), a];
    assert_eq!(reconcile_stripe_prefixes(&first, 1), reconcile_stripe_prefixes(&second, 1));
}

#[test]
fn known_lengths_are_kept() {
    let mut lengths = vec![Some(7u32), None];
    let mut max_len = 7usize;
    normalize_data_lengths(&mut lengths, Some(&[9, 5]), &mut max_len);
    assert_eq!(lengths, vec![Some(7), Some(5)]);
}

#[test]
fn stripes_end_where_the_region_ends_without_footer() {
    assert_eq!(erasure_data_end(5000, None), 5000);
}

#[test]
fn test_disabled_stage() {
    let stage = ErasureStage::disabled();
    assert!(!stage.is_enabled());
    assert!(stage.config().is_none());
    assert!(!stage.has_pending());
}

#[test]
fn test_enabled_stage() {
    let config = ErasureCodeConfig { data_shards: 4, parity_shards: 1 };
    let stage = ErasureStage::new(Some(config)).unwrap();
    assert!(stage.is_enabled());
    assert!(stage.config().is_some());
    assert_eq!(stage.config().unwrap().data_shards, 4);
    assert_eq!(stage.config().unwrap().parity_shards, 1);
    assert!(!stage.has_pending());
}

#[test]
fn test_flush_empty() {
    let config = ErasureCodeConfig { data_shards: 4, parity_shards: 1 };
    let mut stage = ErasureStage::new(Some(config)).unwrap();
    let result = stage.flush().unwrap();
    assert!(result.is_none());
}

fn block(id: u64, data: Vec<u8>) -> EncryptedMacroBlock {
    EncryptedMacroBlock { block_id: id, data, original_size: 0, compressed_size: 0, chunk_count: 0 }
}

#[test]
fn test_buffer_block_disabled() {
    let mut stage = ErasureStage::disabled();
    let result = stage.buffer_block(block(0, vec![]), BlockMeta { chunk_hashes: vec![] });
    assert!(result.is_err());
}

#[test]
fn test_invalid_config_zero_data_shards() {
    let config = ErasureCodeConfig { data_shards: 0, parity_shards: 2 };
    match ErasureStage::new(Some(config)) {
        Err(EraError::InvalidConfig(m)) => assert!(m.contains("data_shards")),
        other => panic!("unexpected: {other:?}"),
    }
}

#[test]
fn test_invalid_config_zero_parity_shards() {
    let config = ErasureCodeConfig { data_shards: 4, parity_shards: 0 };
    match ErasureStage::new(Some(config)) {
        Err(EraError::InvalidConfig(m)) => assert!(m.contains("parity_shards")),
        other => panic!("unexpected: {other:?}"),
    }
}

#[test]
fn test_invalid_config_total_shards_exceed_max() {
    let config = ErasureCodeConfig { data_shards: 200, parity_shards: 100 };
    match ErasureStage::new(Some(config)) {
        Err(EraError::InvalidConfig(m)) => {
            assert!(m.contains("exceeds maximum"));
            assert_eq!(m, "total shards (300) exceeds maximum (255)");
        }
        other => panic!("unexpected: {other:?}"),
    }
}

#[test]
fn full_stripe_comes_with_its_last_block() {
    let config = ErasureCodeConfig { data_shards: 2, parity_shards: 1 };
    let mut stage = ErasureStage::new(Some(config)).unwrap();
    let meta = |b: u8| BlockMeta { chunk_hashes: vec![ChunkHash([b; 32])] };
    assert!(stage.buffer_block(block(0, vec![1; 5]), meta(1)).unwrap().is_none());
    assert!(stage.has_pending());
    let stripe = stage.buffer_block(block(1, vec![2; 3]), meta(2)).unwrap().unwrap();
    assert_eq!(stripe.data_blocks.len(), 2);
    assert_eq!(stripe.data_blocks[1].block_id, 1);
    assert_eq!(stripe.shard_size, 6);
    assert!(!stage.has_pending());
    assert!(stage.buffer_block(block(2, vec![3; 4]), meta(3)).unwrap().is_none());
    let rest = stage.flush().unwrap().unwrap();
    assert_eq!(rest.data_blocks.len(), 1);
    assert_eq!(rest.shard_size, 4);
}

#[test]
fn shards_of_a_stripe_lie_on_different_volumes() {
    let s = MatrixDistributionStrategy::RotatingOffset;
    let mut seen = vec![false; 6];
    for shard in 0..6 {
        let v = s.calculate_volume(shard, 5, 6);
        assert!(!seen[v]);
        seen[v] = true;
    }
    assert_eq!(s.calculate_volume(0, 5, 6), 5);
    assert_eq!(s.calculate_volume(1, 5, 6), 0);
    assert_eq!(MatrixDistributionStrategy::Striped.calculate_volume(7, 5, 6), 1);
}
