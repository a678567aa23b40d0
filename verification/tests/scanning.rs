use era_engine::block_iter::{
    BlockHeader, BlockType, DecodedBlock, DecodedChunk, HeaderReply, MultiVolumeSessionBlockIterator,
    NextStep, SessionBlockIterator, StandardBlockIterator, BLOCK_HEADER_SIZE, MAX_BLOCK_SIZE,
};
use era_engine::block_iter_erasure::{ErasureBlockIterator, LengthReply, LengthStep};
use era_engine::block_iter_session::{
    FrontReply, FrontSite, SessionErasureBlockIterator, StripePhase, StripeStep,
};
use era_engine::repair::{
    backup_extension, check_cancelled, check_rewritten, classify_repair_archive_health,
    matrix_layout, plan_repair, repair_master_key, shard_slots, verify_read_shard,
    ArchiveHealthStatus, RepairOptions, RepairRoute, RepairStats, ShardFront, ShardRead,
    ShardRepair, ShardSite, MAX_SHARD_SIZE,
};
use era_engine::repair_matrix::{MatrixLimits, MatrixRepairScan, MatrixRequest};
use era_engine::repair_scan::{RepairScan, ScanRequest};
use era_engine::shard_decode::{
    candidate_lengths, report_first, DecodeAction, DecodeContext, FirstError, ShardDecode,
    ShardOutcome,
};
use era_engine::types::{
    ChunkHash, EraError, ErasureCodeConfig, MatrixDistributionStrategy, ShardHeader,
};

const LAYOUT: ErasureCodeConfig = ErasureCodeConfig { data_shards: 2, parity_shards: 1 };
const PREFIX: usize = 8;

// A code of two data shards and their sum.

fn checksum(data: &[u8]) -> u32 {
    data.iter().fold(17u32, |sum, b| sum.wrapping_mul(31).wrapping_add(*b as u32))
}

fn padded(data: &[u8], size: usize) -> Vec<u8> {
    let mut out = data.to_vec();
    out.resize(size, 0);
    out
}

fn sum(a: &[u8], b: &[u8]) -> Vec<u8> {
    a.iter().zip(b).map(|(x, y)| x ^ y).collect()
}

fn rebuild(slots: &[Option<Vec<u8>>], size: usize) -> Result<Vec<Vec<u8>>, String> {
    let mut full: Vec<Option<Vec<u8>>> =
        slots.iter().map(|s| s.as_ref().map(|d| padded(d, size))).collect();
    let missing: Vec<usize> = (0..3).filter(|i| full[*i].is_none()).collect();
    if missing.len() > 1 {
        return Err("too many shards are missing".to_string());
    }
    if let Some(m) = missing.first() {
        let (a, b) = ((m + 1) % 3, (m + 2) % 3);
        full[*m] = Some(sum(full[a].as_ref().unwrap(), full[b].as_ref().unwrap()));
    }
    Ok(full.into_iter().map(|s| s.unwrap()).collect())
}

fn shard_bytes(lengths: [u32; 2], data: &[u8]) -> Vec<u8> {
    let mut out = Vec::new();
    for l in lengths {
        out.extend(l.to_le_bytes());
    }
    out.extend((data.len() as u32).to_le_bytes());
    out.extend(checksum(data).to_le_bytes());
    out.extend(data);
    out
}

fn stripe(a: &[u8], b: &[u8]) -> Vec<Vec<u8>> {
    let lengths = [a.len() as u32, b.len() as u32];
    let size = (a.len().max(b.len()) + 1) / 2 * 2;
    let parity = sum(&padded(a, size), &padded(b, size));
    vec![
        shard_bytes(lengths, a),
        shard_bytes(lengths, b),
        shard_bytes(lengths, &parity),
    ]
}

fn number(bytes: &[u8]) -> u32 {
    u32::from_le_bytes([bytes[0], bytes[1], bytes[2], bytes[3]])
}

fn header_at(volume: &[u8], at: usize) -> Option<ShardHeader> {
    if at + 8 > volume.len() {
        return None;
    }
    Some(ShardHeader { length: number(&volume[at..]), crc: number(&volume[at + 4..]) })
}

fn front_at(volume: &[u8], offset: u64) -> Option<ShardFront> {
    let at = offset as usize;
    if at >= volume.len() {
        return None;
    }
    let end = (at + PREFIX).min(volume.len());
    Some(ShardFront { prefix: volume[at..end].to_vec(), header: header_at(volume, at + PREFIX) })
}

fn data_at(volume: &[u8], offset: u64, length: u32) -> Option<ShardRead> {
    let (at, n) = (offset as usize, length as usize);
    if at + n > volume.len() {
        return None;
    }
    let data = volume[at..at + n].to_vec();
    let crc = checksum(&data);
    Some(ShardRead { data, crc })
}

fn run_repair(volume: &[u8], options: &RepairOptions) -> (RepairStats, Vec<ShardRepair>) {
    let mut scan = RepairScan::new(LAYOUT, 0, volume.len() as u64, options);
    loop {
        match scan.request() {
            ScanRequest::ReadFront { offset } => scan.on_front(front_at(volume, offset)).unwrap(),
            ScanRequest::ReadData { offset, length } => {
                scan.on_data(data_at(volume, offset, length)).unwrap()
            },
            ScanRequest::Rebuild { shard_size } => {
                let slots = shard_slots(&scan.stripe.shards, 3);
                scan.on_rebuilt(rebuild(&slots, shard_size as usize));
            },
            ScanRequest::Finished => return scan.finish(1, &RepairOptions::default()),
        }
    }
}

#[test]
fn sound_volume_needs_no_repair() {
    let volume = stripe(b"first block", b"second").concat();
    let (stats, repairs) = run_repair(&volume, &RepairOptions::default());
    assert_eq!(stats.blocks_scanned, 1);
    assert_eq!(stats.corrupted_shards_found, 0);
    assert!(repairs.is_empty());
    assert!(stats.is_healthy());
    assert!(stats.fully_repaired());
}

#[test]
fn damaged_data_shard_is_rebuilt() {
    let shards = stripe(b"first block", b"second");
    let second = shards[0].len();
    let mut volume = shards.concat();
    volume[second + PREFIX + 8 + 2] ^= 0x40;
    let (stats, repairs) = run_repair(&volume, &RepairOptions::default());
    assert_eq!(stats.corrupted_shards_found, 1);
    assert_eq!(stats.shards_repaired, 1);
    assert_eq!(stats.unrecoverable_blocks, 0);
    assert_eq!(repairs.len(), 1);
    assert_eq!(repairs[0].shard_idx, 1);
    assert_eq!(repairs[0].site.offset, (second + PREFIX) as u64);
    assert_eq!(repairs[0].data, b"second");
}

#[test]
fn two_damaged_shards_are_too_many() {
    let shards = stripe(b"first block", b"second");
    let mut volume = shards.concat();
    volume[PREFIX + 8] ^= 1;
    volume[shards[0].len() + PREFIX + 8] ^= 1;
    let (stats, repairs) = run_repair(&volume, &RepairOptions::default());
    assert_eq!(stats.corrupted_shards_found, 2);
    assert_eq!(stats.shards_repaired, 0);
    assert_eq!(stats.unrecoverable_blocks, 1);
    assert!(!stats.fully_repaired());
    assert!(stats.is_incomplete());
    assert!(repairs.is_empty());
}

#[test]
fn second_stripe_is_scanned_too() {
    let mut volume = stripe(b"aa", b"bbbb").concat();
    let start = volume.len();
    volume.extend(stripe(b"cccccc", b"dd").concat());
    volume[start + PREFIX + 8] ^= 1;
    let (stats, repairs) = run_repair(&volume, &RepairOptions::default());
    assert_eq!(stats.blocks_scanned, 2);
    assert_eq!(stats.blocks_with_corruption, 1);
    assert_eq!(repairs[0].data, b"cccccc");
}

#[test]
fn scan_stops_at_a_lost_stripe_if_asked() {
    let shards = stripe(b"first block", b"second");
    let mut volume = shards.concat();
    volume[PREFIX + 8] ^= 1;
    volume[shards[0].len() + PREFIX + 8] ^= 1;
    let options = RepairOptions { continue_on_error: false, ..RepairOptions::default() };
    let mut scan = RepairScan::new(LAYOUT, 0, volume.len() as u64, &options);
    let mut failed = false;
    while !failed {
        match scan.request() {
            ScanRequest::ReadFront { offset } => {
                failed = scan.on_front(front_at(&volume, offset)).is_err()
            },
            ScanRequest::ReadData { offset, length } => {
                failed = scan.on_data(data_at(&volume, offset, length)).is_err()
            },
            _ => panic!("the lost stripe must end the scan"),
        }
    }
}

#[test]
fn test_repair_shards_rs_respects_cancellation() {
    let err = check_cancelled(true, "repair_shards_rs").unwrap_err();
    let msg = format!("{err:?}").to_lowercase();
    assert!(msg.contains("cancel"), "expected cancellation error message, got: {msg}");
    assert!(check_cancelled(false, "repair_shards_rs").is_ok());
}

#[test]
fn test_repair_stats_fully_repaired() {
    let mut stats = RepairStats::default();
    assert!(stats.fully_repaired());

    stats.corrupted_shards_found = 2;
    stats.shards_repaired = 2;
    assert!(stats.fully_repaired());

    stats.unrecoverable_blocks = 1;
    assert!(!stats.fully_repaired());
}

#[test]
fn test_repair_options_default() {
    let opts = RepairOptions::default();
    assert!(opts.create_backup);
    assert!(!opts.dry_run);
    assert!(opts.continue_on_error);
}

#[test]
fn written_shard_is_read_again() {
    assert!(check_rewritten(3, 7, 7).is_ok());
    let e = check_rewritten(3, 7, 8).unwrap_err();
    let expected =
        "Post-write CRC verification failed for repaired shard 3 (expected 7, got 8)";
    assert!(matches!(e, EraError::IntegrityError(m) if m == expected));
}

#[test]
fn shard_is_checked_by_its_own_header() {
    let header = ShardHeader { length: 3, crc: checksum(b"abc") };
    let good = ShardRead { data: b"abc".to_vec(), crc: checksum(b"abc") };
    let (_, _, damaged) = verify_read_shard(Some(header), Some(good)).unwrap().unwrap();
    assert!(!damaged);
    let bad = ShardRead { data: b"abd".to_vec(), crc: checksum(b"abd") };
    let (_, _, damaged) = verify_read_shard(Some(header), Some(bad)).unwrap().unwrap();
    assert!(damaged);
    assert!(verify_read_shard(None, None).unwrap().is_none());
    let huge = ShardHeader { length: MAX_SHARD_SIZE as u32 + 1, crc: 0 };
    assert!(verify_read_shard(Some(huge), None).is_err());
}

#[test]
fn backups_are_made_before_writing() {
    let options = RepairOptions::default();
    assert!(options.wants_backup());
    assert!(!RepairOptions { dry_run: true, ..options }.wants_backup());
    let dry = RepairOptions { dry_run: true, ..options };
    let rebuilt = || ShardRepair {
        site: ShardSite { volume: 0, offset: 9 },
        shard_idx: 1,
        data: vec![1],
    };
    assert_eq!(options.repairs_to_write(vec![rebuilt()]).len(), 1);
    assert_eq!(dry.repairs_to_write(vec![rebuilt()]).len(), 0);
}

#[test]
fn health_names_what_is_missing() {
    let health = classify_repair_archive_health(4, 3, vec![2], 0, 3);
    assert!(health.is_degraded());
    let health = classify_repair_archive_health(4, 2, vec![1, 2], 0, 3);
    match health {
        ArchiveHealthStatus::Incomplete { reason, missing_indices, .. } => {
            assert_eq!(
                reason,
                "only 2 volume(s) found; need at least 3 for full logical verification/repair"
            );
            assert_eq!(missing_indices, vec![1, 2]);
        },
        other => panic!("unexpected {other:?}"),
    }
}

// Shards over several volumes

fn spread(stripes: &[Vec<Vec<u8>>], strategy: MatrixDistributionStrategy) -> Vec<Vec<u8>> {
    let mut volumes = vec![Vec::new(), Vec::new(), Vec::new()];
    for (s, shards) in stripes.iter().enumerate() {
        for (i, shard) in shards.iter().enumerate() {
            volumes[strategy.calculate_volume(i, s as u64, 3)].extend(shard);
        }
    }
    volumes
}

fn run_matrix(
    volumes: &[Vec<u8>],
    readers: Vec<Option<usize>>,
    missing: Vec<usize>,
) -> (RepairStats, Vec<ShardRepair>) {
    let limits = MatrixLimits {
        layout: LAYOUT,
        strategy: MatrixDistributionStrategy::RotatingOffset,
        readers,
        ends: volumes.iter().map(|v| v.len() as u64).collect(),
        continue_on_error: true,
    };
    let mut scan = MatrixRepairScan::new(limits, vec![0; volumes.len()]);
    loop {
        match scan.request() {
            MatrixRequest::ReadFront { volume, offset } => {
                scan.on_front(front_at(&volumes[volume], offset)).unwrap()
            },
            MatrixRequest::Skip => scan.on_front(None).unwrap(),
            MatrixRequest::ReadData { volume, offset, length } => {
                scan.on_data(data_at(&volumes[volume], offset, length)).unwrap()
            },
            MatrixRequest::Rebuild { shard_size } => {
                let slots = shard_slots(&scan.stripe.shards, 3);
                scan.on_rebuilt(rebuild(&slots, shard_size as usize));
            },
            MatrixRequest::Finished => return scan.finish(3, missing, &RepairOptions::default()),
        }
    }
}

#[test]
fn damage_is_found_on_its_volume() {
    let stripes = [stripe(b"one", b"three"), stripe(b"fourth", b"ok")];
    let strategy = MatrixDistributionStrategy::RotatingOffset;
    let mut volumes = spread(&stripes, strategy);
    let v = strategy.calculate_volume(0, 1, 3);
    let offset = stripes[0]
        .iter()
        .enumerate()
        .filter(|(i, _)| strategy.calculate_volume(*i, 0, 3) == v)
        .map(|(_, s)| s.len())
        .sum::<usize>();
    volumes[v][offset + PREFIX + 8] ^= 8;
    let (stats, repairs) = run_matrix(&volumes, vec![Some(0), Some(1), Some(2)], vec![]);
    assert_eq!(stats.blocks_scanned, 2);
    assert_eq!(stats.corrupted_shards_found, 1);
    assert_eq!(repairs.len(), 1);
    assert_eq!(repairs[0].site.volume, v);
    assert_eq!(repairs[0].data, b"fourth");
    assert!(stats.is_healthy());
}

#[test]
fn missing_volume_degrades_the_archive() {
    let stripes = [stripe(b"one", b"three")];
    let mut volumes = spread(&stripes, MatrixDistributionStrategy::RotatingOffset);
    volumes.remove(0);
    let (stats, _) = run_matrix(&volumes, vec![None, Some(0), Some(1)], vec![0]);
    assert_eq!(stats.corrupted_shards_found, 1);
    assert_eq!(stats.unrecoverable_blocks, 0);
    assert!(stats.is_degraded());
}

// Reading stripes block by block

fn chunk_of(data: &[u8]) -> DecodedChunk {
    DecodedChunk { hash: ChunkHash([data.len() as u8; 32]), data: data.to_vec() }
}

fn read_session(volumes: &[Vec<u8>], indices: &Vec<usize>) -> Vec<Result<DecodedBlock, EraError>> {
    let ends = volumes.iter().map(|v| v.len() as u64).collect();
    let mut it = SessionErasureBlockIterator::new(
        vec![0; volumes.len()],
        ends,
        indices,
        3,
        LAYOUT,
        MatrixDistributionStrategy::RotatingOffset,
    )
    .unwrap();
    let mut out = Vec::new();
    loop {
        let more = it.has_more();
        if let Some(block) = it.take_pending() {
            assert!(more);
            out.push(block);
            continue;
        }
        it.begin_stripe();
        while it.phase != StripePhase::Read {
            if it.phase == StripePhase::Data {
                let (volume, offset, length) = it.data_site();
                it.on_data(data_at(&volumes[volume], offset, length));
                continue;
            }
            let reply = match it.front_site() {
                FrontSite::Nowhere => FrontReply { prefix: None, header: None },
                FrontSite::At { volume, offset } => match front_at(&volumes[volume], offset) {
                    Some(f) => FrontReply { prefix: Some(f.prefix), header: f.header },
                    None => FrontReply { prefix: None, header: None },
                },
            };
            it.on_front(reply).unwrap();
        }
        match it.conclude() {
            StripeStep::End => {
                assert!(!more);
                return out;
            },
            StripeStep::Fail(e) => {
                out.push(Err(e));
                return out;
            },
            StripeStep::Recover { slots, shard_size } => {
                match rebuild(&slots, shard_size as usize) {
                    Err(why) => it.on_unrecoverable(&why),
                    Ok(full) => {
                        for i in 0..2 {
                            let (block, _) = it.block_place(i);
                            let (outcome, first) = decode_shard(&it, i, &full[i], shard_size);
                            it.on_shard(block, outcome, first);
                        }
                    },
                }
                it.end_stripe();
            },
        }
    }
}

fn decode_shard(
    it: &SessionErasureBlockIterator,
    i: usize,
    data: &[u8],
    shard_size: u64,
) -> (ShardOutcome, FirstError) {
    let mut decode = ShardDecode::new(DecodeContext {
        data: data.to_vec(),
        own: it.data_lengths[i],
        stripe: it.data_lengths.clone(),
        shard_size: shard_size as usize,
        parity_shards: 1,
    });
    loop {
        match decode.next() {
            DecodeAction::Try { length } => {
                let piece = decode.attempt();
                assert_eq!(piece, decode.cx.data[..length]);
                let reply = if piece.last() == Some(&b'.') {
                    Ok(vec![chunk_of(&piece)])
                } else {
                    Err(EraError::Decryption("no full stop".to_string()))
                };
                decode.on_try(reply);
            },
            DecodeAction::RecoverWithout => decode.on_alternative(None),
            DecodeAction::Finished => return (decode.outcome, decode.first_error),
        }
    }
}

#[test]
fn shard_recovered_without_its_copy_is_decoded() {
    let mut decode = ShardDecode::new(DecodeContext {
        data: b"wrong.".to_vec(),
        own: Some(5),
        stripe: vec![Some(5)],
        shard_size: 6,
        parity_shards: 1,
    });
    assert_eq!(decode.next(), DecodeAction::Try { length: 5 });
    assert_eq!(decode.attempt(), b"wrong");
    decode.on_try(Err(EraError::Decryption("damaged".to_string())));
    assert_eq!(decode.next(), DecodeAction::RecoverWithout);
    decode.on_alternative(Some(b"right.".to_vec()));
    assert_eq!(decode.next(), DecodeAction::Try { length: 5 });
    assert_eq!(decode.attempt(), b"right");
    decode.on_try(Ok(vec![chunk_of(b"right")]));
    assert_eq!(decode.next(), DecodeAction::Finished);
    assert!(matches!(decode.outcome, ShardOutcome::Decoded { recoded: true, .. }));
}

fn find_length(block: &[u8], shard_size: usize, again: Option<Vec<u8>>) -> ShardOutcome {
    let mut decode = ShardDecode::new(DecodeContext {
        data: padded(block, shard_size),
        own: None,
        stripe: vec![None],
        shard_size,
        parity_shards: 1,
    });
    loop {
        match decode.next() {
            DecodeAction::Try { .. } => {
                let reply = if decode.attempt() == block {
                    Ok(vec![chunk_of(block)])
                } else {
                    Err(EraError::Decryption("another length".to_string()))
                };
                decode.on_try(reply);
            },
            DecodeAction::RecoverWithout => decode.on_alternative(again.clone()),
            DecodeAction::Finished => return decode.outcome,
        }
    }
}

#[test]
fn length_of_a_lone_shard_is_found() {
    let found = |outcome: ShardOutcome| {
        matches!(outcome, ShardOutcome::Decoded { recoded: false, .. })
    };
    assert!(found(find_length(b"no zero at the end", 18, None)));
    assert!(found(find_length(b"one zero\0", 10, None)));
    assert!(found(find_length(b"one zero\0", 10, Some(padded(b"one zero\0", 10)))));
    let mut trailing = b"x".to_vec();
    trailing.resize(511, 0);
    assert!(found(find_length(&trailing, 512, None)));
    trailing.resize(513, 0);
    assert!(!found(find_length(&trailing, 514, None)));
}

#[test]
fn repair_takes_the_route_of_the_header() {
    assert_eq!(plan_repair(Some(LAYOUT), 1).unwrap(), RepairRoute::Single(LAYOUT));
    assert_eq!(plan_repair(Some(LAYOUT), 0).unwrap(), RepairRoute::Single(LAYOUT));
    assert_eq!(plan_repair(Some(LAYOUT), 2).unwrap(), RepairRoute::Matrix);
    match plan_repair(None, 3) {
        Err(EraError::ErasureError(m)) => {
            assert_eq!(m, "Archive does not use erasure coding - repair not available")
        },
        _ => panic!("refused"),
    }
    assert_eq!(matrix_layout(Some(LAYOUT)).unwrap(), LAYOUT);
    match matrix_layout(None) {
        Err(EraError::ErasureError(m)) => assert_eq!(m, "Archive does not use erasure coding"),
        _ => panic!("refused"),
    }
    assert_eq!(backup_extension(RepairRoute::Single(LAYOUT), Some("era")), "era.bak");
    assert_eq!(backup_extension(RepairRoute::Matrix, Some("001")), "001.bak");
    assert_eq!(backup_extension(RepairRoute::Matrix, None), "bak");
}

#[test]
fn repair_needs_a_key_of_the_right_length() {
    assert_eq!(repair_master_key(Some(vec![7; 32])).unwrap(), [7; 32]);
    match repair_master_key(None) {
        Err(EraError::InvalidKey(m)) => assert_eq!(m, "Incorrect password"),
        _ => panic!("refused"),
    }
    match repair_master_key(Some(vec![7; 31])) {
        Err(EraError::InvalidKey(m)) => {
            assert_eq!(m, "Invalid master key length: expected 32, got 31")
        },
        _ => panic!("refused"),
    }
}

fn texts(blocks: &[Result<DecodedBlock, EraError>]) -> Vec<Option<Vec<u8>>> {
    blocks
        .iter()
        .map(|b| b.as_ref().ok().map(|b| b.chunks.iter().flat_map(|c| c.data.clone()).collect()))
        .collect()
}

#[test]
fn session_reads_all_blocks_in_order() {
    let stripes = [stripe(b"one.", b"number two."), stripe(b"3.", b"four.")];
    let volumes = spread(&stripes, MatrixDistributionStrategy::RotatingOffset);
    let blocks = read_session(&volumes, &vec![0, 1, 2]);
    let numbers: Vec<u32> = blocks.iter().map(|b| b.as_ref().unwrap().block_index).collect();
    assert_eq!(numbers, vec![0, 1, 2, 3]);
    let expected: Vec<Option<Vec<u8>>> =
        [&b"one."[..], b"number two.", b"3.", b"four."].iter().map(|t| Some(t.to_vec())).collect();
    assert_eq!(texts(&blocks), expected);
}

#[test]
fn session_reads_without_one_volume() {
    let stripes = [stripe(b"one.", b"number two."), stripe(b"3.", b"four.")];
    let mut volumes = spread(&stripes, MatrixDistributionStrategy::RotatingOffset);
    volumes.remove(0);
    let blocks = read_session(&volumes, &vec![1, 2]);
    let expected: Vec<Option<Vec<u8>>> =
        [&b"one."[..], b"number two.", b"3.", b"four."].iter().map(|t| Some(t.to_vec())).collect();
    assert_eq!(texts(&blocks), expected);
    assert_eq!(blocks[0].as_ref().unwrap().corrupted_shards, 0);
}

#[test]
fn session_counts_damaged_shards() {
    let stripes = [stripe(b"one.", b"number two.")];
    let strategy = MatrixDistributionStrategy::RotatingOffset;
    let mut volumes = spread(&stripes, strategy);
    volumes[strategy.calculate_volume(1, 0, 3)][PREFIX + 8] ^= 1;
    let blocks = read_session(&volumes, &vec![0, 1, 2]);
    assert_eq!(texts(&blocks)[1], Some(b"number two.".to_vec()));
    assert_eq!(blocks[0].as_ref().unwrap().corrupted_shards, 1);
}

#[test]
fn undecodable_block_is_reported() {
    let stripes = [stripe(b"no stop", b"fine.")];
    let volumes = spread(&stripes, MatrixDistributionStrategy::RotatingOffset);
    let blocks = read_session(&volumes, &vec![0, 1, 2]);
    assert!(blocks[0].is_err());
    assert!(blocks[1].is_ok());
}

#[test]
fn known_length_is_the_only_candidate() {
    assert_eq!(candidate_lengths(&vec![1, 2, 0, 0], Some(3), &vec![Some(2)], 4), vec![3]);
    let guessed = candidate_lengths(&vec![1, 2, 0, 0], None, &vec![Some(3), None], 4);
    assert!(guessed.windows(2).all(|w| w[0] > w[1]));
    assert!(guessed.contains(&3));
}

#[test]
fn first_error_is_reported() {
    let e = report_first(FirstError::Given(EraError::Decryption("bad tag".to_string())), 4);
    assert!(format!("{e:?}").contains("bad tag"));
    let e = report_first(FirstError::NoError, 4);
    assert!(format!("{e:?}").contains("Missing data shard length"));
    let e = report_first(FirstError::ProbeLimit, 4);
    assert!(format!("{e:?}").contains("for block 4 (257 > 256)"));
}

// One block, one stripe

fn block_volumes(data: &[u8]) -> Vec<Vec<u8>> {
    let half = (data.len() + 1) / 2;
    let size = (half + 1) / 2 * 2;
    let a = padded(&data[..half.min(data.len())], size);
    let b = padded(&data[half.min(data.len())..], size);
    let c = sum(&a, &b);
    [a, b, c]
        .iter()
        .map(|shard| {
            let mut v = (data.len() as u32).to_le_bytes().to_vec();
            v.extend((shard.len() as u32).to_le_bytes());
            v.extend(checksum(shard).to_le_bytes());
            v.extend(shard);
            v
        })
        .collect()
}

fn read_block(volumes: &[Vec<u8>], indices: &Vec<usize>) -> Result<DecodedBlock, EraError> {
    let ends = volumes.iter().map(|v| v.len() as u64).collect();
    let mut it = ErasureBlockIterator::new(vec![0; volumes.len()], ends, indices, 2, 1)?;
    let at = it.next_length().unwrap() as usize;
    match it.on_length(LengthReply::Bytes(volumes[0][at..at + 4].to_vec())) {
        LengthStep::Shards => {},
        other => panic!("unexpected {other:?}"),
    }
    while it.in_shards() {
        if let Some((volume, offset)) = it.open_shard() {
            let header = header_at(&volumes[volume], offset as usize);
            if let Some((volume, offset, length)) = it.on_shard_header(header)? {
                it.on_shard_data(data_at(&volumes[volume], offset, length));
            }
        }
    }
    let request = it.conclude()?;
    let mut slots = vec![None, None, None];
    for shard in &request.shards {
        slots[shard.index] = Some(shard.data.clone());
    }
    let full = match rebuild(&slots, request.info.shard_size as usize) {
        Ok(full) => full,
        Err(why) => return it.on_decoded(Err(EraError::ErasureError(why))),
    };
    let mut data = full[0].clone();
    data.truncate((request.info.original_len as usize + 1) / 2);
    data.extend(&full[1][..request.info.original_len as usize / 2]);
    it.on_decoded(Ok(vec![chunk_of(&data)]))
}

#[test]
fn block_is_read_from_its_shards() {
    let volumes = block_volumes(b"the whole block");
    let block = read_block(&volumes, &vec![0, 1, 2]).unwrap();
    assert_eq!(block.chunks[0].data, b"the whole block");
    assert_eq!(block.corrupted_shards, 0);
}

#[test]
fn more_blocks_while_enough_volumes_go_on() {
    let at = |offsets: Vec<u64>| {
        ErasureBlockIterator::new(offsets, vec![50, 50, 50], &vec![0, 1, 2], 2, 1).unwrap()
    };
    assert!(at(vec![0, 0, 0]).has_more());
    assert!(at(vec![0, 50, 0]).has_more());
    assert!(at(vec![46, 46, 46]).has_more());
    assert!(at(vec![47, 46, 46]).has_more());
    let short = at(vec![48, 48, 48]);
    assert!(!short.has_more());
    assert_eq!(short.next_length(), Some(48));
    let done = at(vec![0, 50, 50]);
    assert!(!done.has_more());
    assert_eq!(done.next_length(), None);
}

#[test]
fn block_is_read_with_a_damaged_shard() {
    let mut volumes = block_volumes(b"the whole block");
    volumes[1][13] ^= 1;
    let block = read_block(&volumes, &vec![0, 1, 2]).unwrap();
    assert_eq!(block.chunks[0].data, b"the whole block");
    assert_eq!(block.corrupted_shards, 1);
}

#[test]
fn block_with_two_damaged_shards_fails() {
    let mut volumes = block_volumes(b"the whole block");
    volumes[1][13] ^= 1;
    volumes[2][13] ^= 1;
    assert!(read_block(&volumes, &vec![0, 1, 2]).is_err());
}

// Blocks in a row

fn reply(count: usize, length: u32, block_type: BlockType) -> HeaderReply {
    HeaderReply::Bytes { count, header: Some(BlockHeader { length, block_type }) }
}

#[test]
fn blocks_follow_each_other() {
    let mut it = StandardBlockIterator::new(4096, 8192);
    assert_eq!(it.cursor.next_header(), Some(4096));
    match it.cursor.on_header(reply(16, 100, BlockType::Data)) {
        NextStep::ReadBlock { block_index, offset, length } => {
            assert_eq!((block_index, offset, length), (0, 4096, 100))
        },
        other => panic!("unexpected {other:?}"),
    }
    let block = it.cursor.on_block(Ok(vec![chunk_of(b"x")])).unwrap();
    assert_eq!(block.block_index, 0);
    assert_eq!(it.cursor.next_header(), Some(4096 + BLOCK_HEADER_SIZE + 100));
    assert!(it.has_more());
    assert_eq!(it.stats().blocks_read, 1);
    assert!(it.cursor.on_header(reply(16, 50, BlockType::Data)).is_read());
    assert!(it.cursor.on_block(Err(EraError::Decryption("bad".to_string()))).is_err());
    assert_eq!(it.stats().blocks_failed, 1);
}

trait IsRead {
    fn is_read(&self) -> bool;
}

impl IsRead for NextStep {
    fn is_read(&self) -> bool {
        matches!(self, NextStep::ReadBlock { .. })
    }
}

#[test]
fn session_passes_other_blocks() {
    let mut it = SessionBlockIterator::new(0, 1000);
    assert!(matches!(it.cursor.on_header(reply(16, 40, BlockType::Checkpoint)), NextStep::Again));
    assert_eq!(it.cursor.next_header(), Some(56));
    assert!(it.cursor.on_header(reply(16, 40, BlockType::Data)).is_read());
}

#[test]
fn bad_headers_end_the_row() {
    let mut it = StandardBlockIterator::new(0, 1000);
    assert!(matches!(
        it.cursor.on_header(HeaderReply::Bytes { count: 7, header: None }),
        NextStep::Fail(_)
    ));
    let mut it = StandardBlockIterator::new(0, 1000);
    assert!(matches!(
        it.cursor.on_header(reply(16, MAX_BLOCK_SIZE + 1, BlockType::Data)),
        NextStep::Fail(_)
    ));
    let mut it = StandardBlockIterator::new(0, 1000);
    assert!(matches!(
        it.cursor.on_header(HeaderReply::Bytes { count: 0, header: None }),
        NextStep::End
    ));
    assert_eq!(StandardBlockIterator::new(1000, 1000).cursor.next_header(), None);
}

#[test]
fn volumes_are_read_one_after_another() {
    let mut it = MultiVolumeSessionBlockIterator::new(vec![0, 10], vec![0, 200]);
    assert_eq!(it.next_header(), Some((1, 10)));
    assert!(it.on_header(reply(16, 4, BlockType::Data)).is_read());
    it.on_block(Ok(vec![])).unwrap();
    assert_eq!(it.next_header(), Some((1, 30)));
}
