//! Repair of erasure-coded archives: finding damaged shards stripe by stripe,
//! deciding what can be rebuilt, and collecting the shards to write back.
//!
//! The scans are driven from outside: a scan says what to read next, the reply
//! is handed to it, and it moves on. Reading, checksums and Reed-Solomon coding
//! happen outside.
use vstd::prelude::*;

use crate::erasure_scan;
use crate::erasure_scan::normalize_data_lengths;
use crate::secrets::key_from;
use crate::text;
use crate::types::{copy_bytes, EraError, ErasureCodeConfig, Shard, ShardHeader};

verus! {

/// No shard is longer than this.
pub const MAX_SHARD_SIZE: u64 = 268435456;

/// Whether all volumes of an archive were found and all its stripes readable.
#[derive(Debug)]
pub enum ArchiveHealthStatus {
    Healthy,
    /// Volumes are missing, and their contents can be rebuilt.
    Degraded { expected_volumes: usize, found_volumes: usize, missing_indices: Vec<usize> },
    /// Not everything can be verified or rebuilt.
    Incomplete {
        expected_volumes: usize,
        found_volumes: usize,
        missing_indices: Vec<usize>,
        reason: String,
    },
}

impl ArchiveHealthStatus {
    pub fn is_healthy(&self) -> (r: bool)
        ensures
            r == (self is Healthy),
    {
        match self {
            ArchiveHealthStatus::Healthy => true,
            _ => false,
        }
    }

    pub fn is_degraded(&self) -> (r: bool)
        ensures
            r == (self is Degraded),
    {
        match self {
            ArchiveHealthStatus::Degraded { .. } => true,
            _ => false,
        }
    }

    pub fn is_incomplete(&self) -> (r: bool)
        ensures
            r == (self is Incomplete),
    {
        match self {
            ArchiveHealthStatus::Incomplete { .. } => true,
            _ => false,
        }
    }
}

impl Default for ArchiveHealthStatus {
    fn default() -> (r: Self)
        ensures
            r is Healthy,
    {
        ArchiveHealthStatus::Healthy
    }
}

/// The error of an operation that was asked to stop.
pub fn cancellation_error(context: &str) -> (e: EraError)
    ensures
        e matches EraError::Other(m) && m@ == "Operation cancelled during "@ + context@,
{
    let m: String = text::with_text("Operation cancelled during ", context, "");
    proof {
        reveal_strlit("");
        assert(m@ =~= "Operation cancelled during "@ + context@);
    }
    EraError::Other(m)
}

/// Fails exactly where the operation was asked to stop.
pub fn check_cancelled(cancelled: bool, context: &str) -> (r: Result<(), EraError>)
    ensures
        r is Ok <==> !cancelled,
        r matches Err(e) ==> (e matches EraError::Other(m) && m@ == "Operation cancelled during "@
            + context@),
{
    if cancelled {
        return Err(cancellation_error(context));
    }
    Ok(())
}

/// How an archive is repaired.
#[derive(Debug, Clone, Copy, PartialEq, Eq, Structural)]
pub enum RepairRoute {
    /// Its shards lie on one volume.
    Single(ErasureCodeConfig),
    /// Its shards are spread over several volumes.
    Matrix,
}

/// Decides how an archive is repaired, by its header. Without erasure coding it
/// cannot be.
pub fn plan_repair(erasure: Option<ErasureCodeConfig>, total_volumes: u16) -> (r: Result<
    RepairRoute,
    EraError,
>)
    ensures
        match erasure {
            None => r matches Err(EraError::ErasureError(m)) && m@
                == "Archive does not use erasure coding - repair not available"@,
            Some(layout) => r == Ok::<RepairRoute, EraError>(
                if total_volumes > 1 {
                    RepairRoute::Matrix
                } else {
                    RepairRoute::Single(layout)
                },
            ),
        },
{
    match erasure {
        None => Err(
            EraError::ErasureError(
                String::from_str("Archive does not use erasure coding - repair not available"),
            ),
        ),
        Some(layout) => if total_volumes > 1 {
            Ok(RepairRoute::Matrix)
        } else {
            Ok(RepairRoute::Single(layout))
        },
    }
}

/// The layout of an archive whose shards are spread over several volumes.
pub fn matrix_layout(erasure: Option<ErasureCodeConfig>) -> (r: Result<ErasureCodeConfig, EraError>)
    ensures
        match erasure {
            None => r matches Err(EraError::ErasureError(m)) && m@
                == "Archive does not use erasure coding"@,
            Some(layout) => r == Ok::<ErasureCodeConfig, EraError>(layout),
        },
{
    match erasure {
        None => Err(
            EraError::ErasureError(String::from_str("Archive does not use erasure coding")),
        ),
        Some(layout) => Ok(layout),
    }
}

/// The master key that the password opened, before an archive is repaired.
pub fn repair_master_key(opened: Option<Vec<u8>>) -> (r: Result<[u8; 32], EraError>)
    ensures
        match opened {
            None => r matches Err(EraError::InvalidKey(m)) && m@ == "Incorrect password"@,
            Some(b) => if b@.len() == 32 {
                r matches Ok(k) && k@ == b@
            } else {
                r matches Err(EraError::InvalidKey(m)) && m@
                    == "Invalid master key length: expected 32, got "@ + text::decimal(
                    b@.len(),
                ) + ""@
            },
        },
{
    match opened {
        None => Err(EraError::InvalidKey(String::from_str("Incorrect password"))),
        Some(b) => match key_from(b.as_slice()) {
            Some(k) => Ok(k),
            None => Err(
                EraError::InvalidKey(
                    text::with_number(
                        "Invalid master key length: expected 32, got ",
                        b.len() as u64,
                        "",
                    ),
                ),
            ),
        },
    }
}

/// The file name extension of a backup, by that of the volume: where one volume
/// is repaired it is fixed, otherwise it follows the volume's.
pub open spec fn backup_extension_of(route: RepairRoute, own: Option<Seq<char>>) -> Seq<char> {
    match (route, own) {
        (RepairRoute::Single(_), _) => "era.bak"@,
        (RepairRoute::Matrix, Some(e)) => e + ".bak"@,
        (RepairRoute::Matrix, None) => "bak"@,
    }
}

pub fn backup_extension(route: RepairRoute, own: Option<&str>) -> (r: String)
    ensures
        r@ == backup_extension_of(
            route,
            match own {
                Some(e) => Some(e@),
                None => None,
            },
        ),
{
    match (route, own) {
        (RepairRoute::Single(_), _) => String::from_str("era.bak"),
        (RepairRoute::Matrix, Some(e)) => {
            let mut r: String = String::from_str(e);
            r.append(".bak");
            r
        },
        (RepairRoute::Matrix, None) => String::from_str("bak"),
    }
}

/// The rating of an archive: incomplete where too few volumes are there or a
/// stripe is lost, degraded where a volume is missing, healthy otherwise.
pub open spec fn is_rating(
    h: ArchiveHealthStatus,
    expected: usize,
    found: usize,
    missing: Seq<usize>,
    unrecoverable: int,
    minimum: int,
) -> bool {
    if found < minimum || unrecoverable > 0 {
        &&& h matches ArchiveHealthStatus::Incomplete {
            expected_volumes,
            found_volumes,
            missing_indices,
            reason,
        }
        &&& expected_volumes == expected
        &&& found_volumes == found
        &&& missing_indices@ == missing
        &&& reason@ == if found < minimum {
            "only "@ + text::decimal(found as nat) + " volume(s) found; need at least "@
                + text::decimal(minimum as nat) + " for full logical verification/repair"@
        } else {
            ""@ + text::decimal(unrecoverable as nat)
                + " unrecoverable block(s) prevent full logical verification/repair"@
        }
    } else if missing.len() > 0 {
        &&& h matches ArchiveHealthStatus::Degraded {
            expected_volumes,
            found_volumes,
            missing_indices,
        }
        &&& expected_volumes == expected
        &&& found_volumes == found
        &&& missing_indices@ == missing
    } else {
        h is Healthy
    }
}

/// Rates an archive by its volumes and by the stripes that cannot be rebuilt.
pub fn classify_repair_archive_health(
    expected_volumes: usize,
    found_volumes: usize,
    missing_indices: Vec<usize>,
    unrecoverable_blocks: u64,
    minimum_required_volumes: usize,
) -> (h: ArchiveHealthStatus)
    ensures
        is_rating(
            h,
            expected_volumes,
            found_volumes,
            missing_indices@,
            unrecoverable_blocks as int,
            minimum_required_volumes as int,
        ),
        missing_indices@.len() > 0 ==> !(h is Healthy) && reported_missing(h) == missing_indices@,
        h is Healthy <==> missing_indices@.len() == 0 && unrecoverable_blocks == 0
            && found_volumes >= minimum_required_volumes,
{
    if found_volumes < minimum_required_volumes {
        return ArchiveHealthStatus::Incomplete {
            expected_volumes,
            found_volumes,
            missing_indices,
            reason: text::with_numbers(
                "only ",
                found_volumes as u64,
                " volume(s) found; need at least ",
                minimum_required_volumes as u64,
                " for full logical verification/repair",
            ),
        };
    }
    if unrecoverable_blocks > 0 {
        return ArchiveHealthStatus::Incomplete {
            expected_volumes,
            found_volumes,
            missing_indices,
            reason: text::with_number(
                "",
                unrecoverable_blocks,
                " unrecoverable block(s) prevent full logical verification/repair",
            ),
        };
    }
    if missing_indices.len() > 0 {
        return ArchiveHealthStatus::Degraded { expected_volumes, found_volumes, missing_indices };
    }
    ArchiveHealthStatus::Healthy
}

/// The volumes that a rating reports as missing.
pub open spec fn reported_missing(h: ArchiveHealthStatus) -> Seq<usize> {
    match h {
        ArchiveHealthStatus::Healthy => Seq::empty(),
        ArchiveHealthStatus::Degraded { missing_indices, .. } => missing_indices@,
        ArchiveHealthStatus::Incomplete { missing_indices, .. } => missing_indices@,
    }
}

/// A rating reports exactly the volumes that are missing, however many these
/// are, so that an archive is healthy only where none is. It is incomplete
/// exactly where a stripe is lost or too few volumes were found, and degraded
/// where volumes are missing that can be done without.
pub proof fn law_rating_reports_missing_volumes(
    h: ArchiveHealthStatus,
    expected: usize,
    found: usize,
    missing: Seq<usize>,
    unrecoverable: int,
    minimum: int,
)
    requires
        is_rating(h, expected, found, missing, unrecoverable, minimum),
    ensures
        reported_missing(h) == missing,
        missing.len() > 0 ==> !(h is Healthy) && reported_missing(h) == missing,
        h is Healthy ==> missing.len() == 0 && unrecoverable <= 0 && found >= minimum,
        h is Incomplete <==> unrecoverable > 0 || found < minimum,
        h is Degraded ==> missing.len() > 0,
        h is Degraded || h is Incomplete ==> rated_volumes(h) == (expected, found),
{
    assert(missing.len() == 0 ==> missing =~= Seq::empty());
}

/// The volumes that a rating says there should be, and that were found.
pub open spec fn rated_volumes(h: ArchiveHealthStatus) -> (usize, usize) {
    match h {
        ArchiveHealthStatus::Healthy => (0, 0),
        ArchiveHealthStatus::Degraded { expected_volumes, found_volumes, .. } => (
            expected_volumes,
            found_volumes,
        ),
        ArchiveHealthStatus::Incomplete { expected_volumes, found_volumes, .. } => (
            expected_volumes,
            found_volumes,
        ),
    }
}

/// Losing more volumes or stripes never makes a rating better: what is not
/// healthy stays so.
pub proof fn law_rating_gets_no_better_by_loss(
    h: ArchiveHealthStatus,
    g: ArchiveHealthStatus,
    expected: usize,
    found: usize,
    fewer: usize,
    missing: Seq<usize>,
    more: Seq<usize>,
    unrecoverable: int,
    lost: int,
    minimum: int,
)
    requires
        is_rating(h, expected, found, missing, unrecoverable, minimum),
        is_rating(g, expected, fewer, more, lost, minimum),
        fewer <= found,
        missing.len() <= more.len(),
        unrecoverable <= lost,
    ensures
        !(h is Healthy) ==> !(g is Healthy),
        h is Incomplete ==> g is Incomplete,
{
}

/// What a repair found and did.
#[derive(Debug)]
pub struct RepairStats {
    /// Stripes scanned.
    pub blocks_scanned: u64,
    /// Stripes with damaged shards.
    pub blocks_with_corruption: u64,
    /// Damaged shards.
    pub corrupted_shards_found: u64,
    /// Damaged shards that were rebuilt and can be written back.
    pub shards_repaired: u64,
    /// Stripes with too few intact shards.
    pub unrecoverable_blocks: u64,
    /// One message for each stripe that cannot be rebuilt.
    pub errors: Vec<String>,
    pub archive_health: ArchiveHealthStatus,
}

/// The texts of a list of messages.
pub open spec fn messages(list: Seq<String>) -> Seq<Seq<char>> {
    list.map_values(|s: String| s@)
}

impl Default for RepairStats {
    fn default() -> (r: Self)
        ensures
            r.blocks_scanned == 0,
            r.blocks_with_corruption == 0,
            r.corrupted_shards_found == 0,
            r.shards_repaired == 0,
            r.unrecoverable_blocks == 0,
            r.errors@.len() == 0,
            r.archive_health is Healthy,
    {
        RepairStats {
            blocks_scanned: 0,
            blocks_with_corruption: 0,
            corrupted_shards_found: 0,
            shards_repaired: 0,
            unrecoverable_blocks: 0,
            errors: Vec::new(),
            archive_health: ArchiveHealthStatus::Healthy,
        }
    }
}

impl RepairStats {
    pub open spec fn spec_fully_repaired(&self) -> bool {
        self.archive_health is Healthy && self.unrecoverable_blocks == 0
            && self.corrupted_shards_found == self.shards_repaired
    }

    /// Every counter can grow by `n` without overflowing.
    pub open spec fn room(&self, n: int) -> bool {
        &&& self.blocks_scanned + n <= u64::MAX
        &&& self.blocks_with_corruption + n <= u64::MAX
        &&& self.corrupted_shards_found + n <= u64::MAX
        &&& self.shards_repaired + n <= u64::MAX
        &&& self.unrecoverable_blocks + n <= u64::MAX
    }

    /// Whether every counter can still grow by 1024.
    pub fn has_room(&self) -> (r: bool)
        ensures
            r == self.room(1024),
    {
        let limit: u64 = u64::MAX - 1024;
        self.blocks_scanned <= limit && self.blocks_with_corruption <= limit
            && self.corrupted_shards_found <= limit && self.shards_repaired <= limit
            && self.unrecoverable_blocks <= limit
    }

    pub fn is_healthy(&self) -> (r: bool)
        ensures
            r == (self.archive_health is Healthy),
    {
        self.archive_health.is_healthy()
    }

    pub fn is_degraded(&self) -> (r: bool)
        ensures
            r == (self.archive_health is Degraded),
    {
        self.archive_health.is_degraded()
    }

    pub fn is_incomplete(&self) -> (r: bool)
        ensures
            r == (self.archive_health is Incomplete),
    {
        self.archive_health.is_incomplete()
    }

    /// Whether every damaged shard was rebuilt and nothing is missing.
    pub fn fully_repaired(&self) -> (r: bool)
        ensures
            r == self.spec_fully_repaired(),
    {
        self.is_healthy() && self.unrecoverable_blocks == 0 && self.corrupted_shards_found
            == self.shards_repaired
    }
}

/// How a repair is carried out.
#[derive(Debug, Clone, Copy, PartialEq, Eq, Structural)]
pub struct RepairOptions {
    /// Keep a copy of each volume before writing to it.
    pub create_backup: bool,
    /// Report only, write nothing.
    pub dry_run: bool,
    /// Go on after a stripe that cannot be rebuilt.
    pub continue_on_error: bool,
}

impl Default for RepairOptions {
    fn default() -> (r: Self)
        ensures
            r == (RepairOptions { create_backup: true, dry_run: false, continue_on_error: true }),
    {
        RepairOptions { create_backup: true, dry_run: false, continue_on_error: true }
    }
}

impl RepairOptions {
    pub open spec fn backs_up(self) -> bool {
        self.create_backup && !self.dry_run
    }

    /// A copy is made only where something may be written.
    pub fn wants_backup(&self) -> (r: bool)
        ensures
            r == self.backs_up(),
    {
        self.create_backup && !self.dry_run
    }

    /// What of the rebuilt shards is written back: on a dry run nothing.
    pub open spec fn written(self, repairs: Seq<RepairView>) -> Seq<RepairView> {
        if self.dry_run {
            Seq::empty()
        } else {
            repairs
        }
    }

    pub fn repairs_to_write(&self, repairs: Vec<ShardRepair>) -> (r: Vec<ShardRepair>)
        ensures
            repair_views(r@) == self.written(repair_views(repairs@)),
    {
        if self.dry_run {
            let none: Vec<ShardRepair> = Vec::new();
            assert(repair_views(none@) =~= Seq::empty());
            return none;
        }
        repairs
    }
}

/// What stands in front of a shard's bytes: its copy of the length table and,
/// where it parses, its header.
#[derive(Debug)]
pub struct ShardFront {
    pub prefix: Vec<u8>,
    pub header: Option<ShardHeader>,
}

/// The bytes of a shard with the checksum computed over them.
#[derive(Debug)]
pub struct ShardRead {
    pub data: Vec<u8>,
    pub crc: u32,
}

/// Where the header of a shard stands.
#[derive(Debug, Clone, Copy, PartialEq, Eq, Structural)]
pub struct ShardSite {
    /// Position of the volume among the open ones.
    pub volume: usize,
    pub offset: u64,
}

/// A rebuilt shard to be written over a damaged one.
#[derive(Debug)]
pub struct ShardRepair {
    pub site: ShardSite,
    pub shard_idx: usize,
    pub data: Vec<u8>,
}

/// What to do about a shard, judged by what stands in front of it.
#[derive(Debug, Clone, Copy, PartialEq, Eq, Structural)]
pub enum ShardVerdict {
    /// The agreed table announces an impossible length: the archive is refused.
    PrefixTooLarge(u32),
    /// The header announces an impossible length: the archive is refused.
    HeaderTooLarge(u32),
    /// A parity shard announces less than the padded length given here: it is
    /// damaged, and the next shard follows that length.
    ParityTooShort(u32),
    /// Nothing tells the shard's length.
    Unknown,
    /// The header does not parse: the shard is damaged, the length is known.
    Headerless(u32),
    /// So many bytes are to be read and checked.
    Readable(u32),
}

/// `agreed` is the shard's entry in the agreed table (data shards only),
/// `bound` the parity length of the stripe, 0 if unknown.
pub open spec fn verdict(agreed: Option<u32>, header: Option<ShardHeader>, bound: u32) -> ShardVerdict {
    match (agreed, header) {
        (Some(a), Some(_)) => if a > MAX_SHARD_SIZE {
            ShardVerdict::PrefixTooLarge(a)
        } else {
            ShardVerdict::Readable(a)
        },
        (Some(a), None) => if a > MAX_SHARD_SIZE {
            ShardVerdict::PrefixTooLarge(a)
        } else {
            ShardVerdict::Headerless(a)
        },
        (None, Some(h)) => if h.length > MAX_SHARD_SIZE {
            ShardVerdict::HeaderTooLarge(h.length)
        } else if h.length < bound {
            ShardVerdict::ParityTooShort(bound)
        } else if bound > 0 {
            ShardVerdict::Readable(bound)
        } else {
            ShardVerdict::Readable(h.length)
        },
        (None, None) => if bound == 0 {
            ShardVerdict::Unknown
        } else {
            ShardVerdict::Headerless(bound)
        },
    }
}

pub fn judge_shard(agreed: Option<u32>, header: Option<ShardHeader>, bound: u32) -> (v: ShardVerdict)
    ensures
        v == verdict(agreed, header, bound),
{
    if let Some(a) = agreed {
        if a as u64 > MAX_SHARD_SIZE {
            return ShardVerdict::PrefixTooLarge(a);
        }
        return match header {
            Some(_) => ShardVerdict::Readable(a),
            None => ShardVerdict::Headerless(a),
        };
    }
    match header {
        Some(h) => {
            if h.length as u64 > MAX_SHARD_SIZE {
                return ShardVerdict::HeaderTooLarge(h.length);
            }
            if bound > 0 && h.length < bound {
                return ShardVerdict::ParityTooShort(bound);
            }
            if bound > 0 && h.length > bound {
                ShardVerdict::Readable(bound)
            } else {
                ShardVerdict::Readable(h.length)
            }
        },
        None => {
            if bound == 0 {
                ShardVerdict::Unknown
            } else {
                ShardVerdict::Headerless(bound)
            }
        },
    }
}

/// The error of an archive that is refused for an impossible length.
pub open spec fn refusal_text(v: ShardVerdict) -> Option<Seq<char>> {
    match v {
        ShardVerdict::PrefixTooLarge(n) => Some(
            "Stripe prefix length "@ + text::decimal(n as nat) + " exceeds maximum allowed size "@
                + text::decimal(MAX_SHARD_SIZE as nat) + ""@,
        ),
        ShardVerdict::HeaderTooLarge(n) => Some(
            "Shard length "@ + text::decimal(n as nat) + " exceeds maximum allowed size "@
                + text::decimal(MAX_SHARD_SIZE as nat) + ""@,
        ),
        _ => None,
    }
}

pub(crate) fn refusal(v: ShardVerdict) -> (r: Option<EraError>)
    ensures
        r is Some <==> refusal_text(v) is Some,
        r matches Some(e) ==> (e matches EraError::ErasureError(m) && Some(m@) == refusal_text(v)),
{
    match v {
        ShardVerdict::PrefixTooLarge(n) => Some(
            EraError::ErasureError(
                text::with_numbers(
                    "Stripe prefix length ",
                    n as u64,
                    " exceeds maximum allowed size ",
                    MAX_SHARD_SIZE,
                    "",
                ),
            ),
        ),
        ShardVerdict::HeaderTooLarge(n) => Some(
            EraError::ErasureError(
                text::with_numbers(
                    "Shard length ",
                    n as u64,
                    " exceeds maximum allowed size ",
                    MAX_SHARD_SIZE,
                    "",
                ),
            ),
        ),
        _ => None,
    }
}

/// Whether bytes read for a shard are intact: the checksum is the header's, and
/// where the length comes from the header itself, so is the number of bytes.
pub open spec fn intact(header: ShardHeader, agreed: bool, read: ShardRead) -> bool {
    read.crc == header.crc && (agreed || read.data@.len() == header.length)
}

pub fn shard_is_intact(header: &ShardHeader, agreed: bool, read: &ShardRead) -> (r: bool)
    ensures
        r == intact(*header, agreed, *read),
{
    read.crc == header.crc && (agreed || read.data.len() as u64 == header.length as u64)
}

/// Reads one shard by its own header alone. `None` where the bytes are not
/// there or the header does not parse; otherwise whether the shard is damaged.
pub fn verify_read_shard(header: Option<ShardHeader>, read: Option<ShardRead>) -> (r: Result<
    Option<(ShardRead, ShardHeader, bool)>,
    EraError,
>)
    ensures
        header is None ==> r matches Ok(None),
        header matches Some(h) ==> {
            if h.length > MAX_SHARD_SIZE {
                r matches Err(EraError::ErasureError(m)) && Some(m@) == refusal_text(
                    ShardVerdict::HeaderTooLarge(h.length),
                )
            } else {
                match read {
                    None => r matches Ok(None),
                    Some(d) => r matches Ok(Some(t)) && t == (d, h, !intact(h, false, d)),
                }
            }
        },
{
    let h = match header {
        Some(h) => h,
        None => return Ok(None),
    };
    if h.length as u64 > MAX_SHARD_SIZE {
        return match refusal(ShardVerdict::HeaderTooLarge(h.length)) {
            Some(e) => Err(e),
            None => Ok(None),
        };
    }
    match read {
        Some(d) => {
            let damaged = !shard_is_intact(&h, false, &d);
            Ok(Some((d, h, damaged)))
        },
        None => Ok(None),
    }
}

/// What is known of the stripe under scan.
#[verifier::ext_equal]
pub struct StripeView {
    /// Intact shards, in order.
    pub shards: Seq<Shard>,
    /// Positions of damaged shards, in order.
    pub corrupted: Seq<usize>,
    /// Where each shard can be written back, as far as it is known.
    pub sites: Seq<Option<ShardSite>>,
    /// Lengths of the data shards, as far as they are known.
    pub data_lengths: Seq<Option<u32>>,
    /// The longest shard met.
    pub max_len: int,
    /// Whether the bytes of any shard were read.
    pub any_read: bool,
}

impl StripeView {
    pub open spec fn fresh(layout: ErasureCodeConfig) -> StripeView {
        StripeView {
            shards: Seq::empty(),
            corrupted: Seq::empty(),
            sites: Seq::new(layout.total(), |i: int| None),
            data_lengths: Seq::new(layout.data_shards as nat, |i: int| None),
            max_len: 0,
            any_read: false,
        }
    }

    /// Shard `i` is damaged.
    pub open spec fn damaged(self, i: usize) -> StripeView {
        StripeView { corrupted: self.corrupted.push(i), ..self }
    }

    /// Shard `i` can be written back at `site`.
    pub open spec fn placed(self, i: usize, site: ShardSite) -> StripeView {
        StripeView { sites: self.sites.update(i as int, Some(site)), ..self }
    }

    /// Shard `i` is `length` bytes long; `own` is what is noted for a data shard.
    pub open spec fn measured(self, i: usize, own: u32, length: u32) -> StripeView {
        StripeView {
            data_lengths: if i < self.data_lengths.len() {
                self.data_lengths.update(i as int, Some(own))
            } else {
                self.data_lengths
            },
            max_len: if length > self.max_len {
                length as int
            } else {
                self.max_len
            },
            any_read: true,
            ..self
        }
    }

    /// Shard `i` is intact and holds `data`.
    pub open spec fn kept(self, i: usize, data: Vec<u8>) -> StripeView {
        StripeView { shards: self.shards.push(Shard { index: i, data }), ..self }
    }

    /// The stripe with the agreed table taken into account.
    pub open spec fn normalized(self, lengths: Option<Seq<u32>>) -> StripeView {
        match lengths {
            Some(l) => StripeView {
                data_lengths: erasure_scan::filled_lengths(self.data_lengths, l),
                max_len: if erasure_scan::longest(l) > self.max_len {
                    erasure_scan::longest(l)
                } else {
                    self.max_len
                },
                ..self
            },
            None => self,
        }
    }

    /// Each of the first `n` shards was found either intact or damaged, once.
    pub open spec fn covers(self, n: int) -> bool {
        &&& self.shards.len() + self.corrupted.len() == n
        &&& forall|k: int| 0 <= k < self.shards.len() ==> (#[trigger] self.shards[k]).index < n
        &&& forall|k: int| 0 <= k < self.corrupted.len() ==> #[trigger] self.corrupted[k] < n
        &&& forall|k: int, l: int|
            0 <= k < l < self.shards.len() ==> (#[trigger] self.shards[k]).index < (
            #[trigger] self.shards[l]).index
        &&& forall|k: int, l: int|
            0 <= k < l < self.corrupted.len() ==> #[trigger] self.corrupted[k]
                < #[trigger] self.corrupted[l]
        &&& forall|k: int, l: int|
            0 <= k < self.shards.len() && 0 <= l < self.corrupted.len() ==> (
            #[trigger] self.shards[k]).index != #[trigger] self.corrupted[l]
    }

    pub open spec fn fits(self, layout: ErasureCodeConfig) -> bool {
        &&& self.sites.len() == layout.total()
        &&& self.data_lengths.len() == layout.data_shards
        &&& 0 <= self.max_len <= u32::MAX
    }
}

/// The stripe under scan.
#[derive(Debug)]
pub struct StripeScan {
    pub shards: Vec<Shard>,
    pub corrupted: Vec<usize>,
    pub sites: Vec<Option<ShardSite>>,
    pub data_lengths: Vec<Option<u32>>,
    pub max_len: usize,
    pub any_read: bool,
}

impl View for StripeScan {
    type V = StripeView;

    open spec fn view(&self) -> StripeView {
        StripeView {
            shards: self.shards@,
            corrupted: self.corrupted@,
            sites: self.sites@,
            data_lengths: self.data_lengths@,
            max_len: self.max_len as int,
            any_read: self.any_read,
        }
    }
}

impl StripeScan {
    pub fn new(layout: ErasureCodeConfig) -> (s: Self)
        ensures
            s@ == StripeView::fresh(layout),
    {
        let mut sites: Vec<Option<ShardSite>> = Vec::new();
        let total: usize = layout.total_shards();
        let mut i: usize = 0;
        while i < total
            invariant
                i <= total,
                sites@ == Seq::new(i as nat, |i: int| None::<ShardSite>),
            decreases total - i,
        {
            sites.push(None);
            assert(sites@ =~= Seq::new((i + 1) as nat, |i: int| None::<ShardSite>));
            i = i + 1;
        }
        let mut data_lengths: Vec<Option<u32>> = Vec::new();
        let data: usize = layout.data_shards as usize;
        let mut j: usize = 0;
        while j < data
            invariant
                j <= data,
                data_lengths@ == Seq::new(j as nat, |i: int| None::<u32>),
            decreases data - j,
        {
            data_lengths.push(None);
            assert(data_lengths@ =~= Seq::new((j + 1) as nat, |i: int| None::<u32>));
            j = j + 1;
        }
        let s = StripeScan {
            shards: Vec::new(),
            corrupted: Vec::new(),
            sites,
            data_lengths,
            max_len: 0,
            any_read: false,
        };
        assert(s@ =~= StripeView::fresh(layout));
        s
    }

    pub fn mark_damaged(&mut self, i: usize)
        ensures
            final(self)@ == old(self)@.damaged(i),
    {
        self.corrupted.push(i);
    }

    pub fn place(&mut self, i: usize, site: ShardSite)
        requires
            i < old(self)@.sites.len(),
        ensures
            final(self)@ == old(self)@.placed(i, site),
    {
        self.sites.set(i, Some(site));
    }

    pub fn measure(&mut self, i: usize, own: u32, length: u32)
        ensures
            final(self)@ == old(self)@.measured(i, own, length),
    {
        if i < self.data_lengths.len() {
            self.data_lengths.set(i, Some(own));
        }
        if length as usize > self.max_len {
            self.max_len = length as usize;
        }
        self.any_read = true;
    }

    pub fn keep(&mut self, i: usize, data: Vec<u8>)
        ensures
            final(self)@ == old(self)@.kept(i, data),
    {
        self.shards.push(Shard { index: i, data });
    }

    pub fn normalize(&mut self, lengths: &Option<Vec<u32>>)
        ensures
            final(self)@ == old(self)@.normalized(erasure_scan::lengths_view(*lengths)),
    {
        let ghost before = self@;
        let table: Option<&[u32]> = match lengths {
            Some(l) => Some(l.as_slice()),
            None => None,
        };
        normalize_data_lengths(&mut self.data_lengths, table, &mut self.max_len);
        assert(self@ =~= before.normalized(erasure_scan::lengths_view(*lengths)));
    }
}

/// Marking one more shard damaged keeps the stripe covered.
pub(crate) proof fn lemma_damaged_covers(s: StripeView, i: usize)
    requires
        s.covers(i as int),
    ensures
        s.damaged(i).covers(i + 1),
{
    let d = s.damaged(i);
    assert forall|a: int, b: int| 0 <= a < b < d.corrupted.len() implies #[trigger] d.corrupted[a]
        < #[trigger] d.corrupted[b] by {
        if b < s.corrupted.len() {
            assert(s.corrupted[a] < s.corrupted[b]);
        } else {
            assert(s.corrupted[a] < i);
        }
    }
}

/// Keeping one more shard keeps the stripe covered.
pub(crate) proof fn lemma_kept_covers(s: StripeView, i: usize, data: Vec<u8>)
    requires
        s.covers(i as int),
    ensures
        s.kept(i, data).covers(i + 1),
{
    let k = s.kept(i, data);
    assert forall|a: int, b: int| 0 <= a < b < k.shards.len() implies (#[trigger] k.shards[a]).index
        < (#[trigger] k.shards[b]).index by {
        if b < s.shards.len() {
            assert(s.shards[a].index < s.shards[b].index);
        } else {
            assert(s.shards[a].index < i);
        }
    }
}

/// The bytes that shard `idx` gets back: what coding gave, data shards cut to
/// their length.
pub open spec fn rebuilt_bytes(coded: Seq<u8>, idx: int, lengths: Seq<Option<u32>>) -> Seq<u8> {
    if idx < lengths.len() && (lengths[idx]->0) < coded.len() {
        coded.take((lengths[idx]->0) as int)
    } else {
        coded
    }
}

/// Why shard `idx` cannot be taken out of a coded stripe of `total` shards.
pub open spec fn selection_fault(idx: usize, total: int, lengths: Seq<Option<u32>>) -> Option<
    Seq<char>,
> {
    if idx >= total {
        Some("Shard index "@ + text::decimal(idx as nat) + " out of range"@)
    } else if idx < lengths.len() && lengths[idx as int] is None {
        Some("Missing original length for data shard"@)
    } else {
        None
    }
}

/// The first fault among the shards to be taken out, if there is one.
pub open spec fn first_fault(
    corrupted: Seq<usize>,
    total: int,
    lengths: Seq<Option<u32>>,
) -> Option<Seq<char>>
    decreases corrupted.len(),
{
    if corrupted.len() == 0 {
        None
    } else if first_fault(corrupted.drop_last(), total, lengths) is Some {
        first_fault(corrupted.drop_last(), total, lengths)
    } else {
        selection_fault(corrupted.last(), total, lengths)
    }
}

/// A fault in a part is the fault of the whole.
proof fn lemma_first_fault_prefix(
    corrupted: Seq<usize>,
    k: int,
    total: int,
    lengths: Seq<Option<u32>>,
)
    requires
        0 <= k <= corrupted.len(),
        first_fault(corrupted.take(k), total, lengths) is Some,
    ensures
        first_fault(corrupted, total, lengths) == first_fault(corrupted.take(k), total, lengths),
    decreases corrupted.len() - k,
{
    if k < corrupted.len() {
        assert(corrupted.take(k + 1).drop_last() =~= corrupted.take(k));
        lemma_first_fault_prefix(corrupted, k + 1, total, lengths);
    } else {
        assert(corrupted.take(k) =~= corrupted);
    }
}

/// After a shard was written back: what is read again has the checksum of what
/// was written.
pub fn check_rewritten(shard_idx: usize, expected: u32, read: u32) -> (r: Result<(), EraError>)
    ensures
        if expected == read {
            r is Ok
        } else {
            r matches Err(EraError::IntegrityError(m)) && m@
                == "Post-write CRC verification failed for repaired shard "@ + text::decimal(
                shard_idx as nat,
            ) + " (expected "@ + text::decimal(expected as nat) + ", got "@ + text::decimal(
                read as nat,
            ) + ")"@
        },
{
    if expected == read {
        return Ok(());
    }
    let mut m: String = text::with_numbers(
        "Post-write CRC verification failed for repaired shard ",
        shard_idx as u64,
        " (expected ",
        expected as u64,
        ", got ",
    );
    text::push_decimal(&mut m, read as u64);
    m.append(")");
    Err(EraError::IntegrityError(m))
}

/// Picks the damaged shards out of a freshly coded stripe.
pub fn select_repaired(
    coded: &Vec<Vec<u8>>,
    corrupted: &Vec<usize>,
    data_lengths: &Vec<Option<u32>>,
) -> (r: Result<Vec<Shard>, EraError>)
    ensures
        match first_fault(corrupted@, coded@.len() as int, data_lengths@) {
            Some(t) => r matches Err(EraError::ErasureError(m)) && m@ == t,
            None => {
                &&& r matches Ok(v)
                &&& v@.len() == corrupted@.len()
                &&& forall|k: int|
                    0 <= k < v@.len() ==> (#[trigger] v@[k]).index == corrupted@[k] && v@[k].data@
                        == rebuilt_bytes(
                        coded@[corrupted@[k] as int]@,
                        corrupted@[k] as int,
                        data_lengths@,
                    )
            },
        },
{
    let mut out: Vec<Shard> = Vec::new();
    let mut k: usize = 0;
    let ghost total = coded@.len() as int;
    while k < corrupted.len()
        invariant
            k <= corrupted.len(),
            out@.len() == k,
            total == coded@.len(),
            first_fault(corrupted@.take(k as int), total, data_lengths@) is None,
            forall|j: int|
                0 <= j < k ==> (#[trigger] out@[j]).index == corrupted@[j] && out@[j].data@
                    == rebuilt_bytes(
                    coded@[corrupted@[j] as int]@,
                    corrupted@[j] as int,
                    data_lengths@,
                ),
        decreases corrupted.len() - k,
    {
        let idx: usize = corrupted[k];
        proof {
            assert(corrupted@.take(k + 1).drop_last() =~= corrupted@.take(k as int));
            assert(corrupted@.take(k + 1).last() == idx);
            if selection_fault(idx, total, data_lengths@) is Some {
                lemma_first_fault_prefix(corrupted@, k + 1, total, data_lengths@);
            }
        }
        if idx >= coded.len() {
            return Err(
                EraError::ErasureError(
                    text::with_number("Shard index ", idx as u64, " out of range"),
                ),
            );
        }
        let mut data: Vec<u8> = copy_bytes(coded[idx].as_slice());
        if idx < data_lengths.len() {
            match data_lengths[idx] {
                Some(n) => {
                    if (n as usize) < data.len() {
                        data.truncate(n as usize);
                        assert(data@ =~= coded@[idx as int]@.take(n as int));
                    }
                },
                None => {
                    return Err(
                        EraError::ErasureError(
                            String::from_str("Missing original length for data shard"),
                        ),
                    );
                },
            }
        }
        out.push(Shard { index: idx, data });
        k = k + 1;
    }
    assert(corrupted@.take(k as int) =~= corrupted@);
    Ok(out)
}

/// The shards of a stripe by position, gaps where one is damaged.
pub fn shard_slots(shards: &Vec<Shard>, total: usize) -> (slots: Vec<Option<Vec<u8>>>)
    requires
        forall|k: int| 0 <= k < shards@.len() ==> (#[trigger] shards@[k]).index < total,
        forall|k: int, l: int|
            0 <= k < l < shards@.len() ==> (#[trigger] shards@[k]).index < (
            #[trigger] shards@[l]).index,
    ensures
        slots@.len() == total,
        forall|i: int|
            0 <= i < total ==> ((#[trigger] slots@[i]) is Some <==> exists|k: int|
                0 <= k < shards@.len() && (#[trigger] shards@[k]).index == i),
        forall|k: int|
            0 <= k < shards@.len() ==> (slots@[(#[trigger] shards@[k]).index as int] matches Some(
                d,
            ) && d@ == shards@[k].data@),
{
    let mut slots: Vec<Option<Vec<u8>>> = Vec::new();
    let mut i: usize = 0;
    let mut next: usize = 0;
    while i < total
        invariant
            i <= total,
            slots@.len() == i,
            next <= shards@.len(),
            forall|k: int| 0 <= k < next ==> (#[trigger] shards@[k]).index < i,
            forall|k: int| next <= k < shards@.len() ==> (#[trigger] shards@[k]).index >= i,
            forall|k: int| 0 <= k < shards@.len() ==> (#[trigger] shards@[k]).index < total,
            forall|k: int, l: int|
                0 <= k < l < shards@.len() ==> (#[trigger] shards@[k]).index < (
                #[trigger] shards@[l]).index,
            forall|j: int|
                0 <= j < i ==> ((#[trigger] slots@[j]) is Some <==> exists|k: int|
                    0 <= k < shards@.len() && (#[trigger] shards@[k]).index == j),
            forall|k: int|
                0 <= k < next ==> (slots@[(#[trigger] shards@[k]).index as int] matches Some(
                    d,
                ) && d@ == shards@[k].data@),
        decreases total - i,
    {
        let ghost before = slots@;
        if next < shards.len() && shards[next].index == i {
            slots.push(Some(copy_bytes(shards[next].data.as_slice())));
            assert(shards@[next as int].index == i);
            next = next + 1;
        } else {
            slots.push(None);
            assert(forall|k: int|
                0 <= k < shards@.len() ==> (#[trigger] shards@[k]).index != i);
        }
        assert(forall|j: int| 0 <= j < i ==> slots@[j] == before[j]);
        i = i + 1;
    }
    slots
}

/// The counters and messages of a repair.
#[verifier::ext_equal]
pub struct StatsView {
    pub scanned: int,
    pub with_corruption: int,
    pub found: int,
    pub repaired: int,
    pub unrecoverable: int,
    pub errors: Seq<Seq<char>>,
}

/// A stripe has damage and fewer intact shards than it has data shards.
pub open spec fn is_lost(stripe: StripeView, layout: ErasureCodeConfig) -> bool {
    stripe.corrupted.len() > 0 && stripe.shards.len() < layout.data_shards
}

/// A stripe can lose as many shards as it has parity shards: once all of its
/// shards were looked at, it is lost exactly if more are damaged.
pub proof fn law_damage_up_to_parity_is_survived(stripe: StripeView, layout: ErasureCodeConfig)
    requires
        stripe.covers(layout.total() as int),
    ensures
        is_lost(stripe, layout) <==> stripe.corrupted.len() > layout.parity_shards,
{
}

pub open spec fn lost_text(block: int, stripe: StripeView, layout: ErasureCodeConfig) -> Seq<char> {
    "Block "@ + text::decimal(block as nat) + ": only "@ + text::decimal(stripe.shards.len()) + "/"@
        + text::decimal(layout.total()) + " shards intact, need "@ + text::decimal(
        layout.data_shards as nat,
    ) + " for recovery"@
}

pub open spec fn coding_failed_text(block: int, why: Seq<char>) -> Seq<char> {
    "Block "@ + text::decimal(block as nat) + ": RS reconstruction failed: "@ + why
}

impl StatsView {
    /// What holds of the counters: no more stripes cannot be rebuilt than have
    /// damage, of which there are no more than were scanned, and each that
    /// cannot be rebuilt has its message. `open` stripes with damage are still
    /// undecided.
    pub open spec fn consistent(self, open: int) -> bool {
        &&& 0 <= self.unrecoverable
        &&& self.unrecoverable + open <= self.with_corruption
        &&& self.with_corruption <= self.scanned
        &&& self.errors.len() == self.unrecoverable
    }

    /// One more damaged shard was found.
    pub open spec fn one_damaged(self) -> StatsView {
        StatsView { found: self.found + 1, ..self }
    }

    /// A stripe was scanned to its end.
    pub open spec fn concluded(self, stripe: StripeView, layout: ErasureCodeConfig) -> StatsView {
        StatsView {
            scanned: self.scanned + 1,
            with_corruption: self.with_corruption + if stripe.corrupted.len() > 0 {
                1int
            } else {
                0
            },
            unrecoverable: self.unrecoverable + if is_lost(stripe, layout) {
                1int
            } else {
                0
            },
            errors: if is_lost(stripe, layout) {
                self.errors.push(lost_text(self.scanned, stripe, layout))
            } else {
                self.errors
            },
            ..self
        }
    }

    /// Coding failed for the stripe scanned last.
    pub open spec fn coding_failed(self, why: Seq<char>) -> StatsView {
        StatsView {
            unrecoverable: self.unrecoverable + 1,
            errors: self.errors.push(coding_failed_text(self.scanned - 1, why)),
            ..self
        }
    }
}

impl RepairStats {
    pub open spec fn counts(&self) -> StatsView {
        StatsView {
            scanned: self.blocks_scanned as int,
            with_corruption: self.blocks_with_corruption as int,
            found: self.corrupted_shards_found as int,
            repaired: self.shards_repaired as int,
            unrecoverable: self.unrecoverable_blocks as int,
            errors: messages(self.errors@),
        }
    }

    fn push_error(&mut self, m: String)
        ensures
            final(self).counts() == (StatsView {
                errors: old(self).counts().errors.push(m@),
                ..old(self).counts()
            }),
            final(self).archive_health == old(self).archive_health,
    {
        let ghost before = self.errors@;
        self.errors.push(m);
        assert(messages(self.errors@) =~= messages(before).push(m@));
    }

    /// Counts a stripe that was scanned to its end.
    pub fn conclude(&mut self, stripe: &StripeScan, layout: ErasureCodeConfig)
        requires
            old(self).room(1),
        ensures
            final(self).counts() == old(self).counts().concluded(stripe@, layout),
            final(self).archive_health == old(self).archive_health,
    {
        let ghost before = self.counts();
        let block: u64 = self.blocks_scanned;
        self.blocks_scanned = self.blocks_scanned + 1;
        if stripe.corrupted.len() > 0 {
            self.blocks_with_corruption = self.blocks_with_corruption + 1;
            if stripe.shards.len() < layout.data_shards as usize {
                self.unrecoverable_blocks = self.unrecoverable_blocks + 1;
                let mut m: String = text::with_numbers(
                    "Block ",
                    block,
                    ": only ",
                    stripe.shards.len() as u64,
                    "/",
                );
                text::push_decimal(&mut m, layout.total_shards() as u64);
                m.append(" shards intact, need ");
                text::push_decimal(&mut m, layout.data_shards as u64);
                m.append(" for recovery");
                assert(m@ == lost_text(before.scanned, stripe@, layout));
                self.push_error(m);
            }
        }
    }

    /// Notes that coding failed for the stripe scanned last.
    pub fn coding_failed(&mut self, why: &str)
        requires
            old(self).room(1),
            old(self).blocks_scanned > 0,
        ensures
            final(self).counts() == old(self).counts().coding_failed(why@),
            final(self).archive_health == old(self).archive_health,
    {
        self.unrecoverable_blocks = self.unrecoverable_blocks + 1;
        let mut m: String = text::with_number(
            "Block ",
            self.blocks_scanned - 1,
            ": RS reconstruction failed: ",
        );
        m.append(why);
        self.push_error(m);
    }
}

/// A rebuilt shard, as a value.
#[verifier::ext_equal]
pub struct RepairView {
    pub site: ShardSite,
    pub shard_idx: usize,
    pub data: Seq<u8>,
}

pub open spec fn repair_views(list: Seq<ShardRepair>) -> Seq<RepairView> {
    list.map_values(
        |r: ShardRepair| RepairView { site: r.site, shard_idx: r.shard_idx, data: r.data@ },
    )
}

/// What is written back of a coded stripe: of its first `n` damaged shards,
/// those whose place is known.
pub open spec fn repairs_of(stripe: StripeView, coded: Seq<Vec<u8>>, n: int) -> Seq<RepairView>
    decreases n,
{
    if n <= 0 {
        Seq::empty()
    } else {
        let idx = stripe.corrupted[n - 1];
        let rest = repairs_of(stripe, coded, n - 1);
        match stripe.sites[idx as int] {
            Some(site) => rest.push(
                RepairView {
                    site,
                    shard_idx: idx,
                    data: rebuilt_bytes(coded[idx as int]@, idx as int, stripe.data_lengths),
                },
            ),
            None => rest,
        }
    }
}

/// No more shards are written back than were damaged.
proof fn lemma_repairs_bounded(stripe: StripeView, coded: Seq<Vec<u8>>, n: int)
    ensures
        n >= 0 ==> repairs_of(stripe, coded, n).len() <= n,
    decreases n,
{
    if n > 0 {
        lemma_repairs_bounded(stripe, coded, n - 1);
    }
}

/// Every shard that is written back was found damaged, goes to its own place,
/// and has the bytes that coding gave, a data shard cut to its known length.
pub proof fn law_only_damaged_shards_are_written(
    stripe: StripeView,
    coded: Seq<Vec<u8>>,
    n: int,
    k: int,
)
    requires
        0 <= n <= stripe.corrupted.len(),
        0 <= k < repairs_of(stripe, coded, n).len(),
    ensures
        ({
            let w = repairs_of(stripe, coded, n)[k];
            &&& stripe.corrupted.contains(w.shard_idx)
            &&& stripe.sites[w.shard_idx as int] == Some(w.site)
            &&& w.data == rebuilt_bytes(
                coded[w.shard_idx as int]@,
                w.shard_idx as int,
                stripe.data_lengths,
            )
        }),
    decreases n,
{
    let all = repairs_of(stripe, coded, n);
    let rest = repairs_of(stripe, coded, n - 1);
    assert(stripe.corrupted.contains(stripe.corrupted[n - 1]));
    if k < rest.len() {
        law_only_damaged_shards_are_written(stripe, coded, n - 1, k);
        assert(all[k] == rest[k]);
    }
}

/// Adds the rebuilt shards of a stripe whose place is known to `repairs`.
pub(crate) fn collect_repairs(
    repairs: &mut Vec<ShardRepair>,
    stripe: &StripeScan,
    repaired: Vec<Shard>,
    Ghost(coded): Ghost<Seq<Vec<u8>>>,
) -> (count: u64)
    requires
        repaired@.len() == stripe.corrupted@.len() <= 512,
        forall|k: int|
            0 <= k < repaired@.len() ==> (#[trigger] repaired@[k]).index == stripe.corrupted@[k]
                && repaired@[k].data@ == rebuilt_bytes(
                coded[stripe.corrupted@[k] as int]@,
                stripe.corrupted@[k] as int,
                stripe.data_lengths@,
            ),
        forall|k: int|
            0 <= k < repaired@.len() ==> #[trigger] stripe.corrupted@[k] < stripe.sites@.len(),
    ensures
        repair_views(final(repairs)@) == repair_views(old(repairs)@) + repairs_of(
            stripe@,
            coded,
            stripe.corrupted@.len() as int,
        ),
        count == repairs_of(stripe@, coded, stripe.corrupted@.len() as int).len(),
        count <= stripe.corrupted@.len(),
{
    let mut count: u64 = 0;
    let mut k: usize = 0;
    let ghost start = repair_views(repairs@);
    proof {
        assert(start + Seq::<RepairView>::empty() =~= start);
    }
    while k < repaired.len()
        invariant
            k <= repaired.len(),
            repaired@.len() == stripe.corrupted@.len() <= 512,
            count <= k,
            count == repairs_of(stripe@, coded, k as int).len(),
            repair_views(repairs@) == start + repairs_of(stripe@, coded, k as int),
            forall|k: int|
                0 <= k < repaired@.len() ==> (#[trigger] repaired@[k]).index
                    == stripe.corrupted@[k] && repaired@[k].data@ == rebuilt_bytes(
                    coded[stripe.corrupted@[k] as int]@,
                    stripe.corrupted@[k] as int,
                    stripe.data_lengths@,
                ),
            forall|k: int|
                0 <= k < repaired@.len() ==> #[trigger] stripe.corrupted@[k]
                    < stripe.sites@.len(),
        decreases repaired.len() - k,
    {
        let idx: usize = repaired[k].index;
        let ghost before = repairs@;
        assert(idx == stripe.corrupted@[k as int]);
        if let Some(site) = stripe.sites[idx] {
            let data: Vec<u8> = copy_bytes(repaired[k].data.as_slice());
            repairs.push(ShardRepair { site, shard_idx: idx, data });
            count = count + 1;
            proof {
                let v = RepairView { site, shard_idx: idx, data: data@ };
                assert(repair_views(repairs@) =~= repair_views(before).push(v));
                assert(start + repairs_of(stripe@, coded, k + 1) =~= (start + repairs_of(
                    stripe@,
                    coded,
                    k as int,
                )).push(v));
            }
        }
        k = k + 1;
    }
    count
}

/// A shard is read at the length that the stripe's table gives it; without one, at the
/// parity length where that is known and at its header's length otherwise.
pub proof fn law_shards_are_looked_for_at_their_length(a: u32, h: ShardHeader, bound: u32)
    requires
        a <= 268435456,
        h.length <= 268435456,
    ensures
        verdict(Some(a), Some(h), bound) == ShardVerdict::Readable(a),
        verdict(Some(a), None, bound) == ShardVerdict::Headerless(a),
        verdict(None, Some(h), 0) == ShardVerdict::Readable(h.length),
        verdict(None, Some(h), h.length) == ShardVerdict::Readable(h.length),
        0 < bound <= h.length ==> verdict(None, Some(h), bound) == ShardVerdict::Readable(bound),
        bound > h.length ==> verdict(None, Some(h), bound) == ShardVerdict::ParityTooShort(bound),
        bound > 0 ==> verdict(None, None, bound) == ShardVerdict::Headerless(bound),
        verdict(None, None, 0) is Unknown,
{
}

/// An archive is refused exactly where the length that counts is beyond the largest: that of
/// the table where there is one, otherwise the header's.
pub proof fn law_overlong_shards_are_refused(
    agreed: Option<u32>,
    header: Option<ShardHeader>,
    bound: u32,
)
    ensures
        refusal_text(verdict(agreed, header, bound)) is Some <==> match agreed {
            Some(a) => a > 268435456,
            None => header matches Some(h) && h.length > 268435456,
        },
{
}

/// Bytes with another checksum are never intact, nor bytes of another number where the
/// header alone tells it; with both right they are.
pub proof fn law_intact_bytes(header: ShardHeader, agreed: bool, read: ShardRead)
    ensures
        read.crc != header.crc ==> !intact(header, agreed, read),
        !agreed && read.data@.len() != header.length ==> !intact(header, agreed, read),
        read.crc == header.crc && read.data@.len() == header.length ==> intact(
            header,
            agreed,
            read,
        ),
        read.crc == header.crc ==> intact(header, true, read),
{
}

/// A shard that was rebuilt is what coding gave, a data shard without the padding behind its
/// length.
pub proof fn law_padding_is_cut_off(data: Seq<u8>, padding: Seq<u8>, idx: int, lengths: Seq<Option<u32>>)
    requires
        0 <= idx,
        data.len() <= u32::MAX,
    ensures
        idx < lengths.len() && lengths[idx] == Some(data.len() as u32) ==> rebuilt_bytes(
            data + padding,
            idx,
            lengths,
        ) == data,
        idx >= lengths.len() ==> rebuilt_bytes(data, idx, lengths) == data,
{
    if idx < lengths.len() && lengths[idx] == Some(data.len() as u32) {
        if data.len() < (data + padding).len() {
            assert((data + padding).take(data.len() as int) =~= data);
        } else {
            assert(data + padding =~= data);
        }
    }
}

/// Shards can be taken out exactly where each is one of the stripe and, if it is a data
/// shard, its length is known.
pub proof fn law_when_shards_can_be_taken_out(
    corrupted: Seq<usize>,
    total: int,
    lengths: Seq<Option<u32>>,
)
    ensures
        first_fault(corrupted, total, lengths) is None <==> forall|k: int|
            0 <= k < corrupted.len() ==> (#[trigger] corrupted[k]) < total && (corrupted[k]
                < lengths.len() ==> lengths[corrupted[k] as int] is Some),
    decreases corrupted.len(),
{
    if corrupted.len() > 0 {
        let front = corrupted.drop_last();
        law_when_shards_can_be_taken_out(front, total, lengths);
        assert(corrupted.last() == corrupted[corrupted.len() - 1]);
        assert forall|k: int| 0 <= k < front.len() implies #[trigger] front[k] == corrupted[k] by {}
        if first_fault(corrupted, total, lengths) is None {
            assert forall|k: int| 0 <= k < corrupted.len() implies (#[trigger] corrupted[k]) < total
                && (corrupted[k] < lengths.len() ==> lengths[corrupted[k] as int] is Some) by {
                if k < front.len() {
                    assert(front[k] < total);
                }
            }
        }
    }
}

/// Every damaged shard whose place is known is written back there.
pub proof fn law_damaged_shards_are_written(
    stripe: StripeView,
    coded: Seq<Vec<u8>>,
    n: int,
    k: int,
)
    requires
        0 <= k < n <= stripe.corrupted.len(),
    ensures
        stripe.sites[stripe.corrupted[k] as int] matches Some(site) ==> repairs_of(
            stripe,
            coded,
            n,
        ).contains(
            RepairView {
                site,
                shard_idx: stripe.corrupted[k],
                data: rebuilt_bytes(
                    coded[stripe.corrupted[k] as int]@,
                    stripe.corrupted[k] as int,
                    stripe.data_lengths,
                ),
            },
        ),
    decreases n,
{
    if let Some(site) = stripe.sites[stripe.corrupted[k] as int] {
        let w = RepairView {
            site,
            shard_idx: stripe.corrupted[k],
            data: rebuilt_bytes(
                coded[stripe.corrupted[k] as int]@,
                stripe.corrupted[k] as int,
                stripe.data_lengths,
            ),
        };
        let all = repairs_of(stripe, coded, n);
        let rest = repairs_of(stripe, coded, n - 1);
        if k < n - 1 {
            law_damaged_shards_are_written(stripe, coded, n - 1, k);
            let j = choose|j: int| 0 <= j < rest.len() && rest[j] == w;
            assert(all[j] == w);
        } else {
            assert(all[rest.len() as int] == w);
        }
    }
}

/// A dry run writes nothing, no copy of a volume either; any other run writes all that was
/// rebuilt.
pub proof fn law_dry_run_writes_nothing(options: RepairOptions, repairs: Seq<RepairView>)
    ensures
        options.dry_run ==> options.written(repairs).len() == 0 && !options.backs_up(),
        !options.dry_run ==> options.written(repairs) == repairs,
        !options.dry_run ==> options.backs_up() == options.create_backup,
{
}

/// A backup never has the name of its volume: its extension ends otherwise.
pub proof fn law_backups_are_told_apart(route: RepairRoute, own: Option<Seq<char>>)
    ensures
        "bak"@.is_suffix_of(backup_extension_of(route, own)),
        route is Matrix && own is Some ==> backup_extension_of(route, own) == own->0 + seq![
            '.',
            'b',
            'a',
            'k',
        ],
        own matches Some(e) ==> (route is Matrix ==> backup_extension_of(route, own) != e),
{
    reveal_strlit("bak");
    reveal_strlit(".bak");
    reveal_strlit("era.bak");
    let x = backup_extension_of(route, own);
    assert(".bak"@ =~= seq!['.', 'b', 'a', 'k']);
    assert(x.subrange(x.len() - 3, x.len() as int) =~= "bak"@);
    assert("bak"@.is_suffix_of(x));
}

/// A stripe that was scanned counts once, among the damaged ones exactly where a shard is
/// damaged, and among the lost ones, with a message, exactly where it is lost.
pub proof fn law_every_stripe_counts_once(
    s: StatsView,
    stripe: StripeView,
    layout: ErasureCodeConfig,
)
    ensures
        ({
            let t = s.concluded(stripe, layout);
            &&& t.scanned == s.scanned + 1
            &&& stripe.corrupted.len() == 0 ==> t == (StatsView { scanned: s.scanned + 1, ..s })
            &&& stripe.corrupted.len() > 0 ==> t.with_corruption == s.with_corruption + 1
            &&& t.unrecoverable - s.unrecoverable == t.errors.len() - s.errors.len()
            &&& stripe.covers(layout.total() as int) && stripe.corrupted.len()
                > layout.parity_shards ==> t.unrecoverable == s.unrecoverable + 1
            &&& stripe.covers(layout.total() as int) && stripe.corrupted.len()
                <= layout.parity_shards ==> t.unrecoverable == s.unrecoverable
            &&& s.errors.is_prefix_of(t.errors)
            &&& t.found == s.found
            &&& t.repaired == s.repaired
        }),
{
}

/// Every damaged shard that is found, and nothing else, counts as found.
pub proof fn law_damage_is_counted(s: StatsView, why: Seq<char>)
    ensures
        s.one_damaged().found == s.found + 1,
        s.one_damaged() == (StatsView { found: s.found + 1, ..s }),
        s.coding_failed(why).unrecoverable == s.unrecoverable + 1,
        s.coding_failed(why).found == s.found,
        s.coding_failed(why).scanned == s.scanned,
{
}

/// Exactly an erasure-coded archive is repaired, over its volumes where it has several.
pub proof fn law_route_of_a_repair(
    erasure: Option<ErasureCodeConfig>,
    total_volumes: u16,
    r: Result<RepairRoute, EraError>,
)
    requires
        call_ensures(plan_repair, (erasure, total_volumes), r),
    ensures
        r is Ok <==> erasure is Some,
        r matches Ok(RepairRoute::Single(l)) ==> erasure == Some(l) && total_volumes <= 1,
        r matches Ok(RepairRoute::Matrix) ==> total_volumes >= 2,
{
}

/// What was written back counts exactly where it has the checksum of what was meant.
pub proof fn law_rewritten_bytes_are_checked(
    shard_idx: usize,
    expected: u32,
    read: u32,
    r: Result<(), EraError>,
)
    requires
        call_ensures(check_rewritten, (shard_idx, expected, read), r),
    ensures
        r is Ok <==> read == expected,
{
}

/// A shard that is read by its header alone is found damaged exactly where checksum or number of
/// bytes differ from what the header says.
pub proof fn law_shard_by_its_header(
    h: ShardHeader,
    d: ShardRead,
    r: Result<Option<(ShardRead, ShardHeader, bool)>, EraError>,
)
    requires
        call_ensures(verify_read_shard, (Some(h), Some(d)), r),
    ensures
        r is Err <==> h.length > 268435456,
        h.length <= 268435456 ==> (r matches Ok(Some(t)) && t.0 == d && t.1 == h && (t.2
            <==> d.crc != h.crc || d.data@.len() != h.length)),
{
}

/// An archive is fully repaired exactly where no volume is missing, no stripe is lost and every
/// damaged shard that was found was repaired.
pub proof fn law_when_a_repair_is_full(s: RepairStats)
    ensures
        s.archive_health !is Healthy ==> !s.spec_fully_repaired(),
        s.unrecoverable_blocks > 0 ==> !s.spec_fully_repaired(),
        s.corrupted_shards_found != s.shards_repaired ==> !s.spec_fully_repaired(),
        s.archive_health is Healthy && s.unrecoverable_blocks == 0 && s.corrupted_shards_found
            == s.shards_repaired ==> s.spec_fully_repaired(),
{
}

/// An incomplete archive is told with its reason: how many volumes were found where these are too
/// few, otherwise how many stripes are lost.
pub proof fn law_rating_says_why(
    h: ArchiveHealthStatus,
    expected: usize,
    found: usize,
    missing: Seq<usize>,
    unrecoverable: int,
    minimum: int,
)
    requires
        is_rating(h, expected, found, missing, unrecoverable, minimum),
        0 <= unrecoverable,
        0 <= minimum,
    ensures
        h is Incomplete <==> found < minimum || unrecoverable > 0,
        h matches ArchiveHealthStatus::Incomplete { reason, .. } ==> {
            &&& found < minimum ==> (seq!['o', 'n', 'l', 'y', ' '] + text::decimal(
                found as nat,
            )).is_prefix_of(reason@)
            &&& found >= minimum ==> text::decimal(unrecoverable as nat).is_prefix_of(reason@)
        },
{
    reveal_strlit("only ");
    reveal_strlit("");
    if let ArchiveHealthStatus::Incomplete { reason, .. } = h {
        assert("only "@ =~= seq!['o', 'n', 'l', 'y', ' ']);
        if found < minimum {
            let p = seq!['o', 'n', 'l', 'y', ' '] + text::decimal(found as nat);
            assert(reason@.take(p.len() as int) =~= p);
        } else {
            let p = text::decimal(unrecoverable as nat);
            assert(""@ + p =~= p);
        }
    }
}

/// A stripe at its start has nothing read, kept, damaged or placed; measuring a shard is reading
/// from the stripe.
pub proof fn law_fresh_stripe(layout: ErasureCodeConfig, s: StripeView, i: usize, own: u32, n: u32)
    ensures
        ({
            let f = StripeView::fresh(layout);
            &&& !f.any_read
            &&& f.shards.len() == 0 && f.corrupted.len() == 0 && f.max_len == 0
            &&& f.covers(0)
            &&& forall|k: int| 0 <= k < f.sites.len() ==> (#[trigger] f.sites[k]) is None
            &&& forall|k: int|
                0 <= k < f.data_lengths.len() ==> (#[trigger] f.data_lengths[k]) is None
        }),
        s.measured(i, own, n).any_read,
        s.measured(i, own, n).max_len >= n,
        s.measured(i, own, n).max_len >= s.max_len,
        i < s.data_lengths.len() ==> s.measured(i, own, n).data_lengths[i as int] == Some(own),
        s.measured(i, own, n).shards == s.shards,
        s.measured(i, own, n).corrupted == s.corrupted,
{
}

} // verus!
