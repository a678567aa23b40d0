//! How an archive is set up before anything is written to it.
use vstd::prelude::*;

use crate::checkpoint::{FOOTER_SIZE, HEADER_SIZE};
use crate::chunk_index::ChunkIndexBackend;
use crate::locations::{BlockLocation, LocationView, VolumeId};
use crate::lsm_manifest;
use crate::lsm_manifest::lsm_dir_name;
use crate::recovery::{RecoveryOptions, RecoveryStrategy};
use crate::secrets;
use crate::secrets::{combine_keys, random_number, wipe_key};
use crate::text;
use crate::types::{
    sub_bytes, EraError, ErasureCodeConfig, MatrixDistributionStrategy, SHARD_HEADER_SIZE,
};

verus! {

/// The size that blocks are made for where nothing else is said: 4 mebibytes.
pub const DEFAULT_BLOCK_SIZE: usize = 4194304;

/// Files below this size share blocks: 16 kibibytes.
pub const SMALL_FILE_THRESHOLD: u64 = 16384;

/// Small files are written once they come to this size together: 1 mebibyte.
pub const PACK_SIZE_THRESHOLD: u64 = 1048576;

/// Small files are written once there are this many.
pub const MAX_BUFFERED_FILES: usize = 1000;

/// Where files are cut into chunks.
#[derive(Debug, Clone, Copy, PartialEq, Eq, Structural)]
pub struct ChunkingConfig {
    pub min_size: usize,
    pub avg_size: usize,
    pub max_size: usize,
    pub normalization_level: u32,
    pub rolling_hash_seed: u64,
}

/// How shards are spread over volumes.
#[derive(Debug, Clone, Copy, PartialEq, Eq, Structural)]
pub struct DistributionConfig {
    pub strategy: MatrixDistributionStrategy,
    pub min_volumes: usize,
    pub target_volumes: usize,
}

/// How blocks are compressed.
#[derive(Debug, Clone, Copy, PartialEq, Eq, Structural)]
pub enum CompressionAlgorithm {
    Uncompressed,
    Zstd,
    LZ4,
}

#[derive(Debug, Clone, Copy, PartialEq, Eq, Structural)]
pub struct CompressionConfig {
    pub algorithm: CompressionAlgorithm,
    pub level: i32,
}

/// What deriving a key from a password costs.
#[derive(Debug, Clone, Copy, PartialEq, Eq, Structural)]
pub struct EncryptionConfig {
    pub kdf_memory_cost: u32,
    pub kdf_time_cost: u32,
}

/// How a key is derived from a password.
#[derive(Debug, Clone, Copy, PartialEq, Eq, Structural)]
pub struct KdfParams {
    pub memory_cost: u32,
    pub time_cost: u32,
    pub parallelism: u32,
}

/// What an archive's header says of how it is written.
#[derive(Debug, Clone, Copy, PartialEq, Eq, Structural)]
pub struct ArchiveConfig {
    pub chunking: ChunkingConfig,
    pub erasure: Option<ErasureCodeConfig>,
    pub distribution: DistributionConfig,
    pub compression: CompressionConfig,
    pub encryption: EncryptionConfig,
    pub max_volume_size: u64,
    /// How many bins chunks are put together in.
    pub k_factor: usize,
    /// How full a bin is when it is written, in percent.
    pub flush_threshold: usize,
}

impl ArchiveConfig {
    /// How the key of the archive is derived from a password: at the cost that
    /// the header says, in four lanes.
    pub fn kdf_params(&self) -> (p: KdfParams)
        ensures
            p == (KdfParams {
                memory_cost: self.encryption.kdf_memory_cost,
                time_cost: self.encryption.kdf_time_cost,
                parallelism: 4,
            }),
    {
        KdfParams {
            memory_cost: self.encryption.kdf_memory_cost,
            time_cost: self.encryption.kdf_time_cost,
            parallelism: 4,
        }
    }
}

/// Who can open the archive.
#[derive(Debug)]
pub enum AuthMode {
    Password(String),
    /// The holder of the private key of this certificate.
    Certificate { key_id: Vec<u8> },
    /// Who holds both.
    Hybrid { password: String, key_id: Vec<u8> },
}

impl Default for AuthMode {
    fn default() -> (m: Self)
        ensures
            m matches AuthMode::Password(p) && p@ == ""@,
    {
        AuthMode::Password(String::from_str(""))
    }
}

/// What was asked for.
#[derive(Debug)]
pub struct ArchiveWriterBuilder {
    pub output_path: String,
    pub auth_mode: AuthMode,
    pub config: ArchiveConfig,
    pub enable_cdc: bool,
    pub chunker_config: Option<ChunkingConfig>,
    pub enable_checkpoint: bool,
    pub recovery_options: RecoveryOptions,
    pub enable_erasure: bool,
    pub erasure_config: ErasureCodeConfig,
    pub volume_count: usize,
    pub enable_matrix_distribution: bool,
    pub max_volume_size: Option<u64>,
    pub index_backend: ChunkIndexBackend,
    pub target_block_size: Option<usize>,
    pub enable_small_file_packing: bool,
    pub append_existing: bool,
}

/// The name of a new directory that the index of an archive is worked on in.
pub fn create_embedded_lsm_path() -> (name: String)
    ensures
        exists|suffix: u64|
            name@ == "era_lsm_embedded_"@ + #[trigger] text::hex(lsm_manifest::be_bytes(suffix))
                + ""@,
{
    let suffix: u64 = random_number();
    lsm_dir_name("era_lsm_embedded_", suffix)
}

impl ArchiveWriterBuilder {
    /// The settings that hold unless others are made: files are cut into chunks
    /// by content, small files share blocks, one volume, no erasure coding.
    pub fn new(output_path: &str, config: ArchiveConfig) -> (b: Self)
        ensures
            b.output_path@ == output_path@,
            b.auth_mode matches AuthMode::Password(p) && p@ == ""@,
            b.config == config,
            b.enable_cdc,
            b.chunker_config is None,
            !b.enable_checkpoint,
            !b.enable_erasure,
            b.erasure_config == (ErasureCodeConfig { data_shards: 4, parity_shards: 2 }),
            b.volume_count == 1,
            !b.enable_matrix_distribution,
            b.max_volume_size is None,
            b.recovery_options == (RecoveryOptions {
                strategy: RecoveryStrategy::Resume,
                verify_existing_chunks: false,
                backup_before_recovery: false,
            }),
            b.index_backend matches ChunkIndexBackend::EmbeddedLsm { path } && exists|suffix: u64|
                path@ == "era_lsm_embedded_"@ + #[trigger] text::hex(
                    lsm_manifest::be_bytes(suffix),
                ) + ""@,
            b.target_block_size is None,
            b.enable_small_file_packing,
            !b.append_existing,
    {
        ArchiveWriterBuilder {
            output_path: String::from_str(output_path),
            auth_mode: AuthMode::default(),
            config,
            enable_cdc: true,
            chunker_config: None,
            enable_checkpoint: false,
            recovery_options: RecoveryOptions::default(),
            enable_erasure: false,
            erasure_config: ErasureCodeConfig { data_shards: 4, parity_shards: 2 },
            volume_count: 1,
            enable_matrix_distribution: false,
            max_volume_size: None,
            index_backend: ChunkIndexBackend::EmbeddedLsm { path: create_embedded_lsm_path() },
            target_block_size: None,
            enable_small_file_packing: true,
            append_existing: false,
        }
    }

    pub fn index_backend(self, backend: ChunkIndexBackend) -> (b: Self)
        ensures
            b == (ArchiveWriterBuilder { index_backend: backend, ..self }),
    {
        let mut b = self;
        b.index_backend = backend;
        b
    }

    /// Keeps the index in a directory of its own.
    pub fn with_lsm_index(self, path: String) -> (b: Self)
        ensures
            b == (ArchiveWriterBuilder { index_backend: ChunkIndexBackend::Lsm { path }, ..self }),
    {
        let mut b = self;
        b.index_backend = ChunkIndexBackend::Lsm { path };
        b
    }

    pub fn password(self, password: String) -> (b: Self)
        ensures
            b == (ArchiveWriterBuilder { auth_mode: AuthMode::Password(password), ..self }),
    {
        let mut b = self;
        b.auth_mode = AuthMode::Password(password);
        b
    }

    pub fn certificate(self, key_id: Vec<u8>) -> (b: Self)
        ensures
            b == (ArchiveWriterBuilder { auth_mode: AuthMode::Certificate { key_id }, ..self }),
    {
        let mut b = self;
        b.auth_mode = AuthMode::Certificate { key_id };
        b
    }

    pub fn auth_mode(self, mode: AuthMode) -> (b: Self)
        ensures
            b == (ArchiveWriterBuilder { auth_mode: mode, ..self }),
    {
        let mut b = self;
        b.auth_mode = mode;
        b
    }

    /// A configuration replaces chunk sizes that were set before.
    pub fn config(self, config: ArchiveConfig) -> (b: Self)
        ensures
            b == (ArchiveWriterBuilder { config, chunker_config: None, ..self }),
    {
        let mut b = self;
        b.config = config;
        b.chunker_config = None;
        b
    }

    pub fn enable_cdc(self, enable: bool) -> (b: Self)
        ensures
            b == (ArchiveWriterBuilder { enable_cdc: enable, ..self }),
    {
        let mut b = self;
        b.enable_cdc = enable;
        b
    }

    /// Chunk sizes are also noted in the archive's header.
    pub fn chunker_config(self, config: ChunkingConfig) -> (b: Self)
        ensures
            b == (ArchiveWriterBuilder {
                config: (ArchiveConfig { chunking: config, ..self.config }),
                chunker_config: Some(config),
                enable_cdc: true,
                ..self
            }),
    {
        let mut b = self;
        b.config.chunking = config;
        b.chunker_config = Some(config);
        b.enable_cdc = true;
        b
    }

    pub fn enable_checkpoint(self, enable: bool) -> (b: Self)
        ensures
            b == (ArchiveWriterBuilder { enable_checkpoint: enable, ..self }),
    {
        let mut b = self;
        b.enable_checkpoint = enable;
        b
    }

    /// Recovery options bring checkpoints with them.
    pub fn recovery_options(self, options: RecoveryOptions) -> (b: Self)
        ensures
            b == (ArchiveWriterBuilder {
                recovery_options: options,
                enable_checkpoint: true,
                ..self
            }),
    {
        let mut b = self;
        b.recovery_options = options;
        b.enable_checkpoint = true;
        b
    }

    pub fn enable_erasure(self, enable: bool) -> (b: Self)
        ensures
            b == (ArchiveWriterBuilder { enable_erasure: enable, ..self }),
    {
        let mut b = self;
        b.enable_erasure = enable;
        b
    }

    /// A layout brings erasure coding with it.
    pub fn erasure_config(self, config: ErasureCodeConfig) -> (b: Self)
        ensures
            b == (ArchiveWriterBuilder { erasure_config: config, enable_erasure: true, ..self }),
    {
        let mut b = self;
        b.erasure_config = config;
        b.enable_erasure = true;
        b
    }

    /// There is at least one volume.
    pub fn volume_count(self, count: usize) -> (b: Self)
        ensures
            b == (ArchiveWriterBuilder {
                volume_count: if count == 0 {
                    1
                } else {
                    count
                },
                ..self
            }),
    {
        let mut b = self;
        b.volume_count = if count == 0 {
            1
        } else {
            count
        };
        b
    }

    /// Spreading shards over volumes brings erasure coding with it.
    pub fn enable_matrix_distribution(self, enable: bool) -> (b: Self)
        ensures
            b == (ArchiveWriterBuilder {
                enable_matrix_distribution: enable,
                enable_erasure: enable || self.enable_erasure,
                ..self
            }),
    {
        let mut b = self;
        b.enable_matrix_distribution = enable;
        if enable {
            b.enable_erasure = true;
        }
        b
    }

    pub fn max_volume_size(self, size: u64) -> (b: Self)
        ensures
            b == (ArchiveWriterBuilder { max_volume_size: Some(size), ..self }),
    {
        let mut b = self;
        b.max_volume_size = Some(size);
        b
    }

    pub fn target_block_size(self, size: usize) -> (b: Self)
        ensures
            b == (ArchiveWriterBuilder { target_block_size: Some(size), ..self }),
    {
        let mut b = self;
        b.target_block_size = Some(size);
        b
    }

    pub fn enable_small_file_packing(self, enable: bool) -> (b: Self)
        ensures
            b == (ArchiveWriterBuilder { enable_small_file_packing: enable, ..self }),
    {
        let mut b = self;
        b.enable_small_file_packing = enable;
        b
    }

    pub fn append_existing(self, enable: bool) -> (b: Self)
        ensures
            b == (ArchiveWriterBuilder { append_existing: enable, ..self }),
    {
        let mut b = self;
        b.append_existing = enable;
        b
    }

    /// Whether an archive that is there already has to be opened first. That
    /// takes a password.
    pub fn opens_existing(&self, output_exists: bool) -> (r: Result<bool, EraError>)
        ensures
            if self.append_existing && output_exists && !(self.auth_mode is Password) {
                r matches Err(EraError::InvalidFormat(m)) && m@
                    == "Append mode requires password authentication"@
            } else {
                r == Ok::<bool, EraError>(self.append_existing && output_exists)
            },
    {
        if self.append_existing && output_exists {
            return match &self.auth_mode {
                AuthMode::Password(_) => Ok(true),
                _ => Err(
                    EraError::InvalidFormat(
                        String::from_str("Append mode requires password authentication"),
                    ),
                ),
            };
        }
        Ok(false)
    }

    /// Only an archive with a password can be appended to.
    pub fn check_auth(&self) -> (r: Result<(), EraError>)
        ensures
            match self.auth_mode {
                AuthMode::Certificate { .. } if self.append_existing => r matches Err(
                    EraError::InvalidFormat(m),
                ) && m@ == "Append mode is not supported for certificate-only archives"@,
                AuthMode::Hybrid { .. } if self.append_existing => r matches Err(
                    EraError::InvalidFormat(m),
                ) && m@ == "Append mode is not supported for hybrid archives"@,
                _ => r is Ok,
            },
    {
        if self.append_existing {
            match &self.auth_mode {
                AuthMode::Certificate { .. } => {
                    return Err(
                        EraError::InvalidFormat(
                            String::from_str(
                                "Append mode is not supported for certificate-only archives",
                            ),
                        ),
                    );
                },
                AuthMode::Hybrid { .. } => {
                    return Err(
                        EraError::InvalidFormat(
                            String::from_str("Append mode is not supported for hybrid archives"),
                        ),
                    );
                },
                AuthMode::Password(_) => {},
            }
        }
        Ok(())
    }

    /// The configuration that the archive starts from: that of an archive that
    /// is there already, or the given one, with the layout where erasure coding
    /// is on.
    pub open spec fn start_config(&self, existing: Option<ExistingArchive>) -> ArchiveConfig {
        let base = match existing {
            Some(e) => e.config,
            None => self.config,
        };
        if !self.append_existing && self.enable_erasure {
            ArchiveConfig { erasure: Some(self.erasure_config), ..base }
        } else {
            base
        }
    }

    /// Whether the archive is erasure-coded. An archive that is appended to
    /// stays as it is.
    pub open spec fn is_coded(&self, existing: Option<ExistingArchive>) -> bool {
        if self.append_existing {
            self.start_config(existing).erasure is Some
        } else {
            self.enable_erasure
        }
    }

    /// Whether shards are spread over volumes.
    pub open spec fn is_spread(&self, existing: Option<ExistingArchive>) -> bool {
        if self.append_existing {
            self.start_config(existing).distribution.strategy
                == MatrixDistributionStrategy::RotatingOffset
        } else {
            self.enable_matrix_distribution
        }
    }

    /// How many volumes were asked for.
    pub open spec fn asked_volumes(&self, existing: Option<ExistingArchive>) -> int {
        if self.append_existing {
            match existing {
                Some(e) => if e.total_volumes == 0 {
                    1
                } else {
                    e.total_volumes as int
                },
                None => 1,
            }
        } else {
            self.volume_count as int
        }
    }

    /// How the volumes of the archive are laid out.
    pub open spec fn layout_of(&self, existing: Option<ExistingArchive>) -> LayoutPlan {
        let start = self.start_config(existing);
        let spread = self.is_spread(existing);
        let coded = self.is_coded(existing);
        let asked = self.asked_volumes(existing);
        LayoutPlan {
            config: ArchiveConfig {
                distribution: if spread && coded {
                    DistributionConfig {
                        strategy: MatrixDistributionStrategy::RotatingOffset,
                        min_volumes: least_volumes(self.erasure_config) as usize,
                        target_volumes: self.erasure_config.total() as usize,
                    }
                } else if spread {
                    DistributionConfig {
                        strategy: MatrixDistributionStrategy::RotatingOffset,
                        ..start.distribution
                    }
                } else {
                    DistributionConfig {
                        strategy: MatrixDistributionStrategy::Striped,
                        ..start.distribution
                    }
                },
                ..start
            },
            enable_erasure: coded,
            enable_matrix_distribution: spread,
            volume_count: (if spread && coded {
                spread_volumes(self.erasure_config, asked)
            } else {
                asked
            }) as usize,
            enable_cdc: self.append_existing || self.enable_cdc,
            chunker_override: if self.append_existing {
                None
            } else {
                self.chunker_config
            },
            max_volume_size: if self.append_existing {
                Some(start.max_volume_size)
            } else {
                self.max_volume_size
            },
        }
    }

    /// Lays the volumes of the archive out. `existing` is the archive that is
    /// there already, where it was opened.
    pub fn plan_layout(&self, existing: Option<&ExistingArchive>) -> (p: LayoutPlan)
        requires
            existing is Some ==> self.append_existing,
            self.is_spread(deref_opt(existing)) && self.is_coded(deref_opt(existing))
                ==> self.erasure_config.total() <= 255,
        ensures
            p == self.layout_of(deref_opt(existing)),
            !self.append_existing ==> p.max_volume_size == self.max_volume_size && p.enable_erasure
                == self.enable_erasure && p.enable_matrix_distribution
                == self.enable_matrix_distribution && p.enable_cdc == self.enable_cdc
                && p.chunker_override == self.chunker_config,
    {
        let mut config: ArchiveConfig = match existing {
            Some(e) => e.config,
            None => self.config,
        };
        let mut coded = self.enable_erasure;
        let mut spread = self.enable_matrix_distribution;
        let mut volumes: usize = self.volume_count;
        let mut enable_cdc = self.enable_cdc;
        let mut chunker_override = self.chunker_config;
        let mut max_volume_size = self.max_volume_size;
        if !self.append_existing && coded {
            config.erasure = Some(self.erasure_config);
        }
        if self.append_existing {
            coded = config.erasure.is_some();
            spread = config.distribution.strategy == MatrixDistributionStrategy::RotatingOffset;
            volumes = match existing {
                Some(e) => if e.total_volumes == 0 {
                    1
                } else {
                    e.total_volumes as usize
                },
                None => 1,
            };
            enable_cdc = true;
            chunker_override = None;
            max_volume_size = Some(config.max_volume_size);
        }
        if spread {
            config.distribution.strategy = MatrixDistributionStrategy::RotatingOffset;
            if coded {
                config.distribution.min_volumes = min_viable(&self.erasure_config);
                config.distribution.target_volumes = self.erasure_config.total_shards();
            }
        } else {
            config.distribution.strategy = MatrixDistributionStrategy::Striped;
        }
        let volume_count: usize = if spread && coded {
            resolve_volume_count(&self.erasure_config, volumes)
        } else {
            volumes
        };
        LayoutPlan {
            config,
            enable_erasure: coded,
            enable_matrix_distribution: spread,
            volume_count,
            enable_cdc,
            chunker_override,
            max_volume_size,
        }
    }

    /// Appending needs an archive that is not erasure-coded and has a footer.
    pub fn check_append(&self, layout: &LayoutPlan, existing: Option<&ExistingArchive>) -> (r:
        Result<(), EraError>)
        ensures
            if self.append_existing && layout.enable_erasure {
                r matches Err(EraError::InvalidFormat(m)) && m@
                    == "Append mode is not supported for erasure-coded archives"@
            } else if self.append_existing && existing is None {
                r matches Err(EraError::CorruptedHeader(m)) && m@ == "Missing footer"@
            } else {
                r is Ok
            },
    {
        if self.append_existing {
            if layout.enable_erasure {
                return Err(
                    EraError::InvalidFormat(
                        String::from_str(
                            "Append mode is not supported for erasure-coded archives",
                        ),
                    ),
                );
            }
            if existing.is_none() {
                return Err(EraError::CorruptedHeader(String::from_str("Missing footer")));
            }
        }
        Ok(())
    }

    /// The sizes that files are cut into chunks by, none where they are not cut.
    pub fn plan_chunker(&self, layout: &LayoutPlan) -> (r: Result<Option<ChunkingConfig>, EraError>)
        ensures
            if !layout.enable_cdc {
                r == Ok::<Option<ChunkingConfig>, EraError>(None)
            } else {
                match layout.chunker_override {
                    Some(c) => r == Ok::<Option<ChunkingConfig>, EraError>(Some(c)),
                    None => if sizes_rise(layout.config.chunking) {
                        r == Ok::<Option<ChunkingConfig>, EraError>(Some(layout.config.chunking))
                    } else {
                        r matches Err(EraError::InvalidFormat(m)) && m@
                            == "chunking sizes must satisfy min <= avg <= max"@
                    },
                }
            },
    {
        if !layout.enable_cdc {
            return Ok(None);
        }
        match layout.chunker_override {
            Some(c) => Ok(Some(c)),
            None => match chunker_config_from_archive(&layout.config) {
                Ok(c) => Ok(Some(c)),
                Err(e) => Err(e),
            },
        }
    }

    /// What is done about checkpoints. One that is there stops a writer that
    /// was told to stop.
    pub fn plan_checkpoint(&self, checkpoint_exists: bool) -> (r: Result<CheckpointPlan, EraError>)
        ensures
            if !self.enable_checkpoint {
                r == Ok::<CheckpointPlan, EraError>(CheckpointPlan::Without)
            } else {
                match self.recovery_options.strategy {
                    RecoveryStrategy::StartFresh => r == Ok::<CheckpointPlan, EraError>(
                        CheckpointPlan::Fresh { delete_old: checkpoint_exists },
                    ),
                    RecoveryStrategy::Resume => r == Ok::<CheckpointPlan, EraError>(
                        CheckpointPlan::LoadOrCreate,
                    ),
                    RecoveryStrategy::Abort => if checkpoint_exists {
                        r matches Err(EraError::CheckpointError(m)) && m@
                            == "Checkpoint exists. Use Resume strategy to continue or StartFresh to discard."@
                    } else {
                        r == Ok::<CheckpointPlan, EraError>(
                            CheckpointPlan::Fresh { delete_old: false },
                        )
                    },
                }
            },
    {
        if !self.enable_checkpoint {
            return Ok(CheckpointPlan::Without);
        }
        match self.recovery_options.strategy {
            RecoveryStrategy::StartFresh => Ok(
                CheckpointPlan::Fresh { delete_old: checkpoint_exists },
            ),
            RecoveryStrategy::Resume => Ok(CheckpointPlan::LoadOrCreate),
            RecoveryStrategy::Abort => {
                if checkpoint_exists {
                    return Err(
                        EraError::CheckpointError(
                            String::from_str(
                                "Checkpoint exists. Use Resume strategy to continue or StartFresh to discard.",
                            ),
                        ),
                    );
                }
                Ok(CheckpointPlan::Fresh { delete_old: false })
            },
        }
    }

    /// The block size that was asked for.
    pub open spec fn asked_block_size(&self, layout: LayoutPlan, chunker: Option<ChunkingConfig>) -> usize {
        match self.target_block_size {
            Some(t) => t,
            None => if layout.enable_cdc && layout.enable_erasure && chunker is Some {
                chunker->0.max_size
            } else {
                DEFAULT_BLOCK_SIZE
            },
        }
    }

    /// The size that blocks are made for: what was asked for, as far as a block
    /// fits into a volume together with what stands around it.
    pub fn plan_block_size(&self, layout: &LayoutPlan, chunker: &Option<ChunkingConfig>) -> (n:
        usize)
        ensures
            ({
                let asked = self.asked_block_size(*layout, *chunker);
                let reserved = reserved_bytes(self.erasure_config);
                n == if layout.enable_erasure && layout.max_volume_size is Some
                    && layout.max_volume_size->0 > reserved && layout.max_volume_size->0 - reserved
                    < asked {
                    layout.max_volume_size->0 - reserved
                } else {
                    asked as int
                }
            }),
    {
        let asked: usize = match self.target_block_size {
            Some(t) => t,
            None => match chunker {
                Some(c) => if layout.enable_cdc && layout.enable_erasure {
                    c.max_size
                } else {
                    DEFAULT_BLOCK_SIZE
                },
                None => DEFAULT_BLOCK_SIZE,
            },
        };
        if let Some(max) = layout.max_volume_size {
            if layout.enable_erasure {
                let reserved: u64 = FOOTER_SIZE + HEADER_SIZE + SHARD_HEADER_SIZE + 4 * (
                self.erasure_config.data_shards as u64);
                if max > reserved {
                    let room: u64 = max - reserved;
                    if room < asked as u64 {
                        return room as usize;
                    }
                }
            }
        }
        asked
    }

    /// Below which size files wait, at which size they are written together, and
    /// how many may wait.
    pub fn small_file_limits(&self) -> (l: (u64, u64, usize))
        ensures
            l == (if self.enable_small_file_packing {
                (SMALL_FILE_THRESHOLD, PACK_SIZE_THRESHOLD, MAX_BUFFERED_FILES)
            } else {
                (0u64, 0u64, MAX_BUFFERED_FILES)
            }),
    {
        if self.enable_small_file_packing {
            (SMALL_FILE_THRESHOLD, PACK_SIZE_THRESHOLD, MAX_BUFFERED_FILES)
        } else {
            (0, 0, MAX_BUFFERED_FILES)
        }
    }
}

impl ArchiveWriterBuilder {
    /// The block with the stored index that is restored before writing: that of
    /// an archive that is there already and names one, where the index is kept
    /// in the archive.
    pub fn index_to_restore(&self, output_exists: bool, stored: Option<IndexPlace>) -> (r: Option<
        BlockLocation,
    >)
        ensures
            r is Some <==> self.index_backend is EmbeddedLsm && output_exists && stored is Some,
            r matches Some(l) ==> l@ == (LocationView {
                volume_id: (stored->0).volume_id,
                slot_index: (stored->0).block_id,
                physical_offset: (stored->0).offset,
                encrypted_size: (stored->0).size,
                erasure_info: None,
                shard_offsets: None,
                shard_volumes: None,
            }),
    {
        match (&self.index_backend, stored) {
            (ChunkIndexBackend::EmbeddedLsm { .. }, Some(p)) => {
                if !output_exists {
                    return None;
                }
                Some(BlockLocation::single(p.volume_id, p.block_id, p.offset, p.size))
            },
            _ => None,
        }
    }

    /// The number of the first block that is written: after those that an
    /// archive holds already, where it is appended to.
    pub fn first_block_id(&self, existing_blocks: u64) -> (n: u64)
        ensures
            n == if self.append_existing {
                existing_blocks
            } else {
                0
            },
    {
        if self.append_existing {
            existing_blocks
        } else {
            0
        }
    }
}

/// Where a volume's footer says that the stored index lies.
#[derive(Debug, Clone, Copy, PartialEq, Eq, Structural)]
pub struct IndexPlace {
    pub volume_id: VolumeId,
    pub block_id: u32,
    pub offset: u64,
    pub size: u32,
}

/// The bytes of a stored index in its block: those of the block's first chunk,
/// nothing where there is none or it does not lie in the block.
pub fn index_bytes(chunks: &[(u32, u32)], data: &[u8]) -> (r: Option<Vec<u8>>)
    ensures
        r is Some <==> chunks@.len() > 0 && chunks@[0].0 + chunks@[0].1 <= data@.len(),
        r matches Some(b) ==> b@ == data@.subrange(
            chunks@[0].0 as int,
            chunks@[0].0 + chunks@[0].1,
        ),
{
    if chunks.len() == 0 {
        return None;
    }
    let start: u64 = chunks[0].0 as u64;
    let end: u64 = start + chunks[0].1 as u64;
    if end > data.len() as u64 {
        return None;
    }
    Some(sub_bytes(data, start as usize, end as usize))
}

/// An archive that is appended to.
#[derive(Debug, Clone, Copy, PartialEq, Eq, Structural)]
pub struct ExistingArchive {
    pub config: ArchiveConfig,
    pub total_volumes: u16,
}

/// What a reference refers to.
pub open spec fn deref_opt(e: Option<&ExistingArchive>) -> Option<ExistingArchive> {
    match e {
        Some(x) => Some(*x),
        None => None,
    }
}

/// How the volumes of an archive are laid out.
#[derive(Debug, Clone, Copy, PartialEq, Eq, Structural)]
pub struct LayoutPlan {
    /// What the archive's header says.
    pub config: ArchiveConfig,
    pub enable_erasure: bool,
    pub enable_matrix_distribution: bool,
    pub volume_count: usize,
    pub enable_cdc: bool,
    pub chunker_override: Option<ChunkingConfig>,
    pub max_volume_size: Option<u64>,
}

/// What is done about checkpoints.
#[derive(Debug, Clone, Copy, PartialEq, Eq, Structural)]
pub enum CheckpointPlan {
    Without,
    Fresh { delete_old: bool },
    LoadOrCreate,
}

/// An archive that is appended to has a footer.
pub fn require_footer(has_footer: bool) -> (r: Result<(), EraError>)
    ensures
        r is Ok <==> has_footer,
        r matches Err(e) ==> (e matches EraError::CorruptedHeader(m) && m@ == "Missing footer"@),
{
    if !has_footer {
        return Err(EraError::CorruptedHeader(String::from_str("Missing footer")));
    }
    Ok(())
}

/// An archive that is appended to is opened by the same password.
pub fn require_password(fits: bool) -> (r: Result<(), EraError>)
    ensures
        r is Ok <==> fits,
        r matches Err(e) ==> (e matches EraError::InvalidKey(m) && m@
            == "Incorrect password for existing archive"@),
{
    if !fits {
        return Err(
            EraError::InvalidKey(String::from_str("Incorrect password for existing archive")),
        );
    }
    Ok(())
}

/// The sizes of chunks can be used.
pub open spec fn sizes_rise(c: ChunkingConfig) -> bool {
    c.min_size <= c.avg_size <= c.max_size
}

/// The chunk sizes of an archive's header.
pub fn chunker_config_from_archive(config: &ArchiveConfig) -> (r: Result<ChunkingConfig, EraError>)
    ensures
        if sizes_rise(config.chunking) {
            r == Ok::<ChunkingConfig, EraError>(config.chunking)
        } else {
            r matches Err(EraError::InvalidFormat(m)) && m@
                == "chunking sizes must satisfy min <= avg <= max"@
        },
{
    let c = config.chunking;
    if c.min_size > c.avg_size || c.avg_size > c.max_size {
        return Err(
            EraError::InvalidFormat(
                String::from_str("chunking sizes must satisfy min <= avg <= max"),
            ),
        );
    }
    Ok(c)
}

/// The fewest volumes that shards are spread over: one more than parity shards,
/// and at least two.
pub open spec fn least_volumes(e: ErasureCodeConfig) -> int {
    if e.parity_shards < 1 {
        2
    } else {
        e.parity_shards + 1
    }
}

fn min_viable(e: &ErasureCodeConfig) -> (n: usize)
    ensures
        n == least_volumes(*e),
{
    let n: usize = e.parity_shards as usize + 1;
    if n < 2 {
        2
    } else {
        n
    }
}

/// Over how many volumes shards are spread where `asked` were asked for: one
/// volume for each shard where nothing was asked for, otherwise as asked, but
/// not below the fewest.
pub open spec fn spread_volumes(e: ErasureCodeConfig, asked: int) -> int {
    if asked <= 1 {
        e.total() as int
    } else if asked < e.total() && asked < least_volumes(e) {
        least_volumes(e)
    } else {
        asked
    }
}

/// Over how many volumes shards are spread.
pub fn resolve_volume_count(e: &ErasureCodeConfig, asked: usize) -> (n: usize)
    ensures
        n == spread_volumes(*e, asked as int),
{
    let recommended: usize = e.total_shards();
    if asked <= 1 {
        recommended
    } else if asked < recommended {
        let least: usize = min_viable(e);
        if asked >= least {
            asked
        } else {
            least
        }
    } else {
        asked
    }
}

/// With no number of volumes asked for, every shard of a stripe has a volume of
/// its own; whatever is asked for, there are more volumes than parity shards,
/// unless the stripe itself has fewer shards.
pub proof fn law_enough_volumes(e: ErasureCodeConfig, asked: int)
    requires
        e.data_shards > 0,
        e.parity_shards > 0,
    ensures
        asked <= 1 ==> spread_volumes(e, asked) == e.total(),
        spread_volumes(e, asked) > e.parity_shards,
        asked > 1 ==> spread_volumes(e, asked) >= asked,
{
}

/// Bytes of a volume that no block of a stripe can take: footer, header, the
/// shard's header and the stripe's length table.
pub open spec fn reserved_bytes(e: ErasureCodeConfig) -> int {
    FOOTER_SIZE + HEADER_SIZE + SHARD_HEADER_SIZE + 4 * e.data_shards
}

/// The key of an archive that a certificate and a password open together. The
/// two keys are wiped.
pub fn hybrid_key(master_key: &mut [u8; 32], password_key: &mut [u8; 32]) -> (key: [u8; 32])
    ensures
        key@ == secrets::combined(old(master_key)@, old(password_key)@),
        final(master_key)@ == Seq::new(32, |i: int| 0u8),
        final(password_key)@ == Seq::new(32, |i: int| 0u8),
{
    let key = combine_keys(master_key, password_key);
    wipe_key(master_key);
    wipe_key(password_key);
    key
}

/// Two configurations that differ at most in erasure coding and in how shards are
/// spread.
pub open spec fn same_content_settings(a: ArchiveConfig, b: ArchiveConfig) -> bool {
    &&& a.chunking == b.chunking
    &&& a.compression == b.compression
    &&& a.encryption == b.encryption
    &&& a.max_volume_size == b.max_volume_size
    &&& a.k_factor == b.k_factor
    &&& a.flush_threshold == b.flush_threshold
}

/// A new archive is laid out as its builder was told: the size limit of volumes,
/// erasure coding and its layout, the spreading of shards and the chunk sizes are
/// those that were set, and the rest of the configuration is the builder's.
/// Volumes are as many as asked for, unless shards of coded stripes are spread
/// over them: then there are more than a stripe has parity shards, none fewer
/// than asked for, and one for each shard where nothing was asked for.
pub proof fn law_new_archive_follows_its_builder(b: ArchiveWriterBuilder)
    requires
        !b.append_existing,
        b.erasure_config.data_shards > 0,
        b.enable_matrix_distribution && b.enable_erasure ==> b.erasure_config.total() <= 255,
    ensures
        ({
            let p = b.layout_of(None);
            let both = b.enable_erasure && b.enable_matrix_distribution;
            let total = b.erasure_config.data_shards + b.erasure_config.parity_shards;
            &&& p.max_volume_size == b.max_volume_size
            &&& p.enable_erasure == b.enable_erasure
            &&& p.enable_matrix_distribution == b.enable_matrix_distribution
            &&& p.enable_cdc == b.enable_cdc
            &&& p.chunker_override == b.chunker_config
            &&& same_content_settings(p.config, b.config)
            &&& b.enable_erasure ==> p.config.erasure == Some(b.erasure_config)
            &&& !b.enable_erasure ==> p.config.erasure == b.config.erasure
            &&& p.config.distribution.strategy == MatrixDistributionStrategy::RotatingOffset
                <==> b.enable_matrix_distribution
            &&& !both ==> p.volume_count == b.volume_count && p.config.distribution.min_volumes
                == b.config.distribution.min_volumes && p.config.distribution.target_volumes
                == b.config.distribution.target_volumes
            &&& both ==> p.config.distribution.target_volumes == total
            &&& both ==> p.config.distribution.min_volumes > b.erasure_config.parity_shards
                && p.config.distribution.min_volumes >= 2
            &&& both && b.volume_count <= 1 ==> p.volume_count == total
            &&& both && b.volume_count > 1 ==> p.volume_count >= b.volume_count
            &&& both && b.volume_count >= total && b.volume_count > 1 ==> p.volume_count
                == b.volume_count
            &&& both && b.volume_count > b.erasure_config.parity_shards && b.volume_count > 1
                ==> p.volume_count == b.volume_count
            &&& both ==> p.volume_count > b.erasure_config.parity_shards
        }),
{
}

/// An archive that is appended to stays what it is: configuration, erasure
/// coding, spreading and number of volumes are those of the archive, whatever the
/// builder was told, and files are cut into chunks as before.
pub proof fn law_appended_archive_stays_what_it_is(b: ArchiveWriterBuilder, e: ExistingArchive)
    requires
        b.append_existing,
        e.config.erasure is None,
    ensures
        ({
            let p = b.layout_of(Some(e));
            &&& same_content_settings(p.config, e.config)
            &&& p.config.erasure == e.config.erasure
            &&& !p.enable_erasure
            &&& p.enable_matrix_distribution == (e.config.distribution.strategy
                == MatrixDistributionStrategy::RotatingOffset)
            &&& p.config.distribution.min_volumes == e.config.distribution.min_volumes
            &&& p.config.distribution.target_volumes == e.config.distribution.target_volumes
            &&& e.total_volumes > 0 ==> p.volume_count == e.total_volumes
            &&& e.total_volumes == 0 ==> p.volume_count == 1
            &&& p.enable_cdc
            &&& p.chunker_override is None
            &&& p.max_volume_size == Some(e.config.max_volume_size)
        }),
{
}

/// Appending to an erasure-coded archive shows in the layout, so that it can be
/// refused.
pub proof fn law_appended_coding_is_seen(b: ArchiveWriterBuilder, e: ExistingArchive)
    requires
        b.append_existing,
    ensures
        b.layout_of(Some(e)).enable_erasure == (e.config.erasure is Some),
{
}

/// The limit on volumes decides nothing else: layouts of two builders that differ
/// in it alone differ in it alone.
pub proof fn law_volume_limit_is_independent(
    a: ArchiveWriterBuilder,
    b: ArchiveWriterBuilder,
    existing: Option<ExistingArchive>,
)
    requires
        b == (ArchiveWriterBuilder { max_volume_size: b.max_volume_size, ..a }),
    ensures
        b.layout_of(existing) == (LayoutPlan {
            max_volume_size: b.layout_of(existing).max_volume_size,
            ..a.layout_of(existing)
        }),
        !a.append_existing && a.max_volume_size != b.max_volume_size ==> a.layout_of(
            existing,
        ).max_volume_size != b.layout_of(existing).max_volume_size,
{
}

/// The block size that is asked for: the one that was set; otherwise the longest
/// chunk where chunks of coded archives are cut by content, and four mebibytes in
/// any other archive.
pub proof fn law_asked_block_size(
    b: ArchiveWriterBuilder,
    layout: LayoutPlan,
    chunker: Option<ChunkingConfig>,
)
    ensures
        b.target_block_size matches Some(t) ==> b.asked_block_size(layout, chunker) == t,
        b.target_block_size is None && (!layout.enable_erasure || !layout.enable_cdc
            || chunker is None) ==> b.asked_block_size(layout, chunker) == 4 * 1024 * 1024,
        b.target_block_size is None && layout.enable_erasure && layout.enable_cdc
            && chunker is Some ==> b.asked_block_size(layout, chunker) == chunker->0.max_size,
{
}

/// What no block can take grows with the length table, four bytes for each data
/// shard, and leaves room for header and footer.
pub proof fn law_reserved_bytes(e: ErasureCodeConfig, f: ErasureCodeConfig)
    ensures
        reserved_bytes(e) - reserved_bytes(f) == 4 * (e.data_shards - f.data_shards),
        reserved_bytes(e) >= FOOTER_SIZE + HEADER_SIZE + SHARD_HEADER_SIZE,
{
}

/// Chunk sizes can be used exactly where they rise.
pub proof fn law_chunk_sizes_rise(c: ChunkingConfig)
    ensures
        sizes_rise(c) <==> c.min_size <= c.avg_size && c.avg_size <= c.max_size,
{
}

/// Progress that was noted is only thrown away where a fresh start was asked for. A writer that
/// was told to stop does so exactly where there is some, and one without checkpoints takes no
/// notice.
pub proof fn law_noted_progress_is_not_lost(
    b: ArchiveWriterBuilder,
    exists_already: bool,
    r: Result<CheckpointPlan, EraError>,
)
    requires
        call_ensures(ArchiveWriterBuilder::plan_checkpoint, (&b, exists_already), r),
    ensures
        r is Err <==> b.enable_checkpoint && exists_already && b.recovery_options.strategy
            == RecoveryStrategy::Abort,
        r matches Ok(CheckpointPlan::Fresh { delete_old }) ==> (delete_old ==> exists_already
            && b.recovery_options.strategy == RecoveryStrategy::StartFresh),
        b.enable_checkpoint && exists_already && b.recovery_options.strategy
            == RecoveryStrategy::StartFresh ==> r == Ok::<CheckpointPlan, EraError>(
            CheckpointPlan::Fresh { delete_old: true },
        ),
        b.enable_checkpoint && b.recovery_options.strategy == RecoveryStrategy::Resume ==> r == Ok::<
            CheckpointPlan,
            EraError,
        >(CheckpointPlan::LoadOrCreate),
        r matches Ok(CheckpointPlan::Without) <==> !b.enable_checkpoint,
{
}

/// Appending takes a password and an archive that is not erasure-coded: with both, and with a
/// footer, nothing stands in the way; a new archive is never refused here.
pub proof fn law_when_appending_is_refused(
    b: ArchiveWriterBuilder,
    layout: LayoutPlan,
    existing: Option<&ExistingArchive>,
    auth: Result<(), EraError>,
    opened: Result<bool, EraError>,
    append: Result<(), EraError>,
)
    requires
        call_ensures(ArchiveWriterBuilder::check_auth, (&b,), auth),
        call_ensures(ArchiveWriterBuilder::opens_existing, (&b, true), opened),
        call_ensures(ArchiveWriterBuilder::check_append, (&b, &layout, existing), append),
    ensures
        !b.append_existing ==> auth is Ok && opened == Ok::<bool, EraError>(false) && append is Ok,
        b.append_existing ==> (auth is Ok && opened is Ok <==> b.auth_mode is Password),
        b.append_existing && opened is Ok ==> opened->Ok_0,
        b.append_existing ==> (append is Ok <==> !layout.enable_erasure && existing is Some),
{
}

/// Files of an archive are cut by the sizes that were set for it; without such, by those of its
/// configuration, which have to rise. Where nothing is cut there are no sizes.
pub proof fn law_chunk_sizes_of_an_archive(
    b: ArchiveWriterBuilder,
    layout: LayoutPlan,
    r: Result<Option<ChunkingConfig>, EraError>,
)
    requires
        call_ensures(ArchiveWriterBuilder::plan_chunker, (&b, &layout), r),
    ensures
        r is Ok ==> (r->Ok_0 is Some <==> layout.enable_cdc),
        layout.enable_cdc && layout.chunker_override is Some ==> r == Ok::<
            Option<ChunkingConfig>,
            EraError,
        >(layout.chunker_override),
        layout.enable_cdc && layout.chunker_override is None && r is Ok ==> r->Ok_0 == Some(
            layout.config.chunking,
        ) && layout.config.chunking.min_size <= layout.config.chunking.avg_size
            <= layout.config.chunking.max_size,
        r is Err ==> layout.enable_cdc && layout.chunker_override is None && (
        layout.config.chunking.min_size > layout.config.chunking.avg_size
            || layout.config.chunking.avg_size > layout.config.chunking.max_size),
{
}

} // verus!
