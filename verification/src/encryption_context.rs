//! The numbers under which blocks are encrypted.
//!
//! Every block has a number of its own, from which its key is derived. Numbers
//! are stored in 32 bits.
use vstd::prelude::*;

use crate::text;
use crate::types::EraError;

verus! {

/// The last number a block can have.
pub const MAX_BLOCK_INDEX: u64 = 4294967295;

/// What the encryption of a block is bound to.
#[derive(Debug, Clone, Copy)]
pub struct BlockBinding {
    pub nonce_context: [u8; 16],
    pub archive_id: [u8; 16],
    pub epoch_id: u32,
    pub volume_index: u32,
    pub block_id: u64,
}

/// What the encryption of an archive is bound to, and the next block number.
#[derive(Debug)]
pub struct EncryptionContext {
    pub nonce_context: [u8; 16],
    pub archive_id: [u8; 16],
    pub epoch_id: u32,
    pub volume_index: u32,
    pub next_block_id: u64,
}

/// The message about a number that does not fit.
pub open spec fn over_capacity_text(n: u64) -> Seq<char> {
    "Block index "@ + text::decimal(n as nat) + " exceeds maximum u32 capacity ("@ + text::decimal(
        MAX_BLOCK_INDEX as nat,
    ) + ")"@
}

fn over_capacity(n: u64) -> (e: EraError)
    ensures
        e matches EraError::IntegrityError(m) && m@ == over_capacity_text(n),
{
    EraError::IntegrityError(
        text::with_numbers(
            "Block index ",
            n,
            " exceeds maximum u32 capacity (",
            MAX_BLOCK_INDEX,
            ")",
        ),
    )
}

impl EncryptionContext {
    /// What never changes but for the volume.
    pub open spec fn same_binding(&self, other: EncryptionContext) -> bool {
        &&& self.nonce_context == other.nonce_context
        &&& self.archive_id == other.archive_id
        &&& self.epoch_id == other.epoch_id
        &&& self.volume_index == other.volume_index
    }

    pub fn new(
        nonce_context: [u8; 16],
        archive_id: [u8; 16],
        epoch_id: u32,
        volume_index: u32,
    ) -> (c: Self)
        ensures
            c == (EncryptionContext {
                nonce_context,
                archive_id,
                epoch_id,
                volume_index,
                next_block_id: 0,
            }),
    {
        Self::with_starting_block_id(nonce_context, archive_id, epoch_id, volume_index, 0)
    }

    /// For going on from a checkpoint or appending to an archive.
    pub fn with_starting_block_id(
        nonce_context: [u8; 16],
        archive_id: [u8; 16],
        epoch_id: u32,
        volume_index: u32,
        block_id: u64,
    ) -> (c: Self)
        ensures
            c == (EncryptionContext {
                nonce_context,
                archive_id,
                epoch_id,
                volume_index,
                next_block_id: block_id,
            }),
    {
        EncryptionContext {
            nonce_context,
            archive_id,
            epoch_id,
            volume_index,
            next_block_id: block_id,
        }
    }

    /// Hands out the next block number. Fails once they are used up.
    pub fn next_block_id(&mut self) -> (r: Result<u64, EraError>)
        ensures
            final(self).same_binding(*old(self)),
            if old(self).next_block_id <= MAX_BLOCK_INDEX {
                &&& r == Ok::<u64, EraError>(old(self).next_block_id)
                &&& final(self).next_block_id == old(self).next_block_id + 1
            } else {
                &&& r matches Err(EraError::IntegrityError(m))
                &&& m@ == over_capacity_text(old(self).next_block_id)
                &&& final(self).next_block_id == old(self).next_block_id
            },
    {
        let current: u64 = self.next_block_id;
        if current > MAX_BLOCK_INDEX {
            return Err(over_capacity(current));
        }
        self.next_block_id = current + 1;
        Ok(current)
    }

    /// How many numbers were handed out, counted from 0.
    pub fn blocks_written(&self) -> (n: u64)
        ensures
            n == self.next_block_id,
    {
        self.next_block_id
    }

    /// Passes over `n` numbers that are used elsewhere. Fails, and passes over
    /// none, where the next number would not fit.
    pub fn advance_block_id(&mut self, n: u64) -> (r: Result<(), EraError>)
        ensures
            final(self).same_binding(*old(self)),
            if old(self).next_block_id + n <= MAX_BLOCK_INDEX {
                r is Ok && final(self).next_block_id == old(self).next_block_id + n
            } else {
                &&& r matches Err(EraError::IntegrityError(m))
                &&& m@ == "Block index "@ + text::decimal(old(self).next_block_id as nat) + " + "@
                    + text::decimal(n as nat) + " exceeds maximum u32 capacity ("@
                    + text::decimal(MAX_BLOCK_INDEX as nat) + ")"@
                &&& final(self).next_block_id == old(self).next_block_id
            },
    {
        let current: u64 = self.next_block_id;
        if current > MAX_BLOCK_INDEX || n > MAX_BLOCK_INDEX - current {
            let mut m: String = text::with_numbers(
                "Block index ",
                current,
                " + ",
                n,
                " exceeds maximum u32 capacity (",
            );
            text::push_decimal(&mut m, MAX_BLOCK_INDEX);
            m.append(")");
            return Err(EraError::IntegrityError(m));
        }
        self.next_block_id = current + n;
        Ok(())
    }

    pub fn nonce_context(&self) -> (r: [u8; 16])
        ensures
            r == self.nonce_context,
    {
        self.nonce_context
    }

    pub fn archive_id(&self) -> (r: [u8; 16])
        ensures
            r == self.archive_id,
    {
        self.archive_id
    }

    pub fn epoch_id(&self) -> (r: u32)
        ensures
            r == self.epoch_id,
    {
        self.epoch_id
    }

    pub fn set_volume_index(&mut self, volume_index: u32)
        ensures
            *final(self) == (EncryptionContext { volume_index, ..*old(self) }),
    {
        self.volume_index = volume_index;
    }

    /// What the next block is bound to. Takes a number; fails once they are
    /// used up.
    pub fn create_block_builder(&mut self) -> (r: Result<BlockBinding, EraError>)
        ensures
            final(self).same_binding(*old(self)),
            if old(self).next_block_id <= MAX_BLOCK_INDEX {
                &&& r == Ok::<BlockBinding, EraError>(
                    (BlockBinding {
                        nonce_context: old(self).nonce_context,
                        archive_id: old(self).archive_id,
                        epoch_id: old(self).epoch_id,
                        volume_index: old(self).volume_index,
                        block_id: old(self).next_block_id,
                    }),
                )
                &&& final(self).next_block_id == old(self).next_block_id + 1
            } else {
                &&& r matches Err(EraError::IntegrityError(m))
                &&& m@ == over_capacity_text(old(self).next_block_id)
                &&& final(self).next_block_id == old(self).next_block_id
            },
    {
        match self.next_block_id() {
            Ok(block_id) => Ok(
                BlockBinding {
                    nonce_context: self.nonce_context,
                    archive_id: self.archive_id,
                    epoch_id: self.epoch_id,
                    volume_index: self.volume_index,
                    block_id,
                },
            ),
            Err(e) => Err(e),
        }
    }

    /// What a block with a given number on a given volume is bound to. Takes
    /// no number.
    pub fn create_block_builder_with_block_id(&self, volume_index: u32, block_id: u64) -> (r: Result<
        BlockBinding,
        EraError,
    >)
        ensures
            if block_id <= MAX_BLOCK_INDEX {
                r == Ok::<BlockBinding, EraError>(
                    (BlockBinding {
                        nonce_context: self.nonce_context,
                        archive_id: self.archive_id,
                        epoch_id: self.epoch_id,
                        volume_index,
                        block_id,
                    }),
                )
            } else {
                r matches Err(EraError::IntegrityError(m)) && m@ == over_capacity_text(block_id)
            },
    {
        if block_id > MAX_BLOCK_INDEX {
            return Err(over_capacity(block_id));
        }
        Ok(
            BlockBinding {
                nonce_context: self.nonce_context,
                archive_id: self.archive_id,
                epoch_id: self.epoch_id,
                volume_index,
                block_id,
            },
        )
    }
}

/// A context after a run of requests: the numbers handed out, in order, and
/// where the counter stands.
#[verifier::ext_equal]
pub struct NumberRun {
    pub given: Seq<u64>,
    pub next: u64,
}

/// `n` requests for a number, one after the other, from counter `start`: each
/// gives the counter and moves it on, as long as it fits.
pub open spec fn requests(start: u64, n: nat) -> NumberRun
    decreases n,
{
    if n == 0 {
        NumberRun { given: Seq::empty(), next: start }
    } else {
        let before = requests(start, (n - 1) as nat);
        if before.next <= MAX_BLOCK_INDEX {
            NumberRun { given: before.given.push(before.next), next: (before.next + 1) as u64 }
        } else {
            before
        }
    }
}

/// However many numbers are requested, no number is given twice and each fits
/// 32 bits: no two blocks share a key.
pub proof fn law_block_numbers_are_unique(start: u64, n: nat)
    ensures
        forall|i: int, j: int|
            0 <= i < j < requests(start, n).given.len() ==> #[trigger] requests(start, n).given[i]
                < #[trigger] requests(start, n).given[j],
        forall|i: int|
            0 <= i < requests(start, n).given.len() ==> #[trigger] requests(start, n).given[i]
                <= MAX_BLOCK_INDEX,
        forall|i: int|
            0 <= i < requests(start, n).given.len() ==> #[trigger] requests(start, n).given[i]
                < requests(start, n).next,
    decreases n,
{
    if n > 0 {
        law_block_numbers_are_unique(start, (n - 1) as nat);
        let before = requests(start, (n - 1) as nat);
        let after = requests(start, n);
        if before.next <= MAX_BLOCK_INDEX {
            assert(after.given == before.given.push(before.next));
            assert forall|i: int| 0 <= i < before.given.len() implies #[trigger] after.given[i]
                == before.given[i] by {}
        }
    }
}

/// Numbers are given one after the other from the counter on, none left out, until they are
/// used up.
pub proof fn law_block_numbers_run_on(start: u64, n: nat, k: int)
    requires
        start + n <= 4294967296,
        0 <= k < n,
    ensures
        requests(start, n).given.len() == n,
        requests(start, n).given[k] == start + k,
        requests(start, n).next == start + n,
    decreases n,
{
    let m = (n - 1) as nat;
    if m > 0 {
        law_block_numbers_run_on(start, m, if k < m {
            k
        } else {
            0
        });
    } else {
        assert(requests(start, 0) == (NumberRun { given: Seq::empty(), next: start }));
    }
}

/// No number beyond 32 bits is given.
pub proof fn law_numbers_are_used_up(start: u64, n: nat)
    requires
        start > 4294967295,
    ensures
        requests(start, n).given.len() == 0,
        requests(start, n).next == start,
    decreases n,
{
    if n > 0 {
        law_numbers_are_used_up(start, (n - 1) as nat);
    }
}

/// Two contexts with the same binding encrypt for the same place: archive, epoch and volume.
pub proof fn law_binding_names_the_place(a: EncryptionContext, b: EncryptionContext)
    requires
        a.same_binding(b),
    ensures
        a.archive_id == b.archive_id,
        a.epoch_id == b.epoch_id,
        a.volume_index == b.volume_index,
        a.nonce_context == b.nonce_context,
        b.same_binding(a),
{
}

} // verus!
