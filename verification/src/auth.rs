//! Who may open an archive: recipient slots, and what is looked at before a
//! cipher is tried.
use vstd::prelude::*;

use crate::secrets::{key_from, wipe_text};
use crate::types::{bytes_equal, sub_bytes, EraError};

verus! {

/// Bytes of the nonce in front of a sealed key.
pub const NONCE_SIZE: usize = 24;

/// Bytes that a cipher adds to what it seals.
pub const TAG_SIZE: usize = 16;

/// How a slot is opened.
#[derive(Debug, Clone, Copy, PartialEq, Eq, Structural)]
pub enum RecipientType {
    ScryptPassword,
    X25519PubKey,
    HybridKem,
}

/// How many slots have to be opened.
#[derive(Debug, Clone, Copy, PartialEq, Eq, Structural)]
pub enum AccessPolicy {
    AnyOfN,
    /// This many.
    Threshold(u32),
}

/// A copy of the master key, or a share of it, sealed for one recipient.
#[derive(Debug)]
pub struct RecipientSlot {
    pub r_type: RecipientType,
    pub key_id: Option<[u8; 8]>,
    pub params: Vec<u8>,
    pub encrypted_master_key: Vec<u8>,
}

/// How the key of a password slot is derived.
#[derive(Debug, Clone, Copy)]
pub struct PasswordSlotParams {
    pub salt: [u8; 16],
    pub kdf_memory_cost: u32,
    pub kdf_time_cost: u32,
    pub kdf_parallelism: u32,
}

/// A password.
#[derive(Debug)]
pub struct PasswordProvider {
    pub password: String,
}

/// A sealed key, taken apart.
#[derive(Debug)]
pub struct SealedKey {
    pub nonce: Vec<u8>,
    pub ciphertext: Vec<u8>,
}

/// Takes a sealed key apart: nonce first, then what the cipher made. One that
/// is too short to hold a nonce and a tag cannot be opened.
pub fn split_sealed_key(encrypted: &[u8]) -> (r: Option<SealedKey>)
    ensures
        r is Some <==> encrypted@.len() >= NONCE_SIZE + TAG_SIZE,
        r matches Some(k) ==> k.nonce@ == encrypted@.take(NONCE_SIZE as int) && k.ciphertext@
            == encrypted@.skip(NONCE_SIZE as int),
{
    if encrypted.len() < NONCE_SIZE + TAG_SIZE {
        return None;
    }
    let nonce = sub_bytes(encrypted, 0, NONCE_SIZE);
    let ciphertext = sub_bytes(encrypted, NONCE_SIZE, encrypted.len());
    assert(nonce@ =~= encrypted@.take(NONCE_SIZE as int));
    assert(ciphertext@ =~= encrypted@.skip(NONCE_SIZE as int));
    Some(SealedKey { nonce, ciphertext })
}

impl PasswordProvider {
    pub fn new(password: String) -> (p: Self)
        ensures
            p.password == password,
    {
        PasswordProvider { password }
    }

    /// Whether a slot is one that a password opens.
    pub fn applies(&self, slot: &RecipientSlot) -> (r: bool)
        ensures
            r == (slot.r_type == RecipientType::ScryptPassword),
    {
        slot.r_type == RecipientType::ScryptPassword
    }

    /// Wipes the password.
    pub fn wipe(&mut self)
        ensures
            final(self).password@ == Seq::<char>::empty(),
    {
        wipe_text(&mut self.password);
    }
}

/// What stands in the way of opening a slot with a key pair, or the public
/// part that the opening needs. The slot of another key is passed over.
pub open spec fn encapsulated(slot: RecipientSlot, key_id: Seq<u8>) -> Option<Seq<u8>> {
    if slot.r_type != RecipientType::X25519PubKey {
        None
    } else if slot.key_id is Some && key_id.len() >= 8 && slot.key_id->0@ != key_id.take(8) {
        None
    } else {
        Some(slot.params@)
    }
}

/// Looks at a slot on behalf of a key pair with the given id: the public part
/// to open it with, none where the slot belongs to another key.
pub fn certificate_plan(slot: &RecipientSlot, key_id: &[u8]) -> (r: Result<
    Option<[u8; 32]>,
    EraError,
>)
    ensures
        match encapsulated(*slot, key_id@) {
            None => r == Ok::<Option<[u8; 32]>, EraError>(None),
            Some(p) => if p.len() == 32 {
                r matches Ok(Some(k)) && k@ == p
            } else {
                r matches Err(EraError::InvalidKey(m)) && m@ == "Invalid ephemeral public"@
            },
        },
{
    if slot.r_type != RecipientType::X25519PubKey {
        return Ok(None);
    }
    if let Some(slot_id) = slot.key_id {
        if key_id.len() >= 8 {
            let own = sub_bytes(key_id, 0, 8);
            assert(own@ =~= key_id@.take(8));
            if !bytes_equal(slot_id.as_slice(), own.as_slice()) {
                return Ok(None);
            }
        }
    }
    match key_from(slot.params.as_slice()) {
        Some(k) => Ok(Some(k)),
        None => Err(EraError::InvalidKey(String::from_str("Invalid ephemeral public"))),
    }
}

/// A slot for a password is no slot for a key pair. Another key's slot is passed
/// over; its own, and one that does not say whose it is, give the public part
/// just as the slot holds it.
pub proof fn law_own_slots_are_opened(slot: RecipientSlot, key_id: Seq<u8>)
    ensures
        encapsulated(slot, key_id) matches Some(p) ==> p == slot.params@,
        slot.r_type == RecipientType::ScryptPassword || slot.r_type == RecipientType::HybridKem
            ==> encapsulated(slot, key_id) is None,
        slot.r_type == RecipientType::X25519PubKey && slot.key_id is None ==> encapsulated(
            slot,
            key_id,
        ) is Some,
        slot.r_type == RecipientType::X25519PubKey && key_id.len() < 8 ==> encapsulated(
            slot,
            key_id,
        ) is Some,
        slot.r_type == RecipientType::X25519PubKey && (slot.key_id matches Some(id)
            && id@.is_prefix_of(key_id)) ==> encapsulated(slot, key_id) is Some,
        key_id.len() >= 8 && (slot.key_id matches Some(id) && !id@.is_prefix_of(key_id))
            ==> encapsulated(slot, key_id) is None,
{
    if let Some(id) = slot.key_id {
        assert(id@.len() == 8);
        if key_id.len() >= 8 {
            if id@.is_prefix_of(key_id) {
                assert(id@ =~= key_id.take(8));
            } else if id@ == key_id.take(8) {
                assert(id@.is_prefix_of(key_id));
            }
        }
    }
}

} // verus!
