//! Writing an archive anew: which access the new archive gets.
use vstd::prelude::*;

use crate::auth::{AccessPolicy, RecipientType};
use crate::catalog::ArchiveStats;
use crate::checkpoint::same_text;
use crate::chunk_processor::ExtractStats;
use crate::text;
use crate::types::{bytes_equal, sub_bytes, EraError};

verus! {

/// What repacking did.
#[derive(Debug, Clone, Copy, PartialEq, Eq, Structural)]
pub struct RepackStats {
    pub files_repacked: u64,
    pub extracted_bytes: u64,
    pub repacked_total_size: u64,
    pub blocks_written: u64,
}

/// What repacking did: what was taken out, and what was written.
pub fn repack_stats(extracted: &ExtractStats, written: &ArchiveStats) -> (s: RepackStats)
    ensures
        s.files_repacked == extracted.extracted,
        s.extracted_bytes == extracted.bytes_written,
        s.repacked_total_size == written.total_size,
        s.blocks_written == written.blocks_written,
{
    RepackStats {
        files_repacked: extracted.extracted,
        extracted_bytes: extracted.bytes_written,
        repacked_total_size: written.total_size,
        blocks_written: written.blocks_written,
    }
}

/// The new archive must not take the place of the old one. `output` is the
/// canonical path of what is there already.
pub fn check_paths_differ(source: &str, output: Option<&str>) -> (r: Result<(), EraError>)
    ensures
        if output is Some && output->0@ == source@ {
            r matches Err(EraError::InvalidConfig(m)) && m@ == "source and output paths must differ"@
        } else {
            r is Ok
        },
{
    if let Some(o) = output {
        if same_text(source, o) {
            return Err(
                EraError::InvalidConfig(String::from_str("source and output paths must differ")),
            );
        }
    }
    Ok(())
}

/// The access of the new archive.
#[derive(Debug, Clone, Copy, PartialEq, Eq, Structural)]
pub enum PasswordAccess {
    /// The only password.
    Single,
    /// All passwords, of which this many are needed.
    Threshold(u32),
}

/// All slots are of one type.
pub open spec fn all_of(types: Seq<RecipientType>, t: RecipientType) -> bool {
    forall|i: int| 0 <= i < types.len() ==> #[trigger] types[i] == t
}

fn are_all(types: &[RecipientType], t: RecipientType) -> (r: bool)
    ensures
        r == all_of(types@, t),
{
    let mut i: usize = 0;
    while i < types.len()
        invariant
            i <= types@.len(),
            forall|k: int| 0 <= k < i ==> #[trigger] types@[k] == t,
        decreases types@.len() - i,
    {
        if types[i] != t {
            assert(types@[i as int] != t);
            return false;
        }
        i = i + 1;
    }
    true
}

fn refuse(text: &str) -> (e: EraError)
    ensures
        e matches EraError::InvalidConfig(m) && m@ == text@,
{
    EraError::InvalidConfig(String::from_str(text))
}

/// What stands in the way of giving the new archive the access of an old one
/// that passwords open.
pub open spec fn password_refusal(
    policy: AccessPolicy,
    types: Seq<RecipientType>,
    passwords: nat,
) -> Option<Seq<char>> {
    match policy {
        AccessPolicy::AnyOfN => if types.len() == 1 && types[0] == RecipientType::ScryptPassword {
            if passwords != 1 {
                Some(
                    "Source archive requires exactly one password for repack_archive_with_passwords. Use explicit auth configuration."@,
                )
            } else {
                None
            }
        } else {
            Some(
                "Source archive auth mode is not supported by repack_archive_with_passwords. Use explicit auth configuration."@,
            )
        },
        AccessPolicy::Threshold(t) => if t < types.len() {
            Some(
                "Source archive uses a threshold password policy where fewer than all passwords are required to unlock. Auto-preservation is disabled for security; use explicit auth configuration."@,
            )
        } else if types.len() != passwords || !all_of(types, RecipientType::ScryptPassword) {
            Some(
                "Source archive threshold password auth does not match provided passwords. Use explicit auth configuration."@,
            )
        } else {
            None
        },
    }
}

/// The access of a new archive whose old one passwords opened. Only what the
/// given passwords fully account for is taken over.
pub fn preserve_password_access(
    policy: AccessPolicy,
    types: &[RecipientType],
    passwords: usize,
) -> (r: Result<PasswordAccess, EraError>)
    ensures
        match password_refusal(policy, types@, passwords as nat) {
            Some(t) => r matches Err(EraError::InvalidConfig(m)) && m@ == t,
            None => r == Ok::<PasswordAccess, EraError>(
                match policy {
                    AccessPolicy::AnyOfN => PasswordAccess::Single,
                    AccessPolicy::Threshold(t) => PasswordAccess::Threshold(t),
                },
            ),
        },
{
    match policy {
        AccessPolicy::AnyOfN => {
            if types.len() == 1 && types[0] == RecipientType::ScryptPassword {
                if passwords != 1 {
                    return Err(
                        refuse(
                            "Source archive requires exactly one password for repack_archive_with_passwords. Use explicit auth configuration.",
                        ),
                    );
                }
                Ok(PasswordAccess::Single)
            } else {
                Err(
                    refuse(
                        "Source archive auth mode is not supported by repack_archive_with_passwords. Use explicit auth configuration.",
                    ),
                )
            }
        },
        AccessPolicy::Threshold(t) => {
            let n: usize = types.len();
            if (t as u64) < n as u64 {
                return Err(
                    refuse(
                        "Source archive uses a threshold password policy where fewer than all passwords are required to unlock. Auto-preservation is disabled for security; use explicit auth configuration.",
                    ),
                );
            }
            if n != passwords || !are_all(types, RecipientType::ScryptPassword) {
                return Err(
                    refuse(
                        "Source archive threshold password auth does not match provided passwords. Use explicit auth configuration.",
                    ),
                );
            }
            Ok(PasswordAccess::Threshold(t))
        },
    }
}

/// A key pair that was given.
#[derive(Debug)]
pub enum KeyPairKind {
    /// With the id of its certificate.
    Legacy { key_id: Vec<u8> },
    Hybrid,
}

/// The access of the new archive.
#[derive(Debug, Clone, Copy, PartialEq, Eq, Structural)]
pub enum KeyAccess {
    /// The certificate of this key pair.
    Certificate(usize),
    /// The only hybrid certificate.
    Hybrid,
    /// All hybrid certificates, of which this many are needed.
    HybridThreshold(u32),
}

/// The key pair is the one that a slot was made for.
pub open spec fn opens(pair: KeyPairKind, slot_id: Seq<u8>) -> bool {
    match pair {
        KeyPairKind::Legacy { key_id } => key_id@.len() >= 8 && key_id@.take(8) == slot_id,
        KeyPairKind::Hybrid => false,
    }
}

/// The first key pair that a slot was made for.
pub open spec fn is_first_match(pairs: Seq<KeyPairKind>, slot_id: Seq<u8>, i: int) -> bool {
    &&& 0 <= i < pairs.len()
    &&& opens(pairs[i], slot_id)
    &&& forall|k: int| 0 <= k < i ==> !opens(#[trigger] pairs[k], slot_id)
}

/// How many hybrid key pairs there are.
pub open spec fn hybrids(pairs: Seq<KeyPairKind>) -> nat
    decreases pairs.len(),
{
    if pairs.len() == 0 {
        0
    } else {
        hybrids(pairs.drop_last()) + if pairs.last() is Hybrid {
            1nat
        } else {
            0nat
        }
    }
}

fn count_hybrids(pairs: &[KeyPairKind]) -> (n: usize)
    ensures
        n == hybrids(pairs@),
{
    let mut n: usize = 0;
    let mut i: usize = 0;
    while i < pairs.len()
        invariant
            i <= pairs@.len(),
            n <= i,
            n == hybrids(pairs@.take(i as int)),
        decreases pairs@.len() - i,
    {
        assert(pairs@.take(i + 1).drop_last() =~= pairs@.take(i as int));
        match &pairs[i] {
            KeyPairKind::Hybrid => {
                n = n + 1;
            },
            KeyPairKind::Legacy { .. } => {},
        }
        i = i + 1;
    }
    assert(pairs@.take(pairs@.len() as int) =~= pairs@);
    n
}

fn first_match(pairs: &[KeyPairKind], slot_id: &[u8; 8]) -> (r: Option<usize>)
    ensures
        match r {
            Some(i) => is_first_match(pairs@, slot_id@, i as int),
            None => forall|k: int| 0 <= k < pairs@.len() ==> !opens(#[trigger] pairs@[k], slot_id@),
        },
{
    let mut i: usize = 0;
    while i < pairs.len()
        invariant
            i <= pairs@.len(),
            forall|k: int| 0 <= k < i ==> !opens(#[trigger] pairs@[k], slot_id@),
        decreases pairs@.len() - i,
    {
        match &pairs[i] {
            KeyPairKind::Legacy { key_id } => {
                if key_id.len() >= 8 {
                    let own = sub_bytes(key_id.as_slice(), 0, 8);
                    assert(own@ =~= key_id@.take(8));
                    if bytes_equal(own.as_slice(), slot_id.as_slice()) {
                        return Some(i);
                    }
                }
            },
            KeyPairKind::Hybrid => {},
        }
        i = i + 1;
    }
    None
}

/// A slot of the old archive.
#[derive(Debug, Clone, Copy)]
pub struct SlotFacts {
    pub r_type: RecipientType,
    pub key_id: Option<[u8; 8]>,
}

/// The types of slots.
pub open spec fn slot_types(slots: Seq<SlotFacts>) -> Seq<RecipientType> {
    slots.map_values(|s: SlotFacts| s.r_type)
}

/// The access of a new archive whose old one a single slot opens.
pub open spec fn single_key_access(
    slot: SlotFacts,
    pairs: Seq<KeyPairKind>,
    r: Result<KeyAccess, EraError>,
) -> bool {
    match slot.r_type {
        RecipientType::X25519PubKey => match slot.key_id {
            None => r matches Err(EraError::InvalidConfig(m)) && m@
                == "Source certificate slot missing key_id"@,
            Some(id) => {
                &&& forall|i: int|
                    #[trigger] is_first_match(pairs, id@, i) ==> r == Ok::<KeyAccess, EraError>(
                        KeyAccess::Certificate(i as usize),
                    )
                &&& (forall|k: int| 0 <= k < pairs.len() ==> !opens(#[trigger] pairs[k], id@)) ==> (
                r matches Err(EraError::InvalidConfig(m)) && m@
                    == "No matching legacy keypair found for source certificate slot. Use explicit auth configuration."@)
            },
        },
        RecipientType::HybridKem => if hybrids(pairs) == 1 {
            r == Ok::<KeyAccess, EraError>(KeyAccess::Hybrid)
        } else {
            r matches Err(EraError::InvalidConfig(m)) && m@
                == "Source archive requires exactly one hybrid keypair for repack_archive_with_private_keys. Use explicit auth configuration."@
        },
        RecipientType::ScryptPassword => r matches Err(EraError::InvalidConfig(m)) && m@
            == "Source archive auth mode is not supported by repack_archive_with_private_keys. Use explicit auth configuration."@,
    }
}

/// The access of a new archive whose old one needs several slots.
pub open spec fn threshold_key_access(
    t: u32,
    slots: Seq<SlotFacts>,
    pairs: Seq<KeyPairKind>,
    r: Result<KeyAccess, EraError>,
) -> bool {
    if t < slots.len() {
        r matches Err(EraError::InvalidConfig(m)) && m@
            == "Source archive uses a threshold hybrid certificate policy where fewer than all certificates are required to unlock. Auto-preservation is disabled for security; use explicit auth configuration."@
    } else if !all_of(slot_types(slots), RecipientType::HybridKem) {
        r matches Err(EraError::InvalidConfig(m)) && m@
            == "Source archive threshold auth is not supported by repack_archive_with_private_keys. Only threshold hybrid certificates are supported. Use explicit auth configuration."@
    } else if hybrids(pairs) != slots.len() {
        r matches Err(EraError::InvalidConfig(m)) && m@ == "Source archive has "@ + text::decimal(
            slots.len(),
        ) + " hybrid certificate slots but "@ + text::decimal(hybrids(pairs))
            + " hybrid keypairs were provided. Use explicit auth configuration."@
    } else {
        r == Ok::<KeyAccess, EraError>(KeyAccess::HybridThreshold(t))
    }
}

/// The access of a new archive whose old one key pairs opened. Only what the
/// given key pairs fully account for is taken over.
pub fn preserve_key_access(
    policy: AccessPolicy,
    slots: &[SlotFacts],
    pairs: &[KeyPairKind],
) -> (r: Result<KeyAccess, EraError>)
    ensures
        match policy {
            AccessPolicy::AnyOfN => if slots@.len() == 1 {
                single_key_access(slots@[0], pairs@, r)
            } else {
                r matches Err(EraError::InvalidConfig(m)) && m@
                    == "Source archive auth mode is not supported by repack_archive_with_private_keys. Use explicit auth configuration."@
            },
            AccessPolicy::Threshold(t) => threshold_key_access(t, slots@, pairs@, r),
        },
{
    match policy {
        AccessPolicy::AnyOfN => {
            if slots.len() != 1 {
                return Err(
                    refuse(
                        "Source archive auth mode is not supported by repack_archive_with_private_keys. Use explicit auth configuration.",
                    ),
                );
            }
            let slot = slots[0];
            match slot.r_type {
                RecipientType::X25519PubKey => {
                    let id = match slot.key_id {
                        Some(id) => id,
                        None => {
                            return Err(refuse("Source certificate slot missing key_id"));
                        },
                    };
                    match first_match(pairs, &id) {
                        Some(i) => {
                            assert forall|j: int| #[trigger]
                                is_first_match(pairs@, id@, j) implies j == i by {
                                if j < i {
                                    assert(!opens(pairs@[j], id@));
                                }
                                if i < j {
                                    assert(!opens(pairs@[i as int], id@));
                                }
                            }
                            assert(opens(pairs@[i as int], id@));
                            Ok(KeyAccess::Certificate(i))
                        },
                        None => Err(
                            refuse(
                                "No matching legacy keypair found for source certificate slot. Use explicit auth configuration.",
                            ),
                        ),
                    }
                },
                RecipientType::HybridKem => {
                    if count_hybrids(pairs) != 1 {
                        return Err(
                            refuse(
                                "Source archive requires exactly one hybrid keypair for repack_archive_with_private_keys. Use explicit auth configuration.",
                            ),
                        );
                    }
                    Ok(KeyAccess::Hybrid)
                },
                RecipientType::ScryptPassword => Err(
                    refuse(
                        "Source archive auth mode is not supported by repack_archive_with_private_keys. Use explicit auth configuration.",
                    ),
                ),
            }
        },
        AccessPolicy::Threshold(t) => {
            let n: usize = slots.len();
            if (t as u64) < n as u64 {
                return Err(
                    refuse(
                        "Source archive uses a threshold hybrid certificate policy where fewer than all certificates are required to unlock. Auto-preservation is disabled for security; use explicit auth configuration.",
                    ),
                );
            }
            let mut types: Vec<RecipientType> = Vec::new();
            let mut i: usize = 0;
            while i < n
                invariant
                    i <= n,
                    n == slots@.len(),
                    types@ == slot_types(slots@.take(i as int)),
                decreases n - i,
            {
                types.push(slots[i].r_type);
                assert(types@ =~= slot_types(slots@.take(i + 1)));
                i = i + 1;
            }
            assert(slots@.take(n as int) =~= slots@);
            if !are_all(types.as_slice(), RecipientType::HybridKem) {
                return Err(
                    refuse(
                        "Source archive threshold auth is not supported by repack_archive_with_private_keys. Only threshold hybrid certificates are supported. Use explicit auth configuration.",
                    ),
                );
            }
            let h: usize = count_hybrids(pairs);
            if h != n {
                return Err(
                    EraError::InvalidConfig(
                        text::with_numbers(
                            "Source archive has ",
                            n as u64,
                            " hybrid certificate slots but ",
                            h as u64,
                            " hybrid keypairs were provided. Use explicit auth configuration.",
                        ),
                    ),
                );
            }
            Ok(KeyAccess::HybridThreshold(t))
        },
    }
}

/// No archive is repacked to weaker access: where several passwords or
/// certificates are needed, all of them were given.
pub proof fn law_repacking_needs_all_credentials(
    t: u32,
    types: Seq<RecipientType>,
    passwords: nat,
    slots: Seq<SlotFacts>,
    pairs: Seq<KeyPairKind>,
    r: Result<KeyAccess, EraError>,
)
    requires
        threshold_key_access(t, slots, pairs, r),
    ensures
        password_refusal(AccessPolicy::Threshold(t), types, passwords) is None ==> passwords
            == types.len() && t >= passwords,
        r is Ok ==> hybrids(pairs) == slots.len() && t >= hybrids(pairs),
{
}

/// Passwords are taken over where one password opens the archive and one was given,
/// or where as many as there are slots are needed and as many were given. Any other
/// slot among them stands in the way.
pub proof fn law_when_passwords_are_taken_over(
    t: u32,
    types: Seq<RecipientType>,
    passwords: nat,
    i: int,
)
    requires
        0 <= i < types.len(),
    ensures
        password_refusal(AccessPolicy::AnyOfN, seq![RecipientType::ScryptPassword], passwords) is None
            <==> passwords == 1,
        types.len() != 1 || types[0] != RecipientType::ScryptPassword ==> password_refusal(
            AccessPolicy::AnyOfN,
            types,
            passwords,
        ) is Some,
        types[i] != RecipientType::ScryptPassword ==> password_refusal(
            AccessPolicy::Threshold(t),
            types,
            passwords,
        ) is Some,
        password_refusal(
            AccessPolicy::Threshold(t),
            Seq::new(types.len(), |k: int| RecipientType::ScryptPassword),
            passwords,
        ) is None <==> t >= types.len() && passwords == types.len(),
{
}

/// A key pair opens the slots that carry the start of its id and no others; a hybrid
/// pair opens none of them.
pub proof fn law_pair_opens_its_slots(pair: KeyPairKind, slot_id: Seq<u8>)
    requires
        slot_id.len() == 8,
    ensures
        pair is Hybrid ==> !opens(pair, slot_id),
        pair matches KeyPairKind::Legacy { key_id } ==> (opens(pair, slot_id)
            <==> slot_id.is_prefix_of(key_id@)),
{
    if let KeyPairKind::Legacy { key_id } = pair {
        if slot_id.is_prefix_of(key_id@) {
            assert(key_id@.take(8) =~= slot_id);
        }
    }
}

/// The count of hybrid pairs goes up by one with every such pair, wherever it comes.
pub proof fn law_hybrid_pairs_are_counted(a: Seq<KeyPairKind>, b: Seq<KeyPairKind>, p: KeyPairKind)
    ensures
        hybrids(Seq::empty()) == 0,
        hybrids(seq![p]) == (if p is Hybrid {
            1int
        } else {
            0
        }),
        hybrids(a + b) == hybrids(a) + hybrids(b),
    decreases b.len(),
{
    assert(seq![p].drop_last() =~= Seq::<KeyPairKind>::empty());
    if b.len() == 0 {
        assert(a + b =~= a);
    } else {
        assert((a + b).drop_last() =~= a + b.drop_last());
        law_hybrid_pairs_are_counted(a, b.drop_last(), p);
    }
}

/// One slot is taken over exactly where a pair that was given opens it: of the pairs
/// that do, the first.
pub proof fn law_single_slot_is_taken_over(
    slot: SlotFacts,
    pairs: Seq<KeyPairKind>,
    r: Result<KeyAccess, EraError>,
    i: int,
)
    requires
        single_key_access(slot, pairs, r),
        0 <= i < pairs.len() <= usize::MAX,
    ensures
        slot.r_type == RecipientType::ScryptPassword ==> r is Err,
        slot.r_type == RecipientType::HybridKem ==> (r is Ok <==> hybrids(pairs) == 1),
        slot.r_type == RecipientType::HybridKem && r is Ok ==> r->Ok_0 is Hybrid,
        slot.r_type == RecipientType::X25519PubKey && slot.key_id is None ==> r is Err,
        slot.r_type == RecipientType::X25519PubKey && (slot.key_id matches Some(id) && opens(
            pairs[i],
            id@,
        )) ==> (r matches Ok(KeyAccess::Certificate(k)) && k <= i && opens(
            pairs[k as int],
            (slot.key_id->0)@,
        )),
        slot.r_type == RecipientType::X25519PubKey && r is Ok ==> (r matches Ok(
            KeyAccess::Certificate(k),
        ) && k < pairs.len() && opens(pairs[k as int], (slot.key_id->0)@)),
{
    if slot.r_type == RecipientType::X25519PubKey {
        if let Some(id) = slot.key_id {
            if exists|k: int| 0 <= k < pairs.len() && opens(#[trigger] pairs[k], id@) {
                let k = choose|k: int| 0 <= k < pairs.len() && opens(#[trigger] pairs[k], id@);
                lemma_first_match(pairs, id@, k);
                if opens(pairs[i], id@) {
                    lemma_first_match(pairs, id@, i);
                }
            }
        }
    }
}

proof fn lemma_first_match(pairs: Seq<KeyPairKind>, slot_id: Seq<u8>, n: int)
    requires
        0 <= n < pairs.len(),
        opens(pairs[n], slot_id),
    ensures
        exists|i: int| i <= n && #[trigger] is_first_match(pairs, slot_id, i),
    decreases n,
{
    if exists|k: int| 0 <= k < n && opens(#[trigger] pairs[k], slot_id) {
        let k = choose|k: int| 0 <= k < n && opens(#[trigger] pairs[k], slot_id);
        lemma_first_match(pairs, slot_id, k);
    } else {
        assert(is_first_match(pairs, slot_id, n));
    }
}

/// Several slots are taken over exactly where all are hybrid, all are needed and there
/// is a pair for each; the policy stays.
pub proof fn law_threshold_is_taken_over(
    t: u32,
    slots: Seq<SlotFacts>,
    pairs: Seq<KeyPairKind>,
    r: Result<KeyAccess, EraError>,
)
    requires
        threshold_key_access(t, slots, pairs, r),
    ensures
        r is Ok <==> t >= slots.len() && hybrids(pairs) == slots.len() && (forall|i: int|
            0 <= i < slots.len() ==> (#[trigger] slots[i]).r_type == RecipientType::HybridKem),
        r matches Ok(a) ==> a == KeyAccess::HybridThreshold(t),
{
    let types = slot_types(slots);
    assert forall|i: int| 0 <= i < slots.len() implies #[trigger] types[i] == slots[i].r_type by {}
    if all_of(types, RecipientType::HybridKem) {
        assert forall|i: int| 0 <= i < slots.len() implies (#[trigger] slots[i]).r_type
            == RecipientType::HybridKem by {
            assert(types[i] == RecipientType::HybridKem);
        }
    }
}

/// The access that is taken over is of the policy that the old archive has.
pub proof fn law_policy_is_taken_over(
    policy: AccessPolicy,
    types: &[RecipientType],
    passwords: usize,
    r: Result<PasswordAccess, EraError>,
)
    requires
        call_ensures(preserve_password_access, (policy, types, passwords), r),
    ensures
        r is Ok <==> password_refusal(policy, types@, passwords as nat) is None,
        r matches Ok(PasswordAccess::Threshold(t)) ==> policy == AccessPolicy::Threshold(t)
            && types@.len() == passwords && t >= passwords,
        r matches Ok(PasswordAccess::Single) ==> policy is AnyOfN && passwords == 1
            && types@.len() == 1,
{
}

/// An archive is never written over its own source.
pub proof fn law_source_is_not_overwritten(
    source: &str,
    output: Option<&str>,
    r: Result<(), EraError>,
)
    requires
        call_ensures(check_paths_differ, (source, output), r),
    ensures
        r is Ok <==> !(output matches Some(o) && o@ == source@),
{
}

} // verus!
