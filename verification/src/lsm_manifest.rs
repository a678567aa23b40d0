//! The files of an index directory in one byte string.
//!
//! A manifest is the number of files, then for each file the length of its
//! path, the path, the length of its contents and the contents. Lengths of
//! paths and the number take four bytes, lengths of contents eight, least
//! significant byte first.
use vstd::prelude::*;
use vstd::utf8;

use crate::ordering;
use crate::ordering::{stable_order, ByteKeys};
use crate::paths;
use crate::paths::{find_path_fault, is_below, PathFault};
use crate::secrets::{number_from, random_number};
use crate::text;
use crate::types::{sub_bytes, EraError};

verus! {

/// The largest file that is taken from an archive.
pub const MAX_LSM_ENTRY_SIZE: u64 = 268435456;

/// The largest number of files that is taken from an archive.
pub const MAX_LSM_ENTRY_COUNT: u32 = 1000000;

/// A file of the directory.
#[derive(Debug)]
pub struct LsmEntry {
    pub path: String,
    pub data: Vec<u8>,
}

/// A file as a value.
#[verifier::ext_equal]
pub struct EntryView {
    pub path: Seq<char>,
    pub data: Seq<u8>,
}

impl View for LsmEntry {
    type V = EntryView;

    open spec fn view(&self) -> EntryView {
        EntryView { path: self.path@, data: self.data@ }
    }
}

/// Files as values.
pub open spec fn entry_views(entries: Seq<LsmEntry>) -> Seq<EntryView> {
    entries.map_values(|e: LsmEntry| e@)
}

/// `k` bytes of a number, least significant first.
pub open spec fn le_bytes(n: nat, k: nat) -> Seq<u8>
    decreases k,
{
    if k == 0 {
        Seq::empty()
    } else {
        seq![(n % 256) as u8] + le_bytes(n / 256, (k - 1) as nat)
    }
}

/// The number that bytes stand for, least significant first.
pub open spec fn le_value(b: Seq<u8>) -> nat
    decreases b.len(),
{
    if b.len() == 0 {
        0
    } else {
        b[0] as nat + 256 * le_value(b.skip(1))
    }
}

/// Numbers that fit into `k` bytes.
pub open spec fn fits_in(n: nat, k: nat) -> bool
    decreases k,
{
    if k == 0 {
        n == 0
    } else {
        fits_in(n / 256, (k - 1) as nat)
    }
}

proof fn lemma_le_bytes(n: nat, k: nat)
    ensures
        le_bytes(n, k).len() == k,
        fits_in(n, k) ==> le_value(le_bytes(n, k)) == n,
    decreases k,
{
    if k > 0 {
        lemma_le_bytes(n / 256, (k - 1) as nat);
        assert(le_bytes(n, k).skip(1) =~= le_bytes(n / 256, (k - 1) as nat));
    }
}

proof fn lemma_fits_four(n: nat)
    requires
        n <= u32::MAX,
    ensures
        fits_in(n, 4),
{
    reveal_with_fuel(fits_in, 5);
}

proof fn lemma_fits_eight(n: nat)
    requires
        n <= u64::MAX,
    ensures
        fits_in(n, 8),
{
    reveal_with_fuel(fits_in, 9);
}

proof fn lemma_four_bytes(b: Seq<u8>)
    requires
        b.len() == 4,
    ensures
        le_value(b) == b[0] + 256 * b[1] + 65536 * b[2] + 16777216 * b[3],
        le_value(b) <= u32::MAX,
{
    reveal_with_fuel(le_value, 5);
}

proof fn lemma_eight_bytes(b: Seq<u8>)
    requires
        b.len() == 8,
    ensures
        le_value(b) == crate::secrets::le64(b),
        le_value(b) <= u64::MAX,
{
    reveal_with_fuel(le_value, 9);
}

/// A file in a manifest.
pub open spec fn entry_bytes(e: EntryView) -> Seq<u8> {
    let path = utf8::encode_utf8(e.path);
    le_bytes(path.len(), 4) + path + le_bytes(e.data.len(), 8) + e.data
}

/// The first `n` files in a manifest.
pub open spec fn entries_bytes(entries: Seq<EntryView>, n: nat) -> Seq<u8>
    decreases n,
{
    if n == 0 {
        Seq::empty()
    } else {
        entries_bytes(entries, (n - 1) as nat) + entry_bytes(entries[n - 1])
    }
}

/// A manifest.
pub open spec fn manifest_bytes(entries: Seq<EntryView>) -> Seq<u8> {
    le_bytes(entries.len(), 4) + entries_bytes(entries, entries.len())
}

fn push_number(out: &mut Vec<u8>, n: u64, k: u32)
    ensures
        final(out)@ == old(out)@ + le_bytes(n as nat, k as nat),
    decreases k,
{
    if k > 0 {
        let ghost before = out@;
        out.push((n % 256) as u8);
        push_number(out, n / 256, k - 1);
        assert(out@ =~= before + le_bytes(n as nat, k as nat));
    } else {
        assert(out@ + le_bytes(n as nat, 0) =~= out@);
    }
}

pub(crate) fn push_bytes(out: &mut Vec<u8>, bytes: &[u8])
    ensures
        final(out)@ == old(out)@ + bytes@,
{
    let ghost before = out@;
    let mut i: usize = 0;
    assert(before + bytes@.take(0) =~= before);
    while i < bytes.len()
        invariant
            i <= bytes@.len(),
            out@ == before + bytes@.take(i as int),
        decreases bytes@.len() - i,
    {
        out.push(bytes[i]);
        assert(bytes@.take(i + 1) =~= bytes@.take(i as int).push(bytes@[i as int]));
        assert(out@ =~= before + bytes@.take(i + 1));
        i = i + 1;
    }
    assert(bytes@.take(bytes@.len() as int) =~= bytes@);
}

/// Where a path stands among others: compared component by component, so that
/// a slash comes before any other character.
pub open spec fn path_key(path: Seq<char>) -> Seq<u8> {
    utf8::encode_utf8(path).map_values(
        |b: u8|
            if b == 47u8 {
                0u8
            } else {
                b
            },
    )
}

/// `order` lists the files by their paths.
pub open spec fn is_path_order(entries: Seq<EntryView>, order: Seq<usize>) -> bool {
    &&& order.len() == entries.len()
    &&& forall|k: int| 0 <= k < order.len() ==> #[trigger] order[k] < entries.len()
    &&& forall|i: int| 0 <= i < entries.len() ==> #[trigger] order.contains(i as usize)
    &&& forall|k: int, l: int|
        0 <= k < l < order.len() ==> {
            let a = path_key(entries[#[trigger] order[k] as int].path);
            let b = path_key(entries[#[trigger] order[l] as int].path);
            ordering::lex_less(a, b) || (!ordering::lex_less(b, a) && order[k] < order[l])
        }
}

/// Files in the order `order`.
pub open spec fn in_order(entries: Seq<EntryView>, order: Seq<usize>) -> Seq<EntryView> {
    order.map_values(|i: usize| entries[i as int])
}

fn key_of(path: &str) -> (key: Vec<u8>)
    ensures
        key@ == path_key(path@),
{
    let bytes = path.as_bytes();
    let mut key: Vec<u8> = Vec::new();
    let mut i: usize = 0;
    while i < bytes.len()
        invariant
            i <= bytes@.len(),
            bytes@ == utf8::encode_utf8(path@),
            key@ == path_key(path@).take(i as int),
        decreases bytes@.len() - i,
    {
        let b: u8 = bytes[i];
        key.push(if b == 47 {
            0
        } else {
            b
        });
        assert(path_key(path@).take(i + 1) =~= path_key(path@).take(i as int).push(
            path_key(path@)[i as int],
        ));
        i = i + 1;
    }
    assert(path_key(path@).take(bytes@.len() as int) =~= path_key(path@));
    key
}

/// The manifest of the files of a directory, by their paths.
pub fn serialize_lsm_dir(entries: &Vec<LsmEntry>) -> (out: Vec<u8>)
    requires
        entries@.len() <= u32::MAX,
        forall|i: int|
            0 <= i < entries@.len() ==> utf8::encode_utf8((#[trigger] entries@[i]).path@).len()
                <= u32::MAX,
    ensures
        exists|order: Seq<usize>| #[trigger]
            is_path_order(entry_views(entries@), order) && out@ == manifest_bytes(
                in_order(entry_views(entries@), order),
            ),
{
    let ghost views = entry_views(entries@);
    let n: usize = entries.len();
    let mut list: Vec<Vec<u8>> = Vec::new();
    let mut i: usize = 0;
    while i < n
        invariant
            n == entries@.len(),
            i <= n,
            list@.len() == i,
            forall|k: int| 0 <= k < i ==> (#[trigger] list@[k])@ == path_key(entries@[k].path@),
        decreases n - i,
    {
        list.push(key_of(entries[i].path.as_str()));
        i = i + 1;
    }
    let keys = ByteKeys { keys: list };
    let order = stable_order(&keys);
    proof {
        assert forall|k: int, l: int| 0 <= k < l < order@.len() implies {
            let a = path_key(views[#[trigger] order@[k] as int].path);
            let b = path_key(views[#[trigger] order@[l] as int].path);
            ordering::lex_less(a, b) || (!ordering::lex_less(b, a) && order@[k] < order@[l])
        } by {
            assert(ordering::comes_before(&keys, order@[k] as int, order@[l] as int));
            assert(keys.keys@[order@[k] as int]@ == path_key(views[order@[k] as int].path));
            assert(keys.keys@[order@[l] as int]@ == path_key(views[order@[l] as int].path));
        }
        assert(is_path_order(views, order@));
    }
    let ghost sorted = in_order(views, order@);
    let mut out: Vec<u8> = Vec::new();
    push_number(&mut out, n as u64, 4);
    assert(out@ =~= le_bytes(n as nat, 4) + entries_bytes(sorted, 0));
    let mut j: usize = 0;
    while j < n
        invariant
            j <= n,
            n == entries@.len(),
            n == order@.len(),
            views == entry_views(entries@),
            sorted == in_order(views, order@),
            forall|k: int| 0 <= k < order@.len() ==> #[trigger] order@[k] < n,
            out@ == le_bytes(n as nat, 4) + entries_bytes(sorted, j as nat),
        decreases n - j,
    {
        let ghost held = out@;
        let e = &entries[order[j]];
        let path = e.path.as_str().as_bytes();
        push_number(&mut out, path.len() as u64, 4);
        push_bytes(&mut out, path);
        push_number(&mut out, e.data.len() as u64, 8);
        push_bytes(&mut out, e.data.as_slice());
        proof {
            assert(sorted[j as int] == e@);
            assert(out@ =~= held + entry_bytes(e@));
            assert(out@ =~= le_bytes(n as nat, 4) + entries_bytes(sorted, (j + 1) as nat));
        }
        j = j + 1;
    }
    out
}

/// What is wrong with the next file of a manifest.
pub enum EntryFault {
    /// The bytes end too early.
    Short,
    /// The path is no text.
    NotText,
    /// The file is too large.
    TooLarge(nat),
    /// The path leads out of the directory.
    Path(PathFault),
}

/// The length of the path of the next file.
pub open spec fn path_len(rest: Seq<u8>) -> nat {
    le_value(rest.take(4))
}

/// The bytes of the path of the next file.
pub open spec fn path_bytes(rest: Seq<u8>) -> Seq<u8> {
    rest.subrange(4, 4 + path_len(rest) as int)
}

/// The length of the contents of the next file.
pub open spec fn data_len(rest: Seq<u8>) -> nat {
    le_value(rest.subrange(4 + path_len(rest) as int, 12 + path_len(rest) as int))
}

/// Where the next file ends.
pub open spec fn entry_end(rest: Seq<u8>) -> nat {
    12 + path_len(rest) + data_len(rest)
}

/// The next file.
pub open spec fn entry_at(rest: Seq<u8>) -> EntryView {
    EntryView {
        path: utf8::decode_utf8(path_bytes(rest)),
        data: rest.subrange(12 + path_len(rest) as int, entry_end(rest) as int),
    }
}

/// What is wrong with the next file. Sizes and paths are only looked at where
/// the manifest comes out of an archive.
pub open spec fn entry_fault(rest: Seq<u8>, strict: bool) -> Option<EntryFault> {
    if rest.len() < 4 || rest.len() < 4 + path_len(rest) {
        Some(EntryFault::Short)
    } else if !utf8::valid_utf8(path_bytes(rest)) {
        Some(EntryFault::NotText)
    } else if rest.len() < 12 + path_len(rest) {
        Some(EntryFault::Short)
    } else if strict && data_len(rest) > MAX_LSM_ENTRY_SIZE {
        Some(EntryFault::TooLarge(data_len(rest)))
    } else if rest.len() < entry_end(rest) {
        Some(EntryFault::Short)
    } else if strict {
        match paths::path_fault(entry_at(rest).path) {
            Some(f) => Some(EntryFault::Path(f)),
            None => None,
        }
    } else {
        None
    }
}

/// The error for a fault. The text for a path that is no text is not said.
pub open spec fn is_fault_error(fault: EntryFault, rest: Seq<u8>, e: EraError) -> bool {
    match fault {
        EntryFault::Short => e matches EraError::Io(m) && m@ == "failed to fill whole buffer"@,
        EntryFault::NotText => e is Deserialization,
        EntryFault::TooLarge(n) => e matches EraError::CorruptedHeader(m) && m@
            == "LSM entry too large: "@ + text::decimal(n) + " bytes"@,
        EntryFault::Path(PathFault::Climbs) => e matches EraError::Security(m) && m@
            == "Path traversal detected in LSM manifest: "@ + entry_at(rest).path + ""@,
        EntryFault::Path(PathFault::Absolute) => e matches EraError::Security(m) && m@
            == "Absolute path in LSM manifest: "@ + entry_at(rest).path + ""@,
    }
}

/// The text that bytes stand for, by `String::from_utf8`, or what is wrong with
/// them. It succeeds exactly on UTF-8 and gives the characters that the bytes
/// encode. The text of the complaint is not said.
#[verifier::external_body]
fn text_from(bytes: Vec<u8>) -> (r: Result<String, String>)
    ensures
        r is Ok <==> utf8::valid_utf8(bytes@),
        r matches Ok(s) ==> s@ == utf8::decode_utf8(bytes@),
{
    String::from_utf8(bytes).map_err(|e| e.to_string())
}

/// A manifest that is read file by file.
#[derive(Debug)]
pub struct ManifestReader {
    pub data: Vec<u8>,
    pub at: usize,
    pub left: u32,
    /// The manifest comes out of an archive.
    pub strict: bool,
}

impl ManifestReader {
    pub open spec fn wf(&self) -> bool {
        self.at <= self.data@.len()
    }

    /// What was not read yet.
    pub open spec fn rest(&self) -> Seq<u8> {
        self.data@.skip(self.at as int)
    }

    fn short() -> (e: EraError)
        ensures
            e matches EraError::Io(m) && m@ == "failed to fill whole buffer"@,
    {
        EraError::Io(String::from_str("failed to fill whole buffer"))
    }

    /// Begins with the number of files, which has a limit where the manifest
    /// comes out of an archive.
    pub fn open(data: Vec<u8>, strict: bool) -> (r: Result<Self, EraError>)
        ensures
            if data@.len() < 4 {
                r matches Err(EraError::Io(m)) && m@ == "failed to fill whole buffer"@
            } else if strict && le_value(data@.take(4)) > MAX_LSM_ENTRY_COUNT {
                r matches Err(EraError::CorruptedHeader(m)) && m@
                    == "LSM manifest entry count too large: "@ + text::decimal(
                    le_value(data@.take(4)),
                ) + ""@
            } else {
                &&& r matches Ok(m)
                &&& m.wf()
                &&& m.rest() == data@.skip(4)
                &&& m.left == le_value(data@.take(4))
                &&& m.strict == strict
            },
    {
        if data.len() < 4 {
            return Err(Self::short());
        }
        let count: u32 = Self::number32(&data, 0);
        assert(data@.subrange(0, 4) =~= data@.take(4));
        if strict && count > MAX_LSM_ENTRY_COUNT {
            return Err(
                EraError::CorruptedHeader(
                    text::with_number("LSM manifest entry count too large: ", count as u64, ""),
                ),
            );
        }
        Ok(ManifestReader { data, at: 4, left: count, strict })
    }

    fn number32(data: &Vec<u8>, at: usize) -> (n: u32)
        requires
            at + 4 <= data@.len(),
        ensures
            n == le_value(data@.subrange(at as int, at + 4)),
    {
        let ghost b = data@.subrange(at as int, at + 4);
        proof {
            lemma_four_bytes(b);
            assert(b[0] == data@[at as int] && b[1] == data@[at + 1] && b[2] == data@[at + 2]
                && b[3] == data@[at + 3]);
        }
        let n: usize = data.len();
        assert(at + 4 <= n);
        data[at] as u32 + 256 * (data[at + 1] as u32) + 65536 * (data[at + 2] as u32) + 16777216 * (
        data[at + 3] as u32)
    }

    fn number64(data: &Vec<u8>, at: usize) -> (n: u64)
        requires
            at + 8 <= data@.len(),
        ensures
            n == le_value(data@.subrange(at as int, at + 8)),
    {
        let n: usize = data.len();
        assert(at + 8 <= n);
        let b = sub_bytes(data.as_slice(), at, at + 8);
        proof {
            lemma_eight_bytes(b@);
        }
        number_from(b.as_slice())
    }

    /// The next file; none after the last one. What is wrong with a file stops
    /// the reading.
    pub fn next_entry(&mut self) -> (r: Result<Option<LsmEntry>, EraError>)
        requires
            old(self).wf(),
        ensures
            final(self).wf(),
            final(self).strict == old(self).strict,
            if old(self).left == 0 {
                r matches Ok(None) && *final(self) == *old(self)
            } else {
                match entry_fault(old(self).rest(), old(self).strict) {
                    Some(f) => {
                        &&& r matches Err(e)
                        &&& is_fault_error(f, old(self).rest(), e)
                        &&& *final(self) == *old(self)
                    },
                    None => {
                        &&& r matches Ok(Some(e))
                        &&& e@ == entry_at(old(self).rest())
                        &&& final(self).rest() == old(self).rest().skip(
                            entry_end(old(self).rest()) as int,
                        )
                        &&& final(self).left == old(self).left - 1
                    },
                }
            },
    {
        if self.left == 0 {
            return Ok(None);
        }
        let ghost rest = self.rest();
        let total: usize = self.data.len();
        let at: usize = self.at;
        if total - at < 4 {
            return Err(Self::short());
        }
        let n: u32 = Self::number32(&self.data, at);
        assert(self.data@.subrange(at as int, at + 4) =~= rest.take(4));
        if (n as u64) > (total - at - 4) as u64 {
            return Err(Self::short());
        }
        let path_end: usize = at + 4 + n as usize;
        let path_raw = sub_bytes(self.data.as_slice(), at + 4, path_end);
        assert(path_raw@ =~= path_bytes(rest));
        let path = match text_from(path_raw) {
            Ok(s) => s,
            Err(m) => return Err(EraError::Deserialization(m)),
        };
        if total - path_end < 8 {
            return Err(Self::short());
        }
        let size: u64 = Self::number64(&self.data, path_end);
        assert(self.data@.subrange(path_end as int, path_end + 8) =~= rest.subrange(
            4 + path_len(rest) as int,
            12 + path_len(rest) as int,
        ));
        if self.strict && size > MAX_LSM_ENTRY_SIZE {
            return Err(
                EraError::CorruptedHeader(
                    text::with_number("LSM entry too large: ", size, " bytes"),
                ),
            );
        }
        let data_start: usize = path_end + 8;
        if size > (total - data_start) as u64 {
            return Err(Self::short());
        }
        let data_end: usize = data_start + size as usize;
        let contents = sub_bytes(self.data.as_slice(), data_start, data_end);
        assert(contents@ =~= entry_at(rest).data);
        if self.strict {
            match find_path_fault(path.as_str()) {
                Some(PathFault::Climbs) => {
                    return Err(
                        EraError::Security(
                            text::with_text(
                                "Path traversal detected in LSM manifest: ",
                                path.as_str(),
                                "",
                            ),
                        ),
                    );
                },
                Some(PathFault::Absolute) => {
                    return Err(
                        EraError::Security(
                            text::with_text("Absolute path in LSM manifest: ", path.as_str(), ""),
                        ),
                    );
                },
                None => {},
            }
        }
        self.at = data_end;
        self.left = self.left - 1;
        assert(self.rest() =~= rest.skip(entry_end(rest) as int));
        Ok(Some(LsmEntry { path, data: contents }))
    }
}

/// A file that can be taken from an archive.
pub open spec fn acceptable(e: EntryView) -> bool {
    &&& utf8::encode_utf8(e.path).len() <= u32::MAX
    &&& e.data.len() <= MAX_LSM_ENTRY_SIZE
    &&& paths::path_fault(e.path) is None
}

/// A file that was written is read back, whatever follows it.
pub proof fn law_entry_round_trip(e: EntryView, tail: Seq<u8>, strict: bool)
    requires
        acceptable(e),
    ensures
        entry_fault(entry_bytes(e) + tail, strict) is None,
        entry_at(entry_bytes(e) + tail) == e,
        (entry_bytes(e) + tail).skip(entry_end(entry_bytes(e) + tail) as int) == tail,
{
    let path = utf8::encode_utf8(e.path);
    let rest = entry_bytes(e) + tail;
    lemma_le_bytes(path.len(), 4);
    lemma_le_bytes(e.data.len(), 8);
    lemma_fits_four(path.len());
    lemma_fits_eight(e.data.len());
    assert(rest.take(4) =~= le_bytes(path.len(), 4));
    assert(path_bytes(rest) =~= path);
    assert(rest.subrange(4 + path.len() as int, 12 + path.len() as int) =~= le_bytes(e.data.len(), 8));
    assert(entry_at(rest).data =~= e.data);
    assert(rest.skip(entry_end(rest) as int) =~= tail);
    utf8::encode_utf8_valid_utf8(e.path);
    utf8::encode_utf8_decode_utf8(e.path);
}

/// The first `n` files that are read.
pub open spec fn read_entries(rest: Seq<u8>, n: nat, strict: bool) -> Option<Seq<EntryView>>
    decreases n,
{
    if n == 0 {
        Some(Seq::empty())
    } else if entry_fault(rest, strict) is Some {
        None
    } else {
        match read_entries(rest.skip(entry_end(rest) as int), (n - 1) as nat, strict) {
            Some(s) => Some(seq![entry_at(rest)] + s),
            None => None,
        }
    }
}

/// The files of a manifest.
pub open spec fn read_manifest(data: Seq<u8>, strict: bool) -> Option<Seq<EntryView>> {
    if data.len() < 4 || (strict && le_value(data.take(4)) > MAX_LSM_ENTRY_COUNT) {
        None
    } else {
        read_entries(data.skip(4), le_value(data.take(4)), strict)
    }
}

proof fn lemma_entries_bytes_front(entries: Seq<EntryView>, n: nat)
    requires
        0 < n <= entries.len(),
    ensures
        entries_bytes(entries, n) == entry_bytes(entries[0]) + entries_bytes(
            entries.skip(1),
            (n - 1) as nat,
        ),
    decreases n,
{
    if n == 1 {
        assert(entries_bytes(entries, 0) =~= Seq::<u8>::empty());
        assert(entries_bytes(entries, 1) =~= entry_bytes(entries[0]));
        assert(entries_bytes(entries.skip(1), 0) =~= Seq::<u8>::empty());
    } else {
        lemma_entries_bytes_front(entries, (n - 1) as nat);
        assert(entries.skip(1)[n - 2] == entries[n - 1]);
        assert(entries_bytes(entries, n) =~= entry_bytes(entries[0]) + entries_bytes(
            entries.skip(1),
            (n - 1) as nat,
        ));
    }
}

proof fn lemma_read_entries(entries: Seq<EntryView>, tail: Seq<u8>, strict: bool)
    requires
        forall|i: int| 0 <= i < entries.len() ==> acceptable(#[trigger] entries[i]),
    ensures
        read_entries(entries_bytes(entries, entries.len()) + tail, entries.len(), strict) == Some(
            entries,
        ),
    decreases entries.len(),
{
    let all = entries_bytes(entries, entries.len()) + tail;
    if entries.len() == 0 {
        assert(Seq::<EntryView>::empty() =~= entries);
    } else {
        let more = entries.skip(1);
        lemma_entries_bytes_front(entries, entries.len());
        let next = entries_bytes(more, more.len()) + tail;
        assert(all =~= entry_bytes(entries[0]) + next);
        assert(acceptable(entries[0]));
        law_entry_round_trip(entries[0], next, strict);
        assert forall|i: int| 0 <= i < more.len() implies acceptable(#[trigger] more[i]) by {
            assert(acceptable(entries[i + 1]));
        }
        lemma_read_entries(more, tail, strict);
        assert(seq![entries[0]] + more =~= entries);
    }
}

/// A manifest that was written is read back, file by file and in order.
pub proof fn law_manifest_round_trip(entries: Seq<EntryView>, strict: bool)
    requires
        entries.len() <= MAX_LSM_ENTRY_COUNT,
        forall|i: int| 0 <= i < entries.len() ==> acceptable(#[trigger] entries[i]),
    ensures
        read_manifest(manifest_bytes(entries), strict) == Some(entries),
{
    let data = manifest_bytes(entries);
    lemma_le_bytes(entries.len(), 4);
    lemma_fits_four(entries.len());
    assert(data.take(4) =~= le_bytes(entries.len(), 4));
    let body = entries_bytes(entries, entries.len());
    assert(data.skip(4) =~= body + Seq::<u8>::empty());
    lemma_read_entries(entries, Seq::empty(), strict);
}

/// The bytes of a number, most significant first.
pub open spec fn be_bytes(n: u64) -> Seq<u8> {
    le_bytes(n as nat, 8).reverse()
}

/// The name of a directory that an index is worked on in: a prefix and sixteen
/// hexadecimal digits.
pub fn lsm_dir_name(prefix: &str, suffix: u64) -> (name: String)
    ensures
        name@ == prefix@ + text::hex(be_bytes(suffix)) + ""@,
{
    let mut le: Vec<u8> = Vec::new();
    push_number(&mut le, suffix, 8);
    assert(le@ =~= le_bytes(suffix as nat, 8));
    let mut be: Vec<u8> = Vec::new();
    proof {
        lemma_le_bytes(suffix as nat, 8);
    }
    let mut i: usize = 8;
    while i > 0
        invariant
            i <= 8,
            le@.len() == 8,
            be@.len() == 8 - i,
            forall|k: int| 0 <= k < be@.len() ==> #[trigger] be@[k] == le@[7 - k],
        decreases i,
    {
        i = i - 1;
        be.push(le[i]);
    }
    assert(be@ =~= be_bytes(suffix));
    let h = text::hex_text(be.as_slice());
    text::with_text(prefix, h.as_str(), "")
}

/// A file of the directory is written only below the directory: `resolved` is
/// where its path leads with links followed, `dir` the directory itself.
pub fn check_restored_path(path: &str, resolved: &str, dir: &str) -> (r: Result<(), EraError>)
    ensures
        r is Ok <==> paths::lies_below(resolved@, dir@),
        r matches Err(e) ==> (e matches EraError::Security(m) && m@ == "Path traversal detected: "@
            + path@ + ""@),
{
    if is_below(resolved, dir) {
        return Ok(());
    }
    Err(EraError::Security(text::with_text("Path traversal detected: ", path, "")))
}

/// The name of a new directory that an index out of an archive is put into.
pub fn create_embedded_lsm_restore_dir() -> (name: String)
    ensures
        exists|suffix: u64|
            name@ == "era_lsm_restore_"@ + #[trigger] text::hex(be_bytes(suffix)) + ""@,
{
    let suffix: u64 = random_number();
    lsm_dir_name("era_lsm_restore_", suffix)
}

/// Numbers are written with the lowest byte first; keys, which sort by their bytes, with
/// the highest.
pub proof fn law_order_of_number_bytes(n: nat, key: u64)
    ensures
        le_bytes(n, 4) == seq![
            (n % 256) as u8,
            (n / 256 % 256) as u8,
            (n / 65536 % 256) as u8,
            (n / 16777216 % 256) as u8,
        ],
        le_bytes(n, 8).take(4) == le_bytes(n, 4),
        le_bytes(n, 8).len() == 8,
        le_bytes(n, 8)[4] == (n / 4294967296) % 256,
        be_bytes(key).len() == 8,
        be_bytes(key)[7] == key as int % 256,
        be_bytes(key)[6] == key as int / 256 % 256,
        be_bytes(key)[0] == le_bytes(key as nat, 8)[7],
{
    reveal_with_fuel(le_bytes, 9);
    assert(n / 256 / 256 == n / 65536);
    assert(n / 65536 / 256 == n / 16777216);
    assert(n / 16777216 / 256 == n / 4294967296);
    assert(le_bytes(n, 4) =~= seq![
        (n % 256) as u8,
        (n / 256 % 256) as u8,
        (n / 65536 % 256) as u8,
        (n / 16777216 % 256) as u8,
    ]);
    assert(le_bytes(n, 8).take(4) =~= le_bytes(n, 4));
}

/// Out of an archive no file is taken that is over the limit or whose path leads out of
/// the directory; what the library wrote itself is read back all the same.
pub proof fn law_harmful_files_are_refused(e: EntryView, tail: Seq<u8>)
    requires
        utf8::encode_utf8(e.path).len() <= u32::MAX,
        e.data.len() <= u64::MAX,
    ensures
        e.data.len() > 268435456 ==> entry_fault(entry_bytes(e) + tail, true) == Some(
            EntryFault::TooLarge(e.data.len()),
        ),
        e.data.len() <= 268435456 ==> match paths::path_fault(e.path) {
            Some(f) => entry_fault(entry_bytes(e) + tail, true) == Some(EntryFault::Path(f)),
            None => entry_fault(entry_bytes(e) + tail, true) is None,
        },
        entry_fault(entry_bytes(e) + tail, false) is None,
        entry_at(entry_bytes(e) + tail) == e,
{
    let path = utf8::encode_utf8(e.path);
    let rest = entry_bytes(e) + tail;
    lemma_le_bytes(path.len(), 4);
    lemma_le_bytes(e.data.len(), 8);
    lemma_fits_four(path.len());
    lemma_fits_eight(e.data.len());
    assert(rest.take(4) =~= le_bytes(path.len(), 4));
    assert(path_bytes(rest) =~= path);
    assert(rest.subrange(4 + path.len() as int, 12 + path.len() as int) =~= le_bytes(e.data.len(), 8));
    assert(entry_at(rest).data =~= e.data);
    utf8::encode_utf8_valid_utf8(e.path);
    utf8::encode_utf8_decode_utf8(e.path);
}

/// A manifest that was cut off, be it inside its last file, gives an error and no file
/// that was not written.
pub proof fn law_cut_file_is_noticed(e: EntryView, n: int, strict: bool)
    requires
        utf8::encode_utf8(e.path).len() <= u32::MAX,
        e.data.len() <= 268435456,
        0 <= n < entry_bytes(e).len(),
    ensures
        entry_fault(entry_bytes(e).take(n), strict) == Some(EntryFault::Short),
{
    let path = utf8::encode_utf8(e.path);
    let rest = entry_bytes(e).take(n);
    lemma_le_bytes(path.len(), 4);
    lemma_le_bytes(e.data.len(), 8);
    lemma_fits_four(path.len());
    lemma_fits_eight(e.data.len());
    if n >= 4 {
        assert(rest.take(4) =~= le_bytes(path.len(), 4));
        if n >= 4 + path.len() {
            assert(path_bytes(rest) =~= path);
            utf8::encode_utf8_valid_utf8(e.path);
            if n >= 12 + path.len() {
                assert(rest.subrange(4 + path.len() as int, 12 + path.len() as int) =~= le_bytes(
                    e.data.len(),
                    8,
                ));
            }
        }
    }
}

/// Where two paths part, one of them at a slash, that one comes first; otherwise the one
/// with the lower byte. What a directory holds so comes before its neighbours.
pub proof fn law_slash_comes_first(p: Seq<char>, q: Seq<char>, i: int)
    requires
        0 <= i < utf8::encode_utf8(p).len(),
        i < utf8::encode_utf8(q).len(),
        utf8::encode_utf8(p).take(i) == utf8::encode_utf8(q).take(i),
        utf8::encode_utf8(q)[i] != 47,
        utf8::encode_utf8(q)[i] != 0,
        utf8::encode_utf8(p)[i] == 47 || utf8::encode_utf8(p)[i] < utf8::encode_utf8(q)[i],
    ensures
        ordering::lex_less(path_key(p), path_key(q)),
        !ordering::lex_less(path_key(q), path_key(p)),
{
    let a = utf8::encode_utf8(p);
    let b = utf8::encode_utf8(q);
    let x = path_key(p);
    let y = path_key(q);
    assert forall|k: int| 0 <= k < i implies x.take(i)[k] == y.take(i)[k] by {
        assert(a.take(i)[k] == b.take(i)[k]);
    }
    assert(x.take(i) =~= y.take(i));
    ordering::law_first_difference_decides(x, y, i);
}

/// Listing files by path leaves none out.
pub proof fn law_ordered_files_are_the_same(entries: Seq<EntryView>, order: Seq<usize>, i: int)
    requires
        is_path_order(entries, order),
        entries.len() <= usize::MAX,
        0 <= i < entries.len(),
    ensures
        in_order(entries, order).len() == entries.len(),
        in_order(entries, order).contains(entries[i]),
        i + 1 < entries.len() ==> !ordering::lex_less(
            path_key(in_order(entries, order)[i + 1].path),
            path_key(in_order(entries, order)[i].path),
        ),
{
    assert(order.contains(i as usize));
    let k = choose|k: int| 0 <= k < order.len() && order[k] == i as usize;
    assert(in_order(entries, order)[k] == entries[i]);
    if i + 1 < entries.len() {
        let a = path_key(entries[order[i] as int].path);
        let b = path_key(entries[order[i + 1] as int].path);
        assert(ordering::lex_less(a, b) || (!ordering::lex_less(b, a) && order[i] < order[i + 1]));
        if ordering::lex_less(a, b) && ordering::lex_less(b, a) {
            ordering::lemma_lex_transitive(a, b, a);
            ordering::lemma_lex_irreflexive(a);
        }
    }
}

} // verus!
