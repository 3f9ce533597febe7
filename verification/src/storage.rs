//! The chain store: five key-value namespaces — blocks, height index,
//! UTXO set, transaction index and metadata — kept mutually consistent.
//! Each namespace is a map from byte keys to byte values; a block commit
//! applies all of its writes before any reader can look. The namespaces
//! live in memory: the key layouts and the atomic-commit contract match
//! what an on-disk store would hold, but the contents do not survive
//! the process.

use vstd::prelude::*;
use crate::block::{
    block_from_bytes, enc_block, encode_block, spec_block_hash, Block, BlockV,
};
use crate::bytesutil::{
    spec_u32_to_be_bytes, spec_u64_to_be_bytes, u32_to_be_byte_vec, u64_from_be_slice,
    u64_to_be_byte_vec,
};
use crate::codec::{
    dec_bool, dec_u32, dec_u64, dec_hash32, enc_bool, enc_u32, enc_u64, r_bool, r_hash32, r_u32,
    r_u64, w_bool, w_raw, w_u32, w_u64,
};
use crate::transaction::{
    dec_output, enc_output, lemma_dec_output_of_enc, OutPoint, OutPointV, Transaction, TxOutput,
    TxOutputV, TxV,
};

verus! {

/// One namespace: an association list with unique keys, seen as a map
/// from byte keys to byte values.
pub struct KvMap {
    entries: Vec<(Vec<u8>, Vec<u8>)>,
}

/// Whether `k` appears among the keys.
pub open spec fn kv_has_key(s: Seq<(Vec<u8>, Vec<u8>)>, k: Seq<u8>) -> bool {
    exists|i: int| 0 <= i < s.len() && (#[trigger] s[i]).0@ == k
}

/// The position of `k` among the keys.
pub open spec fn kv_index_of(s: Seq<(Vec<u8>, Vec<u8>)>, k: Seq<u8>) -> int {
    choose|i: int| 0 <= i < s.len() && (#[trigger] s[i]).0@ == k
}

/// No key appears twice.
pub open spec fn kv_wf(s: Seq<(Vec<u8>, Vec<u8>)>) -> bool {
    forall|i: int, j: int|
        0 <= i < j < s.len() ==> (#[trigger] s[i]).0@ != (#[trigger] s[j]).0@
}

/// The map an entry list denotes.
pub open spec fn kv_map_of(s: Seq<(Vec<u8>, Vec<u8>)>) -> Map<Seq<u8>, Seq<u8>> {
    Map::new(|k: Seq<u8>| kv_has_key(s, k), |k: Seq<u8>| s[kv_index_of(s, k)].1@)
}

/// With unique keys, the value found at any matching position is the
/// map's value.
proof fn lemma_kv_value_at(s: Seq<(Vec<u8>, Vec<u8>)>, i: int)
    requires
        kv_wf(s),
        0 <= i < s.len(),
    ensures
        kv_map_of(s).contains_key(s[i].0@),
        kv_map_of(s)[s[i].0@] == s[i].1@,
{
    let k = s[i].0@;
    assert(kv_has_key(s, k));
    let j = kv_index_of(s, k);
    assert(0 <= j < s.len() && s[j].0@ == k);
    if i != j {
        if i < j {
            assert(s[i].0@ != s[j].0@);
        } else {
            assert(s[j].0@ != s[i].0@);
        }
    }
}

impl View for KvMap {
    type V = Map<Seq<u8>, Seq<u8>>;

    closed spec fn view(&self) -> Map<Seq<u8>, Seq<u8>> {
        kv_map_of(self.entries@)
    }
}

impl KvMap {
    /// The unique-keys invariant.
    pub closed spec fn wf(&self) -> bool {
        kv_wf(self.entries@)
    }

    /// An empty namespace.
    pub fn new() -> (r: Self)
        ensures
            r.wf(),
            r@ == Map::<Seq<u8>, Seq<u8>>::empty(),
    {
        let r = KvMap { entries: Vec::new() };
        proof {
            assert(r@ =~= Map::<Seq<u8>, Seq<u8>>::empty());
        }
        r
    }

    /// The number of keys held.
    pub fn len(&self) -> (r: usize)
        requires
            self.wf(),
        ensures
            r == self@.dom().len(),
            self@.dom().finite(),
    {
        proof {
            lemma_kv_card(self.entries@);
        }
        self.entries.len()
    }

    /// The value at `key`, if any.
    pub fn get(&self, key: &[u8]) -> (r: Option<Vec<u8>>)
        requires
            self.wf(),
        ensures
            match r {
                Some(v) => self@.contains_key(key@) && v@ == self@[key@],
                None => !self@.contains_key(key@),
            },
    {
        let n = self.entries.len();
        let mut i: usize = 0;
        while i < n
            invariant
                n == self.entries@.len(),
                0 <= i <= n,
                kv_wf(self.entries@),
                forall|j: int| 0 <= j < i ==> (#[trigger] self.entries@[j]).0@ != key@,
            decreases n - i,
        {
            if crate::bytesutil::bytes_eq(self.entries[i].0.as_slice(), key) {
                let v = crate::bytesutil::bytes_to_vec(self.entries[i].1.as_slice());
                proof {
                    lemma_kv_value_at(self.entries@, i as int);
                }
                return Some(v);
            }
            i = i + 1;
        }
        proof {
            assert(!kv_has_key(self.entries@, key@));
        }
        None
    }

    /// Puts `value` at `key`, replacing any earlier value.
    pub fn put(&mut self, key: Vec<u8>, value: Vec<u8>)
        requires
            old(self).wf(),
        ensures
            final(self).wf(),
            final(self)@ == old(self)@.insert(key@, value@),
    {
        let ghost s0 = self.entries@;
        let n = self.entries.len();
        let mut i: usize = 0;
        while i < n
            invariant
                n == self.entries@.len(),
                0 <= i <= n,
                self.entries@ == s0,
                s0 == old(self).entries@,
                kv_wf(s0),
                forall|j: int| 0 <= j < i ==> (#[trigger] s0[j]).0@ != key@,
            decreases n - i,
        {
            if crate::bytesutil::bytes_eq(self.entries[i].0.as_slice(), key.as_slice()) {
                proof {
                    lemma_kv_update(s0, i as int, key@, value@);
                }
                let slot = vstd::std_specs::vec::vec_index_mut(&mut self.entries, i);
                *slot = (key, value);
                return ;
            }
            i = i + 1;
        }
        proof {
            assert(!kv_has_key(s0, key@));
            lemma_kv_push(s0, key@, value@);
        }
        self.entries.push((key, value));
    }

    /// Removes the value at `key`, if any.
    pub fn delete(&mut self, key: &[u8])
        requires
            old(self).wf(),
        ensures
            final(self).wf(),
            final(self)@ == old(self)@.remove(key@),
    {
        let ghost s0 = self.entries@;
        let n = self.entries.len();
        let mut i: usize = 0;
        while i < n
            invariant
                n == self.entries@.len(),
                0 <= i <= n,
                self.entries@ == s0,
                s0 == old(self).entries@,
                kv_wf(s0),
                forall|j: int| 0 <= j < i ==> (#[trigger] s0[j]).0@ != key@,
            decreases n - i,
        {
            if crate::bytesutil::bytes_eq(self.entries[i].0.as_slice(), key) {
                proof {
                    lemma_kv_remove(s0, i as int);
                }
                let _removed = self.entries.remove(i);
                return ;
            }
            i = i + 1;
        }
        proof {
            assert(!kv_has_key(s0, key@));
            assert(kv_map_of(s0) =~= kv_map_of(s0).remove(key@));
        }
    }
}

/// Replacing the entry at a matching position updates the map at that
/// key.
proof fn lemma_kv_update(s: Seq<(Vec<u8>, Vec<u8>)>, i: int, k: Seq<u8>, v: Seq<u8>)
    requires
        kv_wf(s),
        0 <= i < s.len(),
        s[i].0@ == k,
    ensures
        forall|e: (Vec<u8>, Vec<u8>)|
            e.0@ == k && e.1@ == v ==> kv_wf(s.update(i, e)) && kv_map_of(#[trigger] s.update(i, e))
                == kv_map_of(s).insert(k, v),
{
    assert forall|e: (Vec<u8>, Vec<u8>)| e.0@ == k && e.1@ == v implies kv_wf(s.update(i, e))
        && kv_map_of(#[trigger] s.update(i, e)) == kv_map_of(s).insert(k, v) by {
        let t = s.update(i, e);
        assert forall|a: int, b: int| 0 <= a < b < t.len() implies (#[trigger] t[a]).0@ != (
        #[trigger] t[b]).0@ by {
            assert(t[a].0@ == s[a].0@ && t[b].0@ == s[b].0@);
        }
        assert forall|k2: Seq<u8>| true implies #[trigger] kv_map_of(t).contains_key(k2)
            == kv_map_of(s).insert(k, v).contains_key(k2) by {
            if kv_has_key(t, k2) {
                let j = choose|j: int| 0 <= j < t.len() && (#[trigger] t[j]).0@ == k2;
                assert(s[j].0@ == k2);
                assert(kv_has_key(s, k2));
            }
            if kv_has_key(s, k2) {
                let j = choose|j: int| 0 <= j < s.len() && (#[trigger] s[j]).0@ == k2;
                assert(t[j].0@ == k2);
                assert(kv_has_key(t, k2));
            }
        }
        assert forall|k2: Seq<u8>| kv_map_of(t).contains_key(k2) implies #[trigger] kv_map_of(
            t,
        )[k2] == kv_map_of(s).insert(k, v)[k2] by {
            let j = kv_index_of(t, k2);
            assert(0 <= j < t.len() && t[j].0@ == k2);
            if k2 == k {
                if j != i {
                    assert(t[i].0@ == k);
                    if j < i {
                        assert(t[j].0@ != t[i].0@);
                    } else {
                        assert(t[i].0@ != t[j].0@);
                    }
                }
                assert(j == i);
                assert(kv_map_of(t)[k2] == v);
            } else {
                assert(j != i);
                assert(s[j].0@ == k2);
                lemma_kv_value_at(s, j);
                assert(kv_map_of(t)[k2] == s[j].1@);
            }
        }
        assert(kv_map_of(t) =~= kv_map_of(s).insert(k, v));
    }
}

/// Appending a fresh key inserts it into the map.
proof fn lemma_kv_push(s: Seq<(Vec<u8>, Vec<u8>)>, k: Seq<u8>, v: Seq<u8>)
    requires
        kv_wf(s),
        !kv_has_key(s, k),
    ensures
        forall|e: (Vec<u8>, Vec<u8>)|
            e.0@ == k && e.1@ == v ==> kv_wf(s.push(e)) && kv_map_of(#[trigger] s.push(e))
                == kv_map_of(s).insert(k, v),
{
    assert forall|e: (Vec<u8>, Vec<u8>)| e.0@ == k && e.1@ == v implies kv_wf(s.push(e))
        && kv_map_of(#[trigger] s.push(e)) == kv_map_of(s).insert(k, v) by {
        let t = s.push(e);
        assert forall|a: int, b: int| 0 <= a < b < t.len() implies (#[trigger] t[a]).0@ != (
        #[trigger] t[b]).0@ by {
            if b < s.len() {
                assert(t[a].0@ == s[a].0@ && t[b].0@ == s[b].0@);
            } else {
                assert(t[b].0@ == k);
                assert(t[a].0@ == s[a].0@);
                assert(kv_has_key(s, s[a].0@));
            }
        }
        assert forall|k2: Seq<u8>| true implies #[trigger] kv_map_of(t).contains_key(k2)
            == kv_map_of(s).insert(k, v).contains_key(k2) by {
            if kv_has_key(t, k2) {
                let j = choose|j: int| 0 <= j < t.len() && (#[trigger] t[j]).0@ == k2;
                if j < s.len() {
                    assert(s[j].0@ == k2);
                    assert(kv_has_key(s, k2));
                } else {
                    assert(k2 == k);
                }
            }
            if kv_has_key(s, k2) {
                let j = choose|j: int| 0 <= j < s.len() && (#[trigger] s[j]).0@ == k2;
                assert(t[j].0@ == k2);
                assert(kv_has_key(t, k2));
            }
            if k2 == k {
                assert(t[s.len() as int].0@ == k);
                assert(kv_has_key(t, k2));
            }
        }
        assert forall|k2: Seq<u8>| kv_map_of(t).contains_key(k2) implies #[trigger] kv_map_of(
            t,
        )[k2] == kv_map_of(s).insert(k, v)[k2] by {
            let j = kv_index_of(t, k2);
            assert(0 <= j < t.len() && t[j].0@ == k2);
            if k2 == k {
                if j < s.len() {
                    assert(s[j].0@ == k);
                    assert(kv_has_key(s, k));
                }
                assert(j == s.len());
                assert(kv_map_of(t)[k2] == v);
            } else {
                assert(j < s.len());
                assert(s[j].0@ == k2);
                lemma_kv_value_at(s, j);
                assert(kv_map_of(t)[k2] == s[j].1@);
            }
        }
        assert(kv_map_of(t) =~= kv_map_of(s).insert(k, v));
    }
}

/// Removing the entry at a matching position removes its key from the
/// map.
proof fn lemma_kv_remove(s: Seq<(Vec<u8>, Vec<u8>)>, i: int)
    requires
        kv_wf(s),
        0 <= i < s.len(),
    ensures
        kv_wf(s.remove(i)),
        kv_map_of(s.remove(i)) == kv_map_of(s).remove(s[i].0@),
{
    let k = s[i].0@;
    let t = s.remove(i);
    assert forall|a: int, b: int| 0 <= a < b < t.len() implies (#[trigger] t[a]).0@ != (
    #[trigger] t[b]).0@ by {
        let a2 = if a < i { a } else { a + 1 };
        let b2 = if b < i { b } else { b + 1 };
        assert(t[a].0@ == s[a2].0@ && t[b].0@ == s[b2].0@);
    }
    assert forall|k2: Seq<u8>| true implies #[trigger] kv_map_of(t).contains_key(k2) == kv_map_of(
        s,
    ).remove(k).contains_key(k2) by {
        if kv_has_key(t, k2) {
            let j = choose|j: int| 0 <= j < t.len() && (#[trigger] t[j]).0@ == k2;
            let j2 = if j < i { j } else { j + 1 };
            assert(s[j2].0@ == k2);
            assert(kv_has_key(s, k2));
            if k2 == k {
                if j2 != i {
                    if j2 < i {
                        assert(s[j2].0@ != s[i].0@);
                    } else {
                        assert(s[i].0@ != s[j2].0@);
                    }
                }
            }
        }
        if kv_has_key(s, k2) && k2 != k {
            let j = choose|j: int| 0 <= j < s.len() && (#[trigger] s[j]).0@ == k2;
            assert(j != i);
            let j2 = if j < i { j } else { j - 1 };
            assert(t[j2].0@ == k2);
            assert(kv_has_key(t, k2));
        }
    }
    assert forall|k2: Seq<u8>| kv_map_of(t).contains_key(k2) implies #[trigger] kv_map_of(t)[k2]
        == kv_map_of(s).remove(k)[k2] by {
        let j = kv_index_of(t, k2);
        assert(0 <= j < t.len() && t[j].0@ == k2);
        let j2 = if j < i { j } else { j + 1 };
        assert(s[j2].0@ == k2);
        lemma_kv_value_at(s, j2);
        assert(kv_map_of(t)[k2] == t[j].1@);
        assert(t[j].1@ == s[j2].1@);
    }
    assert(kv_map_of(t) =~= kv_map_of(s).remove(k));
}

/// An unspent output as the store holds it: the output, the height it
/// was created at, and whether it came from a coinbase.
#[derive(Debug, Clone, PartialEq, Eq)]
pub struct UtxoEntry {
    /// The unspent output.
    pub output: TxOutput,
    /// Height of the block that created it.
    pub block_height: u64,
    /// Whether the creating transaction was a coinbase.
    pub is_coinbase: bool,
}

/// Where a committed transaction sits.
#[derive(Debug, Clone, Copy, PartialEq, Eq)]
pub struct TxLocation {
    /// Hash of the holding block.
    pub block_hash: [u8; 32],
    /// Index within that block.
    pub tx_index: u32,
    /// Height of that block.
    pub block_height: u64,
}

/// Chain metadata: the tip, its height, accumulated work and the
/// genesis hash.
#[derive(Debug, Clone, Copy, PartialEq, Eq)]
pub struct ChainMetadata {
    /// Hash of the best block.
    pub best_block_hash: [u8; 32],
    /// Height of the best block.
    pub height: u64,
    /// Accumulated work; not yet tracked, always 0.
    pub total_work: u64,
    /// Hash of the genesis block.
    pub genesis_hash: [u8; 32],
}

/// A glance at the store.
#[derive(Debug, Clone, Copy, PartialEq, Eq)]
pub struct DatabaseStats {
    /// Height of the best block.
    pub height: u64,
    /// Hash of the best block.
    pub best_block_hash: [u8; 32],
    /// Number of unspent outputs.
    pub utxo_set_size: u64,
    /// Number of blocks, genesis included.
    pub total_blocks: u64,
}

/// What can go wrong in the store.
#[derive(Debug, Clone, PartialEq, Eq)]
pub enum StorageError {
    /// The store could not be opened.
    DatabaseOpen(String),
    /// A namespace is missing.
    ColumnFamilyNotFound(String),
    /// A read failed.
    Read(String),
    /// A write failed.
    Write(String),
    /// A value could not be written out.
    Serialization(String),
    /// A stored value could not be read back.
    Deserialization(String),
    /// A stored value has the wrong shape.
    InvalidData(String),
    /// No block under this hash.
    BlockNotFound { hash: [u8; 32] },
    /// No unspent output at this outpoint.
    UtxoNotFound { outpoint: OutPoint },
}

/// Mathematical value of a `UtxoEntry`.
pub ghost struct UtxoEntryV {
    pub output: TxOutputV,
    pub block_height: u64,
    pub is_coinbase: bool,
}

/// Mathematical value of a `TxLocation`.
pub ghost struct TxLocationV {
    pub block_hash: Seq<u8>,
    pub tx_index: u32,
    pub block_height: u64,
}

/// Mathematical value of a `ChainMetadata`.
pub ghost struct ChainMetadataV {
    pub best_block_hash: Seq<u8>,
    pub height: u64,
    pub total_work: u64,
    pub genesis_hash: Seq<u8>,
}

impl View for UtxoEntry {
    type V = UtxoEntryV;

    open spec fn view(&self) -> UtxoEntryV {
        UtxoEntryV {
            output: self.output@,
            block_height: self.block_height,
            is_coinbase: self.is_coinbase,
        }
    }
}

impl View for TxLocation {
    type V = TxLocationV;

    open spec fn view(&self) -> TxLocationV {
        TxLocationV {
            block_hash: self.block_hash@,
            tx_index: self.tx_index,
            block_height: self.block_height,
        }
    }
}

impl View for ChainMetadata {
    type V = ChainMetadataV;

    open spec fn view(&self) -> ChainMetadataV {
        ChainMetadataV {
            best_block_hash: self.best_block_hash@,
            height: self.height,
            total_work: self.total_work,
            genesis_hash: self.genesis_hash@,
        }
    }
}

/// Wire format of a stored unspent output.
pub open spec fn enc_utxo_entry(u: UtxoEntryV) -> Seq<u8> {
    enc_output(u.output) + enc_u64(u.block_height) + enc_bool(u.is_coinbase)
}

/// Reads a stored unspent output.
pub open spec fn dec_utxo_entry(s: Seq<u8>, pos: int) -> Option<(UtxoEntryV, int)> {
    match dec_output(s, pos) {
        Some((o, p1)) => match dec_u64(s, p1) {
            Some((h, p2)) => match dec_bool(s, p2) {
                Some((cb, p3)) => Some(
                    (UtxoEntryV { output: o, block_height: h, is_coinbase: cb }, p3),
                ),
                None => None,
            },
            None => None,
        },
        None => None,
    }
}

/// The unspent output a whole stored value denotes.
pub open spec fn utxo_from_bytes(s: Seq<u8>) -> Option<UtxoEntryV> {
    match dec_utxo_entry(s, 0) {
        Some((u, p)) => if p == s.len() {
            Some(u)
        } else {
            None
        },
        None => None,
    }
}

/// Wire format of a transaction location.
pub open spec fn enc_tx_location(l: TxLocationV) -> Seq<u8> {
    l.block_hash + enc_u32(l.tx_index) + enc_u64(l.block_height)
}

/// Reads a transaction location.
pub open spec fn dec_tx_location(s: Seq<u8>, pos: int) -> Option<(TxLocationV, int)> {
    match dec_hash32(s, pos) {
        Some((bh, p1)) => match dec_u32(s, p1) {
            Some((ti, p2)) => match dec_u64(s, p2) {
                Some((h, p3)) => Some(
                    (TxLocationV { block_hash: bh, tx_index: ti, block_height: h }, p3),
                ),
                None => None,
            },
            None => None,
        },
        None => None,
    }
}

/// The location a whole stored value denotes.
pub open spec fn loc_from_bytes(s: Seq<u8>) -> Option<TxLocationV> {
    match dec_tx_location(s, 0) {
        Some((l, p)) => if p == s.len() {
            Some(l)
        } else {
            None
        },
        None => None,
    }
}

/// A well-formed stored output reads back as itself.
pub proof fn lemma_utxo_round_trip(u: UtxoEntryV)
    requires
        u.output.asset_id.len() == 32,
        u.output.script_pubkey.len() <= usize::MAX,
    ensures
        utxo_from_bytes(enc_utxo_entry(u)) == Some(u),
{
    crate::codec::lemma_u64_round_trip();
    let e = enc_utxo_entry(u);
    let lo = enc_output(u.output).len() as int;
    assert(e.subrange(0, e.len() as int) =~= e);
    assert(e.subrange(0, lo) =~= enc_output(u.output));
    lemma_dec_output_of_enc(e, 0, u.output);
    assert(e.subrange(lo, lo + 8) =~= enc_u64(u.block_height));
    crate::codec::lemma_dec_u64_of_enc(e, lo, u.block_height);
    assert(e[lo + 8] == (if u.is_coinbase {
        1u8
    } else {
        0u8
    }));
    assert(u == (UtxoEntryV {
        output: u.output,
        block_height: u.block_height,
        is_coinbase: u.is_coinbase,
    }));
}

/// A well-formed stored location reads back as itself.
pub proof fn lemma_loc_round_trip(l: TxLocationV)
    requires
        l.block_hash.len() == 32,
    ensures
        loc_from_bytes(enc_tx_location(l)) == Some(l),
{
    crate::codec::lemma_u64_round_trip();
    let e = enc_tx_location(l);
    assert(e.subrange(0, e.len() as int) =~= e);
    assert(e.subrange(0, 32) =~= l.block_hash);
    assert(e.subrange(32, 36) =~= enc_u32(l.tx_index));
    crate::codec::lemma_dec_u32_of_enc(e, 32, l.tx_index);
    assert(e.subrange(36, 44) =~= enc_u64(l.block_height));
    crate::codec::lemma_dec_u64_of_enc(e, 36, l.block_height);
    assert(l == (TxLocationV {
        block_hash: l.block_hash,
        tx_index: l.tx_index,
        block_height: l.block_height,
    }));
}

/// The stored form of an unspent output.
fn encode_utxo_entry(u: &UtxoEntry) -> (r: Vec<u8>)
    ensures
        r@ == enc_utxo_entry(u@),
{
    let mut out: Vec<u8> = Vec::new();
    w_u64(&mut out, u.output.value);
    w_raw(&mut out, u.output.asset_id.as_slice());
    crate::codec::w_bytes(&mut out, u.output.script_pubkey.as_slice());
    w_u64(&mut out, u.block_height);
    w_bool(&mut out, u.is_coinbase);
    proof {
        assert(out@ =~= enc_utxo_entry(u@));
    }
    out
}

/// Reads a stored unspent output back.
fn decode_utxo_entry(s: &[u8]) -> (r: Option<UtxoEntry>)
    ensures
        match r {
            Some(u) => utxo_from_bytes(s@) == Some(u@),
            None => utxo_from_bytes(s@) is None,
        },
{
    let (value, p1) = match r_u64(s, 0) {
        Some(x) => x,
        None => {
            return None;
        },
    };
    let (asset, p2) = match r_hash32(s, p1) {
        Some(x) => x,
        None => {
            return None;
        },
    };
    let (spk, p3) = match crate::codec::r_bytes(s, p2) {
        Some(x) => x,
        None => {
            return None;
        },
    };
    let (h, p4) = match r_u64(s, p3) {
        Some(x) => x,
        None => {
            return None;
        },
    };
    let (cb, p5) = match r_bool(s, p4) {
        Some(x) => x,
        None => {
            return None;
        },
    };
    if p5 != s.len() {
        return None;
    }
    Some(
        UtxoEntry {
            output: TxOutput { value, asset_id: asset, script_pubkey: spk },
            block_height: h,
            is_coinbase: cb,
        },
    )
}

/// The stored form of a transaction location.
fn encode_tx_location(l: &TxLocation) -> (r: Vec<u8>)
    ensures
        r@ == enc_tx_location(l@),
{
    let mut out: Vec<u8> = Vec::new();
    w_raw(&mut out, l.block_hash.as_slice());
    w_u32(&mut out, l.tx_index);
    w_u64(&mut out, l.block_height);
    proof {
        assert(out@ =~= enc_tx_location(l@));
    }
    out
}

/// Reads a stored transaction location back.
fn decode_tx_location(s: &[u8]) -> (r: Option<TxLocation>)
    ensures
        match r {
            Some(l) => loc_from_bytes(s@) == Some(l@),
            None => loc_from_bytes(s@) is None,
        },
{
    let (bh, p1) = match r_hash32(s, 0) {
        Some(x) => x,
        None => {
            return None;
        },
    };
    let (ti, p2) = match r_u32(s, p1) {
        Some(x) => x,
        None => {
            return None;
        },
    };
    let (h, p3) = match r_u64(s, p2) {
        Some(x) => x,
        None => {
            return None;
        },
    };
    if p3 != s.len() {
        return None;
    }
    Some(TxLocation { block_hash: bh, tx_index: ti, block_height: h })
}

/// The UTXO key of an outpoint: the txid then the big-endian index.
pub open spec fn utxo_key(txid: Seq<u8>, vout: u32) -> Seq<u8> {
    txid + spec_u32_to_be_bytes(vout)
}

/// The height-index key: the height in big-endian bytes.
pub open spec fn height_key(h: u64) -> Seq<u8> {
    spec_u64_to_be_bytes(h)
}

/// The metadata key naming the best block hash.
pub open spec fn meta_best_key() -> Seq<u8> {
    seq![
        0x62u8, 0x65, 0x73, 0x74, 0x5f, 0x62, 0x6c, 0x6f, 0x63, 0x6b, 0x5f, 0x68, 0x61, 0x73,
        0x68,
    ]
}

/// The metadata key naming the chain height.
pub open spec fn meta_height_key() -> Seq<u8> {
    seq![
        0x62u8, 0x6c, 0x6f, 0x63, 0x6b, 0x63, 0x68, 0x61, 0x69, 0x6e, 0x5f, 0x68, 0x65, 0x69,
        0x67, 0x68, 0x74,
    ]
}

/// The metadata key naming the genesis hash.
pub open spec fn meta_genesis_key() -> Seq<u8> {
    seq![0x67u8, 0x65, 0x6e, 0x65, 0x73, 0x69, 0x73, 0x5f, 0x68, 0x61, 0x73, 0x68]
}

/// The ASCII bytes of the best-block metadata key.
fn meta_best_key_bytes() -> (r: Vec<u8>)
    ensures
        r@ == meta_best_key(),
{
    let mut v: Vec<u8> = Vec::new();
    v.push(0x62);
    v.push(0x65);
    v.push(0x73);
    v.push(0x74);
    v.push(0x5f);
    v.push(0x62);
    v.push(0x6c);
    v.push(0x6f);
    v.push(0x63);
    v.push(0x6b);
    v.push(0x5f);
    v.push(0x68);
    v.push(0x61);
    v.push(0x73);
    v.push(0x68);
    proof {
        assert(v@ =~= meta_best_key());
    }
    v
}

/// The ASCII bytes of the height metadata key.
fn meta_height_key_bytes() -> (r: Vec<u8>)
    ensures
        r@ == meta_height_key(),
{
    let mut v: Vec<u8> = Vec::new();
    v.push(0x62);
    v.push(0x6c);
    v.push(0x6f);
    v.push(0x63);
    v.push(0x6b);
    v.push(0x63);
    v.push(0x68);
    v.push(0x61);
    v.push(0x69);
    v.push(0x6e);
    v.push(0x5f);
    v.push(0x68);
    v.push(0x65);
    v.push(0x69);
    v.push(0x67);
    v.push(0x68);
    v.push(0x74);
    proof {
        assert(v@ =~= meta_height_key());
    }
    v
}

/// The ASCII bytes of the genesis metadata key.
fn meta_genesis_key_bytes() -> (r: Vec<u8>)
    ensures
        r@ == meta_genesis_key(),
{
    let mut v: Vec<u8> = Vec::new();
    v.push(0x67);
    v.push(0x65);
    v.push(0x6e);
    v.push(0x65);
    v.push(0x73);
    v.push(0x69);
    v.push(0x73);
    v.push(0x5f);
    v.push(0x68);
    v.push(0x61);
    v.push(0x73);
    v.push(0x68);
    proof {
        assert(v@ =~= meta_genesis_key());
    }
    v
}

/// The key bytes of an outpoint.
fn outpoint_key_bytes(txid: &[u8; 32], vout: u32) -> (r: Vec<u8>)
    ensures
        r@ == utxo_key(txid@, vout),
{
    let mut v = crate::bytesutil::bytes_to_vec(txid.as_slice());
    let be = u32_to_be_byte_vec(vout);
    w_raw(&mut v, be.as_slice());
    proof {
        assert(v@ =~= utxo_key(txid@, vout));
    }
    v
}

/// The UTXO set with a transaction's spent outpoints removed.
pub open spec fn remove_inputs(
    m: Map<Seq<u8>, Seq<u8>>,
    inputs: Seq<crate::transaction::TxInputV>,
) -> Map<Seq<u8>, Seq<u8>>
    decreases inputs.len(),
{
    if inputs.len() == 0 {
        m
    } else {
        remove_inputs(
            m.remove(
                utxo_key(
                    inputs.first().previous_output.txid,
                    inputs.first().previous_output.vout,
                ),
            ),
            inputs.drop_first(),
        )
    }
}

/// The UTXO set with a transaction's outputs added from index `from`.
pub open spec fn add_outputs(
    m: Map<Seq<u8>, Seq<u8>>,
    txid: Seq<u8>,
    outs: Seq<TxOutputV>,
    from: int,
    height: u64,
    cb: bool,
) -> Map<Seq<u8>, Seq<u8>>
    decreases outs.len() - from,
{
    if from < 0 || from >= outs.len() {
        m
    } else {
        add_outputs(
            m.insert(
                utxo_key(txid, from as u32),
                enc_utxo_entry(
                    UtxoEntryV { output: outs[from], block_height: height, is_coinbase: cb },
                ),
            ),
            txid,
            outs,
            from + 1,
            height,
            cb,
        )
    }
}

/// One transaction's effect on the UTXO set: its inputs leave (unless it
/// is a coinbase) and its outputs arrive.
pub open spec fn apply_tx_utxo(m: Map<Seq<u8>, Seq<u8>>, t: TxV, height: u64) -> Map<
    Seq<u8>,
    Seq<u8>,
> {
    let m1 = if t.is_coinbase() {
        m
    } else {
        remove_inputs(m, t.inputs)
    };
    add_outputs(m1, crate::transaction::spec_tx_hash(t), t.outputs, 0, height, t.is_coinbase())
}

/// A whole block's effect on the UTXO set, transaction by transaction.
pub open spec fn apply_txs_utxo(m: Map<Seq<u8>, Seq<u8>>, txs: Seq<TxV>, height: u64) -> Map<
    Seq<u8>,
    Seq<u8>,
>
    decreases txs.len(),
{
    if txs.len() == 0 {
        m
    } else {
        apply_txs_utxo(apply_tx_utxo(m, txs.first(), height), txs.drop_first(), height)
    }
}

/// A whole block's effect on the transaction index: each id maps to its
/// location.
pub open spec fn apply_txs_index(
    m: Map<Seq<u8>, Seq<u8>>,
    txs: Seq<TxV>,
    bh: Seq<u8>,
    height: u64,
    idx: int,
) -> Map<Seq<u8>, Seq<u8>>
    decreases txs.len(),
{
    if txs.len() == 0 {
        m
    } else {
        apply_txs_index(
            m.insert(
                crate::transaction::spec_tx_hash(txs.first()),
                enc_tx_location(
                    TxLocationV { block_hash: bh, tx_index: idx as u32, block_height: height },
                ),
            ),
            txs.drop_first(),
            bh,
            height,
            idx + 1,
        )
    }
}

/// The metadata a metadata namespace denotes: a missing or misshapen
/// entry reads as its zero default.
pub open spec fn spec_metadata(meta: Map<Seq<u8>, Seq<u8>>) -> ChainMetadataV {
    ChainMetadataV {
        best_block_hash: if meta.contains_key(meta_best_key()) && meta[meta_best_key()].len()
            == 32 {
            meta[meta_best_key()]
        } else {
            crate::transaction::zero32()
        },
        height: if meta.contains_key(meta_height_key()) && meta[meta_height_key()].len() == 8 {
            crate::bytesutil::spec_u64_of_be_bytes(
                meta[meta_height_key()][0],
                meta[meta_height_key()][1],
                meta[meta_height_key()][2],
                meta[meta_height_key()][3],
                meta[meta_height_key()][4],
                meta[meta_height_key()][5],
                meta[meta_height_key()][6],
                meta[meta_height_key()][7],
            )
        } else {
            0u64
        },
        total_work: 0u64,
        genesis_hash: if meta.contains_key(meta_genesis_key()) && meta[meta_genesis_key()].len()
            == 32 {
            meta[meta_genesis_key()]
        } else {
            crate::transaction::zero32()
        },
    }
}

/// Whether an unspent output exists at `op` and may be spent at
/// `current_height`: coinbase outputs wait out their maturity.
pub open spec fn spec_spendable(
    utxos: Map<Seq<u8>, Seq<u8>>,
    op: OutPointV,
    current_height: u64,
) -> bool {
    let k = utxo_key(op.txid, op.vout);
    &&& utxos.contains_key(k)
    &&& match utxo_from_bytes(utxos[k]) {
        Some(u) => !u.is_coinbase || current_height >= u.block_height
            + crate::COINBASE_MATURITY,
        None => false,
    }
}

/// With unique keys, the domain is finite and as large as the list.
proof fn lemma_kv_card(s: Seq<(Vec<u8>, Vec<u8>)>)
    requires
        kv_wf(s),
    ensures
        kv_map_of(s).dom().finite(),
        kv_map_of(s).dom().len() == s.len(),
    decreases s.len(),
{
    if s.len() == 0 {
        assert(kv_map_of(s).dom() =~= Set::<Seq<u8>>::empty());
    } else {
        let d = s.drop_last();
        let last = s.last();
        assert(kv_wf(d));
        lemma_kv_card(d);
        assert forall|k2: Seq<u8>| true implies #[trigger] kv_map_of(s).dom().contains(k2)
            == kv_map_of(d).dom().insert(last.0@).contains(k2) by {
            if kv_has_key(s, k2) {
                let j = choose|j: int| 0 <= j < s.len() && (#[trigger] s[j]).0@ == k2;
                if j < d.len() {
                    assert(d[j].0@ == k2);
                    assert(kv_has_key(d, k2));
                } else {
                    assert(k2 == last.0@);
                }
            }
            if kv_has_key(d, k2) {
                let j = choose|j: int| 0 <= j < d.len() && (#[trigger] d[j]).0@ == k2;
                assert(s[j].0@ == k2);
                assert(kv_has_key(s, k2));
            }
            if k2 == last.0@ {
                assert(s[s.len() - 1].0@ == k2);
                assert(kv_has_key(s, k2));
            }
        }
        assert(kv_map_of(s).dom() =~= kv_map_of(d).dom().insert(last.0@));
        if kv_has_key(d, last.0@) {
            let j = choose|j: int| 0 <= j < d.len() && (#[trigger] d[j]).0@ == last.0@;
            assert(s[j].0@ == s[s.len() - 1].0@);
            assert(false);
        }
        assert(!kv_map_of(d).dom().contains(last.0@));
    }
}

/// The chain store over its five namespaces. A block commit applies
/// every write of the block before returning, so no reader sees a
/// partial commit.
pub struct BlockchainDB {
    blocks: KvMap,
    heights: KvMap,
    utxos: KvMap,
    txindex: KvMap,
    meta: KvMap,
}

impl BlockchainDB {
    /// Every namespace keeps unique keys.
    pub closed spec fn wf(&self) -> bool {
        self.blocks.wf() && self.heights.wf() && self.utxos.wf() && self.txindex.wf()
            && self.meta.wf()
    }

    /// The block namespace: block hash to block bytes.
    pub closed spec fn blocks_map(&self) -> Map<Seq<u8>, Seq<u8>> {
        self.blocks@
    }

    /// The height index: big-endian height to block hash.
    pub closed spec fn heights_map(&self) -> Map<Seq<u8>, Seq<u8>> {
        self.heights@
    }

    /// The UTXO set: outpoint key to stored entry bytes.
    pub closed spec fn utxos_map(&self) -> Map<Seq<u8>, Seq<u8>> {
        self.utxos@
    }

    /// The transaction index: txid to stored location bytes.
    pub closed spec fn txindex_map(&self) -> Map<Seq<u8>, Seq<u8>> {
        self.txindex@
    }

    /// The metadata namespace.
    pub closed spec fn meta_map(&self) -> Map<Seq<u8>, Seq<u8>> {
        self.meta@
    }

    /// Opens a fresh, empty store. The store lives in memory; the path
    /// names it for callers but carries no persisted data.
    pub fn open(path: &str) -> (r: Result<Self, StorageError>)
        ensures
            match r {
                Ok(db) => db.wf() && db.blocks_map() == Map::<Seq<u8>, Seq<u8>>::empty()
                    && db.heights_map() == Map::<Seq<u8>, Seq<u8>>::empty() && db.utxos_map()
                    == Map::<Seq<u8>, Seq<u8>>::empty() && db.txindex_map() == Map::<
                    Seq<u8>,
                    Seq<u8>,
                >::empty() && db.meta_map() == Map::<Seq<u8>, Seq<u8>>::empty(),
                Err(_) => false,
            },
    {
        let _ = path;
        Ok(
            BlockchainDB {
                blocks: KvMap::new(),
                heights: KvMap::new(),
                utxos: KvMap::new(),
                txindex: KvMap::new(),
                meta: KvMap::new(),
            },
        )
    }

    /// Commits one block: the block and its height index entry, every
    /// transaction's location, the spent outpoints' departure and the
    /// new outputs' arrival, and the tip metadata, all applied before
    /// the call returns.
    pub fn store_block(&mut self, block: &Block) -> (r: Result<(), StorageError>)
        requires
            old(self).wf(),
        ensures
            final(self).wf(),
            r is Ok,
            final(self).blocks_map() == old(self).blocks_map().insert(
                spec_block_hash(block@),
                enc_block(block@),
            ),
            final(self).heights_map() == old(self).heights_map().insert(
                height_key(block@.header.height),
                spec_block_hash(block@),
            ),
            final(self).utxos_map() == apply_txs_utxo(
                old(self).utxos_map(),
                block@.transactions,
                block@.header.height,
            ),
            final(self).txindex_map() == apply_txs_index(
                old(self).txindex_map(),
                block@.transactions,
                spec_block_hash(block@),
                block@.header.height,
                0,
            ),
            final(self).meta_map() == old(self).meta_map().insert(
                meta_best_key(),
                spec_block_hash(block@),
            ).insert(meta_height_key(), height_key(block@.header.height)),
    {
        let ghost txv = block@.transactions;
        let block_hash = block.hash();
        let height = block.header.height;
        let block_bytes = encode_block(block);
        self.blocks.put(crate::bytesutil::bytes_to_vec(block_hash.as_slice()), block_bytes);
        self.heights.put(
            u64_to_be_byte_vec(height),
            crate::bytesutil::bytes_to_vec(block_hash.as_slice()),
        );
        let ghost u0 = self.utxos@;
        let ghost ti0 = self.txindex@;
        let ghost blocks1 = self.blocks@;
        let ghost heights1 = self.heights@;
        let ghost meta0 = self.meta@;
        proof {
            assert(txv.skip(0) =~= txv);
        }
        let n = block.transactions.len();
        let mut i: usize = 0;
        while i < n
            invariant
                n == block.transactions@.len(),
                0 <= i <= n,
                txv == block@.transactions,
                txv.len() == n,
                self.wf(),
                self.blocks@ == blocks1,
                self.heights@ == heights1,
                self.meta@ == meta0,
                block_hash@ == spec_block_hash(block@),
                height == block@.header.height,
                apply_txs_utxo(u0, txv, height) == apply_txs_utxo(
                    self.utxos@,
                    txv.skip(i as int),
                    height,
                ),
                apply_txs_index(ti0, txv, block_hash@, height, 0) == apply_txs_index(
                    self.txindex@,
                    txv.skip(i as int),
                    block_hash@,
                    height,
                    i as int,
                ),
            decreases n - i,
        {
            let tx = &block.transactions[i];
            proof {
                assert(txv[i as int] == block.transactions@[i as int]@);
                assert(txv.skip(i as int).first() == txv[i as int]);
                assert(txv.skip(i as int).drop_first() =~= txv.skip(i + 1));
            }
            let tx_hash = tx.hash();
            let loc = TxLocation {
                block_hash,
                tx_index: #[verifier::truncate] (i as u32),
                block_height: height,
            };
            let loc_bytes = encode_tx_location(&loc);
            self.txindex.put(crate::bytesutil::bytes_to_vec(tx_hash.as_slice()), loc_bytes);
            let ghost ti_now = self.txindex@;
            let is_cb = tx.is_coinbase();
            let ghost u_tx0 = self.utxos@;
            if !is_cb {
                let ghost um = self.utxos@;
                let ghost ins = txv[i as int].inputs;
                proof {
                    assert(ins.skip(0) =~= ins);
                }
                let m = tx.inputs.len();
                let mut j: usize = 0;
                while j < m
                    invariant
                        m == tx.inputs@.len(),
                        0 <= j <= m,
                        ins == txv[i as int].inputs,
                        ins.len() == m,
                        ins == tx.inputs@.map_values(|x: crate::transaction::TxInput| x@),
                        self.wf(),
                        self.blocks@ == blocks1,
                        self.heights@ == heights1,
                        self.meta@ == meta0,
                        self.txindex@ == ti_now,
                        remove_inputs(um, ins) == remove_inputs(self.utxos@, ins.skip(j as int)),
                    decreases m - j,
                {
                    proof {
                        assert(ins.skip(j as int).first() == ins[j as int]);
                        assert(ins.skip(j as int).drop_first() =~= ins.skip(j + 1));
                        assert(ins[j as int] == tx.inputs@[j as int]@);
                    }
                    let key = outpoint_key_bytes(
                        &tx.inputs[j].previous_output.txid,
                        tx.inputs[j].previous_output.vout,
                    );
                    self.utxos.delete(key.as_slice());
                    j = j + 1;
                }
                proof {
                    assert(ins.skip(m as int) =~= Seq::<crate::transaction::TxInputV>::empty());
                    assert(remove_inputs(um, ins) == self.utxos@);
                }
            }
            let ghost u_mid = self.utxos@;
            let ghost outs = txv[i as int].outputs;
            let m = tx.outputs.len();
            let mut j: usize = 0;
            while j < m
                invariant
                    m == tx.outputs@.len(),
                    0 <= j <= m,
                    outs == txv[i as int].outputs,
                    outs.len() == m,
                    outs == tx.outputs@.map_values(|x: TxOutput| x@),
                    tx_hash@ == crate::transaction::spec_tx_hash(txv[i as int]),
                    is_cb == txv[i as int].is_coinbase(),
                    height == block@.header.height,
                    self.wf(),
                    self.blocks@ == blocks1,
                    self.heights@ == heights1,
                    self.meta@ == meta0,
                    self.txindex@ == ti_now,
                    add_outputs(u_mid, tx_hash@, outs, 0, height, is_cb) == add_outputs(
                        self.utxos@,
                        tx_hash@,
                        outs,
                        j as int,
                        height,
                        is_cb,
                    ),
                decreases m - j,
            {
                proof {
                    assert(outs[j as int] == tx.outputs@[j as int]@);
                }
                let key = outpoint_key_bytes(&tx_hash, #[verifier::truncate] (j as u32));
                let value = encode_utxo_parts(&tx.outputs[j], height, is_cb);
                self.utxos.put(key, value);
                j = j + 1;
            }
            proof {
                assert(add_outputs(u_mid, tx_hash@, outs, 0, height, is_cb) == self.utxos@);
                if is_cb {
                    assert(u_mid == u_tx0);
                } else {
                    assert(u_mid == remove_inputs(u_tx0, txv[i as int].inputs));
                }
                assert(apply_tx_utxo(u_tx0, txv[i as int], height) == self.utxos@);
                assert(txv.skip(i as int).first() == txv[i as int]);
                assert(txv.skip(i as int).drop_first() =~= txv.skip(i + 1));
            }
            i = i + 1;
        }
        proof {
            assert(txv.skip(n as int) =~= Seq::<TxV>::empty());
        }
        self.meta.put(
            meta_best_key_bytes(),
            crate::bytesutil::bytes_to_vec(block_hash.as_slice()),
        );
        self.meta.put(meta_height_key_bytes(), u64_to_be_byte_vec(height));
        Ok(())
    }

    /// The block stored under `block_hash`, if any.
    pub fn get_block(&self, block_hash: &[u8; 32]) -> (r: Result<Option<Block>, StorageError>)
        requires
            self.wf(),
        ensures
            match r {
                Ok(Some(b)) => self.blocks_map().contains_key(block_hash@) && block_from_bytes(
                    self.blocks_map()[block_hash@],
                ) == Some(b@),
                Ok(None) => !self.blocks_map().contains_key(block_hash@),
                Err(e) => self.blocks_map().contains_key(block_hash@) && block_from_bytes(
                    self.blocks_map()[block_hash@],
                ) is None && (e matches StorageError::Deserialization(_)),
            },
    {
        match self.blocks.get(block_hash.as_slice()) {
            Some(bytes) => match crate::block::decode_block(bytes.as_slice()) {
                Some(b) => Ok(Some(b)),
                None => Err(
                    StorageError::Deserialization(
                        String::from_str("stored block bytes do not parse"),
                    ),
                ),
            },
            None => Ok(None),
        }
    }

    /// The block stored at `height`, if any: one indirection through the
    /// height index.
    pub fn get_block_by_height(&self, height: u64) -> (r: Result<Option<Block>, StorageError>)
        requires
            self.wf(),
        ensures
            ({
                let hk = height_key(height);
                match r {
                    Ok(Some(b)) => self.heights_map().contains_key(hk) && self.heights_map()[hk].len()
                        == 32 && self.blocks_map().contains_key(self.heights_map()[hk])
                        && block_from_bytes(self.blocks_map()[self.heights_map()[hk]]) == Some(b@),
                    Ok(None) => !self.heights_map().contains_key(hk) || (self.heights_map()[hk].len()
                        == 32 && !self.blocks_map().contains_key(self.heights_map()[hk])),
                    Err(e) => self.heights_map().contains_key(hk) && ((self.heights_map()[hk].len()
                        != 32 && (e matches StorageError::InvalidData(_))) || (
                    self.heights_map()[hk].len() == 32 && self.blocks_map().contains_key(
                        self.heights_map()[hk],
                    ) && block_from_bytes(self.blocks_map()[self.heights_map()[hk]]) is None && (
                    e matches StorageError::Deserialization(_)))),
                }
            }),
    {
        let key = u64_to_be_byte_vec(height);
        match self.heights.get(key.as_slice()) {
            Some(hash_bytes) => {
                if hash_bytes.len() == 32 {
                    let block_hash = crate::bytesutil::read_hash32(hash_bytes.as_slice(), 0);
                    proof {
                        assert(block_hash@ =~= self.heights_map()[height_key(height)]);
                    }
                    self.get_block(&block_hash)
                } else {
                    Err(StorageError::InvalidData(String::from_str("Invalid block hash length")))
                }
            },
            None => Ok(None),
        }
    }

    /// The unspent output at `outpoint`, if any. On a store whose
    /// entries agree with its index and blocks, a returned entry holds
    /// exactly the located output of the committed transaction under
    /// the outpoint's id.
    pub fn get_utxo(&self, outpoint: &OutPoint) -> (r: Result<Option<UtxoEntry>, StorageError>)
        requires
            self.wf(),
        ensures
            ({
                let k = utxo_key(outpoint@.txid, outpoint@.vout);
                match r {
                    Ok(Some(u)) => self.utxos_map().contains_key(k) && utxo_from_bytes(
                        self.utxos_map()[k],
                    ) == Some(u@),
                    Ok(None) => !self.utxos_map().contains_key(k),
                    Err(e) => self.utxos_map().contains_key(k) && utxo_from_bytes(
                        self.utxos_map()[k],
                    ) is None && (e matches StorageError::Deserialization(_)),
                }
            }),
            utxo_entries_consistent(self.utxos_map(), self.txindex_map(), self.blocks_map())
                ==> match r {
                Ok(Some(u)) => self.txindex_map().contains_key(outpoint@.txid) && (
                match loc_from_bytes(self.txindex_map()[outpoint@.txid]) {
                    Some(loc) => self.blocks_map().contains_key(loc.block_hash) && (
                    match block_from_bytes(self.blocks_map()[loc.block_hash]) {
                        Some(bv) => loc.tx_index < bv.transactions.len() && ({
                            let t = bv.transactions[loc.tx_index as int];
                            &&& crate::transaction::spec_tx_hash(t) == outpoint@.txid
                            &&& outpoint@.vout < t.outputs.len()
                            &&& u@.output == t.outputs[outpoint@.vout as int]
                            &&& u@.block_height == bv.header.height
                            &&& u@.is_coinbase == t.is_coinbase()
                        }),
                        None => false,
                    }),
                    None => false,
                }),
                Ok(None) => true,
                Err(_) => false,
            },
    {
        let ghost k0 = utxo_key(outpoint@.txid, outpoint@.vout);
        let key = outpoint_key_bytes(&outpoint.txid, outpoint.vout);
        match self.utxos.get(key.as_slice()) {
            Some(bytes) => match decode_utxo_entry(bytes.as_slice()) {
                Some(u) => Ok(Some(u)),
                None => Err(
                    StorageError::Deserialization(
                        String::from_str("stored entry bytes do not parse"),
                    ),
                ),
            },
            None => Ok(None),
        }
    }

    /// Whether the outpoint is unspent and spendable at
    /// `current_height`: a coinbase output must have matured.
    pub fn is_utxo_spendable(&self, outpoint: &OutPoint, current_height: u64) -> (r: Result<
        bool,
        StorageError,
    >)
        requires
            self.wf(),
        ensures
            match r {
                Ok(s) => s == spec_spendable(self.utxos_map(), outpoint@, current_height),
                Err(e) => self.utxos_map().contains_key(utxo_key(outpoint@.txid, outpoint@.vout))
                    && utxo_from_bytes(
                    self.utxos_map()[utxo_key(outpoint@.txid, outpoint@.vout)],
                ) is None && (e matches StorageError::Deserialization(_)),
            },
    {
        match self.get_utxo(outpoint) {
            Ok(Some(utxo)) => {
                if utxo.is_coinbase {
                    let mature = current_height >= utxo.block_height && current_height
                        - utxo.block_height >= crate::COINBASE_MATURITY;
                    Ok(mature)
                } else {
                    Ok(true)
                }
            },
            Ok(None) => Ok(false),
            Err(e) => Err(e),
        }
    }

    /// The chain metadata; missing or misshapen entries read as zero
    /// defaults.
    pub fn get_metadata(&self) -> (r: Result<ChainMetadata, StorageError>)
        requires
            self.wf(),
        ensures
            match r {
                Ok(m) => m@ == spec_metadata(self.meta_map()),
                Err(_) => false,
            },
    {
        let best_key = meta_best_key_bytes();
        let best_block_hash: [u8; 32] = match self.meta.get(best_key.as_slice()) {
            Some(bytes) => {
                if bytes.len() == 32 {
                    crate::bytesutil::read_hash32(bytes.as_slice(), 0)
                } else {
                    crate::transaction::zero_hash32()
                }
            },
            None => crate::transaction::zero_hash32(),
        };
        let height_key_b = meta_height_key_bytes();
        let height: u64 = match self.meta.get(height_key_b.as_slice()) {
            Some(bytes) => {
                if bytes.len() == 8 {
                    u64_from_be_slice(bytes.as_slice())
                } else {
                    0
                }
            },
            None => 0,
        };
        let genesis_key = meta_genesis_key_bytes();
        let genesis_hash: [u8; 32] = match self.meta.get(genesis_key.as_slice()) {
            Some(bytes) => {
                if bytes.len() == 32 {
                    crate::bytesutil::read_hash32(bytes.as_slice(), 0)
                } else {
                    crate::transaction::zero_hash32()
                }
            },
            None => crate::transaction::zero_hash32(),
        };
        let m = ChainMetadata { best_block_hash, height, total_work: 0, genesis_hash };
        proof {
            assert(m@.best_block_hash =~= spec_metadata(self.meta_map()).best_block_hash);
            assert(m@.genesis_hash =~= spec_metadata(self.meta_map()).genesis_hash);
        }
        Ok(m)
    }

    /// Stores the genesis block once: a store whose height metadata is
    /// already positive is left alone.
    pub fn initialize_with_genesis(&mut self, genesis: &Block) -> (r: Result<(), StorageError>)
        requires
            old(self).wf(),
        ensures
            final(self).wf(),
            r is Ok,
            spec_metadata(old(self).meta_map()).height > 0 ==> *final(self) == *old(self),
            spec_metadata(old(self).meta_map()).height == 0 ==> final(self).meta_map() == old(
                self,
            ).meta_map().insert(meta_best_key(), spec_block_hash(genesis@)).insert(
                meta_height_key(),
                height_key(genesis@.header.height),
            ).insert(meta_genesis_key(), spec_block_hash(genesis@)) && final(self).blocks_map()
                == old(self).blocks_map().insert(spec_block_hash(genesis@), enc_block(genesis@))
                && final(self).heights_map() == old(self).heights_map().insert(
                height_key(genesis@.header.height),
                spec_block_hash(genesis@),
            ) && final(self).utxos_map() == apply_txs_utxo(
                old(self).utxos_map(),
                genesis@.transactions,
                genesis@.header.height,
            ) && final(self).txindex_map() == apply_txs_index(
                old(self).txindex_map(),
                genesis@.transactions,
                spec_block_hash(genesis@),
                genesis@.header.height,
                0,
            ),
    {
        let metadata = match self.get_metadata() {
            Ok(m) => m,
            Err(e) => {
                return Err(e);
            },
        };
        if metadata.height > 0 {
            return Ok(());
        }
        let genesis_hash = genesis.hash();
        match self.store_block(genesis) {
            Ok(()) => {},
            Err(e) => {
                return Err(e);
            },
        }
        self.meta.put(
            meta_genesis_key_bytes(),
            crate::bytesutil::bytes_to_vec(genesis_hash.as_slice()),
        );
        Ok(())
    }

    /// The current height per the metadata.
    pub fn get_height(&self) -> (r: Result<u64, StorageError>)
        requires
            self.wf(),
        ensures
            match r {
                Ok(h) => h == spec_metadata(self.meta_map()).height,
                Err(_) => false,
            },
    {
        let metadata = self.get_metadata()?;
        Ok(metadata.height)
    }

    /// The best block hash per the metadata.
    pub fn get_best_block_hash(&self) -> (r: Result<[u8; 32], StorageError>)
        requires
            self.wf(),
        ensures
            match r {
                Ok(h) => h@ == spec_metadata(self.meta_map()).best_block_hash,
                Err(_) => false,
            },
    {
        let metadata = self.get_metadata()?;
        Ok(metadata.best_block_hash)
    }

    /// The committed transaction under `tx_hash` with its location, if
    /// any, read back out of its block.
    pub fn get_transaction(&self, tx_hash: &[u8; 32]) -> (r: Result<
        Option<(Transaction, TxLocation)>,
        StorageError,
    >)
        requires
            self.wf(),
        ensures
            match r {
                Ok(Some((tx, loc))) => self.txindex_map().contains_key(tx_hash@)
                    && loc_from_bytes(self.txindex_map()[tx_hash@]) == Some(loc@)
                    && self.blocks_map().contains_key(loc@.block_hash) && (match block_from_bytes(
                    self.blocks_map()[loc@.block_hash],
                ) {
                    Some(bv) => loc@.tx_index < bv.transactions.len() && tx@
                        == bv.transactions[loc@.tx_index as int],
                    None => false,
                }),
                Ok(None) => !self.txindex_map().contains_key(tx_hash@),
                Err(_) => self.txindex_map().contains_key(tx_hash@),
            },
            txindex_blocks_consistent(self.txindex_map(), self.blocks_map()) ==> match r {
                Ok(Some((tx, loc))) => crate::transaction::spec_tx_hash(tx@) == tx_hash@ && (
                match block_from_bytes(self.blocks_map()[loc@.block_hash]) {
                    Some(bv) => bv.header.height == loc@.block_height,
                    None => false,
                }),
                Ok(None) => true,
                Err(_) => false,
            },
    {
        let ghost consistent = txindex_blocks_consistent(self.txindex_map(), self.blocks_map());
        let loc_bytes = match self.txindex.get(tx_hash.as_slice()) {
            Some(b) => b,
            None => {
                return Ok(None);
            },
        };
        proof {
            if consistent {
                assert(self.txindex_map().contains_key(tx_hash@));
            }
        }
        let location = match decode_tx_location(loc_bytes.as_slice()) {
            Some(l) => l,
            None => {
                return Err(
                    StorageError::Deserialization(
                        String::from_str("stored location bytes do not parse"),
                    ),
                );
            },
        };
        match self.get_block(&location.block_hash) {
            Ok(Some(block)) => {
                if (location.tx_index as usize) < block.transactions.len() {
                    let mut txs = block.transactions;
                    let tx = txs.remove(location.tx_index as usize);
                    proof {
                        assert(tx@ == block@.transactions[location@.tx_index as int]);
                    }
                    Ok(Some((tx, location)))
                } else {
                    Err(
                        StorageError::InvalidData(
                            String::from_str("Transaction not found in referenced block"),
                        ),
                    )
                }
            },
            Ok(None) => Err(
                StorageError::InvalidData(
                    String::from_str("Transaction not found in referenced block"),
                ),
            ),
            Err(e) => Err(e),
        }
    }

    /// A glance at the store: the tip, the UTXO count and the block
    /// count (the height plus the genesis block).
    pub fn get_stats(&self) -> (r: Result<DatabaseStats, StorageError>)
        requires
            self.wf(),
        ensures
            match r {
                Ok(s) => s.height == spec_metadata(self.meta_map()).height && s.best_block_hash@
                    == spec_metadata(self.meta_map()).best_block_hash && s.utxo_set_size
                    == self.utxos_map().dom().len() && s.total_blocks == (if spec_metadata(
                    self.meta_map(),
                ).height == u64::MAX {
                    0u64
                } else {
                    (spec_metadata(self.meta_map()).height + 1) as u64
                }),
                Err(_) => false,
            },
    {
        let metadata = self.get_metadata()?;
        let utxo_count = self.utxos.len() as u64;
        let total_blocks = if metadata.height == u64::MAX {
            0
        } else {
            metadata.height + 1
        };
        Ok(
            DatabaseStats {
                height: metadata.height,
                best_block_hash: metadata.best_block_hash,
                utxo_set_size: utxo_count,
                total_blocks,
            },
        )
    }
}

/// The block the store holds at height `h`: one indirection through the
/// height index, then a decode of the block bytes. `None` when any step
/// has nothing or does not parse.
pub open spec fn spec_stored_block(
    heights: Map<Seq<u8>, Seq<u8>>,
    blocks: Map<Seq<u8>, Seq<u8>>,
    h: int,
) -> Option<BlockV> {
    if 0 <= h <= u64::MAX {
        let hk = height_key(h as u64);
        if heights.contains_key(hk) && heights[hk].len() == 32 && blocks.contains_key(
            heights[hk],
        ) {
            block_from_bytes(blocks[heights[hk]])
        } else {
            None
        }
    } else {
        None
    }
}

/// The `n` blocks the store holds at heights `start..start+n`, in
/// order, when every one of them can be read; `None` otherwise.
pub open spec fn spec_stored_window(
    heights: Map<Seq<u8>, Seq<u8>>,
    blocks: Map<Seq<u8>, Seq<u8>>,
    start: int,
    n: int,
) -> Option<Seq<BlockV>>
    decreases n,
{
    if n <= 0 {
        Some(Seq::empty())
    } else {
        match spec_stored_block(heights, blocks, start) {
            Some(b) => match spec_stored_window(heights, blocks, start + 1, n - 1) {
                Some(ws) => Some(seq![b] + ws),
                None => None,
            },
            None => None,
        }
    }
}

/// A readable window grows at its end by one more readable block.
pub proof fn lemma_stored_window_extend(
    heights: Map<Seq<u8>, Seq<u8>>,
    blocks: Map<Seq<u8>, Seq<u8>>,
    start: int,
    n: int,
    ws: Seq<BlockV>,
    b: BlockV,
)
    requires
        n >= 0,
        spec_stored_window(heights, blocks, start, n) == Some(ws),
        spec_stored_block(heights, blocks, start + n) == Some(b),
    ensures
        spec_stored_window(heights, blocks, start, n + 1) == Some(ws.push(b)),
    decreases n,
{
    if n == 0 {
        assert(ws =~= Seq::<BlockV>::empty());
        assert(spec_stored_window(heights, blocks, start + 1, 0) == Some(Seq::<BlockV>::empty()));
        assert(seq![b] + Seq::<BlockV>::empty() =~= ws.push(b));
    } else {
        let b0 = spec_stored_block(heights, blocks, start).unwrap();
        let rest = spec_stored_window(heights, blocks, start + 1, n - 1).unwrap();
        assert(ws == seq![b0] + rest);
        lemma_stored_window_extend(heights, blocks, start + 1, n - 1, rest, b);
        assert(seq![b0] + rest.push(b) =~= ws.push(b));
    }
}

/// A window with one unreadable height cannot be read whole.
pub proof fn lemma_stored_window_broken(
    heights: Map<Seq<u8>, Seq<u8>>,
    blocks: Map<Seq<u8>, Seq<u8>>,
    start: int,
    n: int,
    j: int,
)
    requires
        0 <= j < n,
        spec_stored_block(heights, blocks, start + j) is None,
    ensures
        spec_stored_window(heights, blocks, start, n) is None,
    decreases n,
{
    if j > 0 {
        if spec_stored_block(heights, blocks, start) is Some {
            lemma_stored_window_broken(heights, blocks, start + 1, n - 1, j - 1);
        }
    }
}

/// Every committed block can be read back, both under its hash and
/// through the height index: a commit maps the block's hash to bytes
/// that decode to the block itself, and its height to that hash.
pub proof fn lemma_committed_block_retrievable(
    blocks: Map<Seq<u8>, Seq<u8>>,
    heights: Map<Seq<u8>, Seq<u8>>,
    b: BlockV,
)
    requires
        b.wf(),
    ensures
        ({
            let h = spec_block_hash(b);
            let blocks2 = blocks.insert(h, enc_block(b));
            let heights2 = heights.insert(height_key(b.header.height), h);
            &&& blocks2.contains_key(h)
            &&& block_from_bytes(blocks2[h]) == Some(b)
            &&& heights2.contains_key(height_key(b.header.height))
            &&& heights2[height_key(b.header.height)] == h
        }),
{
    crate::block::lemma_block_from_bytes_of_enc(b);
}

/// Whether the transaction index agrees with the block namespace: every
/// indexed id decodes to a location naming a stored block that holds, at
/// the located position and height, a transaction whose id is the key.
pub open spec fn txindex_blocks_consistent(
    txindex: Map<Seq<u8>, Seq<u8>>,
    blocks: Map<Seq<u8>, Seq<u8>>,
) -> bool {
    forall|txid: Seq<u8>|
        #[trigger] txindex.contains_key(txid) ==> (match loc_from_bytes(txindex[txid]) {
            Some(loc) => blocks.contains_key(loc.block_hash) && (match block_from_bytes(
                blocks[loc.block_hash],
            ) {
                Some(bv) => loc.tx_index < bv.transactions.len() && crate::transaction::spec_tx_hash(
                    bv.transactions[loc.tx_index as int],
                ) == txid && bv.header.height == loc.block_height,
                None => false,
            }),
            None => false,
        })
}

/// Every entry of an indexed block points at the block under `bh`, or
/// was already in the index with its value unchanged.
proof fn lemma_apply_txs_index_at(
    m: Map<Seq<u8>, Seq<u8>>,
    txs: Seq<TxV>,
    bh: Seq<u8>,
    height: u64,
    idx: int,
    k: Seq<u8>,
)
    requires
        apply_txs_index(m, txs, bh, height, idx).contains_key(k),
    ensures
        (exists|i: int|
            0 <= i < txs.len() && crate::transaction::spec_tx_hash(#[trigger] txs[i]) == k
                && apply_txs_index(m, txs, bh, height, idx)[k] == enc_tx_location(
                TxLocationV { block_hash: bh, tx_index: (idx + i) as u32, block_height: height },
            )) || (m.contains_key(k) && apply_txs_index(m, txs, bh, height, idx)[k] == m[k]),
    decreases txs.len(),
{
    if txs.len() == 0 {
    } else {
        let t0 = txs.first();
        let h0 = crate::transaction::spec_tx_hash(t0);
        let m2 = m.insert(
            h0,
            enc_tx_location(
                TxLocationV { block_hash: bh, tx_index: idx as u32, block_height: height },
            ),
        );
        lemma_apply_txs_index_at(m2, txs.drop_first(), bh, height, idx + 1, k);
        let r = apply_txs_index(m, txs, bh, height, idx);
        if exists|i: int|
            0 <= i < txs.drop_first().len() && crate::transaction::spec_tx_hash(
                #[trigger] txs.drop_first()[i],
            ) == k && apply_txs_index(m2, txs.drop_first(), bh, height, idx + 1)[k]
                == enc_tx_location(
                TxLocationV {
                    block_hash: bh,
                    tx_index: (idx + 1 + i) as u32,
                    block_height: height,
                },
            ) {
            let i = choose|i: int|
                0 <= i < txs.drop_first().len() && crate::transaction::spec_tx_hash(
                    #[trigger] txs.drop_first()[i],
                ) == k && apply_txs_index(m2, txs.drop_first(), bh, height, idx + 1)[k]
                    == enc_tx_location(
                    TxLocationV {
                        block_hash: bh,
                        tx_index: (idx + 1 + i) as u32,
                        block_height: height,
                    },
                );
            assert(txs.drop_first()[i] == txs[i + 1]);
            assert(crate::transaction::spec_tx_hash(txs[i + 1]) == k && r[k] == enc_tx_location(
                TxLocationV {
                    block_hash: bh,
                    tx_index: (idx + (i + 1)) as u32,
                    block_height: height,
                },
            ));
        } else {
            assert(m2.contains_key(k) && r[k] == m2[k]);
            if k == h0 {
                assert(crate::transaction::spec_tx_hash(txs[0]) == k && r[k] == enc_tx_location(
                    TxLocationV {
                        block_hash: bh,
                        tx_index: (idx + 0) as u32,
                        block_height: height,
                    },
                ));
            }
        }
    }
}

/// A block commit keeps the transaction index agreeing with the block
/// namespace: the new block's entries point into it at the right
/// positions, and the old entries still point at their own blocks,
/// provided the committed hash is fresh.
pub proof fn lemma_store_block_keeps_tx_lookup(
    txindex: Map<Seq<u8>, Seq<u8>>,
    blocks: Map<Seq<u8>, Seq<u8>>,
    b: BlockV,
)
    requires
        txindex_blocks_consistent(txindex, blocks),
        b.wf(),
        b.transactions.len() <= u32::MAX,
        spec_block_hash(b).len() == 32,
        !blocks.contains_key(spec_block_hash(b)),
    ensures
        txindex_blocks_consistent(
            apply_txs_index(txindex, b.transactions, spec_block_hash(b), b.header.height, 0),
            blocks.insert(spec_block_hash(b), enc_block(b)),
        ),
{
    let bh = spec_block_hash(b);
    let ti2 = apply_txs_index(txindex, b.transactions, bh, b.header.height, 0);
    let bl2 = blocks.insert(bh, enc_block(b));
    crate::block::lemma_block_from_bytes_of_enc(b);
    assert forall|txid: Seq<u8>| #[trigger] ti2.contains_key(txid) implies (match loc_from_bytes(
        ti2[txid],
    ) {
        Some(loc) => bl2.contains_key(loc.block_hash) && (match block_from_bytes(
            bl2[loc.block_hash],
        ) {
            Some(bv) => loc.tx_index < bv.transactions.len() && crate::transaction::spec_tx_hash(
                bv.transactions[loc.tx_index as int],
            ) == txid && bv.header.height == loc.block_height,
            None => false,
        }),
        None => false,
    }) by {
        lemma_apply_txs_index_at(txindex, b.transactions, bh, b.header.height, 0, txid);
        if exists|i: int|
            0 <= i < b.transactions.len() && crate::transaction::spec_tx_hash(
                #[trigger] b.transactions[i],
            ) == txid && ti2[txid] == enc_tx_location(
                TxLocationV {
                    block_hash: bh,
                    tx_index: (0 + i) as u32,
                    block_height: b.header.height,
                },
            ) {
            let i = choose|i: int|
                0 <= i < b.transactions.len() && crate::transaction::spec_tx_hash(
                    #[trigger] b.transactions[i],
                ) == txid && ti2[txid] == enc_tx_location(
                    TxLocationV {
                        block_hash: bh,
                        tx_index: (0 + i) as u32,
                        block_height: b.header.height,
                    },
                );
            let loc = TxLocationV {
                block_hash: bh,
                tx_index: i as u32,
                block_height: b.header.height,
            };
            lemma_loc_round_trip(loc);
            assert(loc.tx_index as int == i);
        } else {
            assert(txindex.contains_key(txid) && ti2[txid] == txindex[txid]);
            let loc = loc_from_bytes(txindex[txid]).unwrap();
            assert(blocks.contains_key(loc.block_hash));
            assert(loc.block_hash != bh);
        }
    }
}

/// Outpoint keys with ids of one length tell their parts apart.
proof fn lemma_utxo_key_injective(t1: Seq<u8>, v1: u32, t2: Seq<u8>, v2: u32)
    requires
        t1.len() == t2.len(),
        utxo_key(t1, v1) == utxo_key(t2, v2),
    ensures
        t1 == t2,
        v1 == v2,
{
    let n = t1.len() as int;
    assert(t1 =~= utxo_key(t1, v1).subrange(0, n));
    assert(t2 =~= utxo_key(t2, v2).subrange(0, n));
    assert(spec_u32_to_be_bytes(v1) =~= utxo_key(t1, v1).subrange(n, n + 4));
    assert(spec_u32_to_be_bytes(v2) =~= utxo_key(t2, v2).subrange(n, n + 4));
    assert(spec_u32_to_be_bytes(v1) == spec_u32_to_be_bytes(v2));
    assert(v1 == v2) by (bit_vector)
        requires
            (v1 >> 24) as u8 == (v2 >> 24) as u8,
            (v1 >> 16) as u8 == (v2 >> 16) as u8,
            (v1 >> 8) as u8 == (v2 >> 8) as u8,
            v1 as u8 == v2 as u8,
    ;
}

/// A surviving key keeps its value across input removal.
proof fn lemma_remove_inputs_at(
    m: Map<Seq<u8>, Seq<u8>>,
    inputs: Seq<crate::transaction::TxInputV>,
    k: Seq<u8>,
)
    requires
        remove_inputs(m, inputs).contains_key(k),
    ensures
        m.contains_key(k),
        remove_inputs(m, inputs)[k] == m[k],
    decreases inputs.len(),
{
    if inputs.len() > 0 {
        let m2 = m.remove(
            utxo_key(inputs.first().previous_output.txid, inputs.first().previous_output.vout),
        );
        lemma_remove_inputs_at(m2, inputs.drop_first(), k);
    }
}

/// Every key of the added outputs either carries the entry of one of
/// them, or kept its old value and is no outpoint of theirs.
proof fn lemma_add_outputs_at(
    m: Map<Seq<u8>, Seq<u8>>,
    txid: Seq<u8>,
    outs: Seq<TxOutputV>,
    from: int,
    height: u64,
    cb: bool,
    k: Seq<u8>,
)
    requires
        0 <= from,
        outs.len() <= u32::MAX,
        add_outputs(m, txid, outs, from, height, cb).contains_key(k),
    ensures
        (exists|j: int|
            from <= j < outs.len() && k == utxo_key(txid, (j as u32)) && add_outputs(
                m,
                txid,
                outs,
                from,
                height,
                cb,
            )[k] == enc_utxo_entry(
                UtxoEntryV { output: #[trigger] outs[j], block_height: height, is_coinbase: cb },
            )) || (m.contains_key(k) && add_outputs(m, txid, outs, from, height, cb)[k] == m[k] && !(
        exists|j: int| from <= j < outs.len() && k == utxo_key(txid, (#[trigger] (j as u32))))),
    decreases outs.len() - from,
{
    if from >= outs.len() {
    } else {
        let key_from = utxo_key(txid, from as u32);
        let enc_from = enc_utxo_entry(
            UtxoEntryV { output: outs[from], block_height: height, is_coinbase: cb },
        );
        let m2 = m.insert(key_from, enc_from);
        lemma_add_outputs_at(m2, txid, outs, from + 1, height, cb, k);
        let r = add_outputs(m, txid, outs, from, height, cb);
        if exists|j: int|
            from + 1 <= j < outs.len() && k == utxo_key(txid, (j as u32)) && add_outputs(
                m2,
                txid,
                outs,
                from + 1,
                height,
                cb,
            )[k] == enc_utxo_entry(
                UtxoEntryV { output: #[trigger] outs[j], block_height: height, is_coinbase: cb },
            ) {
        } else {
            assert(m2.contains_key(k) && r[k] == m2[k]);
            if k == key_from {
                assert(from <= from < outs.len() && k == utxo_key(txid, (from as u32)) && r[k]
                    == enc_utxo_entry(
                    UtxoEntryV {
                        output: outs[from],
                        block_height: height,
                        is_coinbase: cb,
                    },
                ));
            } else {
                assert(m.contains_key(k) && r[k] == m[k]);
                assert forall|j: int|
                    !(from <= j < outs.len() && k == utxo_key(txid, (#[trigger] (j as u32)))) by {
                    if from <= j < outs.len() && k == utxo_key(txid, (j as u32)) {
                        if j == from {
                            assert(k == key_from);
                        }
                    }
                }
            }
        }
    }
}

/// Every key surviving a block's UTXO effect either carries the entry
/// of one of the block's outputs, or kept its old value.
proof fn lemma_apply_txs_utxo_at(
    u: Map<Seq<u8>, Seq<u8>>,
    txs: Seq<TxV>,
    height: u64,
    k: Seq<u8>,
)
    requires
        apply_txs_utxo(u, txs, height).contains_key(k),
        forall|i: int|
            0 <= i < txs.len() ==> (#[trigger] txs[i]).outputs.len() <= u32::MAX,
    ensures
        (exists|i: int, j: int|
            0 <= i < txs.len() && 0 <= j < (#[trigger] txs[i]).outputs.len() && k == utxo_key(
                crate::transaction::spec_tx_hash(txs[i]),
                (#[trigger] (j as u32)),
            ) && apply_txs_utxo(u, txs, height)[k] == enc_utxo_entry(
                UtxoEntryV {
                    output: txs[i].outputs[j],
                    block_height: height,
                    is_coinbase: txs[i].is_coinbase(),
                },
            )) || (u.contains_key(k) && apply_txs_utxo(u, txs, height)[k] == u[k]),
    decreases txs.len(),
{
    if txs.len() == 0 {
    } else {
        let t0 = txs.first();
        let u1 = apply_tx_utxo(u, t0, height);
        lemma_apply_txs_utxo_at(u1, txs.drop_first(), height, k);
        let r = apply_txs_utxo(u, txs, height);
        if exists|i: int, j: int|
            0 <= i < txs.drop_first().len() && 0 <= j < (#[trigger] txs.drop_first()[i]).outputs.len()
                && k == utxo_key(
                crate::transaction::spec_tx_hash(txs.drop_first()[i]),
                (#[trigger] (j as u32)),
            ) && apply_txs_utxo(u1, txs.drop_first(), height)[k] == enc_utxo_entry(
                UtxoEntryV {
                    output: txs.drop_first()[i].outputs[j],
                    block_height: height,
                    is_coinbase: txs.drop_first()[i].is_coinbase(),
                },
            ) {
            let (i, j) = choose|i: int, j: int|
                0 <= i < txs.drop_first().len() && 0 <= j < (
                #[trigger] txs.drop_first()[i]).outputs.len() && k == utxo_key(
                    crate::transaction::spec_tx_hash(txs.drop_first()[i]),
                    (#[trigger] (j as u32)),
                ) && apply_txs_utxo(u1, txs.drop_first(), height)[k] == enc_utxo_entry(
                    UtxoEntryV {
                        output: txs.drop_first()[i].outputs[j],
                        block_height: height,
                        is_coinbase: txs.drop_first()[i].is_coinbase(),
                    },
                );
            assert(txs.drop_first()[i] == txs[i + 1]);
            assert(0 <= i + 1 < txs.len() && 0 <= j < txs[i + 1].outputs.len() && k == utxo_key(
                crate::transaction::spec_tx_hash(txs[i + 1]),
                (j as u32),
            ) && r[k] == enc_utxo_entry(
                UtxoEntryV {
                    output: txs[i + 1].outputs[j],
                    block_height: height,
                    is_coinbase: txs[i + 1].is_coinbase(),
                },
            ));
        } else {
            assert(u1.contains_key(k) && r[k] == u1[k]);
            let base = if t0.is_coinbase() {
                u
            } else {
                remove_inputs(u, t0.inputs)
            };
            lemma_add_outputs_at(
                base,
                crate::transaction::spec_tx_hash(t0),
                t0.outputs,
                0,
                height,
                t0.is_coinbase(),
                k,
            );
            if exists|j: int|
                0 <= j < t0.outputs.len() && k == utxo_key(
                    crate::transaction::spec_tx_hash(t0),
                    (j as u32),
                ) && u1[k] == enc_utxo_entry(
                    UtxoEntryV {
                        output: #[trigger] t0.outputs[j],
                        block_height: height,
                        is_coinbase: t0.is_coinbase(),
                    },
                ) {
                let j = choose|j: int|
                    0 <= j < t0.outputs.len() && k == utxo_key(
                        crate::transaction::spec_tx_hash(t0),
                        (j as u32),
                    ) && u1[k] == enc_utxo_entry(
                        UtxoEntryV {
                            output: #[trigger] t0.outputs[j],
                            block_height: height,
                            is_coinbase: t0.is_coinbase(),
                        },
                    );
                assert(0 <= 0 < txs.len() && 0 <= j < txs[0].outputs.len() && k == utxo_key(
                    crate::transaction::spec_tx_hash(txs[0]),
                    (j as u32),
                ) && r[k] == enc_utxo_entry(
                    UtxoEntryV {
                        output: txs[0].outputs[j],
                        block_height: height,
                        is_coinbase: txs[0].is_coinbase(),
                    },
                ));
            } else {
                assert(base.contains_key(k) && u1[k] == base[k]);
                if !t0.is_coinbase() {
                    lemma_remove_inputs_at(u, t0.inputs, k);
                }
            }
        }
    }
}

/// Whether every unspent output points back at an indexed transaction:
/// its key is the outpoint of some transaction the index knows.
pub open spec fn utxo_index_consistent(
    utxos: Map<Seq<u8>, Seq<u8>>,
    txindex: Map<Seq<u8>, Seq<u8>>,
) -> bool {
    forall|k: Seq<u8>|
        #[trigger] utxos.contains_key(k) ==> exists|txid: Seq<u8>, vout: u32|
            k == #[trigger] utxo_key(txid, vout) && txindex.contains_key(txid)
}

/// Indexing a block's transactions never drops an index entry.
proof fn lemma_apply_txs_index_grows(
    m: Map<Seq<u8>, Seq<u8>>,
    txs: Seq<TxV>,
    bh: Seq<u8>,
    height: u64,
    idx: int,
    k: Seq<u8>,
)
    requires
        m.contains_key(k),
    ensures
        apply_txs_index(m, txs, bh, height, idx).contains_key(k),
    decreases txs.len(),
{
    if txs.len() > 0 {
        let m2 = m.insert(
            crate::transaction::spec_tx_hash(txs.first()),
            enc_tx_location(
                TxLocationV { block_hash: bh, tx_index: idx as u32, block_height: height },
            ),
        );
        lemma_apply_txs_index_grows(m2, txs.drop_first(), bh, height, idx + 1, k);
    }
}

/// The index of a block's transactions holds each of their ids.
proof fn lemma_apply_txs_index_has_tx(
    m: Map<Seq<u8>, Seq<u8>>,
    txs: Seq<TxV>,
    bh: Seq<u8>,
    height: u64,
    idx: int,
    i: int,
)
    requires
        0 <= i < txs.len(),
    ensures
        apply_txs_index(m, txs, bh, height, idx).contains_key(
            crate::transaction::spec_tx_hash(txs[i]),
        ),
    decreases txs.len(),
{
    let m2 = m.insert(
        crate::transaction::spec_tx_hash(txs.first()),
        enc_tx_location(
            TxLocationV { block_hash: bh, tx_index: idx as u32, block_height: height },
        ),
    );
    if i == 0 {
        lemma_apply_txs_index_grows(
            m2,
            txs.drop_first(),
            bh,
            height,
            idx + 1,
            crate::transaction::spec_tx_hash(txs[0]),
        );
    } else {
        lemma_apply_txs_index_has_tx(m2, txs.drop_first(), bh, height, idx + 1, i - 1);
        assert(txs.drop_first()[i - 1] == txs[i]);
    }
}

/// Removing spent inputs never adds a key.
proof fn lemma_remove_inputs_subset(
    m: Map<Seq<u8>, Seq<u8>>,
    inputs: Seq<crate::transaction::TxInputV>,
    k: Seq<u8>,
)
    requires
        remove_inputs(m, inputs).contains_key(k),
    ensures
        m.contains_key(k),
    decreases inputs.len(),
{
    if inputs.len() > 0 {
        let m2 = m.remove(
            utxo_key(inputs.first().previous_output.txid, inputs.first().previous_output.vout),
        );
        lemma_remove_inputs_subset(m2, inputs.drop_first(), k);
    }
}

/// Every key of the added outputs is an old key or the outpoint of a
/// real output of the adding transaction.
proof fn lemma_add_outputs_keys(
    m: Map<Seq<u8>, Seq<u8>>,
    txid: Seq<u8>,
    outs: Seq<TxOutputV>,
    from: int,
    height: u64,
    cb: bool,
    k: Seq<u8>,
)
    requires
        add_outputs(m, txid, outs, from, height, cb).contains_key(k),
        from >= 0,
    ensures
        m.contains_key(k) || exists|vout: u32|
            vout < outs.len() && k == #[trigger] utxo_key(txid, vout),
    decreases outs.len() - from,
{
    if from < 0 || from >= outs.len() {
    } else {
        let m2 = m.insert(
            utxo_key(txid, from as u32),
            enc_utxo_entry(
                UtxoEntryV { output: outs[from], block_height: height, is_coinbase: cb },
            ),
        );
        lemma_add_outputs_keys(m2, txid, outs, from + 1, height, cb, k);
        if m2.contains_key(k) && !m.contains_key(k) {
            assert(k == utxo_key(txid, from as u32));
            assert((from as u32) as int <= from);
            assert((from as u32) < outs.len());
        }
    }
}

/// Whether the UTXO set agrees with the transaction index and the block
/// namespace entry by entry: each stored entry at outpoint
/// `(txid, vout)` holds exactly output `vout` of the committed
/// transaction the index knows under `txid`, at its block's height and
/// with its coinbase mark.
pub open spec fn utxo_entries_consistent(
    utxos: Map<Seq<u8>, Seq<u8>>,
    txindex: Map<Seq<u8>, Seq<u8>>,
    blocks: Map<Seq<u8>, Seq<u8>>,
) -> bool {
    forall|txid: Seq<u8>, vout: u32|
        #[trigger] utxos.contains_key(utxo_key(txid, vout)) ==> (match utxo_from_bytes(
            utxos[utxo_key(txid, vout)],
        ) {
            Some(e) => txindex.contains_key(txid) && (match loc_from_bytes(txindex[txid]) {
                Some(loc) => blocks.contains_key(loc.block_hash) && (match block_from_bytes(
                    blocks[loc.block_hash],
                ) {
                    Some(bv) => loc.tx_index < bv.transactions.len() && ({
                        let t = bv.transactions[loc.tx_index as int];
                        &&& crate::transaction::spec_tx_hash(t) == txid
                        &&& vout < t.outputs.len()
                        &&& e.output == t.outputs[vout as int]
                        &&& e.block_height == bv.header.height
                        &&& e.is_coinbase == t.is_coinbase()
                    }),
                    None => false,
                }),
                None => false,
            }),
            None => false,
        })
}

/// A block commit keeps the UTXO set agreeing with the index and the
/// block namespace entry by entry, provided the block is well formed,
/// its hash and its transactions' ids are fresh, and no two of its
/// transactions share an id.
pub proof fn lemma_store_block_keeps_utxo_lookup(
    utxos: Map<Seq<u8>, Seq<u8>>,
    txindex: Map<Seq<u8>, Seq<u8>>,
    blocks: Map<Seq<u8>, Seq<u8>>,
    b: BlockV,
)
    requires
        utxo_entries_consistent(utxos, txindex, blocks),
        b.wf(),
        b.transactions.len() <= u32::MAX,
        spec_block_hash(b).len() == 32,
        !blocks.contains_key(spec_block_hash(b)),
        forall|i: int, j: int|
            0 <= i < j < b.transactions.len() ==> crate::transaction::spec_tx_hash(
                #[trigger] b.transactions[i],
            ) != crate::transaction::spec_tx_hash(#[trigger] b.transactions[j]),
        forall|i: int|
            0 <= i < b.transactions.len() ==> !txindex.contains_key(
                crate::transaction::spec_tx_hash(#[trigger] b.transactions[i]),
            ),
        forall|i: int|
            0 <= i < b.transactions.len() ==> (#[trigger] b.transactions[i]).outputs.len()
                <= u32::MAX && crate::transaction::spec_tx_hash(b.transactions[i]).len() == 32,
    ensures
        utxo_entries_consistent(
            apply_txs_utxo(utxos, b.transactions, b.header.height),
            apply_txs_index(txindex, b.transactions, spec_block_hash(b), b.header.height, 0),
            blocks.insert(spec_block_hash(b), enc_block(b)),
        ),
{
    let bh = spec_block_hash(b);
    let txs = b.transactions;
    let height = b.header.height;
    let u2 = apply_txs_utxo(utxos, txs, height);
    let ti2 = apply_txs_index(txindex, txs, bh, height, 0);
    let bl2 = blocks.insert(bh, enc_block(b));
    crate::block::lemma_block_from_bytes_of_enc(b);
    assert forall|txid: Seq<u8>, vout: u32| #[trigger] u2.contains_key(
        utxo_key(txid, vout),
    ) implies (match utxo_from_bytes(u2[utxo_key(txid, vout)]) {
        Some(e) => ti2.contains_key(txid) && (match loc_from_bytes(ti2[txid]) {
            Some(loc) => bl2.contains_key(loc.block_hash) && (match block_from_bytes(
                bl2[loc.block_hash],
            ) {
                Some(bv) => loc.tx_index < bv.transactions.len() && ({
                    let t = bv.transactions[loc.tx_index as int];
                    &&& crate::transaction::spec_tx_hash(t) == txid
                    &&& vout < t.outputs.len()
                    &&& e.output == t.outputs[vout as int]
                    &&& e.block_height == bv.header.height
                    &&& e.is_coinbase == t.is_coinbase()
                }),
                None => false,
            }),
            None => false,
        }),
        None => false,
    }) by {
        let k = utxo_key(txid, vout);
        lemma_apply_txs_utxo_at(utxos, txs, height, k);
        if exists|i: int, j: int|
            0 <= i < txs.len() && 0 <= j < (#[trigger] txs[i]).outputs.len() && k == utxo_key(
                crate::transaction::spec_tx_hash(txs[i]),
                (#[trigger] (j as u32)),
            ) && u2[k] == enc_utxo_entry(
                UtxoEntryV {
                    output: txs[i].outputs[j],
                    block_height: height,
                    is_coinbase: txs[i].is_coinbase(),
                },
            ) {
            let (i, j) = choose|i: int, j: int|
                0 <= i < txs.len() && 0 <= j < (#[trigger] txs[i]).outputs.len() && k == utxo_key(
                    crate::transaction::spec_tx_hash(txs[i]),
                    (#[trigger] (j as u32)),
                ) && u2[k] == enc_utxo_entry(
                    UtxoEntryV {
                        output: txs[i].outputs[j],
                        block_height: height,
                        is_coinbase: txs[i].is_coinbase(),
                    },
                );
            let entry = UtxoEntryV {
                output: txs[i].outputs[j],
                block_height: height,
                is_coinbase: txs[i].is_coinbase(),
            };
            lemma_utxo_round_trip(entry);
            assert(utxo_key(txid, vout).len() == txid.len() + 4);
            assert(k.len() == crate::transaction::spec_tx_hash(txs[i]).len() + 4);
            lemma_utxo_key_injective(
                txid,
                vout,
                crate::transaction::spec_tx_hash(txs[i]),
                j as u32,
            );
            assert(txid == crate::transaction::spec_tx_hash(txs[i]) && vout == j as u32);
            lemma_apply_txs_index_has_tx(txindex, txs, bh, height, 0, i);
            lemma_apply_txs_index_at(txindex, txs, bh, height, 0, txid);
            if txindex.contains_key(txid) && ti2[txid] == txindex[txid] {
                assert(false);
            }
            let i2 = choose|i2: int|
                0 <= i2 < txs.len() && crate::transaction::spec_tx_hash(#[trigger] txs[i2])
                    == txid && ti2[txid] == enc_tx_location(
                    TxLocationV {
                        block_hash: bh,
                        tx_index: (0 + i2) as u32,
                        block_height: height,
                    },
                );
            if i2 < i {
                assert(crate::transaction::spec_tx_hash(txs[i2])
                    != crate::transaction::spec_tx_hash(txs[i]));
            } else if i < i2 {
                assert(crate::transaction::spec_tx_hash(txs[i])
                    != crate::transaction::spec_tx_hash(txs[i2]));
            }
            assert(i2 == i);
            let loc = TxLocationV { block_hash: bh, tx_index: i as u32, block_height: height };
            lemma_loc_round_trip(loc);
            assert(loc.tx_index as int == i);
            assert(vout as int == j);
        } else {
            assert(utxos.contains_key(k) && u2[k] == utxos[k]);
            let e = utxo_from_bytes(utxos[k]).unwrap();
            lemma_apply_txs_index_grows_value(txindex, txs, bh, height, 0, txid);
            let loc = loc_from_bytes(txindex[txid]).unwrap();
            assert(blocks.contains_key(loc.block_hash));
            assert(loc.block_hash != bh);
        }
    }
}

/// An id the index already knows, none of the block's own, keeps its
/// value through the block's indexing.
proof fn lemma_apply_txs_index_grows_value(
    m: Map<Seq<u8>, Seq<u8>>,
    txs: Seq<TxV>,
    bh: Seq<u8>,
    height: u64,
    idx: int,
    k: Seq<u8>,
)
    requires
        m.contains_key(k),
        forall|i: int|
            0 <= i < txs.len() ==> crate::transaction::spec_tx_hash(#[trigger] txs[i]) != k,
    ensures
        apply_txs_index(m, txs, bh, height, idx).contains_key(k),
        apply_txs_index(m, txs, bh, height, idx)[k] == m[k],
    decreases txs.len(),
{
    if txs.len() > 0 {
        let m2 = m.insert(
            crate::transaction::spec_tx_hash(txs.first()),
            enc_tx_location(
                TxLocationV { block_hash: bh, tx_index: idx as u32, block_height: height },
            ),
        );
        assert(crate::transaction::spec_tx_hash(txs[0]) != k);
        assert(forall|i: int|
            0 <= i < txs.drop_first().len() ==> crate::transaction::spec_tx_hash(
                #[trigger] txs.drop_first()[i],
            ) != k);
        lemma_apply_txs_index_grows_value(m2, txs.drop_first(), bh, height, idx + 1, k);
    }
}

/// Every unspent output a block commit creates is the outpoint of a
/// real output of one of the block's transactions, and the commit
/// indexes that transaction's id. (An outpoint spent by a later
/// committed transaction leaves the set in that transaction's own
/// commit.)
pub proof fn lemma_new_utxo_keys_come_from_block(
    utxos: Map<Seq<u8>, Seq<u8>>,
    txindex: Map<Seq<u8>, Seq<u8>>,
    txs: Seq<TxV>,
    bh: Seq<u8>,
    height: u64,
    idx: int,
    k: Seq<u8>,
)
    requires
        apply_txs_utxo(utxos, txs, height).contains_key(k),
        !utxos.contains_key(k),
    ensures
        exists|i: int, vout: u32|
            0 <= i < txs.len() && vout < txs[i].outputs.len() && k == #[trigger] utxo_key(
                crate::transaction::spec_tx_hash(#[trigger] txs[i]),
                vout,
            ) && apply_txs_index(txindex, txs, bh, height, idx).contains_key(
                crate::transaction::spec_tx_hash(txs[i]),
            ),
    decreases txs.len(),
{
    let t0 = txs.first();
    let h0 = crate::transaction::spec_tx_hash(t0);
    let u1 = apply_tx_utxo(utxos, t0, height);
    let ti2 = txindex.insert(
        h0,
        enc_tx_location(
            TxLocationV { block_hash: bh, tx_index: idx as u32, block_height: height },
        ),
    );
    if u1.contains_key(k) {
        let base = if t0.is_coinbase() {
            utxos
        } else {
            remove_inputs(utxos, t0.inputs)
        };
        lemma_add_outputs_keys(base, h0, t0.outputs, 0, height, t0.is_coinbase(), k);
        if base.contains_key(k) {
            if !t0.is_coinbase() {
                lemma_remove_inputs_subset(utxos, t0.inputs, k);
            }
            assert(false);
        }
        let vout = choose|vout: u32| vout < t0.outputs.len() && k == #[trigger] utxo_key(h0, vout);
        lemma_apply_txs_index_has_tx(txindex, txs, bh, height, idx, 0);
        assert(0 <= 0 < txs.len() && vout < txs[0].outputs.len() && k == utxo_key(
            crate::transaction::spec_tx_hash(txs[0]),
            vout,
        ));
    } else {
        lemma_new_utxo_keys_come_from_block(
            u1,
            ti2,
            txs.drop_first(),
            bh,
            height,
            idx + 1,
            k,
        );
        let (i, vout) = choose|i: int, vout: u32|
            0 <= i < txs.drop_first().len() && vout < txs.drop_first()[i].outputs.len() && k
                == #[trigger] utxo_key(
                crate::transaction::spec_tx_hash(#[trigger] txs.drop_first()[i]),
                vout,
            ) && apply_txs_index(ti2, txs.drop_first(), bh, height, idx + 1).contains_key(
                crate::transaction::spec_tx_hash(txs.drop_first()[i]),
            );
        assert(txs.drop_first()[i] == txs[i + 1]);
        assert(0 <= i + 1 < txs.len() && vout < txs[i + 1].outputs.len() && k == utxo_key(
            crate::transaction::spec_tx_hash(txs[i + 1]),
            vout,
        ));
    }
}

/// A block commit keeps the store consistent: every unspent output,
/// old or newly created, points back at a transaction in the updated
/// index. (Spent outpoints leave the set in the same commit, so no
/// entry of a spent output survives.)
pub proof fn lemma_store_block_keeps_utxo_consistency(
    utxos: Map<Seq<u8>, Seq<u8>>,
    txindex: Map<Seq<u8>, Seq<u8>>,
    txs: Seq<TxV>,
    bh: Seq<u8>,
    height: u64,
    idx: int,
)
    requires
        utxo_index_consistent(utxos, txindex),
    ensures
        utxo_index_consistent(
            apply_txs_utxo(utxos, txs, height),
            apply_txs_index(txindex, txs, bh, height, idx),
        ),
    decreases txs.len(),
{
    if txs.len() == 0 {
    } else {
        let t0 = txs.first();
        let h0 = crate::transaction::spec_tx_hash(t0);
        let ti2 = txindex.insert(
            h0,
            enc_tx_location(
                TxLocationV { block_hash: bh, tx_index: idx as u32, block_height: height },
            ),
        );
        let u1 = apply_tx_utxo(utxos, t0, height);
        assert forall|k: Seq<u8>| #[trigger] u1.contains_key(k) implies exists|
            txid: Seq<u8>,
            vout: u32,
        | k == #[trigger] utxo_key(txid, vout) && ti2.contains_key(txid) by {
            let base = if t0.is_coinbase() {
                utxos
            } else {
                remove_inputs(utxos, t0.inputs)
            };
            lemma_add_outputs_keys(base, h0, t0.outputs, 0, height, t0.is_coinbase(), k);
            if base.contains_key(k) {
                if !t0.is_coinbase() {
                    lemma_remove_inputs_subset(utxos, t0.inputs, k);
                }
                assert(utxos.contains_key(k));
                let (txid, vout) = choose|txid: Seq<u8>, vout: u32|
                    k == #[trigger] utxo_key(txid, vout) && txindex.contains_key(txid);
                assert(k == utxo_key(txid, vout) && ti2.contains_key(txid));
            } else {
                let vout = choose|vout: u32| k == #[trigger] utxo_key(h0, vout);
                assert(k == utxo_key(h0, vout) && ti2.contains_key(h0));
            }
        }
        lemma_store_block_keeps_utxo_consistency(
            u1,
            ti2,
            txs.drop_first(),
            bh,
            height,
            idx + 1,
        );
    }
}

/// The stored form of an unspent output given by parts.
fn encode_utxo_parts(output: &TxOutput, block_height: u64, is_coinbase: bool) -> (r: Vec<u8>)
    ensures
        r@ == enc_utxo_entry(
            UtxoEntryV { output: output@, block_height, is_coinbase },
        ),
{
    let mut out: Vec<u8> = Vec::new();
    w_u64(&mut out, output.value);
    w_raw(&mut out, output.asset_id.as_slice());
    crate::codec::w_bytes(&mut out, output.script_pubkey.as_slice());
    w_u64(&mut out, block_height);
    w_bool(&mut out, is_coinbase);
    proof {
        assert(out@ =~= enc_utxo_entry(
            UtxoEntryV { output: output@, block_height, is_coinbase },
        ));
    }
    out
}

} // verus!
