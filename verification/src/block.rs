//! Blocks and block headers: the canonical header and block wire
//! formats, content addressing, the compact-target codec, the Merkle
//! root of the transaction ids, and proof-of-work validity.

use vstd::prelude::*;
use crate::bytesutil::spec_lex_le;
use crate::codec::{
    dec_hash32, dec_u32, dec_u64, enc_u32, enc_u64, lemma_dec_u32_of_enc, lemma_dec_u64_of_enc,
    r_hash32, r_u32, r_u64, w_raw, w_u32, w_u64,
};
use crate::hashing::{sha256d, spec_sha256, spec_sha256d, sha256_digest};
use crate::transaction::{
    dec_tx, enc_tx, lemma_dec_tx_of_enc, spec_genesis_tx, spec_tx_hash, tx_wf, zero32,
    zero_hash32, Transaction, TxV,
};

verus! {

/// A block header. Its double SHA-256 is the block's identity, and
/// proof of work asks that it lie at or below the target that `bits`
/// encodes.
#[derive(Debug, Clone, Copy, PartialEq, Eq)]
pub struct BlockHeader {
    /// Format version.
    pub version: u32,
    /// Hash of the parent block header.
    pub previous_hash: [u8; 32],
    /// Merkle root of the transaction ids.
    pub merkle_root: [u8; 32],
    /// Seconds since the Unix epoch.
    pub timestamp: u64,
    /// Compact encoding of the proof-of-work target.
    pub bits: u32,
    /// Nonce found by mining.
    pub nonce: u64,
    /// Height of this block in the chain.
    pub height: u64,
}

/// A block: a header and its ordered transactions.
#[derive(Debug, Clone, PartialEq, Eq)]
pub struct Block {
    /// The sealed header.
    pub header: BlockHeader,
    /// The transactions, the coinbase first.
    pub transactions: Vec<Transaction>,
}

/// Mathematical value of a `BlockHeader`.
pub ghost struct BlockHeaderV {
    pub version: u32,
    pub previous_hash: Seq<u8>,
    pub merkle_root: Seq<u8>,
    pub timestamp: u64,
    pub bits: u32,
    pub nonce: u64,
    pub height: u64,
}

/// Mathematical value of a `Block`.
pub ghost struct BlockV {
    pub header: BlockHeaderV,
    pub transactions: Seq<TxV>,
}

impl View for BlockHeader {
    type V = BlockHeaderV;

    open spec fn view(&self) -> BlockHeaderV {
        BlockHeaderV {
            version: self.version,
            previous_hash: self.previous_hash@,
            merkle_root: self.merkle_root@,
            timestamp: self.timestamp,
            bits: self.bits,
            nonce: self.nonce,
            height: self.height,
        }
    }
}

impl View for Block {
    type V = BlockV;

    open spec fn view(&self) -> BlockV {
        BlockV {
            header: self.header@,
            transactions: self.transactions@.map_values(|t: Transaction| t@),
        }
    }
}

impl BlockHeaderV {
    /// Structurally well formed: both hash fields are 32 bytes.
    pub open spec fn wf(self) -> bool {
        self.previous_hash.len() == 32 && self.merkle_root.len() == 32
    }
}

impl BlockV {
    /// Structurally well formed and decodable.
    pub open spec fn wf(self) -> bool {
        &&& self.header.wf()
        &&& forall|i: int| 0 <= i < self.transactions.len() ==> tx_wf(#[trigger] self.transactions[i])
        &&& self.transactions.len() <= u64::MAX
    }
}

/// Wire format of a header: version, parent hash, Merkle root,
/// timestamp, compact target, nonce and height.
pub open spec fn enc_header(h: BlockHeaderV) -> Seq<u8> {
    enc_u32(h.version) + h.previous_hash + h.merkle_root + enc_u64(h.timestamp) + enc_u32(h.bits)
        + enc_u64(h.nonce) + enc_u64(h.height)
}

/// The block identity: double SHA-256 of the canonical header bytes.
pub open spec fn spec_header_hash(h: BlockHeaderV) -> Seq<u8> {
    spec_sha256d(enc_header(h))
}

/// The hash of a block is the hash of its header.
pub open spec fn spec_block_hash(b: BlockV) -> Seq<u8> {
    spec_header_hash(b.header)
}

/// Wire format of a transaction list, in order.
pub open spec fn enc_txs(s: Seq<TxV>) -> Seq<u8>
    decreases s.len(),
{
    if s.len() == 0 {
        Seq::empty()
    } else {
        enc_tx(s.first()) + enc_txs(s.drop_first())
    }
}

/// Canonical wire format of a block: the header, then the transactions
/// behind their count.
pub open spec fn enc_block(b: BlockV) -> Seq<u8> {
    enc_header(b.header) + enc_u64(b.transactions.len() as u64) + enc_txs(b.transactions)
}

/// Appending one transaction extends the encoding at the end.
pub proof fn lemma_enc_txs_push(s: Seq<TxV>, x: TxV)
    ensures
        enc_txs(s.push(x)) == enc_txs(s) + enc_tx(x),
    decreases s.len(),
{
    if s.len() == 0 {
        let t = s.push(x);
        assert(t.drop_first() =~= Seq::<TxV>::empty());
        assert(t.first() == x);
        assert(enc_txs(t.drop_first()) =~= Seq::<u8>::empty());
        assert(enc_txs(t) =~= enc_tx(x) + enc_txs(t.drop_first()));
        assert(enc_txs(s) =~= Seq::<u8>::empty());
        assert(enc_txs(s.push(x)) =~= enc_txs(s) + enc_tx(x));
    } else {
        assert(s.push(x).drop_first() =~= s.drop_first().push(x));
        assert(s.push(x).first() == s.first());
        lemma_enc_txs_push(s.drop_first(), x);
        assert(enc_txs(s.push(x)) =~= enc_txs(s) + enc_tx(x));
    }
}

/// Reads a header.
pub open spec fn dec_header(s: Seq<u8>, pos: int) -> Option<(BlockHeaderV, int)> {
    match dec_u32(s, pos) {
        Some((version, p1)) => match dec_hash32(s, p1) {
            Some((ph, p2)) => match dec_hash32(s, p2) {
                Some((mr, p3)) => match dec_u64(s, p3) {
                    Some((ts, p4)) => match dec_u32(s, p4) {
                        Some((bits, p5)) => match dec_u64(s, p5) {
                            Some((nonce, p6)) => match dec_u64(s, p6) {
                                Some((height, p7)) => Some(
                                    (
                                        BlockHeaderV {
                                            version,
                                            previous_hash: ph,
                                            merkle_root: mr,
                                            timestamp: ts,
                                            bits,
                                            nonce,
                                            height,
                                        },
                                        p7,
                                    ),
                                ),
                                None => None,
                            },
                            None => None,
                        },
                        None => None,
                    },
                    None => None,
                },
                None => None,
            },
            None => None,
        },
        None => None,
    }
}

/// Reads `n` transactions in order.
pub open spec fn dec_txs(s: Seq<u8>, pos: int, n: int) -> Option<(Seq<TxV>, int)>
    decreases n,
{
    if n <= 0 {
        Some((Seq::empty(), pos))
    } else {
        match dec_tx(s, pos) {
            Some((v, p1)) => match dec_txs(s, p1, n - 1) {
                Some((vs, p2)) => Some((seq![v] + vs, p2)),
                None => None,
            },
            None => None,
        }
    }
}

/// Reads a block.
pub open spec fn dec_block(s: Seq<u8>, pos: int) -> Option<(BlockV, int)> {
    match dec_header(s, pos) {
        Some((h, p1)) => match dec_u64(s, p1) {
            Some((n, p2)) => match dec_txs(s, p2, n as int) {
                Some((txs, p3)) => Some((BlockV { header: h, transactions: txs }, p3)),
                None => None,
            },
            None => None,
        },
        None => None,
    }
}

/// Decoding at an embedded encoded header yields it back.
pub proof fn lemma_dec_header_of_enc(s: Seq<u8>, pos: int, h: BlockHeaderV)
    requires
        h.wf(),
        0 <= pos,
        pos + 96 <= s.len(),
        s.subrange(pos, pos + 96) == enc_header(h),
    ensures
        dec_header(s, pos) == Some((h, pos + 96)),
{
    crate::codec::lemma_u64_round_trip();
    let e = enc_header(h);
    assert(e.len() == 96);
    assert(s.subrange(pos, pos + 4) =~= e.subrange(0, 4));
    assert(e.subrange(0, 4) =~= enc_u32(h.version));
    lemma_dec_u32_of_enc(s, pos, h.version);
    assert(s.subrange(pos + 4, pos + 36) =~= e.subrange(4, 36));
    assert(e.subrange(4, 36) =~= h.previous_hash);
    assert(s.subrange(pos + 36, pos + 68) =~= e.subrange(36, 68));
    assert(e.subrange(36, 68) =~= h.merkle_root);
    assert(s.subrange(pos + 68, pos + 76) =~= e.subrange(68, 76));
    assert(e.subrange(68, 76) =~= enc_u64(h.timestamp));
    lemma_dec_u64_of_enc(s, pos + 68, h.timestamp);
    assert(s.subrange(pos + 76, pos + 80) =~= e.subrange(76, 80));
    assert(e.subrange(76, 80) =~= enc_u32(h.bits));
    lemma_dec_u32_of_enc(s, pos + 76, h.bits);
    assert(s.subrange(pos + 80, pos + 88) =~= e.subrange(80, 88));
    assert(e.subrange(80, 88) =~= enc_u64(h.nonce));
    lemma_dec_u64_of_enc(s, pos + 80, h.nonce);
    assert(s.subrange(pos + 88, pos + 96) =~= e.subrange(88, 96));
    assert(e.subrange(88, 96) =~= enc_u64(h.height));
    lemma_dec_u64_of_enc(s, pos + 88, h.height);
    assert(h == (BlockHeaderV {
        version: h.version,
        previous_hash: h.previous_hash,
        merkle_root: h.merkle_root,
        timestamp: h.timestamp,
        bits: h.bits,
        nonce: h.nonce,
        height: h.height,
    }));
}

/// Decoding at an embedded encoded transaction list yields it back.
pub proof fn lemma_dec_txs_of_enc(s: Seq<u8>, pos: int, ts: Seq<TxV>)
    requires
        forall|i: int| 0 <= i < ts.len() ==> tx_wf(#[trigger] ts[i]),
        0 <= pos,
        pos + enc_txs(ts).len() <= s.len(),
        s.subrange(pos, pos + enc_txs(ts).len()) == enc_txs(ts),
    ensures
        dec_txs(s, pos, ts.len() as int) == Some((ts, pos + enc_txs(ts).len())),
    decreases ts.len(),
{
    if ts.len() == 0 {
        assert(dec_txs(s, pos, 0) == Some((Seq::<TxV>::empty(), pos)));
        assert(ts =~= Seq::<TxV>::empty());
    } else {
        let e = enc_txs(ts);
        let h = ts.first();
        let rest = ts.drop_first();
        let l1 = enc_tx(h).len() as int;
        assert(e =~= enc_tx(h) + enc_txs(rest));
        assert(s.subrange(pos, pos + l1) =~= e.subrange(0, l1));
        assert(e.subrange(0, l1) =~= enc_tx(h));
        lemma_dec_tx_of_enc(s, pos, h);
        assert(s.subrange(pos + l1, pos + e.len()) =~= e.subrange(l1, e.len() as int));
        assert(e.subrange(l1, e.len() as int) =~= enc_txs(rest));
        lemma_dec_txs_of_enc(s, pos + l1, rest);
        assert(seq![h] + rest =~= ts);
    }
}

/// Decoding at an embedded encoded block yields it back.
pub proof fn lemma_dec_block_of_enc(s: Seq<u8>, pos: int, b: BlockV)
    requires
        b.wf(),
        0 <= pos,
        pos + enc_block(b).len() <= s.len(),
        s.subrange(pos, pos + enc_block(b).len()) == enc_block(b),
    ensures
        dec_block(s, pos) == Some((b, pos + enc_block(b).len())),
{
    crate::codec::lemma_u64_round_trip();
    let e = enc_block(b);
    let lt = enc_txs(b.transactions).len() as int;
    assert(e.len() == 96 + 8 + lt);
    assert(s.subrange(pos, pos + 96) =~= e.subrange(0, 96));
    assert(e.subrange(0, 96) =~= enc_header(b.header));
    lemma_dec_header_of_enc(s, pos, b.header);
    assert(s.subrange(pos + 96, pos + 104) =~= e.subrange(96, 104));
    assert(e.subrange(96, 104) =~= enc_u64(b.transactions.len() as u64));
    lemma_dec_u64_of_enc(s, pos + 96, b.transactions.len() as u64);
    assert(s.subrange(pos + 104, pos + 104 + lt) =~= e.subrange(104, 104 + lt));
    assert(e.subrange(104, 104 + lt) =~= enc_txs(b.transactions));
    lemma_dec_txs_of_enc(s, pos + 104, b.transactions);
    assert(b == (BlockV { header: b.header, transactions: b.transactions }));
}

/// The block denoted by a whole byte string, when it reads as one with
/// nothing left over.
pub open spec fn block_from_bytes(s: Seq<u8>) -> Option<BlockV> {
    match dec_block(s, 0) {
        Some((b, p)) => if p == s.len() {
            Some(b)
        } else {
            None
        },
        None => None,
    }
}

/// A whole encoded block reads back as itself.
pub proof fn lemma_block_from_bytes_of_enc(b: BlockV)
    requires
        b.wf(),
    ensures
        block_from_bytes(enc_block(b)) == Some(b),
{
    let s = enc_block(b);
    assert(s.subrange(0, s.len() as int) =~= s);
    lemma_dec_block_of_enc(s, 0, b);
}

/// Appends the wire form of a header.
pub fn encode_header_into(out: &mut Vec<u8>, h: &BlockHeader)
    ensures
        final(out)@ == old(out)@ + enc_header(h@),
{
    w_u32(out, h.version);
    w_raw(out, h.previous_hash.as_slice());
    w_raw(out, h.merkle_root.as_slice());
    w_u64(out, h.timestamp);
    w_u32(out, h.bits);
    w_u64(out, h.nonce);
    w_u64(out, h.height);
    proof {
        assert(out@ =~= old(out)@ + enc_header(h@));
    }
}

/// The canonical wire form of a header.
pub fn encode_header(h: &BlockHeader) -> (r: Vec<u8>)
    ensures
        r@ == enc_header(h@),
{
    let mut out: Vec<u8> = Vec::new();
    encode_header_into(&mut out, h);
    out
}

/// The canonical wire form of a block.
pub fn encode_block(b: &Block) -> (r: Vec<u8>)
    ensures
        r@ == enc_block(b@),
{
    let mut out: Vec<u8> = Vec::new();
    encode_header_into(&mut out, &b.header);
    w_u64(&mut out, b.transactions.len() as u64);
    let n = b.transactions.len();
    let mut i: usize = 0;
    while i < n
        invariant
            n == b.transactions@.len(),
            0 <= i <= n,
            b@.transactions.len() == n,
            b@.transactions == b.transactions@.map_values(|t: Transaction| t@),
            out@ =~= enc_header(b@.header) + enc_u64(b@.transactions.len() as u64) + enc_txs(
                b@.transactions.take(i as int),
            ),
        decreases n - i,
    {
        crate::transaction::encode_transaction_into(&mut out, &b.transactions[i]);
        proof {
            assert(b@.transactions.take(i + 1) =~= b@.transactions.take(i as int).push(
                b@.transactions[i as int],
            ));
            lemma_enc_txs_push(b@.transactions.take(i as int), b@.transactions[i as int]);
            assert(out@ =~= enc_header(b@.header) + enc_u64(b@.transactions.len() as u64)
                + enc_txs(b@.transactions.take(i + 1)));
        }
        i = i + 1;
    }
    proof {
        assert(b@.transactions.take(n as int) =~= b@.transactions);
        assert(out@ =~= enc_block(b@));
    }
    out
}

/// Reads a header.
pub fn read_header(s: &[u8], pos: usize) -> (r: Option<(BlockHeader, usize)>)
    ensures
        match r {
            Some((v, p)) => dec_header(s@, pos as int) == Some((v@, p as int)) && pos < p
                <= s@.len(),
            None => dec_header(s@, pos as int) is None,
        },
{
    let (version, p1) = match r_u32(s, pos) {
        Some(x) => x,
        None => {
            return None;
        },
    };
    let (ph, p2) = match r_hash32(s, p1) {
        Some(x) => x,
        None => {
            return None;
        },
    };
    let (mr, p3) = match r_hash32(s, p2) {
        Some(x) => x,
        None => {
            return None;
        },
    };
    let (ts, p4) = match r_u64(s, p3) {
        Some(x) => x,
        None => {
            return None;
        },
    };
    let (bits, p5) = match r_u32(s, p4) {
        Some(x) => x,
        None => {
            return None;
        },
    };
    let (nonce, p6) = match r_u64(s, p5) {
        Some(x) => x,
        None => {
            return None;
        },
    };
    let (height, p7) = match r_u64(s, p6) {
        Some(x) => x,
        None => {
            return None;
        },
    };
    Some(
        (
            BlockHeader {
                version,
                previous_hash: ph,
                merkle_root: mr,
                timestamp: ts,
                bits,
                nonce,
                height,
            },
            p7,
        ),
    )
}

/// Reads a block from a whole byte string; the string must hold exactly
/// one block.
pub fn decode_block(s: &[u8]) -> (r: Option<Block>)
    ensures
        match r {
            Some(b) => block_from_bytes(s@) == Some(b@),
            None => block_from_bytes(s@) is None,
        },
{
    let (header, p1) = match read_header(s, 0) {
        Some(x) => x,
        None => {
            return None;
        },
    };
    let (n, p2) = match r_u64(s, p1) {
        Some(x) => x,
        None => {
            return None;
        },
    };
    let mut acc: Vec<Transaction> = Vec::new();
    let mut p = p2;
    let mut i: u64 = 0;
    while i < n
        invariant
            i <= n,
            p <= s@.len(),
            dec_header(s@, 0) == Some((header@, p1 as int)),
            dec_u64(s@, p1 as int) == Some((n, p2 as int)),
            dec_txs(s@, p2 as int, n as int) == (match dec_txs(s@, p as int, n - i) {
                Some((vs, q)) => Some((acc@.map_values(|x: Transaction| x@) + vs, q)),
                None => None::<(Seq<TxV>, int)>,
            }),
        decreases n - i,
    {
        match read_tx(s, p) {
            Some((v, pn)) => {
                proof {
                    let ghost accv = acc@.map_values(|x: Transaction| x@);
                    assert(acc@.push(v).map_values(|x: Transaction| x@) =~= accv.push(v@));
                    assert(forall|vs: Seq<TxV>| accv + (seq![v@] + vs) =~= accv.push(v@) + vs);
                }
                acc.push(v);
                p = pn;
                i = i + 1;
            },
            None => {
                return None;
            },
        }
    }
    proof {
        assert(dec_txs(s@, p as int, 0) == Some((Seq::<TxV>::empty(), p as int)));
        assert(acc@.map_values(|x: Transaction| x@) + Seq::<TxV>::empty() =~= acc@.map_values(
            |x: Transaction| x@,
        ));
    }
    if p != s.len() {
        return None;
    }
    let b = Block { header, transactions: acc };
    proof {
        assert(b@.transactions =~= acc@.map_values(|x: Transaction| x@));
    }
    Some(b)
}

/// Reads one transaction from within a byte string.
fn read_tx(s: &[u8], pos: usize) -> (r: Option<(Transaction, usize)>)
    requires
        pos <= s@.len(),
    ensures
        match r {
            Some((v, p)) => dec_tx(s@, pos as int) == Some((v@, p as int)) && pos <= p <= s@.len(),
            None => dec_tx(s@, pos as int) is None,
        },
{
    crate::transaction::read_transaction_at(s, pos)
}

/// The 256-bit target a compact `bits` value denotes, as 32 big-endian
/// bytes. The high 8 bits of `bits` are the exponent, the low 24 the
/// mantissa; the mantissa's three bytes are placed by the exponent, the
/// low byte at the most significant position used.
pub open spec fn spec_bits_to_target(bits: u32) -> Seq<u8> {
    let exponent = bits >> 24u32;
    let mantissa = bits & 0x00ffffffu32;
    if exponent <= 3 {
        let m = mantissa >> ((8 * (3 - exponent)) as u32);
        Seq::new(
            32,
            |i: int|
                if i == 28 {
                    m as u8
                } else if i == 29 {
                    (m >> 8u32) as u8
                } else if i == 30 {
                    (m >> 16u32) as u8
                } else {
                    0u8
                },
        )
    } else {
        let base = 32 - (exponent - 3) - 3;
        Seq::new(
            32,
            |i: int|
                if i == base {
                    mantissa as u8
                } else if i == base + 1 {
                    (mantissa >> 8u32) as u8
                } else if i == base + 2 {
                    (mantissa >> 16u32) as u8
                } else {
                    0u8
                },
        )
    }
}

/// The number of bytes of a target from its most significant non-zero
/// byte to the end, scanning from position `i`.
pub open spec fn spec_size_from(t: Seq<u8>, i: int) -> int
    decreases 32 - i,
{
    if i < 0 || i >= 32 {
        0
    } else if t[i] != 0u8 {
        32 - i
    } else {
        spec_size_from(t, i + 1)
    }
}

/// The number of significant bytes of a 32-byte target.
pub open spec fn spec_target_size(t: Seq<u8>) -> int {
    spec_size_from(t, 0)
}

/// The compact form of a target: three bytes of mantissa read at the
/// first non-zero position, low byte first, and the size as exponent.
pub open spec fn spec_target_to_bits(t: Seq<u8>) -> u32 {
    let size = spec_target_size(t);
    if size == 0 {
        0u32
    } else {
        let i = 32 - size;
        (t[i] as u32) | ((t[i + 1] as u32) << 8u32) | ((t[i + 2] as u32) << 16u32) | ((
        size as u32) << 24u32)
    }
}

/// Converts compact bits into the 256-bit target it denotes.
///
/// Exponents above 32 would place mantissa bytes outside the target and
/// are excluded.
pub fn bits_to_target(bits: u32) -> (r: [u8; 32])
    requires
        bits >> 24u32 <= 32,
    ensures
        r@ == spec_bits_to_target(bits),
{
    let exponent = bits >> 24;
    let mantissa = bits & 0x00ffffff;
    let mut target: [u8; 32] = [0u8; 32];
    if exponent <= 3 {
        let m = mantissa >> (8 * (3 - exponent));
        target[28] = #[verifier::truncate] (m as u8);
        target[29] = #[verifier::truncate] ((m >> 8) as u8);
        target[30] = #[verifier::truncate] ((m >> 16) as u8);
        proof {
            assert(target@ =~= spec_bits_to_target(bits));
        }
    } else {
        let shift = exponent - 3;
        proof {
            assert(bits >> 24u32 > 3 ==> bits >> 24u32 >= 4) by (bit_vector);
        }
        let base = 32 - (shift as usize) - 3;
        target[base] = #[verifier::truncate] (mantissa as u8);
        target[base + 1] = #[verifier::truncate] ((mantissa >> 8) as u8);
        target[base + 2] = #[verifier::truncate] ((mantissa >> 16) as u8);
        proof {
            assert(target@ =~= spec_bits_to_target(bits));
        }
    }
    target
}

/// Converts a 256-bit target into compact bits.
///
/// Targets whose significant size is 1 or 2 bytes would be read out of
/// bounds and are excluded; an all-zero target reads as 0.
pub fn target_to_bits(target: &[u8; 32]) -> (r: u32)
    requires
        spec_target_size(target@) == 0 || spec_target_size(target@) >= 3,
    ensures
        r == spec_target_to_bits(target@),
{
    let mut size: usize = 32;
    while size > 0 && *array_index_get(target, 32 - size) == 0
        invariant
            0 <= size <= 32,
            spec_size_from(target@, 0) == spec_size_from(target@, 32 - size),
        decreases size,
    {
        size = size - 1;
    }
    if size == 0 {
        return 0;
    }
    proof {
        assert(spec_size_from(target@, 32 - size) == size);
        assert(spec_target_size(target@) == size);
    }
    let i = 32 - size;
    let b0 = *array_index_get(target, i);
    let b1 = *array_index_get(target, i + 1);
    let b2 = *array_index_get(target, i + 2);
    let compact = (b0 as u32) | ((b1 as u32) << 8) | ((b2 as u32) << 16);
    compact | ((size as u32) << 24)
}

/// A positive size names the first non-zero byte: it sits at position
/// `32 - size`.
pub proof fn lemma_size_first_nonzero(t: Seq<u8>, i: int)
    requires
        0 <= i <= 32,
    ensures
        spec_size_from(t, i) > 0 ==> i <= 32 - spec_size_from(t, i) < 32 && t[32 - spec_size_from(
            t,
            i,
        )] != 0u8,
    decreases 32 - i,
{
    if i < 32 && t[i] == 0u8 {
        lemma_size_first_nonzero(t, i + 1);
    }
}

/// Scanning a run of zero bytes ending at the first non-zero position
/// `k` (or at the end) determines the significant size.
pub proof fn lemma_size_from_range(t: Seq<u8>, i: int, k: int)
    requires
        t.len() == 32,
        0 <= i <= k <= 32,
        forall|j: int| i <= j < k ==> t[j] == 0u8,
        k == 32 || t[k] != 0u8,
    ensures
        spec_size_from(t, i) == if k == 32 {
            0int
        } else {
            32 - k
        },
    decreases k - i,
{
    if i < k {
        lemma_size_from_range(t, i + 1, k);
    }
}

/// The compact codec round-trips: reading back the target of `b` gives
/// `b`, for every `b` with exponent between 4 and 32 whose mantissa's
/// low byte is set, and for 0. (Exponents at or below 3, or a clear low
/// mantissa byte, re-normalize to a different compact form.)
pub proof fn lemma_bits_round_trip(b: u32)
    requires
        b == 0 || (4 <= b >> 24u32 && b >> 24u32 <= 32 && b & 0xffu32 != 0),
    ensures
        spec_target_to_bits(spec_bits_to_target(b)) == b,
{
    let t = spec_bits_to_target(b);
    if b == 0 {
        assert(b >> 24u32 == 0 && b & 0x00ffffffu32 == 0) by (bit_vector)
            requires
                b == 0,
        ;
        assert((0u32 >> ((8 * (3 - (0u32 >> 24u32))) as u32)) == 0) by (bit_vector);
        assert(0u32 as u8 == 0 && (0u32 >> 8u32) as u8 == 0 && (0u32 >> 16u32) as u8 == 0)
            by (bit_vector);
        assert(forall|i: int| 0 <= i < 32 ==> t[i] == 0u8);
        lemma_size_from_range(t, 0, 32);
        assert(spec_target_to_bits(t) == 0u32);
    } else {
        let e = b >> 24u32;
        let mantissa = b & 0x00ffffffu32;
        let base = 32 - (e - 3) - 3;
        assert(4 <= e <= 32);
        assert(0 <= base <= 28);
        assert(mantissa as u8 != 0) by (bit_vector)
            requires
                mantissa == b & 0x00ffffffu32,
                b & 0xffu32 != 0,
        ;
        assert(t[base] == mantissa as u8);
        assert(forall|j: int| 0 <= j < base ==> t[j] == 0u8);
        lemma_size_from_range(t, 0, base);
        assert(spec_target_size(t) == 32 - base);
        assert(32 - base == e + 3 - 3);
        let size = spec_target_size(t);
        assert(size == e);
        assert(size >= 3);
        assert(32 - size == base);
        assert(t[base + 1] == (mantissa >> 8u32) as u8);
        assert(t[base + 2] == (mantissa >> 16u32) as u8);
        assert(((mantissa as u8) as u32) | ((((mantissa >> 8u32) as u8) as u32) << 8u32) | ((((
        mantissa >> 16u32) as u8) as u32) << 16u32) | (e << 24u32) == b) by (bit_vector)
            requires
                e == b >> 24u32,
                mantissa == b & 0x00ffffffu32,
                4 <= e <= 32,
        ;
        assert((size as u32) == e);
        assert(spec_target_to_bits(t) == b);
    }
}

/// The views of a vector of 32-byte hashes.
pub open spec fn hashes_view(v: Seq<[u8; 32]>) -> Seq<Seq<u8>> {
    v.map_values(|h: [u8; 32]| h@)
}

/// One level of the Merkle collapse: pairs are concatenated and hashed
/// once with SHA-256; a trailing odd element is paired with itself.
pub open spec fn spec_merkle_level(hs: Seq<Seq<u8>>) -> Seq<Seq<u8>> {
    Seq::new(
        (hs.len() + 1) / 2,
        |i: int|
            if 2 * i + 1 < hs.len() {
                spec_sha256(hs[2 * i] + hs[2 * i + 1])
            } else {
                spec_sha256(hs[2 * i] + hs[2 * i])
            },
    )
}

/// Collapses hash levels until one remains; no hashes collapse to the
/// all-zero hash.
pub open spec fn spec_merkle_collapse(hs: Seq<Seq<u8>>) -> Seq<u8>
    decreases hs.len(),
{
    if hs.len() == 0 {
        zero32()
    } else if hs.len() == 1 {
        hs[0]
    } else {
        spec_merkle_collapse(spec_merkle_level(hs))
    }
}

/// The Merkle root of a transaction list: the collapse of the
/// transaction ids.
pub open spec fn spec_merkle_root(txs: Seq<TxV>) -> Seq<u8> {
    spec_merkle_collapse(txs.map_values(|t: TxV| spec_tx_hash(t)))
}

/// The Merkle root of no transactions is the all-zero hash.
pub proof fn lemma_merkle_root_empty()
    ensures
        spec_merkle_root(Seq::empty()) == zero32(),
{
    assert(Seq::<TxV>::empty().map_values(|t: TxV| spec_tx_hash(t)) =~= Seq::<Seq<u8>>::empty());
}

/// The Merkle root of a single transaction is its id.
pub proof fn lemma_merkle_root_single(t: TxV)
    ensures
        spec_merkle_root(seq![t]) == spec_tx_hash(t),
{
    let hs = seq![t].map_values(|x: TxV| spec_tx_hash(x));
    assert(hs =~= seq![spec_tx_hash(t)]);
    assert(spec_merkle_collapse(hs) == hs[0]);
}

/// At an odd level of three or more, the last pair duplicates the last
/// hash.
pub proof fn lemma_merkle_level_odd_duplicates_last(hs: Seq<Seq<u8>>)
    requires
        hs.len() >= 3,
        hs.len() % 2 == 1,
    ensures
        spec_merkle_level(hs).len() == (hs.len() + 1) / 2,
        spec_merkle_level(hs).last() == spec_sha256(hs.last() + hs.last()),
{
    let n = hs.len() as int;
    let k = (n + 1) / 2 - 1;
    assert(2 * k == n - 1);
    assert(!(2 * k + 1 < n));
    assert(spec_merkle_level(hs)[k] == spec_sha256(hs[n - 1] + hs[n - 1]));
}

/// The fixed genesis block: version 1, zero parent, the genesis
/// transaction's id as Merkle root, a fixed timestamp, the genesis
/// difficulty, nonce 0 and height 0.
pub open spec fn spec_genesis_block() -> BlockV {
    BlockV {
        header: BlockHeaderV {
            version: crate::PROTOCOL_VERSION,
            previous_hash: zero32(),
            merkle_root: spec_tx_hash(spec_genesis_tx()),
            timestamp: 1704067200u64,
            bits: 0x1d00ffffu32,
            nonce: 0,
            height: 0,
        },
        transactions: seq![spec_genesis_tx()],
    }
}

impl BlockHeader {
    /// A header over the given fields, stamped with the current wall
    /// clock; the nonce starts at 0.
    pub fn new(
        version: u32,
        previous_hash: [u8; 32],
        merkle_root: [u8; 32],
        bits: u32,
        height: u64,
    ) -> (r: Self)
        ensures
            r@.version == version,
            r@.previous_hash == previous_hash@,
            r@.merkle_root == merkle_root@,
            r@.bits == bits,
            r@.nonce == 0,
            r@.height == height,
    {
        Self {
            version,
            previous_hash,
            merkle_root,
            timestamp: Self::current_timestamp(),
            bits,
            nonce: 0,
            height,
        }
    }

    /// The current wall clock in seconds since the Unix epoch.
    pub fn current_timestamp() -> u64 {
        crate::timeutil::now_seconds()
    }

    /// The header's identity: double SHA-256 of its canonical bytes.
    pub fn hash(&self) -> (r: [u8; 32])
        ensures
            r@ == spec_header_hash(self@),
    {
        let bytes = encode_header(self);
        sha256d(bytes.as_slice())
    }

    /// The 256-bit target this header's compact bits denote.
    pub fn target(&self) -> (r: [u8; 32])
        requires
            self.bits >> 24u32 <= 32,
        ensures
            r@ == spec_bits_to_target(self@.bits),
    {
        bits_to_target(self.bits)
    }

    /// Whether the header's hash lies at or below its own target.
    pub fn meets_difficulty(&self) -> (r: bool)
        requires
            self.bits >> 24u32 <= 32,
        ensures
            r == spec_lex_le(spec_header_hash(self@), spec_bits_to_target(self@.bits)),
    {
        let hash = self.hash();
        let target = self.target();
        crate::bytesutil::hash32_lex_le(&hash, &target)
    }
}

impl Block {
    /// A block over the given parent, transactions, compact target and
    /// height, with a freshly computed Merkle root and the current wall
    /// clock as timestamp.
    pub fn new(previous_hash: [u8; 32], transactions: Vec<Transaction>, bits: u32, height: u64)
        -> (r: Self)
        ensures
            r@.transactions == transactions@.map_values(|t: Transaction| t@),
            r@.header.version == crate::PROTOCOL_VERSION,
            r@.header.previous_hash == previous_hash@,
            r@.header.merkle_root == spec_merkle_root(
                transactions@.map_values(|t: Transaction| t@),
            ),
            r@.header.bits == bits,
            r@.header.nonce == 0,
            r@.header.height == height,
    {
        let merkle_root = Self::calculate_merkle_root(&transactions);
        let header = BlockHeader::new(
            crate::PROTOCOL_VERSION,
            previous_hash,
            merkle_root,
            bits,
            height,
        );
        Self { header, transactions }
    }

    /// The block's identity: the hash of its header.
    pub fn hash(&self) -> (r: [u8; 32])
        ensures
            r@ == spec_block_hash(self@),
    {
        self.header.hash()
    }

    /// The Merkle root of the transactions' ids: pairs are concatenated
    /// and hashed once per level, a trailing odd element paired with
    /// itself, until one hash remains; no transactions give the
    /// all-zero hash.
    pub fn calculate_merkle_root(transactions: &Vec<Transaction>) -> (r: [u8; 32])
        ensures
            r@ == spec_merkle_root(transactions@.map_values(|t: Transaction| t@)),
    {
        let ghost txv = transactions@.map_values(|t: Transaction| t@);
        if transactions.len() == 0 {
            proof {
                assert(txv.map_values(|t: TxV| spec_tx_hash(t)) =~= Seq::<Seq<u8>>::empty());
            }
            return zero_hash32();
        }
        let mut hashes: Vec<[u8; 32]> = Vec::new();
        let n0 = transactions.len();
        let mut i: usize = 0;
        while i < n0
            invariant
                n0 == transactions@.len(),
                0 <= i <= n0,
                txv == transactions@.map_values(|t: Transaction| t@),
                hashes_view(hashes@) =~= txv.map_values(|t: TxV| spec_tx_hash(t)).take(i as int),
            decreases n0 - i,
        {
            let ghost prevh = hashes@;
            let h = transactions[i].hash();
            hashes.push(h);
            proof {
                assert(txv[i as int] == transactions@[i as int]@);
                assert(h@ == spec_tx_hash(txv[i as int]));
                assert(hashes_view(hashes@) =~= hashes_view(prevh).push(h@));
                assert(txv.map_values(|t: TxV| spec_tx_hash(t)).take(i + 1) =~= txv.map_values(
                    |t: TxV| spec_tx_hash(t),
                ).take(i as int).push(spec_tx_hash(txv[i as int])));
                assert(hashes_view(hashes@) =~= txv.map_values(|t: TxV| spec_tx_hash(t)).take(
                    i + 1,
                ));
            }
            i = i + 1;
        }
        proof {
            assert(txv.map_values(|t: TxV| spec_tx_hash(t)).take(n0 as int) =~= txv.map_values(
                |t: TxV| spec_tx_hash(t),
            ));
        }
        while hashes.len() > 1
            invariant
                hashes@.len() >= 1,
                spec_merkle_collapse(hashes_view(hashes@)) == spec_merkle_root(txv),
            decreases hashes@.len(),
        {
            let n = hashes.len();
            let ghost cur = hashes_view(hashes@);
            let mut next_level: Vec<[u8; 32]> = Vec::new();
            let half = n / 2 + n % 2;
            proof {
                assert(half == (cur.len() + 1) / 2);
            }
            let mut k: usize = 0;
            while k < half
                invariant
                    n == hashes@.len(),
                    n >= 2,
                    cur == hashes_view(hashes@),
                    half == (cur.len() + 1) / 2,
                    0 <= k <= half,
                    next_level@.len() == k,
                    hashes_view(next_level@) =~= spec_merkle_level(cur).take(k as int),
                decreases half - k,
            {
                proof {
                    assert(2 * k < n + 1);
                    if 2 * k == n {
                        assert(n % 2 == 0);
                        assert(k == half);
                    }
                    assert(2 * k < n);
                }
                let j = 2 * k;
                let ghost prevnext = next_level@;
                let mut combined: Vec<u8> = Vec::new();
                w_raw(&mut combined, hashes[j].as_slice());
                if j + 1 < n {
                    w_raw(&mut combined, hashes[j + 1].as_slice());
                    proof {
                        assert(combined@ =~= cur[j as int] + cur[j as int + 1]);
                    }
                } else {
                    w_raw(&mut combined, hashes[j].as_slice());
                    proof {
                        assert(combined@ =~= cur[j as int] + cur[j as int]);
                    }
                }
                let h = sha256_digest(combined.as_slice());
                next_level.push(h);
                proof {
                    assert(spec_merkle_level(cur)[k as int] == h@);
                    assert(hashes_view(next_level@) =~= hashes_view(prevnext).push(h@));
                    assert(spec_merkle_level(cur).take(k + 1) =~= spec_merkle_level(cur).take(
                        k as int,
                    ).push(spec_merkle_level(cur)[k as int]));
                    assert(hashes_view(next_level@) =~= spec_merkle_level(cur).take(k + 1));
                }
                k = k + 1;
            }
            proof {
                assert(spec_merkle_level(cur).take(half as int) =~= spec_merkle_level(cur));
                assert(hashes_view(next_level@) =~= spec_merkle_level(cur));
                assert(spec_merkle_collapse(cur) == spec_merkle_collapse(spec_merkle_level(cur)));
                assert(next_level@.len() < n);
            }
            hashes = next_level;
        }
        let r = hashes[0];
        proof {
            assert(spec_merkle_collapse(hashes_view(hashes@)) == hashes_view(hashes@)[0]);
        }
        r
    }

    /// Block validity: the header satisfies its own proof-of-work
    /// target, the Merkle root matches a recomputation, there is at
    /// least one transaction, and every transaction is structurally
    /// valid.
    pub fn is_valid(&self) -> (r: bool)
        requires
            self.header.bits >> 24u32 <= 32,
        ensures
            r == (spec_lex_le(spec_header_hash(self@.header), spec_bits_to_target(self@.header.bits))
                && self@.header.merkle_root == spec_merkle_root(self@.transactions)
                && self@.transactions.len() > 0 && (forall|i: int|
                0 <= i < self@.transactions.len() ==> (#[trigger] self@.transactions[i]).valid())),
    {
        if !self.header.meets_difficulty() {
            return false;
        }
        let calculated_root = Self::calculate_merkle_root(&self.transactions);
        if !crate::bytesutil::hash32_eq(&calculated_root, &self.header.merkle_root) {
            return false;
        }
        if self.transactions.len() == 0 {
            return false;
        }
        let n = self.transactions.len();
        let mut i: usize = 0;
        while i < n
            invariant
                n == self.transactions@.len(),
                0 <= i <= n,
                self@.transactions.len() == n,
                self@.transactions == self.transactions@.map_values(|t: Transaction| t@),
                forall|j: int| 0 <= j < i ==> (#[trigger] self@.transactions[j]).valid(),
            decreases n - i,
        {
            if !self.transactions[i].is_valid() {
                proof {
                    assert(!self@.transactions[i as int].valid());
                }
                return false;
            }
            i = i + 1;
        }
        true
    }

    /// The byte size of the canonical block encoding.
    pub fn size(&self) -> (r: usize)
        ensures
            r == enc_block(self@).len(),
    {
        let bytes = encode_block(self);
        bytes.len()
    }

    /// The fixed genesis block.
    pub fn genesis() -> (r: Self)
        ensures
            r@ == spec_genesis_block(),
    {
        let genesis_tx = Transaction::genesis();
        let merkle_root = genesis_tx.hash();
        let mut transactions: Vec<Transaction> = Vec::new();
        transactions.push(genesis_tx);
        let r = Self {
            header: BlockHeader {
                version: crate::PROTOCOL_VERSION,
                previous_hash: zero_hash32(),
                merkle_root,
                timestamp: 1704067200,
                bits: 0x1d00ffff,
                nonce: 0,
                height: 0,
            },
            transactions,
        };
        proof {
            assert(r@.transactions =~= spec_genesis_block().transactions);
            assert(r@.header == spec_genesis_block().header);
        }
        r
    }
}

} // verus!

use vstd::array::array_index_get;
