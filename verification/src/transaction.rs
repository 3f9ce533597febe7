//! The eUTXO transaction model: outpoints, inputs, outputs and
//! transactions, their canonical wire format, and content addressing by
//! double SHA-256 of that format.

use vstd::prelude::*;
use crate::bytesutil::spec_all_zero;
use crate::codec::{
    dec_bytes, dec_hash32, dec_u32, dec_u64, enc_bytes, enc_u32, enc_u64,
    lemma_dec_bytes_of_enc, lemma_dec_u32_of_enc, lemma_dec_u64_of_enc, r_bytes, r_hash32, r_u32,
    r_u64, w_bytes, w_raw, w_u32, w_u64,
};
use crate::hashing::{sha256d, spec_sha256d};

verus! {

/// A reference to an output of an earlier transaction.
#[derive(Debug, Clone, Copy, PartialEq, Eq)]
pub struct OutPoint {
    /// Hash of the transaction holding the output.
    pub txid: [u8; 32],
    /// Index of the output within that transaction.
    pub vout: u32,
}

/// A transaction input: the outpoint it spends, the script that unlocks
/// it, and a sequence number.
#[derive(Debug, Clone, PartialEq, Eq)]
pub struct TxInput {
    /// The output being spent.
    pub previous_output: OutPoint,
    /// Unlocking script.
    pub script_sig: Vec<u8>,
    /// Sequence number; defaults to 0xffffffff.
    pub sequence: u32,
}

/// A transaction output: a value, an asset id (all zero for the native
/// asset) and the locking script.
#[derive(Debug, Clone, PartialEq, Eq)]
pub struct TxOutput {
    /// Value in satoshi.
    pub value: u64,
    /// Asset identifier; all zero means the native asset.
    pub asset_id: [u8; 32],
    /// Locking script.
    pub script_pubkey: Vec<u8>,
}

/// A transaction: versioned ordered inputs and outputs with a lock time.
/// Its identity is the double SHA-256 of its canonical encoding.
#[derive(Debug, Clone, PartialEq, Eq)]
pub struct Transaction {
    /// Format version.
    pub version: u32,
    /// Spent outputs.
    pub inputs: Vec<TxInput>,
    /// Created outputs.
    pub outputs: Vec<TxOutput>,
    /// Lock time; 0 means valid at once.
    pub lock_time: u64,
}

/// Whether a transaction is the coinbase of its block or an ordinary one.
#[derive(Debug, Clone, PartialEq, Eq)]
pub enum TransactionType {
    /// The block-reward transaction.
    Coinbase,
    /// Any other transaction.
    Regular,
}

/// Mathematical value of an `OutPoint`.
pub ghost struct OutPointV {
    pub txid: Seq<u8>,
    pub vout: u32,
}

/// Mathematical value of a `TxInput`.
pub ghost struct TxInputV {
    pub previous_output: OutPointV,
    pub script_sig: Seq<u8>,
    pub sequence: u32,
}

/// Mathematical value of a `TxOutput`.
pub ghost struct TxOutputV {
    pub value: u64,
    pub asset_id: Seq<u8>,
    pub script_pubkey: Seq<u8>,
}

/// Mathematical value of a `Transaction`.
pub ghost struct TxV {
    pub version: u32,
    pub inputs: Seq<TxInputV>,
    pub outputs: Seq<TxOutputV>,
    pub lock_time: u64,
}

impl View for OutPoint {
    type V = OutPointV;

    open spec fn view(&self) -> OutPointV {
        OutPointV { txid: self.txid@, vout: self.vout }
    }
}

impl View for TxInput {
    type V = TxInputV;

    open spec fn view(&self) -> TxInputV {
        TxInputV {
            previous_output: self.previous_output@,
            script_sig: self.script_sig@,
            sequence: self.sequence,
        }
    }
}

impl View for TxOutput {
    type V = TxOutputV;

    open spec fn view(&self) -> TxOutputV {
        TxOutputV {
            value: self.value,
            asset_id: self.asset_id@,
            script_pubkey: self.script_pubkey@,
        }
    }
}

impl View for Transaction {
    type V = TxV;

    open spec fn view(&self) -> TxV {
        TxV {
            version: self.version,
            inputs: self.inputs@.map_values(|i: TxInput| i@),
            outputs: self.outputs@.map_values(|o: TxOutput| o@),
            lock_time: self.lock_time,
        }
    }
}

impl OutPointV {
    /// The null outpoint marks coinbase inputs: all-zero txid and the
    /// largest index.
    pub open spec fn is_null(self) -> bool {
        self.txid.len() == 32 && spec_all_zero(self.txid) && self.vout == 0xffffffffu32
    }

    /// Structurally well formed: the txid is 32 bytes.
    pub open spec fn wf(self) -> bool {
        self.txid.len() == 32
    }
}

impl TxV {
    /// A coinbase transaction has exactly one input, which spends the
    /// null outpoint.
    pub open spec fn is_coinbase(self) -> bool {
        self.inputs.len() == 1 && self.inputs[0].previous_output.is_null()
    }

    /// Structural validity: at least one input, at least one output
    /// unless coinbase, and every output value positive.
    pub open spec fn valid(self) -> bool {
        &&& self.inputs.len() > 0
        &&& (self.is_coinbase() || self.outputs.len() > 0)
        &&& forall|i: int| 0 <= i < self.outputs.len() ==> #[trigger] self.outputs[i].value > 0
    }

    /// Structurally well formed: every hash field is 32 bytes.
    pub open spec fn wf(self) -> bool {
        &&& forall|i: int|
            0 <= i < self.inputs.len() ==> (#[trigger] self.inputs[i]).previous_output.wf()
        &&& forall|i: int| 0 <= i < self.outputs.len() ==> (#[trigger] self.outputs[i]).asset_id.len() == 32
    }
}

/// Wire format of an outpoint: the raw txid then the index.
pub open spec fn enc_outpoint(o: OutPointV) -> Seq<u8> {
    o.txid + enc_u32(o.vout)
}

/// Wire format of an input.
pub open spec fn enc_input(i: TxInputV) -> Seq<u8> {
    enc_outpoint(i.previous_output) + enc_bytes(i.script_sig) + enc_u32(i.sequence)
}

/// Wire format of an output.
pub open spec fn enc_output(o: TxOutputV) -> Seq<u8> {
    enc_u64(o.value) + o.asset_id + enc_bytes(o.script_pubkey)
}

/// Wire format of a list of inputs, in order.
pub open spec fn enc_inputs(s: Seq<TxInputV>) -> Seq<u8>
    decreases s.len(),
{
    if s.len() == 0 {
        Seq::empty()
    } else {
        enc_input(s.first()) + enc_inputs(s.drop_first())
    }
}

/// Wire format of a list of outputs, in order.
pub open spec fn enc_outputs(s: Seq<TxOutputV>) -> Seq<u8>
    decreases s.len(),
{
    if s.len() == 0 {
        Seq::empty()
    } else {
        enc_output(s.first()) + enc_outputs(s.drop_first())
    }
}

/// Canonical wire format of a transaction: version, the inputs behind
/// their count, the outputs behind their count, then the lock time.
pub open spec fn enc_tx(t: TxV) -> Seq<u8> {
    enc_u32(t.version) + enc_u64(t.inputs.len() as u64) + enc_inputs(t.inputs) + enc_u64(
        t.outputs.len() as u64,
    ) + enc_outputs(t.outputs) + enc_u64(t.lock_time)
}

/// The content address of a transaction: double SHA-256 of its wire
/// format.
pub open spec fn spec_tx_hash(t: TxV) -> Seq<u8> {
    spec_sha256d(enc_tx(t))
}

/// Appending one input extends the encoding at the end.
pub proof fn lemma_enc_inputs_push(s: Seq<TxInputV>, x: TxInputV)
    ensures
        enc_inputs(s.push(x)) == enc_inputs(s) + enc_input(x),
    decreases s.len(),
{
    if s.len() == 0 {
        let t = s.push(x);
        assert(t.drop_first() =~= Seq::<TxInputV>::empty());
        assert(t.first() == x);
        assert(enc_inputs(t.drop_first()) =~= Seq::<u8>::empty());
        assert(enc_inputs(t) =~= enc_input(x) + enc_inputs(t.drop_first()));
        assert(enc_inputs(s) =~= Seq::<u8>::empty());
        assert(enc_inputs(s.push(x)) =~= enc_inputs(s) + enc_input(x));
    } else {
        assert(s.push(x).drop_first() =~= s.drop_first().push(x));
        assert(s.push(x).first() == s.first());
        lemma_enc_inputs_push(s.drop_first(), x);
        assert(enc_inputs(s.push(x)) =~= enc_inputs(s) + enc_input(x));
    }
}

/// Appending one output extends the encoding at the end.
pub proof fn lemma_enc_outputs_push(s: Seq<TxOutputV>, x: TxOutputV)
    ensures
        enc_outputs(s.push(x)) == enc_outputs(s) + enc_output(x),
    decreases s.len(),
{
    if s.len() == 0 {
        let t = s.push(x);
        assert(t.drop_first() =~= Seq::<TxOutputV>::empty());
        assert(t.first() == x);
        assert(enc_outputs(t.drop_first()) =~= Seq::<u8>::empty());
        assert(enc_outputs(t) =~= enc_output(x) + enc_outputs(t.drop_first()));
        assert(enc_outputs(s) =~= Seq::<u8>::empty());
        assert(enc_outputs(s.push(x)) =~= enc_outputs(s) + enc_output(x));
    } else {
        assert(s.push(x).drop_first() =~= s.drop_first().push(x));
        assert(s.push(x).first() == s.first());
        lemma_enc_outputs_push(s.drop_first(), x);
        assert(enc_outputs(s.push(x)) =~= enc_outputs(s) + enc_output(x));
    }
}

/// Reads an outpoint.
pub open spec fn dec_outpoint(s: Seq<u8>, pos: int) -> Option<(OutPointV, int)> {
    match dec_hash32(s, pos) {
        Some((txid, p1)) => match dec_u32(s, p1) {
            Some((vout, p2)) => Some((OutPointV { txid, vout }, p2)),
            None => None,
        },
        None => None,
    }
}

/// Reads an input.
pub open spec fn dec_input(s: Seq<u8>, pos: int) -> Option<(TxInputV, int)> {
    match dec_outpoint(s, pos) {
        Some((po, p1)) => match dec_bytes(s, p1) {
            Some((sig, p2)) => match dec_u32(s, p2) {
                Some((sq, p3)) => Some(
                    (TxInputV { previous_output: po, script_sig: sig, sequence: sq }, p3),
                ),
                None => None,
            },
            None => None,
        },
        None => None,
    }
}

/// Reads an output.
pub open spec fn dec_output(s: Seq<u8>, pos: int) -> Option<(TxOutputV, int)> {
    match dec_u64(s, pos) {
        Some((value, p1)) => match dec_hash32(s, p1) {
            Some((asset, p2)) => match dec_bytes(s, p2) {
                Some((spk, p3)) => Some(
                    (TxOutputV { value, asset_id: asset, script_pubkey: spk }, p3),
                ),
                None => None,
            },
            None => None,
        },
        None => None,
    }
}

/// Reads `n` inputs in order.
pub open spec fn dec_inputs(s: Seq<u8>, pos: int, n: int) -> Option<(Seq<TxInputV>, int)>
    decreases n,
{
    if n <= 0 {
        Some((Seq::empty(), pos))
    } else {
        match dec_input(s, pos) {
            Some((v, p1)) => match dec_inputs(s, p1, n - 1) {
                Some((vs, p2)) => Some((seq![v] + vs, p2)),
                None => None,
            },
            None => None,
        }
    }
}

/// Reads `n` outputs in order.
pub open spec fn dec_outputs(s: Seq<u8>, pos: int, n: int) -> Option<(Seq<TxOutputV>, int)>
    decreases n,
{
    if n <= 0 {
        Some((Seq::empty(), pos))
    } else {
        match dec_output(s, pos) {
            Some((v, p1)) => match dec_outputs(s, p1, n - 1) {
                Some((vs, p2)) => Some((seq![v] + vs, p2)),
                None => None,
            },
            None => None,
        }
    }
}

/// Reads a transaction.
pub open spec fn dec_tx(s: Seq<u8>, pos: int) -> Option<(TxV, int)> {
    match dec_u32(s, pos) {
        Some((version, p1)) => match dec_u64(s, p1) {
            Some((n_in, p2)) => match dec_inputs(s, p2, n_in as int) {
                Some((ins, p3)) => match dec_u64(s, p3) {
                    Some((n_out, p4)) => match dec_outputs(s, p4, n_out as int) {
                        Some((outs, p5)) => match dec_u64(s, p5) {
                            Some((lt, p6)) => Some(
                                (TxV { version, inputs: ins, outputs: outs, lock_time: lt }, p6),
                            ),
                            None => None,
                        },
                        None => None,
                    },
                    None => None,
                },
                None => None,
            },
            None => None,
        },
        None => None,
    }
}

/// Decoding at an embedded encoded outpoint yields it back.
pub proof fn lemma_dec_outpoint_of_enc(s: Seq<u8>, pos: int, o: OutPointV)
    requires
        o.wf(),
        0 <= pos,
        pos + 36 <= s.len(),
        s.subrange(pos, pos + 36) == enc_outpoint(o),
    ensures
        dec_outpoint(s, pos) == Some((o, pos + 36)),
{
    crate::codec::lemma_u64_round_trip();
    let e = enc_outpoint(o);
    assert(e.len() == 36);
    assert(s.subrange(pos, pos + 32) =~= e.subrange(0, 32));
    assert(e.subrange(0, 32) =~= o.txid);
    assert(s.subrange(pos + 32, pos + 36) =~= e.subrange(32, 36));
    assert(e.subrange(32, 36) =~= enc_u32(o.vout));
    lemma_dec_u32_of_enc(s, pos + 32, o.vout);
    assert(o == (OutPointV { txid: o.txid, vout: o.vout }));
}

/// Decoding at an embedded encoded input yields it back.
pub proof fn lemma_dec_input_of_enc(s: Seq<u8>, pos: int, i: TxInputV)
    requires
        i.previous_output.wf(),
        i.script_sig.len() <= usize::MAX,
        0 <= pos,
        pos + enc_input(i).len() <= s.len(),
        s.subrange(pos, pos + enc_input(i).len()) == enc_input(i),
    ensures
        dec_input(s, pos) == Some((i, pos + enc_input(i).len())),
{
    crate::codec::lemma_u64_round_trip();
    let e = enc_input(i);
    let l1 = 36int;
    let l2 = enc_bytes(i.script_sig).len() as int;
    assert(e.len() == l1 + l2 + 4);
    assert(s.subrange(pos, pos + 36) =~= e.subrange(0, 36));
    assert(e.subrange(0, 36) =~= enc_outpoint(i.previous_output));
    lemma_dec_outpoint_of_enc(s, pos, i.previous_output);
    assert(s.subrange(pos + l1, pos + l1 + l2) =~= e.subrange(l1, l1 + l2));
    assert(e.subrange(l1, l1 + l2) =~= enc_bytes(i.script_sig));
    lemma_dec_bytes_of_enc(s, pos + l1, i.script_sig);
    assert(s.subrange(pos + l1 + l2, pos + l1 + l2 + 4) =~= e.subrange(l1 + l2, l1 + l2 + 4));
    assert(e.subrange(l1 + l2, l1 + l2 + 4) =~= enc_u32(i.sequence));
    lemma_dec_u32_of_enc(s, pos + l1 + l2, i.sequence);
    assert(i == (TxInputV {
        previous_output: i.previous_output,
        script_sig: i.script_sig,
        sequence: i.sequence,
    }));
}

/// Decoding at an embedded encoded output yields it back.
pub proof fn lemma_dec_output_of_enc(s: Seq<u8>, pos: int, o: TxOutputV)
    requires
        o.asset_id.len() == 32,
        o.script_pubkey.len() <= usize::MAX,
        0 <= pos,
        pos + enc_output(o).len() <= s.len(),
        s.subrange(pos, pos + enc_output(o).len()) == enc_output(o),
    ensures
        dec_output(s, pos) == Some((o, pos + enc_output(o).len())),
{
    crate::codec::lemma_u64_round_trip();
    let e = enc_output(o);
    let l2 = enc_bytes(o.script_pubkey).len() as int;
    assert(e.len() == 40 + l2);
    assert(s.subrange(pos, pos + 8) =~= e.subrange(0, 8));
    assert(e.subrange(0, 8) =~= enc_u64(o.value));
    lemma_dec_u64_of_enc(s, pos, o.value);
    assert(s.subrange(pos + 8, pos + 40) =~= e.subrange(8, 40));
    assert(e.subrange(8, 40) =~= o.asset_id);
    assert(s.subrange(pos + 40, pos + 40 + l2) =~= e.subrange(40, 40 + l2));
    assert(e.subrange(40, 40 + l2) =~= enc_bytes(o.script_pubkey));
    lemma_dec_bytes_of_enc(s, pos + 40, o.script_pubkey);
    assert(o == (TxOutputV {
        value: o.value,
        asset_id: o.asset_id,
        script_pubkey: o.script_pubkey,
    }));
}

/// Structural well-formedness of a list of inputs for decoding.
pub open spec fn inputs_wf(s: Seq<TxInputV>) -> bool {
    forall|i: int|
        0 <= i < s.len() ==> (#[trigger] s[i]).previous_output.wf() && s[i].script_sig.len()
            <= usize::MAX
}

/// Structural well-formedness of a list of outputs for decoding.
pub open spec fn outputs_wf(s: Seq<TxOutputV>) -> bool {
    forall|i: int|
        0 <= i < s.len() ==> (#[trigger] s[i]).asset_id.len() == 32 && s[i].script_pubkey.len()
            <= usize::MAX
}

/// Decoding at an embedded encoded input list yields it back.
pub proof fn lemma_dec_inputs_of_enc(s: Seq<u8>, pos: int, is: Seq<TxInputV>)
    requires
        inputs_wf(is),
        0 <= pos,
        pos + enc_inputs(is).len() <= s.len(),
        s.subrange(pos, pos + enc_inputs(is).len()) == enc_inputs(is),
    ensures
        dec_inputs(s, pos, is.len() as int) == Some((is, pos + enc_inputs(is).len())),
    decreases is.len(),
{
    if is.len() == 0 {
        assert(dec_inputs(s, pos, 0) == Some((Seq::<TxInputV>::empty(), pos)));
        assert(is =~= Seq::<TxInputV>::empty());
    } else {
        let e = enc_inputs(is);
        let h = is.first();
        let rest = is.drop_first();
        let l1 = enc_input(h).len() as int;
        assert(e =~= enc_input(h) + enc_inputs(rest));
        assert(s.subrange(pos, pos + l1) =~= e.subrange(0, l1));
        assert(e.subrange(0, l1) =~= enc_input(h));
        lemma_dec_input_of_enc(s, pos, h);
        assert(inputs_wf(rest));
        assert(s.subrange(pos + l1, pos + e.len()) =~= e.subrange(l1, e.len() as int));
        assert(e.subrange(l1, e.len() as int) =~= enc_inputs(rest));
        lemma_dec_inputs_of_enc(s, pos + l1, rest);
        assert(seq![h] + rest =~= is);
    }
}

/// Decoding at an embedded encoded output list yields it back.
pub proof fn lemma_dec_outputs_of_enc(s: Seq<u8>, pos: int, os: Seq<TxOutputV>)
    requires
        outputs_wf(os),
        0 <= pos,
        pos + enc_outputs(os).len() <= s.len(),
        s.subrange(pos, pos + enc_outputs(os).len()) == enc_outputs(os),
    ensures
        dec_outputs(s, pos, os.len() as int) == Some((os, pos + enc_outputs(os).len())),
    decreases os.len(),
{
    if os.len() == 0 {
        assert(dec_outputs(s, pos, 0) == Some((Seq::<TxOutputV>::empty(), pos)));
        assert(os =~= Seq::<TxOutputV>::empty());
    } else {
        let e = enc_outputs(os);
        let h = os.first();
        let rest = os.drop_first();
        let l1 = enc_output(h).len() as int;
        assert(e =~= enc_output(h) + enc_outputs(rest));
        assert(s.subrange(pos, pos + l1) =~= e.subrange(0, l1));
        assert(e.subrange(0, l1) =~= enc_output(h));
        lemma_dec_output_of_enc(s, pos, h);
        assert(outputs_wf(rest));
        assert(s.subrange(pos + l1, pos + e.len()) =~= e.subrange(l1, e.len() as int));
        assert(e.subrange(l1, e.len() as int) =~= enc_outputs(rest));
        lemma_dec_outputs_of_enc(s, pos + l1, rest);
        assert(seq![h] + rest =~= os);
    }
}

/// Decodable transactions: hashes are 32 bytes, scripts fit a machine
/// word, and the element counts fit a `u64`.
pub open spec fn tx_wf(t: TxV) -> bool {
    &&& inputs_wf(t.inputs)
    &&& outputs_wf(t.outputs)
    &&& t.inputs.len() <= u64::MAX
    &&& t.outputs.len() <= u64::MAX
}

/// Decoding at an embedded encoded transaction yields it back.
pub proof fn lemma_dec_tx_of_enc(s: Seq<u8>, pos: int, t: TxV)
    requires
        tx_wf(t),
        0 <= pos,
        pos + enc_tx(t).len() <= s.len(),
        s.subrange(pos, pos + enc_tx(t).len()) == enc_tx(t),
    ensures
        dec_tx(s, pos) == Some((t, pos + enc_tx(t).len())),
{
    crate::codec::lemma_u64_round_trip();
    let e = enc_tx(t);
    let li = enc_inputs(t.inputs).len() as int;
    let lo = enc_outputs(t.outputs).len() as int;
    assert(e.len() == 4 + 8 + li + 8 + lo + 8);
    let p1 = pos + 4;
    let p2 = p1 + 8;
    let p3 = p2 + li;
    let p4 = p3 + 8;
    let p5 = p4 + lo;
    assert(s.subrange(pos, p1) =~= e.subrange(0, 4));
    assert(e.subrange(0, 4) =~= enc_u32(t.version));
    lemma_dec_u32_of_enc(s, pos, t.version);
    assert(s.subrange(p1, p2) =~= e.subrange(4, 12));
    assert(e.subrange(4, 12) =~= enc_u64(t.inputs.len() as u64));
    lemma_dec_u64_of_enc(s, p1, t.inputs.len() as u64);
    assert(s.subrange(p2, p3) =~= e.subrange(12, 12 + li));
    assert(e.subrange(12, 12 + li) =~= enc_inputs(t.inputs));
    lemma_dec_inputs_of_enc(s, p2, t.inputs);
    assert(s.subrange(p3, p4) =~= e.subrange(12 + li, 20 + li));
    assert(e.subrange(12 + li, 20 + li) =~= enc_u64(t.outputs.len() as u64));
    lemma_dec_u64_of_enc(s, p3, t.outputs.len() as u64);
    assert(s.subrange(p4, p5) =~= e.subrange(20 + li, 20 + li + lo));
    assert(e.subrange(20 + li, 20 + li + lo) =~= enc_outputs(t.outputs));
    lemma_dec_outputs_of_enc(s, p4, t.outputs);
    assert(s.subrange(p5, p5 + 8) =~= e.subrange(20 + li + lo, 28 + li + lo));
    assert(e.subrange(20 + li + lo, 28 + li + lo) =~= enc_u64(t.lock_time));
    lemma_dec_u64_of_enc(s, p5, t.lock_time);
    assert(t == (TxV {
        version: t.version,
        inputs: t.inputs,
        outputs: t.outputs,
        lock_time: t.lock_time,
    }));
}

/// The all-zero 32-byte string.
pub open spec fn zero32() -> Seq<u8> {
    Seq::new(32, |i: int| 0u8)
}

/// The fixed banner written into every coinbase script.
pub open spec fn spec_banner() -> Seq<u8> {
    seq![
        0x53u8, 0x65, 0x64, 0x6c, 0x79, 0x20, 0x47, 0x65, 0x6e, 0x65, 0x73, 0x69, 0x73,
    ]
}

/// The fixed banner of the genesis transaction.
pub open spec fn spec_genesis_banner() -> Seq<u8> {
    seq![
        0x53u8, 0x65, 0x64, 0x6c, 0x79, 0x20, 0x2d, 0x20, 0x46, 0x61, 0x69, 0x72, 0x20, 0x4c,
        0x61, 0x75, 0x6e, 0x63, 0x68, 0x20, 0x42, 0x6c, 0x6f, 0x63, 0x6b, 0x63, 0x68, 0x61,
        0x69, 0x6e,
    ]
}

/// The script of a coinbase at `height`: the height bytes behind their
/// one-byte length, then the fixed banner.
pub open spec fn spec_coinbase_script(height: u64) -> Seq<u8> {
    seq![8u8] + vstd::bytes::spec_u64_to_le_bytes(height) + spec_banner()
}

/// The coinbase transaction paying `reward` at `height` to the script
/// `addr`: one null-outpoint input and one native-asset output.
pub open spec fn spec_coinbase_tx(addr: Seq<u8>, height: u64, reward: u64) -> TxV {
    TxV {
        version: crate::PROTOCOL_VERSION,
        inputs: seq![
            TxInputV {
                previous_output: OutPointV { txid: zero32(), vout: 0xffffffffu32 },
                script_sig: spec_coinbase_script(height),
                sequence: 0xffffffffu32,
            },
        ],
        outputs: seq![
            TxOutputV { value: reward, asset_id: zero32(), script_pubkey: addr },
        ],
        lock_time: 0,
    }
}

/// The fixed genesis transaction: a coinbase with the genesis banner as
/// script and no outputs.
pub open spec fn spec_genesis_tx() -> TxV {
    TxV {
        version: crate::PROTOCOL_VERSION,
        inputs: seq![
            TxInputV {
                previous_output: OutPointV { txid: zero32(), vout: 0xffffffffu32 },
                script_sig: spec_genesis_banner(),
                sequence: 0xffffffffu32,
            },
        ],
        outputs: Seq::empty(),
        lock_time: 0,
    }
}

/// The sum of the output values.
pub open spec fn spec_output_sum(outs: Seq<TxOutputV>) -> int
    decreases outs.len(),
{
    if outs.len() == 0 {
        0
    } else {
        spec_output_sum(outs.drop_last()) + outs.last().value
    }
}

/// The canonical transaction encoding is injective: equal encodings mean
/// equal transactions. Together with collision resistance of SHA-256
/// (which is assumed of the hash, not proved), distinct transactions
/// have distinct ids.
pub proof fn lemma_enc_tx_injective(t1: TxV, t2: TxV)
    requires
        tx_wf(t1),
        tx_wf(t2),
        enc_tx(t1) == enc_tx(t2),
    ensures
        t1 == t2,
{
    let s = enc_tx(t1);
    assert(s.subrange(0, s.len() as int) =~= s);
    lemma_dec_tx_of_enc(s, 0, t1);
    lemma_dec_tx_of_enc(s, 0, t2);
}

/// Appends the wire form of an outpoint.
fn w_outpoint(out: &mut Vec<u8>, o: &OutPoint)
    ensures
        final(out)@ == old(out)@ + enc_outpoint(o@),
{
    w_raw(out, o.txid.as_slice());
    w_u32(out, o.vout);
    proof {
        assert(out@ =~= old(out)@ + enc_outpoint(o@));
    }
}

/// Appends the wire form of an input.
fn w_input(out: &mut Vec<u8>, i: &TxInput)
    ensures
        final(out)@ == old(out)@ + enc_input(i@),
{
    w_outpoint(out, &i.previous_output);
    w_bytes(out, i.script_sig.as_slice());
    w_u32(out, i.sequence);
    proof {
        assert(out@ =~= old(out)@ + enc_input(i@));
    }
}

/// Appends the wire form of an output.
fn w_output(out: &mut Vec<u8>, o: &TxOutput)
    ensures
        final(out)@ == old(out)@ + enc_output(o@),
{
    w_u64(out, o.value);
    w_raw(out, o.asset_id.as_slice());
    w_bytes(out, o.script_pubkey.as_slice());
    proof {
        assert(out@ =~= old(out)@ + enc_output(o@));
    }
}

/// Appends the canonical wire form of a transaction.
pub fn encode_transaction_into(out: &mut Vec<u8>, t: &Transaction)
    ensures
        final(out)@ == old(out)@ + enc_tx(t@),
{
    w_u32(out, t.version);
    w_u64(out, t.inputs.len() as u64);
    let n_in = t.inputs.len();
    let mut i: usize = 0;
    while i < n_in
        invariant
            n_in == t.inputs@.len(),
            0 <= i <= n_in,
            t@.inputs.len() == n_in,
            t@.inputs == t.inputs@.map_values(|x: TxInput| x@),
            out@ =~= old(out)@ + enc_u32(t@.version) + enc_u64(t@.inputs.len() as u64)
                + enc_inputs(t@.inputs.take(i as int)),
        decreases n_in - i,
    {
        w_input(out, &t.inputs[i]);
        proof {
            assert(t@.inputs.take(i + 1) =~= t@.inputs.take(i as int).push(t@.inputs[i as int]));
            lemma_enc_inputs_push(t@.inputs.take(i as int), t@.inputs[i as int]);
            assert(out@ =~= old(out)@ + enc_u32(t@.version) + enc_u64(t@.inputs.len() as u64)
                + enc_inputs(t@.inputs.take(i + 1)));
        }
        i = i + 1;
    }
    proof {
        assert(t@.inputs.take(n_in as int) =~= t@.inputs);
    }
    w_u64(out, t.outputs.len() as u64);
    let ghost mid = old(out)@ + enc_u32(t@.version) + enc_u64(t@.inputs.len() as u64) + enc_inputs(
        t@.inputs,
    ) + enc_u64(t@.outputs.len() as u64);
    let n_out = t.outputs.len();
    let mut j: usize = 0;
    while j < n_out
        invariant
            n_out == t.outputs@.len(),
            0 <= j <= n_out,
            t@.outputs.len() == n_out,
            t@.outputs == t.outputs@.map_values(|x: TxOutput| x@),
            out@ =~= mid + enc_outputs(t@.outputs.take(j as int)),
        decreases n_out - j,
    {
        w_output(out, &t.outputs[j]);
        proof {
            assert(t@.outputs.take(j + 1) =~= t@.outputs.take(j as int).push(t@.outputs[j as int]));
            lemma_enc_outputs_push(t@.outputs.take(j as int), t@.outputs[j as int]);
            assert(out@ =~= mid + enc_outputs(t@.outputs.take(j + 1)));
        }
        j = j + 1;
    }
    proof {
        assert(t@.outputs.take(n_out as int) =~= t@.outputs);
    }
    w_u64(out, t.lock_time);
    proof {
        assert(out@ =~= old(out)@ + enc_tx(t@));
    }
}

/// The canonical wire form of a transaction.
pub fn encode_transaction(t: &Transaction) -> (r: Vec<u8>)
    ensures
        r@ == enc_tx(t@),
{
    let mut out: Vec<u8> = Vec::new();
    encode_transaction_into(&mut out, t);
    out
}

/// Reads an outpoint.
fn r_outpoint(s: &[u8], pos: usize) -> (r: Option<(OutPoint, usize)>)
    ensures
        match r {
            Some((v, p)) => dec_outpoint(s@, pos as int) == Some((v@, p as int)) && pos < p
                <= s@.len(),
            None => dec_outpoint(s@, pos as int) is None,
        },
{
    match r_hash32(s, pos) {
        Some((txid, p1)) => match r_u32(s, p1) {
            Some((vout, p2)) => Some((OutPoint { txid, vout }, p2)),
            None => None,
        },
        None => None,
    }
}

/// Reads an input.
fn r_input(s: &[u8], pos: usize) -> (r: Option<(TxInput, usize)>)
    ensures
        match r {
            Some((v, p)) => dec_input(s@, pos as int) == Some((v@, p as int)) && pos < p
                <= s@.len(),
            None => dec_input(s@, pos as int) is None,
        },
{
    match r_outpoint(s, pos) {
        Some((po, p1)) => match r_bytes(s, p1) {
            Some((sig, p2)) => match r_u32(s, p2) {
                Some((sq, p3)) => Some(
                    (TxInput { previous_output: po, script_sig: sig, sequence: sq }, p3),
                ),
                None => None,
            },
            None => None,
        },
        None => None,
    }
}

/// Reads an output.
fn r_output(s: &[u8], pos: usize) -> (r: Option<(TxOutput, usize)>)
    ensures
        match r {
            Some((v, p)) => dec_output(s@, pos as int) == Some((v@, p as int)) && pos < p
                <= s@.len(),
            None => dec_output(s@, pos as int) is None,
        },
{
    match r_u64(s, pos) {
        Some((value, p1)) => match r_hash32(s, p1) {
            Some((asset, p2)) => match r_bytes(s, p2) {
                Some((spk, p3)) => Some(
                    (TxOutput { value, asset_id: asset, script_pubkey: spk }, p3),
                ),
                None => None,
            },
            None => None,
        },
        None => None,
    }
}

/// Reads `n` inputs.
fn r_inputs(s: &[u8], pos: usize, n: u64) -> (r: Option<(Vec<TxInput>, usize)>)
    requires
        pos <= s@.len(),
    ensures
        match r {
            Some((v, p)) => dec_inputs(s@, pos as int, n as int) == Some(
                (v@.map_values(|x: TxInput| x@), p as int),
            ) && pos <= p <= s@.len(),
            None => dec_inputs(s@, pos as int, n as int) is None,
        },
{
    let mut acc: Vec<TxInput> = Vec::new();
    let mut p = pos;
    let mut i: u64 = 0;
    while i < n
        invariant
            i <= n,
            pos <= p <= s@.len(),
            dec_inputs(s@, pos as int, n as int) == (match dec_inputs(
                s@,
                p as int,
                n - i,
            ) {
                Some((vs, q)) => Some((acc@.map_values(|x: TxInput| x@) + vs, q)),
                None => None::<(Seq<TxInputV>, int)>,
            }),
        decreases n - i,
    {
        match r_input(s, p) {
            Some((v, p2)) => {
                proof {
                    let ghost accv = acc@.map_values(|x: TxInput| x@);
                    assert(acc@.push(v).map_values(|x: TxInput| x@) =~= accv.push(v@));
                    assert(forall|vs: Seq<TxInputV>|
                        accv + (seq![v@] + vs) =~= accv.push(v@) + vs);
                }
                acc.push(v);
                p = p2;
                i = i + 1;
            },
            None => {
                return None;
            },
        }
    }
    proof {
        assert(dec_inputs(s@, p as int, 0) == Some((Seq::<TxInputV>::empty(), p as int)));
        assert(acc@.map_values(|x: TxInput| x@) + Seq::<TxInputV>::empty() =~= acc@.map_values(
            |x: TxInput| x@,
        ));
    }
    Some((acc, p))
}

/// Reads `n` outputs.
fn r_outputs(s: &[u8], pos: usize, n: u64) -> (r: Option<(Vec<TxOutput>, usize)>)
    requires
        pos <= s@.len(),
    ensures
        match r {
            Some((v, p)) => dec_outputs(s@, pos as int, n as int) == Some(
                (v@.map_values(|x: TxOutput| x@), p as int),
            ) && pos <= p <= s@.len(),
            None => dec_outputs(s@, pos as int, n as int) is None,
        },
{
    let mut acc: Vec<TxOutput> = Vec::new();
    let mut p = pos;
    let mut i: u64 = 0;
    while i < n
        invariant
            i <= n,
            pos <= p <= s@.len(),
            dec_outputs(s@, pos as int, n as int) == (match dec_outputs(
                s@,
                p as int,
                n - i,
            ) {
                Some((vs, q)) => Some((acc@.map_values(|x: TxOutput| x@) + vs, q)),
                None => None::<(Seq<TxOutputV>, int)>,
            }),
        decreases n - i,
    {
        match r_output(s, p) {
            Some((v, p2)) => {
                proof {
                    let ghost accv = acc@.map_values(|x: TxOutput| x@);
                    assert(acc@.push(v).map_values(|x: TxOutput| x@) =~= accv.push(v@));
                    assert(forall|vs: Seq<TxOutputV>|
                        accv + (seq![v@] + vs) =~= accv.push(v@) + vs);
                }
                acc.push(v);
                p = p2;
                i = i + 1;
            },
            None => {
                return None;
            },
        }
    }
    proof {
        assert(dec_outputs(s@, p as int, 0) == Some((Seq::<TxOutputV>::empty(), p as int)));
        assert(acc@.map_values(|x: TxOutput| x@) + Seq::<TxOutputV>::empty() =~= acc@.map_values(
            |x: TxOutput| x@,
        ));
    }
    Some((acc, p))
}

/// The transaction denoted by a whole byte string, when it reads as one
/// with nothing left over.
pub open spec fn tx_from_bytes(s: Seq<u8>) -> Option<TxV> {
    match dec_tx(s, 0) {
        Some((t, p)) => if p == s.len() {
            Some(t)
        } else {
            None
        },
        None => None,
    }
}

/// Reads a transaction from a whole byte string; the string must hold
/// exactly one transaction.
pub fn decode_transaction(s: &[u8]) -> (r: Option<Transaction>)
    ensures
        match r {
            Some(t) => tx_from_bytes(s@) == Some(t@),
            None => tx_from_bytes(s@) is None,
        },
{
    match read_transaction_at(s, 0) {
        Some((t, p)) => {
            if p == s.len() {
                Some(t)
            } else {
                None
            }
        },
        None => None,
    }
}

/// Reads one transaction from within a byte string.
pub fn read_transaction_at(s: &[u8], pos: usize) -> (r: Option<(Transaction, usize)>)
    requires
        pos <= s@.len(),
    ensures
        match r {
            Some((t, p)) => dec_tx(s@, pos as int) == Some((t@, p as int)) && pos <= p
                <= s@.len(),
            None => dec_tx(s@, pos as int) is None,
        },
{
    let p0: usize = pos;
    let (version, p1) = match r_u32(s, p0) {
        Some(x) => x,
        None => {
            return None;
        },
    };
    let (n_in, p2) = match r_u64(s, p1) {
        Some(x) => x,
        None => {
            return None;
        },
    };
    let (inputs, p3) = match r_inputs(s, p2, n_in) {
        Some(x) => x,
        None => {
            return None;
        },
    };
    let (n_out, p4) = match r_u64(s, p3) {
        Some(x) => x,
        None => {
            return None;
        },
    };
    let (outputs, p5) = match r_outputs(s, p4, n_out) {
        Some(x) => x,
        None => {
            return None;
        },
    };
    let (lock_time, p6) = match r_u64(s, p5) {
        Some(x) => x,
        None => {
            return None;
        },
    };
    Some((Transaction { version, inputs, outputs, lock_time }, p6))
}

/// The 32-byte all-zero array.
pub fn zero_hash32() -> (r: [u8; 32])
    ensures
        r@ == zero32(),
{
    let r: [u8; 32] = [0u8; 32];
    proof {
        assert(r@ =~= zero32());
    }
    r
}

impl Transaction {
    /// A transaction at the current protocol version.
    pub fn new(inputs: Vec<TxInput>, outputs: Vec<TxOutput>, lock_time: u64) -> (r: Self)
        ensures
            r@ == (TxV {
                version: crate::PROTOCOL_VERSION,
                inputs: inputs@.map_values(|i: TxInput| i@),
                outputs: outputs@.map_values(|o: TxOutput| o@),
                lock_time: lock_time,
            }),
    {
        Self { version: crate::PROTOCOL_VERSION, inputs, outputs, lock_time }
    }

    /// The transaction id: double SHA-256 of the canonical encoding.
    pub fn hash(&self) -> (r: [u8; 32])
        ensures
            r@ == spec_tx_hash(self@),
    {
        let bytes = encode_transaction(self);
        sha256d(bytes.as_slice())
    }

    /// Whether this is a coinbase: one input spending the null outpoint.
    pub fn is_coinbase(&self) -> (r: bool)
        ensures
            r == self@.is_coinbase(),
    {
        if self.inputs.len() != 1 {
            return false;
        }
        let inp = &self.inputs[0];
        crate::bytesutil::hash32_is_zero(&inp.previous_output.txid) && inp.previous_output.vout
            == 0xffffffff
    }

    /// The kind of this transaction.
    pub fn transaction_type(&self) -> (r: TransactionType)
        ensures
            r == (if self@.is_coinbase() {
                TransactionType::Coinbase
            } else {
                TransactionType::Regular
            }),
    {
        if self.is_coinbase() {
            TransactionType::Coinbase
        } else {
            TransactionType::Regular
        }
    }

    /// The script of a coinbase at `block_height`: the height bytes
    /// behind their length, then the fixed banner.
    fn create_coinbase_script(block_height: u64) -> (r: Vec<u8>)
        ensures
            r@ == spec_coinbase_script(block_height),
    {
        let mut script: Vec<u8> = Vec::new();
        script.push(8u8);
        let height_bytes = vstd::bytes::u64_to_le_bytes(block_height);
        w_raw(&mut script, height_bytes.as_slice());
        let mut banner: Vec<u8> = Vec::new();
        banner.push(0x53);
        banner.push(0x65);
        banner.push(0x64);
        banner.push(0x6c);
        banner.push(0x79);
        banner.push(0x20);
        banner.push(0x47);
        banner.push(0x65);
        banner.push(0x6e);
        banner.push(0x65);
        banner.push(0x73);
        banner.push(0x69);
        banner.push(0x73);
        proof {
            assert(banner@ =~= spec_banner());
        }
        w_raw(&mut script, banner.as_slice());
        proof {
            assert(script@ =~= spec_coinbase_script(block_height));
        }
        script
    }

    /// Builds the coinbase paying `reward` at `block_height` to the
    /// script `reward_address`. A zero reward still emits the output.
    pub fn coinbase(reward_address: &[u8], block_height: u64, reward: u64) -> (r: Self)
        ensures
            r@ == spec_coinbase_tx(reward_address@, block_height, reward),
    {
        let coinbase_input = TxInput {
            previous_output: OutPoint { txid: zero_hash32(), vout: 0xffffffff },
            script_sig: Self::create_coinbase_script(block_height),
            sequence: 0xffffffff,
        };
        let reward_output = TxOutput {
            value: reward,
            asset_id: zero_hash32(),
            script_pubkey: crate::bytesutil::bytes_to_vec(reward_address),
        };
        let mut inputs: Vec<TxInput> = Vec::new();
        inputs.push(coinbase_input);
        let mut outputs: Vec<TxOutput> = Vec::new();
        outputs.push(reward_output);
        let r = Self::new(inputs, outputs, 0);
        proof {
            assert(r@.inputs =~= spec_coinbase_tx(reward_address@, block_height, reward).inputs);
            assert(r@.outputs =~= spec_coinbase_tx(reward_address@, block_height, reward).outputs);
        }
        r
    }

    /// The fixed genesis transaction: a coinbase with no outputs.
    pub fn genesis() -> (r: Self)
        ensures
            r@ == spec_genesis_tx(),
    {
        let mut message: Vec<u8> = Vec::new();
        message.push(0x53);
        message.push(0x65);
        message.push(0x64);
        message.push(0x6c);
        message.push(0x79);
        message.push(0x20);
        message.push(0x2d);
        message.push(0x20);
        message.push(0x46);
        message.push(0x61);
        message.push(0x69);
        message.push(0x72);
        message.push(0x20);
        message.push(0x4c);
        message.push(0x61);
        message.push(0x75);
        message.push(0x6e);
        message.push(0x63);
        message.push(0x68);
        message.push(0x20);
        message.push(0x42);
        message.push(0x6c);
        message.push(0x6f);
        message.push(0x63);
        message.push(0x6b);
        message.push(0x63);
        message.push(0x68);
        message.push(0x61);
        message.push(0x69);
        message.push(0x6e);
        proof {
            assert(message@ =~= spec_genesis_banner());
        }
        let coinbase_input = TxInput {
            previous_output: OutPoint { txid: zero_hash32(), vout: 0xffffffff },
            script_sig: message,
            sequence: 0xffffffff,
        };
        let mut inputs: Vec<TxInput> = Vec::new();
        inputs.push(coinbase_input);
        let r = Self::new(inputs, Vec::new(), 0);
        proof {
            assert(r@.inputs =~= spec_genesis_tx().inputs);
            assert(r@.outputs =~= spec_genesis_tx().outputs);
        }
        r
    }

    /// Total input value. The UTXO set is not consulted here, so this is
    /// zero for every transaction, as for the coinbase.
    pub fn input_value(&self) -> (r: u64)
        ensures
            r == 0,
    {
        if self.is_coinbase() {
            0
        } else {
            0
        }
    }

    /// Total output value.
    pub fn output_value(&self) -> (r: u64)
        requires
            spec_output_sum(self@.outputs) <= u64::MAX,
        ensures
            r == spec_output_sum(self@.outputs),
    {
        let mut sum: u64 = 0;
        let n = self.outputs.len();
        let mut i: usize = 0;
        while i < n
            invariant
                n == self.outputs@.len(),
                0 <= i <= n,
                self@.outputs.len() == n,
                self@.outputs == self.outputs@.map_values(|o: TxOutput| o@),
                spec_output_sum(self@.outputs) <= u64::MAX,
                sum == spec_output_sum(self@.outputs.take(i as int)),
            decreases n - i,
        {
            proof {
                assert(self@.outputs.take(i + 1).drop_last() =~= self@.outputs.take(i as int));
                assert(self@.outputs.take(i + 1).last() == self@.outputs[i as int]);
                lemma_output_sum_prefix(self@.outputs, i + 1);
            }
            sum = sum + self.outputs[i].value;
            i = i + 1;
        }
        proof {
            assert(self@.outputs.take(n as int) =~= self@.outputs);
        }
        sum
    }

    /// The fee of a transaction. With input values not consulted, this
    /// is zero for every transaction.
    pub fn fee(&self) -> (r: u64)
        requires
            spec_output_sum(self@.outputs) <= u64::MAX,
        ensures
            r == 0,
    {
        if self.is_coinbase() {
            0
        } else {
            let input_val = self.input_value();
            let output_val = self.output_value();
            if input_val >= output_val {
                input_val - output_val
            } else {
                0
            }
        }
    }

    /// Structural validity: at least one input, at least one output
    /// unless coinbase, every output value positive.
    pub fn is_valid(&self) -> (r: bool)
        ensures
            r == self@.valid(),
    {
        if self.inputs.len() == 0 {
            return false;
        }
        if !self.is_coinbase() && self.outputs.len() == 0 {
            return false;
        }
        let n = self.outputs.len();
        let mut i: usize = 0;
        while i < n
            invariant
                n == self.outputs@.len(),
                self@.outputs.len() == n,
                self@.outputs == self.outputs@.map_values(|o: TxOutput| o@),
                0 <= i <= n,
                forall|j: int| 0 <= j < i ==> #[trigger] self@.outputs[j].value > 0,
            decreases n - i,
        {
            if self.outputs[i].value == 0 {
                proof {
                    assert(self@.outputs[i as int].value == 0);
                }
                return false;
            }
            i = i + 1;
        }
        true
    }

    /// The byte size of the canonical encoding.
    pub fn size(&self) -> (r: usize)
        ensures
            r == enc_tx(self@).len(),
    {
        let bytes = encode_transaction(self);
        bytes.len()
    }
}

/// The sum over a prefix grows by the value at its end.
proof fn lemma_output_sum_prefix(outs: Seq<TxOutputV>, i: int)
    requires
        0 < i <= outs.len(),
    ensures
        spec_output_sum(outs.take(i)) == spec_output_sum(outs.take(i - 1)) + outs[i - 1].value,
        spec_output_sum(outs.take(i)) <= spec_output_sum(outs),
    decreases outs.len() - i,
{
    assert(outs.take(i).drop_last() =~= outs.take(i - 1));
    assert(outs.take(i).last() == outs[i - 1]);
    if i < outs.len() {
        lemma_output_sum_prefix(outs, i + 1);
    } else {
        assert(outs.take(i) =~= outs);
    }
}

impl TxOutput {
    /// An output with the given value, asset and locking script.
    pub fn new(value: u64, asset_id: [u8; 32], script_pubkey: Vec<u8>) -> (r: Self)
        ensures
            r@ == (TxOutputV { value, asset_id: asset_id@, script_pubkey: script_pubkey@ }),
    {
        Self { value, asset_id, script_pubkey }
    }

    /// A native-asset output paying `value` to `address`.
    pub fn to_address(value: u64, address: &[u8]) -> (r: Self)
        ensures
            r@ == (TxOutputV { value, asset_id: zero32(), script_pubkey: address@ }),
    {
        let r = Self::new(value, zero_hash32(), crate::bytesutil::bytes_to_vec(address));
        r
    }

    /// Whether this output carries the native asset.
    pub fn is_native_asset(&self) -> (r: bool)
        ensures
            r == spec_all_zero(self@.asset_id),
    {
        crate::bytesutil::hash32_is_zero(&self.asset_id)
    }
}

impl OutPoint {
    /// An outpoint for output `vout` of transaction `txid`.
    pub fn new(txid: [u8; 32], vout: u32) -> (r: Self)
        ensures
            r@ == (OutPointV { txid: txid@, vout }),
    {
        Self { txid, vout }
    }

    /// Whether this is the null outpoint that marks coinbase inputs.
    pub fn is_null(&self) -> (r: bool)
        ensures
            r == self@.is_null(),
    {
        crate::bytesutil::hash32_is_zero(&self.txid) && self.vout == 0xffffffff
    }
}

impl TxInput {
    /// An input spending `previous_output` with the default sequence.
    pub fn new(previous_output: OutPoint, script_sig: Vec<u8>) -> (r: Self)
        ensures
            r@ == (TxInputV {
                previous_output: previous_output@,
                script_sig: script_sig@,
                sequence: 0xffffffffu32,
            }),
    {
        Self { previous_output, script_sig, sequence: 0xffffffff }
    }
}

} // verus!
