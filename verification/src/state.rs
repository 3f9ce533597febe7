//! The in-memory chain-state snapshot: height, tip, difficulty,
//! transaction count, validator set and app hash, with a bounded FIFO
//! rollback history and a canonical snapshot codec whose round trip is
//! proved.

use vstd::prelude::*;
use vstd::utf8::{decode_utf8, encode_utf8, valid_utf8};
use vstd::string::StringSliceAdditionalSpecFns;
use crate::bytesutil::spec_all_zero;
use crate::codec::{
    dec_bool, dec_bytes, dec_hash32, dec_i64, dec_u32, dec_u64, enc_bool, enc_bytes, enc_i64,
    enc_u32, enc_u64, lemma_dec_bytes_of_enc, lemma_dec_u32_of_enc, lemma_dec_u64_of_enc, r_bool,
    r_bytes, r_hash32, r_i64, r_u32, r_u64, w_bool, w_bytes, w_i64, w_raw, w_u32, w_u64,
};
use crate::hashing::{sha256_digest, spec_sha256};

verus! {

/// A validator's standing data.
#[derive(Debug, PartialEq, Eq)]
pub struct ValidatorInfo {
    /// Public key bytes.
    pub public_key: Vec<u8>,
    /// Voting power.
    pub power: i64,
    /// Whether the validator is active.
    pub active: bool,
}

/// The chain-state snapshot shared between the state machine and the
/// query path.
#[derive(Debug, PartialEq, Eq)]
pub struct ConsensusState {
    /// Current blockchain height.
    pub height: u64,
    /// Hash of the best block.
    pub best_block_hash: [u8; 32],
    /// Current compact difficulty.
    pub difficulty_bits: u32,
    /// Total number of transactions committed.
    pub total_transactions: u64,
    /// The validator set, each id paired with its data.
    pub validators: Vec<(String, ValidatorInfo)>,
    /// Digest binding the tip to the height.
    pub app_hash: [u8; 32],
}

/// Mathematical value of one validator entry.
pub ghost struct ValidatorV {
    pub id: Seq<char>,
    pub public_key: Seq<u8>,
    pub power: i64,
    pub active: bool,
}

/// Mathematical value of a `ConsensusState`.
pub ghost struct ConsensusStateV {
    pub height: u64,
    pub best_block_hash: Seq<u8>,
    pub difficulty_bits: u32,
    pub total_transactions: u64,
    pub validators: Seq<ValidatorV>,
    pub app_hash: Seq<u8>,
}

impl View for ValidatorInfo {
    type V = ValidatorV;

    open spec fn view(&self) -> ValidatorV {
        ValidatorV {
            id: Seq::empty(),
            public_key: self.public_key@,
            power: self.power,
            active: self.active,
        }
    }
}

/// The value of a named validator entry.
pub open spec fn validator_entry_view(p: (String, ValidatorInfo)) -> ValidatorV {
    ValidatorV {
        id: p.0@,
        public_key: p.1.public_key@,
        power: p.1.power,
        active: p.1.active,
    }
}

impl View for ConsensusState {
    type V = ConsensusStateV;

    open spec fn view(&self) -> ConsensusStateV {
        ConsensusStateV {
            height: self.height,
            best_block_hash: self.best_block_hash@,
            difficulty_bits: self.difficulty_bits,
            total_transactions: self.total_transactions,
            validators: self.validators@.map_values(
                |p: (String, ValidatorInfo)| validator_entry_view(p),
            ),
            app_hash: self.app_hash@,
        }
    }
}

impl Clone for ValidatorInfo {
    /// An equal copy.
    fn clone(&self) -> (r: Self)
        ensures
            r@ == self@,
            r.public_key@ == self.public_key@,
            r.power == self.power,
            r.active == self.active,
    {
        ValidatorInfo {
            public_key: crate::bytesutil::bytes_to_vec(self.public_key.as_slice()),
            power: self.power,
            active: self.active,
        }
    }
}

/// Copies one named validator entry.
fn clone_entry(p: &(String, ValidatorInfo)) -> (r: (String, ValidatorInfo))
    ensures
        validator_entry_view(r) == validator_entry_view(*p),
        r.0@ == p.0@,
{
    let id = clone_string(&p.0);
    (id, p.1.clone())
}

/// Relies on `String::clone`: an equal copy of the text.
fn clone_string(s: &String) -> (r: String)
    ensures
        r@ == s@,
{
    s.clone()
}

impl Clone for ConsensusState {
    /// An equal copy.
    fn clone(&self) -> (r: Self)
        ensures
            r@ == self@,
    {
        let mut validators: Vec<(String, ValidatorInfo)> = Vec::new();
        let n = self.validators.len();
        let mut i: usize = 0;
        while i < n
            invariant
                n == self.validators@.len(),
                0 <= i <= n,
                validators@.map_values(|p: (String, ValidatorInfo)| validator_entry_view(p))
                    =~= self.validators@.map_values(
                    |p: (String, ValidatorInfo)| validator_entry_view(p),
                ).take(i as int),
            decreases n - i,
        {
            let ghost prevv = validators@;
            let ghost target = self.validators@.map_values(
                |p: (String, ValidatorInfo)| validator_entry_view(p),
            );
            let e = clone_entry(&self.validators[i]);
            validators.push(e);
            proof {
                assert(validators@ =~= prevv.push(e));
                assert(validators@.map_values(
                    |p: (String, ValidatorInfo)| validator_entry_view(p),
                ) =~= prevv.map_values(|p: (String, ValidatorInfo)| validator_entry_view(p)).push(
                    validator_entry_view(e),
                ));
                assert(target[i as int] == validator_entry_view(self.validators@[i as int]));
                assert(target.take(i + 1) =~= target.take(i as int).push(target[i as int]));
                assert(validators@.map_values(
                    |p: (String, ValidatorInfo)| validator_entry_view(p),
                ) =~= target.take(i + 1));
            }
            i = i + 1;
        }
        let r = ConsensusState {
            height: self.height,
            best_block_hash: self.best_block_hash,
            difficulty_bits: self.difficulty_bits,
            total_transactions: self.total_transactions,
            validators,
            app_hash: self.app_hash,
        };
        proof {
            assert(self.validators@.map_values(
                |p: (String, ValidatorInfo)| validator_entry_view(p),
            ).take(n as int) =~= self.validators@.map_values(
                |p: (String, ValidatorInfo)| validator_entry_view(p),
            ));
            assert(r@.validators =~= self@.validators);
        }
        r
    }
}

/// The default snapshot: empty chain at the genesis difficulty.
impl Default for ConsensusState {
    fn default() -> (r: Self)
        ensures
            r@.height == 0,
            r@.best_block_hash == crate::transaction::zero32(),
            r@.difficulty_bits == 0x1d00ffffu32,
            r@.total_transactions == 0,
            r@.validators == Seq::<ValidatorV>::empty(),
            r@.app_hash == crate::transaction::zero32(),
    {
        let r = ConsensusState {
            height: 0,
            best_block_hash: crate::transaction::zero_hash32(),
            difficulty_bits: 0x1d00ffff,
            total_transactions: 0,
            validators: Vec::new(),
            app_hash: crate::transaction::zero_hash32(),
        };
        proof {
            assert(r@.validators =~= Seq::<ValidatorV>::empty());
        }
        r
    }
}

/// A snapshot is valid when a non-genesis tip is not the zero hash, the
/// difficulty is set, and every validator has a name and a key.
pub open spec fn spec_state_valid(s: ConsensusStateV) -> bool {
    &&& (s.height > 0 ==> !spec_all_zero(s.best_block_hash))
    &&& s.difficulty_bits != 0
    &&& forall|i: int|
        0 <= i < s.validators.len() ==> (#[trigger] s.validators[i]).id.len() > 0
            && s.validators[i].public_key.len() > 0
}

/// The digest binding a tip hash to a height: SHA-256 of the hash
/// followed by the big-endian height.
pub open spec fn spec_app_hash(block_hash: Seq<u8>, height: u64) -> Seq<u8> {
    spec_sha256(block_hash + crate::bytesutil::spec_u64_to_be_bytes(height))
}

/// Wire format of one validator entry.
pub open spec fn enc_validator(v: ValidatorV) -> Seq<u8> {
    enc_bytes(encode_utf8(v.id)) + enc_bytes(v.public_key) + enc_i64(v.power) + enc_bool(v.active)
}

/// Wire format of the validator list, in order.
pub open spec fn enc_validators(vs: Seq<ValidatorV>) -> Seq<u8>
    decreases vs.len(),
{
    if vs.len() == 0 {
        Seq::empty()
    } else {
        enc_validator(vs.first()) + enc_validators(vs.drop_first())
    }
}

/// Canonical wire format of a snapshot.
pub open spec fn enc_state(s: ConsensusStateV) -> Seq<u8> {
    enc_u64(s.height) + s.best_block_hash + enc_u32(s.difficulty_bits) + enc_u64(
        s.total_transactions,
    ) + enc_u64(s.validators.len() as u64) + enc_validators(s.validators) + s.app_hash
}

/// Appending one validator extends the encoding at the end.
pub proof fn lemma_enc_validators_push(s: Seq<ValidatorV>, x: ValidatorV)
    ensures
        enc_validators(s.push(x)) == enc_validators(s) + enc_validator(x),
    decreases s.len(),
{
    if s.len() == 0 {
        let t = s.push(x);
        assert(t.drop_first() =~= Seq::<ValidatorV>::empty());
        assert(t.first() == x);
        assert(enc_validators(t.drop_first()) =~= Seq::<u8>::empty());
        assert(enc_validators(t) =~= enc_validator(x) + enc_validators(t.drop_first()));
        assert(enc_validators(s) =~= Seq::<u8>::empty());
        assert(enc_validators(s.push(x)) =~= enc_validators(s) + enc_validator(x));
    } else {
        assert(s.push(x).drop_first() =~= s.drop_first().push(x));
        assert(s.push(x).first() == s.first());
        lemma_enc_validators_push(s.drop_first(), x);
        assert(enc_validators(s.push(x)) =~= enc_validators(s) + enc_validator(x));
    }
}

/// Reads one validator entry; the id bytes must be valid UTF-8.
pub open spec fn dec_validator(s: Seq<u8>, pos: int) -> Option<(ValidatorV, int)> {
    match dec_bytes(s, pos) {
        Some((idb, p1)) => if valid_utf8(idb) {
            match dec_bytes(s, p1) {
                Some((pk, p2)) => match dec_i64(s, p2) {
                    Some((power, p3)) => match dec_bool(s, p3) {
                        Some((active, p4)) => Some(
                            (ValidatorV { id: decode_utf8(idb), public_key: pk, power, active },
                            p4),
                        ),
                        None => None,
                    },
                    None => None,
                },
                None => None,
            }
        } else {
            None
        },
        None => None,
    }
}

/// Reads `n` validator entries.
pub open spec fn dec_validators(s: Seq<u8>, pos: int, n: int) -> Option<(Seq<ValidatorV>, int)>
    decreases n,
{
    if n <= 0 {
        Some((Seq::empty(), pos))
    } else {
        match dec_validator(s, pos) {
            Some((v, p1)) => match dec_validators(s, p1, n - 1) {
                Some((vs, p2)) => Some((seq![v] + vs, p2)),
                None => None,
            },
            None => None,
        }
    }
}

/// Reads a snapshot.
pub open spec fn dec_state(s: Seq<u8>, pos: int) -> Option<(ConsensusStateV, int)> {
    match dec_u64(s, pos) {
        Some((height, p1)) => match dec_hash32(s, p1) {
            Some((bh, p2)) => match dec_u32(s, p2) {
                Some((bits, p3)) => match dec_u64(s, p3) {
                    Some((tt, p4)) => match dec_u64(s, p4) {
                        Some((n, p5)) => match dec_validators(s, p5, n as int) {
                            Some((vs, p6)) => match dec_hash32(s, p6) {
                                Some((ah, p7)) => Some(
                                    (
                                        ConsensusStateV {
                                            height,
                                            best_block_hash: bh,
                                            difficulty_bits: bits,
                                            total_transactions: tt,
                                            validators: vs,
                                            app_hash: ah,
                                        },
                                        p7,
                                    ),
                                ),
                                None => None,
                            },
                            None => None,
                        },
                        None => None,
                    },
                    None => None,
                },
                None => None,
            },
            None => None,
        },
        None => None,
    }
}

/// The snapshot denoted by a whole byte string.
pub open spec fn state_from_bytes(s: Seq<u8>) -> Option<ConsensusStateV> {
    match dec_state(s, 0) {
        Some((v, p)) => if p == s.len() {
            Some(v)
        } else {
            None
        },
        None => None,
    }
}

/// Decodable snapshots: hashes of 32 bytes and encodable lengths.
pub open spec fn state_wf(s: ConsensusStateV) -> bool {
    &&& s.best_block_hash.len() == 32
    &&& s.app_hash.len() == 32
    &&& s.validators.len() <= u64::MAX
    &&& forall|i: int|
        0 <= i < s.validators.len() ==> encode_utf8((#[trigger] s.validators[i]).id).len()
            <= usize::MAX && s.validators[i].public_key.len() <= usize::MAX
}

/// A decodable validator entry.
pub open spec fn validator_wf(v: ValidatorV) -> bool {
    encode_utf8(v.id).len() <= usize::MAX && v.public_key.len() <= usize::MAX
}

/// Decoding at an embedded encoded validator yields it back.
pub proof fn lemma_dec_validator_of_enc(s: Seq<u8>, pos: int, v: ValidatorV)
    requires
        validator_wf(v),
        0 <= pos,
        pos + enc_validator(v).len() <= s.len(),
        s.subrange(pos, pos + enc_validator(v).len()) == enc_validator(v),
    ensures
        dec_validator(s, pos) == Some((v, pos + enc_validator(v).len())),
{
    crate::codec::lemma_u64_round_trip();
    let e = enc_validator(v);
    let idb = encode_utf8(v.id);
    let l1 = enc_bytes(idb).len() as int;
    let l2 = enc_bytes(v.public_key).len() as int;
    assert(e.len() == l1 + l2 + 9);
    assert(s.subrange(pos, pos + l1) =~= e.subrange(0, l1));
    assert(e.subrange(0, l1) =~= enc_bytes(idb));
    lemma_dec_bytes_of_enc(s, pos, idb);
    vstd::utf8::encode_utf8_valid_utf8(v.id);
    vstd::utf8::encode_utf8_decode_utf8(v.id);
    assert(s.subrange(pos + l1, pos + l1 + l2) =~= e.subrange(l1, l1 + l2));
    assert(e.subrange(l1, l1 + l2) =~= enc_bytes(v.public_key));
    lemma_dec_bytes_of_enc(s, pos + l1, v.public_key);
    assert(s.subrange(pos + l1 + l2, pos + l1 + l2 + 8) =~= e.subrange(l1 + l2, l1 + l2 + 8));
    assert(e.subrange(l1 + l2, l1 + l2 + 8) =~= enc_i64(v.power));
    lemma_dec_u64_of_enc(s, pos + l1 + l2, v.power as u64);
    crate::codec::lemma_i64_round_trip(v.power);
    assert(s[pos + l1 + l2 + 8] == e[l1 + l2 + 8]);
    assert(e[l1 + l2 + 8] == (if v.active {
        1u8
    } else {
        0u8
    }));
    assert(v == (ValidatorV { id: v.id, public_key: v.public_key, power: v.power, active: v.active }));
}

/// Decoding at an embedded encoded validator list yields it back.
pub proof fn lemma_dec_validators_of_enc(s: Seq<u8>, pos: int, vs: Seq<ValidatorV>)
    requires
        forall|i: int| 0 <= i < vs.len() ==> validator_wf(#[trigger] vs[i]),
        0 <= pos,
        pos + enc_validators(vs).len() <= s.len(),
        s.subrange(pos, pos + enc_validators(vs).len()) == enc_validators(vs),
    ensures
        dec_validators(s, pos, vs.len() as int) == Some((vs, pos + enc_validators(vs).len())),
    decreases vs.len(),
{
    if vs.len() == 0 {
        assert(dec_validators(s, pos, 0) == Some((Seq::<ValidatorV>::empty(), pos)));
        assert(vs =~= Seq::<ValidatorV>::empty());
    } else {
        let e = enc_validators(vs);
        let h = vs.first();
        let rest = vs.drop_first();
        let l1 = enc_validator(h).len() as int;
        assert(e =~= enc_validator(h) + enc_validators(rest));
        assert(s.subrange(pos, pos + l1) =~= e.subrange(0, l1));
        assert(e.subrange(0, l1) =~= enc_validator(h));
        lemma_dec_validator_of_enc(s, pos, h);
        assert(s.subrange(pos + l1, pos + e.len()) =~= e.subrange(l1, e.len() as int));
        assert(e.subrange(l1, e.len() as int) =~= enc_validators(rest));
        lemma_dec_validators_of_enc(s, pos + l1, rest);
        assert(seq![h] + rest =~= vs);
    }
}

/// Decoding at an embedded encoded snapshot yields it back.
pub proof fn lemma_dec_state_of_enc(s: Seq<u8>, pos: int, v: ConsensusStateV)
    requires
        state_wf(v),
        0 <= pos,
        pos + enc_state(v).len() <= s.len(),
        s.subrange(pos, pos + enc_state(v).len()) == enc_state(v),
    ensures
        dec_state(s, pos) == Some((v, pos + enc_state(v).len())),
{
    crate::codec::lemma_u64_round_trip();
    let e = enc_state(v);
    let lv = enc_validators(v.validators).len() as int;
    assert(e.len() == 60 + lv + 32);
    assert(s.subrange(pos, pos + 8) =~= e.subrange(0, 8));
    assert(e.subrange(0, 8) =~= enc_u64(v.height));
    lemma_dec_u64_of_enc(s, pos, v.height);
    assert(s.subrange(pos + 8, pos + 40) =~= e.subrange(8, 40));
    assert(e.subrange(8, 40) =~= v.best_block_hash);
    assert(s.subrange(pos + 40, pos + 44) =~= e.subrange(40, 44));
    assert(e.subrange(40, 44) =~= enc_u32(v.difficulty_bits));
    lemma_dec_u32_of_enc(s, pos + 40, v.difficulty_bits);
    assert(s.subrange(pos + 44, pos + 52) =~= e.subrange(44, 52));
    assert(e.subrange(44, 52) =~= enc_u64(v.total_transactions));
    lemma_dec_u64_of_enc(s, pos + 44, v.total_transactions);
    assert(s.subrange(pos + 52, pos + 60) =~= e.subrange(52, 60));
    assert(e.subrange(52, 60) =~= enc_u64(v.validators.len() as u64));
    lemma_dec_u64_of_enc(s, pos + 52, v.validators.len() as u64);
    assert(s.subrange(pos + 60, pos + 60 + lv) =~= e.subrange(60, 60 + lv));
    assert(e.subrange(60, 60 + lv) =~= enc_validators(v.validators));
    lemma_dec_validators_of_enc(s, pos + 60, v.validators);
    assert(s.subrange(pos + 60 + lv, pos + 92 + lv) =~= e.subrange(60 + lv, 92 + lv));
    assert(e.subrange(60 + lv, 92 + lv) =~= v.app_hash);
    assert(v == (ConsensusStateV {
        height: v.height,
        best_block_hash: v.best_block_hash,
        difficulty_bits: v.difficulty_bits,
        total_transactions: v.total_transactions,
        validators: v.validators,
        app_hash: v.app_hash,
    }));
}

/// Reading back an exported snapshot restores it exactly: the snapshot
/// codec round-trips on every well-formed snapshot.
pub proof fn lemma_state_round_trip(s: ConsensusStateV)
    requires
        state_wf(s),
    ensures
        state_from_bytes(enc_state(s)) == Some(s),
{
    let e = enc_state(s);
    assert(e.subrange(0, e.len() as int) =~= e);
    lemma_dec_state_of_enc(e, 0, s);
}

/// Relies on `String::from_utf8`: it succeeds exactly on valid UTF-8
/// and returns its decoding.
#[verifier::external_body]
fn utf8_to_string(bytes: Vec<u8>) -> (r: Option<String>)
    ensures
        r is Some <==> valid_utf8(bytes@),
        r matches Some(s) ==> s@ == decode_utf8(bytes@),
{
    match String::from_utf8(bytes) {
        Ok(s) => Some(s),
        Err(_) => None,
    }
}

/// The value of a validator entry given by parts.
pub open spec fn validator_view_of(id: &String, info: &ValidatorInfo) -> ValidatorV {
    ValidatorV {
        id: id@,
        public_key: info.public_key@,
        power: info.power,
        active: info.active,
    }
}

/// Appends the wire form of one validator entry.
fn w_validator(out: &mut Vec<u8>, id: &String, info: &ValidatorInfo)
    ensures
        final(out)@ == old(out)@ + enc_validator(validator_view_of(id, info)),
{
    let idb = id.as_str().as_bytes();
    w_bytes(out, idb);
    w_bytes(out, info.public_key.as_slice());
    w_i64(out, info.power);
    w_bool(out, info.active);
    proof {
        assert(out@ =~= old(out)@ + enc_validator(validator_view_of(id, info)));
    }
}

/// The canonical wire form of a snapshot.
pub fn encode_state(s: &ConsensusState) -> (r: Vec<u8>)
    ensures
        r@ == enc_state(s@),
{
    let mut out: Vec<u8> = Vec::new();
    w_u64(&mut out, s.height);
    w_raw(&mut out, s.best_block_hash.as_slice());
    w_u32(&mut out, s.difficulty_bits);
    w_u64(&mut out, s.total_transactions);
    w_u64(&mut out, s.validators.len() as u64);
    let ghost vsv = s@.validators;
    let ghost mid = out@;
    let n = s.validators.len();
    let mut i: usize = 0;
    while i < n
        invariant
            n == s.validators@.len(),
            0 <= i <= n,
            vsv == s@.validators,
            vsv.len() == n,
            vsv == s.validators@.map_values(|p: (String, ValidatorInfo)| validator_entry_view(p)),
            mid == out@.subrange(0, mid.len() as int) && mid.len() <= out@.len(),
            out@ =~= mid + enc_validators(vsv.take(i as int)),
        decreases n - i,
    {
        let entry = &s.validators[i];
        w_validator(&mut out, &entry.0, &entry.1);
        proof {
            assert(validator_view_of(&entry.0, &entry.1) == vsv[i as int]);
            assert(vsv.take(i + 1) =~= vsv.take(i as int).push(vsv[i as int]));
            lemma_enc_validators_push(vsv.take(i as int), vsv[i as int]);
            assert(out@ =~= mid + enc_validators(vsv.take(i + 1)));
        }
        i = i + 1;
    }
    proof {
        assert(vsv.take(n as int) =~= vsv);
    }
    w_raw(&mut out, s.app_hash.as_slice());
    proof {
        assert(out@ =~= enc_state(s@));
    }
    out
}

/// Reads one validator entry.
fn read_validator(s: &[u8], pos: usize) -> (r: Option<((String, ValidatorInfo), usize)>)
    ensures
        match r {
            Some((v, p)) => dec_validator(s@, pos as int) == Some(
                (validator_entry_view(v), p as int),
            ) && pos <= p <= s@.len(),
            None => dec_validator(s@, pos as int) is None,
        },
{
    let (idb, p1) = match r_bytes(s, pos) {
        Some(x) => x,
        None => {
            return None;
        },
    };
    let id = match utf8_to_string(idb) {
        Some(x) => x,
        None => {
            return None;
        },
    };
    let (pk, p2) = match r_bytes(s, p1) {
        Some(x) => x,
        None => {
            return None;
        },
    };
    let (power, p3) = match r_i64(s, p2) {
        Some(x) => x,
        None => {
            return None;
        },
    };
    let (active, p4) = match r_bool(s, p3) {
        Some(x) => x,
        None => {
            return None;
        },
    };
    Some(((id, ValidatorInfo { public_key: pk, power, active }), p4))
}

/// Reads a snapshot from a whole byte string; the string must hold
/// exactly one snapshot.
pub fn decode_state(s: &[u8]) -> (r: Option<ConsensusState>)
    ensures
        match r {
            Some(v) => state_from_bytes(s@) == Some(v@),
            None => state_from_bytes(s@) is None,
        },
{
    let (height, p1) = match r_u64(s, 0) {
        Some(x) => x,
        None => {
            return None;
        },
    };
    let (bh, p2) = match r_hash32(s, p1) {
        Some(x) => x,
        None => {
            return None;
        },
    };
    let (bits, p3) = match r_u32(s, p2) {
        Some(x) => x,
        None => {
            return None;
        },
    };
    let (tt, p4) = match r_u64(s, p3) {
        Some(x) => x,
        None => {
            return None;
        },
    };
    let (n, p5) = match r_u64(s, p4) {
        Some(x) => x,
        None => {
            return None;
        },
    };
    let mut validators: Vec<(String, ValidatorInfo)> = Vec::new();
    let mut p = p5;
    let mut i: u64 = 0;
    while i < n
        invariant
            i <= n,
            p <= s@.len(),
            dec_u64(s@, 0) == Some((height, p1 as int)),
            dec_hash32(s@, p1 as int) == Some((bh@, p2 as int)),
            dec_u32(s@, p2 as int) == Some((bits, p3 as int)),
            dec_u64(s@, p3 as int) == Some((tt, p4 as int)),
            dec_u64(s@, p4 as int) == Some((n, p5 as int)),
            dec_validators(s@, p5 as int, n as int) == (match dec_validators(
                s@,
                p as int,
                n - i,
            ) {
                Some((vs, q)) => Some(
                    (
                        validators@.map_values(
                            |x: (String, ValidatorInfo)| validator_entry_view(x),
                        ) + vs,
                        q,
                    ),
                ),
                None => None::<(Seq<ValidatorV>, int)>,
            }),
        decreases n - i,
    {
        match read_validator(s, p) {
            Some((v, pn)) => {
                proof {
                    let ghost accv = validators@.map_values(
                        |x: (String, ValidatorInfo)| validator_entry_view(x),
                    );
                    assert(validators@.push(v).map_values(
                        |x: (String, ValidatorInfo)| validator_entry_view(x),
                    ) =~= accv.push(validator_entry_view(v)));
                    assert(forall|vs: Seq<ValidatorV>|
                        accv + (seq![validator_entry_view(v)] + vs) =~= accv.push(
                            validator_entry_view(v),
                        ) + vs);
                }
                validators.push(v);
                p = pn;
                i = i + 1;
            },
            None => {
                return None;
            },
        }
    }
    proof {
        assert(dec_validators(s@, p as int, 0) == Some((Seq::<ValidatorV>::empty(), p as int)));
        assert(validators@.map_values(|x: (String, ValidatorInfo)| validator_entry_view(x))
            + Seq::<ValidatorV>::empty() =~= validators@.map_values(
            |x: (String, ValidatorInfo)| validator_entry_view(x),
        ));
    }
    let (ah, p7) = match r_hash32(s, p) {
        Some(x) => x,
        None => {
            return None;
        },
    };
    if p7 != s.len() {
        return None;
    }
    let v = ConsensusState {
        height,
        best_block_hash: bh,
        difficulty_bits: bits,
        total_transactions: tt,
        validators,
        app_hash: ah,
    };
    proof {
        assert(v@.validators =~= validators@.map_values(
            |x: (String, ValidatorInfo)| validator_entry_view(x),
        ));
    }
    Some(v)
}

/// What can go wrong while managing the snapshot.
#[derive(Debug)]
pub enum StateError {
    /// The snapshot breaks an invariant; the text names it.
    InvalidState(String),
    /// A rollback with no history to return to.
    NoHistoryAvailable,
    /// A snapshot that cannot be read back.
    SerializationError(String),
    /// A validator entry breaks an invariant.
    ValidatorError(String),
    /// An update could not be applied.
    UpdateFailed(String),
}

/// A glance at the snapshot and its history.
#[derive(Debug, Clone, Copy, PartialEq, Eq)]
pub struct StateStatistics {
    /// Current blockchain height.
    pub current_height: u64,
    /// Total transactions committed.
    pub total_transactions: u64,
    /// Number of active validators.
    pub active_validators: u64,
    /// Number of validators altogether.
    pub total_validators: u64,
    /// Snapshots held for rollback.
    pub history_depth: u64,
    /// Current compact difficulty.
    pub current_difficulty: u32,
}

/// The views of a history of snapshots.
pub open spec fn history_view(h: Seq<ConsensusState>) -> Seq<ConsensusStateV> {
    h.map_values(|s: ConsensusState| s@)
}

/// A history after recording one more snapshot: the oldest entry is
/// evicted once the cap is passed.
pub open spec fn spec_push_history(
    h: Seq<ConsensusStateV>,
    s: ConsensusStateV,
    max: int,
) -> Seq<ConsensusStateV> {
    let h2 = h.push(s);
    if h2.len() > max {
        h2.drop_first()
    } else {
        h2
    }
}

/// The validator list with `v` replacing its first entry of the same
/// id, or appended when the id is new.
pub open spec fn spec_upsert(vs: Seq<ValidatorV>, v: ValidatorV) -> Seq<ValidatorV>
    decreases vs.len(),
{
    if vs.len() == 0 {
        seq![v]
    } else if vs.first().id == v.id {
        seq![v] + vs.drop_first()
    } else {
        seq![vs.first()] + spec_upsert(vs.drop_first(), v)
    }
}

/// Replacing a present id updates it in place.
proof fn lemma_upsert_found(vs: Seq<ValidatorV>, v: ValidatorV, i: int)
    requires
        0 <= i < vs.len(),
        vs[i].id == v.id,
        forall|j: int| 0 <= j < i ==> (#[trigger] vs[j]).id != v.id,
    ensures
        spec_upsert(vs, v) == vs.update(i, v),
    decreases vs.len(),
{
    if i == 0 {
        assert(spec_upsert(vs, v) =~= vs.update(0, v));
    } else {
        assert(vs.first().id != v.id);
        assert(forall|j: int| 0 <= j < i - 1 ==> (#[trigger] vs.drop_first()[j]).id != v.id);
        lemma_upsert_found(vs.drop_first(), v, i - 1);
        assert(seq![vs.first()] + vs.drop_first().update(i - 1, v) =~= vs.update(i, v));
    }
}

/// A new id is appended at the end.
proof fn lemma_upsert_missing(vs: Seq<ValidatorV>, v: ValidatorV)
    requires
        forall|j: int| 0 <= j < vs.len() ==> (#[trigger] vs[j]).id != v.id,
    ensures
        spec_upsert(vs, v) == vs.push(v),
    decreases vs.len(),
{
    if vs.len() == 0 {
        assert(spec_upsert(vs, v) =~= vs.push(v));
    } else {
        lemma_upsert_missing(vs.drop_first(), v);
        assert(seq![vs.first()] + vs.drop_first().push(v) =~= vs.push(v));
    }
}

/// The validator list without its first entry of the given id.
pub open spec fn spec_remove_id(vs: Seq<ValidatorV>, id: Seq<char>) -> Seq<ValidatorV>
    decreases vs.len(),
{
    if vs.len() == 0 {
        vs
    } else if vs.first().id == id {
        vs.drop_first()
    } else {
        seq![vs.first()] + spec_remove_id(vs.drop_first(), id)
    }
}

/// Removing a present id takes out its first occurrence.
proof fn lemma_remove_found(vs: Seq<ValidatorV>, id: Seq<char>, i: int)
    requires
        0 <= i < vs.len(),
        vs[i].id == id,
        forall|j: int| 0 <= j < i ==> (#[trigger] vs[j]).id != id,
    ensures
        spec_remove_id(vs, id) == vs.remove(i),
    decreases vs.len(),
{
    if i == 0 {
        assert(spec_remove_id(vs, id) =~= vs.remove(0));
    } else {
        assert(vs.first().id != id);
        assert(forall|j: int| 0 <= j < i - 1 ==> (#[trigger] vs.drop_first()[j]).id != id);
        lemma_remove_found(vs.drop_first(), id, i - 1);
        assert(seq![vs.first()] + vs.drop_first().remove(i - 1) =~= vs.remove(i));
    }
}

/// Removing an absent id changes nothing.
proof fn lemma_remove_missing(vs: Seq<ValidatorV>, id: Seq<char>)
    requires
        forall|j: int| 0 <= j < vs.len() ==> (#[trigger] vs[j]).id != id,
    ensures
        spec_remove_id(vs, id) == vs,
    decreases vs.len(),
{
    if vs.len() > 0 {
        lemma_remove_missing(vs.drop_first(), id);
        assert(seq![vs.first()] + vs.drop_first() =~= vs);
    }
}

/// The active validators, in order.
pub open spec fn spec_active_validators(vs: Seq<ValidatorV>) -> Seq<ValidatorV>
    decreases vs.len(),
{
    if vs.len() == 0 {
        Seq::empty()
    } else {
        spec_active_validators(vs.drop_last()) + (if vs.last().active {
            seq![vs.last()]
        } else {
            Seq::empty()
        })
    }
}

/// Keeper of the authoritative snapshot, with a bounded FIFO rollback
/// history.
#[derive(Debug)]
pub struct StateManager {
    /// The current snapshot.
    pub state: ConsensusState,
    /// Prior snapshots, oldest first.
    pub history: Vec<ConsensusState>,
    /// Cap on the history length.
    pub max_history: usize,
}

impl StateManager {
    /// The current snapshot.
    pub open spec fn state_view(&self) -> ConsensusStateV {
        self.state@
    }

    /// The rollback history, oldest first.
    pub open spec fn history_snapshot(&self) -> Seq<ConsensusStateV> {
        history_view(self.history@)
    }

    /// The history cap.
    pub open spec fn cap(&self) -> int {
        self.max_history as int
    }

    /// A manager over an initial snapshot, an empty history and the
    /// default cap.
    pub fn new(initial_state: ConsensusState) -> (r: Self)
        ensures
            r.state_view() == initial_state@,
            r.history_snapshot() == Seq::<ConsensusStateV>::empty(),
            r.cap() == crate::HISTORY_DEPTH as int,
    {
        let r = StateManager {
            state: initial_state,
            history: Vec::new(),
            max_history: crate::HISTORY_DEPTH,
        };
        proof {
            assert(r.history_snapshot() =~= Seq::<ConsensusStateV>::empty());
        }
        r
    }

    /// A copy of the current snapshot.
    pub fn get_state(&self) -> (r: ConsensusState)
        ensures
            r@ == self.state_view(),
    {
        self.state.clone()
    }

    /// Records the current snapshot in the history, evicting the oldest
    /// entry past the cap.
    fn push_history(&mut self)
        ensures
            final(self).history_snapshot() == spec_push_history(
                old(self).history_snapshot(),
                old(self).state_view(),
                old(self).cap(),
            ),
            final(self).state_view() == old(self).state_view(),
            final(self).state == old(self).state,
            final(self).cap() == old(self).cap(),
    {
        let copy = self.state.clone();
        let ghost prevh = self.history@;
        self.history.push(copy);
        proof {
            assert(history_view(self.history@) =~= history_view(prevh).push(old(self).state@));
        }
        if self.history.len() > self.max_history {
            let ghost pushed = self.history@;
            let _evicted = self.history.remove(0);
            proof {
                assert(history_view(self.history@) =~= history_view(pushed).drop_first());
            }
        }
    }

    /// Applies `updater` to the current snapshot after recording it in
    /// the history; on failure the recording stays and the snapshot is
    /// untouched.
    pub fn update_state<F: FnOnce(&ConsensusState) -> Result<
        ConsensusState,
        StateError,
    >>(&mut self, updater: F) -> (r: Result<(), StateError>)
        requires
            updater.requires((&old(self).state,)),
        ensures
            final(self).history_snapshot() == spec_push_history(
                old(self).history_snapshot(),
                old(self).state_view(),
                old(self).cap(),
            ),
            final(self).cap() == old(self).cap(),
            match r {
                Ok(()) => exists|s: ConsensusState|
                    (#[trigger] updater.ensures((&old(self).state,), Ok(s)))
                        && final(self).state_view() == s@,
                Err(e) => final(self).state_view() == old(self).state_view()
                    && updater.ensures((&old(self).state,), Err(e)),
            },
    {
        self.push_history();
        let res = updater(&self.state);
        match res {
            Ok(new_state) => {
                self.state = new_state;
                Ok(())
            },
            Err(e) => Err(e),
        }
    }

    /// Returns to the most recent recorded snapshot.
    pub fn rollback(&mut self) -> (r: Result<(), StateError>)
        ensures
            final(self).cap() == old(self).cap(),
            match r {
                Ok(()) => old(self).history_snapshot().len() > 0 && final(self).state_view()
                    == old(self).history_snapshot().last() && final(self).history_snapshot()
                    == old(self).history_snapshot().drop_last(),
                Err(e) => old(self).history_snapshot().len() == 0 && (e matches
                    StateError::NoHistoryAvailable) && final(self).state_view() == old(
                    self,
                ).state_view() && final(self).history_snapshot() == old(self).history_snapshot(),
            },
    {
        let ghost prevh = self.history@;
        match self.history.pop() {
            Some(previous_state) => {
                self.state = previous_state;
                proof {
                    assert(history_view(self.history@) =~= history_view(prevh).drop_last());
                }
                Ok(())
            },
            None => Err(StateError::NoHistoryAvailable),
        }
    }

    /// The most recent recorded snapshot at the given height, if any.
    pub fn get_state_at_height(&self, height: u64) -> (r: Option<ConsensusState>)
        ensures
            match r {
                Some(s) => exists|i: int|
                    0 <= i < self.history_snapshot().len() && (#[trigger] self.history_snapshot()[i]).height
                        == height && s@ == self.history_snapshot()[i],
                None => forall|i: int|
                    0 <= i < self.history_snapshot().len() ==> (
                    #[trigger] self.history_snapshot()[i]).height != height,
            },
    {
        let n = self.history.len();
        let mut i: usize = 0;
        while i < n
            invariant
                n == self.history@.len(),
                0 <= i <= n,
                forall|j: int|
                    0 <= j < i ==> (#[trigger] history_view(self.history@)[j]).height != height,
            decreases n - i,
        {
            if self.history[i].height == height {
                let found = self.history[i].clone();
                proof {
                    assert(self.history_snapshot()[i as int].height == height);
                    assert(found@ == self.history_snapshot()[i as int]);
                }
                return Some(found);
            }
            i = i + 1;
        }
        None
    }

    /// Seals one more block into the snapshot: the height grows by one,
    /// the tip and optionally the difficulty are replaced, the
    /// transaction count grows, and the app hash binds the new tip to
    /// the new height.
    pub fn advance_block(
        &mut self,
        new_block_hash: [u8; 32],
        transactions_count: u64,
        new_difficulty: Option<u32>,
    ) -> (r: Result<(), StateError>)
        requires
            old(self).state_view().height < u64::MAX,
            old(self).state_view().total_transactions + transactions_count <= u64::MAX,
        ensures
            r is Ok,
            final(self).history_snapshot() == spec_push_history(
                old(self).history_snapshot(),
                old(self).state_view(),
                old(self).cap(),
            ),
            final(self).cap() == old(self).cap(),
            final(self).state_view() == (ConsensusStateV {
                height: (old(self).state_view().height + 1) as u64,
                best_block_hash: new_block_hash@,
                difficulty_bits: (match new_difficulty {
                    Some(d) => d,
                    None => old(self).state_view().difficulty_bits,
                }),
                total_transactions: (old(self).state_view().total_transactions
                    + transactions_count) as u64,
                validators: old(self).state_view().validators,
                app_hash: spec_app_hash(new_block_hash@, (old(self).state_view().height + 1) as u64),
            }),
    {
        self.push_history();
        self.state.height = self.state.height + 1;
        self.state.best_block_hash = new_block_hash;
        self.state.total_transactions = self.state.total_transactions + transactions_count;
        match new_difficulty {
            Some(d) => {
                self.state.difficulty_bits = d;
            },
            None => {},
        }
        let mut preimage: Vec<u8> = Vec::new();
        w_raw(&mut preimage, new_block_hash.as_slice());
        let height_be = crate::bytesutil::u64_to_be_byte_vec(self.state.height);
        w_raw(&mut preimage, height_be.as_slice());
        let digest = sha256_digest(preimage.as_slice());
        self.state.app_hash = digest;
        Ok(())
    }

    /// Adds a validator or replaces the entry carrying the same id.
    #[verifier::loop_isolation(false)]
    pub fn update_validator(
        &mut self,
        validator_id: String,
        public_key: Vec<u8>,
        power: i64,
        active: bool,
    ) -> (r: Result<(), StateError>)
        ensures
            r is Ok,
            final(self).history_snapshot() == spec_push_history(
                old(self).history_snapshot(),
                old(self).state_view(),
                old(self).cap(),
            ),
            final(self).cap() == old(self).cap(),
            final(self).state_view() == (ConsensusStateV {
                validators: spec_upsert(
                    old(self).state_view().validators,
                    ValidatorV {
                        id: validator_id@,
                        public_key: public_key@,
                        power,
                        active,
                    },
                ),
                ..old(self).state_view()
            }),
    {
        self.push_history();
        let ghost pushed_history = self.history_snapshot();
        let ghost vsv = self.state@.validators;
        let ghost newv = ValidatorV {
            id: validator_id@,
            public_key: public_key@,
            power,
            active,
        };
        let info = ValidatorInfo { public_key, power, active };
        let n = self.state.validators.len();
        let mut i: usize = 0;
        while i < n
            invariant
                n == self.state.validators@.len(),
                0 <= i <= n,
                vsv == self.state@.validators,
                vsv.len() == n,
                newv == (ValidatorV {
                    id: validator_id@,
                    public_key: info.public_key@,
                    power: info.power,
                    active: info.active,
                }),
                self.state@ == old(self).state@,
                self.history_snapshot() == pushed_history,
                pushed_history == spec_push_history(
                    old(self).history_snapshot(),
                    old(self).state_view(),
                    old(self).cap(),
                ),
                self.max_history == old(self).max_history,
                forall|j: int| 0 <= j < i ==> (#[trigger] vsv[j]).id != validator_id@,
            decreases n - i,
        {
            if strings_equal(&self.state.validators[i].0, &validator_id) {
                proof {
                    assert(vsv[i as int] == validator_entry_view(self.state.validators@[i as int]));
                    assert(vsv[i as int].id == validator_id@);
                    lemma_upsert_found(vsv, newv, i as int);
                }
                let ghost prevvs = self.state.validators@;
                let entry = (clone_string(&validator_id), info.clone());
                proof {
                    assert(validator_entry_view(entry) == newv);
                }
                let slot = vstd::std_specs::vec::vec_index_mut(&mut self.state.validators, i);
                *slot = entry;
                proof {
                    assert(self.state.validators@ =~= prevvs.update(i as int, entry));
                    assert(self.state@.validators =~= vsv.update(i as int, newv));
                    assert(final(self).state_view() == (ConsensusStateV {
                        validators: spec_upsert(old(self).state_view().validators, newv),
                        ..old(self).state_view()
                    }));
                }
                return Ok(());
            }
            i = i + 1;
        }
        proof {
            lemma_upsert_missing(vsv, newv);
        }
        let ghost prevvs = self.state.validators@;
        self.state.validators.push((validator_id, info));
        proof {
            assert(self.state@.validators =~= vsv.push(newv));
            assert(final(self).state_view() == (ConsensusStateV {
                validators: spec_upsert(old(self).state_view().validators, newv),
                ..old(self).state_view()
            }));
        }
        Ok(())
    }

    /// Removes the first validator entry carrying the given id, if any.
    pub fn remove_validator(&mut self, validator_id: &str) -> (r: Result<(), StateError>)
        ensures
            r is Ok,
            final(self).history_snapshot() == spec_push_history(
                old(self).history_snapshot(),
                old(self).state_view(),
                old(self).cap(),
            ),
            final(self).cap() == old(self).cap(),
            final(self).state_view() == (ConsensusStateV {
                validators: spec_remove_id(old(self).state_view().validators, validator_id@),
                ..old(self).state_view()
            }),
    {
        self.push_history();
        let ghost pushed_history = self.history_snapshot();
        let ghost vsv = self.state@.validators;
        let n = self.state.validators.len();
        let mut i: usize = 0;
        while i < n
            invariant
                n == self.state.validators@.len(),
                0 <= i <= n,
                vsv == self.state@.validators,
                vsv.len() == n,
                self.state@ == old(self).state@,
                self.history_snapshot() == pushed_history,
                pushed_history == spec_push_history(
                    old(self).history_snapshot(),
                    old(self).state_view(),
                    old(self).cap(),
                ),
                self.max_history == old(self).max_history,
                forall|j: int| 0 <= j < i ==> (#[trigger] vsv[j]).id != validator_id@,
            decreases n - i,
        {
            if str_equal(self.state.validators[i].0.as_str(), validator_id) {
                proof {
                    assert(vsv[i as int] == validator_entry_view(self.state.validators@[i as int]));
                    assert(vsv[i as int].id == validator_id@);
                    lemma_remove_found(vsv, validator_id@, i as int);
                }
                let ghost prevvs = self.state.validators@;
                let _removed = self.state.validators.remove(i);
                proof {
                    assert(self.state@.validators =~= vsv.remove(i as int));
                    assert(final(self).state_view() == (ConsensusStateV {
                        validators: spec_remove_id(old(self).state_view().validators, validator_id@),
                        ..old(self).state_view()
                    }));
                }
                return Ok(());
            }
            i = i + 1;
        }
        proof {
            lemma_remove_missing(vsv, validator_id@);
        }
        Ok(())
    }
}

impl StateManager {
    /// The active validator entries, in the set's order.
    pub fn get_active_validators(&self) -> (r: Vec<(String, ValidatorInfo)>)
        ensures
            r@.map_values(|p: (String, ValidatorInfo)| validator_entry_view(p))
                == spec_active_validators(self.state_view().validators),
    {
        let ghost vsv = self.state@.validators;
        let mut result: Vec<(String, ValidatorInfo)> = Vec::new();
        let n = self.state.validators.len();
        let mut i: usize = 0;
        while i < n
            invariant
                n == self.state.validators@.len(),
                0 <= i <= n,
                vsv == self.state@.validators,
                vsv.len() == n,
                result@.map_values(|p: (String, ValidatorInfo)| validator_entry_view(p))
                    =~= spec_active_validators(vsv.take(i as int)),
            decreases n - i,
        {
            proof {
                assert(vsv.take(i + 1).drop_last() =~= vsv.take(i as int));
                assert(vsv.take(i + 1).last() == vsv[i as int]);
                assert(vsv[i as int] == validator_entry_view(self.state.validators@[i as int]));
            }
            if self.state.validators[i].1.active {
                let ghost prevr = result@;
                let e = clone_entry(&self.state.validators[i]);
                result.push(e);
                proof {
                    assert(result@.map_values(
                        |p: (String, ValidatorInfo)| validator_entry_view(p),
                    ) =~= prevr.map_values(|p: (String, ValidatorInfo)| validator_entry_view(p)).push(
                        validator_entry_view(e),
                    ));
                    assert(result@.map_values(
                        |p: (String, ValidatorInfo)| validator_entry_view(p),
                    ) =~= spec_active_validators(vsv.take(i + 1)));
                }
            } else {
                proof {
                    assert(spec_active_validators(vsv.take(i + 1)) =~= spec_active_validators(
                        vsv.take(i as int),
                    ));
                }
            }
            i = i + 1;
        }
        proof {
            assert(vsv.take(n as int) =~= vsv);
        }
        result
    }

    /// Checks the snapshot's invariants: a non-genesis tip is not the
    /// zero hash, the difficulty is set, and every validator has a name
    /// and a key.
    #[verifier::loop_isolation(false)]
    pub fn validate_state(&self) -> (r: Result<(), StateError>)
        ensures
            match r {
                Ok(()) => spec_state_valid(self.state_view()),
                Err(e) => !spec_state_valid(self.state_view()) && (e matches
                    StateError::InvalidState(_)),
            },
    {
        let ghost sv = self.state@;
        if self.state.height > 0 && crate::bytesutil::hash32_is_zero(&self.state.best_block_hash) {
            return Err(
                StateError::InvalidState(
                    String::from_str("Non-genesis block cannot have zero hash"),
                ),
            );
        }
        if self.state.difficulty_bits == 0 {
            return Err(
                StateError::InvalidState(String::from_str("Difficulty bits cannot be zero")),
            );
        }
        let n = self.state.validators.len();
        let mut i: usize = 0;
        while i < n
            invariant
                0 <= i <= n,
                forall|j: int|
                    0 <= j < i ==> (#[trigger] sv.validators[j]).id.len() > 0
                        && sv.validators[j].public_key.len() > 0,
            decreases n - i,
        {
            proof {
                assert(sv.validators[i as int] == validator_entry_view(
                    self.state.validators@[i as int],
                ));
            }
            if self.state.validators[i].0.as_str().is_empty() {
                return Err(
                    StateError::InvalidState(String::from_str("Validator ID cannot be empty")),
                );
            }
            if self.state.validators[i].1.public_key.len() == 0 {
                let mut msg = String::from_str("Validator ");
                msg.append(self.state.validators[i].0.as_str());
                msg.append(" has empty public key");
                return Err(StateError::InvalidState(msg));
            }
            i = i + 1;
        }
        Ok(())
    }

    /// Exports the snapshot in its canonical wire form.
    pub fn export_state(&self) -> (r: Result<Vec<u8>, StateError>)
        ensures
            match r {
                Ok(b) => b@ == enc_state(self.state_view()),
                Err(_) => false,
            },
    {
        Ok(encode_state(&self.state))
    }

    /// Imports a snapshot from its canonical wire form, validating it
    /// first; the current snapshot is replaced only on success and the
    /// history is left alone.
    pub fn import_state(&mut self, data: &[u8]) -> (r: Result<(), StateError>)
        ensures
            final(self).history_snapshot() == old(self).history_snapshot(),
            final(self).cap() == old(self).cap(),
            match r {
                Ok(()) => state_from_bytes(data@) matches Some(s) && final(self).state_view() == s
                    && spec_state_valid(s),
                Err(_) => final(self).state_view() == old(self).state_view() && (state_from_bytes(
                    data@,
                ) is None || !spec_state_valid(state_from_bytes(data@).unwrap())),
            },
    {
        let new_state = match decode_state(data) {
            Some(s) => s,
            None => {
                return Err(
                    StateError::SerializationError(
                        String::from_str("snapshot bytes do not parse"),
                    ),
                );
            },
        };
        let temp_manager = StateManager::new(new_state);
        match temp_manager.validate_state() {
            Ok(()) => {},
            Err(e) => {
                return Err(e);
            },
        }
        self.state = temp_manager.state;
        Ok(())
    }

    /// A glance at the snapshot and its history.
    pub fn get_statistics(&self) -> (r: StateStatistics)
        ensures
            r.current_height == self.state_view().height,
            r.total_transactions == self.state_view().total_transactions,
            r.active_validators == spec_active_validators(self.state_view().validators).len(),
            r.total_validators == self.state_view().validators.len(),
            r.history_depth == self.history_snapshot().len(),
            r.current_difficulty == self.state_view().difficulty_bits,
    {
        let ghost vsv = self.state@.validators;
        let mut active: u64 = 0;
        let n = self.state.validators.len();
        let mut i: usize = 0;
        while i < n
            invariant
                n == self.state.validators@.len(),
                0 <= i <= n,
                vsv == self.state@.validators,
                vsv.len() == n,
                active <= i,
                active == spec_active_validators(vsv.take(i as int)).len(),
            decreases n - i,
        {
            proof {
                assert(vsv.take(i + 1).drop_last() =~= vsv.take(i as int));
                assert(vsv.take(i + 1).last() == vsv[i as int]);
                assert(vsv[i as int] == validator_entry_view(self.state.validators@[i as int]));
            }
            if self.state.validators[i].1.active {
                active = active + 1;
            }
            i = i + 1;
        }
        proof {
            assert(vsv.take(n as int) =~= vsv);
        }
        StateStatistics {
            current_height: self.state.height,
            total_transactions: self.state.total_transactions,
            active_validators: active,
            total_validators: self.state.validators.len() as u64,
            history_depth: self.history.len() as u64,
            current_difficulty: self.state.difficulty_bits,
        }
    }
}

/// Relies on `String::eq` (specified by vstd): equal text.
fn strings_equal(a: &String, b: &String) -> (r: bool)
    ensures
        r == (a@ == b@),
{
    a.eq(b)
}

/// Whether two string slices hold the same text.
fn str_equal(a: &str, b: &str) -> (r: bool)
    ensures
        r == (a@ == b@),
{
    let ab = a.as_bytes();
    let bb = b.as_bytes();
    let r = crate::bytesutil::bytes_eq(ab, bb);
    proof {
        if a.spec_bytes() == b.spec_bytes() {
            vstd::utf8::encode_utf8_decode_utf8(a@);
            vstd::utf8::encode_utf8_decode_utf8(b@);
        }
    }
    r
}

} // verus!
