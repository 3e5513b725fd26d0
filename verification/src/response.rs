//! Typed backend RPC responses and their decode rules.
//!
//! Each decoder reads a [`JsonValue`] and either produces the typed
//! response or fails with a [`DecodeError`]: `MalformedHex` for a binary
//! field that is not well-formed hex, `MissingField` for a required field
//! absent (or not usable as its type) in every accepted shape, and
//! `UnexpectedShape` when the document has none of the accepted shapes.
//! Methods with response-shape polymorphism probe the most specific shape
//! first and fall back to the bare form.

use vstd::prelude::*;
use vstd::string::StringSliceAdditionalSpecFns;
use crate::error::DecodeError;
use crate::hexstr::{hex_ok, hex_bytes, hex_decode};
use crate::json::{JsonValue, json_get, json_i64, json_str};
use crate::primitives::{BlockHash, TransactionHash, ChainHeight, SerializedBlock,
    SerializedTransaction, TransparentAddress, ZcashScript, SaplingTreestate, OrchardTreestate,
    CommitmentTreestate, BlockCommitmentTreeSize, NoteCommitmentSubtreeIndex, SubtreeRpcData,
    ConsensusBranchIdHex, NetworkUpgradeInfo, TipConsensusBranch};

verus! {

/// Response to the node-info query.
#[derive(Clone, Debug, PartialEq, Eq)]
pub struct GetInfoResponse {
    /// The node version build number.
    pub build: String,
    /// The server sub-version identifier.
    pub subversion: String,
}

/// The transparent balance of a set of addresses.
#[derive(Clone, Debug, PartialEq, Eq)]
pub struct GetBalanceResponse {
    /// The total transparent balance.
    pub balance: u64,
}

/// Response to the blockchain-info query.
#[derive(Clone, Debug, PartialEq, Eq)]
pub struct GetBlockchainInfoResponse {
    /// Current network name (main, test, regtest).
    pub chain: String,
    /// Number of blocks the backend has processed.
    pub blocks: ChainHeight,
    /// Hash of the current best block.
    pub best_block_hash: BlockHash,
    /// Estimated height of the chain while syncing, else the best height.
    pub estimated_height: ChainHeight,
    /// Network upgrades by consensus branch id, in document order; branch
    /// ids are unique.
    pub upgrades: Vec<(ConsensusBranchIdHex, NetworkUpgradeInfo)>,
    /// Branch ids of the current and next consensus rules.
    pub consensus: TipConsensusBranch,
}

/// The hash of a submitted transaction.
#[derive(Clone, Copy, Debug, PartialEq, Eq)]
pub struct SendTransactionResponse(pub TransactionHash);

/// The hash of a requested block.
#[derive(Clone, Copy, Debug, PartialEq, Eq)]
pub struct GetBlockHash(pub BlockHash);

impl Default for GetBlockHash {
    /// The all-zero block hash.
    fn default() -> (r: Self)
        ensures
            r.0.0@ == Seq::new(32, |i: int| 0u8),
    {
        let r = GetBlockHash(BlockHash([0; 32]));
        proof {
            assert(r.0.0@ =~= Seq::new(32, |i: int| 0u8));
        }
        r
    }
}

/// A block, either raw or as a structured object.
#[derive(Clone, Debug, PartialEq, Eq)]
pub enum GetBlockResponse {
    /// The raw block bytes.
    Raw(SerializedBlock),
    /// The structured block object.
    Object {
        /// The block's hash.
        hash: GetBlockHash,
        /// Confirmations in the best chain, or -1 off it.
        confirmations: i64,
        /// The block's height, when reported.
        height: Option<ChainHeight>,
        /// The block's Unix time, when reported.
        time: Option<i64>,
        /// Transaction ids in block order, hex-encoded.
        tx: Vec<String>,
        /// Note commitment tree sizes.
        trees: BlockCommitmentTreeSize,
    },
}

/// The hash of the current best block.
#[derive(Clone, Copy, Debug, PartialEq, Eq)]
pub struct BestBlockHashResponse(pub BlockHash);

/// Transaction ids, as a JSON array of strings.
#[derive(Clone, Debug, PartialEq, Eq)]
pub struct TxidsResponse {
    /// The transaction ids.
    pub transactions: Vec<String>,
}

/// Commitment-tree states at a block, with the block's hash and time.
#[derive(Clone, Debug, PartialEq, Eq)]
pub struct GetTreestateResponse {
    /// Height of the block.
    pub height: i32,
    /// Hash of the block, hex-encoded.
    pub hash: String,
    /// Unix time of the block.
    pub time: u32,
    /// The Sapling treestate.
    pub sapling: SaplingTreestate,
    /// The Orchard treestate.
    pub orchard: OrchardTreestate,
}

/// A transaction, either raw or as a structured object.
#[derive(Clone, Debug, PartialEq, Eq)]
pub enum GetTransactionResponse {
    /// The raw transaction bytes.
    Raw(SerializedTransaction),
    /// The structured transaction object.
    Object {
        /// The raw transaction bytes.
        hex: SerializedTransaction,
        /// Height of the containing block, or -1 in the mempool.
        height: i32,
        /// Confirmations of the containing block, or 0 in the mempool.
        confirmations: u32,
    },
}

/// A list of complete subtrees of one shielded pool.
#[derive(Clone, Debug, PartialEq, Eq)]
pub struct GetSubtreesResponse {
    /// The pool the subtrees belong to.
    pub pool: String,
    /// Index of the first subtree.
    pub start_index: NoteCommitmentSubtreeIndex,
    /// Complete subtrees in index order.
    pub subtrees: Vec<SubtreeRpcData>,
}

/// One unspent transparent output of an address.
#[derive(Clone, Debug, PartialEq, Eq)]
pub struct GetUtxosResponse {
    /// The transparent address.
    pub address: TransparentAddress,
    /// The output's transaction id.
    pub txid: TransactionHash,
    /// The output's index.
    pub output_index: u32,
    /// The output's script.
    pub script: ZcashScript,
    /// The output's value in zatoshis.
    pub satoshis: u64,
    /// Height of the containing block.
    pub height: ChainHeight,
}

/// The strings among `s`, in order; other elements are passed over.
pub open spec fn str_elems(s: Seq<JsonValue>) -> Seq<Seq<char>>
    decreases s.len(),
{
    if s.len() == 0 {
        Seq::<Seq<char>>::empty()
    } else {
        let rest = str_elems(s.drop_last());
        match s.last() {
            JsonValue::Str(t) => rest.push(t@),
            _ => rest,
        }
    }
}

/// Decodes the mempool-ids (and address-txids) response: a JSON array whose
/// string elements are the txids, in order; elements of any other type are
/// passed over, and a document that is not an array has the wrong shape.
#[verifier::loop_isolation(false)]
pub fn decode_txids(v: &JsonValue) -> (r: Result<TxidsResponse, DecodeError>)
    ensures
        r is Ok <==> v matches JsonValue::Arr(_),
        match r {
            Ok(t) => (v matches JsonValue::Arr(items) && t.transactions.deep_view() == str_elems(
                items@,
            )),
            Err(e) => e == DecodeError::UnexpectedShape,
        },
{
    match v {
        JsonValue::Arr(items) => {
            let mut transactions: Vec<String> = Vec::new();
            let n = items.len();
            let mut i: usize = 0;
            while i < n
                invariant
                    i <= n,
                    n == items@.len(),
                    transactions.deep_view() == str_elems(items@.subrange(0, i as int)),
                decreases n - i,
            {
                proof {
                    assert(items@.subrange(0, i + 1).drop_last() =~= items@.subrange(0, i as int));
                    assert(items@.subrange(0, i + 1).last() == items@[i as int]);
                }
                match &items[i] {
                    JsonValue::Str(t) => {
                        transactions.push(t.clone());
                        proof {
                            assert(transactions.deep_view() =~= str_elems(
                                items@.subrange(0, i + 1),
                            ));
                        }
                    },
                    _ => {
                        proof {
                            assert(transactions.deep_view() =~= str_elems(
                                items@.subrange(0, i + 1),
                            ));
                        }
                    },
                }
                i = i + 1;
            }
            proof {
                assert(items@.subrange(0, n as int) =~= items@);
            }
            Ok(TxidsResponse { transactions })
        },
        _ => Err(DecodeError::UnexpectedShape),
    }
}

/// The `finalState` string under `pool.commitments`, when the document has
/// that nested shape.
pub open spec fn final_state_of(v: JsonValue, pool: Seq<char>) -> Option<Seq<char>> {
    match json_get(v, pool) {
        Some(p) => match json_get(p, "commitments"@) {
            Some(c) => json_str(json_get(c, "finalState"@)),
            None => None,
        },
        None => None,
    }
}

/// Reads the `finalState` string under `v[pool].commitments`.
fn read_final_state<'a>(v: &'a JsonValue, pool: &str) -> (r: Option<&'a String>)
    ensures
        match r {
            Some(s) => final_state_of(*v, pool@) == Some(s@),
            None => final_state_of(*v, pool@) is None,
        },
{
    proof {
        reveal_strlit("commitments");
        reveal_strlit("finalState");
    }
    match v.get(pool) {
        Some(p) => match p.get("commitments") {
            Some(c) => match c.get("finalState") {
                Some(f) => f.as_str(),
                None => None,
            },
            None => None,
        },
        None => None,
    }
}

/// Decodes the treestate response: `height`, `hash`, `time` and the Sapling
/// and Orchard `commitments.finalState` strings, in that order; the first
/// field that is absent — or not usable as its type, heights and times
/// being non-negative and in range — is the reported missing field.
pub fn decode_treestate(v: &JsonValue) -> (r: Result<GetTreestateResponse, DecodeError>)
    ensures
        ({
            let h = json_i64(json_get(*v, "height"@));
            let hs = json_str(json_get(*v, "hash"@));
            let tm = json_i64(json_get(*v, "time"@));
            let sap = final_state_of(*v, "sapling"@);
            let orc = final_state_of(*v, "orchard"@);
            let h_ok = h matches Some(x) && 0 <= x <= i32::MAX;
            let t_ok = tm matches Some(x) && 0 <= x <= u32::MAX;
            match r {
                Ok(t) => {
                    &&& h_ok && hs is Some && t_ok && sap is Some && orc is Some
                    &&& t.height == h.unwrap()
                    &&& t.hash@ == hs.unwrap()
                    &&& t.time == tm.unwrap()
                    &&& t.sapling.commitments.final_state@ == sap.unwrap()
                    &&& t.orchard.commitments.final_state@ == orc.unwrap()
                },
                Err(e) => {
                    &&& !(h_ok && hs is Some && t_ok && sap is Some && orc is Some)
                    &&& e matches DecodeError::MissingField(name) && name@ == (if !h_ok {
                        "height"@
                    } else if hs is None {
                        "hash"@
                    } else if !t_ok {
                        "time"@
                    } else if sap is None {
                        "sapling finalState"@
                    } else {
                        "orchard finalState"@
                    })
                },
            }
        }),
{
    proof {
        reveal_strlit("height");
        reveal_strlit("hash");
        reveal_strlit("time");
        reveal_strlit("sapling");
        reveal_strlit("orchard");
    }
    let height: i32 = {
        let n = match v.get("height") {
            Some(x) => x.as_i64(),
            None => None,
        };
        match n {
            Some(x) if 0 <= x && x <= i32::MAX as i64 => x as i32,
            _ => {
                return Err(DecodeError::MissingField("height".to_owned()));
            },
        }
    };
    let hash: String = {
        let sopt = match v.get("hash") {
            Some(x) => x.as_str(),
            None => None,
        };
        match sopt {
            Some(s) => s.clone(),
            None => {
                return Err(DecodeError::MissingField("hash".to_owned()));
            },
        }
    };
    let time: u32 = {
        let n = match v.get("time") {
            Some(x) => x.as_i64(),
            None => None,
        };
        match n {
            Some(x) if 0 <= x && x <= u32::MAX as i64 => x as u32,
            _ => {
                return Err(DecodeError::MissingField("time".to_owned()));
            },
        }
    };
    let sapling_final_state: String = match read_final_state(v, "sapling") {
        Some(s) => s.clone(),
        None => {
            return Err(DecodeError::MissingField("sapling finalState".to_owned()));
        },
    };
    let orchard_final_state: String = match read_final_state(v, "orchard") {
        Some(s) => s.clone(),
        None => {
            return Err(DecodeError::MissingField("orchard finalState".to_owned()));
        },
    };
    Ok(
        GetTreestateResponse {
            height,
            hash,
            time,
            sapling: SaplingTreestate {
                commitments: CommitmentTreestate { final_state: sapling_final_state },
            },
            orchard: OrchardTreestate {
                commitments: CommitmentTreestate { final_state: orchard_final_state },
            },
        },
    )
}

/// Decodes the transaction response. Shapes, most specific first: an object
/// with `height` and `confirmations` (a mined transaction); an object with
/// `hex` and `txid` (a mempool transaction, reported at height -1 with 0
/// confirmations); a bare hex string of the raw transaction.
pub fn decode_transaction(v: &JsonValue) -> (r: Result<GetTransactionResponse, DecodeError>)
    ensures
        ({
            let mined = json_get(*v, "height"@) is Some && json_get(*v, "confirmations"@)
                is Some;
            let pool = json_get(*v, "hex"@) is Some && json_get(*v, "txid"@) is Some;
            let hx = json_str(json_get(*v, "hex"@));
            let h = json_i64(json_get(*v, "height"@));
            let c = json_i64(json_get(*v, "confirmations"@));
            let h_ok = h matches Some(x) && i32::MIN <= x <= i32::MAX;
            let c_ok = c matches Some(x) && 0 <= x <= u32::MAX;
            match r {
                Ok(t) => {
                    if mined {
                        &&& (hx matches Some(s) && hex_ok(vstd::utf8::encode_utf8(s)) && (t
                        matches GetTransactionResponse::Object { hex, height, confirmations }
                            && hex.0@ == hex_bytes(vstd::utf8::encode_utf8(s)) && height
                            == h.unwrap() && confirmations == c.unwrap()))
                        &&& h_ok && c_ok
                    } else if pool {
                        hx matches Some(s) && hex_ok(vstd::utf8::encode_utf8(s)) && (t matches
                        GetTransactionResponse::Object { hex, height, confirmations } && hex.0@
                            == hex_bytes(vstd::utf8::encode_utf8(s)) && height == -1
                            && confirmations == 0)
                    } else {
                        *v matches JsonValue::Str(s) && hex_ok(vstd::utf8::encode_utf8(s@)) && (t
                        matches GetTransactionResponse::Raw(raw) && raw.0@ == hex_bytes(
                            vstd::utf8::encode_utf8(s@),
                        ))
                    }
                },
                Err(e) => {
                    if mined {
                        if !(hx matches Some(s) && hex_ok(vstd::utf8::encode_utf8(s))) {
                            e == DecodeError::MalformedHex || (e matches DecodeError::MissingField(
                                n,
                            ) && n@ == "hex"@ && hx is None)
                        } else if !h_ok {
                            e matches DecodeError::MissingField(n) && n@ == "height"@
                        } else {
                            !c_ok && (e matches DecodeError::MissingField(n) && n@
                                == "confirmations"@)
                        }
                    } else if pool {
                        &&& !(hx matches Some(s) && hex_ok(vstd::utf8::encode_utf8(s)))
                        &&& if hx is None {
                            e matches DecodeError::MissingField(n) && n@ == "hex"@
                        } else {
                            e == DecodeError::MalformedHex
                        }
                    } else {
                        match *v {
                            JsonValue::Str(s) => e == DecodeError::MalformedHex && !hex_ok(
                                vstd::utf8::encode_utf8(s@),
                            ),
                            _ => e == DecodeError::UnexpectedShape,
                        }
                    }
                },
            }
        }),
{
    proof {
        reveal_strlit("height");
        reveal_strlit("confirmations");
        reveal_strlit("hex");
        reveal_strlit("txid");
    }
    let has_height = v.get("height").is_some();
    let has_conf = v.get("confirmations").is_some();
    if has_height && has_conf {
        let hex_str = match v.get("hex") {
            Some(x) => match x.as_str() {
                Some(s) => s,
                None => {
                    return Err(DecodeError::MalformedHex);
                },
            },
            None => {
                return Err(DecodeError::MissingField("hex".to_owned()));
            },
        };
        let hex = match hex_decode(hex_str.as_str()) {
            Ok(b) => SerializedTransaction(b),
            Err(e) => {
                return Err(e);
            },
        };
        let height: i32 = {
            let n = match v.get("height") {
                Some(x) => x.as_i64(),
                None => None,
            };
            match n {
                Some(x) if i32::MIN as i64 <= x && x <= i32::MAX as i64 => x as i32,
                _ => {
                    return Err(DecodeError::MissingField("height".to_owned()));
                },
            }
        };
        let confirmations: u32 = {
            let n = match v.get("confirmations") {
                Some(x) => x.as_i64(),
                None => None,
            };
            match n {
                Some(x) if 0 <= x && x <= u32::MAX as i64 => x as u32,
                _ => {
                    return Err(DecodeError::MissingField("confirmations".to_owned()));
                },
            }
        };
        return Ok(GetTransactionResponse::Object { hex, height, confirmations });
    }
    let has_hex = v.get("hex").is_some();
    let has_txid = v.get("txid").is_some();
    if has_hex && has_txid {
        let hex_str = match v.get("hex") {
            Some(x) => match x.as_str() {
                Some(s) => s,
                None => {
                    return Err(DecodeError::MissingField("hex".to_owned()));
                },
            },
            None => {
                return Err(DecodeError::MissingField("hex".to_owned()));
            },
        };
        let hex = match hex_decode(hex_str.as_str()) {
            Ok(b) => SerializedTransaction(b),
            Err(e) => {
                return Err(e);
            },
        };
        return Ok(GetTransactionResponse::Object { hex, height: -1, confirmations: 0 });
    }
    match v {
        JsonValue::Str(s) => match hex_decode(s.as_str()) {
            Ok(b) => Ok(GetTransactionResponse::Raw(SerializedTransaction(b))),
            Err(e) => Err(e),
        },
        _ => Err(DecodeError::UnexpectedShape),
    }
}


/// True when `s` is the hex form of a 32-byte value.
pub open spec fn hash256_ok(s: Seq<char>) -> bool {
    hex_ok(vstd::utf8::encode_utf8(s)) && vstd::utf8::encode_utf8(s).len() == 64
}

/// The 32 bytes a well-formed hash string denotes.
pub open spec fn hash256_of(s: Seq<char>) -> Seq<u8> {
    hex_bytes(vstd::utf8::encode_utf8(s))
}

/// Decodes a 32-byte hash from its hex string.
#[verifier::loop_isolation(false)]
fn decode_hash256(s: &String) -> (r: Result<[u8; 32], DecodeError>)
    ensures
        r is Ok <==> hash256_ok(s@),
        r matches Ok(a) ==> a@ == hash256_of(s@),
        r is Err ==> r == Err::<[u8; 32], DecodeError>(DecodeError::MalformedHex),
{
    let bytes = match hex_decode(s.as_str()) {
        Ok(b) => b,
        Err(e) => {
            return Err(e);
        },
    };
    if bytes.len() != 32 {
        return Err(DecodeError::MalformedHex);
    }
    let mut a = [0u8; 32];
    let mut i: usize = 0;
    while i < 32
        invariant
            i <= 32,
            bytes@.len() == 32,
            forall|k: int| 0 <= k < i ==> a@[k] == bytes@[k],
        decreases 32 - i,
    {
        a[i] = bytes[i];
        i = i + 1;
    }
    proof {
        assert(a@ =~= bytes@);
    }
    Ok(a)
}

/// Decodes the node-info response: the `build` and `subversion` strings.
pub fn decode_info(v: &JsonValue) -> (r: Result<GetInfoResponse, DecodeError>)
    ensures
        ({
            let b = json_str(json_get(*v, "build"@));
            let sv = json_str(json_get(*v, "subversion"@));
            match r {
                Ok(t) => b is Some && sv is Some && t.build@ == b.unwrap() && t.subversion@
                    == sv.unwrap(),
                Err(e) => {
                    &&& !(b is Some && sv is Some)
                    &&& e matches DecodeError::MissingField(n) && n@ == (if b is None {
                        "build"@
                    } else {
                        "subversion"@
                    })
                },
            }
        }),
{
    proof {
        reveal_strlit("build");
        reveal_strlit("subversion");
    }
    let build = match v.get("build") {
        Some(x) => match x.as_str() {
            Some(s) => s.clone(),
            None => {
                return Err(DecodeError::MissingField("build".to_owned()));
            },
        },
        None => {
            return Err(DecodeError::MissingField("build".to_owned()));
        },
    };
    let subversion = match v.get("subversion") {
        Some(x) => match x.as_str() {
            Some(s) => s.clone(),
            None => {
                return Err(DecodeError::MissingField("subversion".to_owned()));
            },
        },
        None => {
            return Err(DecodeError::MissingField("subversion".to_owned()));
        },
    };
    Ok(GetInfoResponse { build, subversion })
}

/// Decodes the address-balance response: the non-negative `balance`.
pub fn decode_balance(v: &JsonValue) -> (r: Result<GetBalanceResponse, DecodeError>)
    ensures
        ({
            let b = json_i64(json_get(*v, "balance"@));
            match r {
                Ok(t) => b matches Some(x) && x >= 0 && t.balance == x,
                Err(e) => {
                    &&& !(b matches Some(x) && x >= 0)
                    &&& e matches DecodeError::MissingField(n) && n@ == "balance"@
                },
            }
        }),
{
    proof {
        reveal_strlit("balance");
    }
    let n = match v.get("balance") {
        Some(x) => x.as_i64(),
        None => None,
    };
    match n {
        Some(x) if x >= 0 => Ok(GetBalanceResponse { balance: x as u64 }),
        _ => Err(DecodeError::MissingField("balance".to_owned())),
    }
}

/// Decodes the raw-transaction-submission response: a bare hash string.
pub fn decode_send_transaction(v: &JsonValue) -> (r: Result<SendTransactionResponse, DecodeError>)
    ensures
        match r {
            Ok(t) => (*v matches JsonValue::Str(s) && hash256_ok(s@) && t.0.0@ == hash256_of(s@)),
            Err(e) => match *v {
                JsonValue::Str(s) => !hash256_ok(s@) && e == DecodeError::MalformedHex,
                _ => e == DecodeError::UnexpectedShape,
            },
        },
{
    match v {
        JsonValue::Str(s) => match decode_hash256(s) {
            Ok(a) => Ok(SendTransactionResponse(TransactionHash(a))),
            Err(e) => Err(e),
        },
        _ => Err(DecodeError::UnexpectedShape),
    }
}

/// Decodes a block-hash response: a bare hash string.
pub fn decode_block_hash(v: &JsonValue) -> (r: Result<GetBlockHash, DecodeError>)
    ensures
        match r {
            Ok(t) => (*v matches JsonValue::Str(s) && hash256_ok(s@) && t.0.0@ == hash256_of(s@)),
            Err(e) => match *v {
                JsonValue::Str(s) => !hash256_ok(s@) && e == DecodeError::MalformedHex,
                _ => e == DecodeError::UnexpectedShape,
            },
        },
{
    match v {
        JsonValue::Str(s) => match decode_hash256(s) {
            Ok(a) => Ok(GetBlockHash(BlockHash(a))),
            Err(e) => Err(e),
        },
        _ => Err(DecodeError::UnexpectedShape),
    }
}

/// Decodes the best-block-hash response: a bare hash string.
pub fn decode_best_block_hash(v: &JsonValue) -> (r: Result<BestBlockHashResponse, DecodeError>)
    ensures
        match r {
            Ok(t) => (*v matches JsonValue::Str(s) && hash256_ok(s@) && t.0.0@ == hash256_of(s@)),
            Err(e) => match *v {
                JsonValue::Str(s) => !hash256_ok(s@) && e == DecodeError::MalformedHex,
                _ => e == DecodeError::UnexpectedShape,
            },
        },
{
    match v {
        JsonValue::Str(s) => match decode_hash256(s) {
            Ok(a) => Ok(BestBlockHashResponse(BlockHash(a))),
            Err(e) => Err(e),
        },
        _ => Err(DecodeError::UnexpectedShape),
    }
}


/// True when every element of `s` is a string.
pub open spec fn all_strings(s: Seq<JsonValue>) -> bool {
    forall|i: int| 0 <= i < s.len() ==> (#[trigger] s[i]) matches JsonValue::Str(_)
}

/// The `sapling` and `orchard` tree sizes under `trees`, when both are
/// present as in-range integers.
pub open spec fn tree_sizes_of(v: JsonValue) -> Option<(u32, u32)> {
    match json_get(v, "trees"@) {
        Some(t) => {
            let sap = json_i64(json_get(t, "sapling"@));
            let orc = json_i64(json_get(t, "orchard"@));
            if sap matches Some(a) && 0 <= a <= u32::MAX && (orc matches Some(b) && 0 <= b
                <= u32::MAX) {
                Some((sap.unwrap() as u32, orc.unwrap() as u32))
            } else {
                None
            }
        },
        None => None,
    }
}

/// Decodes the block query response. Shapes, most specific first: the
/// structured block object (`hash`, `confirmations`, the optional `height`
/// and `time`, the `tx` id list and the `trees` sizes), then the bare hex
/// string of the raw block.
#[verifier::loop_isolation(false)]
pub fn decode_block(v: &JsonValue) -> (r: Result<GetBlockResponse, DecodeError>)
    ensures
        ({
            let hs = json_str(json_get(*v, "hash"@));
            let conf = json_i64(json_get(*v, "confirmations"@));
            let hgt = json_get(*v, "height"@);
            let hgt_n = json_i64(hgt);
            let tm = json_get(*v, "time"@);
            let tm_n = json_i64(tm);
            let trees = tree_sizes_of(*v);
            match r {
                Ok(t) => match *v {
                    JsonValue::Obj(_) => {
                        &&& (t matches GetBlockResponse::Object {
                            hash,
                            confirmations,
                            height,
                            time,
                            tx,
                            trees: tr,
                        } && {
                            &&& hs matches Some(x) && hash256_ok(x) && hash.0.0@ == hash256_of(x)
                            &&& conf matches Some(c) && confirmations == c
                            &&& height == (if hgt is Some {
                                Some(ChainHeight(hgt_n.unwrap() as u32))
                            } else {
                                Option::<ChainHeight>::None
                            })
                            &&& time == (if tm is Some {
                                Some(tm_n.unwrap())
                            } else {
                                Option::<i64>::None
                            })
                            &&& (json_get(*v, "tx"@) matches Some(JsonValue::Arr(items))
                                && all_strings(items@) && tx.deep_view() == str_elems(items@))
                            &&& trees matches Some(sz) && tr.sapling == sz.0 && tr.orchard == sz.1
                        })
                        &&& (hgt is Some ==> (hgt_n matches Some(x) && 0 <= x <= u32::MAX))
                        &&& (tm is Some ==> tm_n is Some)
                    },
                    JsonValue::Str(s) => hex_ok(vstd::utf8::encode_utf8(s@)) && (t matches
                    GetBlockResponse::Raw(raw) && raw.0@ == hex_bytes(vstd::utf8::encode_utf8(s@))),
                    _ => false,
                },
                Err(e) => match *v {
                    JsonValue::Obj(_) => {
                        if !(hs matches Some(x) && hash256_ok(x)) {
                            e == DecodeError::MalformedHex || (e matches DecodeError::MissingField(
                                n,
                            ) && n@ == "hash"@ && hs is None)
                        } else if conf is None {
                            e matches DecodeError::MissingField(n) && n@ == "confirmations"@
                        } else if hgt is Some && !(hgt_n matches Some(x) && 0 <= x <= u32::MAX) {
                            e matches DecodeError::MissingField(n) && n@ == "height"@
                        } else if tm is Some && tm_n is None {
                            e matches DecodeError::MissingField(n) && n@ == "time"@
                        } else if !(json_get(*v, "tx"@) matches Some(JsonValue::Arr(items))
                            && all_strings(items@)) {
                            e matches DecodeError::MissingField(n) && n@ == "tx"@
                        } else {
                            trees is None && (e matches DecodeError::MissingField(n) && n@
                                == "trees"@)
                        }
                    },
                    JsonValue::Str(s) => e == DecodeError::MalformedHex && !hex_ok(
                        vstd::utf8::encode_utf8(s@),
                    ),
                    _ => e == DecodeError::UnexpectedShape,
                },
            }
        }),
{
    proof {
        reveal_strlit("hash");
        reveal_strlit("confirmations");
        reveal_strlit("height");
        reveal_strlit("time");
        reveal_strlit("tx");
        reveal_strlit("trees");
        reveal_strlit("sapling");
        reveal_strlit("orchard");
    }
    match v {
        JsonValue::Str(s) => match hex_decode(s.as_str()) {
            Ok(b) => Ok(GetBlockResponse::Raw(SerializedBlock(b))),
            Err(e) => Err(e),
        },
        JsonValue::Obj(_) => {
            let hash = {
                let sopt = match v.get("hash") {
                    Some(x) => x.as_str(),
                    None => None,
                };
                match sopt {
                    Some(s) => match decode_hash256(s) {
                        Ok(a) => GetBlockHash(BlockHash(a)),
                        Err(e) => {
                            return Err(e);
                        },
                    },
                    None => {
                        return Err(DecodeError::MissingField("hash".to_owned()));
                    },
                }
            };
            let confirmations: i64 = {
                let n = match v.get("confirmations") {
                    Some(x) => x.as_i64(),
                    None => None,
                };
                match n {
                    Some(c) => c,
                    None => {
                        return Err(DecodeError::MissingField("confirmations".to_owned()));
                    },
                }
            };
            let height: Option<ChainHeight> = match v.get("height") {
                Some(x) => match x.as_i64() {
                    Some(h) if 0 <= h && h <= u32::MAX as i64 => Some(ChainHeight(h as u32)),
                    _ => {
                        return Err(DecodeError::MissingField("height".to_owned()));
                    },
                },
                None => None,
            };
            let time: Option<i64> = match v.get("time") {
                Some(x) => match x.as_i64() {
                    Some(t) => Some(t),
                    None => {
                        return Err(DecodeError::MissingField("time".to_owned()));
                    },
                },
                None => None,
            };
            let tx: Vec<String> = match v.get("tx") {
                Some(JsonValue::Arr(items)) => {
                    let mut tx: Vec<String> = Vec::new();
                    let n = items.len();
                    let mut i: usize = 0;
                    while i < n
                        invariant
                            i <= n,
                            n == items@.len(),
                            forall|k: int|
                                0 <= k < i ==> (#[trigger] items@[k]) matches JsonValue::Str(_),
                            tx.deep_view() == str_elems(items@.subrange(0, i as int)),
                        decreases n - i,
                    {
                        proof {
                            assert(items@.subrange(0, i + 1).drop_last() =~= items@.subrange(
                                0,
                                i as int,
                            ));
                            assert(items@.subrange(0, i + 1).last() == items@[i as int]);
                        }
                        match &items[i] {
                            JsonValue::Str(t) => {
                                tx.push(t.clone());
                                proof {
                                    assert(tx.deep_view() =~= str_elems(
                                        items@.subrange(0, i + 1),
                                    ));
                                }
                            },
                            _ => {
                                return Err(DecodeError::MissingField("tx".to_owned()));
                            },
                        }
                        i = i + 1;
                    }
                    proof {
                        assert(items@.subrange(0, n as int) =~= items@);
                    }
                    tx
                },
                _ => {
                    return Err(DecodeError::MissingField("tx".to_owned()));
                },
            };
            let trees: BlockCommitmentTreeSize = match v.get("trees") {
                Some(t) => {
                    let sap = match t.get("sapling") {
                        Some(x) => x.as_i64(),
                        None => None,
                    };
                    let orc = match t.get("orchard") {
                        Some(x) => x.as_i64(),
                        None => None,
                    };
                    match (sap, orc) {
                        (Some(a), Some(b)) if 0 <= a && a <= u32::MAX as i64 && 0 <= b && b
                            <= u32::MAX as i64 => BlockCommitmentTreeSize {
                            sapling: a as u32,
                            orchard: b as u32,
                        },
                        _ => {
                            return Err(DecodeError::MissingField("trees".to_owned()));
                        },
                    }
                },
                None => {
                    return Err(DecodeError::MissingField("trees".to_owned()));
                },
            };
            Ok(GetBlockResponse::Object { hash, confirmations, height, time, tx, trees })
        },
        _ => Err(DecodeError::UnexpectedShape),
    }
}


/// True when an `upgrades` entry has its three fields with usable values.
pub open spec fn upgrade_ok(v: JsonValue) -> bool {
    &&& json_str(json_get(v, "name"@)) is Some
    &&& (json_i64(json_get(v, "activationheight"@)) matches Some(h) && 0 <= h <= u32::MAX)
    &&& json_str(json_get(v, "status"@)) is Some
}

/// True when the document's `upgrades` object decodes whole: every entry
/// usable and every branch id unique.
pub open spec fn upgrades_ok(v: JsonValue) -> bool {
    &&& json_get(v, "upgrades"@) matches Some(JsonValue::Obj(uf)) && {
        &&& forall|i: int| 0 <= i < uf@.len() ==> upgrade_ok((#[trigger] uf@[i]).1)
        &&& forall|i: int, j: int| 0 <= i < j < uf@.len() ==> (#[trigger] uf@[i]).0@ != (
        #[trigger] uf@[j]).0@
    }
}

/// True when the document's `consensus` object has both branch ids.
pub open spec fn consensus_ok(v: JsonValue) -> bool {
    json_get(v, "consensus"@) matches Some(c) && json_str(json_get(c, "chaintip"@)) is Some
        && json_str(json_get(c, "nextblock"@)) is Some
}

/// Decodes the blockchain-info response: network name, block count, best
/// block hash, estimated height, the network-upgrade table (branch ids
/// unique) and the tip consensus branches. The first field absent or
/// unusable — counting a malformed upgrade table and duplicate branch ids
/// against `upgrades` — is the reported failure.
#[verifier::loop_isolation(false)]
#[verifier::rlimit(30)]
pub fn decode_blockchain_info(v: &JsonValue) -> (r: Result<GetBlockchainInfoResponse, DecodeError>)
    ensures
        ({
            let ch = json_str(json_get(*v, "chain"@));
            let bl = json_i64(json_get(*v, "blocks"@));
            let bh = json_str(json_get(*v, "bestblockhash"@));
            let eh = json_i64(json_get(*v, "estimatedheight"@));
            let bl_ok = bl matches Some(x) && 0 <= x <= u32::MAX;
            let bh_ok = bh matches Some(x) && hash256_ok(x);
            let eh_ok = eh matches Some(x) && 0 <= x <= u32::MAX;
            match r {
                Ok(t) => {
                    &&& ch is Some && t.chain@ == ch.unwrap()
                    &&& bl_ok && t.blocks.0 == bl.unwrap()
                    &&& bh_ok && t.best_block_hash.0@ == hash256_of(bh.unwrap())
                    &&& eh_ok && t.estimated_height.0 == eh.unwrap()
                    &&& upgrades_ok(*v)
                    &&& (json_get(*v, "upgrades"@) matches Some(JsonValue::Obj(uf)) && {
                        &&& t.upgrades@.len() == uf@.len()
                        &&& forall|i: int|
                            0 <= i < uf@.len() ==> {
                                let u = (#[trigger] t.upgrades@[i]);
                                &&& u.0.0@ == uf@[i].0@
                                &&& u.1.name@ == json_str(
                                    json_get(uf@[i].1, "name"@),
                                ).unwrap()
                                &&& u.1.activation_height.0 == json_i64(
                                    json_get(uf@[i].1, "activationheight"@),
                                ).unwrap()
                                &&& u.1.status@ == json_str(
                                    json_get(uf@[i].1, "status"@),
                                ).unwrap()
                            }
                    })
                    &&& consensus_ok(*v)
                    &&& (json_get(*v, "consensus"@) matches Some(c)
                        && t.consensus.chain_tip.0@ == json_str(
                        json_get(c, "chaintip"@),
                    ).unwrap() && t.consensus.next_block.0@ == json_str(
                        json_get(c, "nextblock"@),
                    ).unwrap())
                },
                Err(e) => {
                    &&& !(ch is Some && bl_ok && bh_ok && eh_ok && upgrades_ok(*v)
                        && consensus_ok(*v))
                    &&& if ch is None {
                        e matches DecodeError::MissingField(n) && n@ == "chain"@
                    } else if !bl_ok {
                        e matches DecodeError::MissingField(n) && n@ == "blocks"@
                    } else if !bh_ok {
                        e == DecodeError::MalformedHex || (e matches DecodeError::MissingField(n)
                            && n@ == "bestblockhash"@ && bh is None)
                    } else if !eh_ok {
                        e matches DecodeError::MissingField(n) && n@ == "estimatedheight"@
                    } else if !upgrades_ok(*v) {
                        e matches DecodeError::MissingField(n) && n@ == "upgrades"@
                    } else {
                        e matches DecodeError::MissingField(n) && n@ == "consensus"@
                    }
                },
            }
        }),
{
    proof {
        reveal_strlit("chain");
        reveal_strlit("blocks");
        reveal_strlit("bestblockhash");
        reveal_strlit("estimatedheight");
        reveal_strlit("upgrades");
        reveal_strlit("name");
        reveal_strlit("activationheight");
        reveal_strlit("status");
        reveal_strlit("consensus");
        reveal_strlit("chaintip");
        reveal_strlit("nextblock");
    }
    let chain: String = {
        let sopt = match v.get("chain") {
            Some(x) => x.as_str(),
            None => None,
        };
        match sopt {
            Some(s) => s.clone(),
            None => {
                return Err(DecodeError::MissingField("chain".to_owned()));
            },
        }
    };
    let blocks: ChainHeight = {
        let n = match v.get("blocks") {
            Some(x) => x.as_i64(),
            None => None,
        };
        match n {
            Some(x) if 0 <= x && x <= u32::MAX as i64 => ChainHeight(x as u32),
            _ => {
                return Err(DecodeError::MissingField("blocks".to_owned()));
            },
        }
    };
    let best_block_hash: BlockHash = {
        let sopt = match v.get("bestblockhash") {
            Some(x) => x.as_str(),
            None => None,
        };
        match sopt {
            Some(s) => match decode_hash256(s) {
                Ok(a) => BlockHash(a),
                Err(e) => {
                    return Err(e);
                },
            },
            None => {
                return Err(DecodeError::MissingField("bestblockhash".to_owned()));
            },
        }
    };
    let estimated_height: ChainHeight = {
        let n = match v.get("estimatedheight") {
            Some(x) => x.as_i64(),
            None => None,
        };
        match n {
            Some(x) if 0 <= x && x <= u32::MAX as i64 => ChainHeight(x as u32),
            _ => {
                return Err(DecodeError::MissingField("estimatedheight".to_owned()));
            },
        }
    };
    let upgrades: Vec<(ConsensusBranchIdHex, NetworkUpgradeInfo)> = match v.get("upgrades") {
        Some(JsonValue::Obj(uf)) => {
            let mut out: Vec<(ConsensusBranchIdHex, NetworkUpgradeInfo)> = Vec::new();
            let n = uf.len();
            let mut i: usize = 0;
            while i < n
                invariant
                    i <= n,
                    n == uf@.len(),
                    out@.len() == i,
                    forall|k: int| 0 <= k < i ==> upgrade_ok((#[trigger] uf@[k]).1),
                    forall|k: int, l: int|
                        0 <= k < l < i ==> (#[trigger] uf@[k]).0@ != (#[trigger] uf@[l]).0@,
                    forall|k: int|
                        0 <= k < i ==> {
                            let u = (#[trigger] out@[k]);
                            &&& u.0.0@ == uf@[k].0@
                            &&& u.1.name@ == json_str(json_get(uf@[k].1, "name"@)).unwrap()
                            &&& u.1.activation_height.0 == json_i64(
                                json_get(uf@[k].1, "activationheight"@),
                            ).unwrap()
                            &&& u.1.status@ == json_str(json_get(uf@[k].1, "status"@)).unwrap()
                        },
                decreases n - i,
            {
                let mut d: usize = 0;
                while d < i
                    invariant
                        d <= i <= n,
                        n == uf@.len(),
                        forall|k: int| 0 <= k < d ==> (#[trigger] uf@[k]).0@ != uf@[i as int].0@,
                    decreases i - d,
                {
                    if uf[d].0 == uf[i].0 {
                        return Err(DecodeError::MissingField("upgrades".to_owned()));
                    }
                    d = d + 1;
                }
                let entry = &uf[i].1;
                let name: String = {
                    let sopt = match entry.get("name") {
                        Some(x) => x.as_str(),
                        None => None,
                    };
                    match sopt {
                        Some(s) => s.clone(),
                        None => {
                            return Err(DecodeError::MissingField("upgrades".to_owned()));
                        },
                    }
                };
                let activation_height: ChainHeight = {
                    let x = match entry.get("activationheight") {
                        Some(x) => x.as_i64(),
                        None => None,
                    };
                    match x {
                        Some(h) if 0 <= h && h <= u32::MAX as i64 => ChainHeight(h as u32),
                        _ => {
                            return Err(DecodeError::MissingField("upgrades".to_owned()));
                        },
                    }
                };
                let status: String = {
                    let sopt = match entry.get("status") {
                        Some(x) => x.as_str(),
                        None => None,
                    };
                    match sopt {
                        Some(s) => s.clone(),
                        None => {
                            return Err(DecodeError::MissingField("upgrades".to_owned()));
                        },
                    }
                };
                out.push(
                    (
                        ConsensusBranchIdHex(uf[i].0.clone()),
                        NetworkUpgradeInfo { name, activation_height, status },
                    ),
                );
                i = i + 1;
            }
            out
        },
        _ => {
            return Err(DecodeError::MissingField("upgrades".to_owned()));
        },
    };
    let consensus: TipConsensusBranch = match v.get("consensus") {
        Some(c) => {
            let chain_tip: String = {
                let sopt = match c.get("chaintip") {
                    Some(x) => x.as_str(),
                    None => None,
                };
                match sopt {
                    Some(s) => s.clone(),
                    None => {
                        return Err(DecodeError::MissingField("consensus".to_owned()));
                    },
                }
            };
            let next_block: String = {
                let sopt = match c.get("nextblock") {
                    Some(x) => x.as_str(),
                    None => None,
                };
                match sopt {
                    Some(s) => s.clone(),
                    None => {
                        return Err(DecodeError::MissingField("consensus".to_owned()));
                    },
                }
            };
            TipConsensusBranch {
                chain_tip: ConsensusBranchIdHex(chain_tip),
                next_block: ConsensusBranchIdHex(next_block),
            }
        },
        None => {
            return Err(DecodeError::MissingField("consensus".to_owned()));
        },
    };
    Ok(
        GetBlockchainInfoResponse {
            chain,
            blocks,
            best_block_hash,
            estimated_height,
            upgrades,
            consensus,
        },
    )
}

} // verus!
