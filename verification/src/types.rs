//! The observer's model of a block notification.
//!
//! Every field the aggregation and classification logic reads is held
//! here as a plain value; wire-level decoding (JSON, base64, chain
//! date formats) happens outside the library and hands these in.

use vstd::prelude::*;
use crate::coin::Coin;
use crate::smap::{vput, SMap};

verus! {

/// A `new_block` notification from the observer stream.
#[derive(Clone, Debug)]
pub struct NewBlock {
    /// The chain the notification is for.
    pub chain_id: String,
    /// The notification's type tag.
    pub s_type: String,
    pub data: NewBlockData,
}

/// The payload of a block notification.
#[derive(Clone, Debug)]
pub struct NewBlockData {
    pub block: Block,
    pub result_begin_block: NewBlockBeginBlock,
    pub result_end_block: NewBlockEndBlock,
    pub txs: Option<Vec<TXandResult>>,
    pub supply: Vec<Coin>,
}

/// The slice of a chain block the observer reads: its header.
#[derive(Clone, Debug)]
pub struct Block {
    pub header: BlockHeader,
}

/// Height and time of a block.
#[derive(Clone, Debug)]
pub struct BlockHeader {
    pub height: u64,
    pub time: String,
}

/// A transaction together with its execution result.
#[derive(Clone, Debug)]
pub struct TXandResult {
    pub height: u64,
    pub txhash: String,
    pub raw_log: String,
    pub gas_wanted: u64,
    pub gas_used: u64,
    pub tx: TxOuter,
    pub timestamp: String,
}

/// The transaction envelope: its type tag and its body.
#[derive(Clone, Debug)]
pub struct TxOuter {
    pub s_type: String,
    pub body: BlockTransaction,
}

/// The decoded body of a transaction.
#[derive(Clone, Debug)]
pub struct BlockTransaction {
    pub messages: Vec<TxMessage>,
    pub memo: String,
}

/// One message inside a transaction body: its type discriminator (absent
/// when the message carries none) and, where the message decodes as an
/// aggregate exchange-rate vote, the vote's fields.
#[derive(Clone, Debug)]
pub struct TxMessage {
    pub s_type: Option<String>,
    pub vote: Option<AggregateVote>,
}

/// An aggregate exchange-rate vote as carried inside a transaction.
#[derive(Clone, Debug)]
pub struct AggregateVote {
    /// A comma-separated list of `<decimal><denom>` pairs.
    pub exchange_rates: String,
    pub feeder: String,
    pub salt: String,
    pub validator: String,
}

/// A contract-style message, kept for completeness of the model.
#[derive(Clone, Debug)]
pub struct BlockMsg {
    pub s_type: String,
    pub execute_msg: Option<String>,
}

/// The fee a transaction pays.
#[derive(Clone, Debug)]
pub struct Fee {
    pub amount: Vec<Coin>,
    pub gas: u64,
}

/// A transaction signature.
#[derive(Clone, Debug)]
pub struct TransactionSignature {
    pub pub_key: TransactionSignaturePubKey,
    pub signature: String,
}

/// The begin-block result: an ordered list of events.
#[derive(Clone, Debug)]
pub struct NewBlockBeginBlock {
    pub events: Vec<NewBlockEvent>,
}

/// One block-level event: a type tag plus ordered attributes.
#[derive(Clone, Debug)]
pub struct NewBlockEvent {
    pub s_type: String,
    pub attributes: Vec<NewBlockAttributes>,
}

/// One event attribute; the value may be absent.
#[derive(Clone, Debug)]
pub struct NewBlockAttributes {
    pub key: String,
    pub value: Option<String>,
    pub index: bool,
}

/// The end-block result: validator updates and optional events.
#[derive(Clone, Debug)]
pub struct NewBlockEndBlock {
    pub validator_updates: Vec<NewBlockValidatorUpdate>,
    pub events: Option<Vec<NewBlockEvent>>,
}

/// A public key, as a type tag plus data.
#[derive(Clone, Debug)]
pub struct PubKey {
    pub s_type: String,
    pub data: String,
}

/// The key a signature was made with.
#[derive(Clone, Debug)]
pub struct TransactionSignaturePubKey {
    pub value: String,
}

/// A validator-set update reported by end-block.
#[derive(Clone, Debug)]
pub struct NewBlockValidatorUpdate {
    pub pub_key: String,
    pub power: u64,
}

/// The view of an optional attribute value.
pub open spec fn opt_str_view(o: Option<String>) -> Option<Seq<char>> {
    match o {
        Some(s) => Some(s@),
        None => None,
    }
}

/// The key-to-value map an attribute list denotes: later occurrences of
/// a key overwrite earlier ones.
pub open spec fn attrs_entries(attrs: Seq<NewBlockAttributes>) -> Seq<
    (Seq<char>, Option<Seq<char>>),
>
    decreases attrs.len(),
{
    if attrs.len() == 0 {
        Seq::empty()
    } else {
        vput(
            attrs_entries(attrs.drop_last()),
            attrs.last().key@,
            opt_str_view(attrs.last().value),
        )
    }
}

impl NewBlockEvent {
    /// Collect the event's attributes into a key-to-value map; a key
    /// occurring twice keeps its last value.
    pub fn attribute_map(&self) -> (r: SMap<Option<String>>)
        ensures
            r@ == attrs_entries(self.attributes@),
            r.wf(),
    {
        let mut r: SMap<Option<String>> = SMap::new();
        let n = self.attributes.len();
        let mut i: usize = 0;
        while i < n
            invariant
                0 <= i <= n == self.attributes@.len(),
                r@ == attrs_entries(self.attributes@.take(i as int)),
                r.wf(),
            decreases n - i,
        {
            let attr = &self.attributes[i];
            let key = attr.key.clone();
            let value = match &attr.value {
                Some(s) => Some(s.clone()),
                None => None,
            };
            proof {
                assert(key == self.attributes@[i as int].key);
                assert(value == self.attributes@[i as int].value);
                assert(value.deep_view() == opt_str_view(self.attributes@[i as int].value));
                assert(self.attributes@.take(i + 1).drop_last() =~= self.attributes@.take(
                    i as int,
                ));
                assert(self.attributes@.take(i + 1).last() == self.attributes@[i as int]);
            }
            r.insert(key, value);
            i = i + 1;
        }
        proof {
            assert(self.attributes@.take(n as int) =~= self.attributes@);
        }
        r
    }
}

} // verus!
