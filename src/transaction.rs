//! Transactions, their byte encoding, validity, and effect on balances.
use crate::balance::{BalanceDelta, BalanceTable};
use crate::codec::{le_bytes, le_value, push_all, push_le, read_le, BytesDeserialize, BytesSerialize};
use crate::err::GulfStreamError;
use crate::keys::{key_ok, sig_ok, ed25519ph_verifies, PublicKey, Signature};
use vstd::prelude::*;
use vstd::slice::slice_subrange;

verus! {

/// What a message is, with keys as their bytes.
pub enum MessageView {
    Mint { amount: u64 },
    Transfer { to: Seq<u8>, amount: u64 },
}

/// What a transaction is, with keys and signature as their bytes.
pub struct TxView {
    pub blockheight: u64,
    pub gas: u64,
    pub msg: MessageView,
    pub payer: Seq<u8>,
    pub signature: Seq<u8>,
}

/// What a transaction asks for.
#[derive(Debug)]
pub enum TransactionMessage {
    Mint { amount: u64 },
    Transfer { to: PublicKey, amount: u64 },
}

impl View for TransactionMessage {
    type V = MessageView;

    open spec fn view(&self) -> MessageView {
        match self {
            TransactionMessage::Mint { amount } => MessageView::Mint { amount: *amount },
            TransactionMessage::Transfer { to, amount } => MessageView::Transfer {
                to: to@,
                amount: *amount,
            },
        }
    }
}

impl Clone for TransactionMessage {
    fn clone(&self) -> (r: Self)
        ensures
            r@ == self@,
    {
        match self {
            TransactionMessage::Mint { amount } => TransactionMessage::Mint { amount: *amount },
            TransactionMessage::Transfer { to, amount } => TransactionMessage::Transfer {
                to: to.clone(),
                amount: *amount,
            },
        }
    }
}

impl PartialEq for TransactionMessage {
    fn eq(&self, o: &TransactionMessage) -> (r: bool) {
        match (self, o) {
            (TransactionMessage::Mint { amount: a }, TransactionMessage::Mint { amount: b }) => *a
                == *b,
            (
                TransactionMessage::Transfer { to: t1, amount: a },
                TransactionMessage::Transfer { to: t2, amount: b },
            ) => *a == *b && *t1 == *t2,
            _ => false,
        }
    }
}

impl vstd::std_specs::cmp::PartialEqSpecImpl for TransactionMessage {
    open spec fn obeys_eq_spec() -> bool {
        true
    }

    open spec fn eq_spec(&self, o: &TransactionMessage) -> bool {
        self@ == o@
    }
}

impl Eq for TransactionMessage {}

impl Default for TransactionMessage {
    fn default() -> (r: Self)
        ensures
            r@ == (MessageView::Mint { amount: 77 }),
    {
        TransactionMessage::Mint { amount: 77 }
    }
}

/// The encoding of a message: a tag byte, the recipient for a transfer, the amount.
pub open spec fn msg_encoding(m: MessageView) -> Seq<u8> {
    match m {
        MessageView::Mint { amount } => seq![0u8] + le_bytes(amount),
        MessageView::Transfer { to, amount } => seq![1u8] + to + le_bytes(amount),
    }
}

/// Reading a message from the front of `b`.
pub open spec fn msg_decoding(b: Seq<u8>) -> Option<(MessageView, nat)> {
    if b.len() >= 9 && b[0] == 0 {
        Some((MessageView::Mint { amount: le_value(b.subrange(1, 9)) }, 9))
    } else if b.len() >= 41 && b[0] == 1 && key_ok(b.subrange(1, 33)) {
        Some((MessageView::Transfer { to: b.subrange(1, 33), amount: le_value(b.subrange(33, 41)) }, 41))
    } else {
        None
    }
}

/// A message whose keys are usable.
pub open spec fn msg_ok(m: MessageView) -> bool {
    match m {
        MessageView::Mint { .. } => true,
        MessageView::Transfer { to, .. } => key_ok(to),
    }
}

/// A transaction whose keys and signature are usable.
pub open spec fn tx_ok(t: TxView) -> bool {
    msg_ok(t.msg) && key_ok(t.payer) && sig_ok(t.signature)
}

/// A transaction fit for the mempool: signed by its payer over its encoded
/// message, not a transfer to the payer, and covered by the payer's balance
/// (the gas, plus the amount of a transfer).
pub open spec fn tx_valid(t: TxView, payer_balance: u64) -> bool {
    &&& ed25519ph_verifies(t.payer, msg_encoding(t.msg), t.signature)
    &&& match t.msg {
        MessageView::Mint { .. } => true,
        MessageView::Transfer { to, .. } => to != t.payer,
    }
    &&& match t.msg {
        MessageView::Mint { .. } => payer_balance >= t.gas,
        MessageView::Transfer { amount, .. } => payer_balance >= amount + t.gas,
    }
}

/// The signed part of a transaction: height, gas and message.
pub open spec fn content_encoding(t: TxView) -> Seq<u8> {
    le_bytes(t.blockheight) + le_bytes(t.gas) + msg_encoding(t.msg)
}

/// The encoding of a transaction: its content, the payer, the signature.
pub open spec fn tx_encoding(t: TxView) -> Seq<u8> {
    content_encoding(t) + t.payer + t.signature
}

/// Reading a transaction from the front of `b`.
pub open spec fn tx_decoding(b: Seq<u8>) -> Option<(TxView, nat)> {
    if b.len() < 16 {
        None
    } else {
        match msg_decoding(b.subrange(16, b.len() as int)) {
            None => None,
            Some((m, n)) => {
                let p: int = 16 + n as int;
                if b.len() >= p + 96 && key_ok(b.subrange(p, p + 32)) && sig_ok(
                    b.subrange(p + 32, p + 96),
                ) {
                    Some(
                        (
                            TxView {
                                blockheight: le_value(b.subrange(0, 8)),
                                gas: le_value(b.subrange(8, 16)),
                                msg: m,
                                payer: b.subrange(p, p + 32),
                                signature: b.subrange(p + 32, p + 96),
                            },
                            (p + 96) as nat,
                        ),
                    )
                } else {
                    None
                }
            },
        }
    }
}

/// The accounts a transaction touches, in the order its effects are booked.
pub open spec fn involved(t: TxView) -> Seq<Seq<u8>> {
    match t.msg {
        MessageView::Mint { .. } => seq![t.payer],
        MessageView::Transfer { to, .. } => seq![t.payer, to],
    }
}

/// The effect of a transaction on account `pk`.
pub open spec fn delta_for(t: TxView, pk: Seq<u8>) -> BalanceDelta {
    match t.msg {
        MessageView::Mint { amount } => if t.payer == pk {
            BalanceDelta::Pos(amount)
        } else {
            BalanceDelta::Pos(0)
        },
        MessageView::Transfer { to, amount } => if to == pk {
            BalanceDelta::Pos(amount)
        } else if t.payer == pk {
            BalanceDelta::Neg(amount)
        } else {
            BalanceDelta::Pos(0)
        },
    }
}

/// Books delta `d` on account `k`: added to its entry, or a new entry;
/// `None` once a sum has left `u64`.
pub open spec fn entry_step(
    m: Option<Map<Seq<u8>, BalanceDelta>>,
    k: Seq<u8>,
    d: BalanceDelta,
) -> Option<Map<Seq<u8>, BalanceDelta>> {
    match m {
        None => None,
        Some(m) => if m.contains_key(k) {
            if m[k].can_add(d) {
                Some(m.insert(k, m[k].spec_add(d)))
            } else {
                None
            }
        } else {
            Some(m.insert(k, d))
        },
    }
}

/// Books every effect of `t`, in the order of `involved(t)`.
pub open spec fn tx_step(
    m: Option<Map<Seq<u8>, BalanceDelta>>,
    t: TxView,
) -> Option<Map<Seq<u8>, BalanceDelta>> {
    match t.msg {
        MessageView::Mint { .. } => entry_step(m, t.payer, delta_for(t, t.payer)),
        MessageView::Transfer { to, .. } => entry_step(
            entry_step(m, t.payer, delta_for(t, t.payer)),
            to,
            delta_for(t, to),
        ),
    }
}

/// The per-account table of a list of transactions, booked in order.
pub open spec fn txs_table(txs: Seq<TxView>) -> Option<Map<Seq<u8>, BalanceDelta>>
    decreases txs.len(),
{
    if txs.len() == 0 {
        Some(Map::empty())
    } else {
        tx_step(txs_table(txs.drop_last()), txs.last())
    }
}

/// The views of a list of transactions.
pub open spec fn views(txs: Seq<Transaction>) -> Seq<TxView> {
    txs.map_values(|t: Transaction| t@)
}

/// The concatenated encodings of a list of transactions.
pub open spec fn txs_encoding(txs: Seq<TxView>) -> Seq<u8>
    decreases txs.len(),
{
    if txs.len() == 0 {
        Seq::empty()
    } else {
        txs_encoding(txs.drop_last()) + tx_encoding(txs.last())
    }
}

/// The accounts touched by a list of transactions, in order, with repeats.
pub open spec fn txs_involved(txs: Seq<TxView>) -> Seq<Seq<u8>>
    decreases txs.len(),
{
    if txs.len() == 0 {
        Seq::empty()
    } else {
        txs_involved(txs.drop_last()) + involved(txs.last())
    }
}

/// A signed transfer of value, or a mint, to be included at `blockheight`.
#[derive(Debug)]
pub struct Transaction {
    pub blockheight: u64,
    pub gas: u64,
    pub msg: TransactionMessage,
    pub payer: PublicKey,
    pub signature: Signature,
}

impl View for Transaction {
    type V = TxView;

    open spec fn view(&self) -> TxView {
        TxView {
            blockheight: self.blockheight,
            gas: self.gas,
            msg: self.msg@,
            payer: self.payer@,
            signature: self.signature@,
        }
    }
}

impl Clone for Transaction {
    fn clone(&self) -> (r: Self)
        ensures
            r@ == self@,
    {
        Transaction {
            blockheight: self.blockheight,
            gas: self.gas,
            msg: self.msg.clone(),
            payer: self.payer.clone(),
            signature: self.signature.clone(),
        }
    }
}

impl PartialEq for Transaction {
    fn eq(&self, o: &Transaction) -> (r: bool) {
        self.blockheight == o.blockheight && self.gas == o.gas && self.msg == o.msg && self.payer
            == o.payer && self.signature == o.signature
    }
}

impl vstd::std_specs::cmp::PartialEqSpecImpl for Transaction {
    open spec fn obeys_eq_spec() -> bool {
        true
    }

    open spec fn eq_spec(&self, o: &Transaction) -> bool {
        self@ == o@
    }
}

impl Eq for Transaction {}

impl BytesSerialize for TransactionMessage {
    open spec fn encoding(v: MessageView) -> Seq<u8> {
        msg_encoding(v)
    }

    fn serialize(&self) -> (r: Vec<u8>) {
        let mut r: Vec<u8> = Vec::new();
        match self {
            TransactionMessage::Mint { amount } => {
                r.push(0);
                push_le(&mut r, *amount);
            },
            TransactionMessage::Transfer { to, amount } => {
                r.push(1);
                push_all(&mut r, to.as_bytes());
                push_le(&mut r, *amount);
            },
        }
        assert(r@ =~= msg_encoding(self@));
        r
    }
}

impl BytesDeserialize for TransactionMessage {
    open spec fn decoding(buf: Seq<u8>) -> Option<(MessageView, nat)> {
        msg_decoding(buf)
    }

    fn deserialize(buf: &[u8]) -> (r: Result<(TransactionMessage, usize), GulfStreamError>)
        ensures
            buf@.len() >= 1 && buf@[0] != 0 && buf@[0] != 1 ==> r == Err::<
                (TransactionMessage, usize),
                GulfStreamError,
            >(GulfStreamError::Default),
    {
        if buf.len() < 1 {
            return Err(GulfStreamError::SerDeError("TransactionMessage".to_string()));
        }
        let tag = buf[0];
        let rest = slice_subrange(buf, 1, buf.len());
        if tag == 0 {
            if rest.len() < 8 {
                return Err(GulfStreamError::SerDeError("u64".to_string()));
            }
            let amount = read_le(rest);
            assert(rest@.subrange(0, 8) =~= buf@.subrange(1, 9));
            assert(le_value(rest@) == le_value(buf@.subrange(1, 9)));
            Ok((TransactionMessage::Mint { amount }, 9))
        } else if tag == 1 {
            assert(rest@.len() >= 32 ==> rest@.subrange(0, 32) =~= buf@.subrange(1, 33));
            let to = match PublicKey::deserialize(rest) {
                Ok(p) => p.0,
                Err(e) => return Err(e),
            };
            assert(rest@.subrange(0, 32) =~= buf@.subrange(1, 33));
            let tail = slice_subrange(rest, 32, rest.len());
            if tail.len() < 8 {
                return Err(GulfStreamError::SerDeError("u64".to_string()));
            }
            let amount = read_le(tail);
            assert(le_value(tail@) == le_value(buf@.subrange(33, 41)));
            Ok((TransactionMessage::Transfer { to, amount }, 41))
        } else {
            Err(GulfStreamError::Default)
        }
    }
}

impl BytesSerialize for Transaction {
    open spec fn encoding(v: TxView) -> Seq<u8> {
        tx_encoding(v)
    }

    fn serialize(&self) -> (r: Vec<u8>) {
        let mut r = self.serialize_content();
        push_all(&mut r, self.payer.as_bytes());
        push_all(&mut r, self.signature.as_bytes());
        r
    }
}

impl BytesDeserialize for Transaction {
    open spec fn decoding(buf: Seq<u8>) -> Option<(TxView, nat)> {
        tx_decoding(buf)
    }

    fn deserialize(buf: &[u8]) -> (r: Result<(Transaction, usize), GulfStreamError>) {
        if buf.len() < 16 {
            return Err(GulfStreamError::SerDeError("u64".to_string()));
        }
        let blockheight = read_le(buf);
        let gas = read_le(slice_subrange(buf, 8, buf.len()));
        let rest = slice_subrange(buf, 16, buf.len());
        assert(le_value(buf@) == le_value(buf@.subrange(0, 8)));
        assert(le_value(buf@.subrange(8, buf@.len() as int)) == le_value(buf@.subrange(8, 16)));
        let (msg, n) = match TransactionMessage::deserialize(rest) {
            Ok(p) => p,
            Err(e) => return Err(e),
        };
        let p: usize = 16 + n;
        let rest2 = slice_subrange(buf, p, buf.len());
        assert(rest2@.len() >= 32 ==> rest2@.subrange(0, 32) =~= buf@.subrange(p as int, p + 32));
        let payer = match PublicKey::deserialize(rest2) {
            Ok(k) => k.0,
            Err(e) => return Err(e),
        };
        assert(rest2@.subrange(0, 32) =~= buf@.subrange(p as int, p + 32));
        let rest3 = slice_subrange(rest2, 32, rest2.len());
        assert(rest3@.len() >= 64 ==> rest3@.subrange(0, 64) =~= buf@.subrange(p + 32, p + 96));
        let signature = match Signature::deserialize(rest3) {
            Ok(s) => s.0,
            Err(e) => return Err(e),
        };
        assert(rest3@.subrange(0, 64) =~= buf@.subrange(p + 32, p + 96));
        Ok((Transaction { blockheight, gas, msg, payer, signature }, p + 96))
    }
}

impl Transaction {
    /// The signed part of the encoding: height, gas and message.
    pub fn serialize_content(&self) -> (r: Vec<u8>)
        ensures
            r@ == content_encoding(self@),
    {
        let mut r: Vec<u8> = Vec::new();
        push_le(&mut r, self.blockheight);
        push_le(&mut r, self.gas);
        let m = self.msg.serialize();
        push_all(&mut r, m.as_slice());
        assert(r@ =~= content_encoding(self@));
        r
    }

    /// The accounts this transaction touches: the payer, then any recipient.
    pub fn get_involved_pk(&self) -> (r: Vec<PublicKey>)
        ensures
            r@.map_values(|k: PublicKey| k@) == involved(self@),
    {
        let mut r: Vec<PublicKey> = Vec::new();
        r.push(self.payer.clone());
        match &self.msg {
            TransactionMessage::Mint { .. } => {},
            TransactionMessage::Transfer { to, .. } => {
                r.push(to.clone());
            },
        }
        assert(r@.map_values(|k: PublicKey| k@) =~= involved(self@));
        r
    }

    /// The effect of this transaction on the balance of `pk`.
    pub fn get_balance_delta_from_pk(&self, pk: &PublicKey) -> (r: BalanceDelta)
        ensures
            r == delta_for(self@, pk@),
    {
        match &self.msg {
            TransactionMessage::Mint { amount } => if self.payer == *pk {
                BalanceDelta::Pos(*amount)
            } else {
                BalanceDelta::Pos(0)
            },
            TransactionMessage::Transfer { to, amount } => if *to == *pk {
                BalanceDelta::Pos(*amount)
            } else if self.payer == *pk {
                BalanceDelta::Neg(*amount)
            } else {
                BalanceDelta::Pos(0)
            },
        }
    }

    /// A transfer may not go back to its payer; a mint is always well formed.
    pub fn tx_msg_is_valid(&self) -> (r: bool)
        ensures
            r == (match self@.msg {
                MessageView::Mint { .. } => true,
                MessageView::Transfer { to, .. } => to != self@.payer,
            }),
    {
        match &self.msg {
            TransactionMessage::Mint { .. } => true,
            TransactionMessage::Transfer { to, .. } => self.payer != *to,
        }
    }

    /// Whether the payer can cover the gas, and for a transfer the amount too.
    pub fn is_valid_for_payer(&self, payer_balance: u64) -> (r: bool)
        ensures
            r == (match self@.msg {
                MessageView::Mint { .. } => payer_balance >= self.gas,
                MessageView::Transfer { amount, .. } => payer_balance >= amount + self.gas,
            }),
    {
        match &self.msg {
            TransactionMessage::Mint { .. } => payer_balance >= self.gas,
            TransactionMessage::Transfer { amount, .. } => {
                if *amount > u64::MAX - self.gas {
                    false
                } else {
                    payer_balance >= *amount + self.gas
                }
            },
        }
    }

    /// Whether the payer's key verifies the signature over the encoded message.
    pub fn sign_is_valid(&self) -> (r: bool)
        ensures
            r == ed25519ph_verifies(self@.payer, msg_encoding(self@.msg), self@.signature),
    {
        let m = self.msg.serialize();
        self.signature.verifies(&self.payer, m.as_slice())
    }

    /// Admission check: signature, message shape and the payer's solvency.
    pub fn is_valid(&self, payer_balance: u64) -> (r: bool)
        ensures
            r == tx_valid(self@, payer_balance),
    {
        self.sign_is_valid() && self.tx_msg_is_valid() && self.is_valid_for_payer(payer_balance)
    }

    /// The per-account effects of this transaction; `None` where booking
    /// them leaves `u64`.
    pub fn get_balance_deltas(&self) -> (r: Option<BalanceTable>)
        ensures
            match r {
                Some(t) => t.wf() && tx_step(Some(Map::empty()), self@) == Some(t@),
                None => tx_step(Some(Map::empty()), self@) is None,
            },
    {
        let mut t = BalanceTable::new();
        if BalanceDelta::try_update_table(self, &mut t) {
            Some(t)
        } else {
            None
        }
    }

    /// The concatenated encodings of `txs`.
    pub fn get_raw_txs(txs: &Vec<Transaction>) -> (r: Vec<u8>)
        ensures
            r@ == txs_encoding(views(txs@)),
    {
        let mut r: Vec<u8> = Vec::new();
        let mut i: usize = 0;
        while i < txs.len()
            invariant
                i <= txs@.len(),
                r@ == txs_encoding(views(txs@.subrange(0, i as int))),
            decreases txs@.len() - i,
        {
            let e = txs[i].serialize();
            push_all(&mut r, e.as_slice());
            proof {
                let s = views(txs@.subrange(0, i + 1));
                assert(s.drop_last() =~= views(txs@.subrange(0, i as int)));
            }
            i = i + 1;
        }
        assert(txs@.subrange(0, txs@.len() as int) =~= txs@);
        r
    }

    /// The accounts touched by `txs`, in order, with repeats.
    pub fn get_involved_pk_from_txs(txs: &Vec<Transaction>) -> (r: Vec<PublicKey>)
        ensures
            r@.map_values(|k: PublicKey| k@) == txs_involved(views(txs@)),
    {
        let mut r: Vec<PublicKey> = Vec::new();
        let mut i: usize = 0;
        while i < txs.len()
            invariant
                i <= txs@.len(),
                r@.map_values(|k: PublicKey| k@) == txs_involved(views(txs@.subrange(0, i as int))),
            decreases txs@.len() - i,
        {
            let ks = txs[i].get_involved_pk();
            let mut j: usize = 0;
            let ghost r0 = r@;
            while j < ks.len()
                invariant
                    j <= ks@.len(),
                    i < txs@.len(),
                    r@.map_values(|k: PublicKey| k@) == r0.map_values(|k: PublicKey| k@) + ks@.subrange(0, j as int).map_values(|k: PublicKey| k@),
                decreases ks@.len() - j,
            {
                let ghost prev = r@;
                let kc = ks[j].clone();
                r.push(kc);
                proof {
                    assert(r@ == prev.push(kc));
                    assert(r@.map_values(|k: PublicKey| k@) =~= prev.map_values(|k: PublicKey| k@).push(ks@[j as int]@));
                    assert(ks@.subrange(0, j + 1).map_values(|k: PublicKey| k@) =~= ks@.subrange(0, j as int).map_values(|k: PublicKey| k@).push(ks@[j as int]@));
                }
                j = j + 1;
                assert(r@.map_values(|k: PublicKey| k@) =~= r0.map_values(|k: PublicKey| k@) + ks@.subrange(0, j as int).map_values(|k: PublicKey| k@));
            }
            proof {
                assert(ks@.subrange(0, ks@.len() as int) =~= ks@);
                let s = views(txs@.subrange(0, i + 1));
                assert(s.drop_last() =~= views(txs@.subrange(0, i as int)));
            }
            i = i + 1;
        }
        assert(txs@.subrange(0, txs@.len() as int) =~= txs@);
        r
    }

    /// The per-account effects of `txs`, booked in order; `None` where a
    /// sum leaves `u64`.
    pub fn get_balance_deltas_from_txs(txs: &Vec<Transaction>) -> (r: Option<BalanceTable>)
        ensures
            match r {
                Some(t) => t.wf() && txs_table(views(txs@)) == Some(t@),
                None => txs_table(views(txs@)) is None,
            },
    {
        let mut t = BalanceTable::new();
        let mut i: usize = 0;
        while i < txs.len()
            invariant
                i <= txs@.len(),
                t.wf(),
                txs_table(views(txs@.subrange(0, i as int))) == Some(t@),
            decreases txs@.len() - i,
        {
            let ghost before = t@;
            if !BalanceDelta::try_update_table(&txs[i], &mut t) {
                proof {
                    let s = views(txs@.subrange(0, i + 1));
                    assert(s.drop_last() =~= views(txs@.subrange(0, i as int)));
                    assert(views(txs@).subrange(0, i + 1) =~= s);
                    assert(txs_table(s) is None);
                    lemma_txs_table_stays_none(views(txs@), i + 1);
                }
                return None;
            }
            proof {
                let s = views(txs@.subrange(0, i + 1));
                assert(s.drop_last() =~= views(txs@.subrange(0, i as int)));
            }
            i = i + 1;
        }
        assert(txs@.subrange(0, txs@.len() as int) =~= txs@);
        Some(t)
    }

    /// This transaction, waiting for admission.
    pub fn into_tx_state(self) -> (r: crate::block::TransactionState)
        ensures
            r is Pending,
            r.tx()@ == self@,
    {
        crate::block::TransactionState::Pending(self)
    }
}

/// Once a prefix of the list overflows, the whole list does.
pub proof fn lemma_txs_table_stays_none(txs: Seq<TxView>, n: int)
    requires
        0 <= n <= txs.len(),
        txs_table(txs.subrange(0, n)) is None,
    ensures
        txs_table(txs) is None,
    decreases txs.len() - n,
{
    if n < txs.len() {
        let s = txs.subrange(0, n + 1);
        assert(s.drop_last() =~= txs.subrange(0, n));
        lemma_txs_table_stays_none(txs, n + 1);
    } else {
        assert(txs.subrange(0, n) =~= txs);
    }
}

impl BalanceDelta {
    /// Books the effects of `tx` on `table`, in the order of the accounts it
    /// touches. Returns `false`, with the table unchanged, where a sum would
    /// leave `u64`.
    pub fn try_update_table(tx: &Transaction, table: &mut BalanceTable) -> (ok: bool)
        requires
            old(table).wf(),
        ensures
            final(table).wf(),
            ok == tx_step(Some(old(table)@), tx@) is Some,
            ok ==> tx_step(Some(old(table)@), tx@) == Some(final(table)@),
            !ok ==> final(table)@ == old(table)@,
    {
        let d1 = tx.get_balance_delta_from_pk(&tx.payer);
        let n1 = match table.get(&tx.payer) {
            Some(c) => match c.checked_add(d1) {
                Some(v) => v,
                None => return false,
            },
            None => d1,
        };
        match &tx.msg {
            TransactionMessage::Mint { .. } => {
                table.insert(&tx.payer, n1);
                true
            },
            TransactionMessage::Transfer { to, .. } => {
                let d2 = tx.get_balance_delta_from_pk(to);
                let cur2 = if *to == tx.payer {
                    Some(n1)
                } else {
                    table.get(to)
                };
                let n2 = match cur2 {
                    Some(c) => match c.checked_add(d2) {
                        Some(v) => v,
                        None => return false,
                    },
                    None => d2,
                };
                table.insert(&tx.payer, n1);
                table.insert(to, n2);
                true
            },
        }
    }

    /// Books the effects of `tx` on `table`; the sums must stay within `u64`.
    pub fn update_table(tx: &Transaction, table: &mut BalanceTable)
        requires
            old(table).wf(),
            tx_step(Some(old(table)@), tx@) is Some,
        ensures
            final(table).wf(),
            tx_step(Some(old(table)@), tx@) == Some(final(table)@),
    {
        BalanceDelta::try_update_table(tx, table);
    }
}

proof fn lemma_le_exact(x: u64)
    ensures
        le_value(le_bytes(x)) == x,
        le_bytes(x).len() == 8,
{
    crate::codec::lemma_le_round_trip(x, Seq::empty());
    assert(le_bytes(x) + Seq::<u8>::empty() =~= le_bytes(x));
}

/// A message reads back as itself from its encoding, whatever follows it.
pub proof fn lemma_message_round_trip(m: MessageView, rest: Seq<u8>)
    requires
        msg_ok(m),
    ensures
        TransactionMessage::decoding(TransactionMessage::encoding(m) + rest) == Some(
            (m, msg_encoding(m).len()),
        ),
{
    let b = msg_encoding(m) + rest;
    match m {
        MessageView::Mint { amount } => {
            lemma_le_exact(amount);
            assert(b.subrange(1, 9) =~= le_bytes(amount));
        },
        MessageView::Transfer { to, amount } => {
            lemma_le_exact(amount);
            assert(b.subrange(1, 33) =~= to);
            assert(b.subrange(33, 41) =~= le_bytes(amount));
        },
    }
}

/// A transaction reads back as itself from its encoding, whatever follows it.
pub proof fn lemma_transaction_round_trip(t: TxView, rest: Seq<u8>)
    requires
        tx_ok(t),
    ensures
        Transaction::decoding(Transaction::encoding(t) + rest) == Some(
            (t, tx_encoding(t).len()),
        ),
{
    let me = msg_encoding(t.msg);
    let b = tx_encoding(t) + rest;
    lemma_le_exact(t.blockheight);
    lemma_le_exact(t.gas);
    assert(b.subrange(0, 8) =~= le_bytes(t.blockheight));
    assert(b.subrange(8, 16) =~= le_bytes(t.gas));
    let tail = t.payer + t.signature + rest;
    assert(b.subrange(16, b.len() as int) =~= me + tail);
    lemma_message_round_trip(t.msg, tail);
    let p: int = 16 + me.len() as int;
    assert(b.subrange(p, p + 32) =~= t.payer);
    assert(b.subrange(p + 32, p + 96) =~= t.signature);
    let d = tx_decoding(b).unwrap().0;
    assert(d == t);
}

/// A transaction changes the balance only of the accounts it touches.
pub proof fn lemma_delta_only_involved(t: TxView, pk: Seq<u8>)
    ensures
        !involved(t).contains(pk) ==> delta_for(t, pk) == BalanceDelta::Pos(0),
{
    match t.msg {
        MessageView::Mint { .. } => {
            if t.payer == pk {
                assert(involved(t)[0] == pk);
            }
        },
        MessageView::Transfer { to, .. } => {
            if t.payer == pk {
                assert(involved(t)[0] == pk);
            }
            if to == pk {
                assert(involved(t)[1] == pk);
            }
        },
    }
}

} // verus!
