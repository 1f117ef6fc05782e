use ed25519_dalek::{Digest, Keypair, Sha512};
use gulf_stream::balance::BalanceDelta;
use gulf_stream::codec::{BytesDeserialize, BytesSerialize};
use gulf_stream::err::GulfStreamError;
use gulf_stream::keys::{PublicKey, Signature};
use gulf_stream::transaction::{Transaction, TransactionMessage};
use rand::rngs::OsRng;

fn random_keypair() -> Keypair {
    let mut csprng = OsRng {};
    Keypair::generate(&mut csprng)
}

fn key_of(kp: &Keypair) -> PublicKey {
    PublicKey::from_bytes(kp.public.as_bytes()).unwrap()
}

fn signed_tx(kp: &Keypair, blockheight: u64, gas: u64, msg: TransactionMessage) -> Transaction {
    let mut prehashed: Sha512 = Sha512::new();
    prehashed.update(msg.serialize());
    let signature = kp.sign_prehashed(prehashed, None).unwrap();
    Transaction {
        payer: key_of(kp),
        msg,
        signature: Signature::from_bytes(&signature.to_bytes()).unwrap(),
        gas,
        blockheight,
    }
}

#[test]
fn add() {
    let a = BalanceDelta::Pos(10);
    let b = BalanceDelta::Neg(5);

    assert_eq!(a.add(b), BalanceDelta::Pos(5));
    assert_eq!(b.add(a), BalanceDelta::Pos(5));

    let a = BalanceDelta::Pos(5);
    let b = BalanceDelta::Neg(10);

    assert_eq!(a.add(b), BalanceDelta::Neg(5));
    assert_eq!(b.add(a), BalanceDelta::Neg(5));
}

#[test]
fn se_de_txm() {
    let txm = TransactionMessage::default();
    let se = txm.serialize();
    let de = TransactionMessage::deserialize(se.as_slice()).unwrap().0;
    assert_eq!(de, txm);
}

#[test]
fn se_de_tx() {
    let kp = random_keypair();
    let tx = signed_tx(&kp, 1, 50, TransactionMessage::default());
    let se = tx.serialize();
    let de = Transaction::deserialize(se.as_slice()).unwrap().0;
    assert_eq!(de, tx);
}

#[test]
fn se_de_transfer_with_trailing_bytes() {
    let kp = random_keypair();
    let to = key_of(&random_keypair());
    let tx = signed_tx(&kp, 7, 3, TransactionMessage::Transfer { to, amount: 99 });
    let mut se = tx.serialize();
    assert_eq!(se.len(), 8 + 8 + 41 + 32 + 64);
    se.extend(vec![9u8, 9, 9]);
    let (de, used) = Transaction::deserialize(se.as_slice()).unwrap();
    assert_eq!(used, 8 + 8 + 41 + 32 + 64);
    assert_eq!(de, tx);
}

#[test]
fn message_encoding_bytes() {
    let m = TransactionMessage::Mint { amount: 0x0102 };
    assert_eq!(m.serialize(), vec![0u8, 2, 1, 0, 0, 0, 0, 0, 0]);
    assert_eq!(0x0102u64.serialize(), vec![2u8, 1, 0, 0, 0, 0, 0, 0]);
    assert_eq!(true.serialize(), vec![1u8]);
    assert_eq!(bool::deserialize(&[0u8]).unwrap(), (false, 1));
    assert!(bool::deserialize(&[2u8]).is_err());
}

#[test]
fn deserialize_errors() {
    assert!(u64::deserialize(&[1u8, 2, 3]).is_err());
    assert!(TransactionMessage::deserialize(&[]).is_err());
    assert!(TransactionMessage::deserialize(&[0u8, 1, 2]).is_err());
    assert_eq!(
        TransactionMessage::deserialize(&[2u8, 0, 0, 0, 0, 0, 0, 0, 0]).unwrap_err(),
        GulfStreamError::Default
    );
    assert!(Transaction::deserialize(&[0u8; 20]).is_err());
    let mut bad_sig = Signature::default().serialize();
    bad_sig[63] = 0xff;
    assert!(Signature::deserialize(bad_sig.as_slice()).is_err());
}

#[test]
fn publickey_se_de_publickey() {
    let pk = PublicKey::default();
    let se = pk.serialize();
    let de: PublicKey = PublicKey::deserialize(se.as_slice()).unwrap().0;
    assert_eq!(de, pk);
}

#[test]
fn se_de_signature() {
    let signature = Signature::default();
    let se = signature.serialize();
    let de: Signature = Signature::deserialize(se.as_slice()).unwrap().0;
    assert_eq!(de, signature);
}

#[test]
fn signature_text_round_trip() {
    let text = "4K9HxzmBv5ALfq9nMZS7jewM5XbBqFEgkKxpW3j7gExPmmACAaFY7kdFfUvt1W7oPkPHPtGgWWH6XjT1g17cT2wZ";
    let sig = Signature::try_from_str(text).unwrap();
    assert_eq!(sig, Signature::default());
    assert_eq!(sig.into_string(), text.to_string());
    assert!(Signature::try_from_str("0OIl").is_err());
}

#[test]
fn public_key_text() {
    let pk = PublicKey::default();
    let mut bytes = vec![1u8];
    bytes.extend(vec![0u8; 31]);
    assert_eq!(pk.as_bytes(), bytes.as_slice());
    assert_eq!(ed25519_dalek::PublicKey::default().as_bytes(), bytes.as_slice());
    assert_eq!(pk.into_string(), bs58::encode(&bytes).into_string());
    assert!(PublicKey::from_bytes(&[1u8; 31]).is_err());
}

#[test]
fn commutative_and_identity() {
    let cases = [
        (BalanceDelta::Pos(3), BalanceDelta::Pos(4)),
        (BalanceDelta::Neg(3), BalanceDelta::Pos(4)),
        (BalanceDelta::Neg(9), BalanceDelta::Neg(4)),
        (BalanceDelta::Pos(9), BalanceDelta::Neg(4)),
    ];
    for (a, b) in cases.iter() {
        assert_eq!(a.add(*b), b.add(*a));
        assert_eq!(BalanceDelta::Pos(0).add(*a), *a);
        assert_eq!(a.add(BalanceDelta::Pos(0)), *a);
    }
    // equal magnitudes of opposite sign cancel to a zero that takes the right operand's sign
    assert_eq!(BalanceDelta::Pos(5).add(BalanceDelta::Neg(5)), BalanceDelta::Neg(0));
    assert_eq!(BalanceDelta::Neg(5).add(BalanceDelta::Pos(5)), BalanceDelta::Pos(0));
    assert_eq!(BalanceDelta::default(), BalanceDelta::Pos(0));
}

#[test]
fn checked_add_and_solvency() {
    assert_eq!(BalanceDelta::Pos(u64::MAX).checked_add(BalanceDelta::Pos(1)), None);
    assert_eq!(BalanceDelta::Neg(u64::MAX).checked_add(BalanceDelta::Neg(1)), None);
    assert_eq!(
        BalanceDelta::Pos(u64::MAX).checked_add(BalanceDelta::Neg(1)),
        Some(BalanceDelta::Pos(u64::MAX - 1))
    );
    assert!(BalanceDelta::Neg(0).is_positive_or_nil());
    assert!(!BalanceDelta::Neg(1).is_positive_or_nil());
    assert_eq!(BalanceDelta::Pos(4).to_u64(), Some(4));
    assert_eq!(BalanceDelta::Neg(0).to_u64(), Some(0));
    assert_eq!(BalanceDelta::Neg(3).to_u64(), None);
}

#[test]
fn delta_only_for_involved_accounts() {
    let payer = random_keypair();
    let to = key_of(&random_keypair());
    let other = key_of(&random_keypair());
    let tx = signed_tx(&payer, 1, 0, TransactionMessage::Transfer { to: to.clone(), amount: 8 });
    assert_eq!(tx.get_balance_delta_from_pk(&key_of(&payer)), BalanceDelta::Neg(8));
    assert_eq!(tx.get_balance_delta_from_pk(&to), BalanceDelta::Pos(8));
    assert_eq!(tx.get_balance_delta_from_pk(&other), BalanceDelta::Pos(0));
    assert_eq!(tx.get_involved_pk(), vec![key_of(&payer), to.clone()]);
    let table = tx.get_balance_deltas().unwrap();
    assert_eq!(table.len(), 2);
    assert_eq!(table.get(&to), Some(BalanceDelta::Pos(8)));
    assert_eq!(table.get(&other), None);
}

#[test]
fn validity_checks() {
    let payer = random_keypair();
    let to = key_of(&random_keypair());
    let tx = signed_tx(&payer, 1, 2, TransactionMessage::Transfer { to, amount: 8 });
    assert!(tx.sign_is_valid());
    assert!(tx.tx_msg_is_valid());
    assert!(tx.is_valid(10));
    assert!(!tx.is_valid(9));
    let self_transfer =
        signed_tx(&payer, 1, 0, TransactionMessage::Transfer { to: key_of(&payer), amount: 1 });
    assert!(!self_transfer.tx_msg_is_valid());
    let mut forged = tx.clone();
    forged.msg = TransactionMessage::Transfer { to: key_of(&random_keypair()), amount: 8 };
    assert!(!forged.sign_is_valid());
    let mint = signed_tx(&payer, 1, 3, TransactionMessage::Mint { amount: 100 });
    assert!(mint.is_valid(3));
    assert!(!mint.is_valid(2));
}

#[test]
fn table_of_several_transactions() {
    let a = random_keypair();
    let b = key_of(&random_keypair());
    let txs = vec![
        signed_tx(&a, 1, 0, TransactionMessage::Mint { amount: 20 }),
        signed_tx(&a, 1, 0, TransactionMessage::Transfer { to: b.clone(), amount: 30 }),
    ];
    let table = Transaction::get_balance_deltas_from_txs(&txs).unwrap();
    assert_eq!(table.get(&key_of(&a)), Some(BalanceDelta::Neg(10)));
    assert_eq!(table.get(&b), Some(BalanceDelta::Pos(30)));
    assert_eq!(Transaction::get_involved_pk_from_txs(&txs).len(), 3);
    let raw = Transaction::get_raw_txs(&txs);
    assert_eq!(raw.len(), (8 + 8 + 9 + 32 + 64) + (8 + 8 + 41 + 32 + 64));
}
