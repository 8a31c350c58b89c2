use tspa::crypto;
use tspa::messages::{Reply, ACCOUNT_LEN, ROOT_LEN};
use tspa::random::Rng;
use tspa::stage::{expired, Collector, Policy};
use tspa::system::{account_context, agreement_key, unique_agreement, AgreementTracker};
use tspa::transport::Target;

fn identification_reply(cid: u8, timestamp: u64) -> Reply {
    Reply::Identification {
        cid: vec![cid; ROOT_LEN + 40],
        timestamp,
        contribution: crypto::hash_to_point(b"pwd"),
    }
}

fn account(byte: u8) -> Reply {
    Reply::Account(vec![byte; ACCOUNT_LEN + 40])
}

#[test]
fn identification_uses_exact_ciphertext_and_timestamp() {
    let replies = vec![
        (1, identification_reply(1, 0)),
        (2, identification_reply(1, 1)),
        (3, identification_reply(2, 0)),
    ];
    assert!(unique_agreement(&replies, 2, 0).is_err());
}

#[test]
fn unsupported_higher_timestamp_is_not_selected() {
    let replies = vec![
        (1, identification_reply(1, 4)),
        (2, identification_reply(1, 4)),
        (3, identification_reply(2, 9000)),
    ];
    let accepted = unique_agreement(&replies, 2, 0).unwrap().unwrap();
    assert_eq!(accepted.len(), 2);
    assert_eq!(accepted[0].1, identification_reply(1, 4));
}

#[test]
fn agreement_rejects_duplicate_provider_ids() {
    assert!(unique_agreement(
        &[(1, identification_reply(1, 0)), (1, identification_reply(1, 0))],
        2,
        0
    )
    .is_err());
}

#[test]
fn account_agreement_requires_exact_bytes_and_rejects_ambiguity() {
    let a = Reply::Account(vec![1; ACCOUNT_LEN + 40]);
    let b = Reply::Account(vec![2; ACCOUNT_LEN + 40]);
    assert!(unique_agreement(&[(1, a.clone()), (2, b.clone())], 2, 0).is_err());
    assert!(unique_agreement(&[(1, a.clone()), (2, a), (3, b.clone()), (4, b)], 2, 0).is_err());
}

#[test]
fn threshold_waits_until_unseen_responses_cannot_create_ambiguity() {
    let a = Reply::Account(vec![1; ACCOUNT_LEN + 40]);
    assert!(unique_agreement(&[(1, a.clone()), (2, a.clone())], 2, 2).unwrap().is_none());
    assert!(unique_agreement(&[(1, a.clone()), (2, a)], 2, 1).unwrap().is_some());
}

#[test]
fn account_ciphertext_binds_uid_and_ls_only() {
    let mut rng = Rng::from_seed([2; 32]);
    let ciphertext = crypto::xchacha_encrypt_detached(
        &[1; 32],
        &account_context(b"alice", b"LS1"),
        &[9; ACCOUNT_LEN],
        &mut rng,
    );
    assert!(crypto::xchacha_decrypt_detached(
        &[1; 32],
        &account_context(b"alice", b"LS1"),
        &ciphertext
    )
    .is_ok());
    assert!(crypto::xchacha_decrypt_detached(
        &[1; 32],
        &account_context(b"alice", b"LS2"),
        &ciphertext
    )
    .is_err());
    assert!(crypto::xchacha_decrypt_detached(
        &[1; 32],
        &account_context(b"bob", b"LS1"),
        &ciphertext
    )
    .is_err());
    let decoded: (String, Vec<u8>, Vec<u8>) =
        bincode::deserialize(&account_context(b"alice", b"LS1")).unwrap();
    assert_eq!(decoded, ("account".into(), b"alice".to_vec(), b"LS1".to_vec()));
}

#[test]
fn agreement_key_is_ciphertext_and_timestamp() {
    let key = agreement_key(&identification_reply(3, 5)).unwrap();
    let decoded: (Vec<u8>, u64) = bincode::deserialize(&key).unwrap();
    assert_eq!(decoded, (vec![3; ROOT_LEN + 40], 5));
    assert_eq!(agreement_key(&account(6)), Some(vec![6; ACCOUNT_LEN + 40]));
    assert_eq!(agreement_key(&Reply::Account(vec![6; 3])), None);
    assert_eq!(agreement_key(&Reply::Ack(true)), None);
    let bad_point = Reply::Identification {
        cid: vec![1; ROOT_LEN + 40],
        timestamp: 0,
        contribution: [255; 32],
    };
    assert_eq!(agreement_key(&bad_point), None);
    let bad_length = Reply::Identification {
        cid: vec![1; ROOT_LEN],
        timestamp: 0,
        contribution: crypto::hash_to_point(b"pwd"),
    };
    assert_eq!(agreement_key(&bad_length), None);
}

#[test]
fn agreement_errors_name_the_reason() {
    let two = [(1, account(1)), (2, account(1))];
    assert_eq!(unique_agreement(&two, 0, 0), Err("zero threshold".to_string()));
    assert_eq!(
        unique_agreement(&[(0, account(1))], 1, 0),
        Err("duplicate or zero provider id".to_string())
    );
    assert_eq!(
        unique_agreement(&two, 3, 0),
        Err("insufficient matching ciphertexts".to_string())
    );
    let four = [(1, account(1)), (2, account(2)), (3, account(1)), (4, account(2))];
    assert_eq!(
        unique_agreement(&four, 2, 5),
        Err("ambiguous ciphertext agreement".to_string())
    );
}

#[test]
fn competing_group_delays_agreement() {
    let replies = [(1, account(1)), (2, account(1)), (3, account(2))];
    assert_eq!(unique_agreement(&replies, 2, 1), Ok(None));
    assert_eq!(
        unique_agreement(&replies, 2, 0),
        Ok(Some(vec![(1, account(1)), (2, account(1))]))
    );
}

#[test]
fn accepted_agreement_survives_every_later_reply() {
    let early = vec![(1, account(1)), (2, account(1)), (3, account(1))];
    assert_eq!(unique_agreement(&early, 3, 2), Ok(Some(early.clone())));
    for late in [account(1), account(2), Reply::Ack(false)] {
        let mut all = early.clone();
        all.push((4, late.clone()));
        all.push((5, late));
        let accepted = unique_agreement(&all, 3, 0).unwrap().unwrap();
        assert_eq!(accepted[..3], early[..]);
        assert!(accepted.iter().all(|(_, reply)| *reply == account(1)));
    }
}

#[test]
fn tracker_ignores_refused_providers() {
    let mut tracker = AgreementTracker::new(2).unwrap();
    tracker.push(7, account(1)).unwrap();
    assert!(tracker.push(7, account(1)).is_err());
    assert!(tracker.push(0, account(1)).is_err());
    assert_eq!(tracker.resolve(1), Ok(None));
    tracker.push(8, account(1)).unwrap();
    assert_eq!(tracker.resolve(1), Ok(Some(vec![(7, account(1)), (8, account(1))])));
    assert!(AgreementTracker::new(0).is_err());
}

#[test]
fn stage_for_all_reports_the_first_error() {
    let mut stage = Collector::new(Policy::All, 3).unwrap();
    assert!(stage.poll().is_none());
    assert!(stage.receive(Target::Provider(2), Err("late".into())).is_none());
    assert!(stage.receive(Target::Provider(1), Ok(Reply::Ack(true))).is_none());
    assert_eq!(
        stage.receive(Target::Provider(3), Err("later".into())),
        Some(Err("late".to_string()))
    );
}

#[test]
fn stage_for_all_keeps_the_order_of_arrival() {
    let mut stage = Collector::new(Policy::All, 2).unwrap();
    assert!(stage.receive(Target::Provider(2), Ok(Reply::Ack(true))).is_none());
    assert_eq!(
        stage.receive(Target::LoginServer, Ok(Reply::Ack(false))),
        Some(Ok(vec![(2, Reply::Ack(true)), (0, Reply::Ack(false))]))
    );
    let empty = Collector::new(Policy::All, 0).unwrap();
    assert_eq!(empty.poll(), Some(Ok(vec![])));
}

#[test]
fn stage_for_agreement_ends_early() {
    let mut stage = Collector::new(Policy::Agreement(2), 3).unwrap();
    assert!(stage.receive(Target::Provider(3), Ok(account(1))).is_none());
    assert_eq!(
        stage.receive(Target::Provider(1), Ok(account(1))),
        Some(Ok(vec![(3, account(1)), (1, account(1))]))
    );
    let mut stage = Collector::new(Policy::Agreement(2), 3).unwrap();
    assert!(stage.receive(Target::Provider(3), Err("gone".into())).is_none());
    assert!(stage.receive(Target::Provider(1), Ok(account(1))).is_none());
    assert_eq!(
        stage.receive(Target::Provider(2), Ok(account(2))),
        Some(Err("insufficient matching ciphertexts".to_string()))
    );
    let mut stage = Collector::new(Policy::Agreement(1), 1).unwrap();
    assert_eq!(
        stage.receive(Target::LoginServer, Ok(account(1))),
        Some(Err("duplicate or zero provider id".to_string()))
    );
    assert!(Collector::new(Policy::Agreement(0), 1).is_err());
    assert_eq!(expired(), Err("stage deadline exceeded".to_string()));
}
