use curve25519_dalek::scalar::Scalar;
use ed25519_dalek::{Signer, SigningKey};
use tspa::crypto;
use tspa::login_server::LoginServer;
use tspa::messages::{
    Binding, LsRequest, PasswordUpdate, Phase, RecordId, Reply, Root, UpRequest, ACCOUNT_LEN,
    ROOT_LEN,
};
use tspa::provider::{Replacement, UpSpaProvider};

fn root() -> Root {
    Root {
        uid: b"alice".to_vec(),
        svk: SigningKey::from_bytes(&[11; 32]).verifying_key().to_bytes(),
        cid: vec![7; ROOT_LEN + 40],
        share: Scalar::from(9u64).to_bytes(),
        timestamp: 0,
    }
}

fn binding(phase: Phase, sid: u8, record: RecordId) -> Binding {
    Binding { sid: [sid; 16], phase, record }
}

fn root_binding(phase: Phase, sid: u8) -> Binding {
    binding(phase, sid, RecordId::Root(b"alice".to_vec()))
}

fn setup(provider: &mut UpSpaProvider) {
    provider.handle(UpRequest::Setup { sid: [1; 16], root: root() }, 100).unwrap();
}

fn finish(provider: &mut UpSpaProvider, binding: Binding, store: bool) -> Reply {
    provider.handle(UpRequest::Finalize { binding, store }, 100).unwrap()
}

fn committed() -> UpSpaProvider {
    let mut provider = UpSpaProvider::new(1, 1000);
    setup(&mut provider);
    finish(&mut provider, root_binding(Phase::Setup, 1), true);
    provider
}

fn alice(provider: &UpSpaProvider) -> Root {
    provider.roots.get(&b"alice".to_vec()).unwrap().clone()
}

fn update() -> PasswordUpdate {
    let mut update = PasswordUpdate {
        operation: "PwdUpdate".into(),
        sid: [2; 16],
        uid: b"alice".to_vec(),
        provider_id: 1,
        timestamp_old: 0,
        timestamp_new: 100,
        cid_new: vec![8; ROOT_LEN + 40],
        share_new: Scalar::from(19u64).to_bytes(),
        signature: Vec::new(),
    };
    sign(&mut update);
    update
}

fn sign(update: &mut PasswordUpdate) {
    update.signature =
        SigningKey::from_bytes(&[11; 32]).sign(&update.signed_bytes()).to_bytes().to_vec();
}

fn unusable_key() -> [u8; 32] {
    let mut key = [2; 32];
    while ed25519_dalek::VerifyingKey::from_bytes(&key).is_ok() {
        key[0] += 1;
    }
    key
}

fn refusal(result: Result<Reply, String>) -> String {
    result.unwrap_err()
}

#[test]
fn setup_is_pending_until_store() {
    let mut provider = UpSpaProvider::new(1, 1000);
    setup(&mut provider);
    assert!(provider.roots.is_empty());
    assert!(provider
        .handle(
            UpRequest::Identify {
                uid: b"alice".to_vec(),
                blinded: crypto::hash_to_point(b"pwd")
            },
            100
        )
        .is_err());
    finish(&mut provider, root_binding(Phase::Setup, 1), true);
    assert_eq!(alice(&provider), root());
}

#[test]
fn setup_discard_leaves_no_root() {
    let mut provider = UpSpaProvider::new(1, 1000);
    setup(&mut provider);
    finish(&mut provider, root_binding(Phase::Setup, 1), false);
    assert!(provider.roots.is_empty());
    assert!(provider.pending.is_empty());
    assert!(provider.handle(UpRequest::Setup { sid: [1; 16], root: root() }, 100).is_err());
}

#[test]
fn finalization_is_sid_bound() {
    let mut provider = UpSpaProvider::new(1, 1000);
    setup(&mut provider);
    assert_eq!(finish(&mut provider, root_binding(Phase::Setup, 2), true), Reply::Ack(false));
    assert_eq!(finish(&mut provider, root_binding(Phase::Setup, 2), false), Reply::Ack(false));
    assert!(provider.roots.is_empty());
    assert_eq!(provider.pending.len(), 1);
}

#[test]
fn finalization_is_phase_bound() {
    let mut provider = UpSpaProvider::new(1, 1000);
    setup(&mut provider);
    assert_eq!(
        finish(&mut provider, root_binding(Phase::PasswordUpdate, 1), true),
        Reply::Ack(false)
    );
    assert!(provider.roots.is_empty());
    assert_eq!(provider.pending.len(), 1);
}

#[test]
fn finalization_is_record_bound_and_replay_has_no_effect() {
    let mut provider = committed();
    let old = alice(&provider);
    let wrong = binding(Phase::Setup, 1, RecordId::Root(b"bob".to_vec()));
    assert_eq!(finish(&mut provider, wrong, true), Reply::Ack(false));
    assert_eq!(finish(&mut provider, root_binding(Phase::Setup, 1), true), Reply::Ack(true));
    finish(&mut provider, root_binding(Phase::Setup, 1), false);
    assert_eq!(alice(&provider), old);
    assert_eq!(provider.roots.len(), 1);
    provider.handle(UpRequest::PasswordUpdate(update()), 100).unwrap();
    finish(&mut provider, root_binding(Phase::Setup, 1), false);
    assert_eq!(provider.pending.len(), 1);
}

#[test]
fn pending_accounts_are_not_served() {
    let mut provider = committed();
    provider
        .handle(
            UpRequest::PrepareAccount {
                binding: binding(Phase::Registration, 3, RecordId::Account([4; 32])),
                ciphertext: vec![2; ACCOUNT_LEN + 40],
                expected: None,
            },
            100,
        )
        .unwrap();
    assert!(provider.handle(UpRequest::ReadAccount { suid: [4; 32] }, 100).is_err());
    finish(
        &mut provider,
        binding(Phase::Registration, 3, RecordId::Account([4; 32])),
        true,
    );
    assert_eq!(
        provider.handle(UpRequest::ReadAccount { suid: [4; 32] }, 100).unwrap(),
        Reply::Account(vec![2; ACCOUNT_LEN + 40])
    );
}

#[test]
fn password_update_atomically_switches_cid_share_timestamp_and_keeps_svk() {
    let mut provider = committed();
    let old = alice(&provider);
    let request = update();
    provider.handle(UpRequest::PasswordUpdate(request.clone()), 100).unwrap();
    assert_eq!(alice(&provider), old);
    finish(&mut provider, root_binding(Phase::PasswordUpdate, 2), true);
    let new = alice(&provider);
    assert_eq!(new.cid, request.cid_new);
    assert_eq!(new.share, request.share_new);
    assert_eq!(new.timestamp, 100);
    assert_eq!(new.svk, old.svk);
}

#[test]
fn password_discard_preserves_old_root() {
    let mut provider = committed();
    let old = alice(&provider);
    provider.handle(UpRequest::PasswordUpdate(update()), 100).unwrap();
    finish(&mut provider, root_binding(Phase::PasswordUpdate, 2), false);
    assert_eq!(alice(&provider), old);
    assert_eq!(provider.roots.len(), 1);
}

#[test]
fn password_signature_binds_every_required_field() {
    let original = update();
    let mut changed = Vec::new();
    let mut item = original.clone();
    item.operation = "Other".into();
    changed.push(item);
    let mut item = original.clone();
    item.sid[0] ^= 1;
    changed.push(item);
    let mut item = original.clone();
    item.uid.push(0);
    changed.push(item);
    let mut item = original.clone();
    item.provider_id = 2;
    changed.push(item);
    let mut item = original.clone();
    item.timestamp_old = 1;
    changed.push(item);
    let mut item = original.clone();
    item.timestamp_new = 101;
    changed.push(item);
    let mut item = original.clone();
    item.cid_new[0] ^= 1;
    changed.push(item);
    let mut item = original.clone();
    item.share_new = Scalar::from(20u64).to_bytes();
    changed.push(item);
    for request in changed {
        let mut provider = committed();
        assert!(provider.handle(UpRequest::PasswordUpdate(request), 100).is_err());
        assert!(provider.pending.is_empty());
    }
}

#[test]
fn signed_wrong_provider_index_is_rejected() {
    let mut u = update();
    u.provider_id = 2;
    sign(&mut u);
    assert!(committed().handle(UpRequest::PasswordUpdate(u), 100).is_err());
}

#[test]
fn signed_old_timestamp_mismatch_is_rejected() {
    let mut u = update();
    u.timestamp_old = 1;
    sign(&mut u);
    assert!(committed().handle(UpRequest::PasswordUpdate(u), 100).is_err());
}

#[test]
fn signed_nonincreasing_timestamp_is_rejected() {
    let mut u = update();
    u.timestamp_new = 0;
    sign(&mut u);
    assert!(committed().handle(UpRequest::PasswordUpdate(u), 100).is_err());
}

#[test]
fn signed_wrong_operation_is_rejected() {
    let mut u = update();
    u.operation = "Setup".into();
    sign(&mut u);
    assert!(committed().handle(UpRequest::PasswordUpdate(u), 100).is_err());
}

#[test]
fn clock_window_is_enforced() {
    assert!(committed().handle(UpRequest::PasswordUpdate(update()), 2000).is_err());
}

#[test]
fn ordinary_login_server_interfaces() {
    let mut ls = LoginServer::default();
    ls.handle(LsRequest::Register { uid: b"stable".to_vec(), verifier: [1; 32] }).unwrap();
    assert!(ls
        .handle(LsRequest::Register { uid: b"stable".to_vec(), verifier: [2; 32] })
        .is_err());
    assert!(ls
        .handle(LsRequest::ChangeCredential {
            uid: b"stable".to_vec(),
            old: [2; 32],
            new: [3; 32]
        })
        .is_err());
    ls.handle(LsRequest::ChangeCredential {
        uid: b"stable".to_vec(),
        old: [1; 32],
        new: [3; 32],
    })
    .unwrap();
    assert_eq!(
        ls.handle(LsRequest::Authenticate { uid: b"stable".to_vec(), verifier: [3; 32] })
            .unwrap(),
        Reply::Ack(true)
    );
}

#[test]
fn login_server_errors_name_the_reason() {
    let mut ls = LoginServer::default();
    let register = LsRequest::Register { uid: b"u".to_vec(), verifier: [1; 32] };
    assert_eq!(ls.handle(register.clone()), Ok(Reply::Ack(true)));
    assert_eq!(ls.handle(register), Err("already registered".to_string()));
    let change = LsRequest::ChangeCredential { uid: b"v".to_vec(), old: [1; 32], new: [2; 32] };
    assert_eq!(ls.handle(change), Err("old verifier mismatch".to_string()));
    let login = LsRequest::Authenticate { uid: b"u".to_vec(), verifier: [9; 32] };
    assert_eq!(ls.handle(login), Ok(Reply::Ack(false)));
}

#[test]
fn setup_errors_name_the_reason() {
    let request = |root: Root| UpRequest::Setup { sid: [5; 16], root };
    assert_eq!(refusal(committed().handle(request(root()), 0)), "root already exists");
    let mut other = root();
    other.uid = b"bob".to_vec();
    other.timestamp = 1;
    assert_eq!(
        refusal(committed().handle(request(other.clone()), 0)),
        "setup timestamp must be zero"
    );
    other.timestamp = 0;
    other.cid.pop();
    assert_eq!(
        refusal(committed().handle(request(other.clone()), 0)),
        "invalid ciphertext length"
    );
    other.cid.push(0);
    let valid = other.svk;
    other.svk = unusable_key();
    assert_eq!(
        refusal(committed().handle(request(other.clone()), 0)),
        "invalid verification key"
    );
    other.svk = valid;
    other.share = [255; 32];
    assert_eq!(refusal(committed().handle(request(other), 0)), "invalid share");
}

#[test]
fn preparations_conflict_and_repeat() {
    let mut provider = UpSpaProvider::new(1, 1000);
    setup(&mut provider);
    setup(&mut provider);
    assert_eq!(provider.pending.len(), 1);
    let other = UpRequest::Setup { sid: [9; 16], root: root() };
    assert_eq!(refusal(provider.handle(other, 100)), "pending conflict");
    finish(&mut provider, root_binding(Phase::Setup, 1), false);
    let again = UpRequest::Setup { sid: [1; 16], root: root() };
    assert_eq!(refusal(provider.handle(again, 100)), "session already finalized");
    assert_eq!(
        provider.prepare(root_binding(Phase::Setup, 7), Replacement::Root(root())),
        Ok(Reply::Ack(true))
    );
}

#[test]
fn repeated_finalization_confirms_only_the_first_decision() {
    let mut provider = committed();
    assert_eq!(finish(&mut provider, root_binding(Phase::Setup, 1), true), Reply::Ack(true));
    assert_eq!(finish(&mut provider, root_binding(Phase::Setup, 1), false), Reply::Ack(false));
    assert_eq!(alice(&provider), root());
}

#[test]
fn account_preconditions_are_checked() {
    let mut provider = committed();
    let suid = [4; 32];
    let request = |phase, record, ciphertext: Vec<u8>, expected| UpRequest::PrepareAccount {
        binding: binding(phase, 3, record),
        ciphertext,
        expected,
    };
    let good = vec![2; ACCOUNT_LEN + 40];
    assert_eq!(
        refusal(provider.handle(
            request(Phase::Registration, RecordId::Root(vec![1]), good.clone(), None),
            0
        )),
        "wrong record type"
    );
    assert_eq!(
        refusal(provider.handle(
            request(Phase::Registration, RecordId::Account(suid), vec![2; 3], None),
            0
        )),
        "invalid ciphertext length"
    );
    let mismatches = vec![
        (Phase::Registration, Some(good.clone())),
        (Phase::SecretUpdate, None),
        (Phase::SecretUpdate, Some(good.clone())),
        (Phase::Setup, None),
    ];
    for (phase, expected) in mismatches {
        assert_eq!(
            refusal(provider.handle(
                request(phase, RecordId::Account(suid), good.clone(), expected),
                0
            )),
            "account precondition failed"
        );
    }
    assert_eq!(
        refusal(provider.handle(UpRequest::ReadAccount { suid }, 0)),
        "unknown account"
    );
    provider
        .handle(request(Phase::Registration, RecordId::Account(suid), good.clone(), None), 0)
        .unwrap();
    finish(&mut provider, binding(Phase::Registration, 3, RecordId::Account(suid)), true);
    let newer = vec![3; ACCOUNT_LEN + 40];
    provider
        .handle(
            request(Phase::SecretUpdate, RecordId::Account(suid), newer.clone(), Some(good)),
            0,
        )
        .unwrap();
    finish(&mut provider, binding(Phase::SecretUpdate, 3, RecordId::Account(suid)), true);
    assert_eq!(
        provider.handle(UpRequest::ReadAccount { suid }, 0).unwrap(),
        Reply::Account(newer)
    );
}

#[test]
fn update_errors_name_the_reason() {
    let cases: Vec<(&str, Box<dyn Fn(&mut PasswordUpdate)>)> = vec![
        ("unknown root", Box::new(|u| u.uid = b"bob".to_vec())),
        ("wrong operation", Box::new(|u| u.operation = "Other".into())),
        ("wrong provider index", Box::new(|u| u.provider_id = 2)),
        ("old timestamp mismatch", Box::new(|u| u.timestamp_old = 3)),
        ("non-increasing timestamp", Box::new(|u| u.timestamp_new = 0)),
        ("outside clock window", Box::new(|u| u.timestamp_new = 1101)),
        ("invalid ciphertext length", Box::new(|u| u.cid_new = vec![1])),
        ("invalid share", Box::new(|u| u.share_new = [255; 32])),
    ];
    for (reason, change) in cases {
        let mut request = update();
        change(&mut request);
        sign(&mut request);
        assert_eq!(refusal(committed().handle(UpRequest::PasswordUpdate(request), 100)), reason);
    }
    let mut request = update();
    request.signature.pop();
    assert_eq!(
        refusal(committed().handle(UpRequest::PasswordUpdate(request), 100)),
        "invalid signature"
    );
    let mut request = update();
    request.signature[0] ^= 1;
    assert_eq!(
        refusal(committed().handle(UpRequest::PasswordUpdate(request), 100)),
        "invalid signature"
    );
    let mut provider = committed();
    let mut broken = root();
    broken.svk = unusable_key();
    provider.roots.insert(b"alice".to_vec(), broken);
    assert_eq!(
        refusal(provider.handle(UpRequest::PasswordUpdate(update()), 100)),
        "invalid key"
    );
    let mut edge = update();
    edge.timestamp_new = 1100;
    sign(&mut edge);
    assert_eq!(
        committed().handle(UpRequest::PasswordUpdate(edge), 100),
        Ok(Reply::Ack(true))
    );
}

#[test]
fn identification_multiplies_by_the_share() {
    let mut provider = committed();
    let point = curve25519_dalek::constants::RISTRETTO_BASEPOINT_POINT;
    let blinded = point.compress().to_bytes();
    let reply = provider
        .handle(UpRequest::Identify { uid: b"alice".to_vec(), blinded }, 100)
        .unwrap();
    assert_eq!(
        reply,
        Reply::Identification {
            cid: vec![7; ROOT_LEN + 40],
            timestamp: 0,
            contribution: (point * Scalar::from(9u64)).compress().to_bytes(),
        }
    );
    assert_eq!(
        refusal(provider.handle(
            UpRequest::Identify { uid: b"alice".to_vec(), blinded: [255; 32] },
            100
        )),
        "invalid point"
    );
}
