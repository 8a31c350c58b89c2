use chacha20poly1305::{AeadInPlace, KeyInit, XChaCha20Poly1305};
use curve25519_dalek::ristretto::{CompressedRistretto, RistrettoPoint};
use curve25519_dalek::scalar::Scalar;
use rand_chacha::ChaCha20Rng;
use rand_core::{RngCore, SeedableRng};
use tspa::accounts::{
    counter_after, finals, plan_account_write, probe_request, recover_account, Account,
    AccountNames, AccountRandomness,
};
use tspa::client::{identify, open_root, seal_root, setup_requests, SetupRandomness};
use tspa::crypto;
use tspa::group::combine_points;
use tspa::messages::{
    decode_blob, require_ack, LsRequest, PasswordUpdate, Phase, RecordId, Reply, Request, Root,
    UpRequest, ACCOUNT_LEN, ROOT_LEN,
};
use tspa::password::{timestamp_after, update_requests, UpdateRandomness};
use tspa::random::{rand_bytes, random_scalar, random_scalars, Rng};
use tspa::scalar::{eval_poly, lagrange_coeffs_at_zero, lagrange_lambdas_at_zero, scalar_zero};
use tspa::system::{IdentifiedState, Requirement};
use tspa::transport::Target;

fn bytes(value: u64) -> [u8; 32] {
    Scalar::from(value).to_bytes()
}

fn scalar(bytes: &[u8; 32]) -> Scalar {
    Scalar::from_canonical_bytes(*bytes).unwrap()
}

fn point(bytes: &[u8; 32]) -> RistrettoPoint {
    CompressedRistretto(*bytes).decompress().unwrap()
}

fn uniform(data: &[u8]) -> RistrettoPoint {
    let mut wide = [0; 64];
    blake3::Hasher::new().update(data).finalize_xof().fill(&mut wide);
    RistrettoPoint::from_uniform_bytes(&wide)
}

#[test]
fn hashes_are_in_their_domains() {
    let mut data = b"upspa/vinfo/v1".to_vec();
    data.extend_from_slice(&[7; 32]);
    data.extend_from_slice(b"LS1");
    assert_eq!(crypto::hash_vinfo(&[7; 32], b"LS1"), *blake3::hash(&data).as_bytes());
    let mut data = b"upspa/suid/v1".to_vec();
    data.extend_from_slice(&[7; 32]);
    data.extend_from_slice(b"LS1");
    data.extend_from_slice(&[3, 0, 0, 0]);
    assert_eq!(crypto::hash_upspa_suid(&[7; 32], b"LS1", 3), *blake3::hash(&data).as_bytes());
    assert_ne!(
        crypto::hash_upspa_suid(&[7; 32], b"LS1", 1),
        crypto::hash_upspa_suid(&[7; 32], b"LS1", 2)
    );
    assert_eq!(
        crypto::hash_to_point(b"pwd"),
        uniform(b"upspa/hash-to-point/v1pwd").compress().to_bytes()
    );
    let mut data = b"upspa/oprf-finalize/v1pwd".to_vec();
    data.extend_from_slice(&[9; 32]);
    assert_eq!(crypto::oprf_finalize(b"pwd", &[9; 32]), *blake3::hash(&data).as_bytes());
}

#[test]
fn scalars_follow_the_group_order() {
    let big = -Scalar::ONE;
    let coefficients = [bytes(5), big.to_bytes(), bytes(3)];
    let x = Scalar::from(11u64);
    let expected = Scalar::from(5u64) + big * x + Scalar::from(3u64) * x * x;
    assert_eq!(eval_poly(&coefficients, &x.to_bytes()), expected.to_bytes());
    assert_eq!(eval_poly(&[], &x.to_bytes()), scalar_zero());
    assert_eq!(eval_poly(&coefficients, &scalar_zero()), bytes(5));
}

#[test]
fn lagrange_weights_interpolate_at_zero() {
    let lambdas = lagrange_coeffs_at_zero(&[1, 2, 3]);
    assert_eq!(lambdas[0], bytes(3));
    assert_eq!(lambdas[1], (-Scalar::from(3u64)).to_bytes());
    assert_eq!(lambdas[2], bytes(1));
    let xs = [bytes(2), bytes(5)];
    let lambdas = lagrange_lambdas_at_zero(&xs);
    let inverse = Scalar::from(3u64).invert();
    assert_eq!(lambdas[0], (Scalar::from(5u64) * inverse).to_bytes());
    assert_eq!(lambdas[1], (-Scalar::from(2u64) * inverse).to_bytes());
    assert_eq!(lagrange_coeffs_at_zero(&[4, 4]), vec![scalar_zero(), scalar_zero()]);
    assert_eq!(lagrange_coeffs_at_zero(&[9]), vec![bytes(1)]);
}

#[test]
fn any_threshold_of_shares_recovers_the_key() {
    let mut rng = Rng::from_seed([1; 32]);
    let coefficients = random_scalars(3, &mut rng);
    let shares = crypto::toprf_shares(&coefficients, 6);
    assert_eq!(shares.iter().map(|(id, _)| *id).collect::<Vec<_>>(), vec![1, 2, 3, 4, 5, 6]);
    for ids in [[1u32, 2, 3], [6, 1, 4], [5, 4, 2]] {
        let lambdas = lagrange_coeffs_at_zero(&ids);
        let mut sum = Scalar::ZERO;
        for (id, lambda) in ids.iter().zip(&lambdas) {
            sum += scalar(&shares[*id as usize - 1].1) * scalar(lambda);
        }
        assert_eq!(sum.to_bytes(), coefficients[0]);
    }
}

#[test]
fn points_are_combined() {
    let p = uniform(b"p");
    let q = uniform(b"q");
    let points = [p.compress().to_bytes(), q.compress().to_bytes()];
    let combined = combine_points(&points, &[bytes(3), bytes(5)]).unwrap();
    let expected = p * Scalar::from(3u64) + q * Scalar::from(5u64);
    assert_eq!(combined, expected.compress().to_bytes());
    assert_eq!(combine_points(&[points[0], [255; 32]], &[bytes(3), bytes(5)]), None);
}

#[test]
fn blinded_evaluation_gives_the_password_key() {
    let mut rng = Rng::from_seed([4; 32]);
    let coefficients = random_scalars(2, &mut rng);
    let shares = crypto::toprf_shares(&coefficients, 3);
    let r = random_scalar(&mut rng);
    let blinded = point(&crypto::blind(b"pwd", &r));
    assert_eq!(blinded, point(&crypto::hash_to_point(b"pwd")) * scalar(&r));
    let ids = [3u32, 1];
    let points: Vec<_> = ids
        .iter()
        .map(|id| {
            (blinded * scalar(&shares[*id as usize - 1].1)).compress().to_bytes()
        })
        .collect();
    let lambdas = lagrange_coeffs_at_zero(&ids);
    let key = crypto::toprf_client_eval_from_partials(b"pwd", &r, &points, &lambdas).unwrap();
    assert_eq!(key, crypto::evaluate_password(b"pwd", &coefficients[0]));
    let element = point(&crypto::hash_to_point(b"pwd")) * scalar(&coefficients[0]);
    assert_eq!(key, crypto::oprf_finalize(b"pwd", &element.compress().to_bytes()));
    let bad = [points[0], [255; 32]];
    assert!(crypto::toprf_client_eval_from_partials(b"pwd", &r, &bad, &lambdas).is_none());
}

#[test]
fn ciphertexts_are_those_of_the_cipher() {
    let plaintext = [3u8; ACCOUNT_LEN];
    let blob = crypto::xchacha_encrypt_with_nonce(&[1; 32], &[2; 24], b"aad", &plaintext);
    let mut buffer = plaintext;
    let tag = XChaCha20Poly1305::new((&[1; 32]).into())
        .encrypt_in_place_detached((&[2; 24]).into(), b"aad", &mut buffer)
        .unwrap();
    let mut expected = vec![2; 24];
    expected.extend_from_slice(&buffer);
    expected.extend_from_slice(&tag);
    assert_eq!(blob.encode(), expected);
    let decoded = decode_blob::<ACCOUNT_LEN>(&expected).unwrap();
    assert_eq!(
        crypto::xchacha_decrypt_detached(&[1; 32], b"aad", &decoded),
        Ok(plaintext)
    );
    expected[30] ^= 1;
    let changed = decode_blob::<ACCOUNT_LEN>(&expected).unwrap();
    assert_eq!(
        crypto::xchacha_decrypt_detached(&[1; 32], b"aad", &changed),
        Err("decryption failed".to_string())
    );
    assert_eq!(
        decode_blob::<ROOT_LEN>(&expected).unwrap_err(),
        "invalid ciphertext length"
    );
    assert_eq!(decode_blob::<0>(&[]).unwrap_err(), "invalid ciphertext length");
    assert!(decode_blob::<0>(&[1; 40]).is_ok());
}

#[test]
fn randomness_is_the_generators_stream() {
    let mut rng = Rng::from_seed([6; 32]);
    let mut same = ChaCha20Rng::from_seed([6; 32]);
    for _ in 0..40 {
        let mut expected = [0; 16];
        same.fill_bytes(&mut expected);
        assert_eq!(rand_bytes::<16>(&mut rng), expected);
        let mut expected = [0; 5];
        same.fill_bytes(&mut expected);
        assert_eq!(rand_bytes::<5>(&mut rng), expected);
        let mut wide = [0; 64];
        same.fill_bytes(&mut wide);
        assert_eq!(
            random_scalar(&mut rng),
            Scalar::from_bytes_mod_order_wide(&wide).to_bytes()
        );
        assert_eq!(rng.position, same.get_word_pos());
    }
    let scalars = random_scalars(3, &mut rng);
    for scalar in scalars {
        let mut wide = [0; 64];
        same.fill_bytes(&mut wide);
        assert_eq!(scalar, Scalar::from_bytes_mod_order_wide(&wide).to_bytes());
    }
}

#[test]
fn nonces_are_drawn() {
    let mut rng = Rng::from_seed([7; 32]);
    let mut same = ChaCha20Rng::from_seed([7; 32]);
    let mut nonce = [0; 24];
    same.fill_bytes(&mut nonce);
    let blob = crypto::xchacha_encrypt_detached(&[1; 32], b"", &[5; 4], &mut rng);
    assert_eq!(blob.nonce, nonce);
    assert_eq!(rng.position, 6);
}

#[test]
fn roots_open_to_what_was_sealed() {
    let prf_key = bytes(21);
    let cid = seal_root(b"pwd", &prf_key, &[4; 24], &[1; 32], &[2; 32], &[3; 32]);
    let key = crypto::evaluate_password(b"pwd", &prf_key);
    let state = open_root(&key, &cid, 17).unwrap();
    assert_eq!(
        state,
        IdentifiedState { ssk: [1; 32], rsp: [2; 32], k0: [3; 32], timestamp: 17 }
    );
    assert_eq!(open_root(&[0; 32], &cid, 17), Err("root decryption failed".to_string()));
    assert_eq!(open_root(&key, &cid[1..], 17), Err("invalid ciphertext length".to_string()));
}

fn setup_randomness(t: usize) -> SetupRandomness {
    let mut rng = Rng::from_seed([9; 32]);
    SetupRandomness {
        sid: [1; 16],
        rsp: [2; 32],
        coeffs: random_scalars(t, &mut rng),
        ssk: [3; 32],
        k0: [4; 32],
        nonce: [5; 24],
    }
}

fn setup_roots(n: usize, random: &SetupRandomness) -> Vec<Root> {
    setup_requests(n, b"alice", b"pwd", random)
        .into_iter()
        .enumerate()
        .map(|(i, (target, request))| {
            assert_eq!(target, Target::Provider(i as u32 + 1));
            match request {
                Request::Up(UpRequest::Setup { sid, root }) => {
                    assert_eq!(sid, [1; 16]);
                    root
                }
                _ => panic!("not a setup"),
            }
        })
        .collect()
}

#[test]
fn setup_then_identification_returns_the_keys() {
    let random = setup_randomness(2);
    let roots = setup_roots(4, &random);
    let r = bytes(1234);
    let blinded = point(&crypto::blind(b"pwd", &r));
    let replies: Vec<_> = [4usize, 2, 1]
        .iter()
        .map(|id| {
            let root = &roots[id - 1];
            (
                *id as u32,
                Reply::Identification {
                    cid: root.cid.clone(),
                    timestamp: root.timestamp,
                    contribution: (blinded * scalar(&root.share)).compress().to_bytes(),
                },
            )
        })
        .collect();
    let expected = IdentifiedState { ssk: [3; 32], rsp: [2; 32], k0: [4; 32], timestamp: 0 };
    assert_eq!(identify(b"pwd", &r, 2, &replies), Ok(expected));
    assert_eq!(
        identify(b"wrong", &r, 2, &replies),
        Err("root decryption failed".to_string())
    );
    assert_eq!(
        identify(b"pwd", &r, 2, &[(1, Reply::Ack(true))]),
        Err("invalid root response".to_string())
    );
    let mut broken = replies.clone();
    broken[1].1 = Reply::Account(vec![]);
    assert_eq!(
        identify(b"pwd", &r, 2, &broken),
        Err("invalid root response".to_string())
    );
    if let Reply::Identification { contribution, .. } = &mut broken[0].1 {
        *contribution = [255; 32];
    }
    assert_eq!(identify(b"pwd", &r, 2, &broken), Err("invalid point".to_string()));
    assert_eq!(
        roots[0].svk,
        ed25519_dalek::SigningKey::from_bytes(&[3; 32]).verifying_key().to_bytes()
    );
}

fn state() -> IdentifiedState {
    IdentifiedState { ssk: [3; 32], rsp: [2; 32], k0: [4; 32], timestamp: 8 }
}

fn names() -> AccountNames {
    AccountNames {
        uid: b"alice".to_vec(),
        ls: b"LS1".to_vec(),
        login_uid: b"stable".to_vec(),
    }
}

fn account_randomness() -> AccountRandomness {
    AccountRandomness { sid: [7; 16], secret: [8; 32], nonce: [9; 24] }
}

#[test]
fn written_account_is_recovered() {
    let plan = plan_account_write(2, &names(), &state(), &None, 0, &account_randomness());
    assert_eq!(plan.phase, Phase::Registration);
    assert_eq!(plan.records.len(), 2);
    let verifier = crypto::hash_vinfo(&[8; 32], b"LS1");
    assert!(matches!(
        &plan.ls_request,
        LsRequest::Register { uid, verifier: v } if uid == b"stable" && *v == verifier
    ));
    let ciphertext = match &plan.requests[1] {
        (Target::Provider(2), Request::Up(UpRequest::PrepareAccount { binding, ciphertext, expected })) => {
            assert_eq!(binding.sid, [7; 16]);
            assert_eq!(
                binding.record,
                RecordId::Account(crypto::hash_upspa_suid(&[2; 32], b"LS1", 2))
            );
            assert_eq!(*expected, None);
            ciphertext.clone()
        }
        _ => panic!("not a preparation"),
    };
    let replies = [(1, Reply::Account(ciphertext.clone()))];
    let account = recover_account(&[4; 32], b"alice", b"LS1", &replies).unwrap();
    assert_eq!(account.secret, [8; 32]);
    assert_eq!(account.counter, 0);
    assert_eq!(account.ciphertext, ciphertext);
    assert_eq!(
        recover_account(&[4; 32], b"bob", b"LS1", &replies).err(),
        Some("account decryption failed".to_string())
    );
    assert_eq!(
        recover_account(&[4; 32], b"alice", b"LS1", &[(1, Reply::Ack(true))]).err(),
        Some("invalid account response".to_string())
    );
    assert_eq!(
        recover_account(&[4; 32], b"alice", b"LS1", &[(1, Reply::Account(vec![1]))]).err(),
        Some("invalid ciphertext length".to_string())
    );
    let probe = probe_request(&plan.ls_request);
    assert!(matches!(
        probe,
        Request::Ls(LsRequest::Authenticate { uid, verifier: v }) if uid == b"stable" && v == verifier
    ));
    let finals = finals(plan.sid, plan.phase, &plan.records, true);
    assert_eq!(finals[0].0, Target::Provider(1));
    assert!(matches!(
        &finals[1].1,
        Request::Up(UpRequest::Finalize { binding, store: true }) if binding.record == plan.records[1]
    ));
}

#[test]
fn renewed_account_counts_up_and_expects_the_old_ciphertext() {
    let previous = Some(Account { secret: [6; 32], counter: 41, ciphertext: vec![5; 80] });
    assert_eq!(counter_after(&previous), Ok(42));
    assert_eq!(counter_after(&None), Ok(0));
    let last = Some(Account { secret: [6; 32], counter: u64::MAX, ciphertext: vec![] });
    assert_eq!(counter_after(&last), Err("counter overflow".to_string()));
    let plan = plan_account_write(1, &names(), &state(), &previous, 42, &account_randomness());
    assert_eq!(plan.phase, Phase::SecretUpdate);
    assert!(matches!(
        &plan.ls_request,
        LsRequest::ChangeCredential { old, new, .. }
            if *old == crypto::hash_vinfo(&[6; 32], b"LS1")
                && *new == crypto::hash_vinfo(&[8; 32], b"LS1")
    ));
    match &plan.requests[0].1 {
        Request::Up(UpRequest::PrepareAccount { ciphertext, expected, .. }) => {
            assert_eq!(*expected, Some(vec![5; 80]));
            let replies = [(1, Reply::Account(ciphertext.clone()))];
            let account = recover_account(&[4; 32], b"alice", b"LS1", &replies).unwrap();
            assert_eq!(account.counter, 42);
        }
        _ => panic!("not a preparation"),
    }
}

#[test]
fn timestamps_move_forward() {
    assert_eq!(timestamp_after(5, 3), Ok(6));
    assert_eq!(timestamp_after(5, 6), Ok(6));
    assert_eq!(timestamp_after(5, 100), Ok(100));
    assert_eq!(timestamp_after(u64::MAX, 0), Err("timestamp overflow".to_string()));
}

#[test]
fn password_update_is_signed_and_keeps_the_keys() {
    let mut rng = Rng::from_seed([12; 32]);
    let random = UpdateRandomness {
        sid: [6; 16],
        coeffs: random_scalars(1, &mut rng),
        nonce: [1; 24],
    };
    let requests = update_requests(2, b"alice", b"new", &state(), 50, &random);
    let key = ed25519_dalek::SigningKey::from_bytes(&[3; 32]).verifying_key();
    for (i, (target, request)) in requests.into_iter().enumerate() {
        assert_eq!(target, Target::Provider(i as u32 + 1));
        let update: PasswordUpdate = match request {
            Request::Up(UpRequest::PasswordUpdate(update)) => update,
            _ => panic!("not an update"),
        };
        assert_eq!(update.operation, "PwdUpdate");
        assert_eq!(update.provider_id, i as u32 + 1);
        assert_eq!((update.timestamp_old, update.timestamp_new), (8, 50));
        assert_eq!(update.share_new, random.coeffs[0]);
        let signature = ed25519_dalek::Signature::from_slice(&update.signature).unwrap();
        assert!(key.verify_strict(&update.signed_bytes(), &signature).is_ok());
        let expected = bincode::serialize(&(
            &update.operation,
            update.sid,
            &update.uid,
            update.provider_id,
            update.timestamp_old,
            update.timestamp_new,
            &update.cid_new,
            update.share_new,
        ))
        .unwrap();
        assert_eq!(update.signed_bytes(), expected);
        let key = crypto::evaluate_password(b"new", &random.coeffs[0]);
        let opened = open_root(&key, &update.cid_new, 50).unwrap();
        assert_eq!(opened, IdentifiedState { timestamp: 50, ..state() });
    }
}

#[test]
fn only_positive_acknowledgements_pass() {
    assert_eq!(require_ack(Reply::Ack(true)), Ok(()));
    assert_eq!(require_ack(Reply::Ack(false)), Err("operation rejected".to_string()));
    assert_eq!(require_ack(Reply::Account(vec![])), Err("operation rejected".to_string()));
    assert_ne!(Requirement::Threshold, Requirement::AllProviders);
}
