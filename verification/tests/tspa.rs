use aes::Aes256;
use ctr::cipher::{KeyIvInit, StreamCipher};
use ctr::Ctr128BE;
use curve25519_dalek::ristretto::{CompressedRistretto, RistrettoPoint};
use curve25519_dalek::scalar::Scalar;
use tspa::crypto_tspa as crypto;
use tspa::messages::{Reply, TspaRequest};
use tspa::random::{rand_bytes, random_scalars, Rng};
use tspa::sp::TspaProvider;
use tspa::tspa_adapter;
use tspa::tspa_client::sort_by_provider;

const UID: &[u8] = b"user123";
const LS: &[u8] = b"LS1";
const PASSWORD: &[u8] = b"correct horse";

fn one() -> [u8; 32] {
    Scalar::ONE.to_bytes()
}

fn scalar(bytes: &[u8; 32]) -> Scalar {
    Scalar::from_canonical_bytes(*bytes).unwrap()
}

fn point(bytes: &[u8; 32]) -> RistrettoPoint {
    CompressedRistretto(*bytes).decompress().unwrap()
}

fn reference_ciphertext(coeffs: &[[u8; 32]], key: &[u8; 32], iv: &[u8; 16], id: u64) -> [u8; 48] {
    let element = point(&crypto::hash_to_point(PASSWORD)) * scalar(key);
    let encryption = crypto::oprf_finalize(PASSWORD, &element.compress().to_bytes());
    let x = Scalar::from(id);
    let mut share = Scalar::ZERO;
    let mut power = Scalar::ONE;
    for coefficient in coeffs {
        share += scalar(coefficient) * power;
        power *= x;
    }
    let mut block = share.to_bytes();
    Ctr128BE::<Aes256>::new((&encryption).into(), iv.into()).apply_keystream(&mut block);
    let mut ciphertext = [0; 48];
    ciphertext[..16].copy_from_slice(iv);
    ciphertext[16..].copy_from_slice(&block);
    ciphertext
}

struct Randomness {
    coeffs: Vec<[u8; 32]>,
    keys: Vec<[u8; 32]>,
    ivs: Vec<[u8; 16]>,
}

fn randomness(n: usize, t: usize, seed: u8) -> Randomness {
    let mut rng = Rng::from_seed([seed; 32]);
    let coeffs = random_scalars(t, &mut rng);
    let keys = random_scalars(n, &mut rng);
    let ivs = (0..n).map(|_| rand_bytes(&mut rng)).collect();
    Randomness { coeffs, keys, ivs }
}

#[test]
fn registration_preserves_original_stored_values_and_output() {
    for (n, t) in [(3, 2), (6, 6), (10, 4)] {
        let random = randomness(n, t, 1);
        let data = tspa_adapter::registration_from_randomness(
            UID,
            LS,
            PASSWORD,
            &random.coeffs,
            &random.keys,
            &random.ivs,
        );
        let mut accumulator = blake3::Hasher::new();
        let mut expected = blake3::Hasher::new();
        accumulator.update(b"tspa/registration/acc/v1");
        expected.update(b"tspa/registration/acc/v1");
        accumulator.update(&data.stor_uid);
        expected.update(&crypto::hash_storuid(UID, LS));
        accumulator.update(&data.verifier);
        expected.update(&crypto::hash_vinfo(&random.coeffs[0], LS));
        assert_eq!(data.ciphertexts.len(), n);
        for (i, ciphertext) in data.ciphertexts.iter().enumerate() {
            accumulator.update(ciphertext);
            expected.update(&reference_ciphertext(
                &random.coeffs,
                &random.keys[i],
                &random.ivs[i],
                i as u64 + 1,
            ));
            let mut provider = TspaProvider::new(i as u32 + 1, one());
            tspa_adapter::handle(
                &mut provider,
                TspaRequest::Register {
                    stor_uid: data.stor_uid,
                    key: data.keys[i],
                    ciphertext: ciphertext.to_vec(),
                },
            )
            .unwrap();
            assert_eq!(provider.get_record(&data.stor_uid), Some(*ciphertext));
            assert_eq!(provider.oprf_key, random.keys[i]);
        }
        assert_eq!(accumulator.finalize(), expected.finalize());
    }
}

#[test]
fn authentication_preserves_original_secret_verifier_and_output() {
    let random = randomness(6, 3, 3);
    let data = tspa_adapter::registration_from_randomness(
        UID,
        LS,
        PASSWORD,
        &random.coeffs,
        &random.keys,
        &random.ivs,
    );
    let r = Scalar::from(12345u64);
    let blinded = point(&crypto::hash_to_point(PASSWORD)) * r;
    let replies: Vec<_> = (0..3)
        .map(|i| {
            (
                i as u32 + 1,
                Reply::TspaAuthentication {
                    contribution: (blinded * scalar(&random.keys[i])).compress().to_bytes(),
                    ciphertext: data.ciphertexts[i].to_vec(),
                },
            )
        })
        .collect();
    let (secret, verifier) =
        tspa_adapter::reconstruct(PASSWORD, LS, &r.to_bytes(), &replies).unwrap();
    assert_eq!(verifier, data.verifier);
    let mut accumulator = blake3::Hasher::new();
    let mut expected = blake3::Hasher::new();
    accumulator.update(b"tspa/auth/acc/v1");
    expected.update(b"tspa/auth/acc/v1");
    accumulator.update(&crypto::hash_storuid(UID, LS));
    expected.update(&data.stor_uid);
    accumulator.update(&secret);
    expected.update(&random.coeffs[0]);
    accumulator.update(&verifier);
    expected.update(&crypto::hash_vinfo(&random.coeffs[0], LS));
    accumulator.update(&[1]);
    expected.update(&[1]);
    assert_eq!(accumulator.finalize(), expected.finalize());
}

#[test]
fn provider_oprf_response_matches_original() {
    let mut provider = TspaProvider::new(1, Scalar::from(7u64).to_bytes());
    provider.put_record([2; 32], [3; 48]);
    let blinded =
        (point(&crypto::hash_to_point(b"pwd")) * Scalar::from(9u64)).compress().to_bytes();
    let expected = provider.oprf_send_eval(&blinded);
    let response = tspa_adapter::handle(
        &mut provider,
        TspaRequest::Authenticate { stor_uid: [2; 32], blinded },
    )
    .unwrap();
    assert_eq!(
        response,
        Reply::TspaAuthentication { contribution: expected, ciphertext: vec![3; 48] }
    );
    assert_eq!(
        expected,
        (point(&crypto::hash_to_point(b"pwd")) * Scalar::from(63u64)).compress().to_bytes()
    );
}

#[test]
fn key_stream_is_its_own_inverse() {
    let key = [5; 32];
    let iv = [255; 16];
    let block = [9; 32];
    let encrypted = crypto::aes256ctr_xor_32(&key, &iv, &block);
    let mut expected = block;
    Ctr128BE::<Aes256>::new((&key).into(), (&iv).into()).apply_keystream(&mut expected);
    assert_eq!(encrypted, expected);
    assert_ne!(encrypted, block);
    assert_eq!(crypto::aes256ctr_xor_32(&key, &iv, &encrypted), block);
}

#[test]
fn tspa_hashes_are_separate() {
    let address = crypto::hash_storuid(b"a", b"b");
    let verifier = crypto::hash_vinfo(&[1; 32], b"b");
    assert_eq!(address, *blake3::hash(b"tspa/storuid/v1ab").as_bytes());
    let mut data = b"tspa/vinfo/v1".to_vec();
    data.extend_from_slice(&[1; 32]);
    data.push(b'b');
    assert_eq!(verifier, *blake3::hash(&data).as_bytes());
    assert_ne!(crypto::hash_to_point(b"x"), tspa::crypto::hash_to_point(b"x"));
}

#[test]
fn provider_errors_name_the_reason() {
    let mut provider = TspaProvider::new(1, one());
    let register = |key, length: usize| TspaRequest::Register {
        stor_uid: [3; 32],
        key,
        ciphertext: vec![4; length],
    };
    assert_eq!(
        tspa_adapter::handle(&mut provider, register(one(), 47)),
        Err("invalid TSPA ciphertext length".to_string())
    );
    assert_eq!(
        tspa_adapter::handle(&mut provider, register([255; 32], 48)),
        Err("invalid TSPA key".to_string())
    );
    let blinded = crypto::hash_to_point(b"pwd");
    assert_eq!(
        tspa_adapter::handle(
            &mut provider,
            TspaRequest::Authenticate { stor_uid: [3; 32], blinded }
        ),
        Err("unknown TSPA record".to_string())
    );
    assert_eq!(
        tspa_adapter::handle(
            &mut provider,
            TspaRequest::Authenticate { stor_uid: [3; 32], blinded: [255; 32] }
        ),
        Err("invalid TSPA point".to_string())
    );
    assert_eq!(provider.oprf_key, one());
    assert!(provider.record_db.is_empty());
}

#[test]
fn reconstruction_errors_name_the_reason() {
    let r = one();
    let contribution = crypto::hash_to_point(b"pwd");
    let reply = |contribution, length: usize| Reply::TspaAuthentication {
        contribution,
        ciphertext: vec![1; length],
    };
    let cases = [
        ("unexpected TSPA response", Reply::Ack(true)),
        ("invalid TSPA point", reply([255; 32], 3)),
        ("invalid TSPA ciphertext length", reply(contribution, 3)),
    ];
    for (reason, bad) in cases {
        let replies = vec![(1, reply(contribution, 48)), (2, bad)];
        assert_eq!(
            tspa_adapter::reconstruct(PASSWORD, LS, &r, &replies),
            Err(reason.to_string())
        );
    }
}

#[test]
fn drawn_registration_reconstructs() {
    let mut rng = Rng::from_seed([8; 32]);
    let data = tspa_adapter::registration(UID, LS, PASSWORD, 5, 3, &mut rng);
    let r = Scalar::from(77u64);
    let blinded = point(&crypto::hash_to_point(PASSWORD)) * r;
    let replies: Vec<_> = [4u32, 0, 2]
        .iter()
        .map(|i| {
            let i = *i as usize;
            let contribution = (blinded * scalar(&data.keys[i])).compress().to_bytes();
            let ciphertext = data.ciphertexts[i].to_vec();
            (i as u32 + 1, Reply::TspaAuthentication { contribution, ciphertext })
        })
        .collect();
    let sorted = sort_by_provider(replies.clone());
    assert_eq!(sorted.iter().map(|(id, _)| *id).collect::<Vec<_>>(), vec![1, 3, 5]);
    let (_, verifier) =
        tspa_adapter::reconstruct(PASSWORD, LS, &r.to_bytes(), &sorted).unwrap();
    assert_eq!(verifier, data.verifier);
    let (_, unsorted) =
        tspa_adapter::reconstruct(PASSWORD, LS, &r.to_bytes(), &replies).unwrap();
    assert_eq!(unsorted, data.verifier);
    let (_, wrong) =
        tspa_adapter::reconstruct(b"wrong", LS, &r.to_bytes(), &replies).unwrap();
    assert_ne!(wrong, data.verifier);
}
