//! What a client of UpSPA sends and how it reads the replies: roots, identification,
//! account writes and password updates, from given randomness.

use vstd::prelude::*;


use crate::agreement::{provider_ids, votes, Vote};
use crate::bytes::{append_bytes, copy_bytes, slice_of, to_array};
use crate::crypto::{
    evaluate_password, finalized, is_blob, law_shares_recover_the_key, opened, partials_of,
    password_key, password_point, sealed_blob, share_value, toprf_client_eval_from_partials,
    toprf_shares, xchacha_decrypt_detached, xchacha_encrypt_with_nonce,
};
use crate::group::{
    all_decode, combination, decode_point, encodings, point_decodes, point_mul, products,
};
use crate::interpolation::{inverse, lemma_residue, order, separated, total};
use crate::messages::{
    decode_blob, message, Key, ROOT_LEN, Reply, ReplyModel, Request, RequestModel, Result, Root,
    RootModel, Sid, UpRequest, UpRequestModel,
};
use crate::provider_laws::usable_root;
use crate::scalar::{
    id_values, id_weights, is_canonical, lagrange_coeffs_at_zero, le_value, lemma_canonical_residue,
    lemma_le_bytes, scalar_bytes, scalar_value, scalar_values,
};
use crate::signature::{ed25519_key_valid, ed25519_public, verification_key};
use crate::stage::sent;
use crate::transport::Target;

verus! {

/// What an identified user holds: signing key, address secret, account key and the
/// timestamp of the root.
#[derive(Clone, Copy, Debug, PartialEq, Eq)]
pub struct IdentifiedState {
    pub ssk: Key,
    pub rsp: Key,
    pub k0: Key,
    pub timestamp: u64,
}

/// Model of [`IdentifiedState`].
pub struct StateModel {
    pub ssk: Seq<u8>,
    pub rsp: Seq<u8>,
    pub k0: Seq<u8>,
    pub timestamp: u64,
}

impl View for IdentifiedState {
    type V = StateModel;

    open spec fn view(&self) -> StateModel {
        StateModel {
            ssk: self.ssk@,
            rsp: self.rsp@,
            k0: self.k0@,
            timestamp: self.timestamp,
        }
    }
}

/// The plaintext of a root: signing key, address secret and account key.
pub open spec fn root_plaintext(ssk: Seq<u8>, rsp: Seq<u8>, k0: Seq<u8>) -> Seq<u8> {
    ssk + rsp + k0
}

/// Encrypts a root under the key that the password gives with a PRF key. What is
/// encrypted can be decrypted.
pub fn seal_root(
    password: &[u8],
    prf_key: &Key,
    nonce: &[u8; 24],
    ssk: &Key,
    rsp: &Key,
    k0: &Key,
) -> (cid: Vec<u8>)
    ensures
        cid@ == sealed_blob(
            password_key(password@, scalar_value(prf_key@)),
            nonce@,
            Seq::empty(),
            root_plaintext(ssk@, rsp@, k0@),
        ),
        is_blob(cid@, ROOT_LEN as int),
        opened(password_key(password@, scalar_value(prf_key@)), Seq::empty(), cid@) == Some(
            root_plaintext(ssk@, rsp@, k0@),
        ),
{
    let mut joined = copy_bytes(ssk.as_slice());
    append_bytes(&mut joined, rsp.as_slice());
    append_bytes(&mut joined, k0.as_slice());
    let plaintext: [u8; ROOT_LEN] = to_array(joined.as_slice());
    let key = evaluate_password(password, prf_key);
    let no_data: [u8; 0] = [];
    assert(no_data@ =~= Seq::<u8>::empty());
    xchacha_encrypt_with_nonce(&key, nonce, no_data.as_slice(), &plaintext).encode()
}

/// The randomness of a setup: session, address secret, polynomial, signing key, account
/// key and nonce.
pub struct SetupRandomness {
    pub sid: Sid,
    pub rsp: Key,
    pub coeffs: Vec<Key>,
    pub ssk: Key,
    pub k0: Key,
    pub nonce: [u8; 24],
}

/// Model of [`SetupRandomness`].
pub struct SetupDraw {
    pub sid: Seq<u8>,
    pub rsp: Seq<u8>,
    pub coeffs: Seq<int>,
    pub ssk: Seq<u8>,
    pub k0: Seq<u8>,
    pub nonce: Seq<u8>,
}

impl View for SetupRandomness {
    type V = SetupDraw;

    open spec fn view(&self) -> SetupDraw {
        SetupDraw {
            sid: self.sid@,
            rsp: self.rsp@,
            coeffs: scalar_values(self.coeffs@),
            ssk: self.ssk@,
            k0: self.k0@,
            nonce: self.nonce@,
        }
    }
}

/// The root that a setup stores at a provider.
pub open spec fn setup_root(
    uid: Seq<u8>,
    password: Seq<u8>,
    draw: SetupDraw,
    id: int,
) -> RootModel {
    RootModel {
        uid,
        svk: ed25519_public(draw.ssk),
        cid: sealed_blob(
            password_key(password, draw.coeffs[0]),
            draw.nonce,
            Seq::empty(),
            root_plaintext(draw.ssk, draw.rsp, draw.k0),
        ),
        share: scalar_bytes(share_value(draw.coeffs, id)),
        timestamp: 0,
    }
}

/// The requests of a setup: each provider gets the root with its share.
pub open spec fn setup_messages(n: int, uid: Seq<u8>, password: Seq<u8>, draw: SetupDraw) -> Seq<
    (Target, RequestModel),
> {
    Seq::new(
        n as nat,
        |i: int|
            (
                Target::Provider((i + 1) as u32),
                RequestModel::Up(
                    UpRequestModel::Setup {
                        sid: draw.sid,
                        root: setup_root(uid, password, draw, i + 1),
                    },
                ),
            ),
    )
}

/// The ciphertext of a root opens under the password's key to the user's state.
pub open spec fn root_opens(
    cid: Seq<u8>,
    password: Seq<u8>,
    prf_key: int,
    state: StateModel,
) -> bool {
    &&& is_blob(cid, ROOT_LEN as int)
    &&& opened(password_key(password, prf_key), Seq::empty(), cid) == Some(
        root_plaintext(state.ssk, state.rsp, state.k0),
    )
    &&& state.ssk.len() == 32 && state.rsp.len() == 32 && state.k0.len() == 32
}

/// The requests of a setup. Every root is one that a provider can serve, and its
/// ciphertext opens to the drawn keys.
pub fn setup_requests(
    n: usize,
    uid: &[u8],
    password: &[u8],
    random: &SetupRandomness,
) -> (requests: Vec<
    (Target, Request),
>)
    requires
        n <= u32::MAX,
        random.coeffs@.len() >= 1,
    ensures
        sent(requests@) == setup_messages(n as int, uid@, password@, random@),
        forall|i: int|
            #![trigger setup_root(uid@, password@, random@, i)]
            1 <= i <= n ==> usable_root(setup_root(uid@, password@, random@, i)) && root_opens(
                setup_root(uid@, password@, random@, i).cid,
                password@,
                random@.coeffs[0],
                (StateModel { ssk: random@.ssk, rsp: random@.rsp, k0: random@.k0, timestamp: 0 }),
            ),
{
    let cid = seal_root(
        password,
        &random.coeffs[0],
        &random.nonce,
        &random.ssk,
        &random.rsp,
        &random.k0,
    );
    let svk = verification_key(&random.ssk);
    let shares = toprf_shares(random.coeffs.as_slice(), n);
    let mut requests: Vec<(Target, Request)> = Vec::new();
    let mut i: usize = 0;
    while i < n
        invariant
            i <= n <= u32::MAX,
            random.coeffs@.len() >= 1,
            shares@.len() == n,
            forall|k: int| 0 <= k < n ==> (#[trigger] shares@[k]).0 == k + 1,
            forall|k: int|
                0 <= k < n ==> is_canonical((#[trigger] shares@[k]).1@) && le_value(
                    shares@[k].1@,
                ) == share_value(random@.coeffs, k + 1),
            svk@ == ed25519_public(random@.ssk),
            ed25519_key_valid(svk@),
            is_blob(cid@, ROOT_LEN as int),
            cid@ == setup_root(uid@, password@, random@, 1).cid,
            requests@.len() == i,
            forall|k: int|
                #![trigger requests@[k]]
                0 <= k < i ==> (requests@[k].0, requests@[k].1@) == setup_messages(
                    n as int,
                    uid@,
                    password@,
                    random@,
                )[k],
            forall|k: int|
                #![trigger setup_root(uid@, password@, random@, k)]
                1 <= k <= i ==> usable_root(setup_root(uid@, password@, random@, k)),
        decreases n - i,
    {
        let (id, share) = shares[i];
        proof {
            lemma_le_bytes(share@);
            assert(share@ == scalar_bytes(share_value(random@.coeffs, i + 1)));
        }
        let root = Root {
            uid: copy_bytes(uid),
            svk,
            cid: copy_bytes(cid.as_slice()),
            share,
            timestamp: 0,
        };
        assert(root@ == setup_root(uid@, password@, random@, i + 1));
        requests.push(
            (Target::Provider(id), Request::Up(UpRequest::Setup { sid: random.sid, root })),
        );
        i += 1;
    }
    assert(sent(requests@) =~= setup_messages(n as int, uid@, password@, random@));
    requests
}

/// The requests of an identification: every provider gets the same.
pub open spec fn identify_messages(n: int, uid: Seq<u8>, blinded: Seq<u8>) -> Seq<
    (Target, RequestModel),
> {
    Seq::new(
        n as nat,
        |i: int|
            (
                Target::Provider((i + 1) as u32),
                RequestModel::Up(UpRequestModel::Identify { uid, blinded }),
            ),
    )
}

/// The requests of an identification.
pub fn identify_requests(n: usize, uid: &[u8], blinded: &Key) -> (requests: Vec<(Target, Request)>)
    requires
        n <= u32::MAX,
    ensures
        sent(requests@) == identify_messages(n as int, uid@, blinded@),
{
    let mut requests: Vec<(Target, Request)> = Vec::new();
    let mut i: usize = 0;
    while i < n
        invariant
            i <= n <= u32::MAX,
            requests@.len() == i,
            forall|k: int|
                #![trigger requests@[k]]
                0 <= k < i ==> (requests@[k].0, requests@[k].1@) == identify_messages(
                    n as int,
                    uid@,
                    blinded@,
                )[k],
        decreases n - i,
    {
        let id: u32 = (i + 1) as u32;
        let request = UpRequest::Identify { uid: copy_bytes(uid), blinded: *blinded };
        requests.push((Target::Provider(id), Request::Up(request)));
        i += 1;
    }
    assert(sent(requests@) =~= identify_messages(n as int, uid@, blinded@));
    requests
}

/// What reading a user's state can give.
pub type StateResult = std::result::Result<StateModel, Seq<char>>;

/// Model of what reading a user's state gave.
pub open spec fn state_result(result: Result<IdentifiedState>) -> StateResult {
    match result {
        Ok(state) => Ok(state@),
        Err(error) => Err(error@),
    }
}

/// The user's state in the ciphertext of a root.
pub open spec fn state_in_root(key: Seq<u8>, cid: Seq<u8>, timestamp: u64) -> StateResult {
    if !is_blob(cid, ROOT_LEN as int) {
        Err("invalid ciphertext length"@)
    } else {
        match opened(key, Seq::empty(), cid) {
            Some(plaintext) => Ok(
                StateModel {
                    ssk: plaintext.subrange(0, 32),
                    rsp: plaintext.subrange(32, 64),
                    k0: plaintext.subrange(64, 96),
                    timestamp,
                },
            ),
            None => Err("root decryption failed"@),
        }
    }
}

/// What was encrypted as a root is the state that is read from it.
pub proof fn law_sealed_root_is_read(
    cid: Seq<u8>,
    password: Seq<u8>,
    prf_key: int,
    state: StateModel,
)
    requires
        root_opens(cid, password, prf_key, state),
    ensures
        state_in_root(password_key(password, prf_key), cid, state.timestamp) == Ok::<
            StateModel,
            Seq<char>,
        >(state),
{
    let plaintext = root_plaintext(state.ssk, state.rsp, state.k0);
    assert(plaintext.subrange(0, 32) =~= state.ssk);
    assert(plaintext.subrange(32, 64) =~= state.rsp);
    assert(plaintext.subrange(64, 96) =~= state.k0);
}

/// Reads the user's state from the ciphertext of a root.
pub fn open_root(key: &Key, cid: &[u8], timestamp: u64) -> (result: Result<IdentifiedState>)
    ensures
        state_result(result) == state_in_root(key@, cid@, timestamp),
{
    let blob = match decode_blob::<ROOT_LEN>(cid) {
        Ok(blob) => blob,
        Err(error) => {
            return Err(error);
        },
    };
    let no_data: [u8; 0] = [];
    assert(no_data@ =~= Seq::<u8>::empty());
    match xchacha_decrypt_detached(key, no_data.as_slice(), &blob) {
        Ok(plaintext) => Ok(
            IdentifiedState {
                ssk: to_array(slice_of(plaintext.as_slice(), 0, 32)),
                rsp: to_array(slice_of(plaintext.as_slice(), 32, 64)),
                k0: to_array(slice_of(plaintext.as_slice(), 64, 96)),
                timestamp,
            },
        ),
        Err(_) => Err(message("root decryption failed")),
    }
}

/// The replies that the key is computed from: the first ones, up to the threshold.
pub open spec fn used_replies(accepted: Seq<Vote>, threshold: int) -> Seq<Vote> {
    if accepted.len() <= threshold {
        accepted
    } else {
        accepted.take(threshold)
    }
}

/// What is wrong with a reply to an identification.
pub open spec fn root_fault(reply: ReplyModel) -> Option<Seq<char>> {
    match reply {
        ReplyModel::Identification { contribution, .. } => if point_decodes(contribution) {
            None
        } else {
            Some("invalid point"@)
        },
        _ => Some("invalid root response"@),
    }
}

/// The first fault among the replies to an identification.
pub open spec fn first_root_fault(replies: Seq<Vote>) -> Option<Seq<char>>
    decreases replies.len(),
{
    if replies.len() == 0 {
        None
    } else {
        match first_root_fault(replies.drop_last()) {
            Some(fault) => Some(fault),
            None => root_fault(replies.last().1),
        }
    }
}

/// The contributions of the replies.
pub open spec fn contributions(replies: Seq<Vote>) -> Seq<Seq<u8>> {
    Seq::new(replies.len(), |i: int| replies[i].1->Identification_contribution)
}

/// The key that replies to a password blinded by `r` give.
pub open spec fn evaluated_key(password: Seq<u8>, r: int, used: Seq<Vote>) -> Seq<u8> {
    finalized(
        password,
        point_mul(
            combination(contributions(used), id_weights(provider_ids(used))),
            inverse(r) % order(),
        ),
    )
}

/// What an identification ends with, given the replies that were agreed on.
pub open spec fn identified(
    password: Seq<u8>,
    r: int,
    threshold: int,
    accepted: Seq<Vote>,
) -> StateResult {
    let used = used_replies(accepted, threshold);
    match first_root_fault(used) {
        Some(fault) => Err(fault),
        None => state_in_root(
            evaluated_key(password, r, used),
            accepted[0].1->cid,
            accepted[0].1->timestamp,
        ),
    }
}

/// Replies of distinct providers, each with its share of one polynomial, to the
/// password's group element blinded by `r`.
pub open spec fn honest_contributions(
    used: Seq<Vote>,
    password: Seq<u8>,
    r: int,
    coefficients: Seq<int>,
) -> bool {
    &&& provider_ids(used).no_duplicates()
    &&& point_decodes(password_point(password))
    &&& forall|i: int|
        #![trigger used[i]]
        0 <= i < used.len() ==> (used[i].1 matches ReplyModel::Identification { contribution, .. }
            && point_decodes(contribution) && contribution == point_mul(
            password_point(password),
            (r * share_value(coefficients, used[i].0 as int)) % order(),
        ))
}

proof fn lemma_root_faults(replies: Seq<Vote>, i: int)
    requires
        0 <= i < replies.len(),
    ensures
        first_root_fault(replies) is None ==> root_fault(replies[i].1) is None,
    decreases replies.len(),
{
    if i < replies.len() - 1 {
        lemma_root_faults(replies.drop_last(), i);
        assert(replies.drop_last()[i] == replies[i]);
    }
}

proof fn lemma_fault_is_first(replies: Seq<Vote>, k: int)
    requires
        0 <= k <= replies.len(),
        first_root_fault(replies.take(k)) is Some,
    ensures
        first_root_fault(replies) == first_root_fault(replies.take(k)),
    decreases replies.len() - k,
{
    if k == replies.len() {
        assert(replies.take(k) =~= replies);
    } else {
        assert(replies.take(k + 1).drop_last() =~= replies.take(k));
        lemma_fault_is_first(replies, k + 1);
    }
}

/// Reads the user's state from the replies that were agreed on. Replies of enough honest
/// providers give the key that the root is encrypted under.
pub fn identify(
    password: &[u8],
    r: &Key,
    threshold: usize,
    accepted: &[(u32, Reply)],
) -> (result: Result<
    IdentifiedState,
>)
    requires
        threshold >= 1,
        accepted@.len() >= 1,
    ensures
        state_result(result) == identified(
            password@,
            scalar_value(r@),
            threshold as int,
            votes(accepted@),
        ),
        scalar_value(r@) != 0 ==> forall|coefficients: Seq<int>| #[trigger]
            honest_contributions(
                used_replies(votes(accepted@), threshold as int),
                password@,
                scalar_value(r@),
                coefficients,
            ) && 1 <= coefficients.len() <= used_replies(votes(accepted@), threshold as int).len()
                ==> state_result(result) == state_in_root(
                password_key(password@, coefficients[0] % order()),
                votes(accepted@)[0].1->cid,
                votes(accepted@)[0].1->timestamp,
            ),
{
    let ghost all = votes(accepted@);
    let ghost used = used_replies(all, threshold as int);
    let ghost rv = scalar_value(r@);
    let (cid, timestamp) = match &accepted[0].1 {
        Reply::Identification { cid, timestamp, .. } => (cid, *timestamp),
        _ => {
            proof {
                assert(used[0] == all[0]);
                let first = used.take(1);
                assert(first.drop_last() =~= Seq::<Vote>::empty());
                assert(first_root_fault(first.drop_last()) is None);
                assert(first.last() == all[0] && all[0].1 == accepted@[0].1@);
                lemma_fault_is_first(used, 1);
            }
            return Err(message("invalid root response"));
        },
    };
    let mut ids: Vec<u32> = Vec::new();
    let mut points: Vec<Key> = Vec::new();
    let mut i: usize = 0;
    while i < accepted.len() && i < threshold
        invariant
            all == votes(accepted@),
            used == used_replies(all, threshold as int),
            i <= used.len(),
            ids@ == provider_ids(used.take(i as int)),
            encodings(points@) == contributions(used.take(i as int)),
            points@.len() == i,
            first_root_fault(used.take(i as int)) is None,
            forall|k: int|
                #![trigger used[k]]
                0 <= k < i ==> root_fault(used[k].1) is None,
        decreases accepted.len() - i,
    {
        let ghost so_far = used.take(i as int);
        let ghost further = used.take(i + 1);
        proof {
            assert(further.drop_last() =~= so_far);
            assert(further.last() == used[i as int]);
            assert(used[i as int] == all[i as int]);
            assert(all[i as int].1 == accepted@[i as int].1@);
        }
        let contribution = match &accepted[i].1 {
            Reply::Identification { contribution, .. } => *contribution,
            _ => {
                proof {
                    lemma_fault_is_first(used, i + 1);
                    assert(!exists|coefficients: Seq<int>| #[trigger]
                        honest_contributions(used, password@, scalar_value(r@), coefficients));
                }
                return Err(message("invalid root response"));
            },
        };
        if !decode_point(&contribution) {
            proof {
                lemma_fault_is_first(used, i + 1);
                assert(!exists|coefficients: Seq<int>| #[trigger]
                    honest_contributions(used, password@, scalar_value(r@), coefficients));
            }
            return Err(message("invalid point"));
        }
        let ghost earlier = points@;
        ids.push(accepted[i].0);
        points.push(contribution);
        proof {
            assert(ids@ =~= provider_ids(further));
            assert forall|k: int| 0 <= k <= i implies encodings(points@)[k] == contributions(
                further,
            )[k] by {
                if k < i {
                    assert(encodings(earlier)[k] == contributions(so_far)[k]);
                    assert(so_far[k] == further[k]);
                }
            }
            assert(encodings(points@) =~= contributions(further));
        }
        i += 1;
    }
    assert(used.take(i as int) =~= used);
    let lambdas = lagrange_coeffs_at_zero(ids.as_slice());
    proof {
        assert forall|k: int| 0 <= k < lambdas@.len() implies scalar_values(lambdas@)[k]
            == id_weights(ids@)[k] by {
            lemma_canonical_residue(lambdas@[k]@);
        }
        assert(scalar_values(lambdas@) =~= id_weights(ids@));
        assert(all_decode(encodings(points@))) by {
            assert forall|k: int| 0 <= k < points@.len() implies point_decodes(
                #[trigger] encodings(points@)[k],
            ) by {
                assert(root_fault(used[k].1) is None);
            }
        }
        assert(used[0] == all[0]);
    }
    let key = match toprf_client_eval_from_partials(
        password,
        r,
        points.as_slice(),
        lambdas.as_slice(),
    ) {
        Some(key) => key,
        None => {
            assert(false);
            *r
        },
    };
    proof {
        if rv != 0 {
            assert forall|coefficients: Seq<int>| #[trigger]
                honest_contributions(used, password@, rv, coefficients) && 1 <= coefficients.len()
                    <= used.len() implies key@ == password_key(
                password@,
                coefficients[0] % order(),
            ) by {
                lemma_honest_key(used, password@, rv, coefficients, ids@, points@, lambdas@);
            }
        }
    }
    open_root(&key, cid.as_slice(), timestamp)
}

/// Honest contributions are the blinded group element times the shares, and the shares
/// sum up to the PRF key.
proof fn lemma_honest_key(
    used: Seq<Vote>,
    password: Seq<u8>,
    r: int,
    coefficients: Seq<int>,
    ids: Seq<u32>,
    points: Seq<Key>,
    lambdas: Seq<Key>,
)
    requires
        honest_contributions(used, password, r, coefficients),
        1 <= coefficients.len() <= used.len(),
        ids == provider_ids(used),
        encodings(points) == contributions(used),
        scalar_values(lambdas) == id_weights(ids),
        ids.no_duplicates() ==> separated(id_values(ids)),
    ensures
        ({
            let shares = Seq::new(used.len(), |i: int| share_value(coefficients, ids[i] as int));
            &&& partials_of(encodings(points), password, r, shares)
            &&& total(products(shares, scalar_values(lambdas))) % order() == coefficients[0]
                % order()
        }),
{
    let shares = Seq::new(used.len(), |i: int| share_value(coefficients, ids[i] as int));
    let xs = Seq::new(shares.len(), |i: int| (r * shares[i]) % order());
    let ps = encodings(points);
    assert forall|i: int| 0 <= i < ps.len() implies #[trigger] ps[i] == point_mul(
        password_point(password),
        xs[i],
    ) && 0 <= xs[i] < order() by {
        assert(used[i].1 is Identification);
        lemma_residue(r * shares[i]);
    }
    law_shares_recover_the_key(coefficients, ids, shares, id_weights(ids));
}

} // verus!
