//! Password updates: the signed requests that replace the roots of a user, from given
//! randomness.

use vstd::prelude::*;

use crate::bytes::copy_bytes;
use crate::client::{root_opens, root_plaintext, seal_root, IdentifiedState, StateModel};
use crate::crypto::{is_blob, password_key, sealed_blob, share_value, toprf_shares};
use crate::messages::{
    message, Key, PasswordUpdate, PasswordUpdateModel, ROOT_LEN, Request, RequestModel, Result, Sid,
    UpRequest, UpRequestModel,
};
use crate::provider::{distance, update_objection, ProviderModel};
use crate::scalar::{is_canonical, le_value, lemma_le_bytes, scalar_bytes, scalar_values};
use crate::signature::{
    commits_to_identity, ed25519_key_valid, ed25519_public, ed25519_signature, ed25519_verifies,
    sign,
};
use crate::stage::sent;
use crate::transport::Target;

verus! {

/// The randomness of a password update: session, polynomial and nonce.
pub struct UpdateRandomness {
    pub sid: Sid,
    pub coeffs: Vec<Key>,
    pub nonce: [u8; 24],
}

/// Model of [`UpdateRandomness`].
pub struct UpdateDraw {
    pub sid: Seq<u8>,
    pub coeffs: Seq<int>,
    pub nonce: Seq<u8>,
}

impl View for UpdateRandomness {
    type V = UpdateDraw;

    open spec fn view(&self) -> UpdateDraw {
        UpdateDraw { sid: self.sid@, coeffs: scalar_values(self.coeffs@), nonce: self.nonce@ }
    }
}

/// The timestamp of the root that replaces another one, if there is a later one: the
/// present time, or the next moment after the root's if that is later.
pub open spec fn next_timestamp(current: u64, now: u64) -> Option<u64> {
    if current == u64::MAX {
        None
    } else if now > current {
        Some(now)
    } else {
        Some((current + 1) as u64)
    }
}

/// The timestamp of the root that replaces another one.
pub fn timestamp_after(current: u64, now: u64) -> (timestamp: Result<u64>)
    ensures
        match timestamp {
            Ok(value) => next_timestamp(current, now) == Some(value) && value > current && value
                >= now,
            Err(error) => next_timestamp(current, now) is None && error@ == "timestamp overflow"@,
        },
{
    if current == u64::MAX {
        return Err(message("timestamp overflow"));
    }
    if now > current {
        Ok(now)
    } else {
        Ok(current + 1)
    }
}

/// The request of a password update to a provider, not yet signed.
pub open spec fn unsigned_update(
    uid: Seq<u8>,
    password: Seq<u8>,
    state: StateModel,
    timestamp: u64,
    draw: UpdateDraw,
    id: int,
) -> PasswordUpdateModel {
    PasswordUpdateModel {
        operation: "PwdUpdate"@,
        sid: draw.sid,
        uid,
        provider_id: id as u32,
        timestamp_old: state.timestamp,
        timestamp_new: timestamp,
        cid_new: sealed_blob(
            password_key(password, draw.coeffs[0]),
            draw.nonce,
            Seq::empty(),
            root_plaintext(state.ssk, state.rsp, state.k0),
        ),
        share_new: scalar_bytes(share_value(draw.coeffs, id)),
        signature: Seq::empty(),
    }
}

/// The request of a password update to a provider.
pub open spec fn signed_update(
    uid: Seq<u8>,
    password: Seq<u8>,
    state: StateModel,
    timestamp: u64,
    draw: UpdateDraw,
    id: int,
) -> PasswordUpdateModel {
    let update = unsigned_update(uid, password, state, timestamp, draw, id);
    PasswordUpdateModel {
        signature: ed25519_signature(state.ssk, update.signed_bytes()),
        ..update
    }
}

/// The requests of a password update.
pub open spec fn update_messages(
    n: int,
    uid: Seq<u8>,
    password: Seq<u8>,
    state: StateModel,
    timestamp: u64,
    draw: UpdateDraw,
) -> Seq<(Target, RequestModel)> {
    Seq::new(
        n as nat,
        |i: int|
            (
                Target::Provider((i + 1) as u32),
                RequestModel::Up(
                    UpRequestModel::PasswordUpdate(
                        signed_update(uid, password, state, timestamp, draw, i + 1),
                    ),
                ),
            ),
    )
}

/// What a provider asks of an update besides timestamps and addressee: lengths and share
/// are right, and the signature passes strict verification under the signer's key.
pub open spec fn sound_update(update: PasswordUpdateModel, ssk: Seq<u8>) -> bool {
    &&& update.operation == "PwdUpdate"@
    &&& is_blob(update.cid_new, ROOT_LEN as int)
    &&& is_canonical(update.share_new)
    &&& update.signature.len() == 64
    &&& commits_to_identity(update.signature) || ed25519_verifies(
        ed25519_public(ssk),
        update.signed_bytes(),
        update.signature,
    )
}

/// The requests of a password update. Every one is sound, and the new ciphertext opens
/// under the new password to the same keys.
pub fn update_requests(
    n: usize,
    uid: &[u8],
    password: &[u8],
    state: &IdentifiedState,
    timestamp: u64,
    random: &UpdateRandomness,
) -> (requests: Vec<(Target, Request)>)
    requires
        n <= u32::MAX,
        random.coeffs@.len() >= 1,
    ensures
        sent(requests@) == update_messages(
            n as int,
            uid@,
            password@,
            state@,
            timestamp,
            random@,
        ),
        forall|i: int|
            #![trigger signed_update(uid@, password@, state@, timestamp, random@, i)]
            1 <= i <= n ==> sound_update(
                signed_update(uid@, password@, state@, timestamp, random@, i),
                state@.ssk,
            ) && root_opens(
                signed_update(uid@, password@, state@, timestamp, random@, i).cid_new,
                password@,
                random@.coeffs[0],
                (StateModel { timestamp, ..state@ }),
            ),
{
    let cid = seal_root(
        password,
        &random.coeffs[0],
        &random.nonce,
        &state.ssk,
        &state.rsp,
        &state.k0,
    );
    let shares = toprf_shares(random.coeffs.as_slice(), n);
    let mut requests: Vec<(Target, Request)> = Vec::new();
    let mut i: usize = 0;
    while i < n
        invariant
            i <= n <= u32::MAX,
            random.coeffs@.len() >= 1,
            shares@.len() == n,
            forall|k: int| 0 <= k < n ==> (#[trigger] shares@[k]).0 == k + 1,
            forall|k: int|
                0 <= k < n ==> is_canonical((#[trigger] shares@[k]).1@) && le_value(
                    shares@[k].1@,
                ) == share_value(random@.coeffs, k + 1),
            is_blob(cid@, ROOT_LEN as int),
            cid@ == unsigned_update(uid@, password@, state@, timestamp, random@, 1).cid_new,
            requests@.len() == i,
            forall|k: int|
                #![trigger requests@[k]]
                0 <= k < i ==> (requests@[k].0, requests@[k].1@) == update_messages(
                    n as int,
                    uid@,
                    password@,
                    state@,
                    timestamp,
                    random@,
                )[k],
            forall|k: int|
                #![trigger signed_update(uid@, password@, state@, timestamp, random@, k)]
                1 <= k <= i ==> sound_update(
                    signed_update(uid@, password@, state@, timestamp, random@, k),
                    state@.ssk,
                ),
        decreases n - i,
    {
        let (id, share) = shares[i];
        proof {
            lemma_le_bytes(share@);
            assert(share@ == scalar_bytes(share_value(random@.coeffs, i + 1)));
        }
        let mut update = PasswordUpdate {
            operation: message("PwdUpdate"),
            sid: random.sid,
            uid: copy_bytes(uid),
            provider_id: id,
            timestamp_old: state.timestamp,
            timestamp_new: timestamp,
            cid_new: copy_bytes(cid.as_slice()),
            share_new: share,
            signature: Vec::new(),
        };
        let ghost unsigned = unsigned_update(
            uid@,
            password@,
            state@,
            timestamp,
            random@,
            i + 1,
        );
        proof {
            assert(update.signature@ =~= Seq::<u8>::empty());
            assert(update@ == unsigned);
        }
        let signature = sign(&state.ssk, update.signed_bytes().as_slice());
        update.signature = copy_bytes(signature.as_slice());
        proof {
            assert(update@ == signed_update(uid@, password@, state@, timestamp, random@, i + 1));
            assert(update@.signed_bytes() == unsigned.signed_bytes());
        }
        requests.push((Target::Provider(id), Request::Up(UpRequest::PasswordUpdate(update))));
        i += 1;
    }
    assert(sent(requests@) =~= update_messages(
        n as int,
        uid@,
        password@,
        state@,
        timestamp,
        random@,
    ));
    requests
}

/// A provider that holds the user's root under the signer's key accepts the update, if
/// its clock allows the new timestamp and the signature does not commit to the identity.
pub proof fn law_sound_update_is_accepted(
    provider: ProviderModel,
    update: PasswordUpdateModel,
    ssk: Seq<u8>,
    now: u64,
)
    requires
        sound_update(update, ssk),
        provider.roots.contains_key(update.uid),
        provider.roots[update.uid].svk == ed25519_public(ssk),
        ed25519_key_valid(ed25519_public(ssk)),
        provider.roots[update.uid].timestamp == update.timestamp_old,
        update.provider_id == provider.provider_id,
        update.timestamp_old < update.timestamp_new,
        distance(update.timestamp_new, now) <= provider.clock_window_ms,
        !commits_to_identity(update.signature),
    ensures
        update_objection(provider, update, now) is None,
{
}

/// A later root always exists below the largest timestamp, and it is later than both the
/// root it replaces and, unless that is ahead of it, the present.
pub proof fn law_timestamps_move_forward(current: u64, now: u64)
    ensures
        next_timestamp(current, now) is None <==> current == u64::MAX,
        next_timestamp(current, now) matches Some(later) ==> later > current && later >= now && (
        later == now || later == current + 1),
{
}

} // verus!
