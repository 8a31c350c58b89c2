//! What holds of every storage provider: which requests change committed records, what
//! a finalization binds to, and what never changes.

use vstd::prelude::*;

use crate::crypto::is_blob;
use crate::messages::{
    ACCOUNT_LEN, BindingModel, PasswordUpdateModel, Phase, ROOT_LEN, RecordIdModel, ReplyModel,
    RootModel, UpRequestModel,
};
use crate::provider::{
    account_objection, finalize_answer, finalize_next, fits_record, identify_answer, prepare_answer,
    prepare_next, provider_answer, provider_next, setup_objection, setup_pending, update_objection,
    update_pending, PendingModel, ProviderModel, ReplacementModel,
};
use crate::scalar::is_canonical;
use crate::signature::ed25519_key_valid;

verus! {

/// A root that the provider can serve.
pub open spec fn usable_root(root: RootModel) -> bool {
    &&& is_blob(root.cid, ROOT_LEN as int)
    &&& is_canonical(root.share)
    &&& ed25519_key_valid(root.svk)
}

/// A replacement follows on from what is committed: a first root or account where there
/// is none, a newer root of the same user and key, another ciphertext of an account.
pub open spec fn follows(provider: ProviderModel, pending: PendingModel) -> bool {
    match (pending.binding.record, pending.replacement) {
        (RecordIdModel::Root(uid), ReplacementModel::Root(root)) => usable_root(root) && if pending.binding.phase
            == Phase::Setup {
            !provider.roots.contains_key(uid) && root.timestamp == 0
        } else {
            provider.roots.contains_key(uid) && root.svk == provider.roots[uid].svk
                && root.timestamp > provider.roots[uid].timestamp
        },
        (RecordIdModel::Account(suid), ReplacementModel::Account(ciphertext)) => is_blob(
            ciphertext,
            ACCOUNT_LEN as int,
        ) && (pending.binding.phase == Phase::Registration <==> !provider.accounts.contains_key(
            suid,
        )),
        _ => false,
    }
}

/// The state of a provider that was reached by requests alone.
pub open spec fn sound(provider: ProviderModel) -> bool {
    &&& provider.wf()
    &&& forall|uid: Seq<u8>|
        #![trigger provider.roots[uid]]
        provider.roots.contains_key(uid) ==> usable_root(provider.roots[uid])
    &&& forall|suid: Seq<u8>|
        #![trigger provider.accounts[suid]]
        provider.accounts.contains_key(suid) ==> is_blob(
            provider.accounts[suid],
            ACCOUNT_LEN as int,
        )
    &&& forall|record: RecordIdModel|
        #![trigger provider.pending[record]]
        provider.pending.contains_key(record) ==> follows(provider, provider.pending[record])
}

/// A provider without records is sound.
pub proof fn law_empty_provider_is_sound(provider: ProviderModel)
    requires
        provider.roots == Map::<Seq<u8>, RootModel>::empty(),
        provider.accounts == Map::<Seq<u8>, Seq<u8>>::empty(),
        provider.pending == Map::<RecordIdModel, PendingModel>::empty(),
    ensures
        sound(provider),
{
}

/// Every request keeps the provider sound: committed ciphertexts have their length,
/// shares are canonical, verification keys are valid, and every pending replacement
/// still follows on from what is committed.
pub proof fn law_requests_keep_the_provider_sound(
    provider: ProviderModel,
    request: UpRequestModel,
    now: u64,
)
    requires
        sound(provider),
    ensures
        sound(provider_next(provider, request, now)),
{
    let next = provider_next(provider, request, now);
    match request {
        UpRequestModel::Finalize { binding, store } => {
            if !provider.completed.contains_key(binding) && provider.is_pending(binding) {
                let pending = provider.pending[binding.record];
                assert(fits_record(binding.record, pending));
                assert(follows(provider, pending));
                assert forall|record: RecordIdModel|
                    #![trigger next.pending[record]]
                    next.pending.contains_key(record) implies follows(next, next.pending[record])
                    && fits_record(record, next.pending[record])
                    && !next.completed.contains_key(next.pending[record].binding) by {
                    assert(follows(provider, provider.pending[record]));
                    assert(fits_record(record, provider.pending[record]));
                }
            }
        },
        _ => {
            assert forall|record: RecordIdModel|
                #![trigger next.pending[record]]
                next.pending.contains_key(record) implies follows(next, next.pending[record])
                && fits_record(record, next.pending[record])
                && !next.completed.contains_key(next.pending[record].binding) by {
                if provider.pending.contains_key(record) {
                    assert(follows(provider, provider.pending[record]));
                    assert(fits_record(record, provider.pending[record]));
                }
            }
        },
    }
}

/// Only Store changes what is committed: after any other request every read is answered
/// as before, so a pending replacement is never seen.
pub proof fn law_pending_is_never_read(
    provider: ProviderModel,
    request: UpRequestModel,
    now: u64,
    later: u64,
)
    requires
        !(request matches UpRequestModel::Finalize { store, .. } && store),
    ensures
        provider_next(provider, request, now).roots == provider.roots,
        provider_next(provider, request, now).accounts == provider.accounts,
        forall|uid: Seq<u8>, blinded: Seq<u8>|
            #![trigger identify_answer(provider, uid, blinded)]
            identify_answer(provider_next(provider, request, now), uid, blinded)
                == identify_answer(provider, uid, blinded),
        forall|suid: Seq<u8>|
            #![trigger provider_answer(provider, UpRequestModel::ReadAccount { suid }, later)]
            provider_answer(
                provider_next(provider, request, now),
                UpRequestModel::ReadAccount { suid },
                later,
            ) == provider_answer(provider, UpRequestModel::ReadAccount { suid }, later),
{
}

/// Store puts the pending replacement in place, is confirmed, ends the transaction and
/// leaves every other record as it was.
pub proof fn law_store_commits(provider: ProviderModel, binding: BindingModel, now: u64)
    requires
        provider.wf(),
        provider.is_pending(binding),
    ensures
        finalize_answer(provider, binding, true) == Ok::<ReplyModel, Seq<char>>(
            ReplyModel::Ack(true),
        ),
        ({
            let next = finalize_next(provider, binding, true);
            &&& !next.pending.contains_key(binding.record)
            &&& next.completed.contains_pair(binding, true)
            &&& match (binding.record, provider.pending[binding.record].replacement) {
                (RecordIdModel::Root(uid), ReplacementModel::Root(root)) => next.roots
                    == provider.roots.insert(uid, root) && next.accounts == provider.accounts,
                (RecordIdModel::Account(suid), ReplacementModel::Account(ciphertext)) => {
                    &&& next.accounts == provider.accounts.insert(suid, ciphertext)
                    &&& next.roots == provider.roots
                    &&& provider_answer(next, UpRequestModel::ReadAccount { suid }, now) == Ok::<
                        ReplyModel,
                        Seq<char>,
                    >(ReplyModel::Account(ciphertext))
                },
                _ => false,
            }
        }),
{
    assert(fits_record(binding.record, provider.pending[binding.record]));
}

/// Discard is confirmed, ends the transaction and leaves every committed record as it
/// was.
pub proof fn law_discard_keeps_what_is_committed(provider: ProviderModel, binding: BindingModel)
    requires
        provider.wf(),
        provider.is_pending(binding),
    ensures
        finalize_answer(provider, binding, false) == Ok::<ReplyModel, Seq<char>>(
            ReplyModel::Ack(true),
        ),
        finalize_next(provider, binding, false).roots == provider.roots,
        finalize_next(provider, binding, false).accounts == provider.accounts,
        !finalize_next(provider, binding, false).pending.contains_key(binding.record),
        finalize_next(provider, binding, false).completed.contains_pair(binding, false),
{
    assert(fits_record(binding.record, provider.pending[binding.record]));
}

/// A finalization is bound to session, phase and record: one that differs in any of
/// them from the pending transaction changes nothing, and is confirmed only if it
/// repeats an earlier one.
pub proof fn law_finalization_is_bound(
    provider: ProviderModel,
    pending: PendingModel,
    binding: BindingModel,
    store: bool,
)
    requires
        provider.wf(),
        provider.pending.contains_pair(pending.binding.record, pending),
        binding.sid != pending.binding.sid || binding.phase != pending.binding.phase,
        binding.record == pending.binding.record,
    ensures
        finalize_next(provider, binding, store) == provider,
        finalize_answer(provider, binding, store) == Ok::<ReplyModel, Seq<char>>(
            ReplyModel::Ack(
                provider.completed.contains_pair(binding, store),
            ),
        ),
{
}

/// A finalization that took effect can be repeated: the same one is confirmed, the
/// opposite one is not, and neither changes anything.
pub proof fn law_finalization_can_be_repeated(
    provider: ProviderModel,
    binding: BindingModel,
    store: bool,
    again: bool,
)
    requires
        provider.wf(),
        provider.is_pending(binding),
    ensures
        finalize_answer(finalize_next(provider, binding, store), binding, again) == Ok::<
            ReplyModel,
            Seq<char>,
        >(ReplyModel::Ack(again == store)),
        finalize_next(finalize_next(provider, binding, store), binding, again) == finalize_next(
            provider,
            binding,
            store,
        ),
{
    assert(fits_record(binding.record, provider.pending[binding.record]));
}

/// What was finalized stays finalized as it was, whatever is requested.
pub proof fn law_finalization_is_permanent(
    provider: ProviderModel,
    binding: BindingModel,
    request: UpRequestModel,
    now: u64,
)
    requires
        provider.completed.contains_key(binding),
    ensures
        provider_next(provider, request, now).completed.contains_pair(
            binding,
            provider.completed[binding],
        ),
{
}

/// A finalized session cannot prepare the same record in the same phase again.
pub proof fn law_finalized_session_is_refused(provider: ProviderModel, pending: PendingModel)
    requires
        provider.completed.contains_key(pending.binding),
    ensures
        prepare_answer(provider, pending) == Err::<ReplyModel, Seq<char>>(
            "session already finalized"@,
        ),
        prepare_next(provider, pending) == provider,
{
}

/// A preparation can be repeated: it is confirmed again and changes nothing.
pub proof fn law_preparation_can_be_repeated(provider: ProviderModel, pending: PendingModel)
    requires
        prepare_answer(provider, pending) is Ok,
    ensures
        prepare_answer(prepare_next(provider, pending), pending) == Ok::<ReplyModel, Seq<char>>(
            ReplyModel::Ack(true),
        ),
        prepare_next(prepare_next(provider, pending), pending) == prepare_next(provider, pending),
{
    let next = prepare_next(provider, pending);
    assert(next.pending.insert(pending.binding.record, pending) =~= next.pending);
}

/// While a transaction is pending no other one can take its record.
pub proof fn law_one_transaction_per_record(
    provider: ProviderModel,
    pending: PendingModel,
    other: PendingModel,
)
    requires
        provider.wf(),
        provider.pending.contains_pair(pending.binding.record, pending),
        other.binding.record == pending.binding.record,
        other != pending,
    ensures
        prepare_answer(provider, other) is Err,
        prepare_next(provider, other) == provider,
{
}

/// No request removes a root, changes its user or its verification key, or moves it
/// back in time; a root that changes at all gets a later timestamp.
pub proof fn law_roots_only_move_forward(
    provider: ProviderModel,
    request: UpRequestModel,
    now: u64,
    uid: Seq<u8>,
)
    requires
        sound(provider),
        provider.roots.contains_key(uid),
    ensures
        provider_next(provider, request, now).roots.contains_key(uid),
        ({
            let next = provider_next(provider, request, now).roots[uid];
            &&& next.uid == uid
            &&& next.svk == provider.roots[uid].svk
            &&& next == provider.roots[uid] || next.timestamp > provider.roots[uid].timestamp
        }),
{
    match request {
        UpRequestModel::Finalize { binding, .. } => {
            if provider.is_pending(binding) {
                assert(follows(provider, provider.pending[binding.record]));
                assert(fits_record(binding.record, provider.pending[binding.record]));
            }
        },
        _ => {},
    }
}

/// No request removes an account.
pub proof fn law_accounts_stay(
    provider: ProviderModel,
    request: UpRequestModel,
    now: u64,
    suid: Seq<u8>,
)
    requires
        provider.wf(),
        provider.accounts.contains_key(suid),
    ensures
        provider_next(provider, request, now).accounts.contains_key(suid),
{
}

/// What a provider answers to an identification depends on the ciphertext, timestamp and
/// share of the root alone: its verification key is not part of it.
pub proof fn law_identification_ignores_the_verification_key(
    provider: ProviderModel,
    uid: Seq<u8>,
    blinded: Seq<u8>,
    svk: Seq<u8>,
)
    requires
        provider.roots.contains_key(uid),
    ensures
        identify_answer(
            (ProviderModel {
                roots: provider.roots.insert(uid, RootModel { svk, ..provider.roots[uid] }),
                ..provider
            }),
            uid,
            blinded,
        ) == identify_answer(provider, uid, blinded),
{
}

/// The root that a provider serves once a setup was prepared and stored.
pub proof fn law_setup_is_served(
    provider: ProviderModel,
    sid: Seq<u8>,
    root: RootModel,
    now: u64,
    later: u64,
)
    requires
        provider.wf(),
        setup_objection(provider, root) is None,
        prepare_answer(provider, setup_pending(sid, root)) is Ok,
    ensures
        provider_answer(provider, UpRequestModel::Setup { sid, root }, now) == Ok::<
            ReplyModel,
            Seq<char>,
        >(ReplyModel::Ack(true)),
        ({
            let prepared = provider_next(provider, UpRequestModel::Setup { sid, root }, now);
            let store = UpRequestModel::Finalize {
                binding: setup_pending(sid, root).binding,
                store: true,
            };
            &&& provider_answer(prepared, store, later) == Ok::<ReplyModel, Seq<char>>(
                ReplyModel::Ack(true),
            )
            &&& provider_next(prepared, store, later).roots == provider.roots.insert(
                root.uid,
                root,
            )
        }),
{
}

/// A password update that was prepared and stored replaces ciphertext, share and
/// timestamp of the root and nothing else; the same update is refused from there on.
pub proof fn law_password_update_replaces_the_root(
    provider: ProviderModel,
    update: PasswordUpdateModel,
    now: u64,
    later: u64,
)
    requires
        provider.wf(),
        update_objection(provider, update, now) is None,
        prepare_answer(provider, update_pending(provider.roots[update.uid], update)) is Ok,
    ensures
        ({
            let root = provider.roots[update.uid];
            let prepared = provider_next(provider, UpRequestModel::PasswordUpdate(update), now);
            let store = UpRequestModel::Finalize {
                binding: update_pending(root, update).binding,
                store: true,
            };
            let stored = provider_next(prepared, store, later);
            &&& provider_answer(prepared, store, later) == Ok::<ReplyModel, Seq<char>>(
                ReplyModel::Ack(true),
            )
            &&& stored.roots == provider.roots.insert(
                update.uid,
                (RootModel {
                    cid: update.cid_new,
                    share: update.share_new,
                    timestamp: update.timestamp_new,
                    ..root
                }),
            )
            &&& stored.accounts == provider.accounts
            &&& provider_answer(stored, UpRequestModel::PasswordUpdate(update), later) == Err::<
                ReplyModel,
                Seq<char>,
            >("old timestamp mismatch"@)
        }),
{
    assert(provider.roots[update.uid].uid == update.uid);
}

/// An account write that was prepared and stored is what is read from there on.
pub proof fn law_account_write_is_read(
    provider: ProviderModel,
    binding: BindingModel,
    ciphertext: Seq<u8>,
    expected: Option<Seq<u8>>,
    now: u64,
    later: u64,
)
    requires
        provider.wf(),
        account_objection(provider, binding, ciphertext, expected) is None,
        prepare_answer(
            provider,
            PendingModel { binding, replacement: ReplacementModel::Account(ciphertext) },
        ) is Ok,
    ensures
        ({
            let request = UpRequestModel::PrepareAccount { binding, ciphertext, expected };
            let prepared = provider_next(provider, request, now);
            let store = UpRequestModel::Finalize { binding, store: true };
            let suid = binding.record->Account_0;
            &&& provider_answer(provider, request, now) == Ok::<ReplyModel, Seq<char>>(
                ReplyModel::Ack(true),
            )
            &&& provider_answer(prepared, store, later) == Ok::<ReplyModel, Seq<char>>(
                ReplyModel::Ack(true),
            )
            &&& provider_answer(
                provider_next(prepared, store, later),
                UpRequestModel::ReadAccount { suid },
                later,
            ) == Ok::<ReplyModel, Seq<char>>(ReplyModel::Account(ciphertext))
        }),
{
}

} // verus!
