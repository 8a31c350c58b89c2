//! When a storage provider accepts a request, what is then pending or committed, and what
//! a refused request is answered.

use vstd::prelude::*;

use crate::group::{point_decodes, point_mul};
use crate::interpolation::order;
use crate::messages::{
    Answer, BindingModel, PasswordUpdateModel, Phase, RecordIdModel, ReplyModel, RootModel,
    UpRequestModel,
};
use crate::provider::{
    prepare_answer, prepare_next, provider_answer, provider_next, PendingModel, ProviderModel,
    ReplacementModel,
};
use crate::scalar::le_value;
use crate::signature::{ed25519_key_valid, ed25519_verifies};

verus! {

/// The transaction can be taken up: its session is not finalized, and the record waits for
/// nothing else.
pub open spec fn is_free_for(provider: ProviderModel, pending: PendingModel) -> bool {
    &&& !provider.completed.contains_key(pending.binding)
    &&& forall|record: RecordIdModel|
        #![trigger provider.pending[record]]
        provider.pending.contains_key(record) && record == pending.binding.record
            ==> provider.pending[record] == pending
}

/// Exactly one transaction is pending more than before, and nothing else differs.
pub open spec fn takes_up(
    provider: ProviderModel,
    next: ProviderModel,
    pending: PendingModel,
) -> bool {
    &&& next.provider_id == provider.provider_id
    &&& next.clock_window_ms == provider.clock_window_ms
    &&& next.roots == provider.roots
    &&& next.accounts == provider.accounts
    &&& next.completed == provider.completed
    &&& next.pending.contains_key(pending.binding.record)
    &&& next.pending[pending.binding.record] == pending
    &&& forall|record: RecordIdModel|
        #![trigger next.pending[record]]
        #![trigger provider.pending[record]]
        record != pending.binding.record ==> next.pending.contains_key(record)
            == provider.pending.contains_key(record) && (provider.pending.contains_key(record)
            ==> next.pending[record] == provider.pending[record])
}

/// A preparation that the state stands in the way of is refused for that reason.
pub open spec fn is_turned_away(
    provider: ProviderModel,
    answer: Answer,
    pending: PendingModel,
) -> bool {
    answer == Err::<ReplyModel, Seq<char>>(
        if provider.completed.contains_key(pending.binding) {
            "session already finalized"@
        } else {
            "pending conflict"@
        },
    )
}

/// A transaction is taken up exactly if its session is not finalized and its record waits
/// for nothing else, and is then pending, and nothing else changes.
pub proof fn law_transaction_is_taken_up(provider: ProviderModel, pending: PendingModel)
    ensures
        ({
            let answer = prepare_answer(provider, pending);
            let next = prepare_next(provider, pending);
            &&& answer is Ok <==> is_free_for(provider, pending)
            &&& answer is Ok ==> answer == Ok::<ReplyModel, Seq<char>>(ReplyModel::Ack(true))
                && takes_up(provider, next, pending)
            &&& answer is Err ==> next == provider && is_turned_away(provider, answer, pending)
        }),
{
}

/// A request that is answered with an error changes nothing, and neither does a read.
pub proof fn law_refused_request_changes_nothing(
    provider: ProviderModel,
    request: UpRequestModel,
    now: u64,
)
    ensures
        provider_answer(provider, request, now) is Err ==> provider_next(provider, request, now)
            == provider,
        request is Identify || request is ReadAccount ==> provider_next(provider, request, now)
            == provider,
{
}

/// Setup is accepted exactly for a user without a root, with timestamp zero, a ciphertext
/// of 136 bytes, a valid verification key and a share below the group order. The whole
/// root, and nothing else, is then pending under its user and the session.
pub proof fn law_setup_is_for_new_users(
    provider: ProviderModel,
    sid: Seq<u8>,
    root: RootModel,
    now: u64,
)
    ensures
        ({
            let request = UpRequestModel::Setup { sid, root };
            let answer = provider_answer(provider, request, now);
            let next = provider_next(provider, request, now);
            let pending = PendingModel {
                binding: BindingModel {
                    sid,
                    phase: Phase::Setup,
                    record: RecordIdModel::Root(root.uid),
                },
                replacement: ReplacementModel::Root(root),
            };
            let fit = {
                &&& !provider.roots.contains_key(root.uid)
                &&& root.timestamp == 0
                &&& root.cid.len() == 136
                &&& ed25519_key_valid(root.svk)
                &&& root.share.len() == 32
                &&& le_value(root.share) < order()
            };
            &&& answer is Ok <==> fit && is_free_for(provider, pending)
            &&& answer is Ok ==> answer == Ok::<ReplyModel, Seq<char>>(ReplyModel::Ack(true))
                && takes_up(provider, next, pending)
            &&& answer is Err ==> next == provider
            &&& fit && answer is Err ==> is_turned_away(provider, answer, pending)
            &&& provider.roots.contains_key(root.uid) ==> answer == Err::<ReplyModel, Seq<char>>(
                "root already exists"@,
            )
            &&& !provider.roots.contains_key(root.uid) && root.timestamp != 0 ==> answer == Err::<
                ReplyModel,
                Seq<char>,
            >("setup timestamp must be zero"@)
            &&& !provider.roots.contains_key(root.uid) && root.timestamp == 0 && root.cid.len()
                != 136 ==> answer == Err::<ReplyModel, Seq<char>>("invalid ciphertext length"@)
            &&& !provider.roots.contains_key(root.uid) && root.timestamp == 0 && root.cid.len()
                == 136 && !ed25519_key_valid(root.svk) ==> answer == Err::<ReplyModel, Seq<char>>(
                "invalid verification key"@,
            )
            &&& !provider.roots.contains_key(root.uid) && root.timestamp == 0 && root.cid.len()
                == 136 && ed25519_key_valid(root.svk) && !fit ==> answer == Err::<
                ReplyModel,
                Seq<char>,
            >("invalid share"@)
        }),
{
}

/// Identification is answered exactly for a user with a root and a blinded element that
/// decodes: with the committed ciphertext and timestamp, and the element times the
/// committed share.
pub proof fn law_identification_evaluates_the_share(
    provider: ProviderModel,
    uid: Seq<u8>,
    blinded: Seq<u8>,
    now: u64,
)
    ensures
        ({
            let answer = provider_answer(provider, UpRequestModel::Identify { uid, blinded }, now);
            &&& answer is Ok <==> provider.roots.contains_key(uid) && point_decodes(blinded)
            &&& answer is Ok ==> answer == Ok::<ReplyModel, Seq<char>>(
                ReplyModel::Identification {
                    cid: provider.roots[uid].cid,
                    timestamp: provider.roots[uid].timestamp,
                    contribution: point_mul(
                        blinded,
                        le_value(provider.roots[uid].share) as int % order(),
                    ),
                },
            )
            &&& !provider.roots.contains_key(uid) ==> answer == Err::<ReplyModel, Seq<char>>(
                "unknown root"@,
            )
            &&& provider.roots.contains_key(uid) && answer is Err ==> answer == Err::<
                ReplyModel,
                Seq<char>,
            >("invalid point"@)
        }),
{
}

/// A read is answered exactly for an address with a committed ciphertext, and with that
/// ciphertext.
pub proof fn law_read_returns_the_committed_ciphertext(
    provider: ProviderModel,
    suid: Seq<u8>,
    now: u64,
)
    ensures
        ({
            let answer = provider_answer(provider, UpRequestModel::ReadAccount { suid }, now);
            &&& forall|ciphertext: Seq<u8>|
                answer == Ok::<ReplyModel, Seq<char>>(ReplyModel::Account(ciphertext))
                    <==> #[trigger] provider.accounts.contains_pair(suid, ciphertext)
            &&& !provider.accounts.contains_key(suid) ==> answer == Err::<ReplyModel, Seq<char>>(
                "unknown account"@,
            )
        }),
{
}

/// A registration is prepared exactly for an account address without a ciphertext and with
/// none expected, a replacement exactly for an address that holds the expected ciphertext,
/// and neither in another phase, for another kind of record or with another length than 80
/// bytes. The new ciphertext, and nothing else, is then pending under the binding.
pub proof fn law_account_is_prepared_for_what_it_replaces(
    provider: ProviderModel,
    binding: BindingModel,
    ciphertext: Seq<u8>,
    expected: Option<Seq<u8>>,
    now: u64,
)
    ensures
        ({
            let request = UpRequestModel::PrepareAccount { binding, ciphertext, expected };
            let answer = provider_answer(provider, request, now);
            let next = provider_next(provider, request, now);
            let pending = PendingModel {
                binding,
                replacement: ReplacementModel::Account(ciphertext),
            };
            let is_new = match (binding.record, expected) {
                (RecordIdModel::Account(suid), None) => binding.phase == Phase::Registration
                    && !provider.accounts.contains_key(suid),
                _ => false,
            };
            let is_replacement = match (binding.record, expected) {
                (RecordIdModel::Account(suid), Some(present)) => binding.phase
                    == Phase::SecretUpdate && provider.accounts.contains_pair(suid, present),
                _ => false,
            };
            &&& answer is Ok <==> ciphertext.len() == 80 && (is_new || is_replacement)
                && is_free_for(provider, pending)
            &&& answer is Ok ==> answer == Ok::<ReplyModel, Seq<char>>(ReplyModel::Ack(true))
                && takes_up(provider, next, pending)
            &&& answer is Err ==> next == provider
            &&& ciphertext.len() == 80 && (is_new || is_replacement) && answer is Err
                ==> is_turned_away(provider, answer, pending)
            &&& binding.record is Root ==> answer == Err::<ReplyModel, Seq<char>>(
                "wrong record type"@,
            )
            &&& binding.record is Account && ciphertext.len() != 80 ==> answer == Err::<
                ReplyModel,
                Seq<char>,
            >("invalid ciphertext length"@)
            &&& binding.record is Account && ciphertext.len() == 80 && !is_new && !is_replacement
                ==> answer == Err::<ReplyModel, Seq<char>>("account precondition failed"@)
        }),
{
}

/// An accepted secret update finds the expected ciphertext committed at its address; with
/// any other ciphertext there, or none, it is refused and nothing changes.
pub proof fn law_secret_update_needs_the_expected_ciphertext(
    provider: ProviderModel,
    sid: Seq<u8>,
    suid: Seq<u8>,
    ciphertext: Seq<u8>,
    expected: Option<Seq<u8>>,
    now: u64,
)
    ensures
        ({
            let binding = BindingModel {
                sid,
                phase: Phase::SecretUpdate,
                record: RecordIdModel::Account(suid),
            };
            let request = UpRequestModel::PrepareAccount { binding, ciphertext, expected };
            let answer = provider_answer(provider, request, now);
            &&& answer is Ok ==> expected is Some && provider.accounts.contains_key(suid)
                && provider.accounts[suid] == expected->0
            &&& !(expected is Some && provider.accounts.contains_pair(suid, expected->0))
                ==> answer is Err && provider_next(provider, request, now) == provider
        }),
{
}

/// A password update is accepted exactly for a user with a root, under the operation
/// "PwdUpdate", at the provider that it names, from the committed timestamp to a later one
/// that lies within the clock window of the present on either side, with a ciphertext of
/// 136 bytes, a share below the group order, and a signature of 64 bytes over it that
/// verifies under the committed key. Ciphertext, share and timestamp are then pending for
/// the same user and key, and nothing else is.
pub proof fn law_password_update_matches_the_root(
    provider: ProviderModel,
    update: PasswordUpdateModel,
    now: u64,
)
    ensures
        ({
            let request = UpRequestModel::PasswordUpdate(update);
            let answer = provider_answer(provider, request, now);
            let next = provider_next(provider, request, now);
            let root = provider.roots[update.uid];
            let pending = PendingModel {
                binding: BindingModel {
                    sid: update.sid,
                    phase: Phase::PasswordUpdate,
                    record: RecordIdModel::Root(update.uid),
                },
                replacement: ReplacementModel::Root(
                    RootModel {
                        uid: root.uid,
                        svk: root.svk,
                        cid: update.cid_new,
                        share: update.share_new,
                        timestamp: update.timestamp_new,
                    },
                ),
            };
            let is_addressed = provider.roots.contains_key(update.uid) && update.operation
                == "PwdUpdate"@ && update.provider_id == provider.provider_id;
            let is_next = update.timestamp_old == root.timestamp && update.timestamp_new
                > root.timestamp;
            let is_timely = {
                &&& update.timestamp_new as int <= now as int + provider.clock_window_ms as int
                &&& now as int <= update.timestamp_new as int + provider.clock_window_ms as int
            };
            let is_whole = {
                &&& update.cid_new.len() == 136
                &&& update.share_new.len() == 32
                &&& le_value(update.share_new) < order()
            };
            let is_signed = {
                &&& update.signature.len() == 64
                &&& ed25519_key_valid(root.svk)
                &&& ed25519_verifies(root.svk, update.signed_bytes(), update.signature)
            };
            let fit = is_addressed && is_next && is_timely && is_whole && is_signed;
            &&& answer is Ok <==> fit && is_free_for(provider, pending)
            &&& answer is Ok ==> answer == Ok::<ReplyModel, Seq<char>>(ReplyModel::Ack(true))
                && takes_up(provider, next, pending)
            &&& answer is Err ==> next == provider
            &&& fit && answer is Err ==> is_turned_away(provider, answer, pending)
            &&& !provider.roots.contains_key(update.uid) ==> answer == Err::<ReplyModel, Seq<char>>(
                "unknown root"@,
            )
            &&& provider.roots.contains_key(update.uid) && update.operation != "PwdUpdate"@
                ==> answer == Err::<ReplyModel, Seq<char>>("wrong operation"@)
            &&& provider.roots.contains_key(update.uid) && update.operation == "PwdUpdate"@
                && !is_addressed ==> answer == Err::<ReplyModel, Seq<char>>(
                "wrong provider index"@,
            )
            &&& is_addressed && update.timestamp_old != root.timestamp ==> answer == Err::<
                ReplyModel,
                Seq<char>,
            >("old timestamp mismatch"@)
            &&& is_addressed && update.timestamp_old == root.timestamp && !is_next ==> answer
                == Err::<ReplyModel, Seq<char>>("non-increasing timestamp"@)
            &&& is_addressed && is_next && !is_timely ==> answer == Err::<ReplyModel, Seq<char>>(
                "outside clock window"@,
            )
            &&& is_addressed && is_next && is_timely && update.cid_new.len() != 136 ==> answer
                == Err::<ReplyModel, Seq<char>>("invalid ciphertext length"@)
            &&& is_addressed && is_next && is_timely && update.cid_new.len() == 136 && !is_whole
                ==> answer == Err::<ReplyModel, Seq<char>>("invalid share"@)
            &&& is_addressed && is_next && is_timely && is_whole && !is_signed ==> answer == Err::<
                ReplyModel,
                Seq<char>,
            >(
                if update.signature.len() == 64 && !ed25519_key_valid(root.svk) {
                    "invalid key"@
                } else {
                    "invalid signature"@
                },
            )
        }),
{
}

/// Whatever timestamp is committed, an accepted password update lies within the clock
/// window of the present, ahead of it or behind.
pub proof fn law_accepted_update_is_within_the_clock_window(
    provider: ProviderModel,
    update: PasswordUpdateModel,
    now: u64,
)
    requires
        provider_answer(provider, UpRequestModel::PasswordUpdate(update), now) is Ok,
    ensures
        update.timestamp_new - now <= provider.clock_window_ms,
        now - update.timestamp_new <= provider.clock_window_ms,
{
}

/// Store or Discard takes effect exactly on the transaction that is pending under the very
/// same binding: it is pending no more, the decision is remembered, and Store puts the
/// replacement in the place of the record. A finalized binding is only compared with the
/// first decision, and any other binding is not acknowledged; neither changes anything.
pub proof fn law_finalization_commits_what_is_pending(
    provider: ProviderModel,
    binding: BindingModel,
    store: bool,
    now: u64,
)
    requires
        provider.wf(),
    ensures
        ({
            let request = UpRequestModel::Finalize { binding, store };
            let answer = provider_answer(provider, request, now);
            let next = provider_next(provider, request, now);
            let waits = provider.pending.contains_key(binding.record)
                && provider.pending[binding.record].binding == binding;
            let replacement = provider.pending[binding.record].replacement;
            &&& provider.completed.contains_key(binding) ==> next == provider && answer == Ok::<
                ReplyModel,
                Seq<char>,
            >(ReplyModel::Ack(provider.completed[binding] == store))
            &&& !provider.completed.contains_key(binding) && !waits ==> next == provider && answer
                == Ok::<ReplyModel, Seq<char>>(ReplyModel::Ack(false))
            &&& waits ==> {
                &&& answer == Ok::<ReplyModel, Seq<char>>(ReplyModel::Ack(true))
                &&& next.provider_id == provider.provider_id
                &&& next.clock_window_ms == provider.clock_window_ms
                &&& next.pending =~= provider.pending.remove(binding.record)
                &&& next.completed =~= provider.completed.insert(binding, store)
            }
            &&& waits && !store ==> next.roots == provider.roots && next.accounts
                == provider.accounts
            &&& waits && store ==> match (binding.record, replacement) {
                (RecordIdModel::Root(uid), ReplacementModel::Root(root)) => {
                    &&& next.roots =~= provider.roots.insert(uid, root)
                    &&& next.accounts == provider.accounts
                },
                (RecordIdModel::Account(suid), ReplacementModel::Account(ciphertext)) => {
                    &&& next.accounts =~= provider.accounts.insert(suid, ciphertext)
                    &&& next.roots == provider.roots
                },
                _ => false,
            }
        }),
{
}

} // verus!
