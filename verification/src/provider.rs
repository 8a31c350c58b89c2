//! The UpSPA storage provider: committed records, pending replacements and their
//! finalization.

use vstd::prelude::*;

use crate::bytes::{copy_bytes, same_bytes, same_text, to_array};
use crate::crypto::is_blob;
use crate::group::{multiply_point, point_decodes, point_mul};
use crate::interpolation::order;
use crate::messages::{
    answer, decode_blob, message, optional_bytes, ACCOUNT_LEN, Answer, Binding, BindingModel, Key,
    PasswordUpdate, PasswordUpdateModel, Phase, ROOT_LEN, RecordId, RecordIdModel, Reply,
    ReplyModel, Result, Root, RootModel, UpRequest, UpRequestModel,
};
use crate::scalar::{is_canonical, scalar_is_canonical, scalar_value};
use crate::signature::{ed25519_key_valid, ed25519_verifies, is_verification_key, verify_strict};
use crate::table::{Record, RecordKey, Table};

verus! {

/// The value that a pending transaction would commit.
#[derive(Debug, PartialEq, Eq)]
pub enum Replacement {
    Root(Root),
    Account(Vec<u8>),
}

/// Model of [`Replacement`].
pub enum ReplacementModel {
    Root(RootModel),
    Account(Seq<u8>),
}

impl View for Replacement {
    type V = ReplacementModel;

    open spec fn view(&self) -> ReplacementModel {
        match self {
            Replacement::Root(root) => ReplacementModel::Root(root@),
            Replacement::Account(ciphertext) => ReplacementModel::Account(ciphertext@),
        }
    }
}

impl Clone for Replacement {
    fn clone(&self) -> (copy: Self)
        ensures
            copy@ == self@,
    {
        match self {
            Replacement::Root(root) => Replacement::Root(root.clone()),
            Replacement::Account(ciphertext) => Replacement::Account(
                copy_bytes(ciphertext.as_slice()),
            ),
        }
    }
}

impl Replacement {
    /// Whether two replacements would commit the same value.
    pub fn same(&self, other: &Self) -> (same: bool)
        ensures
            same == (self@ == other@),
    {
        match (self, other) {
            (Replacement::Root(a), Replacement::Root(b)) => a.same(b),
            (Replacement::Account(a), Replacement::Account(b)) => same_bytes(
                a.as_slice(),
                b.as_slice(),
            ),
            _ => false,
        }
    }
}

/// A prepared transaction that waits for Store or Discard.
#[derive(Debug)]
pub struct Pending {
    pub binding: Binding,
    pub replacement: Replacement,
}

/// Model of [`Pending`].
pub struct PendingModel {
    pub binding: BindingModel,
    pub replacement: ReplacementModel,
}

impl View for Pending {
    type V = PendingModel;

    open spec fn view(&self) -> PendingModel {
        PendingModel { binding: self.binding@, replacement: self.replacement@ }
    }
}

impl Clone for Pending {
    fn clone(&self) -> (copy: Self)
        ensures
            copy@ == self@,
    {
        Pending { binding: self.binding.clone(), replacement: self.replacement.clone() }
    }
}

impl Record for Pending {
    fn copy(&self) -> (copy: Self) {
        self.clone()
    }
}

/// The state of a storage provider.
pub struct UpSpaProvider {
    pub provider_id: u32,
    pub roots: Table<Vec<u8>, Root>,
    pub accounts: Table<Key, Vec<u8>>,
    pub pending: Table<RecordId, Pending>,
    pub completed: Table<Binding, bool>,
    pub clock_window_ms: u64,
}

/// Model of [`UpSpaProvider`].
pub struct ProviderModel {
    pub provider_id: u32,
    pub roots: Map<Seq<u8>, RootModel>,
    pub accounts: Map<Seq<u8>, Seq<u8>>,
    pub pending: Map<RecordIdModel, PendingModel>,
    pub completed: Map<BindingModel, bool>,
    pub clock_window_ms: u64,
}

impl View for UpSpaProvider {
    type V = ProviderModel;

    open spec fn view(&self) -> ProviderModel {
        ProviderModel {
            provider_id: self.provider_id,
            roots: self.roots@,
            accounts: self.accounts@,
            pending: self.pending@,
            completed: self.completed@,
            clock_window_ms: self.clock_window_ms,
        }
    }
}

impl Clone for UpSpaProvider {
    fn clone(&self) -> (copy: Self)
        ensures
            copy@ == self@,
    {
        UpSpaProvider {
            provider_id: self.provider_id,
            roots: self.roots.clone(),
            accounts: self.accounts.clone(),
            pending: self.pending.clone(),
            completed: self.completed.clone(),
            clock_window_ms: self.clock_window_ms,
        }
    }
}

/// A pending transaction fits the record that it is pending for.
pub open spec fn fits_record(record: RecordIdModel, pending: PendingModel) -> bool {
    &&& pending.binding.record == record
    &&& match (record, pending.replacement) {
        (RecordIdModel::Root(uid), ReplacementModel::Root(root)) => root.uid == uid && (
        pending.binding.phase == Phase::Setup || pending.binding.phase == Phase::PasswordUpdate),
        (RecordIdModel::Account(_), ReplacementModel::Account(_)) => pending.binding.phase
            == Phase::Registration || pending.binding.phase == Phase::SecretUpdate,
        _ => false,
    }
}

impl ProviderModel {
    /// Roots lie under their user, pending transactions under the record that they
    /// replace, and none of those is finalized already.
    pub open spec fn wf(self) -> bool {
        &&& forall|uid: Seq<u8>|
            #![trigger self.roots[uid]]
            self.roots.contains_key(uid) ==> self.roots[uid].uid == uid
        &&& forall|record: RecordIdModel|
            #![trigger self.pending[record]]
            self.pending.contains_key(record) ==> fits_record(record, self.pending[record])
                && !self.completed.contains_key(self.pending[record].binding)
    }

    /// The same state with other pending transactions.
    pub open spec fn with_pending(
        self,
        pending: Map<RecordIdModel, PendingModel>,
    ) -> ProviderModel {
        ProviderModel { pending, ..self }
    }

    /// Whether a pending transaction under the binding's record has this binding.
    pub open spec fn is_pending(self, binding: BindingModel) -> bool {
        self.pending.contains_key(binding.record) && self.pending[binding.record].binding
            == binding
    }
}

/// The answer to a prepared transaction: a finalized session and another pending
/// transaction on the record are refused; the same preparation may be repeated.
pub open spec fn prepare_answer(provider: ProviderModel, pending: PendingModel) -> Answer {
    let record = pending.binding.record;
    if provider.completed.contains_key(pending.binding) {
        Err("session already finalized"@)
    } else if provider.pending.contains_key(record) && provider.pending[record] != pending {
        Err("pending conflict"@)
    } else {
        Ok(ReplyModel::Ack(true))
    }
}

/// The state after a prepared transaction: it is pending if it was accepted.
pub open spec fn prepare_next(provider: ProviderModel, pending: PendingModel) -> ProviderModel {
    if prepare_answer(provider, pending) is Ok {
        provider.with_pending(provider.pending.insert(pending.binding.record, pending))
    } else {
        provider
    }
}

/// What stands against a setup request.
pub open spec fn setup_objection(provider: ProviderModel, root: RootModel) -> Option<Seq<char>> {
    if provider.roots.contains_key(root.uid) {
        Some("root already exists"@)
    } else if root.timestamp != 0 {
        Some("setup timestamp must be zero"@)
    } else if !is_blob(root.cid, ROOT_LEN as int) {
        Some("invalid ciphertext length"@)
    } else if !ed25519_key_valid(root.svk) {
        Some("invalid verification key"@)
    } else if !is_canonical(root.share) {
        Some("invalid share"@)
    } else {
        None
    }
}

/// The transaction of a setup request.
pub open spec fn setup_pending(sid: Seq<u8>, root: RootModel) -> PendingModel {
    PendingModel {
        binding: BindingModel { sid, phase: Phase::Setup, record: RecordIdModel::Root(root.uid) },
        replacement: ReplacementModel::Root(root),
    }
}

/// What stands against preparing an account: registration needs a free address,
/// replacement needs the expected ciphertext in place.
pub open spec fn account_objection(
    provider: ProviderModel,
    binding: BindingModel,
    ciphertext: Seq<u8>,
    expected: Option<Seq<u8>>,
) -> Option<Seq<char>> {
    match binding.record {
        RecordIdModel::Root(_) => Some("wrong record type"@),
        RecordIdModel::Account(suid) => if !is_blob(ciphertext, ACCOUNT_LEN as int) {
            Some("invalid ciphertext length"@)
        } else if binding.phase == Phase::Registration && expected is None
            && !provider.accounts.contains_key(suid) {
            None
        } else if binding.phase == Phase::SecretUpdate && expected is Some
            && provider.accounts.contains_key(suid) && provider.accounts[suid] == expected->0 {
            None
        } else {
            Some("account precondition failed"@)
        },
    }
}

/// The distance between two points in time.
pub open spec fn distance(a: u64, b: u64) -> int {
    if a >= b {
        a - b
    } else {
        b - a
    }
}

/// What stands against a password update.
pub open spec fn update_objection(
    provider: ProviderModel,
    update: PasswordUpdateModel,
    now: u64,
) -> Option<Seq<char>> {
    if !provider.roots.contains_key(update.uid) {
        Some("unknown root"@)
    } else {
        let root = provider.roots[update.uid];
        if update.operation != "PwdUpdate"@ {
            Some("wrong operation"@)
        } else if update.provider_id != provider.provider_id {
            Some("wrong provider index"@)
        } else if update.timestamp_old != root.timestamp {
            Some("old timestamp mismatch"@)
        } else if update.timestamp_new <= update.timestamp_old {
            Some("non-increasing timestamp"@)
        } else if distance(update.timestamp_new, now) > provider.clock_window_ms {
            Some("outside clock window"@)
        } else if !is_blob(update.cid_new, ROOT_LEN as int) {
            Some("invalid ciphertext length"@)
        } else if !is_canonical(update.share_new) {
            Some("invalid share"@)
        } else if update.signature.len() != 64 {
            Some("invalid signature"@)
        } else if !ed25519_key_valid(root.svk) {
            Some("invalid key"@)
        } else if !ed25519_verifies(root.svk, update.signed_bytes(), update.signature) {
            Some("invalid signature"@)
        } else {
            None
        }
    }
}

/// The transaction of a password update: ciphertext, share and timestamp change, user
/// and verification key stay.
pub open spec fn update_pending(root: RootModel, update: PasswordUpdateModel) -> PendingModel {
    PendingModel {
        binding: BindingModel {
            sid: update.sid,
            phase: Phase::PasswordUpdate,
            record: RecordIdModel::Root(update.uid),
        },
        replacement: ReplacementModel::Root(
            RootModel {
                uid: root.uid,
                svk: root.svk,
                cid: update.cid_new,
                share: update.share_new,
                timestamp: update.timestamp_new,
            },
        ),
    }
}

/// The state after a replacement is put in place.
pub open spec fn committed(
    provider: ProviderModel,
    binding: BindingModel,
    replacement: ReplacementModel,
) -> ProviderModel {
    match replacement {
        ReplacementModel::Root(root) => ProviderModel {
            roots: provider.roots.insert(root.uid, root),
            ..provider
        },
        ReplacementModel::Account(ciphertext) => match binding.record {
            RecordIdModel::Account(suid) => ProviderModel {
                accounts: provider.accounts.insert(suid, ciphertext),
                ..provider
            },
            RecordIdModel::Root(_) => provider,
        },
    }
}

/// The answer to Store or Discard: a repeated finalization is confirmed if it agrees
/// with the first, a binding that is not pending is not confirmed.
pub open spec fn finalize_answer(
    provider: ProviderModel,
    binding: BindingModel,
    store: bool,
) -> Answer {
    if provider.completed.contains_key(binding) {
        Ok(ReplyModel::Ack(provider.completed[binding] == store))
    } else {
        Ok(ReplyModel::Ack(provider.is_pending(binding)))
    }
}

/// The state after Store or Discard: only a pending binding that was not finalized
/// before has an effect.
pub open spec fn finalize_next(
    provider: ProviderModel,
    binding: BindingModel,
    store: bool,
) -> ProviderModel {
    if provider.completed.contains_key(binding) || !provider.is_pending(binding) {
        provider
    } else {
        let pending = provider.pending[binding.record];
        let rest = ProviderModel {
            pending: provider.pending.remove(binding.record),
            completed: provider.completed.insert(binding, store),
            ..provider
        };
        if store {
            committed(rest, binding, pending.replacement)
        } else {
            rest
        }
    }
}

/// The answer to an identification request: the committed ciphertext and timestamp, and
/// the blinded element times the committed share.
pub open spec fn identify_answer(
    provider: ProviderModel,
    uid: Seq<u8>,
    blinded: Seq<u8>,
) -> Answer {
    if !provider.roots.contains_key(uid) {
        Err("unknown root"@)
    } else if !point_decodes(blinded) {
        Err("invalid point"@)
    } else {
        let root = provider.roots[uid];
        Ok(
            ReplyModel::Identification {
                cid: root.cid,
                timestamp: root.timestamp,
                contribution: point_mul(blinded, scalar_value(root.share)),
            },
        )
    }
}

/// The answer of the objection if there is one, else of the preparation.
pub open spec fn unless(objection: Option<Seq<char>>, otherwise: Answer) -> Answer {
    match objection {
        Some(e) => Err(e),
        None => otherwise,
    }
}

/// What the provider answers.
pub open spec fn provider_answer(
    provider: ProviderModel,
    request: UpRequestModel,
    now: u64,
) -> Answer {
    match request {
        UpRequestModel::Setup { sid, root } => unless(
            setup_objection(provider, root),
            prepare_answer(provider, setup_pending(sid, root)),
        ),
        UpRequestModel::Identify { uid, blinded } => identify_answer(provider, uid, blinded),
        UpRequestModel::ReadAccount { suid } => if provider.accounts.contains_key(suid) {
            Ok(ReplyModel::Account(provider.accounts[suid]))
        } else {
            Err("unknown account"@)
        },
        UpRequestModel::PrepareAccount { binding, ciphertext, expected } => unless(
            account_objection(provider, binding, ciphertext, expected),
            prepare_answer(
                provider,
                PendingModel { binding, replacement: ReplacementModel::Account(ciphertext) },
            ),
        ),
        UpRequestModel::PasswordUpdate(update) => unless(
            update_objection(provider, update, now),
            prepare_answer(provider, update_pending(provider.roots[update.uid], update)),
        ),
        UpRequestModel::Finalize { binding, store } => finalize_answer(provider, binding, store),
    }
}

/// The provider's state after a request.
pub open spec fn provider_next(
    provider: ProviderModel,
    request: UpRequestModel,
    now: u64,
) -> ProviderModel {
    match request {
        UpRequestModel::Setup { sid, root } => if setup_objection(provider, root) is None {
            prepare_next(provider, setup_pending(sid, root))
        } else {
            provider
        },
        UpRequestModel::Identify { .. } => provider,
        UpRequestModel::ReadAccount { .. } => provider,
        UpRequestModel::PrepareAccount { binding, ciphertext, expected } => if account_objection(
            provider,
            binding,
            ciphertext,
            expected,
        ) is None {
            prepare_next(
                provider,
                PendingModel { binding, replacement: ReplacementModel::Account(ciphertext) },
            )
        } else {
            provider
        },
        UpRequestModel::PasswordUpdate(update) => if update_objection(provider, update, now) is None {
            prepare_next(provider, update_pending(provider.roots[update.uid], update))
        } else {
            provider
        },
        UpRequestModel::Finalize { binding, store } => finalize_next(provider, binding, store),
    }
}

impl UpSpaProvider {
    /// A provider without records.
    pub fn new(provider_id: u32, clock_window_ms: u64) -> (provider: Self)
        ensures
            provider@ == (ProviderModel {
                provider_id,
                roots: Map::empty(),
                accounts: Map::empty(),
                pending: Map::empty(),
                completed: Map::empty(),
                clock_window_ms,
            }),
            provider@.wf(),
    {
        UpSpaProvider {
            provider_id,
            roots: Table::new(),
            accounts: Table::new(),
            pending: Table::new(),
            completed: Table::new(),
            clock_window_ms,
        }
    }

    /// Makes a transaction pending.
    pub fn prepare(&mut self, binding: Binding, replacement: Replacement) -> (result: Result<Reply>)
        requires
            old(self)@.wf(),
        ensures
            answer(result) == prepare_answer(
                old(self)@,
                PendingModel { binding: binding@, replacement: replacement@ },
            ),
            final(self)@ == prepare_next(
                old(self)@,
                PendingModel { binding: binding@, replacement: replacement@ },
            ),
            fits_record(
                binding@.record,
                PendingModel { binding: binding@, replacement: replacement@ },
            ) ==> final(self)@.wf(),
    {
        let ghost pending = PendingModel { binding: binding@, replacement: replacement@ };
        if self.completed.contains_key(&binding) {
            return Err(message("session already finalized"));
        }
        match self.pending.get(&binding.record) {
            Some(present) => {
                if present.binding.same(&binding) && present.replacement.same(&replacement) {
                    assert(self@.pending.insert(binding@.record, pending) =~= self@.pending);
                    return Ok(Reply::Ack(true));
                }
                return Err(message("pending conflict"));
            },
            None => {},
        }
        let record = binding.record.clone();
        self.pending.insert(record, Pending { binding, replacement });
        Ok(Reply::Ack(true))
    }

    fn setup(&mut self, sid: [u8; 16], root: Root) -> (result: Result<Reply>)
        requires
            old(self)@.wf(),
        ensures
            answer(result) == unless(
                setup_objection(old(self)@, root@),
                prepare_answer(old(self)@, setup_pending(sid@, root@)),
            ),
            final(self)@ == (if setup_objection(old(self)@, root@) is None {
                prepare_next(old(self)@, setup_pending(sid@, root@))
            } else {
                old(self)@
            }),
            final(self)@.wf(),
    {
        if self.roots.contains_key(&root.uid) {
            return Err(message("root already exists"));
        }
        if root.timestamp != 0 {
            return Err(message("setup timestamp must be zero"));
        }
        match decode_blob::<ROOT_LEN>(root.cid.as_slice()) {
            Ok(_) => {},
            Err(error) => {
                return Err(error);
            },
        }
        if !is_verification_key(&root.svk) {
            return Err(message("invalid verification key"));
        }
        if !scalar_is_canonical(&root.share) {
            return Err(message("invalid share"));
        }
        let record = RecordId::Root(copy_bytes(root.uid.as_slice()));
        self.prepare(Binding { sid, phase: Phase::Setup, record }, Replacement::Root(root))
    }

    fn prepare_account(
        &mut self,
        binding: Binding,
        ciphertext: Vec<u8>,
        expected: Option<Vec<u8>>,
    ) -> (result: Result<Reply>)
        requires
            old(self)@.wf(),
        ensures
            answer(result) == unless(
                account_objection(old(self)@, binding@, ciphertext@, optional_bytes(expected)),
                prepare_answer(
                    old(self)@,
                    PendingModel {
                        binding: binding@,
                        replacement: ReplacementModel::Account(ciphertext@),
                    },
                ),
            ),
            final(self)@ == (if account_objection(
                old(self)@,
                binding@,
                ciphertext@,
                optional_bytes(expected),
            ) is None {
                prepare_next(
                    old(self)@,
                    PendingModel {
                        binding: binding@,
                        replacement: ReplacementModel::Account(ciphertext@),
                    },
                )
            } else {
                old(self)@
            }),
            final(self)@.wf(),
    {
        let suid = match &binding.record {
            RecordId::Account(suid) => *suid,
            RecordId::Root(_) => {
                return Err(message("wrong record type"));
            },
        };
        match decode_blob::<ACCOUNT_LEN>(ciphertext.as_slice()) {
            Ok(_) => {},
            Err(error) => {
                return Err(error);
            },
        }
        let met = match (binding.phase, &expected) {
            (Phase::Registration, None) => !self.accounts.contains_key(&suid),
            (Phase::SecretUpdate, Some(current)) => match self.accounts.get(&suid) {
                Some(stored) => same_bytes(stored.as_slice(), current.as_slice()),
                None => false,
            },
            _ => false,
        };
        if !met {
            return Err(message("account precondition failed"));
        }
        self.prepare(binding, Replacement::Account(ciphertext))
    }

    fn password_update(&mut self, update: PasswordUpdate, now: u64) -> (result: Result<Reply>)
        requires
            old(self)@.wf(),
        ensures
            answer(result) == unless(
                update_objection(old(self)@, update@, now),
                prepare_answer(
                    old(self)@,
                    update_pending(old(self)@.roots[update@.uid], update@),
                ),
            ),
            final(self)@ == (if update_objection(old(self)@, update@, now) is None {
                prepare_next(old(self)@, update_pending(old(self)@.roots[update@.uid], update@))
            } else {
                old(self)@
            }),
            final(self)@.wf(),
    {
        let root = match self.roots.get(&update.uid) {
            Some(root) => root,
            None => {
                return Err(message("unknown root"));
            },
        };
        if !same_text(update.operation.as_str(), "PwdUpdate") {
            return Err(message("wrong operation"));
        }
        if update.provider_id != self.provider_id {
            return Err(message("wrong provider index"));
        }
        if update.timestamp_old != root.timestamp {
            return Err(message("old timestamp mismatch"));
        }
        if update.timestamp_new <= update.timestamp_old {
            return Err(message("non-increasing timestamp"));
        }
        let apart: u64 = if update.timestamp_new >= now {
            update.timestamp_new - now
        } else {
            now - update.timestamp_new
        };
        if apart > self.clock_window_ms {
            return Err(message("outside clock window"));
        }
        match decode_blob::<ROOT_LEN>(update.cid_new.as_slice()) {
            Ok(_) => {},
            Err(error) => {
                return Err(error);
            },
        }
        if !scalar_is_canonical(&update.share_new) {
            return Err(message("invalid share"));
        }
        if update.signature.len() != 64 {
            return Err(message("invalid signature"));
        }
        let signature: [u8; 64] = to_array(update.signature.as_slice());
        if !is_verification_key(&root.svk) {
            return Err(message("invalid key"));
        }
        if !verify_strict(&root.svk, update.signed_bytes().as_slice(), &signature) {
            return Err(message("invalid signature"));
        }
        let replacement = Root {
            uid: copy_bytes(root.uid.as_slice()),
            svk: root.svk,
            cid: update.cid_new,
            share: update.share_new,
            timestamp: update.timestamp_new,
        };
        self.prepare(
            Binding {
                sid: update.sid,
                phase: Phase::PasswordUpdate,
                record: RecordId::Root(update.uid),
            },
            Replacement::Root(replacement),
        )
    }

    fn finalize(&mut self, binding: Binding, store: bool) -> (result: Result<Reply>)
        requires
            old(self)@.wf(),
        ensures
            answer(result) == finalize_answer(old(self)@, binding@, store),
            final(self)@ == finalize_next(old(self)@, binding@, store),
            final(self)@.wf(),
    {
        match self.completed.get(&binding) {
            Some(done) => {
                return Ok(Reply::Ack(*done == store));
            },
            None => {},
        }
        let matching = match self.pending.get(&binding.record) {
            Some(pending) => pending.binding.same(&binding),
            None => false,
        };
        if !matching {
            return Ok(Reply::Ack(false));
        }
        let pending = match self.pending.remove(&binding.record) {
            Some(pending) => pending,
            None => {
                return Ok(Reply::Ack(false));
            },
        };
        if store {
            match pending.replacement {
                Replacement::Root(root) => {
                    let uid = copy_bytes(root.uid.as_slice());
                    self.roots.insert(uid, root);
                },
                Replacement::Account(ciphertext) => {
                    match &binding.record {
                        RecordId::Account(suid) => {
                            self.accounts.insert(*suid, ciphertext);
                        },
                        RecordId::Root(_) => {
                            assert(false);
                        },
                    }
                },
            }
        }
        self.completed.insert(binding, store);
        Ok(Reply::Ack(true))
    }

    /// Answers one request at the time `now`.
    pub fn handle(&mut self, request: UpRequest, now: u64) -> (result: Result<Reply>)
        requires
            old(self)@.wf(),
        ensures
            answer(result) == provider_answer(old(self)@, request@, now),
            final(self)@ == provider_next(old(self)@, request@, now),
            final(self)@.wf(),
            request@ matches UpRequestModel::Identify { uid, blinded } ==> (answer(result) matches Ok(
                ReplyModel::Identification { contribution, .. },
            ) ==> evaluates(contribution, blinded, scalar_value(old(self)@.roots[uid].share))),
    {
        match request {
            UpRequest::Setup { sid, root } => self.setup(sid, root),
            UpRequest::Identify { uid, blinded } => {
                let root = match self.roots.get(&uid) {
                    Some(root) => root,
                    None => {
                        return Err(message("unknown root"));
                    },
                };
                match multiply_point(&blinded, &root.share) {
                    Some(contribution) => Ok(
                        Reply::Identification {
                            cid: copy_bytes(root.cid.as_slice()),
                            timestamp: root.timestamp,
                            contribution,
                        },
                    ),
                    None => Err(message("invalid point")),
                }
            },
            UpRequest::ReadAccount { suid } => match self.accounts.get(&suid) {
                Some(ciphertext) => Ok(Reply::Account(copy_bytes(ciphertext.as_slice()))),
                None => Err(message("unknown account")),
            },
            UpRequest::PrepareAccount { binding, ciphertext, expected } => self.prepare_account(
                binding,
                ciphertext,
                expected,
            ),
            UpRequest::PasswordUpdate(update) => self.password_update(update, now),
            UpRequest::Finalize { binding, store } => self.finalize(binding, store),
        }
    }
}

/// A contribution is the blinded element's multiple by a share, also where the blinded
/// element is itself a multiple of another.
pub open spec fn evaluates(contribution: Seq<u8>, blinded: Seq<u8>, share: int) -> bool {
    &&& contribution == point_mul(blinded, share)
    &&& point_decodes(contribution)
    &&& forall|base: Seq<u8>, x: int|
        #![trigger point_mul(base, x)]
        point_decodes(base) && 0 <= x < order() && blinded == point_mul(base, x) ==> contribution
            == point_mul(base, (x * share) % order())
}

} // verus!
