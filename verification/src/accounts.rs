//! Accounts: their context, recovery from the replies of providers, and the requests
//! that write one, from given randomness.

use vstd::prelude::*;

use vstd::bytes::{
    lemma_auto_spec_u64_to_from_le_bytes, spec_u64_from_le_bytes, spec_u64_to_le_bytes,
    u64_from_le_bytes, u64_to_le_bytes,
};

use crate::agreement::{votes, Vote};
use crate::bytes::{append_bytes, copy_bytes, slice_of, to_array};
use crate::client::{IdentifiedState, StateModel};
use crate::crypto::{
    account_address, hash_upspa_suid, hash_vinfo, is_blob, opened, sealed_blob, vinfo,
    xchacha_decrypt_detached, xchacha_encrypt_with_nonce,
};
use crate::messages::{
    decode_blob, message, ACCOUNT_LEN, Binding, BindingModel, Key, LsRequest, LsRequestModel, Phase,
    RecordId, RecordIdModel, Reply, ReplyModel, Request, RequestModel, Result, Sid, UpRequest,
    UpRequestModel,
};
use crate::stage::sent;
use crate::transport::Target;
use crate::wire::{
    encoded_bytes, encoded_text, fits, labelled_pair, lemma_encoded_bytes_prefix,
    serialize_labelled_pair,
};

verus! {

/// The associated data of an account: user and login server.
pub open spec fn context(uid: Seq<u8>, ls: Seq<u8>) -> Seq<u8> {
    labelled_pair("account"@, uid, ls)
}

/// The associated data of an account: user and login server.
pub fn account_context(uid: &[u8], ls: &[u8]) -> (bytes: Vec<u8>)
    ensures
        bytes@ == context(uid@, ls@),
{
    serialize_labelled_pair("account", uid, ls)
}

/// The context of an account determines user and login server.
pub proof fn law_context_binds_user_and_server(
    uid: Seq<u8>,
    ls: Seq<u8>,
    other_uid: Seq<u8>,
    other_ls: Seq<u8>,
)
    requires
        fits(uid),
        fits(ls),
        fits(other_uid),
        fits(other_ls),
    ensures
        context(uid, ls) == context(other_uid, other_ls) <==> uid == other_uid && ls == other_ls,
{
    if context(uid, ls) == context(other_uid, other_ls) {
        let label = encoded_text("account"@);
        let a = encoded_bytes(uid) + encoded_bytes(ls);
        let b = encoded_bytes(other_uid) + encoded_bytes(other_ls);
        assert(context(uid, ls) =~= label + a);
        assert(context(other_uid, other_ls) =~= label + b);
        assert(a =~= context(uid, ls).skip(label.len() as int));
        assert(b =~= context(other_uid, other_ls).skip(label.len() as int));
        lemma_encoded_bytes_prefix(
            uid,
            encoded_bytes(ls),
            other_uid,
            encoded_bytes(other_ls),
        );
        assert(encoded_bytes(ls) + Seq::<u8>::empty() =~= encoded_bytes(
            ls,
        ));
        assert(encoded_bytes(other_ls) + Seq::<u8>::empty()
            =~= encoded_bytes(other_ls));
        lemma_encoded_bytes_prefix(ls, Seq::empty(), other_ls, Seq::empty());
    }
}

/// The plaintext of an account: login secret and counter.
pub open spec fn account_plaintext(secret: Seq<u8>, counter: u64) -> Seq<u8> {
    secret + spec_u64_to_le_bytes(counter)
}

/// A recovered account: login secret, counter and the ciphertext that they were in.
pub struct Account {
    pub secret: Key,
    pub counter: u64,
    pub ciphertext: Vec<u8>,
}

/// Model of [`Account`].
pub struct AccountModel {
    pub secret: Seq<u8>,
    pub counter: u64,
    pub ciphertext: Seq<u8>,
}

impl View for Account {
    type V = AccountModel;

    open spec fn view(&self) -> AccountModel {
        AccountModel {
            secret: self.secret@,
            counter: self.counter,
            ciphertext: self.ciphertext@,
        }
    }
}

/// What recovering an account can give.
pub type AccountResult = std::result::Result<AccountModel, Seq<char>>;

/// Model of what recovering an account gave.
pub open spec fn account_result(result: Result<Account>) -> AccountResult {
    match result {
        Ok(account) => Ok(account@),
        Err(error) => Err(error@),
    }
}

/// The requests of a recovery: each provider is asked for its own address.
pub open spec fn read_messages(n: int, rsp: Seq<u8>, ls: Seq<u8>) -> Seq<(Target, RequestModel)> {
    Seq::new(
        n as nat,
        |i: int|
            (
                Target::Provider((i + 1) as u32),
                RequestModel::Up(
                    UpRequestModel::ReadAccount { suid: account_address(rsp, ls, (i + 1) as u32) },
                ),
            ),
    )
}

/// The requests of a recovery.
pub fn read_requests(n: usize, rsp: &Key, ls: &[u8]) -> (requests: Vec<(Target, Request)>)
    requires
        n <= u32::MAX,
    ensures
        sent(requests@) == read_messages(n as int, rsp@, ls@),
{
    let mut requests: Vec<(Target, Request)> = Vec::new();
    let mut i: usize = 0;
    while i < n
        invariant
            i <= n <= u32::MAX,
            requests@.len() == i,
            forall|k: int|
                #![trigger requests@[k]]
                0 <= k < i ==> (requests@[k].0, requests@[k].1@) == read_messages(
                    n as int,
                    rsp@,
                    ls@,
                )[k],
        decreases n - i,
    {
        let id: u32 = (i + 1) as u32;
        let request = UpRequest::ReadAccount { suid: hash_upspa_suid(rsp, ls, id) };
        requests.push((Target::Provider(id), Request::Up(request)));
        i += 1;
    }
    assert(sent(requests@) =~= read_messages(n as int, rsp@, ls@));
    requests
}

/// The account in a ciphertext.
pub open spec fn account_in(
    k0: Seq<u8>,
    uid: Seq<u8>,
    ls: Seq<u8>,
    ciphertext: Seq<u8>,
) -> AccountResult {
    if !is_blob(ciphertext, ACCOUNT_LEN as int) {
        Err("invalid ciphertext length"@)
    } else {
        match opened(k0, context(uid, ls), ciphertext) {
            Some(plaintext) => Ok(
                AccountModel {
                    secret: plaintext.subrange(0, 32),
                    counter: spec_u64_from_le_bytes(plaintext.subrange(32, 40)),
                    ciphertext,
                },
            ),
            None => Err("account decryption failed"@),
        }
    }
}

/// What a recovery ends with, given the replies that were agreed on.
pub open spec fn recovered(
    k0: Seq<u8>,
    uid: Seq<u8>,
    ls: Seq<u8>,
    accepted: Seq<Vote>,
) -> AccountResult {
    match accepted[0].1 {
        ReplyModel::Account(ciphertext) => account_in(k0, uid, ls, ciphertext),
        _ => Err("invalid account response"@),
    }
}

/// Reads the account from the replies that were agreed on.
pub fn recover_account(
    k0: &Key,
    uid: &[u8],
    ls: &[u8],
    accepted: &[(u32, Reply)],
) -> (result: Result<
    Account,
>)
    requires
        accepted@.len() >= 1,
    ensures
        account_result(result) == recovered(k0@, uid@, ls@, votes(accepted@)),
{
    assert(votes(accepted@)[0].1 == accepted@[0].1@);
    let ciphertext = match &accepted[0].1 {
        Reply::Account(ciphertext) => ciphertext,
        _ => {
            return Err(message("invalid account response"));
        },
    };
    let blob = match decode_blob::<ACCOUNT_LEN>(ciphertext.as_slice()) {
        Ok(blob) => blob,
        Err(error) => {
            return Err(error);
        },
    };
    match xchacha_decrypt_detached(k0, account_context(uid, ls).as_slice(), &blob) {
        Ok(plaintext) => Ok(
            Account {
                secret: to_array(slice_of(plaintext.as_slice(), 0, 32)),
                counter: u64_from_le_bytes(slice_of(plaintext.as_slice(), 32, 40)),
                ciphertext: copy_bytes(ciphertext.as_slice()),
            },
        ),
        Err(_) => Err(message("account decryption failed")),
    }
}

/// The ciphertext of an account opens to secret and counter.
pub open spec fn account_opens(
    ciphertext: Seq<u8>,
    k0: Seq<u8>,
    uid: Seq<u8>,
    ls: Seq<u8>,
    secret: Seq<u8>,
    counter: u64,
) -> bool {
    &&& is_blob(ciphertext, ACCOUNT_LEN as int)
    &&& opened(k0, context(uid, ls), ciphertext) == Some(account_plaintext(secret, counter))
    &&& secret.len() == 32
}

/// What was written as an account is what is recovered from it.
pub proof fn law_written_account_is_recovered(
    ciphertext: Seq<u8>,
    k0: Seq<u8>,
    uid: Seq<u8>,
    ls: Seq<u8>,
    secret: Seq<u8>,
    counter: u64,
)
    requires
        account_opens(ciphertext, k0, uid, ls, secret, counter),
    ensures
        account_in(k0, uid, ls, ciphertext) == Ok::<AccountModel, Seq<char>>(
            AccountModel { secret, counter, ciphertext },
        ),
{
    let plaintext = account_plaintext(secret, counter);
    lemma_auto_spec_u64_to_from_le_bytes();
    assert(spec_u64_to_le_bytes(counter).len() == 8);
    assert(plaintext.subrange(0, 32) =~= secret);
    assert(plaintext.subrange(32, 40) =~= spec_u64_to_le_bytes(counter));
}

/// The randomness of an account write: session, login secret and nonce.
pub struct AccountRandomness {
    pub sid: Sid,
    pub secret: Key,
    pub nonce: [u8; 24],
}

/// Model of [`AccountRandomness`].
pub struct AccountDraw {
    pub sid: Seq<u8>,
    pub secret: Seq<u8>,
    pub nonce: Seq<u8>,
}

impl View for AccountRandomness {
    type V = AccountDraw;

    open spec fn view(&self) -> AccountDraw {
        AccountDraw { sid: self.sid@, secret: self.secret@, nonce: self.nonce@ }
    }
}

/// Everything that an account write sends: preparations, the login server's change, and
/// the records to finalize.
pub struct AccountPlan {
    pub sid: Sid,
    pub phase: Phase,
    pub records: Vec<RecordId>,
    pub requests: Vec<(Target, Request)>,
    pub ls_request: LsRequest,
}

/// Model of [`AccountPlan`].
pub struct PlanModel {
    pub sid: Seq<u8>,
    pub phase: Phase,
    pub records: Seq<RecordIdModel>,
    pub requests: Seq<(Target, RequestModel)>,
    pub ls_request: LsRequestModel,
}

/// Model of a list of records.
pub open spec fn record_models(records: Seq<RecordId>) -> Seq<RecordIdModel> {
    Seq::new(records.len(), |i: int| records[i]@)
}

impl View for AccountPlan {
    type V = PlanModel;

    open spec fn view(&self) -> PlanModel {
        PlanModel {
            sid: self.sid@,
            phase: self.phase,
            records: record_models(self.records@),
            requests: sent(self.requests@),
            ls_request: self.ls_request@,
        }
    }
}

/// The counter of the account that replaces another one, if there is a next counter.
pub open spec fn next_counter(previous: Option<AccountModel>) -> Option<u64> {
    match previous {
        Some(account) => if account.counter < u64::MAX {
            Some((account.counter + 1) as u64)
        } else {
            None
        },
        None => Some(0),
    }
}

/// The counter of the account that replaces another one: one more, or zero for a first
/// account.
pub fn counter_after(previous: &Option<Account>) -> (counter: Result<u64>)
    ensures
        match counter {
            Ok(value) => next_counter(optional_account(*previous)) == Some(value),
            Err(error) => next_counter(optional_account(*previous)) is None && error@
                == "counter overflow"@,
        },
{
    match previous {
        Some(account) => {
            if account.counter == u64::MAX {
                return Err(message("counter overflow"));
            }
            Ok(account.counter + 1)
        },
        None => Ok(0),
    }
}

/// Model of an account that may be absent.
pub open spec fn optional_account(account: Option<Account>) -> Option<AccountModel> {
    match account {
        Some(account) => Some(account@),
        None => None,
    }
}

/// The phase of an account write.
pub open spec fn write_phase(previous: Option<AccountModel>) -> Phase {
    if previous is Some {
        Phase::SecretUpdate
    } else {
        Phase::Registration
    }
}

/// The records of an account at the providers `1..=n`.
pub open spec fn account_records(n: int, rsp: Seq<u8>, ls: Seq<u8>) -> Seq<RecordIdModel> {
    Seq::new(
        n as nat,
        |i: int| RecordIdModel::Account(account_address(rsp, ls, (i + 1) as u32)),
    )
}

/// The ciphertext that an account write stores.
pub open spec fn written_ciphertext(
    uid: Seq<u8>,
    ls: Seq<u8>,
    k0: Seq<u8>,
    counter: u64,
    draw: AccountDraw,
) -> Seq<u8> {
    sealed_blob(k0, draw.nonce, context(uid, ls), account_plaintext(draw.secret, counter))
}

/// The preparations of an account write: one ciphertext at every provider's address, in
/// place of the ciphertext that was recovered.
pub open spec fn prepare_messages(
    records: Seq<RecordIdModel>,
    sid: Seq<u8>,
    phase: Phase,
    ciphertext: Seq<u8>,
    expected: Option<Seq<u8>>,
) -> Seq<(Target, RequestModel)> {
    Seq::new(
        records.len(),
        |i: int|
            (
                Target::Provider((i + 1) as u32),
                RequestModel::Up(
                    UpRequestModel::PrepareAccount {
                        binding: BindingModel { sid, phase, record: records[i] },
                        ciphertext,
                        expected,
                    },
                ),
            ),
    )
}

/// What an account write sends.
pub open spec fn account_plan(
    n: int,
    names: Names,
    state: StateModel,
    previous: Option<AccountModel>,
    counter: u64,
    draw: AccountDraw,
) -> PlanModel {
    let records = account_records(n, state.rsp, names.ls);
    let phase = write_phase(previous);
    PlanModel {
        sid: draw.sid,
        phase,
        records,
        requests: prepare_messages(
            records,
            draw.sid,
            phase,
            written_ciphertext(names.uid, names.ls, state.k0, counter, draw),
            match previous {
                Some(account) => Some(account.ciphertext),
                None => None,
            },
        ),
        ls_request: match previous {
            Some(account) => LsRequestModel::ChangeCredential {
                uid: names.login_uid,
                previous: vinfo(account.secret, names.ls),
                next: vinfo(draw.secret, names.ls),
            },
            None => LsRequestModel::Register {
                uid: names.login_uid,
                verifier: vinfo(draw.secret, names.ls),
            },
        },
    }
}

/// Who an account belongs to: the user, the login server and the user's name there.
pub struct AccountNames {
    pub uid: Vec<u8>,
    pub ls: Vec<u8>,
    pub login_uid: Vec<u8>,
}

/// Model of [`AccountNames`].
pub struct Names {
    pub uid: Seq<u8>,
    pub ls: Seq<u8>,
    pub login_uid: Seq<u8>,
}

impl View for AccountNames {
    type V = Names;

    open spec fn view(&self) -> Names {
        Names { uid: self.uid@, ls: self.ls@, login_uid: self.login_uid@ }
    }
}

fn account_record_list(n: usize, rsp: &Key, ls: &[u8]) -> (records: Vec<RecordId>)
    requires
        n <= u32::MAX,
    ensures
        record_models(records@) == account_records(n as int, rsp@, ls@),
{
    let mut records: Vec<RecordId> = Vec::new();
    let mut i: usize = 0;
    while i < n
        invariant
            i <= n <= u32::MAX,
            records@.len() == i,
            forall|k: int|
                #![trigger records@[k]]
                0 <= k < i ==> records@[k]@ == account_records(n as int, rsp@, ls@)[k],
        decreases n - i,
    {
        let id: u32 = (i + 1) as u32;
        records.push(RecordId::Account(hash_upspa_suid(rsp, ls, id)));
        i += 1;
    }
    assert(record_models(records@) =~= account_records(n as int, rsp@, ls@));
    records
}

fn prepare_requests(
    records: &[RecordId],
    sid: Sid,
    phase: Phase,
    ciphertext: &Vec<u8>,
    previous: &Option<Account>,
) -> (requests: Vec<(Target, Request)>)
    requires
        records@.len() <= u32::MAX,
    ensures
        sent(requests@) == prepare_messages(
            record_models(records@),
            sid@,
            phase,
            ciphertext@,
            match optional_account(*previous) {
                Some(account) => Some(account.ciphertext),
                None => None,
            },
        ),
{
    let ghost expected = match optional_account(*previous) {
        Some(account) => Some(account.ciphertext),
        None => None,
    };
    let ghost wanted = prepare_messages(
        record_models(records@),
        sid@,
        phase,
        ciphertext@,
        expected,
    );
    let mut requests: Vec<(Target, Request)> = Vec::new();
    let mut i: usize = 0;
    while i < records.len()
        invariant
            i <= records@.len() <= u32::MAX,
            requests@.len() == i,
            expected == (match optional_account(*previous) {
                Some(account) => Some(account.ciphertext),
                None => None,
            }),
            wanted == prepare_messages(
                record_models(records@),
                sid@,
                phase,
                ciphertext@,
                expected,
            ),
            forall|k: int|
                #![trigger requests@[k]]
                0 <= k < i ==> (requests@[k].0, requests@[k].1@) == wanted[k],
        decreases records@.len() - i,
    {
        let id: u32 = (i + 1) as u32;
        let request = UpRequest::PrepareAccount {
            binding: Binding { sid, phase, record: records[i].clone() },
            ciphertext: copy_bytes(ciphertext.as_slice()),
            expected: match previous {
                Some(account) => Some(copy_bytes(account.ciphertext.as_slice())),
                None => None,
            },
        };
        requests.push((Target::Provider(id), Request::Up(request)));
        i += 1;
    }
    assert(sent(requests@) =~= wanted);
    requests
}

/// What an account write sends. The ciphertext opens to the drawn secret and the counter.
pub fn plan_account_write(
    n: usize,
    names: &AccountNames,
    state: &IdentifiedState,
    previous: &Option<Account>,
    counter: u64,
    random: &AccountRandomness,
) -> (plan: AccountPlan)
    requires
        n <= u32::MAX,
    ensures
        plan@ == account_plan(
            n as int,
            names@,
            state@,
            optional_account(*previous),
            counter,
            random@,
        ),
        account_opens(
            written_ciphertext(names@.uid, names@.ls, state@.k0, counter, random@),
            state@.k0,
            names@.uid,
            names@.ls,
            random@.secret,
            counter,
        ),
{
    let phase = match previous {
        Some(_) => Phase::SecretUpdate,
        None => Phase::Registration,
    };
    let verifier = hash_vinfo(&random.secret, names.ls.as_slice());
    let mut joined = copy_bytes(random.secret.as_slice());
    let digits = u64_to_le_bytes(counter);
    proof {
        lemma_auto_spec_u64_to_from_le_bytes();
        assert(spec_u64_to_le_bytes(counter).len() == 8);
    }
    append_bytes(&mut joined, digits.as_slice());
    let plaintext: [u8; ACCOUNT_LEN] = to_array(joined.as_slice());
    let ciphertext = xchacha_encrypt_with_nonce(
        &state.k0,
        &random.nonce,
        account_context(names.uid.as_slice(), names.ls.as_slice()).as_slice(),
        &plaintext,
    ).encode();
    let records = account_record_list(n, &state.rsp, names.ls.as_slice());
    assert(record_models(records@).len() == records@.len());
    let requests = prepare_requests(records.as_slice(), random.sid, phase, &ciphertext, previous);
    let ls_request = match previous {
        Some(account) => LsRequest::ChangeCredential {
            uid: copy_bytes(names.login_uid.as_slice()),
            old: hash_vinfo(&account.secret, names.ls.as_slice()),
            new: verifier,
        },
        None => LsRequest::Register { uid: copy_bytes(names.login_uid.as_slice()), verifier },
    };
    AccountPlan { sid: random.sid, phase, records, requests, ls_request }
}

/// The request that asks the login server whether a change took effect.
pub open spec fn probe(change: LsRequestModel) -> RequestModel {
    RequestModel::Ls(
        match change {
            LsRequestModel::Register { uid, verifier } => LsRequestModel::Authenticate {
                uid,
                verifier,
            },
            LsRequestModel::ChangeCredential { uid, next, .. } => LsRequestModel::Authenticate {
                uid,
                verifier: next,
            },
            LsRequestModel::Authenticate { .. } => change,
        },
    )
}

/// The request that asks the login server whether a change took effect.
pub fn probe_request(change: &LsRequest) -> (request: Request)
    ensures
        request@ == probe(change@),
{
    Request::Ls(
        match change {
            LsRequest::Register { uid, verifier } => LsRequest::Authenticate {
                uid: copy_bytes(uid.as_slice()),
                verifier: *verifier,
            },
            LsRequest::ChangeCredential { uid, new, .. } => LsRequest::Authenticate {
                uid: copy_bytes(uid.as_slice()),
                verifier: *new,
            },
            LsRequest::Authenticate { .. } => change.clone(),
        },
    )
}

/// The requests that finalize a transaction at every provider.
pub open spec fn final_messages(
    sid: Seq<u8>,
    phase: Phase,
    records: Seq<RecordIdModel>,
    store: bool,
) -> Seq<(Target, RequestModel)> {
    Seq::new(
        records.len(),
        |i: int|
            (
                Target::Provider((i + 1) as u32),
                RequestModel::Up(
                    UpRequestModel::Finalize {
                        binding: BindingModel { sid, phase, record: records[i] },
                        store,
                    },
                ),
            ),
    )
}

/// The requests that finalize a transaction at every provider.
pub fn finals(sid: Sid, phase: Phase, records: &[RecordId], store: bool) -> (requests: Vec<
    (Target, Request),
>)
    requires
        records@.len() <= u32::MAX,
    ensures
        sent(requests@) == final_messages(sid@, phase, record_models(records@), store),
{
    let mut requests: Vec<(Target, Request)> = Vec::new();
    let mut i: usize = 0;
    while i < records.len()
        invariant
            i <= records@.len() <= u32::MAX,
            requests@.len() == i,
            forall|k: int|
                #![trigger requests@[k]]
                0 <= k < i ==> (requests@[k].0, requests@[k].1@) == final_messages(
                    sid@,
                    phase,
                    record_models(records@),
                    store,
                )[k],
        decreases records@.len() - i,
    {
        let id: u32 = (i + 1) as u32;
        let binding = Binding { sid, phase, record: records[i].clone() };
        requests.push(
            (Target::Provider(id), Request::Up(UpRequest::Finalize { binding, store })),
        );
        i += 1;
    }
    assert(sent(requests@) =~= final_messages(sid@, phase, record_models(records@), store));
    requests
}

} // verus!
