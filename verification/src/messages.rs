//! Requests and replies of the two protocols, with the models that contracts speak of.

use vstd::prelude::*;

use crate::bytes::{copy_bytes, same_bytes};
use crate::crypto::{is_blob, split_blob, CtBlob};
use crate::table::{Record, RecordKey};
use crate::wire::{
    encoded_bytes, encoded_text, fits, lemma_encoded_bytes_prefix, lemma_encoded_text_prefix,
    lemma_fixed_prefix, lemma_u32_injective, lemma_u64_injective, serialize_update,
};
use vstd::bytes::{
    lemma_auto_spec_u32_to_from_le_bytes, lemma_auto_spec_u64_to_from_le_bytes,
    spec_u32_to_le_bytes, spec_u64_to_le_bytes,
};
use vstd::utf8::encode_utf8;

verus! {

/// A session identifier.
pub type Sid = [u8; 16];

/// A key, hash, scalar or compressed group element.
pub type Key = [u8; 32];

/// A result whose error is a message.
pub type Result<T> = std::result::Result<T, String>;

/// Length of the root plaintext: signing key, address secret and account key.
pub const ROOT_LEN: usize = 96;

/// Length of the account plaintext: login secret and counter.
pub const ACCOUNT_LEN: usize = 40;

/// The protocol of a benchmark phase.
#[derive(Clone, Copy, Debug, PartialEq, Eq, Hash, Structural)]
pub enum Protocol {
    UpSPA,
    TSPA,
}

/// A protocol phase.
#[derive(Clone, Copy, Debug, PartialEq, Eq, Hash, Structural)]
pub enum Phase {
    Setup,
    Registration,
    Authentication,
    SecretUpdate,
    PasswordUpdate,
}

/// Which record of a provider a transaction is about.
#[derive(Debug, PartialEq, Eq, Hash)]
pub enum RecordId {
    Root(Vec<u8>),
    Account(Key),
}

/// Model of [`RecordId`].
pub enum RecordIdModel {
    Root(Seq<u8>),
    Account(Seq<u8>),
}

impl View for RecordId {
    type V = RecordIdModel;

    open spec fn view(&self) -> RecordIdModel {
        match self {
            RecordId::Root(uid) => RecordIdModel::Root(uid@),
            RecordId::Account(suid) => RecordIdModel::Account(suid@),
        }
    }
}

impl Clone for RecordId {
    fn clone(&self) -> (copy: Self)
        ensures
            copy@ == self@,
    {
        match self {
            RecordId::Root(uid) => RecordId::Root(copy_bytes(uid.as_slice())),
            RecordId::Account(suid) => RecordId::Account(*suid),
        }
    }
}

impl Record for RecordId {
    fn copy(&self) -> (copy: Self) {
        self.clone()
    }
}

impl RecordKey for RecordId {
    fn same(&self, other: &Self) -> (same: bool) {
        match (self, other) {
            (RecordId::Root(a), RecordId::Root(b)) => same_bytes(a.as_slice(), b.as_slice()),
            (RecordId::Account(a), RecordId::Account(b)) => same_bytes(a.as_slice(), b.as_slice()),
            _ => false,
        }
    }
}

/// What a pending value and its finalization have in common.
#[derive(Debug, PartialEq, Eq, Hash)]
pub struct Binding {
    pub sid: Sid,
    pub phase: Phase,
    pub record: RecordId,
}

/// Model of [`Binding`].
pub struct BindingModel {
    pub sid: Seq<u8>,
    pub phase: Phase,
    pub record: RecordIdModel,
}

impl View for Binding {
    type V = BindingModel;

    open spec fn view(&self) -> BindingModel {
        BindingModel { sid: self.sid@, phase: self.phase, record: self.record@ }
    }
}

impl Clone for Binding {
    fn clone(&self) -> (copy: Self)
        ensures
            copy@ == self@,
    {
        Binding { sid: self.sid, phase: self.phase, record: self.record.clone() }
    }
}

impl Record for Binding {
    fn copy(&self) -> (copy: Self) {
        self.clone()
    }
}

impl RecordKey for Binding {
    fn same(&self, other: &Self) -> (same: bool) {
        same_bytes(self.sid.as_slice(), other.sid.as_slice()) && self.phase == other.phase
            && self.record.same(&other.record)
    }
}

/// The root record of a user at one provider.
#[derive(Debug, PartialEq, Eq)]
pub struct Root {
    pub uid: Vec<u8>,
    pub svk: Key,
    pub cid: Vec<u8>,
    pub share: Key,
    pub timestamp: u64,
}

/// Model of [`Root`].
pub struct RootModel {
    pub uid: Seq<u8>,
    pub svk: Seq<u8>,
    pub cid: Seq<u8>,
    pub share: Seq<u8>,
    pub timestamp: u64,
}

impl View for Root {
    type V = RootModel;

    open spec fn view(&self) -> RootModel {
        RootModel {
            uid: self.uid@,
            svk: self.svk@,
            cid: self.cid@,
            share: self.share@,
            timestamp: self.timestamp,
        }
    }
}

impl Clone for Root {
    fn clone(&self) -> (copy: Self)
        ensures
            copy@ == self@,
    {
        Root {
            uid: copy_bytes(self.uid.as_slice()),
            svk: self.svk,
            cid: copy_bytes(self.cid.as_slice()),
            share: self.share,
            timestamp: self.timestamp,
        }
    }
}

impl Record for Root {
    fn copy(&self) -> (copy: Self) {
        self.clone()
    }
}

impl Root {
    /// Whether two roots hold the same values.
    pub fn same(&self, other: &Self) -> (same: bool)
        ensures
            same == (self@ == other@),
    {
        same_bytes(self.uid.as_slice(), other.uid.as_slice()) && same_bytes(
            self.svk.as_slice(),
            other.svk.as_slice(),
        ) && same_bytes(self.cid.as_slice(), other.cid.as_slice()) && same_bytes(
            self.share.as_slice(),
            other.share.as_slice(),
        ) && self.timestamp == other.timestamp
    }
}

/// A signed request to replace a root's ciphertext, share and timestamp.
#[derive(Debug, PartialEq, Eq)]
pub struct PasswordUpdate {
    pub operation: String,
    pub sid: Sid,
    pub uid: Vec<u8>,
    pub provider_id: u32,
    pub timestamp_old: u64,
    pub timestamp_new: u64,
    pub cid_new: Vec<u8>,
    pub share_new: Key,
    pub signature: Vec<u8>,
}

/// Model of [`PasswordUpdate`].
pub struct PasswordUpdateModel {
    pub operation: Seq<char>,
    pub sid: Seq<u8>,
    pub uid: Seq<u8>,
    pub provider_id: u32,
    pub timestamp_old: u64,
    pub timestamp_new: u64,
    pub cid_new: Seq<u8>,
    pub share_new: Seq<u8>,
    pub signature: Seq<u8>,
}

impl View for PasswordUpdate {
    type V = PasswordUpdateModel;

    open spec fn view(&self) -> PasswordUpdateModel {
        PasswordUpdateModel {
            operation: self.operation@,
            sid: self.sid@,
            uid: self.uid@,
            provider_id: self.provider_id,
            timestamp_old: self.timestamp_old,
            timestamp_new: self.timestamp_new,
            cid_new: self.cid_new@,
            share_new: self.share_new@,
            signature: self.signature@,
        }
    }
}

impl PasswordUpdateModel {
    /// The bytes that the signature covers: every field but the signature itself.
    pub open spec fn signed_bytes(self) -> Seq<u8> {
        encoded_text(self.operation) + self.sid + encoded_bytes(self.uid) + spec_u32_to_le_bytes(
            self.provider_id,
        ) + spec_u64_to_le_bytes(self.timestamp_old) + spec_u64_to_le_bytes(self.timestamp_new)
            + encoded_bytes(self.cid_new) + self.share_new
    }
}

impl Clone for PasswordUpdate {
    fn clone(&self) -> (copy: Self)
        ensures
            copy@ == self@,
    {
        PasswordUpdate {
            operation: self.operation.clone(),
            sid: self.sid,
            uid: copy_bytes(self.uid.as_slice()),
            provider_id: self.provider_id,
            timestamp_old: self.timestamp_old,
            timestamp_new: self.timestamp_new,
            cid_new: copy_bytes(self.cid_new.as_slice()),
            share_new: self.share_new,
            signature: copy_bytes(self.signature.as_slice()),
        }
    }
}

impl PasswordUpdate {
    /// The bytes that the signature covers.
    pub fn signed_bytes(&self) -> (bytes: Vec<u8>)
        ensures
            bytes@ == self@.signed_bytes(),
    {
        serialize_update(
            &self.operation,
            self.sid,
            &self.uid,
            self.provider_id,
            (self.timestamp_old, self.timestamp_new),
            &self.cid_new,
            self.share_new,
        )
    }
}

/// Two updates have the same signed bytes only if they agree in every signed field.
pub proof fn law_signature_binds_every_field(a: PasswordUpdate, b: PasswordUpdate)
    requires
        fits(encode_utf8(a.operation@)),
        fits(encode_utf8(b.operation@)),
    ensures
        a@.signed_bytes() == b@.signed_bytes() ==> a@ == (PasswordUpdateModel {
            signature: a.signature@,
            ..b@
        }),
{
    if a@.signed_bytes() == b@.signed_bytes() {
        let m = a@;
        let n = b@;
        assert(a.uid.len() == m.uid.len() && b.uid.len() == n.uid.len());
        assert(a.cid_new.len() == m.cid_new.len() && b.cid_new.len() == n.cid_new.len());
        let m6 = encoded_bytes(m.cid_new) + m.share_new;
        let n6 = encoded_bytes(n.cid_new) + n.share_new;
        let m5 = spec_u64_to_le_bytes(m.timestamp_new) + m6;
        let n5 = spec_u64_to_le_bytes(n.timestamp_new) + n6;
        let m4 = spec_u64_to_le_bytes(m.timestamp_old) + m5;
        let n4 = spec_u64_to_le_bytes(n.timestamp_old) + n5;
        let m3 = spec_u32_to_le_bytes(m.provider_id) + m4;
        let n3 = spec_u32_to_le_bytes(n.provider_id) + n4;
        let m2 = encoded_bytes(m.uid) + m3;
        let n2 = encoded_bytes(n.uid) + n3;
        let m1 = m.sid + m2;
        let n1 = n.sid + n2;
        assert(m.signed_bytes() =~= encoded_text(m.operation) + m1);
        assert(n.signed_bytes() =~= encoded_text(n.operation) + n1);
        lemma_encoded_text_prefix(m.operation, m1, n.operation, n1);
        lemma_fixed_prefix(m.sid, m2, n.sid, n2);
        lemma_encoded_bytes_prefix(m.uid, m3, n.uid, n3);
        lemma_auto_spec_u32_to_from_le_bytes();
        lemma_auto_spec_u64_to_from_le_bytes();
        lemma_fixed_prefix(
            spec_u32_to_le_bytes(m.provider_id),
            m4,
            spec_u32_to_le_bytes(n.provider_id),
            n4,
        );
        lemma_u32_injective(m.provider_id, n.provider_id);
        lemma_fixed_prefix(
            spec_u64_to_le_bytes(m.timestamp_old),
            m5,
            spec_u64_to_le_bytes(n.timestamp_old),
            n5,
        );
        lemma_u64_injective(m.timestamp_old, n.timestamp_old);
        lemma_fixed_prefix(
            spec_u64_to_le_bytes(m.timestamp_new),
            m6,
            spec_u64_to_le_bytes(n.timestamp_new),
            n6,
        );
        lemma_u64_injective(m.timestamp_new, n.timestamp_new);
        lemma_encoded_bytes_prefix(m.cid_new, m.share_new, n.cid_new, n.share_new);
    }
}

/// A request of the UpSPA protocol to a provider.
#[derive(Debug)]
pub enum UpRequest {
    Setup { sid: Sid, root: Root },
    Identify { uid: Vec<u8>, blinded: Key },
    ReadAccount { suid: Key },
    PrepareAccount { binding: Binding, ciphertext: Vec<u8>, expected: Option<Vec<u8>> },
    PasswordUpdate(PasswordUpdate),
    Finalize { binding: Binding, store: bool },
}

/// Model of [`UpRequest`].
pub enum UpRequestModel {
    Setup { sid: Seq<u8>, root: RootModel },
    Identify { uid: Seq<u8>, blinded: Seq<u8> },
    ReadAccount { suid: Seq<u8> },
    PrepareAccount { binding: BindingModel, ciphertext: Seq<u8>, expected: Option<Seq<u8>> },
    PasswordUpdate(PasswordUpdateModel),
    Finalize { binding: BindingModel, store: bool },
}

/// The content of an optional byte string.
pub open spec fn optional_bytes(bytes: Option<Vec<u8>>) -> Option<Seq<u8>> {
    match bytes {
        Some(b) => Some(b@),
        None => None,
    }
}

/// A copy of an optional byte string.
pub fn copy_optional(bytes: &Option<Vec<u8>>) -> (copy: Option<Vec<u8>>)
    ensures
        optional_bytes(copy) == optional_bytes(*bytes),
{
    match bytes {
        Some(b) => Some(copy_bytes(b.as_slice())),
        None => None,
    }
}

impl View for UpRequest {
    type V = UpRequestModel;

    open spec fn view(&self) -> UpRequestModel {
        match self {
            UpRequest::Setup { sid, root } => UpRequestModel::Setup { sid: sid@, root: root@ },
            UpRequest::Identify { uid, blinded } => UpRequestModel::Identify {
                uid: uid@,
                blinded: blinded@,
            },
            UpRequest::ReadAccount { suid } => UpRequestModel::ReadAccount { suid: suid@ },
            UpRequest::PrepareAccount { binding, ciphertext, expected } => {
                UpRequestModel::PrepareAccount {
                    binding: binding@,
                    ciphertext: ciphertext@,
                    expected: optional_bytes(*expected),
                }
            },
            UpRequest::PasswordUpdate(update) => UpRequestModel::PasswordUpdate(update@),
            UpRequest::Finalize { binding, store } => UpRequestModel::Finalize {
                binding: binding@,
                store: *store,
            },
        }
    }
}

impl Clone for UpRequest {
    fn clone(&self) -> (copy: Self)
        ensures
            copy@ == self@,
    {
        match self {
            UpRequest::Setup { sid, root } => UpRequest::Setup { sid: *sid, root: root.clone() },
            UpRequest::Identify { uid, blinded } => UpRequest::Identify {
                uid: copy_bytes(uid.as_slice()),
                blinded: *blinded,
            },
            UpRequest::ReadAccount { suid } => UpRequest::ReadAccount { suid: *suid },
            UpRequest::PrepareAccount { binding, ciphertext, expected } => {
                UpRequest::PrepareAccount {
                    binding: binding.clone(),
                    ciphertext: copy_bytes(ciphertext.as_slice()),
                    expected: copy_optional(expected),
                }
            },
            UpRequest::PasswordUpdate(update) => UpRequest::PasswordUpdate(update.clone()),
            UpRequest::Finalize { binding, store } => UpRequest::Finalize {
                binding: binding.clone(),
                store: *store,
            },
        }
    }
}

/// A request of the TSPA protocol to a provider.
#[derive(Debug)]
pub enum TspaRequest {
    Register { stor_uid: Key, key: Key, ciphertext: Vec<u8> },
    Authenticate { stor_uid: Key, blinded: Key },
}

/// Model of [`TspaRequest`].
pub enum TspaRequestModel {
    Register { stor_uid: Seq<u8>, key: Seq<u8>, ciphertext: Seq<u8> },
    Authenticate { stor_uid: Seq<u8>, blinded: Seq<u8> },
}

impl View for TspaRequest {
    type V = TspaRequestModel;

    open spec fn view(&self) -> TspaRequestModel {
        match self {
            TspaRequest::Register { stor_uid, key, ciphertext } => TspaRequestModel::Register {
                stor_uid: stor_uid@,
                key: key@,
                ciphertext: ciphertext@,
            },
            TspaRequest::Authenticate { stor_uid, blinded } => TspaRequestModel::Authenticate {
                stor_uid: stor_uid@,
                blinded: blinded@,
            },
        }
    }
}

impl Clone for TspaRequest {
    fn clone(&self) -> (copy: Self)
        ensures
            copy@ == self@,
    {
        match self {
            TspaRequest::Register { stor_uid, key, ciphertext } => TspaRequest::Register {
                stor_uid: *stor_uid,
                key: *key,
                ciphertext: copy_bytes(ciphertext.as_slice()),
            },
            TspaRequest::Authenticate { stor_uid, blinded } => TspaRequest::Authenticate {
                stor_uid: *stor_uid,
                blinded: *blinded,
            },
        }
    }
}

/// A request to the login server.
#[derive(Debug)]
pub enum LsRequest {
    Register { uid: Vec<u8>, verifier: Key },
    Authenticate { uid: Vec<u8>, verifier: Key },
    ChangeCredential { uid: Vec<u8>, old: Key, new: Key },
}

/// Model of [`LsRequest`]; `previous` and `next` are the two verifiers of a change.
pub enum LsRequestModel {
    Register { uid: Seq<u8>, verifier: Seq<u8> },
    Authenticate { uid: Seq<u8>, verifier: Seq<u8> },
    ChangeCredential { uid: Seq<u8>, previous: Seq<u8>, next: Seq<u8> },
}

impl View for LsRequest {
    type V = LsRequestModel;

    open spec fn view(&self) -> LsRequestModel {
        match self {
            LsRequest::Register { uid, verifier } => LsRequestModel::Register {
                uid: uid@,
                verifier: verifier@,
            },
            LsRequest::Authenticate { uid, verifier } => LsRequestModel::Authenticate {
                uid: uid@,
                verifier: verifier@,
            },
            LsRequest::ChangeCredential { uid, old: previous, new } => {
                LsRequestModel::ChangeCredential { uid: uid@, previous: previous@, next: new@ }
            },
        }
    }
}

impl Clone for LsRequest {
    fn clone(&self) -> (copy: Self)
        ensures
            copy@ == self@,
    {
        match self {
            LsRequest::Register { uid, verifier } => LsRequest::Register {
                uid: copy_bytes(uid.as_slice()),
                verifier: *verifier,
            },
            LsRequest::Authenticate { uid, verifier } => LsRequest::Authenticate {
                uid: copy_bytes(uid.as_slice()),
                verifier: *verifier,
            },
            LsRequest::ChangeCredential { uid, old: previous, new } => LsRequest::ChangeCredential {
                uid: copy_bytes(uid.as_slice()),
                old: *previous,
                new: *new,
            },
        }
    }
}

/// Any request to a node.
#[derive(Debug)]
pub enum Request {
    Up(UpRequest),
    Tspa(TspaRequest),
    Ls(LsRequest),
    Reset,
    Ping,
}

/// Model of [`Request`].
pub enum RequestModel {
    Up(UpRequestModel),
    Tspa(TspaRequestModel),
    Ls(LsRequestModel),
    Reset,
    Ping,
}

impl View for Request {
    type V = RequestModel;

    open spec fn view(&self) -> RequestModel {
        match self {
            Request::Up(request) => RequestModel::Up(request@),
            Request::Tspa(request) => RequestModel::Tspa(request@),
            Request::Ls(request) => RequestModel::Ls(request@),
            Request::Reset => RequestModel::Reset,
            Request::Ping => RequestModel::Ping,
        }
    }
}

impl Clone for Request {
    fn clone(&self) -> (copy: Self)
        ensures
            copy@ == self@,
    {
        match self {
            Request::Up(request) => Request::Up(request.clone()),
            Request::Tspa(request) => Request::Tspa(request.clone()),
            Request::Ls(request) => Request::Ls(request.clone()),
            Request::Reset => Request::Reset,
            Request::Ping => Request::Ping,
        }
    }
}

impl RequestModel {
    /// The name under which a request is traced.
    pub open spec fn operation(self) -> Seq<char> {
        match self {
            RequestModel::Up(UpRequestModel::Setup { .. }) => "setup_prepare"@,
            RequestModel::Up(UpRequestModel::Identify { .. }) => "identification"@,
            RequestModel::Up(UpRequestModel::ReadAccount { .. }) => "account_read"@,
            RequestModel::Up(UpRequestModel::PrepareAccount { .. }) => "account_prepare"@,
            RequestModel::Up(UpRequestModel::PasswordUpdate(_)) => "password_prepare"@,
            RequestModel::Up(UpRequestModel::Finalize { store, .. }) => if store {
                "store_ack"@
            } else {
                "discard_ack"@
            },
            RequestModel::Tspa(TspaRequestModel::Register { .. }) => "record_store"@,
            RequestModel::Tspa(TspaRequestModel::Authenticate { .. }) => "oprf_and_record_read"@,
            RequestModel::Ls(LsRequestModel::Register { .. }) => "ls_register"@,
            RequestModel::Ls(LsRequestModel::Authenticate { .. }) => "ls_authenticate"@,
            RequestModel::Ls(LsRequestModel::ChangeCredential { .. }) => "ls_change_credential"@,
            RequestModel::Reset => "reset"@,
            RequestModel::Ping => "ping"@,
        }
    }
}

impl Request {
    /// The name under which the request is traced.
    pub fn operation(&self) -> (name: &'static str)
        ensures
            name@ == self@.operation(),
    {
        match self {
            Request::Up(UpRequest::Setup { .. }) => "setup_prepare",
            Request::Up(UpRequest::Identify { .. }) => "identification",
            Request::Up(UpRequest::ReadAccount { .. }) => "account_read",
            Request::Up(UpRequest::PrepareAccount { .. }) => "account_prepare",
            Request::Up(UpRequest::PasswordUpdate(_)) => "password_prepare",
            Request::Up(UpRequest::Finalize { store, .. }) => if *store {
                "store_ack"
            } else {
                "discard_ack"
            },
            Request::Tspa(TspaRequest::Register { .. }) => "record_store",
            Request::Tspa(TspaRequest::Authenticate { .. }) => "oprf_and_record_read",
            Request::Ls(LsRequest::Register { .. }) => "ls_register",
            Request::Ls(LsRequest::Authenticate { .. }) => "ls_authenticate",
            Request::Ls(LsRequest::ChangeCredential { .. }) => "ls_change_credential",
            Request::Reset => "reset",
            Request::Ping => "ping",
        }
    }
}

/// A successful answer of a node.
#[derive(Debug, PartialEq, Eq)]
pub enum Reply {
    Ack(bool),
    Identification { cid: Vec<u8>, timestamp: u64, contribution: Key },
    Account(Vec<u8>),
    TspaAuthentication { contribution: Key, ciphertext: Vec<u8> },
}

/// Model of [`Reply`].
pub enum ReplyModel {
    Ack(bool),
    Identification { cid: Seq<u8>, timestamp: u64, contribution: Seq<u8> },
    Account(Seq<u8>),
    TspaAuthentication { contribution: Seq<u8>, ciphertext: Seq<u8> },
}

impl View for Reply {
    type V = ReplyModel;

    open spec fn view(&self) -> ReplyModel {
        match self {
            Reply::Ack(value) => ReplyModel::Ack(*value),
            Reply::Identification { cid, timestamp, contribution } => ReplyModel::Identification {
                cid: cid@,
                timestamp: *timestamp,
                contribution: contribution@,
            },
            Reply::Account(ciphertext) => ReplyModel::Account(ciphertext@),
            Reply::TspaAuthentication { contribution, ciphertext } => {
                ReplyModel::TspaAuthentication {
                    contribution: contribution@,
                    ciphertext: ciphertext@,
                }
            },
        }
    }
}

impl Clone for Reply {
    fn clone(&self) -> (copy: Self)
        ensures
            copy@ == self@,
    {
        match self {
            Reply::Ack(value) => Reply::Ack(*value),
            Reply::Identification { cid, timestamp, contribution } => Reply::Identification {
                cid: copy_bytes(cid.as_slice()),
                timestamp: *timestamp,
                contribution: *contribution,
            },
            Reply::Account(ciphertext) => Reply::Account(copy_bytes(ciphertext.as_slice())),
            Reply::TspaAuthentication { contribution, ciphertext } => Reply::TspaAuthentication {
                contribution: *contribution,
                ciphertext: copy_bytes(ciphertext.as_slice()),
            },
        }
    }
}

/// The answer of a node with the time that it took.
#[derive(Debug)]
pub struct Response {
    pub result: Result<Reply>,
    pub processing_ns: u64,
}

impl Clone for Response {
    fn clone(&self) -> (copy: Self)
        ensures
            answer(copy.result) == answer(self.result),
            copy.processing_ns == self.processing_ns,
    {
        Response {
            result: match &self.result {
                Ok(reply) => Ok(reply.clone()),
                Err(error) => Err(error.clone()),
            },
            processing_ns: self.processing_ns,
        }
    }
}

/// What a node answered: a reply or an error message.
pub type Answer = std::result::Result<ReplyModel, Seq<char>>;

/// Model of what a node answered.
pub open spec fn answer(result: Result<Reply>) -> Answer {
    match result {
        Ok(reply) => Ok(reply@),
        Err(message) => Err(message@),
    }
}

/// The outcome of an operation without a value.
pub type Outcome = std::result::Result<(), Seq<char>>;

/// Model of the outcome of an operation without a value.
pub open spec fn outcome(result: Result<()>) -> Outcome {
    match result {
        Ok(_) => Ok(()),
        Err(message) => Err(message@),
    }
}

/// Reads the wire form of a ciphertext of `N` bytes.
pub fn decode_blob<const N: usize>(bytes: &[u8]) -> (blob: Result<CtBlob<N>>)
    ensures
        match blob {
            Ok(b) => is_blob(bytes@, N as int) && b@ == bytes@,
            Err(e) => !is_blob(bytes@, N as int) && e@ == "invalid ciphertext length"@,
        },
{
    if bytes.len() < 40 || bytes.len() - 40 != N {
        return Err(message("invalid ciphertext length"));
    }
    Ok(split_blob(bytes))
}

/// An error message.
pub fn message(text: &str) -> (message: String)
    ensures
        message@ == text@,
{
    text.to_owned()
}

/// Succeeds exactly on a positive acknowledgement.
pub fn require_ack(reply: Reply) -> (result: Result<()>)
    ensures
        outcome(result) == ack_outcome(reply@),
{
    match reply {
        Reply::Ack(true) => Ok(()),
        _ => Err(message("operation rejected")),
    }
}

/// The outcome that a reply stands for where an acknowledgement is required.
pub open spec fn ack_outcome(reply: ReplyModel) -> Outcome {
    if reply == ReplyModel::Ack(true) {
        Ok(())
    } else {
        Err("operation rejected"@)
    }
}

} // verus!
