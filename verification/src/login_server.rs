//! The ordinary login server: one verifier for each user name.

use vstd::prelude::*;

use crate::messages::{
    answer, message, Answer, Key, LsRequest, LsRequestModel, Reply, ReplyModel, Result,
};
use crate::table::{RecordKey, Table};

verus! {

/// The verifiers that the login server keeps.
pub struct LoginServer {
    pub current: Table<Vec<u8>, Key>,
}

/// Model of [`LoginServer`]: the verifier of each registered user name.
pub type LoginModel = Map<Seq<u8>, Seq<u8>>;

impl View for LoginServer {
    type V = LoginModel;

    open spec fn view(&self) -> LoginModel {
        self.current@
    }
}

impl Clone for LoginServer {
    fn clone(&self) -> (copy: Self)
        ensures
            copy@ == self@,
    {
        LoginServer { current: self.current.clone() }
    }
}

impl Default for LoginServer {
    fn default() -> (server: Self)
        ensures
            server@ == LoginModel::empty(),
    {
        LoginServer { current: Table::new() }
    }
}

/// Whether a user name is registered with this verifier.
pub open spec fn holds(server: LoginModel, uid: Seq<u8>, verifier: Seq<u8>) -> bool {
    server.contains_key(uid) && server[uid] == verifier
}

/// What the login server answers.
pub open spec fn login_answer(server: LoginModel, request: LsRequestModel) -> Answer {
    match request {
        LsRequestModel::Register { uid, .. } => if server.contains_key(uid) {
            Err("already registered"@)
        } else {
            Ok(ReplyModel::Ack(true))
        },
        LsRequestModel::Authenticate { uid, verifier } => Ok(
            ReplyModel::Ack(holds(server, uid, verifier)),
        ),
        LsRequestModel::ChangeCredential { uid, previous, .. } => if holds(server, uid, previous) {
            Ok(ReplyModel::Ack(true))
        } else {
            Err("old verifier mismatch"@)
        },
    }
}

/// What the login server keeps after a request: an accepted registration or change puts
/// the verifier in place, everything else changes nothing.
pub open spec fn login_next(server: LoginModel, request: LsRequestModel) -> LoginModel {
    match request {
        LsRequestModel::Register { uid, verifier } => if server.contains_key(uid) {
            server
        } else {
            server.insert(uid, verifier)
        },
        LsRequestModel::Authenticate { .. } => server,
        LsRequestModel::ChangeCredential { uid, previous, next } => if holds(server, uid, previous) {
            server.insert(uid, next)
        } else {
            server
        },
    }
}

impl LoginServer {
    fn has(&self, uid: &Vec<u8>, verifier: &Key) -> (has: bool)
        ensures
            has == holds(self@, uid@, verifier@),
    {
        match self.current.get(uid) {
            Some(current) => current.same(verifier),
            None => false,
        }
    }

    /// Answers one request.
    pub fn handle(&mut self, request: LsRequest) -> (result: Result<Reply>)
        ensures
            answer(result) == login_answer(old(self)@, request@),
            final(self)@ == login_next(old(self)@, request@),
    {
        match request {
            LsRequest::Register { uid, verifier } => {
                if self.current.contains_key(&uid) {
                    return Err(message("already registered"));
                }
                self.current.insert(uid, verifier);
                Ok(Reply::Ack(true))
            },
            LsRequest::Authenticate { uid, verifier } => Ok(Reply::Ack(self.has(&uid, &verifier))),
            LsRequest::ChangeCredential { uid, old: previous, new } => {
                if !self.has(&uid, &previous) {
                    return Err(message("old verifier mismatch"));
                }
                self.current.insert(uid, new);
                Ok(Reply::Ack(true))
            },
        }
    }
}

/// A registered user logs in with the registered verifier and with no other, and cannot
/// register again.
pub proof fn law_registered_user_logs_in(
    server: LoginModel,
    uid: Seq<u8>,
    verifier: Seq<u8>,
    other: Seq<u8>,
)
    requires
        !server.contains_key(uid),
    ensures
        ({
            let after = login_next(server, LsRequestModel::Register { uid, verifier });
            &&& login_answer(after, LsRequestModel::Authenticate { uid, verifier: other }) == Ok::<
                ReplyModel,
                Seq<char>,
            >(ReplyModel::Ack(other == verifier))
            &&& login_answer(after, LsRequestModel::Register { uid, verifier: other }) is Err
            &&& login_next(after, LsRequestModel::Register { uid, verifier: other }) == after
        }),
{
}

/// A credential change takes the old verifier out of use and puts the new one into use;
/// with a wrong old verifier it changes nothing.
pub proof fn law_changed_credential(
    server: LoginModel,
    uid: Seq<u8>,
    previous: Seq<u8>,
    next: Seq<u8>,
    verifier: Seq<u8>,
)
    ensures
        ({
            let request = LsRequestModel::ChangeCredential { uid, previous, next };
            let after = login_next(server, request);
            &&& holds(server, uid, previous) ==> holds(after, uid, verifier) == (verifier == next)
            &&& !holds(server, uid, previous) ==> after == server && login_answer(server, request) is Err
        }),
{
}

/// Requests of one user name do not touch another.
pub proof fn law_users_are_independent(server: LoginModel, request: LsRequestModel, other: Seq<u8>)
    requires
        match request {
            LsRequestModel::Register { uid, .. } => uid != other,
            LsRequestModel::Authenticate { uid, .. } => uid != other,
            LsRequestModel::ChangeCredential { uid, .. } => uid != other,
        },
    ensures
        login_next(server, request).contains_key(other) == server.contains_key(other),
        server.contains_key(other) ==> login_next(server, request)[other] == server[other],
{
}

} // verus!
