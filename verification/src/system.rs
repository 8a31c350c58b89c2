//! The client of both protocols: it starts phases, decides what follows on each stage,
//! and keeps what is left of an unfinished phase.

use vstd::prelude::*;

use vstd::string::StringExecFns;

use crate::accounts::{
    counter_after, finals, optional_account, plan_account_write, probe_request, read_requests,
    record_models, recover_account, Account, AccountNames, AccountRandomness, Names,
};
use crate::agreement::votes;
use crate::bytes::copy_bytes;
use crate::client::{identify, identify_requests, setup_requests, state_result, SetupRandomness};
use crate::crypto::{blind, hash_vinfo};
use crate::crypto_tspa;
use crate::flow::{
    account_draw, advances, after_change, after_finalization, after_identification,
    after_preparation, after_recovery, after_resolution, after_tspa_recovery, ask_login_server,
    authenticates_tspa, begin_finalization, begins, finalization_step, identification_result,
    identifies, identifies_honestly, is_end_of, new_client, optional_change, reconstructs_honestly,
    recovery_result, recovery_step, registers_tspa, reports, resolution_step, resumed, root_records,
    sets_up, setup_draw, update_draw, update_opens, update_started, write_opens, write_started,
    ATTEMPTS, FinalizationModel, Goal, GoalModel, Progress, ResolutionModel, Stage, StageKind, Step,
    StepModel, SystemModel,
};
use crate::messages::{
    ack_outcome, answer, message, outcome, require_ack, Answer, Key, LsRequest, Outcome, Phase,
    RecordId, RecordIdModel, Reply, Request, RequestModel, Result, Sid,
};
use crate::password::{timestamp_after, update_requests, UpdateRandomness};
use crate::random::{rand_bytes, random_scalar, random_scalars, Rng};
use crate::stage::{copy_requests, require_acks, sent, stage_outcome, Policy};
use crate::trace::refused_by_login_server;
use crate::transport::Target;
use crate::tspa_adapter::{reconstruct, registration};
use crate::tspa_client::{authenticate_requests, register_requests, sort_by_provider};

pub use crate::accounts::account_context;
pub use crate::agreement::{agreement_key, unique_agreement, AgreementTracker};
pub use crate::client::IdentifiedState;
pub use crate::flow::Requirement;
pub use crate::trace::{CallSample, StageSample, Trace};

verus! {

/// A finalization that was not confirmed.
struct Finalization {
    requests: Vec<(Target, Request)>,
    store: bool,
}

/// A change at the login server whose effect is unknown.
struct LsResolution {
    probe: Request,
    store: Vec<(Target, Request)>,
    discard: Vec<(Target, Request)>,
}

/// The client of `n` providers with threshold `t`.
pub struct System {
    pub n: usize,
    pub t: usize,
    rng: Rng,
    finalization: Option<Finalization>,
    ls_resolution: Option<LsResolution>,
}

impl View for System {
    type V = SystemModel;

    closed spec fn view(&self) -> SystemModel {
        SystemModel {
            n: self.n as int,
            t: self.t as int,
            rng: self.rng@,
            finalization: match self.finalization {
                Some(pending) => Some(
                    FinalizationModel { requests: sent(pending.requests@), store: pending.store },
                ),
                None => None,
            },
            resolution: match self.ls_resolution {
                Some(pending) => Some(
                    ResolutionModel {
                        probe: pending.probe@,
                        store: sent(pending.store@),
                        discard: sent(pending.discard@),
                    },
                ),
                None => None,
            },
        }
    }
}

/// The step that sends one request to the login server.
fn ask(request: Request, next: Progress) -> (step: Step)
    ensures
        step@ == ask_login_server(request@, next@),
{
    let mut requests: Vec<(Target, Request)> = Vec::new();
    requests.push((Target::LoginServer, request));
    assert(sent(requests@) =~= seq![(Target::LoginServer, request@)]);
    Step::Run(
        Stage { kind: StageKind::LsInteraction, requests, policy: Policy::All, settle: false },
        next,
    )
}

/// The step that asks the login server whether a change took effect.
fn ask_for_outcome(
    probe: Request,
    store: Vec<(Target, Request)>,
    discard: Vec<(Target, Request)>,
    settle: bool,
) -> (step: Step)
    ensures
        step@ == resolution_step(
            ResolutionModel { probe: probe@, store: sent(store@), discard: sent(discard@) },
            settle,
        ),
{
    let mut requests: Vec<(Target, Request)> = Vec::new();
    requests.push((Target::LoginServer, probe));
    assert(sent(requests@) =~= seq![(Target::LoginServer, probe@)]);
    Step::Run(
        Stage { kind: StageKind::LsRecovery, requests, policy: Policy::All, settle },
        Progress::Resolving { accepted: store, rejected: discard },
    )
}

/// An attempt of a finalization.
fn attempt(
    requests: Vec<(Target, Request)>,
    store: bool,
    attempts: usize,
    verdict: Result<()>,
) -> (step: Step)
    ensures
        step@ == finalization_step(sent(requests@), store, attempts as int, outcome(verdict)),
{
    let copy = copy_requests(requests.as_slice());
    Step::Run(
        Stage {
            kind: StageKind::Finalization,
            requests: copy,
            policy: Policy::All,
            settle: false,
        },
        Progress::Finalizing { requests, store, attempts, verdict },
    )
}

/// The records of a user's root at `n` providers.
fn root_record_list(n: usize, uid: &[u8]) -> (records: Vec<RecordId>)
    ensures
        record_models(records@) == root_records(n as int, uid@),
{
    let mut records: Vec<RecordId> = Vec::new();
    while records.len() < n
        invariant
            records@.len() <= n,
            forall|k: int|
                #![trigger records@[k]]
                0 <= k < records@.len() ==> records@[k]@ == RecordIdModel::Root(uid@),
        decreases n - records@.len(),
    {
        records.push(RecordId::Root(copy_bytes(uid)));
    }
    assert(record_models(records@) =~= root_records(n as int, uid@));
    records
}

/// Reads the user's state from the end of an identification.
pub fn conclude_identification(
    requirement: Requirement,
    t: usize,
    password: &[u8],
    r: &Key,
    end: Result<Vec<(u32, Reply)>>,
) -> (result: Result<IdentifiedState>)
    requires
        t >= 1,
        requirement == Requirement::Threshold ==> (stage_outcome(end) matches Ok(replies)
            ==> replies.len() >= 1),
    ensures
        state_result(result) == identification_result(
            requirement,
            t as int,
            password@,
            r@,
            stage_outcome(end),
        ),
        identifies_honestly(requirement, t as int, password@, r@, stage_outcome(end)),
{
    let replies = match end {
        Ok(replies) => replies,
        Err(error) => {
            return Err(error);
        },
    };
    let accepted = match requirement {
        Requirement::Threshold => replies,
        Requirement::AllProviders => match unique_agreement(replies.as_slice(), t, 0) {
            Ok(Some(accepted)) => accepted,
            Ok(None) => {
                return Err(message("no root agreement"));
            },
            Err(error) => {
                return Err(error);
            },
        },
    };
    proof {
        if requirement == Requirement::AllProviders {
            crate::agreement::law_agreement_has_threshold_support(
                votes(replies@),
                t as int,
                0,
                votes(accepted@),
            );
        }
        assert(votes(accepted@).len() == accepted@.len());
    }
    identify(password, r, t, accepted.as_slice())
}

impl System {
    /// A client of `n` providers with threshold `t`.
    pub fn new(n: usize, t: usize, seed: Key) -> (result: Result<Self>)
        ensures
            new_client(n as int, t as int, seed@) == (match result {
                Ok(system) => Ok(system@),
                Err(error) => Err(error@),
            }),
            result matches Ok(system) ==> system@.wf() && system@.idle(),
    {
        if n == 0 || t == 0 || t > n || n > 100 {
            return Err(message("require 1 <= t_sp <= n_sp <= 100"));
        }
        Ok(System { n, t, rng: Rng::from_seed(seed), finalization: None, ls_resolution: None })
    }

    /// Whether no phase is unfinished.
    pub fn require_idle(&self) -> (result: Result<()>)
        ensures
            match result {
                Ok(_) => self@.idle(),
                Err(error) => !self@.idle() && error@
                    == "finalization must complete before another phase"@,
            },
    {
        if self.finalization.is_some() || self.ls_resolution.is_some() {
            Err(message("finalization must complete before another phase"))
        } else {
            Ok(())
        }
    }

    fn finalize(
        &mut self,
        requests: Vec<(Target, Request)>,
        store: bool,
        verdict: Result<()>,
    ) -> (step: Step)
        ensures
            (final(self)@, step@) == begin_finalization(
                old(self)@,
                sent(requests@),
                store,
                outcome(verdict),
            ),
    {
        let copy = copy_requests(requests.as_slice());
        self.finalization = Some(Finalization { requests: copy, store });
        attempt(requests, store, ATTEMPTS, verdict)
    }

    /// Starts a setup.
    pub fn setup(&mut self, uid: &[u8], password: &[u8]) -> (step: Step)
        requires
            old(self)@.wf(),
        ensures
            sets_up(old(self)@, uid@, password@, final(self)@, step@),
            step@ matches StepModel::Run(_, next) ==> next.wf(),
    {
        match self.require_idle() {
            Ok(_) => {},
            Err(error) => {
                return Step::Done(Err(error));
            },
        }
        let sid: Sid = rand_bytes(&mut self.rng);
        let rsp: Key = rand_bytes(&mut self.rng);
        let coeffs = random_scalars(self.t, &mut self.rng);
        let ssk: Key = rand_bytes(&mut self.rng);
        let k0: Key = rand_bytes(&mut self.rng);
        let nonce: [u8; 24] = rand_bytes(&mut self.rng);
        let random = SetupRandomness { sid, rsp, coeffs, ssk, k0, nonce };
        let requests = setup_requests(self.n, uid, password, &random);
        let records = root_record_list(self.n, uid);
        assert(random@ == setup_draw(old(self)@.rng, old(self)@.t as nat));
        Step::Run(
            Stage {
                kind: StageKind::ProviderPrepare,
                requests,
                policy: Policy::All,
                settle: false,
            },
            Progress::Preparing { sid, phase: Phase::Setup, records, change: None },
        )
    }

    /// Starts an identification and what it is for.
    fn begin(
        &mut self,
        uid: &[u8],
        password: &[u8],
        requirement: Requirement,
        goal: Goal,
    ) -> (step: Step)
        requires
            old(self)@.wf(),
        ensures
            identifies(
                old(self)@,
                uid@,
                password@,
                requirement,
                goal@,
                final(self)@,
                step@,
            ),
            step@ matches StepModel::Run(_, next) ==> next.wf(),
    {
        let r = random_scalar(&mut self.rng);
        let blinded = blind(password, &r);
        let requests = identify_requests(self.n, uid, &blinded);
        let policy = match requirement {
            Requirement::Threshold => Policy::Agreement(self.t),
            Requirement::AllProviders => Policy::All,
        };
        Step::Run(
            Stage { kind: StageKind::Identification, requests, policy, settle: false },
            Progress::Identifying { password: copy_bytes(password), r, requirement, goal },
        )
    }

    /// Starts an identification that is reported.
    pub fn identification(
        &mut self,
        uid: &[u8],
        password: &[u8],
        requirement: Requirement,
    ) -> (step: Step)
        requires
            old(self)@.wf(),
        ensures
            reports(old(self)@, uid@, password@, requirement, final(self)@, step@),
            step@ matches StepModel::Run(_, next) ==> next.wf(),
    {
        self.begin(uid, password, requirement, Goal::Report)
    }

    /// Starts the registration of an account.
    pub fn registration(
        &mut self,
        uid: &[u8],
        password: &[u8],
        ls: &[u8],
        login_uid: &[u8],
    ) -> (step: Step)
        requires
            old(self)@.wf(),
        ensures
            begins(
                old(self)@,
                uid@,
                password@,
                Requirement::AllProviders,
                GoalModel::Register(
                    Names { uid: uid@, ls: ls@, login_uid: login_uid@ },
                ),
                final(self)@,
                step@,
            ),
            step@ matches StepModel::Run(_, next) ==> next.wf(),
    {
        match self.require_idle() {
            Ok(_) => {},
            Err(error) => {
                return Step::Done(Err(error));
            },
        }
        let names = account_names(uid, ls, login_uid);
        self.begin(uid, password, Requirement::AllProviders, Goal::Register(names))
    }

    /// Starts the replacement of an account's secret.
    pub fn secret_update(
        &mut self,
        uid: &[u8],
        password: &[u8],
        ls: &[u8],
        login_uid: &[u8],
    ) -> (step: Step)
        requires
            old(self)@.wf(),
        ensures
            begins(
                old(self)@,
                uid@,
                password@,
                Requirement::AllProviders,
                GoalModel::Renew(Names { uid: uid@, ls: ls@, login_uid: login_uid@ }),
                final(self)@,
                step@,
            ),
            step@ matches StepModel::Run(_, next) ==> next.wf(),
    {
        match self.require_idle() {
            Ok(_) => {},
            Err(error) => {
                return Step::Done(Err(error));
            },
        }
        let names = account_names(uid, ls, login_uid);
        self.begin(uid, password, Requirement::AllProviders, Goal::Renew(names))
    }

    /// Starts an authentication at the login server.
    pub fn authentication(
        &mut self,
        uid: &[u8],
        password: &[u8],
        ls: &[u8],
        login_uid: &[u8],
    ) -> (step: Step)
        requires
            old(self)@.wf(),
        ensures
            begins(
                old(self)@,
                uid@,
                password@,
                Requirement::Threshold,
                GoalModel::Authenticate(
                    Names { uid: uid@, ls: ls@, login_uid: login_uid@ },
                ),
                final(self)@,
                step@,
            ),
            step@ matches StepModel::Run(_, next) ==> next.wf(),
    {
        match self.require_idle() {
            Ok(_) => {},
            Err(error) => {
                return Step::Done(Err(error));
            },
        }
        let names = account_names(uid, ls, login_uid);
        self.begin(uid, password, Requirement::Threshold, Goal::Authenticate(names))
    }

    /// Starts a password update.
    pub fn password_update(
        &mut self,
        uid: &[u8],
        old_password: &[u8],
        new_password: &[u8],
    ) -> (step: Step)
        requires
            old(self)@.wf(),
        ensures
            begins(
                old(self)@,
                uid@,
                old_password@,
                Requirement::AllProviders,
                GoalModel::ChangePassword { uid: uid@, password: new_password@ },
                final(self)@,
                step@,
            ),
            step@ matches StepModel::Run(_, next) ==> next.wf(),
    {
        match self.require_idle() {
            Ok(_) => {},
            Err(error) => {
                return Step::Done(Err(error));
            },
        }
        let goal = Goal::ChangePassword {
            uid: copy_bytes(uid),
            password: copy_bytes(new_password),
        };
        self.begin(uid, old_password, Requirement::AllProviders, goal)
    }

    /// Starts a TSPA registration.
    pub fn tspa_registration(
        &mut self,
        uid: &[u8],
        password: &[u8],
        ls: &[u8],
        login_uid: &[u8],
    ) -> (step: Step)
        requires
            old(self)@.wf(),
        ensures
            registers_tspa(
                old(self)@,
                uid@,
                password@,
                ls@,
                login_uid@,
                final(self)@,
                step@,
            ),
            step@ matches StepModel::Run(_, next) ==> next.wf(),
    {
        let data = registration(uid, ls, password, self.n, self.t, &mut self.rng);
        assert(data@.keys.len() == data.keys@.len());
        let requests = register_requests(&data);
        let change = Request::Ls(
            LsRequest::Register { uid: copy_bytes(login_uid), verifier: data.verifier },
        );
        Step::Run(
            Stage {
                kind: StageKind::ProviderPrepare,
                requests,
                policy: Policy::All,
                settle: false,
            },
            Progress::TspaPreparing { register: change },
        )
    }

    /// Starts a TSPA authentication.
    pub fn tspa_authentication(
        &mut self,
        uid: &[u8],
        password: &[u8],
        ls: &[u8],
        login_uid: &[u8],
    ) -> (step: Step)
        requires
            old(self)@.wf(),
        ensures
            authenticates_tspa(
                old(self)@,
                uid@,
                password@,
                ls@,
                login_uid@,
                final(self)@,
                step@,
            ),
            step@ matches StepModel::Run(_, next) ==> next.wf(),
    {
        let r = random_scalar(&mut self.rng);
        let blinded = crypto_tspa::blind(password, &r);
        let stor_uid = crypto_tspa::hash_storuid(uid, ls);
        let requests = authenticate_requests(self.t, &stor_uid, &blinded);
        Step::Run(
            Stage {
                kind: StageKind::AccountRecovery,
                requests,
                policy: Policy::All,
                settle: false,
            },
            Progress::TspaRecovering {
                password: copy_bytes(password),
                ls: copy_bytes(ls),
                login_uid: copy_bytes(login_uid),
                r,
            },
        )
    }

    /// Resumes an unfinished phase: first the login server's change, then the
    /// finalization.
    pub fn resume_finalization(&mut self) -> (step: Step)
        ensures
            (final(self)@, step@) == resumed(old(self)@),
            step@ matches StepModel::Run(_, next) ==> next.wf(),
    {
        match &self.ls_resolution {
            Some(resolution) => {
                return ask_for_outcome(
                    resolution.probe.clone(),
                    copy_requests(resolution.store.as_slice()),
                    copy_requests(resolution.discard.as_slice()),
                    false,
                );
            },
            None => {},
        }
        let (requests, store) = match &self.finalization {
            Some(pending) => (copy_requests(pending.requests.as_slice()), pending.store),
            None => {
                return Step::Done(Err(message("no finalization pending")));
            },
        };
        self.finalize(requests, store, Ok(()))
    }
}

/// An error text behind a prefix.
fn prefixed(prefix: &str, error: String) -> (text: String)
    ensures
        text@ == prefix@ + error@,
{
    message(prefix).concat(error.as_str())
}

impl System {
    fn follow_preparation(
        &mut self,
        sid: Sid,
        phase: Phase,
        records: Vec<RecordId>,
        change: Option<LsRequest>,
        end: Result<Vec<(u32, Reply)>>,
    ) -> (step: Step)
        requires
            records@.len() <= u32::MAX,
        ensures
            (final(self)@, step@) == after_preparation(
                old(self)@,
                sid@,
                phase,
                record_models(records@),
                optional_change(change),
                stage_outcome(end),
            ),
    {
        let prepared = require_acks(end);
        let store = prepared.is_ok();
        if store {
            match change {
                Some(change) => {
                    let probe = probe_request(&change);
                    return ask(
                        Request::Ls(change),
                        Progress::Changing { sid, phase, records, probe },
                    );
                },
                None => {},
            }
        }
        let requests = finals(sid, phase, records.as_slice(), store);
        self.finalize(requests, store, prepared)
    }

    fn follow_change(
        &mut self,
        sid: Sid,
        phase: Phase,
        records: Vec<RecordId>,
        probe: Request,
        end: Result<Vec<(u32, Reply)>>,
        refused: bool,
    ) -> (step: Step)
        requires
            records@.len() <= u32::MAX,
        ensures
            (final(self)@, step@) == after_change(
                old(self)@,
                sid@,
                phase,
                record_models(records@),
                probe@,
                stage_outcome(end),
                refused,
            ),
    {
        let changed = require_acks(end);
        if changed.is_err() && !refused {
            let store = finals(sid, phase, records.as_slice(), true);
            let discard = finals(sid, phase, records.as_slice(), false);
            self.ls_resolution = Some(
                LsResolution {
                    probe: probe.clone(),
                    store: copy_requests(store.as_slice()),
                    discard: copy_requests(discard.as_slice()),
                },
            );
            return ask_for_outcome(probe, store, discard, true);
        }
        let store = changed.is_ok();
        let requests = finals(sid, phase, records.as_slice(), store);
        self.finalize(requests, store, changed)
    }

    fn follow_resolution(
        &mut self,
        store: Vec<(Target, Request)>,
        discard: Vec<(Target, Request)>,
        end: Result<Vec<(u32, Reply)>>,
    ) -> (step: Step)
        ensures
            (final(self)@, step@) == after_resolution(
                old(self)@,
                sent(store@),
                sent(discard@),
                stage_outcome(end),
            ),
    {
        let replies = match end {
            Ok(replies) => replies,
            Err(error) => {
                return Step::Done(
                    Err(
                        prefixed(
                            "LS outcome unknown; provider preparations retained: ",
                            error,
                        ),
                    ),
                );
            },
        };
        assert(votes(replies@).len() == replies@.len());
        if replies.len() == 1 {
            assert(votes(replies@)[0].1 == replies@[0].1@);
            match &replies[0].1 {
                Reply::Ack(accepted) => {
                    self.ls_resolution = None;
                    return if *accepted {
                        self.finalize(store, true, Ok(()))
                    } else {
                        self.finalize(discard, false, Err(message("LS rejected operation")))
                    };
                },
                _ => {},
            }
        }
        Step::Done(Err(message("unexpected LS resolution response; preparations retained")))
    }

    fn follow_finalization(
        &mut self,
        requests: Vec<(Target, Request)>,
        store: bool,
        attempts: usize,
        verdict: Result<()>,
        end: Result<Vec<(u32, Reply)>>,
    ) -> (step: Step)
        ensures
            (final(self)@, step@) == after_finalization(
                old(self)@,
                sent(requests@),
                store,
                attempts as int,
                outcome(verdict),
                stage_outcome(end),
            ),
    {
        let last = if store {
            require_acks(end)
        } else {
            match end {
                Ok(_) => Ok(()),
                Err(error) => Err(error),
            }
        };
        match last {
            Ok(_) => {
                self.finalization = None;
                Step::Done(verdict)
            },
            Err(error) => {
                if attempts > 1 {
                    attempt(requests, store, attempts - 1, verdict)
                } else {
                    Step::Done(
                        Err(prefixed("finalization incomplete; retained for resume: ", error)),
                    )
                }
            },
        }
    }

    /// Starts an account write: the first account, or one in place of the previous one.
    pub fn account_write(
        &mut self,
        names: AccountNames,
        state: IdentifiedState,
        previous: Option<Account>,
    ) -> (step: Step)
        requires
            old(self)@.wf(),
        ensures
            (final(self)@, step@) == write_started(
                old(self)@,
                names@,
                state@,
                optional_account(previous),
            ),
            write_opens(
                names@,
                state@,
                optional_account(previous),
                account_draw(old(self)@.rng),
            ),
            step@ matches StepModel::Run(_, next) ==> next.wf(),
    {
        let counter = match counter_after(&previous) {
            Ok(counter) => counter,
            Err(error) => {
                return Step::Done(Err(error));
            },
        };
        let sid: Sid = rand_bytes(&mut self.rng);
        let secret: Key = rand_bytes(&mut self.rng);
        let nonce: [u8; 24] = rand_bytes(&mut self.rng);
        let random = AccountRandomness { sid, secret, nonce };
        assert(random@ == account_draw(old(self)@.rng));
        let plan = plan_account_write(self.n, &names, &state, &previous, counter, &random);
        Step::Run(
            Stage {
                kind: StageKind::ProviderPrepare,
                requests: plan.requests,
                policy: Policy::All,
                settle: false,
            },
            Progress::Preparing {
                sid: plan.sid,
                phase: plan.phase,
                records: plan.records,
                change: Some(plan.ls_request),
            },
        )
    }

    /// Starts the write of a password update at the time `now`.
    fn write_update(
        &mut self,
        uid: Vec<u8>,
        password: Vec<u8>,
        state: IdentifiedState,
        now: u64,
    ) -> (step: Step)
        requires
            old(self)@.wf(),
        ensures
            (final(self)@, step@) == update_started(old(self)@, uid@, password@, state@, now),
            update_opens(
                old(self)@,
                uid@,
                password@,
                state@,
                now,
                update_draw(old(self)@.rng, old(self)@.t as nat),
            ),
            step@ matches StepModel::Run(_, next) ==> next.wf(),
    {
        let sid: Sid = rand_bytes(&mut self.rng);
        let coeffs = random_scalars(self.t, &mut self.rng);
        let timestamp = match timestamp_after(state.timestamp, now) {
            Ok(timestamp) => timestamp,
            Err(error) => {
                return Step::Done(Err(error));
            },
        };
        let nonce: [u8; 24] = rand_bytes(&mut self.rng);
        let random = UpdateRandomness { sid, coeffs, nonce };
        assert(random@ == update_draw(old(self)@.rng, old(self)@.t as nat));
        let requests = update_requests(
            self.n,
            uid.as_slice(),
            password.as_slice(),
            &state,
            timestamp,
            &random,
        );
        let records = root_record_list(self.n, uid.as_slice());
        Step::Run(
            Stage {
                kind: StageKind::ProviderPrepare,
                requests,
                policy: Policy::All,
                settle: false,
            },
            Progress::Preparing { sid, phase: Phase::PasswordUpdate, records, change: None },
        )
    }

    fn recovery(&self, state: IdentifiedState, names: AccountNames, renew: bool) -> (step: Step)
        requires
            self@.wf(),
        ensures
            step@ == recovery_step(self@, state@, names@, renew),
    {
        let requests = read_requests(self.n, &state.rsp, names.ls.as_slice());
        Step::Run(
            Stage {
                kind: StageKind::AccountRecovery,
                requests,
                policy: Policy::Agreement(self.t),
                settle: false,
            },
            Progress::Recovering { state, names, renew },
        )
    }

    fn follow_identification(
        &mut self,
        result: Result<IdentifiedState>,
        goal: Goal,
        now: u64,
    ) -> (step: Step)
        requires
            old(self)@.wf(),
        ensures
            (final(self)@, step@) == after_identification(
                old(self)@,
                state_result(result),
                goal@,
                now,
            ),
            match (state_result(result), goal@) {
                (Ok(state), GoalModel::Register(names)) => write_opens(
                    names,
                    state,
                    None,
                    account_draw(old(self)@.rng),
                ),
                (Ok(state), GoalModel::ChangePassword { uid, password }) => update_opens(
                    old(self)@,
                    uid,
                    password,
                    state,
                    now,
                    update_draw(old(self)@.rng, old(self)@.t as nat),
                ),
                _ => true,
            },
            step@ matches StepModel::Run(_, next) ==> next.wf(),
    {
        let state = match result {
            Ok(state) => state,
            Err(error) => {
                return match goal {
                    Goal::Report => Step::Identified(Err(error)),
                    _ => Step::Done(Err(error)),
                };
            },
        };
        match goal {
            Goal::Report => Step::Identified(Ok(state)),
            Goal::Register(names) => self.account_write(names, state, None),
            Goal::Renew(names) => self.recovery(state, names, true),
            Goal::Authenticate(names) => self.recovery(state, names, false),
            Goal::ChangePassword { uid, password } => self.write_update(
                uid,
                password,
                state,
                now,
            ),
        }
    }

    fn follow_recovery(
        &mut self,
        state: IdentifiedState,
        names: AccountNames,
        renew: bool,
        end: Result<Vec<(u32, Reply)>>,
    ) -> (step: Step)
        requires
            old(self)@.wf(),
            stage_outcome(end) matches Ok(replies) ==> replies.len() >= 1,
        ensures
            (final(self)@, step@) == after_recovery(
                old(self)@,
                state@,
                names@,
                renew,
                stage_outcome(end),
            ),
            recovery_result(state@, names@, stage_outcome(end)) matches Ok(account) ==> renew
                ==> write_opens(names@, state@, Some(account), account_draw(old(self)@.rng)),
            step@ matches StepModel::Run(_, next) ==> next.wf(),
    {
        let replies = match end {
            Ok(replies) => replies,
            Err(error) => {
                return Step::Done(Err(error));
            },
        };
        assert(votes(replies@).len() == replies@.len());
        let account = match recover_account(
            &state.k0,
            names.uid.as_slice(),
            names.ls.as_slice(),
            replies.as_slice(),
        ) {
            Ok(account) => account,
            Err(error) => {
                return Step::Done(Err(error));
            },
        };
        if renew {
            self.account_write(names, state, Some(account))
        } else {
            let verifier = hash_vinfo(&account.secret, names.ls.as_slice());
            ask(
                Request::Ls(
                    LsRequest::Authenticate {
                        uid: copy_bytes(names.login_uid.as_slice()),
                        verifier,
                    },
                ),
                Progress::Confirming,
            )
        }
    }

    /// Decides what follows on the end of a stage, at the time `now`. Whether the login
    /// server refused its change is read from the calls of the stage.
    pub fn advance(
        &mut self,
        progress: Progress,
        end: Result<Vec<(u32, Reply)>>,
        calls: &[CallSample],
        stage_id: usize,
        now: u64,
    ) -> (step: Step)
        requires
            old(self)@.wf(),
            progress@.wf(),
            is_end_of(progress@, stage_outcome(end)),
        ensures
            advances(
                old(self)@,
                progress@,
                stage_outcome(end),
                calls@,
                stage_id,
                now,
                final(self)@,
                step@,
            ),
            final(self)@.wf(),
            step@ matches StepModel::Run(_, next) ==> next.wf(),
    {
        match progress {
            Progress::Preparing { sid, phase, records, change } => {
                assert(record_models(records@).len() == records@.len());
                self.follow_preparation(sid, phase, records, change, end)
            },
            Progress::Identifying { password, r, requirement, goal } => {
                let result = conclude_identification(
                    requirement,
                    self.t,
                    password.as_slice(),
                    &r,
                    end,
                );
                self.follow_identification(result, goal, now)
            },
            Progress::Recovering { state, names, renew } => self.follow_recovery(
                state,
                names,
                renew,
                end,
            ),
            Progress::Changing { sid, phase, records, probe } => {
                assert(record_models(records@).len() == records@.len());
                let refused = refused_by_login_server(calls, stage_id);
                self.follow_change(sid, phase, records, probe, end, refused)
            },
            Progress::Confirming => Step::Done(require_acks(end)),
            Progress::Finalizing { requests, store, attempts, verdict } => self.follow_finalization(
                requests,
                store,
                attempts,
                verdict,
                end,
            ),
            Progress::Resolving { accepted, rejected } => self.follow_resolution(
                accepted,
                rejected,
                end,
            ),
            Progress::TspaPreparing { register } => match require_acks(end) {
                Ok(_) => ask(register, Progress::Confirming),
                Err(error) => Step::Done(Err(error)),
            },
            Progress::TspaRecovering { password, ls, login_uid, r } => follow_tspa_recovery(
                password,
                ls,
                login_uid,
                r,
                end,
            ),
        }
    }
}

fn follow_tspa_recovery(
    password: Vec<u8>,
    ls: Vec<u8>,
    login_uid: Vec<u8>,
    r: Key,
    end: Result<Vec<(u32, Reply)>>,
) -> (step: Step)
    ensures
        step@ == after_tspa_recovery(password@, ls@, login_uid@, r@, stage_outcome(end)),
        reconstructs_honestly(password@, r@, stage_outcome(end)),
{
    let replies = match end {
        Ok(replies) => replies,
        Err(error) => {
            return Step::Done(Err(error));
        },
    };
    let sorted = sort_by_provider(replies);
    assert(votes(sorted@).len() == sorted@.len());
    match reconstruct(password.as_slice(), ls.as_slice(), &r, sorted.as_slice()) {
        Ok((_, verifier)) => ask(
            Request::Ls(LsRequest::Authenticate { uid: login_uid, verifier }),
            Progress::Confirming,
        ),
        Err(error) => Step::Done(Err(error)),
    }
}

/// The requests of a reset: every provider and the login server.
pub open spec fn reset_messages(n: int) -> Seq<(Target, RequestModel)> {
    Seq::new(
        (n + 1) as nat,
        |i: int|
            (
                if i < n {
                    Target::Provider((i + 1) as u32)
                } else {
                    Target::LoginServer
                },
                RequestModel::Reset,
            ),
    )
}

/// The outcome of answers that must all be positive acknowledgements: that of the first
/// one that is not.
pub open spec fn first_refusal(answers: Seq<Answer>) -> Outcome
    decreases answers.len(),
{
    if answers.len() == 0 {
        Ok(())
    } else {
        match first_refusal(answers.drop_last()) {
            Err(error) => Err(error),
            Ok(_) => match answers.last() {
                Ok(reply) => ack_outcome(reply),
                Err(error) => Err(error),
            },
        }
    }
}

/// Model of a list of answers.
pub open spec fn answers(responses: Seq<Result<Reply>>) -> Seq<Answer> {
    Seq::new(responses.len(), |i: int| answer(responses[i]))
}

/// The client after a reset: if every node acknowledged it, nothing is unfinished.
pub open spec fn after_reset(system: SystemModel, answers: Seq<Answer>) -> SystemModel {
    if first_refusal(answers) is Ok {
        SystemModel { finalization: None, resolution: None, ..system }
    } else {
        system
    }
}

proof fn lemma_refusal_is_first(answers: Seq<Answer>, k: int)
    requires
        0 <= k <= answers.len(),
        first_refusal(answers.take(k)) is Err,
    ensures
        first_refusal(answers) == first_refusal(answers.take(k)),
    decreases answers.len() - k,
{
    if k == answers.len() {
        assert(answers.take(k) =~= answers);
    } else {
        assert(answers.take(k + 1).drop_last() =~= answers.take(k));
        lemma_refusal_is_first(answers, k + 1);
    }
}

impl System {
    /// The requests of a reset.
    pub fn reset_requests(&self) -> (requests: Vec<(Target, Request)>)
        requires
            self@.wf(),
        ensures
            sent(requests@) == reset_messages(self@.n),
    {
        let mut requests: Vec<(Target, Request)> = Vec::new();
        let mut i: usize = 0;
        while i < self.n
            invariant
                self@.wf(),
                i <= self.n,
                requests@.len() == i,
                forall|k: int|
                    #![trigger requests@[k]]
                    0 <= k < i ==> (requests@[k].0, requests@[k].1@) == reset_messages(
                        self@.n,
                    )[k],
            decreases self.n - i,
        {
            let id: u32 = (i + 1) as u32;
            requests.push((Target::Provider(id), Request::Reset));
            i += 1;
        }
        requests.push((Target::LoginServer, Request::Reset));
        assert(sent(requests@) =~= reset_messages(self@.n));
        requests
    }

    /// Ends a reset: if every node acknowledged it, nothing is left of an unfinished
    /// phase.
    pub fn reset(&mut self, responses: Vec<Result<Reply>>) -> (result: Result<()>)
        ensures
            outcome(result) == first_refusal(answers(responses@)),
            final(self)@ == after_reset(old(self)@, answers(responses@)),
    {
        let ghost all = answers(responses@);
        let mut i: usize = 0;
        assert(all.take(0) =~= Seq::<Answer>::empty());
        while i < responses.len()
            invariant
                i <= responses@.len(),
                all == answers(responses@),
                first_refusal(all.take(i as int)) is Ok,
                self@ == old(self)@,
            decreases responses@.len() - i,
        {
            proof {
                assert(all.take(i + 1).drop_last() =~= all.take(i as int));
                assert(all.take(i + 1).last() == answer(responses@[i as int]));
            }
            let refused = match &responses[i] {
                Ok(reply) => require_ack(reply.clone()),
                Err(error) => Err(error.clone()),
            };
            match refused {
                Ok(_) => {},
                Err(error) => {
                    proof {
                        lemma_refusal_is_first(all, i + 1);
                    }
                    return Err(error);
                },
            }
            i += 1;
        }
        assert(all.take(i as int) =~= all);
        self.finalization = None;
        self.ls_resolution = None;
        Ok(())
    }
}

fn account_names(uid: &[u8], ls: &[u8], login_uid: &[u8]) -> (names: AccountNames)
    ensures
        names@ == (Names { uid: uid@, ls: ls@, login_uid: login_uid@ }),
{
    AccountNames { uid: copy_bytes(uid), ls: copy_bytes(ls), login_uid: copy_bytes(login_uid) }
}

} // verus!
