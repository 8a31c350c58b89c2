//! The course of a phase: its stages, what is remembered between them, and what follows
//! on the end of each.

use vstd::prelude::*;

use crate::accounts::{
    account_opens, account_plan, final_messages, next_counter, probe, read_messages, record_models,
    recovered, written_ciphertext, AccountDraw, AccountModel, AccountNames, AccountResult, Names,
};
use crate::agreement::{agreement_of, Vote};
use crate::client::{
    honest_contributions, identified, identify_messages, root_opens, setup_messages, setup_root,
    state_in_root, state_result, used_replies, IdentifiedState, SetupDraw, StateModel, StateResult,
};
use crate::crypto::{password_key, password_point, vinfo};
use crate::crypto_tspa::{storage_address, tspa_point, tspa_vinfo};
use crate::group::{point_decodes, point_mul};
use crate::interpolation::order;
use crate::messages::{
    outcome, Key, LsRequest, LsRequestModel, Outcome, Phase, RecordId, RecordIdModel, Request,
    RequestModel, Result, Sid,
};
use crate::password::{next_timestamp, signed_update, sound_update, update_messages, UpdateDraw};
use crate::provider_laws::usable_root;
use crate::random::RngModel;
use crate::scalar::{scalar_bytes, scalar_value};
use crate::stage::{acknowledged, sent, Policy, StageOutcome};
use crate::trace::{login_server_refused, CallSample};
use crate::transport::Target;
use crate::tspa_adapter::{
    after_registration_draw, first_fault, honest_replies, reconstructed, registration_draw,
    registration_of, shares_open, RegistrationModel,
};
use crate::tspa_client::{authenticate_messages, by_provider, register_messages};

verus! {

/// How many providers an identification needs: a threshold of matching replies, or a
/// reply of every provider.
#[derive(Clone, Copy, Debug, PartialEq, Eq, Structural)]
pub enum Requirement {
    Threshold,
    AllProviders,
}

/// The kinds of stages.
#[derive(Clone, Copy, Debug, PartialEq, Eq, Structural)]
pub enum StageKind {
    ProviderPrepare,
    Identification,
    AccountRecovery,
    LsInteraction,
    Finalization,
    LsRecovery,
}

impl StageKind {
    /// The name of a stage.
    pub open spec fn label(self) -> Seq<char> {
        match self {
            StageKind::ProviderPrepare => "provider_prepare"@,
            StageKind::Identification => "identification"@,
            StageKind::AccountRecovery => "account_recovery"@,
            StageKind::LsInteraction => "ls_interaction"@,
            StageKind::Finalization => "finalization"@,
            StageKind::LsRecovery => "ls_recovery"@,
        }
    }

    /// The name of a stage.
    pub fn name(&self) -> (name: &'static str)
        ensures
            name@ == self.label(),
    {
        match self {
            StageKind::ProviderPrepare => "provider_prepare",
            StageKind::Identification => "identification",
            StageKind::AccountRecovery => "account_recovery",
            StageKind::LsInteraction => "ls_interaction",
            StageKind::Finalization => "finalization",
            StageKind::LsRecovery => "ls_recovery",
        }
    }
}

/// A stage to run: its requests, which replies to wait for, and whether calls that are
/// still running have to end first.
pub struct Stage {
    pub kind: StageKind,
    pub requests: Vec<(Target, Request)>,
    pub policy: Policy,
    pub settle: bool,
}

/// Model of [`Stage`].
pub struct StageModel {
    pub kind: StageKind,
    pub requests: Seq<(Target, RequestModel)>,
    pub policy: Policy,
    pub settle: bool,
}

impl View for Stage {
    type V = StageModel;

    open spec fn view(&self) -> StageModel {
        StageModel {
            kind: self.kind,
            requests: sent(self.requests@),
            policy: self.policy,
            settle: self.settle,
        }
    }
}

/// What follows on an identification.
pub enum Goal {
    Report,
    Register(AccountNames),
    Renew(AccountNames),
    Authenticate(AccountNames),
    ChangePassword { uid: Vec<u8>, password: Vec<u8> },
}

/// Model of [`Goal`].
pub enum GoalModel {
    Report,
    Register(Names),
    Renew(Names),
    Authenticate(Names),
    ChangePassword { uid: Seq<u8>, password: Seq<u8> },
}

impl View for Goal {
    type V = GoalModel;

    open spec fn view(&self) -> GoalModel {
        match self {
            Goal::Report => GoalModel::Report,
            Goal::Register(names) => GoalModel::Register(names@),
            Goal::Renew(names) => GoalModel::Renew(names@),
            Goal::Authenticate(names) => GoalModel::Authenticate(names@),
            Goal::ChangePassword { uid, password } => GoalModel::ChangePassword {
                uid: uid@,
                password: password@,
            },
        }
    }
}

/// What a phase remembers while a stage runs.
pub enum Progress {
    /// Providers prepare a transaction; then the login server's change, if there is one.
    Preparing { sid: Sid, phase: Phase, records: Vec<RecordId>, change: Option<LsRequest> },
    /// Providers evaluate the blinded password.
    Identifying { password: Vec<u8>, r: Key, requirement: Requirement, goal: Goal },
    /// Providers return an account, to renew it or to authenticate with it.
    Recovering { state: IdentifiedState, names: AccountNames, renew: bool },
    /// The login server makes a change that providers have prepared.
    Changing { sid: Sid, phase: Phase, records: Vec<RecordId>, probe: Request },
    /// The login server's acknowledgement ends the phase.
    Confirming,
    /// Providers finalize a transaction.
    Finalizing {
        requests: Vec<(Target, Request)>,
        store: bool,
        attempts: usize,
        verdict: Result<()>,
    },
    /// The login server is asked whether a change took effect.
    Resolving { accepted: Vec<(Target, Request)>, rejected: Vec<(Target, Request)> },
    /// Providers store TSPA shares; then the login server registers the verifier.
    TspaPreparing { register: Request },
    /// Providers evaluate the blinded password and return TSPA shares.
    TspaRecovering { password: Vec<u8>, ls: Vec<u8>, login_uid: Vec<u8>, r: Key },
}

/// Model of [`Progress`].
pub enum ProgressModel {
    Preparing {
        sid: Seq<u8>,
        phase: Phase,
        records: Seq<RecordIdModel>,
        change: Option<LsRequestModel>,
    },
    Identifying { password: Seq<u8>, r: Seq<u8>, requirement: Requirement, goal: GoalModel },
    Recovering { state: StateModel, names: Names, renew: bool },
    Changing { sid: Seq<u8>, phase: Phase, records: Seq<RecordIdModel>, probe: RequestModel },
    Confirming,
    Finalizing {
        requests: Seq<(Target, RequestModel)>,
        store: bool,
        attempts: int,
        verdict: Outcome,
    },
    Resolving { accepted: Seq<(Target, RequestModel)>, rejected: Seq<(Target, RequestModel)> },
    TspaPreparing { register: RequestModel },
    TspaRecovering { password: Seq<u8>, ls: Seq<u8>, login_uid: Seq<u8>, r: Seq<u8> },
}

impl ProgressModel {
    /// No more records than there are provider numbers.
    pub open spec fn wf(self) -> bool {
        match self {
            ProgressModel::Preparing { records, .. } => records.len() <= u32::MAX,
            ProgressModel::Changing { records, .. } => records.len() <= u32::MAX,
            _ => true,
        }
    }
}

/// Model of a change that may be absent.
pub open spec fn optional_change(change: Option<LsRequest>) -> Option<LsRequestModel> {
    match change {
        Some(change) => Some(change@),
        None => None,
    }
}

impl View for Progress {
    type V = ProgressModel;

    open spec fn view(&self) -> ProgressModel {
        match self {
            Progress::Preparing { sid, phase, records, change } => ProgressModel::Preparing {
                sid: sid@,
                phase: *phase,
                records: record_models(records@),
                change: optional_change(*change),
            },
            Progress::Identifying { password, r, requirement, goal } => {
                ProgressModel::Identifying {
                    password: password@,
                    r: r@,
                    requirement: *requirement,
                    goal: goal@,
                }
            },
            Progress::Recovering { state, names, renew } => ProgressModel::Recovering {
                state: state@,
                names: names@,
                renew: *renew,
            },
            Progress::Changing { sid, phase, records, probe } => ProgressModel::Changing {
                sid: sid@,
                phase: *phase,
                records: record_models(records@),
                probe: probe@,
            },
            Progress::Confirming => ProgressModel::Confirming,
            Progress::Finalizing { requests, store, attempts, verdict } => {
                ProgressModel::Finalizing {
                    requests: sent(requests@),
                    store: *store,
                    attempts: *attempts as int,
                    verdict: outcome(*verdict),
                }
            },
            Progress::Resolving { accepted, rejected } => ProgressModel::Resolving {
                accepted: sent(accepted@),
                rejected: sent(rejected@),
            },
            Progress::TspaPreparing { register } => ProgressModel::TspaPreparing {
                register: register@,
            },
            Progress::TspaRecovering { password, ls, login_uid, r } => {
                ProgressModel::TspaRecovering {
                    password: password@,
                    ls: ls@,
                    login_uid: login_uid@,
                    r: r@,
                }
            },
        }
    }
}

/// What comes next: a stage to run, or the end of the phase.
pub enum Step {
    Run(Stage, Progress),
    Done(Result<()>),
    Identified(Result<IdentifiedState>),
}

/// Model of [`Step`].
pub enum StepModel {
    Run(StageModel, ProgressModel),
    Done(Outcome),
    Identified(StateResult),
}

impl View for Step {
    type V = StepModel;

    open spec fn view(&self) -> StepModel {
        match self {
            Step::Run(stage, progress) => StepModel::Run(stage@, progress@),
            Step::Done(result) => StepModel::Done(outcome(*result)),
            Step::Identified(result) => StepModel::Identified(
                state_result(*result),
            ),
        }
    }
}

/// A finalization that was not confirmed: its requests and whether it stores.
pub struct FinalizationModel {
    pub requests: Seq<(Target, RequestModel)>,
    pub store: bool,
}

/// A change at the login server whose effect is unknown: how to ask for it, and how to
/// finalize either way.
pub struct ResolutionModel {
    pub probe: RequestModel,
    pub store: Seq<(Target, RequestModel)>,
    pub discard: Seq<(Target, RequestModel)>,
}

/// Model of the client: the number of providers, the threshold, the generator, and what is
/// left of an unfinished phase.
pub struct SystemModel {
    pub n: int,
    pub t: int,
    pub rng: RngModel,
    pub finalization: Option<FinalizationModel>,
    pub resolution: Option<ResolutionModel>,
}

impl SystemModel {
    /// Between one and a hundred providers, and a threshold that they can reach.
    pub open spec fn wf(self) -> bool {
        1 <= self.t <= self.n <= 100
    }

    /// The same client with its generator moved on.
    pub open spec fn drawn(self, rng: RngModel) -> SystemModel {
        SystemModel { rng, ..self }
    }

    /// No phase is unfinished.
    pub open spec fn idle(self) -> bool {
        self.finalization is None && self.resolution is None
    }
}

/// A client of `n` providers with threshold `t`, or the refusal of these numbers.
pub open spec fn new_client(n: int, t: int, seed: Seq<u8>) -> std::result::Result<
    SystemModel,
    Seq<char>,
> {
    if 1 <= t <= n <= 100 {
        Ok(
            SystemModel {
                n,
                t,
                rng: RngModel { seed, position: 0 },
                finalization: None,
                resolution: None,
            },
        )
    } else {
        Err("require 1 <= t_sp <= n_sp <= 100"@)
    }
}

/// The step that runs a stage.
pub open spec fn run(
    kind: StageKind,
    requests: Seq<(Target, RequestModel)>,
    policy: Policy,
    settle: bool,
    next: ProgressModel,
) -> StepModel {
    StepModel::Run(StageModel { kind, requests, policy, settle }, next)
}

/// The step that sends one request to the login server.
pub open spec fn ask_login_server(request: RequestModel, next: ProgressModel) -> StepModel {
    run(
        StageKind::LsInteraction,
        seq![(Target::LoginServer, request)],
        Policy::All,
        false,
        next,
    )
}

/// How often a finalization is tried.
pub const ATTEMPTS: usize = 3;

/// The attempt of a finalization.
pub open spec fn finalization_step(
    requests: Seq<(Target, RequestModel)>,
    store: bool,
    attempts: int,
    verdict: Outcome,
) -> StepModel {
    run(
        StageKind::Finalization,
        requests,
        Policy::All,
        false,
        ProgressModel::Finalizing { requests, store, attempts, verdict },
    )
}

/// The start of a finalization: it is retained until it is confirmed.
pub open spec fn begin_finalization(
    system: SystemModel,
    requests: Seq<(Target, RequestModel)>,
    store: bool,
    verdict: Outcome,
) -> (SystemModel, StepModel) {
    (
        SystemModel { finalization: Some(FinalizationModel { requests, store }), ..system },
        finalization_step(requests, store, ATTEMPTS as int, verdict),
    )
}

/// After the providers prepared: the login server's change if all of them acknowledged
/// and there is one, else the finalization, which stores exactly if all acknowledged.
pub open spec fn after_preparation(
    system: SystemModel,
    sid: Seq<u8>,
    phase: Phase,
    records: Seq<RecordIdModel>,
    change: Option<LsRequestModel>,
    end: StageOutcome,
) -> (SystemModel, StepModel) {
    let prepared = acknowledged(end);
    if prepared is Ok && change is Some {
        (
            system,
            ask_login_server(
                RequestModel::Ls(change->0),
                ProgressModel::Changing { sid, phase, records, probe: probe(change->0) },
            ),
        )
    } else {
        begin_finalization(
            system,
            final_messages(sid, phase, records, prepared is Ok),
            prepared is Ok,
            prepared,
        )
    }
}

/// The step that asks the login server whether a change took effect.
pub open spec fn resolution_step(resolution: ResolutionModel, settle: bool) -> StepModel {
    run(
        StageKind::LsRecovery,
        seq![(Target::LoginServer, resolution.probe)],
        Policy::All,
        settle,
        ProgressModel::Resolving { accepted: resolution.store, rejected: resolution.discard },
    )
}

/// After the login server's change: the finalization stores if the change was
/// acknowledged, and discards only if the login server is known to have refused it. If
/// neither is known its effect has to be resolved.
pub open spec fn after_change(
    system: SystemModel,
    sid: Seq<u8>,
    phase: Phase,
    records: Seq<RecordIdModel>,
    asked: RequestModel,
    end: StageOutcome,
    refused: bool,
) -> (SystemModel, StepModel) {
    let changed = acknowledged(end);
    if changed is Err && !refused {
        let resolution = ResolutionModel {
            probe: asked,
            store: final_messages(sid, phase, records, true),
            discard: final_messages(sid, phase, records, false),
        };
        (
            SystemModel { resolution: Some(resolution), ..system },
            resolution_step(resolution, true),
        )
    } else {
        begin_finalization(
            system,
            final_messages(sid, phase, records, changed is Ok),
            changed is Ok,
            changed,
        )
    }
}

/// After the login server was asked: its answer decides between Store and Discard. With
/// no usable answer everything is retained.
pub open spec fn after_resolution(
    system: SystemModel,
    store: Seq<(Target, RequestModel)>,
    discard: Seq<(Target, RequestModel)>,
    end: StageOutcome,
) -> (SystemModel, StepModel) {
    match end {
        Err(error) => (
            system,
            StepModel::Done(
                Err("LS outcome unknown; provider preparations retained: "@ + error),
            ),
        ),
        Ok(replies) => if replies.len() == 1 && replies[0].1 is Ack {
            let accepted = replies[0].1->Ack_0;
            begin_finalization(
                SystemModel { resolution: None, ..system },
                if accepted {
                    store
                } else {
                    discard
                },
                accepted,
                if accepted {
                    Ok(())
                } else {
                    Err("LS rejected operation"@)
                },
            )
        } else {
            (
                system,
                StepModel::Done(
                    Err("unexpected LS resolution response; preparations retained"@),
                ),
            )
        },
    }
}

/// Whether a finalization was confirmed: Store needs every acknowledgement, Discard only
/// a reply of every provider.
pub open spec fn finalization_outcome(store: bool, end: StageOutcome) -> Outcome {
    if store {
        acknowledged(end)
    } else {
        match end {
            Ok(_) => Ok(()),
            Err(error) => Err(error),
        }
    }
}

/// After an attempt of a finalization: it is confirmed, tried again, or retained.
pub open spec fn after_finalization(
    system: SystemModel,
    requests: Seq<(Target, RequestModel)>,
    store: bool,
    attempts: int,
    verdict: Outcome,
    end: StageOutcome,
) -> (SystemModel, StepModel) {
    match finalization_outcome(store, end) {
        Ok(_) => (SystemModel { finalization: None, ..system }, StepModel::Done(verdict)),
        Err(error) => if attempts > 1 {
            (system, finalization_step(requests, store, attempts - 1, verdict))
        } else {
            (
                system,
                StepModel::Done(
                    Err("finalization incomplete; retained for resume: "@ + error),
                ),
            )
        },
    }
}

/// The replies that an identification goes by.
pub open spec fn accepted_roots(
    requirement: Requirement,
    t: int,
    replies: Seq<Vote>,
) -> StageOutcome {
    match requirement {
        Requirement::Threshold => Ok(replies),
        Requirement::AllProviders => match agreement_of(replies, t as usize, 0) {
            Ok(Some(accepted)) => Ok(accepted),
            Ok(None) => Err("no root agreement"@),
            Err(error) => Err(error),
        },
    }
}

/// What an identification ends with.
pub open spec fn identification_result(
    requirement: Requirement,
    t: int,
    password: Seq<u8>,
    r: Seq<u8>,
    end: StageOutcome,
) -> StateResult {
    match end {
        Err(error) => Err(error),
        Ok(replies) => match accepted_roots(requirement, t, replies) {
            Err(error) => Err(error),
            Ok(accepted) => identified(password, scalar_value(r), t, accepted),
        },
    }
}

/// If enough honest providers are among the accepted replies, the result is what the
/// root holds under the key that the polynomial's constant gives.
pub open spec fn identifies_honestly(
    requirement: Requirement,
    t: int,
    password: Seq<u8>,
    r: Seq<u8>,
    end: StageOutcome,
) -> bool {
    end matches Ok(replies) ==> (accepted_roots(requirement, t, replies) matches Ok(accepted) ==> (
    scalar_value(r) != 0 ==> forall|coefficients: Seq<int>| #[trigger]
        honest_contributions(
            used_replies(accepted, t),
            password,
            scalar_value(r),
            coefficients,
        ) && 1 <= coefficients.len() <= used_replies(accepted, t).len() ==> identification_result(
            requirement,
            t,
            password,
            r,
            end,
        ) == state_in_root(
            password_key(password, coefficients[0] % order()),
            accepted[0].1->cid,
            accepted[0].1->timestamp,
        )))
}

/// The records of a user's root at the providers `1..=n`.
pub open spec fn root_records(n: int, uid: Seq<u8>) -> Seq<RecordIdModel> {
    Seq::new(n as nat, |i: int| RecordIdModel::Root(uid))
}

/// The start of a setup.
pub open spec fn setup_step(
    system: SystemModel,
    uid: Seq<u8>,
    password: Seq<u8>,
    draw: SetupDraw,
) -> StepModel {
    run(
        StageKind::ProviderPrepare,
        setup_messages(system.n, uid, password, draw),
        Policy::All,
        false,
        ProgressModel::Preparing {
            sid: draw.sid,
            phase: Phase::Setup,
            records: root_records(system.n, uid),
            change: None,
        },
    )
}

/// Every root of a setup is one that a provider can serve, and its ciphertext opens to
/// the drawn keys.
pub open spec fn setup_opens(
    system: SystemModel,
    uid: Seq<u8>,
    password: Seq<u8>,
    draw: SetupDraw,
) -> bool {
    forall|i: int|
        #![trigger setup_root(uid, password, draw, i)]
        1 <= i <= system.n ==> usable_root(setup_root(uid, password, draw, i)) && root_opens(
            setup_root(uid, password, draw, i).cid,
            password,
            draw.coeffs[0],
            (StateModel { ssk: draw.ssk, rsp: draw.rsp, k0: draw.k0, timestamp: 0 }),
        )
}

/// The refusal of a phase while another one is unfinished.
pub open spec fn not_idle() -> StepModel {
    StepModel::Done(Err("finalization must complete before another phase"@))
}

/// The start of an identification with a blinding scalar.
pub open spec fn identification_step(
    system: SystemModel,
    uid: Seq<u8>,
    password: Seq<u8>,
    requirement: Requirement,
    goal: GoalModel,
    r: Seq<u8>,
) -> StepModel {
    run(
        StageKind::Identification,
        identify_messages(
            system.n,
            uid,
            point_mul(password_point(password), scalar_value(r)),
        ),
        match requirement {
            Requirement::Threshold => Policy::Agreement(system.t as usize),
            Requirement::AllProviders => Policy::All,
        },
        false,
        ProgressModel::Identifying { password, r, requirement, goal },
    )
}

/// The randomness that a generator gives for a setup.
pub open spec fn setup_draw(rng: RngModel, t: nat) -> SetupDraw {
    let second = rng.after(16);
    let third = second.after(32);
    let fourth = third.after_scalars(t);
    let fifth = fourth.after(32);
    SetupDraw {
        sid: rng.bytes(16),
        rsp: second.bytes(32),
        coeffs: third.scalars(t),
        ssk: fourth.bytes(32),
        k0: fifth.bytes(32),
        nonce: fifth.after(32).bytes(24),
    }
}

/// The generator behind the randomness of a setup.
pub open spec fn after_setup_draw(rng: RngModel, t: nat) -> RngModel {
    rng.after(16).after(32).after_scalars(t).after(32).after(32).after(24)
}

/// A setup starts, or is refused while another phase is unfinished.
pub open spec fn setup_started(system: SystemModel, uid: Seq<u8>, password: Seq<u8>) -> (
    SystemModel,
    StepModel,
) {
    if system.idle() {
        let t = system.t as nat;
        (
            system.drawn(after_setup_draw(system.rng, t)),
            setup_step(system, uid, password, setup_draw(system.rng, t)),
        )
    } else {
        (system, not_idle())
    }
}

/// The client starts a setup: its state and step, and what the roots encrypt.
pub open spec fn sets_up(
    system: SystemModel,
    uid: Seq<u8>,
    password: Seq<u8>,
    next: SystemModel,
    step: StepModel,
) -> bool {
    &&& (next, step) == setup_started(system, uid, password)
    &&& system.idle() ==> setup_opens(
        system,
        uid,
        password,
        setup_draw(system.rng, system.t as nat),
    )
}

/// The password's group element and its multiple by the next scalar are encodings of
/// group elements.
pub open spec fn blinds(rng: RngModel, password: Seq<u8>) -> bool {
    &&& point_decodes(password_point(password))
    &&& point_decodes(point_mul(password_point(password), rng.scalar()))
}

/// The client starts an identification: its state and step, and that the blinded element
/// is one.
pub open spec fn identifies(
    system: SystemModel,
    uid: Seq<u8>,
    password: Seq<u8>,
    requirement: Requirement,
    goal: GoalModel,
    next: SystemModel,
    step: StepModel,
) -> bool {
    &&& (next, step) == identification_started(system, uid, password, requirement, goal)
    &&& blinds(system.rng, password)
}

/// The client starts an identification that reports the user's state.
pub open spec fn reports(
    system: SystemModel,
    uid: Seq<u8>,
    password: Seq<u8>,
    requirement: Requirement,
    next: SystemModel,
    step: StepModel,
) -> bool {
    identifies(system, uid, password, requirement, GoalModel::Report, next, step)
}

/// The client starts a phase with an identification, or refuses to while another phase is
/// unfinished.
pub open spec fn begins(
    system: SystemModel,
    uid: Seq<u8>,
    password: Seq<u8>,
    requirement: Requirement,
    goal: GoalModel,
    next: SystemModel,
    step: StepModel,
) -> bool {
    &&& (next, step) == phase_started(system, uid, password, requirement, goal)
    &&& system.idle() ==> blinds(system.rng, password)
}

/// The client starts a TSPA registration: its state and step, and what the shares encrypt.
pub open spec fn registers_tspa(
    system: SystemModel,
    uid: Seq<u8>,
    password: Seq<u8>,
    ls: Seq<u8>,
    login_uid: Seq<u8>,
    next: SystemModel,
    step: StepModel,
) -> bool {
    let draw = registration_draw(system.rng, system.n as nat, system.t as nat);
    &&& (next, step) == tspa_registration_started(system, uid, password, ls, login_uid)
    &&& shares_open(registration_of(uid, ls, password, draw), password, draw)
}

/// The client starts a TSPA authentication: its state and step, and that the blinded
/// element is one.
pub open spec fn authenticates_tspa(
    system: SystemModel,
    uid: Seq<u8>,
    password: Seq<u8>,
    ls: Seq<u8>,
    login_uid: Seq<u8>,
    next: SystemModel,
    step: StepModel,
) -> bool {
    &&& (next, step) == tspa_authentication_started(system, uid, password, ls, login_uid)
    &&& point_decodes(tspa_point(password))
    &&& point_decodes(point_mul(tspa_point(password), system.rng.scalar()))
}

/// The client resumes an unfinished phase: first the login server's change, then the
/// finalization.
pub open spec fn resumed(system: SystemModel) -> (SystemModel, StepModel) {
    match (system.resolution, system.finalization) {
        (Some(resolution), _) => (system, resolution_step(resolution, false)),
        (None, Some(pending)) => begin_finalization(
            system,
            pending.requests,
            pending.store,
            Ok(()),
        ),
        (None, None) => (system, StepModel::Done(Err("no finalization pending"@))),
    }
}

/// An identification starts with a drawn blinding scalar.
pub open spec fn identification_started(
    system: SystemModel,
    uid: Seq<u8>,
    password: Seq<u8>,
    requirement: Requirement,
    goal: GoalModel,
) -> (SystemModel, StepModel) {
    (
        system.drawn(system.rng.after(64)),
        identification_step(
            system,
            uid,
            password,
            requirement,
            goal,
            scalar_bytes(system.rng.scalar()),
        ),
    )
}

/// A phase that begins with an identification starts, or is refused while another phase
/// is unfinished.
pub open spec fn phase_started(
    system: SystemModel,
    uid: Seq<u8>,
    password: Seq<u8>,
    requirement: Requirement,
    goal: GoalModel,
) -> (SystemModel, StepModel) {
    if system.idle() {
        identification_started(system, uid, password, requirement, goal)
    } else {
        (system, not_idle())
    }
}

/// A TSPA registration starts.
pub open spec fn tspa_registration_started(
    system: SystemModel,
    uid: Seq<u8>,
    password: Seq<u8>,
    ls: Seq<u8>,
    login_uid: Seq<u8>,
) -> (SystemModel, StepModel) {
    let n = system.n as nat;
    let t = system.t as nat;
    (
        system.drawn(after_registration_draw(system.rng, n, t)),
        tspa_registration_step(
            registration_of(uid, ls, password, registration_draw(system.rng, n, t)),
            login_uid,
        ),
    )
}

/// A TSPA authentication starts with a drawn blinding scalar.
pub open spec fn tspa_authentication_started(
    system: SystemModel,
    uid: Seq<u8>,
    password: Seq<u8>,
    ls: Seq<u8>,
    login_uid: Seq<u8>,
) -> (SystemModel, StepModel) {
    (
        system.drawn(system.rng.after(64)),
        tspa_authentication_step(
            system,
            uid,
            password,
            ls,
            login_uid,
            scalar_bytes(system.rng.scalar()),
        ),
    )
}

/// The start of an account recovery.
pub open spec fn recovery_step(
    system: SystemModel,
    state: StateModel,
    names: Names,
    renew: bool,
) -> StepModel {
    run(
        StageKind::AccountRecovery,
        read_messages(system.n, state.rsp, names.ls),
        Policy::Agreement(system.t as usize),
        false,
        ProgressModel::Recovering { state, names, renew },
    )
}

/// The start of an account write.
pub open spec fn write_step(
    system: SystemModel,
    names: Names,
    state: StateModel,
    previous: Option<AccountModel>,
    draw: AccountDraw,
) -> StepModel {
    match next_counter(previous) {
        None => StepModel::Done(Err("counter overflow"@)),
        Some(counter) => {
            let plan = account_plan(system.n, names, state, previous, counter, draw);
            run(
                StageKind::ProviderPrepare,
                plan.requests,
                Policy::All,
                false,
                ProgressModel::Preparing {
                    sid: plan.sid,
                    phase: plan.phase,
                    records: plan.records,
                    change: Some(plan.ls_request),
                },
            )
        },
    }
}

/// The randomness that a generator gives for an account write.
pub open spec fn account_draw(rng: RngModel) -> AccountDraw {
    AccountDraw {
        sid: rng.bytes(16),
        secret: rng.after(16).bytes(32),
        nonce: rng.after(16).after(32).bytes(24),
    }
}

/// The generator behind the randomness of an account write.
pub open spec fn after_account_draw(rng: RngModel) -> RngModel {
    rng.after(16).after(32).after(24)
}

/// An account write starts, unless the counter is used up.
pub open spec fn write_started(
    system: SystemModel,
    names: Names,
    state: StateModel,
    previous: Option<AccountModel>,
) -> (SystemModel, StepModel) {
    let step = write_step(system, names, state, previous, account_draw(system.rng));
    if next_counter(previous) is Some {
        (system.drawn(after_account_draw(system.rng)), step)
    } else {
        (system, step)
    }
}

/// The ciphertext of an account write opens to the drawn secret and the next counter.
pub open spec fn write_opens(
    names: Names,
    state: StateModel,
    previous: Option<AccountModel>,
    draw: AccountDraw,
) -> bool {
    next_counter(previous) matches Some(counter) ==> account_opens(
        written_ciphertext(names.uid, names.ls, state.k0, counter, draw),
        state.k0,
        names.uid,
        names.ls,
        draw.secret,
        counter,
    )
}

/// The start of the write of a password update.
pub open spec fn update_step(
    system: SystemModel,
    uid: Seq<u8>,
    password: Seq<u8>,
    state: StateModel,
    now: u64,
    draw: UpdateDraw,
) -> StepModel {
    match next_timestamp(state.timestamp, now) {
        None => StepModel::Done(Err("timestamp overflow"@)),
        Some(timestamp) => run(
            StageKind::ProviderPrepare,
            update_messages(system.n, uid, password, state, timestamp, draw),
            Policy::All,
            false,
            ProgressModel::Preparing {
                sid: draw.sid,
                phase: Phase::PasswordUpdate,
                records: root_records(system.n, uid),
                change: None,
            },
        ),
    }
}

/// The randomness that a generator gives for a password update.
pub open spec fn update_draw(rng: RngModel, t: nat) -> UpdateDraw {
    UpdateDraw {
        sid: rng.bytes(16),
        coeffs: rng.after(16).scalars(t),
        nonce: rng.after(16).after_scalars(t).bytes(24),
    }
}

/// The write of a password update starts, unless the timestamp is used up.
pub open spec fn update_started(
    system: SystemModel,
    uid: Seq<u8>,
    password: Seq<u8>,
    state: StateModel,
    now: u64,
) -> (SystemModel, StepModel) {
    let t = system.t as nat;
    let step = update_step(system, uid, password, state, now, update_draw(system.rng, t));
    let keyed = system.rng.after(16).after_scalars(t);
    if next_timestamp(state.timestamp, now) is Some {
        (system.drawn(keyed.after(24)), step)
    } else {
        (system.drawn(keyed), step)
    }
}

/// The requests of a password update are sound, and their ciphertext opens under the new
/// password to the same keys.
pub open spec fn update_opens(
    system: SystemModel,
    uid: Seq<u8>,
    password: Seq<u8>,
    state: StateModel,
    now: u64,
    draw: UpdateDraw,
) -> bool {
    next_timestamp(state.timestamp, now) matches Some(timestamp) ==> forall|i: int|
        #![trigger signed_update(uid, password, state, timestamp, draw, i)]
        1 <= i <= system.n ==> sound_update(
            signed_update(uid, password, state, timestamp, draw, i),
            state.ssk,
        ) && root_opens(
            signed_update(uid, password, state, timestamp, draw, i).cid_new,
            password,
            draw.coeffs[0],
            (StateModel { timestamp, ..state }),
        )
}

/// Coefficients of a polynomial for a threshold.
pub open spec fn are_coefficients(coeffs: Seq<int>, t: int) -> bool {
    &&& coeffs.len() == t
    &&& forall|i: int| #![trigger coeffs[i]] 0 <= i < t ==> 0 <= coeffs[i] < order()
}

/// After an identification: its goal, or its error.
pub open spec fn after_identification(
    system: SystemModel,
    result: StateResult,
    goal: GoalModel,
    now: u64,
) -> (SystemModel, StepModel) {
    match result {
        Err(error) => (
            system,
            if goal is Report {
                StepModel::Identified(Err(error))
            } else {
                StepModel::Done(Err(error))
            },
        ),
        Ok(state) => match goal {
            GoalModel::Report => (system, StepModel::Identified(Ok(state))),
            GoalModel::Register(names) => write_started(system, names, state, None),
            GoalModel::Renew(names) => (system, recovery_step(system, state, names, true)),
            GoalModel::Authenticate(names) => (
                system,
                recovery_step(system, state, names, false),
            ),
            GoalModel::ChangePassword { uid, password } => update_started(
                system,
                uid,
                password,
                state,
                now,
            ),
        },
    }
}

/// What an account recovery ends with.
pub open spec fn recovery_result(
    state: StateModel,
    names: Names,
    end: StageOutcome,
) -> AccountResult {
    match end {
        Err(error) => Err(error),
        Ok(accepted) => recovered(state.k0, names.uid, names.ls, accepted),
    }
}

/// After an account recovery: the account is renewed, or its secret is shown to the
/// login server.
pub open spec fn after_recovery(
    system: SystemModel,
    state: StateModel,
    names: Names,
    renew: bool,
    end: StageOutcome,
) -> (SystemModel, StepModel) {
    match recovery_result(state, names, end) {
        Err(error) => (system, StepModel::Done(Err(error))),
        Ok(account) => if renew {
            write_started(system, names, state, Some(account))
        } else {
            (
                system,
                ask_login_server(
                    RequestModel::Ls(
                        LsRequestModel::Authenticate {
                            uid: names.login_uid,
                            verifier: vinfo(account.secret, names.ls),
                        },
                    ),
                    ProgressModel::Confirming,
                ),
            )
        },
    }
}

/// The start of a TSPA registration.
pub open spec fn tspa_registration_step(data: RegistrationModel, login_uid: Seq<u8>) -> StepModel {
    run(
        StageKind::ProviderPrepare,
        register_messages(data),
        Policy::All,
        false,
        ProgressModel::TspaPreparing {
            register: RequestModel::Ls(
                LsRequestModel::Register { uid: login_uid, verifier: data.verifier },
            ),
        },
    )
}

/// The start of a TSPA authentication with a blinding scalar.
pub open spec fn tspa_authentication_step(
    system: SystemModel,
    uid: Seq<u8>,
    password: Seq<u8>,
    ls: Seq<u8>,
    login_uid: Seq<u8>,
    r: Seq<u8>,
) -> StepModel {
    run(
        StageKind::AccountRecovery,
        authenticate_messages(
            system.t,
            storage_address(uid, ls),
            point_mul(tspa_point(password), scalar_value(r)),
        ),
        Policy::All,
        false,
        ProgressModel::TspaRecovering { password, ls, login_uid, r },
    )
}

/// After providers returned TSPA shares: the verifier of the reconstructed secret is
/// shown to the login server.
pub open spec fn after_tspa_recovery(
    password: Seq<u8>,
    ls: Seq<u8>,
    login_uid: Seq<u8>,
    r: Seq<u8>,
    end: StageOutcome,
) -> StepModel {
    match end {
        Err(error) => StepModel::Done(Err(error)),
        Ok(replies) => {
            let sorted = by_provider(replies);
            match first_fault(sorted) {
                Some(fault) => StepModel::Done(Err(fault)),
                None => ask_login_server(
                    RequestModel::Ls(
                        LsRequestModel::Authenticate {
                            uid: login_uid,
                            verifier: tspa_vinfo(
                                scalar_bytes(reconstructed(password, scalar_value(r), sorted)),
                                ls,
                            ),
                        },
                    ),
                    ProgressModel::Confirming,
                ),
            }
        },
    }
}

/// If enough honest providers replied, the reconstructed secret is the one that was
/// shared.
pub open spec fn reconstructs_honestly(password: Seq<u8>, r: Seq<u8>, end: StageOutcome) -> bool {
    end matches Ok(replies) ==> (scalar_value(r) != 0 ==> forall|
        keys: Seq<int>,
        coefficients: Seq<int>,
    | #[trigger]
        honest_replies(by_provider(replies), password, scalar_value(r), keys, coefficients) && 1
            <= coefficients.len() <= by_provider(replies).len() ==> first_fault(
            by_provider(replies),
        ) is None && scalar_bytes(reconstructed(password, scalar_value(r), by_provider(replies)))
            == scalar_bytes(coefficients[0] % order()))
}

/// What follows on the end of a stage.
pub open spec fn advanced(
    system: SystemModel,
    progress: ProgressModel,
    end: StageOutcome,
    refused: bool,
    now: u64,
) -> (SystemModel, StepModel) {
    match progress {
        ProgressModel::Preparing { sid, phase, records, change } => after_preparation(
            system,
            sid,
            phase,
            records,
            change,
            end,
        ),
        ProgressModel::Identifying { password, r, requirement, goal } => after_identification(
            system,
            identification_result(requirement, system.t, password, r, end),
            goal,
            now,
        ),
        ProgressModel::Recovering { state, names, renew } => after_recovery(
            system,
            state,
            names,
            renew,
            end,
        ),
        ProgressModel::Changing { sid, phase, records, probe } => after_change(
            system,
            sid,
            phase,
            records,
            probe,
            end,
            refused,
        ),
        ProgressModel::Confirming => (system, StepModel::Done(acknowledged(end))),
        ProgressModel::Finalizing { requests, store, attempts, verdict } => after_finalization(
            system,
            requests,
            store,
            attempts,
            verdict,
            end,
        ),
        ProgressModel::Resolving { accepted, rejected } => after_resolution(
            system,
            accepted,
            rejected,
            end,
        ),
        ProgressModel::TspaPreparing { register } => (
            system,
            match acknowledged(end) {
                Ok(_) => ask_login_server(register, ProgressModel::Confirming),
                Err(error) => StepModel::Done(Err(error)),
            },
        ),
        ProgressModel::TspaRecovering { password, ls, login_uid, r } => (
            system,
            after_tspa_recovery(password, ls, login_uid, r, end),
        ),
    }
}

/// What the step after a stage encrypts opens to what was drawn for it.
pub open spec fn encrypts_what_is_drawn(
    system: SystemModel,
    progress: ProgressModel,
    end: StageOutcome,
    now: u64,
) -> bool {
    match progress {
        ProgressModel::Identifying { password, r, requirement, goal } => match (
            identification_result(requirement, system.t, password, r, end),
            goal,
        ) {
            (Ok(state), GoalModel::Register(names)) => write_opens(
                names,
                state,
                None,
                account_draw(system.rng),
            ),
            (Ok(state), GoalModel::ChangePassword { uid, password }) => update_opens(
                system,
                uid,
                password,
                state,
                now,
                update_draw(system.rng, system.t as nat),
            ),
            _ => true,
        },
        ProgressModel::Recovering { state, names, renew } => match recovery_result(
            state,
            names,
            end,
        ) {
            Ok(account) => renew ==> write_opens(
                names,
                state,
                Some(account),
                account_draw(system.rng),
            ),
            Err(_) => true,
        },
        _ => true,
    }
}

/// The client goes on from the end of a stage: the state and step that follow, what the
/// step encrypts, and what honest replies give.
pub open spec fn goes_on(
    system: SystemModel,
    progress: ProgressModel,
    end: StageOutcome,
    refused: bool,
    now: u64,
    next: SystemModel,
    step: StepModel,
) -> bool {
    &&& (next, step) == advanced(system, progress, end, refused, now)
    &&& encrypts_what_is_drawn(system, progress, end, now)
    &&& progress matches ProgressModel::Identifying { password, r, requirement, .. }
        ==> identifies_honestly(requirement, system.t, password, r, end)
    &&& progress matches ProgressModel::TspaRecovering { password, r, .. }
        ==> reconstructs_honestly(password, r, end)
}

/// The client goes on from the end of a stage by the calls that were recorded of it.
pub open spec fn advances(
    system: SystemModel,
    progress: ProgressModel,
    end: StageOutcome,
    calls: Seq<CallSample>,
    stage_id: usize,
    now: u64,
    next: SystemModel,
    step: StepModel,
) -> bool {
    goes_on(system, progress, end, login_server_refused(calls, stage_id), now, next, step)
}

/// A stage that waits for agreement never ends with no replies.
pub open spec fn is_end_of(progress: ProgressModel, end: StageOutcome) -> bool {
    match progress {
        ProgressModel::Identifying { requirement, .. } => requirement == Requirement::Threshold
            ==> (end matches Ok(replies) ==> replies.len() >= 1),
        ProgressModel::Recovering { .. } => end matches Ok(replies) ==> replies.len() >= 1,
        _ => true,
    }
}

} // verus!
