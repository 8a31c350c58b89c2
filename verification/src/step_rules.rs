//! What the client does when a stage ends: which stage follows on which end, with which
//! requests, and what is retained.

use vstd::prelude::*;

use vstd::bytes::{spec_u64_from_le_bytes, spec_u64_to_le_bytes};

use crate::accounts::{next_counter, AccountModel, Names};
use crate::client::StateModel;
use crate::crypto::{account_address, opened, password_key, vinfo};
use crate::crypto_rules::{
    law_account_draws_one_behind_the_other, law_password_update_draws_one_behind_the_other,
    words_on,
};
use crate::flow::{
    account_draw, advanced, advances, goes_on, identification_result, recovery_result, resumed,
    update_draw, FinalizationModel, GoalModel, ProgressModel, Requirement, ResolutionModel,
    StageKind, StageModel, StepModel, SystemModel,
};
use crate::interpolation::{evaluate, order};
use crate::messages::{
    BindingModel, LsRequestModel, Outcome, Phase, RecordIdModel, ReplyModel, RequestModel,
    UpRequestModel,
};
use crate::password::{next_timestamp, signed_update};
use crate::scalar::scalar_bytes;
use crate::signature::ed25519_signature;
use crate::stage::{acknowledged, deadline_passed, Policy, StageOutcome};
use crate::trace::{login_server_refused, CallSample};
use crate::trace_rules::law_refusal_is_an_answer_of_the_login_server;
use crate::transport::Target;
use crate::wire::labelled_pair;

verus! {

/// One request to each of the providers `1..=n`, in this order.
pub open spec fn asks_each(requests: Seq<(Target, RequestModel)>, n: int) -> bool {
    &&& requests.len() == n
    &&& forall|i: int|
        #![trigger requests[i]]
        0 <= i < n ==> requests[i].0 == Target::Provider((i + 1) as u32)
}

/// One finalization of the session at each provider, each for its own record.
pub open spec fn finalizes(
    requests: Seq<(Target, RequestModel)>,
    sid: Seq<u8>,
    phase: Phase,
    records: Seq<RecordIdModel>,
    store: bool,
) -> bool {
    &&& asks_each(requests, records.len() as int)
    &&& forall|i: int|
        #![trigger requests[i]]
        0 <= i < records.len() ==> requests[i].1 == RequestModel::Up(
            UpRequestModel::Finalize {
                binding: BindingModel { sid, phase, record: records[i] },
                store,
            },
        )
}

/// A stage that sends one request to the login server.
pub open spec fn asks_login_server(stage: StageModel, kind: StageKind, settle: bool) -> bool {
    &&& stage.kind == kind
    &&& stage.requests.len() == 1
    &&& stage.requests[0].0 == Target::LoginServer
    &&& stage.policy == Policy::All
    &&& stage.settle == settle
}

/// The stage ended with positive acknowledgements alone.
pub open spec fn all_agree(end: StageOutcome) -> bool {
    end is Ok && forall|i: int|
        #![trigger end->Ok_0[i]]
        0 <= i < end->Ok_0.len() ==> end->Ok_0[i].1 == ReplyModel::Ack(true)
}

/// Why a stage of acknowledgements failed: its error, or a reply that is none.
pub open spec fn complaint(end: StageOutcome) -> Seq<char> {
    match end {
        Err(error) => error,
        Ok(_) => "operation rejected"@,
    }
}

/// A finalization runs, is retained, and may be tried three times in all.
pub open spec fn starts_finalization(
    system: SystemModel,
    next: SystemModel,
    step: StepModel,
    store: bool,
    verdict: Outcome,
) -> bool {
    &&& step matches StepModel::Run(stage, progress) && {
        &&& stage.kind == StageKind::Finalization
        &&& stage.policy == Policy::All
        &&& !stage.settle
        &&& progress == (ProgressModel::Finalizing {
            requests: stage.requests,
            store,
            attempts: 3,
            verdict,
        })
        &&& next == (SystemModel {
            finalization: Some(FinalizationModel { requests: stage.requests, store }),
            ..system
        })
    }
}

/// After the preparations: if every provider agreed, the planned change goes to the login
/// server, and where none is planned the providers store. If not, they discard, and the
/// phase will fail with what went wrong.
pub proof fn law_after_the_preparations(
    system: SystemModel,
    sid: Seq<u8>,
    phase: Phase,
    records: Seq<RecordIdModel>,
    change: Option<LsRequestModel>,
    end: StageOutcome,
    refused: bool,
    now: u64,
)
    ensures
        ({
            let progress = ProgressModel::Preparing { sid, phase, records, change };
            let (next, step) = advanced(system, progress, end, refused, now);
            &&& all_agree(end) && change is Some ==> next == system && (step matches StepModel::Run(
                stage,
                ProgressModel::Changing { sid: s, phase: p, records: rs, probe },
            ) && {
                &&& asks_login_server(stage, StageKind::LsInteraction, false)
                &&& stage.requests[0].1 == RequestModel::Ls(change->0)
                &&& s == sid && p == phase && rs == records
                &&& match change->0 {
                    LsRequestModel::Register { uid, verifier } => probe == RequestModel::Ls(
                        LsRequestModel::Authenticate { uid, verifier },
                    ),
                    LsRequestModel::ChangeCredential { uid, next: verifier, .. } => probe
                        == RequestModel::Ls(LsRequestModel::Authenticate { uid, verifier }),
                    LsRequestModel::Authenticate { .. } => probe == RequestModel::Ls(change->0),
                }
            })
            &&& all_agree(end) && change is None ==> starts_finalization(
                system,
                next,
                step,
                true,
                Ok(()),
            ) && finalizes(step->Run_0.requests, sid, phase, records, true)
            &&& !all_agree(end) ==> starts_finalization(
                system,
                next,
                step,
                false,
                Err(complaint(end)),
            ) && finalizes(step->Run_0.requests, sid, phase, records, false)
        }),
{
    let progress = ProgressModel::Preparing { sid, phase, records, change };
    let (next, step) = advanced(system, progress, end, refused, now);
    if all_agree(end) {
        assert(acknowledged(end) is Ok);
    } else {
        assert(acknowledged(end) == Err::<(), Seq<char>>(complaint(end)));
    }
}

/// After the change: if the login server agreed, the providers store. If it is on record
/// that it refused, they discard. If neither is known, both ways are retained, nothing is
/// finalized, and the login server is asked for the outcome once every call has ended.
pub proof fn law_after_the_change(
    system: SystemModel,
    sid: Seq<u8>,
    phase: Phase,
    records: Seq<RecordIdModel>,
    probe: RequestModel,
    end: StageOutcome,
    refused: bool,
    now: u64,
)
    ensures
        ({
            let progress = ProgressModel::Changing { sid, phase, records, probe };
            let (next, step) = advanced(system, progress, end, refused, now);
            &&& all_agree(end) ==> starts_finalization(system, next, step, true, Ok(()))
                && finalizes(step->Run_0.requests, sid, phase, records, true)
            &&& !all_agree(end) && refused ==> starts_finalization(
                system,
                next,
                step,
                false,
                Err(complaint(end)),
            ) && finalizes(step->Run_0.requests, sid, phase, records, false)
            &&& !all_agree(end) && !refused ==> {
                &&& step matches StepModel::Run(
                    stage,
                    ProgressModel::Resolving { accepted, rejected },
                ) && {
                    &&& asks_login_server(stage, StageKind::LsRecovery, true)
                    &&& stage.requests[0].1 == probe
                    &&& finalizes(accepted, sid, phase, records, true)
                    &&& finalizes(rejected, sid, phase, records, false)
                    &&& next == (SystemModel {
                        resolution: Some(
                            ResolutionModel { probe, store: accepted, discard: rejected },
                        ),
                        ..system
                    })
                }
            }
        }),
{
    if all_agree(end) {
        assert(acknowledged(end) is Ok);
    } else {
        assert(acknowledged(end) == Err::<(), Seq<char>>(complaint(end)));
    }
}

/// The client goes by the record: it follows the end of a stage with a refusal of the login
/// server exactly if one of the stage's calls to it was answered and failed. So a change
/// that failed without such a call is never discarded.
pub proof fn law_client_goes_by_the_record(
    system: SystemModel,
    progress: ProgressModel,
    end: StageOutcome,
    calls: Seq<CallSample>,
    stage_id: usize,
    now: u64,
    next: SystemModel,
    step: StepModel,
)
    requires
        advances(system, progress, end, calls, stage_id, now, next, step),
    ensures
        ({
            let refused = exists|i: int|
                0 <= i < calls.len() && (#[trigger] calls[i]).stage_id == stage_id
                    && calls[i].target == Target::LoginServer && calls[i].processing_ns is Some
                    && !calls[i].success;
            &&& (next, step) == advanced(system, progress, end, refused, now)
            &&& progress is Changing && !all_agree(end) && !refused ==> step is Run
                && step->Run_1 is Resolving && next.resolution is Some && next.finalization
                == system.finalization
        }),
{
    law_refusal_is_an_answer_of_the_login_server(calls, stage_id);
    if let ProgressModel::Changing { sid, phase, records, probe } = progress {
        law_after_the_change(
            system,
            sid,
            phase,
            records,
            probe,
            end,
            login_server_refused(calls, stage_id),
            now,
        );
    }
}

/// A stage whose deadline passed has failed, whatever it was to bring: an identification, an
/// account, a login and TSPA shares end with that error, preparations are discarded with
/// it, a change is left open, and an attempt to finalize does not count as done.
pub proof fn law_missed_deadline_is_a_failure(
    system: SystemModel,
    progress: ProgressModel,
    now: u64,
)
    ensures
        ({
            let error = "stage deadline exceeded"@;
            let (next, step) = advanced(system, progress, deadline_passed(), false, now);
            match progress {
                ProgressModel::Preparing { .. } => starts_finalization(
                    system,
                    next,
                    step,
                    false,
                    Err(error),
                ),
                ProgressModel::Identifying { goal, .. } => next == system && step == (
                if goal is Report {
                    StepModel::Identified(Err(error))
                } else {
                    StepModel::Done(Err(error))
                }),
                ProgressModel::Recovering { .. } => next == system && step == StepModel::Done(
                    Err(error),
                ),
                ProgressModel::Changing { .. } => next.finalization == system.finalization
                    && next.resolution is Some && step is Run && step->Run_1 is Resolving,
                ProgressModel::Confirming => next == system && step == StepModel::Done(Err(error)),
                ProgressModel::Finalizing { requests, store, attempts, verdict } => {
                    &&& next == system
                    &&& attempts > 1 ==> step is Run && step->Run_0.requests == requests
                    &&& attempts <= 1 ==> step == StepModel::Done(
                        Err("finalization incomplete; retained for resume: "@ + error),
                    )
                },
                ProgressModel::Resolving { .. } => next == system && step == StepModel::Done(
                    Err("LS outcome unknown; provider preparations retained: "@ + error),
                ),
                ProgressModel::TspaPreparing { .. } => next == system && step == StepModel::Done(
                    Err(error),
                ),
                ProgressModel::TspaRecovering { .. } => next == system && step == StepModel::Done(
                    Err(error),
                ),
            }
        }),
{
}

/// After the login server was asked for the outcome: a single yes stores, a single no
/// discards and fails the phase, and either way the question is settled. Anything else
/// leaves everything retained.
pub proof fn law_after_the_question(
    system: SystemModel,
    accepted: Seq<(Target, RequestModel)>,
    rejected: Seq<(Target, RequestModel)>,
    end: StageOutcome,
    refused: bool,
    now: u64,
)
    ensures
        ({
            let progress = ProgressModel::Resolving { accepted, rejected };
            let (next, step) = advanced(system, progress, end, refused, now);
            let settled = SystemModel { resolution: None, ..system };
            match end {
                Err(error) => next == system && step == StepModel::Done(
                    Err("LS outcome unknown; provider preparations retained: "@ + error),
                ),
                Ok(replies) => if replies.len() == 1 && replies[0].1 == ReplyModel::Ack(true) {
                    &&& starts_finalization(settled, next, step, true, Ok(()))
                    &&& step->Run_0.requests == accepted
                } else if replies.len() == 1 && replies[0].1 == ReplyModel::Ack(false) {
                    &&& starts_finalization(
                        settled,
                        next,
                        step,
                        false,
                        Err("LS rejected operation"@),
                    )
                    &&& step->Run_0.requests == rejected
                } else {
                    next == system && step == StepModel::Done(
                        Err("unexpected LS resolution response; preparations retained"@),
                    )
                },
            }
        }),
{
    let progress = ProgressModel::Resolving { accepted, rejected };
    let (next, step) = advanced(system, progress, end, refused, now);
    if let Ok(replies) = end {
        if replies.len() == 1 && replies[0].1 is Ack {
            let flag = replies[0].1->Ack_0;
            assert(replies[0].1 == ReplyModel::Ack(flag));
        }
    }
}

/// After an attempt to finalize: Store is done when every provider agreed, Discard when
/// every provider replied, and the phase ends as it had turned out before. Otherwise the
/// same requests are sent again, and after the last attempt they stay retained.
pub proof fn law_after_an_attempt_to_finalize(
    system: SystemModel,
    requests: Seq<(Target, RequestModel)>,
    store: bool,
    attempts: int,
    verdict: Outcome,
    end: StageOutcome,
    refused: bool,
    now: u64,
)
    ensures
        ({
            let progress = ProgressModel::Finalizing { requests, store, attempts, verdict };
            let (next, step) = advanced(system, progress, end, refused, now);
            let confirmed = if store {
                all_agree(end)
            } else {
                end is Ok
            };
            &&& confirmed ==> next == (SystemModel { finalization: None, ..system }) && step
                == StepModel::Done(verdict)
            &&& !confirmed && attempts > 1 ==> next == system && (step matches StepModel::Run(
                stage,
                further,
            ) && {
                &&& stage == (StageModel {
                    kind: StageKind::Finalization,
                    requests,
                    policy: Policy::All,
                    settle: false,
                })
                &&& further == (ProgressModel::Finalizing {
                    requests,
                    store,
                    attempts: attempts - 1,
                    verdict,
                })
            })
            &&& !confirmed && attempts <= 1 ==> next == system && step == StepModel::Done(
                Err("finalization incomplete; retained for resume: "@ + complaint(end)),
            )
        }),
{
    if all_agree(end) {
        assert(acknowledged(end) is Ok);
    } else {
        assert(acknowledged(end) == Err::<(), Seq<char>>(complaint(end)));
    }
}

/// Resuming goes on with what is retained and draws nothing: an open question first, then
/// an unconfirmed finalization with the same requests. With nothing retained it is refused.
pub proof fn law_resuming_goes_on_with_what_is_retained(system: SystemModel)
    ensures
        ({
            let (next, step) = resumed(system);
            match (system.resolution, system.finalization) {
                (Some(resolution), _) => next == system && (step matches StepModel::Run(
                    stage,
                    progress,
                ) && {
                    &&& asks_login_server(stage, StageKind::LsRecovery, false)
                    &&& stage.requests[0].1 == resolution.probe
                    &&& progress == (ProgressModel::Resolving {
                        accepted: resolution.store,
                        rejected: resolution.discard,
                    })
                }),
                (None, Some(pending)) => {
                    &&& next == system
                    &&& starts_finalization(system, next, step, pending.store, Ok(()))
                    &&& step->Run_0.requests == pending.requests
                },
                (None, None) => next == system && step == StepModel::Done(
                    Err("no finalization pending"@),
                ),
            }
        }),
{
}

/// The login server's answer ends a login: with success exactly if it agreed.
pub proof fn law_after_the_login(
    system: SystemModel,
    end: StageOutcome,
    refused: bool,
    now: u64,
)
    ensures
        ({
            let (next, step) = advanced(system, ProgressModel::Confirming, end, refused, now);
            &&& next == system
            &&& step == StepModel::Done(
                if all_agree(end) {
                    Ok(())
                } else {
                    Err(complaint(end))
                },
            )
        }),
{
    if all_agree(end) {
        assert(acknowledged(end) == Ok::<(), Seq<char>>(()));
    } else {
        assert(acknowledged(end) == Err::<(), Seq<char>>(complaint(end)));
    }
}

/// After TSPA shares were handed out: the verifier is registered exactly if every provider
/// agreed.
pub proof fn law_after_the_shares(
    system: SystemModel,
    register: RequestModel,
    end: StageOutcome,
    refused: bool,
    now: u64,
)
    ensures
        ({
            let progress = ProgressModel::TspaPreparing { register };
            let (next, step) = advanced(system, progress, end, refused, now);
            &&& next == system
            &&& all_agree(end) ==> (step matches StepModel::Run(stage, ProgressModel::Confirming)
                && asks_login_server(stage, StageKind::LsInteraction, false)
                && stage.requests[0].1 == register)
            &&& !all_agree(end) ==> step == StepModel::Done(Err(complaint(end)))
        }),
{
    if all_agree(end) {
        assert(acknowledged(end) == Ok::<(), Seq<char>>(()));
    } else {
        assert(acknowledged(end) == Err::<(), Seq<char>>(complaint(end)));
    }
}

/// An account is written at every provider under its own address: a registration with no
/// ciphertext expected and counter zero, an update with the present ciphertext expected and
/// the next counter. The login server is to get the verifier of the new secret, an update
/// in place of that of the old one.
pub open spec fn writes_account(
    system: SystemModel,
    next: SystemModel,
    step: StepModel,
    names: Names,
    state: StateModel,
    previous: Option<AccountModel>,
) -> bool {
    let draw = account_draw(system.rng);
    let phase = match previous {
        Some(_) => Phase::SecretUpdate,
        None => Phase::Registration,
    };
    &&& next.n == system.n && next.t == system.t
    &&& next.finalization == system.finalization && next.resolution == system.resolution
    &&& next.rng == words_on(system.rng, 18)
    &&& step matches StepModel::Run(
        stage,
        ProgressModel::Preparing { sid, phase: p, records, change },
    ) && {
        &&& stage.kind == StageKind::ProviderPrepare
        &&& stage.policy == Policy::All
        &&& !stage.settle
        &&& sid == draw.sid
        &&& p == phase
        &&& records.len() == system.n
        &&& asks_each(stage.requests, system.n)
        &&& forall|i: int|
            #![trigger records[i]]
            0 <= i < system.n ==> records[i] == RecordIdModel::Account(
                account_address(state.rsp, names.ls, (i + 1) as u32),
            )
        &&& forall|i: int|
            #![trigger stage.requests[i]]
            0 <= i < system.n ==> (stage.requests[i].1 matches RequestModel::Up(
                UpRequestModel::PrepareAccount { binding, ciphertext, expected },
            ) && {
                &&& binding == (BindingModel { sid, phase, record: records[i] })
                &&& ciphertext == stage.requests[0].1->Up_0->PrepareAccount_ciphertext
                &&& match previous {
                    Some(account) => expected == Some(account.ciphertext),
                    None => expected is None,
                }
            })
        &&& match previous {
            Some(account) => change == Some(
                LsRequestModel::ChangeCredential {
                    uid: names.login_uid,
                    previous: vinfo(account.secret, names.ls),
                    next: vinfo(draw.secret, names.ls),
                },
            ),
            None => change == Some(
                LsRequestModel::Register {
                    uid: names.login_uid,
                    verifier: vinfo(draw.secret, names.ls),
                },
            ),
        }
    }
}

/// The account is read at every provider, each under its own address, until as many agree
/// as the threshold asks for.
pub open spec fn reads_account(
    system: SystemModel,
    step: StepModel,
    names: Names,
    state: StateModel,
    renew: bool,
) -> bool {
    step matches StepModel::Run(stage, progress) && {
        &&& stage.kind == StageKind::AccountRecovery
        &&& stage.policy == Policy::Agreement(system.t as usize)
        &&& !stage.settle
        &&& asks_each(stage.requests, system.n)
        &&& forall|i: int|
            #![trigger stage.requests[i]]
            0 <= i < system.n ==> stage.requests[i].1 == RequestModel::Up(
                UpRequestModel::ReadAccount {
                    suid: account_address(state.rsp, names.ls, (i + 1) as u32),
                },
            )
        &&& progress == (ProgressModel::Recovering { state, names, renew })
    }
}

/// After an identification each goal has its own stage: a registration writes an account, a
/// renewal and a login read it first, and a report ends with the state itself.
pub proof fn law_after_the_identification(
    system: SystemModel,
    password: Seq<u8>,
    r: Seq<u8>,
    requirement: Requirement,
    goal: GoalModel,
    state: StateModel,
    end: StageOutcome,
    refused: bool,
    now: u64,
)
    requires
        system.wf(),
        identification_result(requirement, system.t, password, r, end) == Ok::<
            StateModel,
            Seq<char>,
        >(state),
    ensures
        ({
            let progress = ProgressModel::Identifying { password, r, requirement, goal };
            let (next, step) = advanced(system, progress, end, refused, now);
            match goal {
                GoalModel::Report => next == system && step == StepModel::Identified(Ok(state)),
                GoalModel::Register(names) => writes_account(
                    system,
                    next,
                    step,
                    names,
                    state,
                    None,
                ),
                GoalModel::Renew(names) => next == system && reads_account(
                    system,
                    step,
                    names,
                    state,
                    true,
                ),
                GoalModel::Authenticate(names) => next == system && reads_account(
                    system,
                    step,
                    names,
                    state,
                    false,
                ),
                GoalModel::ChangePassword { uid, password: new_password } => {
                    &&& next.n == system.n && next.t == system.t
                    &&& next.finalization == system.finalization
                    &&& next.resolution == system.resolution
                    &&& state.timestamp == u64::MAX ==> next.rng == words_on(
                        system.rng,
                        4 + 16 * system.t,
                    )
                    &&& state.timestamp < u64::MAX ==> next.rng == words_on(
                        system.rng,
                        10 + 16 * system.t,
                    )
                    &&& state.timestamp == u64::MAX ==> step == StepModel::Done(
                        Err("timestamp overflow"@),
                    )
                    &&& state.timestamp < u64::MAX ==> (step matches StepModel::Run(
                        stage,
                        ProgressModel::Preparing { sid, phase, records, change },
                    ) && {
                        &&& stage.kind == StageKind::ProviderPrepare
                        &&& stage.policy == Policy::All
                        &&& !stage.settle
                        &&& phase == Phase::PasswordUpdate
                        &&& change is None
                        &&& records.len() == system.n
                        &&& asks_each(stage.requests, system.n)
                        &&& forall|i: int|
                            #![trigger records[i]]
                            0 <= i < system.n ==> records[i] == RecordIdModel::Root(uid)
                        &&& forall|i: int|
                            #![trigger stage.requests[i]]
                            0 <= i < system.n ==> (stage.requests[i].1 matches RequestModel::Up(
                                UpRequestModel::PasswordUpdate(update),
                            ) && {
                                &&& update.operation == "PwdUpdate"@
                                &&& update.sid == sid
                                &&& update.uid == uid
                                &&& update.provider_id == i + 1
                                &&& update.timestamp_old == state.timestamp
                                &&& update.timestamp_new > state.timestamp
                                &&& update.timestamp_new >= now
                                &&& update.timestamp_new == now || update.timestamp_new
                                    == state.timestamp + 1
                                &&& update.cid_new
                                    == stage.requests[0].1->Up_0->PasswordUpdate_0.cid_new
                            })
                    })
                },
            }
        }),
{
    law_account_draws_one_behind_the_other(system.rng);
    if let GoalModel::ChangePassword { uid, password: new_password } = goal {
        law_password_update_draws_one_behind_the_other(system, uid, new_password, state, now);
    }
}

/// After the account was read: a renewal writes the next one unless the counter is used up,
/// and a login shows the verifier of the secret in it. An account that cannot be read ends
/// the phase.
pub proof fn law_after_the_account_was_read(
    system: SystemModel,
    state: StateModel,
    names: Names,
    renew: bool,
    end: StageOutcome,
    refused: bool,
    now: u64,
)
    requires
        system.wf(),
    ensures
        ({
            let progress = ProgressModel::Recovering { state, names, renew };
            let (next, step) = advanced(system, progress, end, refused, now);
            match recovery_result(state, names, end) {
                Err(error) => next == system && step == StepModel::Done(Err(error)),
                Ok(account) => {
                    &&& renew && account.counter < u64::MAX ==> writes_account(
                        system,
                        next,
                        step,
                        names,
                        state,
                        Some(account),
                    )
                    &&& renew && account.counter == u64::MAX ==> next == system && step
                        == StepModel::Done(Err("counter overflow"@))
                    &&& !renew ==> next == system && (step matches StepModel::Run(
                        stage,
                        ProgressModel::Confirming,
                    ) && asks_login_server(stage, StageKind::LsInteraction, false)
                        && stage.requests[0].1 == RequestModel::Ls(
                        LsRequestModel::Authenticate {
                            uid: names.login_uid,
                            verifier: vinfo(account.secret, names.ls),
                        },
                    ))
                },
            }
        }),
{
    law_account_draws_one_behind_the_other(system.rng);
}

/// What was read of an account: the ciphertext of the first reply, opened under the user's
/// key for this user and login server, holds the secret in its first 32 bytes and the
/// counter in the 8 behind them. A stage that failed, another reply, another length and a
/// ciphertext that does not open give their errors.
pub proof fn law_account_is_read_from_the_first_reply(
    state: StateModel,
    names: Names,
    end: StageOutcome,
)
    requires
        end matches Ok(replies) ==> replies.len() >= 1,
    ensures
        ({
            let result = recovery_result(state, names, end);
            match end {
                Err(error) => result == Err::<AccountModel, Seq<char>>(error),
                Ok(replies) => match replies[0].1 {
                    ReplyModel::Account(ciphertext) => {
                        let plaintext = opened(
                            state.k0,
                            labelled_pair("account"@, names.uid, names.ls),
                            ciphertext,
                        );
                        &&& ciphertext.len() != 80 ==> result == Err::<AccountModel, Seq<char>>(
                            "invalid ciphertext length"@,
                        )
                        &&& ciphertext.len() == 80 && plaintext is None ==> result == Err::<
                            AccountModel,
                            Seq<char>,
                        >("account decryption failed"@)
                        &&& ciphertext.len() == 80 && plaintext is Some ==> result == Ok::<
                            AccountModel,
                            Seq<char>,
                        >(
                            AccountModel {
                                secret: plaintext->0.subrange(0, 32),
                                counter: spec_u64_from_le_bytes(plaintext->0.subrange(32, 40)),
                                ciphertext,
                            },
                        )
                    },
                    _ => result == Err::<AccountModel, Seq<char>>("invalid account response"@),
                },
            }
        }),
{
}

/// The ciphertext that a registration or an update of an account hands to the providers has
/// 80 bytes and opens, under the user's key and for this user and login server alone, to
/// the drawn secret and the counter behind it.
pub proof fn law_written_account_holds_the_drawn_secret(
    system: SystemModel,
    progress: ProgressModel,
    end: StageOutcome,
    refused: bool,
    now: u64,
    next: SystemModel,
    step: StepModel,
    names: Names,
    state: StateModel,
    previous: Option<AccountModel>,
)
    requires
        system.wf(),
        goes_on(system, progress, end, refused, now, next, step),
        match progress {
            ProgressModel::Identifying { password, r, requirement, goal } => goal
                == GoalModel::Register(names) && previous is None && identification_result(
                requirement,
                system.t,
                password,
                r,
                end,
            ) == Ok::<StateModel, Seq<char>>(state),
            ProgressModel::Recovering { state: known, names: wanted, renew } => known == state
                && wanted == names && renew && previous is Some && previous->0.counter < u64::MAX
                && recovery_result(state, names, end) == Ok::<AccountModel, Seq<char>>(
                previous->0,
            ),
            _ => false,
        },
    ensures
        step is Run,
        forall|i: int|
            #![trigger step->Run_0.requests[i]]
            0 <= i < system.n ==> ({
                let ciphertext =
                    step->Run_0.requests[i].1->Up_0->PrepareAccount_ciphertext;
                let counter = match previous {
                    Some(account) => (account.counter + 1) as u64,
                    None => 0,
                };
                &&& ciphertext.len() == 80
                &&& opened(state.k0, labelled_pair("account"@, names.uid, names.ls), ciphertext)
                    == Some(account_draw(system.rng).secret + spec_u64_to_le_bytes(counter))
                &&& account_draw(system.rng).secret.len() == 32
            }),
{
}

/// The ciphertext that a password update hands to the providers has 136 bytes and opens,
/// under the key of the new password and the new polynomial, to the three keys of the
/// user as they were. Provider `i` gets the polynomial's value at `i`, and every request is
/// signed with the user's signing key.
pub proof fn law_password_update_keeps_the_keys(
    system: SystemModel,
    password: Seq<u8>,
    r: Seq<u8>,
    requirement: Requirement,
    uid: Seq<u8>,
    new_password: Seq<u8>,
    state: StateModel,
    end: StageOutcome,
    refused: bool,
    now: u64,
    next: SystemModel,
    step: StepModel,
)
    requires
        system.wf(),
        state.timestamp < u64::MAX,
        goes_on(
            system,
            ProgressModel::Identifying {
                password,
                r,
                requirement,
                goal: GoalModel::ChangePassword { uid, password: new_password },
            },
            end,
            refused,
            now,
            next,
            step,
        ),
        identification_result(requirement, system.t, password, r, end) == Ok::<
            StateModel,
            Seq<char>,
        >(state),
    ensures
        step is Run,
        forall|i: int|
            #![trigger step->Run_0.requests[i]]
            0 <= i < system.n ==> ({
                let update = step->Run_0.requests[i].1->Up_0->PasswordUpdate_0;
                let draw = update_draw(system.rng, system.t as nat);
                &&& update.sid == draw.sid
                &&& update.cid_new.len() == 136
                &&& opened(
                    password_key(new_password, draw.coeffs[0]),
                    Seq::empty(),
                    update.cid_new,
                ) == Some(state.ssk + state.rsp + state.k0)
                &&& update.share_new == scalar_bytes(evaluate(draw.coeffs, i + 1) % order())
                &&& update.signature == ed25519_signature(state.ssk, update.signed_bytes())
            }),
{
    assert forall|i: int| #![trigger step->Run_0.requests[i]] 0 <= i < system.n implies ({
        let update = step->Run_0.requests[i].1->Up_0->PasswordUpdate_0;
        let draw = update_draw(system.rng, system.t as nat);
        &&& update.sid == draw.sid
        &&& update.cid_new.len() == 136
        &&& opened(password_key(new_password, draw.coeffs[0]), Seq::empty(), update.cid_new)
            == Some(state.ssk + state.rsp + state.k0)
        &&& update.share_new == scalar_bytes(evaluate(draw.coeffs, i + 1) % order())
        &&& update.signature == ed25519_signature(state.ssk, update.signed_bytes())
    }) by {
        let draw = update_draw(system.rng, system.t as nat);
        let timestamp = next_timestamp(state.timestamp, now)->0;
        let update = signed_update(uid, new_password, state, timestamp, draw, i + 1);
        assert(step->Run_0.requests[i].1->Up_0->PasswordUpdate_0 == update);
        assert(1 <= i + 1 <= system.n);
    }
}

/// The counter of an account starts at zero and goes up by one with every update; the last
/// one cannot be followed.
pub proof fn law_counters_count_the_updates(previous: Option<AccountModel>)
    ensures
        previous is None ==> next_counter(previous) == Some(0u64),
        previous is Some && previous->0.counter < u64::MAX ==> next_counter(previous) is Some
            && next_counter(previous)->0 == previous->0.counter + 1,
        previous is Some && previous->0.counter == u64::MAX ==> next_counter(previous) is None,
{
}

/// A new timestamp is the present, or the next moment after the current one where the
/// present is not later; after the last one there is none.
pub proof fn law_new_timestamp_is_the_present_or_the_next(current: u64, now: u64)
    ensures
        current == u64::MAX ==> next_timestamp(current, now) is None,
        current < now ==> next_timestamp(current, now) == Some(now),
        now <= current < u64::MAX ==> next_timestamp(current, now) is Some && next_timestamp(
            current,
            now,
        )->0 == current + 1,
{
}

} // verus!
