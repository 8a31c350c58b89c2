//! What holds of every phase: when the login server is asked, when providers store,
//! what is retained, and that every phase ends.

use vstd::prelude::*;

use crate::accounts::{account_plan, final_messages, AccountDraw, AccountModel, Names};
use crate::client::{honest_contributions, setup_messages, setup_root, SetupDraw, StateModel};
use crate::agreement::{law_agreement_has_threshold_support, provider_ids, Vote};
use crate::crypto::{password_point, share_value};
use crate::flow::{
    advanced, finalization_outcome, identification_step, is_end_of, recovery_step, resolution_step,
    root_records, ATTEMPTS, FinalizationModel, GoalModel, ProgressModel, Requirement,
    ResolutionModel, StepModel, SystemModel,
};
use crate::group::{point_decodes, point_mul};
use crate::interpolation::{lemma_residue, order};
use crate::messages::{
    LsRequestModel, Outcome, Phase, RecordIdModel, ReplyModel, RequestModel, RootModel,
    TspaRequestModel, UpRequestModel,
};
use crate::password::{signed_update, update_messages, UpdateDraw};
use crate::provider::{
    evaluates, prepare_answer, provider_answer, provider_next, setup_pending, ProviderModel,
};
use crate::provider_laws::{
    law_account_write_is_read, law_password_update_replaces_the_root, law_setup_is_served,
    usable_root,
};
use crate::scalar::{lemma_scalar_bytes, scalar_bytes, scalar_value};
use crate::stage::{acknowledged, collected, successes, Arrival, Policy, StageOutcome};
use crate::trace::{is_refusal, login_server_refused, CallSample};
use crate::transport::{node_next, NodeModel, Target};

verus! {

/// A step that starts to store a transaction.
pub open spec fn starts_storing(step: StepModel) -> bool {
    step matches StepModel::Run(_, ProgressModel::Finalizing { store, .. }) && store
}

/// A step that sends a change to the login server.
pub open spec fn changes_login_server(step: StepModel) -> bool {
    step matches StepModel::Run(_, ProgressModel::Changing { .. })
}

/// The login server is asked for a change only after every provider acknowledged its
/// preparation, and then exactly for the change that was planned.
pub proof fn law_change_follows_every_preparation(
    system: SystemModel,
    progress: ProgressModel,
    end: StageOutcome,
    refused: bool,
    now: u64,
)
    ensures
        changes_login_server(advanced(system, progress, end, refused, now).1) ==> (
        progress matches ProgressModel::Preparing { change, .. } && change is Some && acknowledged(
            end,
        ) is Ok && advanced(system, progress, end, refused, now).1->Run_0.requests == seq![
            (Target::LoginServer, RequestModel::Ls(change->0)),
        ]),
{
}

/// Providers store only after every confirmation: a transaction without a change at the
/// login server after all of them prepared it, one with a change after the login server
/// acknowledged it or is known to have made it.
pub proof fn law_store_follows_every_confirmation(
    system: SystemModel,
    progress: ProgressModel,
    end: StageOutcome,
    refused: bool,
    now: u64,
)
    ensures
        starts_storing(advanced(system, progress, end, refused, now).1) ==> match progress {
            ProgressModel::Preparing { change, .. } => change is None && acknowledged(end) is Ok,
            ProgressModel::Changing { .. } => acknowledged(end) is Ok,
            ProgressModel::Resolving { .. } => end matches Ok(replies) && replies.len() == 1
                && replies[0].1 == ReplyModel::Ack(true),
            ProgressModel::Finalizing { store, .. } => store,
            _ => false,
        },
{
}

/// A preparation that not every provider acknowledged is discarded at all of them, and
/// the phase fails with the error of the preparation.
pub proof fn law_failed_preparation_is_discarded(
    system: SystemModel,
    sid: Seq<u8>,
    phase: Phase,
    records: Seq<RecordIdModel>,
    change: Option<LsRequestModel>,
    end: StageOutcome,
    refused: bool,
    now: u64,
)
    requires
        acknowledged(end) is Err,
    ensures
        ({
            let progress = ProgressModel::Preparing { sid, phase, records, change };
            let (next, step) = advanced(system, progress, end, refused, now);
            let requests = final_messages(sid, phase, records, false);
            &&& next.finalization == Some(FinalizationModel { requests, store: false })
            &&& step matches StepModel::Run(stage, ProgressModel::Finalizing { verdict, .. })
                && stage.requests == requests && verdict == acknowledged(end)
        }),
{
}

/// If the login server neither acknowledged the change nor is recorded to have refused it,
/// nothing is finalized: both ways are retained and the login server is asked, after all
/// running calls ended.
pub proof fn law_unknown_change_is_retained(
    system: SystemModel,
    sid: Seq<u8>,
    phase: Phase,
    records: Seq<RecordIdModel>,
    probe: RequestModel,
    end: StageOutcome,
    now: u64,
)
    requires
        acknowledged(end) is Err,
    ensures
        ({
            let progress = ProgressModel::Changing { sid, phase, records, probe };
            let (next, step) = advanced(system, progress, end, false, now);
            let resolution = ResolutionModel {
                probe,
                store: final_messages(sid, phase, records, true),
                discard: final_messages(sid, phase, records, false),
            };
            &&& next.resolution == Some(resolution)
            &&& next.finalization == system.finalization
            &&& !next.idle()
            &&& step == resolution_step(resolution, true)
        }),
{
}

/// A change that failed, and that the login server is recorded to have refused, is
/// discarded at all providers.
pub proof fn law_recorded_refusal_is_discarded(
    system: SystemModel,
    sid: Seq<u8>,
    phase: Phase,
    records: Seq<RecordIdModel>,
    probe: RequestModel,
    end: StageOutcome,
    calls: Seq<CallSample>,
    stage_id: usize,
    now: u64,
)
    requires
        acknowledged(end) is Err,
        login_server_refused(calls, stage_id),
    ensures
        ({
            let progress = ProgressModel::Changing { sid, phase, records, probe };
            let refused = login_server_refused(calls, stage_id);
            let (next, step) = advanced(system, progress, end, refused, now);
            &&& next.finalization == Some(
                FinalizationModel {
                    requests: final_messages(sid, phase, records, false),
                    store: false,
                },
            )
            &&& next.resolution == system.resolution
            &&& step matches StepModel::Run(_, ProgressModel::Finalizing { store, verdict, .. })
                && !store && verdict == acknowledged(end)
        }),
{
}

/// A step that starts to discard a transaction.
pub open spec fn starts_discarding(step: StepModel) -> bool {
    step matches StepModel::Run(_, ProgressModel::Finalizing { store, .. }) && !store
}

/// Providers discard only after an explicit rejection: after a preparation that failed,
/// after a change that failed and that the login server is recorded to have refused, or
/// after the login server answered that it did not make the change. A change that it may
/// have accepted is never discarded.
pub proof fn law_discard_follows_explicit_rejection(
    system: SystemModel,
    progress: ProgressModel,
    end: StageOutcome,
    calls: Seq<CallSample>,
    stage_id: usize,
    now: u64,
)
    ensures
        starts_discarding(
            advanced(system, progress, end, login_server_refused(calls, stage_id), now).1,
        ) ==> match progress {
            ProgressModel::Preparing { .. } => acknowledged(end) is Err,
            ProgressModel::Changing { .. } => acknowledged(end) is Err && exists|i: int|
                0 <= i < calls.len() && is_refusal(#[trigger] calls[i], stage_id),
            ProgressModel::Resolving { .. } => end matches Ok(replies) && replies.len() == 1
                && replies[0].1 == ReplyModel::Ack(false),
            ProgressModel::Finalizing { store, .. } => !store,
            _ => false,
        },
{
}

/// A phase that ends in success after a finalization was confirmed by every provider, and
/// by every acknowledgement if it stored.
pub proof fn law_success_is_confirmed(
    system: SystemModel,
    requests: Seq<(Target, RequestModel)>,
    store: bool,
    attempts: int,
    verdict: Outcome,
    end: StageOutcome,
    refused: bool,
    now: u64,
)
    ensures
        ({
            let progress = ProgressModel::Finalizing { requests, store, attempts, verdict };
            advanced(system, progress, end, refused, now).1 == StepModel::Done(Ok(())) ==> verdict
                is Ok && end is Ok && (store ==> acknowledged(end) is Ok)
        }),
{
}

/// What runs and what is retained belong together.
pub open spec fn consistent(system: SystemModel, progress: ProgressModel) -> bool {
    match progress {
        ProgressModel::Finalizing { requests, store, attempts, .. } => system.finalization == Some(
            FinalizationModel { requests, store },
        ) && 1 <= attempts <= ATTEMPTS,
        ProgressModel::Resolving { accepted, rejected } => system.resolution is Some
            && system.resolution->0.store == accepted && system.resolution->0.discard == rejected,
        _ => true,
    }
}

/// What runs and what is retained belong together after every step, and a phase that
/// fails in its finalization or its resolution leaves that retained, so that no other
/// phase starts before it was resumed.
pub proof fn law_unfinished_work_is_retained(
    system: SystemModel,
    progress: ProgressModel,
    end: StageOutcome,
    refused: bool,
    now: u64,
)
    requires
        consistent(system, progress),
    ensures
        ({
            let (next, step) = advanced(system, progress, end, refused, now);
            &&& step matches StepModel::Run(_, further) ==> consistent(next, further)
            &&& step is Done ==> match progress {
                ProgressModel::Finalizing { requests, store, .. } => if finalization_outcome(
                    store,
                    end,
                ) is Ok {
                    next.finalization is None
                } else {
                    next == system && !next.idle() && next.finalization == Some(
                        FinalizationModel { requests, store },
                    )
                },
                ProgressModel::Resolving { .. } => next == system && !next.idle(),
                _ => next.finalization == system.finalization && next.resolution
                    == system.resolution,
            }
        }),
{
}

/// A finalization is tried again until it was tried as often as it may be; every attempt
/// sends the same requests.
pub proof fn law_finalization_is_tried_again(
    system: SystemModel,
    requests: Seq<(Target, RequestModel)>,
    store: bool,
    attempts: int,
    verdict: Outcome,
    end: StageOutcome,
    refused: bool,
    now: u64,
)
    requires
        attempts > 1,
        finalization_outcome(store, end) is Err,
    ensures
        ({
            let progress = ProgressModel::Finalizing { requests, store, attempts, verdict };
            let (next, step) = advanced(system, progress, end, refused, now);
            &&& next == system
            &&& step matches StepModel::Run(stage, further) && stage.requests == requests
                && further == (ProgressModel::Finalizing {
                requests,
                store,
                attempts: attempts - 1,
                verdict,
            })
        }),
{
}

/// How many stages a phase can still run.
pub open spec fn stages_left(progress: ProgressModel) -> int {
    match progress {
        ProgressModel::Identifying { .. } => ATTEMPTS + 5,
        ProgressModel::Recovering { .. } => ATTEMPTS + 4,
        ProgressModel::Preparing { .. } => ATTEMPTS + 3,
        ProgressModel::Changing { .. } => ATTEMPTS + 2,
        ProgressModel::Resolving { .. } => ATTEMPTS + 1,
        ProgressModel::Finalizing { attempts, .. } => attempts,
        ProgressModel::TspaRecovering { .. } => 2,
        ProgressModel::TspaPreparing { .. } => 2,
        ProgressModel::Confirming => 1,
    }
}

/// Every phase ends: whatever the stages end with, there are fewer and fewer left.
pub proof fn law_every_phase_ends(
    system: SystemModel,
    progress: ProgressModel,
    end: StageOutcome,
    refused: bool,
    now: u64,
)
    requires
        consistent(system, progress),
    ensures
        advanced(system, progress, end, refused, now).1 matches StepModel::Run(_, further)
            ==> 1 <= stages_left(further) < stages_left(progress),
{
}

/// A request that only reads.
pub open spec fn only_reads(request: RequestModel) -> bool {
    match request {
        RequestModel::Up(UpRequestModel::Identify { .. }) => true,
        RequestModel::Up(UpRequestModel::ReadAccount { .. }) => true,
        RequestModel::Tspa(TspaRequestModel::Authenticate { .. }) => true,
        RequestModel::Ls(LsRequestModel::Authenticate { .. }) => true,
        RequestModel::Ping => true,
        _ => false,
    }
}

/// A request that only reads changes no node.
pub proof fn law_reading_changes_no_node(node: NodeModel, request: RequestModel, now: u64)
    requires
        only_reads(request),
    ensures
        node_next(node, request, now) == node,
{
}

/// The progress of an authentication, or of an identification that is reported.
pub open spec fn is_reading(progress: ProgressModel) -> bool {
    match progress {
        ProgressModel::Identifying { goal, .. } => goal is Report || goal is Authenticate,
        ProgressModel::Recovering { renew, .. } => !renew,
        ProgressModel::TspaRecovering { .. } => true,
        ProgressModel::Confirming => true,
        _ => false,
    }
}

/// An authentication never prepares, changes or finalizes anything: each of its stages
/// sends requests that only read, and the client is as before.
pub proof fn law_authentication_only_reads(
    system: SystemModel,
    progress: ProgressModel,
    end: StageOutcome,
    refused: bool,
    now: u64,
)
    requires
        is_reading(progress),
    ensures
        ({
            let (next, step) = advanced(system, progress, end, refused, now);
            &&& next == system
            &&& step matches StepModel::Run(stage, further) ==> is_reading(further) && forall|
                i: int,
            |
                0 <= i < stage.requests.len() ==> only_reads((#[trigger] stage.requests[i]).1)
        }),
{
}

/// A stage that waits for agreement ends with at least as many replies as the threshold
/// asks for, or with an error.
pub proof fn law_agreement_ends_with_replies(threshold: usize, count: int, arrivals: Seq<Arrival>)
    requires
        threshold >= 1,
        arrivals.len() <= count,
    ensures
        collected(Policy::Agreement(threshold), count, arrivals) matches Some(Ok(replies))
            ==> replies.len() >= threshold,
{
    match collected(Policy::Agreement(threshold), count, arrivals) {
        Some(Ok(replies)) => {
            law_agreement_has_threshold_support(
                successes(arrivals),
                threshold as int,
                count - arrivals.len(),
                replies,
            );
        },
        _ => {},
    }
}

/// Whatever the answers are, the end of a stage fits what the phase remembers of it.
pub proof fn law_stage_end_fits_its_progress(
    system: SystemModel,
    uid: Seq<u8>,
    password: Seq<u8>,
    requirement: Requirement,
    goal: GoalModel,
    r: Seq<u8>,
    state: StateModel,
    names: Names,
    renew: bool,
    arrivals: Seq<Arrival>,
    end: StageOutcome,
)
    requires
        system.wf(),
        arrivals.len() <= system.n,
    ensures
        ({
            let step = identification_step(system, uid, password, requirement, goal, r);
            collected(step->Run_0.policy, system.n, arrivals) == Some(end) ==> is_end_of(
                step->Run_1,
                end,
            )
        }),
        ({
            let step = recovery_step(system, state, names, renew);
            collected(step->Run_0.policy, system.n, arrivals) == Some(end) ==> is_end_of(
                step->Run_1,
                end,
            )
        }),
{
    law_agreement_ends_with_replies(system.t as usize, system.n, arrivals);
}

/// A setup that a provider prepares and then stores is the root that it serves: the
/// finalization names exactly what was prepared.
pub proof fn law_setup_is_stored(
    provider: ProviderModel,
    n: int,
    uid: Seq<u8>,
    password: Seq<u8>,
    draw: SetupDraw,
    i: int,
    now: u64,
    later: u64,
)
    requires
        provider.wf(),
        0 <= i < n,
        !provider.roots.contains_key(uid),
        usable_root(setup_root(uid, password, draw, i + 1)),
        prepare_answer(
            provider,
            setup_pending(draw.sid, setup_root(uid, password, draw, i + 1)),
        ) is Ok,
    ensures
        ({
            let prepare = setup_messages(n, uid, password, draw)[i].1->Up_0;
            let store = final_messages(draw.sid, Phase::Setup, root_records(n, uid), true)[i].1->Up_0;
            let prepared = provider_next(provider, prepare, now);
            let stored = provider_next(prepared, store, later);
            &&& provider_answer(provider, prepare, now) == Ok::<ReplyModel, Seq<char>>(
                ReplyModel::Ack(true),
            )
            &&& provider_answer(prepared, store, later) == Ok::<ReplyModel, Seq<char>>(
                ReplyModel::Ack(true),
            )
            &&& stored.roots.contains_pair(uid, setup_root(uid, password, draw, i + 1))
        }),
{
    law_setup_is_served(
        provider,
        draw.sid,
        setup_root(uid, password, draw, i + 1),
        now,
        later,
    );
}

/// An account write that a provider prepares and then stores is the account that it
/// returns: the finalization names exactly what was prepared.
pub proof fn law_account_write_is_stored(
    provider: ProviderModel,
    n: int,
    names: Names,
    state: StateModel,
    previous: Option<AccountModel>,
    counter: u64,
    draw: AccountDraw,
    i: int,
    now: u64,
    later: u64,
)
    requires
        provider.wf(),
        0 <= i < n,
        provider_answer(
            provider,
            account_plan(n, names, state, previous, counter, draw).requests[i].1->Up_0,
            now,
        ) is Ok,
    ensures
        ({
            let plan = account_plan(n, names, state, previous, counter, draw);
            let prepare = plan.requests[i].1->Up_0;
            let store = final_messages(plan.sid, plan.phase, plan.records, true)[i].1->Up_0;
            let prepared = provider_next(provider, prepare, now);
            let suid = plan.records[i]->Account_0;
            &&& provider_answer(prepared, store, later) == Ok::<ReplyModel, Seq<char>>(
                ReplyModel::Ack(true),
            )
            &&& provider_answer(
                provider_next(prepared, store, later),
                UpRequestModel::ReadAccount { suid },
                later,
            ) == Ok::<ReplyModel, Seq<char>>(ReplyModel::Account(prepare->ciphertext))
        }),
{
    let plan = account_plan(n, names, state, previous, counter, draw);
    let prepare = plan.requests[i].1->Up_0;
    let binding = prepare->PrepareAccount_binding;
    law_account_write_is_read(
        provider,
        binding,
        prepare->ciphertext,
        prepare->expected,
        now,
        later,
    );
}

/// A password update that a provider prepares and then stores replaces ciphertext, share
/// and timestamp of the root: the finalization names exactly what was prepared.
pub proof fn law_password_update_is_stored(
    provider: ProviderModel,
    n: int,
    uid: Seq<u8>,
    password: Seq<u8>,
    state: StateModel,
    timestamp: u64,
    draw: UpdateDraw,
    i: int,
    now: u64,
    later: u64,
)
    requires
        provider.wf(),
        0 <= i < n,
        provider_answer(
            provider,
            update_messages(n, uid, password, state, timestamp, draw)[i].1->Up_0,
            now,
        ) is Ok,
    ensures
        ({
            let update = signed_update(uid, password, state, timestamp, draw, i + 1);
            let prepare = update_messages(n, uid, password, state, timestamp, draw)[i].1->Up_0;
            let store = final_messages(
                draw.sid,
                Phase::PasswordUpdate,
                root_records(n, uid),
                true,
            )[i].1->Up_0;
            let prepared = provider_next(provider, prepare, now);
            &&& provider_answer(prepared, store, later) == Ok::<ReplyModel, Seq<char>>(
                ReplyModel::Ack(true),
            )
            &&& provider_next(prepared, store, later).roots == provider.roots.insert(
                uid,
                (RootModel {
                    cid: update.cid_new,
                    share: update.share_new,
                    timestamp,
                    ..provider.roots[uid]
                }),
            )
        }),
{
    let update = signed_update(uid, password, state, timestamp, draw, i + 1);
    law_password_update_replaces_the_root(provider, update, now, later);
}

/// Providers that hold the shares of one polynomial, and evaluate the password's group
/// element blinded by `r` with them, contribute honestly: an identification from their
/// replies reads the root under the key that the polynomial's constant gives.
pub proof fn law_stored_shares_contribute_honestly(
    used: Seq<Vote>,
    password: Seq<u8>,
    r: int,
    coefficients: Seq<int>,
)
    requires
        0 <= r < order(),
        point_decodes(password_point(password)),
        provider_ids(used).no_duplicates(),
        forall|i: int|
            #![trigger used[i]]
            0 <= i < used.len() ==> (used[i].1 matches ReplyModel::Identification {
                contribution,
                ..
            } && evaluates(
                contribution,
                point_mul(password_point(password), r),
                scalar_value(scalar_bytes(share_value(coefficients, used[i].0 as int))),
            )),
    ensures
        honest_contributions(used, password, r, coefficients),
{
    assert forall|i: int| #![trigger used[i]] 0 <= i < used.len() implies (
    used[i].1 matches ReplyModel::Identification { contribution, .. } && point_decodes(contribution)
        && contribution == point_mul(
        password_point(password),
        (r * share_value(coefficients, used[i].0 as int)) % order(),
    )) by {
        let share = share_value(coefficients, used[i].0 as int);
        lemma_residue(crate::interpolation::evaluate(coefficients, used[i].0 as int));
        lemma_scalar_bytes(share);
        assert(point_mul(password_point(password), r) == point_mul(password_point(password), r));
    }
}

} // verus!
