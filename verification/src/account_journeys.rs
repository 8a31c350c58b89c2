//! Phases on accounts from start to end: registration, secret update and authentication on a
//! network that delivers every call, and what holds when calls are lost.

use vstd::prelude::*;

use crate::accounts::{
    account_opens, account_plan, final_messages, law_written_account_is_recovered, next_counter,
    probe, read_messages, write_phase, written_ciphertext, AccountDraw, AccountModel, Names,
};
use crate::client::{root_opens, StateModel};
use crate::course::{
    can_arrive, in_turn, leads_to, lemma_delivered_acknowledgements, lemma_delivered_agreement,
    lemma_delivered_in_turn, lemma_delivered_to_login_server, Event, Journey, Network, World,
};
use crate::crypto::{account_address, is_blob, share_value, vinfo};
use crate::flow::{
    account_draw, are_coefficients, begin_finalization, begins, goes_on, not_idle, recovery_result,
    recovery_step, resumed, run, write_opens, write_step, GoalModel, ProgressModel, Requirement,
    StepModel, SystemModel,
};
use crate::journeys::{
    all_await_store, all_stored, awaits_store, law_identification_reads_the_root,
    lemma_delivered_finalization, lemma_lost_finalization, partly_stored, records, root_is_held,
    settles_only,
    stored_node, verifiers,
};
use crate::login_server::{holds, login_answer, LoginModel};
use crate::messages::{
    BindingModel, LsRequestModel, Phase, RecordIdModel, ReplyModel, RequestModel, ACCOUNT_LEN,
};
use crate::provider::provider_answer;
use crate::round_trip::law_login_server_takes_the_written_secret;
use crate::scalar::scalar_bytes;
use crate::stage::{acknowledged, all_acknowledged, law_all_means_every_reply, Policy};
use crate::system_laws::{law_account_write_is_stored, starts_discarding, starts_storing};
use crate::trace::call_succeeded;
use crate::transport::{node_answer, node_next, NodeModel, Target};

verus! {

/// The record of an account at a provider.
pub open spec fn account_record(rsp: Seq<u8>, ls: Seq<u8>, i: int) -> RecordIdModel {
    RecordIdModel::Account(account_address(rsp, ls, (i + 1) as u32))
}

/// Every provider holds one account ciphertext at its own address.
pub open spec fn account_is_held(
    network: Network,
    n: int,
    rsp: Seq<u8>,
    ls: Seq<u8>,
    ciphertext: Seq<u8>,
) -> bool {
    forall|i: int|
        #![trigger network.providers[i]]
        0 <= i < n ==> records(network, i).accounts.contains_pair(
            account_address(rsp, ls, (i + 1) as u32),
            ciphertext,
        )
}

/// A recovery on providers that hold one account reads it, and changes no node: the phase
/// goes on with that account.
pub proof fn law_recovery_reads_the_account(
    network: Network,
    names: Names,
    state: StateModel,
    renew: bool,
    account: AccountModel,
    reading: Journey,
    k: int,
)
    requires
        reading.world(network, k).system.wf(),
        reading.world(network, k).network.ready(reading.world(network, k).system.n),
        account_is_held(
            reading.world(network, k).network,
            reading.world(network, k).system.n,
            state.rsp,
            names.ls,
            account.ciphertext,
        ),
        account_opens(
            account.ciphertext,
            state.k0,
            names.uid,
            names.ls,
            account.secret,
            account.counter,
        ),
        reading.step_at(k) == recovery_step(
            reading.world(network, k).system,
            state,
            names,
            renew,
        ),
        reading.passes(network, k),
    ensures
        reading.worlds[k].network == reading.world(network, k).network,
        recovery_result(state, names, reading.events[k].end) == Ok::<AccountModel, Seq<char>>(
            account,
        ),
        goes_on(
            reading.world(network, k).system,
            ProgressModel::Recovering { state, names, renew },
            reading.events[k].end,
            reading.events[k].refused,
            reading.events[k].now,
            reading.worlds[k].system,
            reading.steps[k],
        ),
{
    let world = reading.world(network, k);
    let (n, t) = (world.system.n, world.system.t);
    let (event, next) = (reading.events[k], reading.worlds[k]);
    let (step, further) = (reading.step_at(k), reading.steps[k]);
    let requests = read_messages(n, state.rsp, names.ls);
    assert(in_turn(requests));
    assert forall|i: int| #![trigger requests[i]] 0 <= i < n implies {
        let node = world.network.node(requests[i].0);
        let answer = node_answer(node, requests[i].1, event.clock);
        answer == Ok::<ReplyModel, Seq<char>>(ReplyModel::Account(account.ciphertext))
    } by {
        assert(world.network.node(requests[i].0) == world.network.providers[i]);
    }
    lemma_delivered_agreement(world, step, event, next, further, n, t, account.ciphertext);
    let replies = event.end->Ok_0;
    let i = replies[0].0 - 1;
    assert(world.network.node(requests[i].0) == world.network.providers[i]);
    law_written_account_is_recovered(
        account.ciphertext,
        state.k0,
        names.uid,
        names.ls,
        account.secret,
        account.counter,
    );
    lemma_delivered_in_turn(world, step, event, next, further, n);
    assert(next.network.providers =~= world.network.providers) by {
        assert forall|j: int| 0 <= j < n implies next.network.providers[j]
            == world.network.providers[j] by {
            assert(requests[j].1 is Up);
            assert(world.network.providers[j] is Provider);
        }
    }
}

/// An authentication on providers that hold one root and one account, at a login server
/// that holds the verifier of the account's secret, succeeds and changes no node. The
/// blinding is not zero.
pub proof fn law_stored_account_authenticates(
    start: World,
    names: Names,
    password: Seq<u8>,
    cid: Seq<u8>,
    coefficients: Seq<int>,
    state: StateModel,
    account: AccountModel,
    login: Journey,
)
    requires
        start.system.wf(),
        start.system.idle(),
        start.network.ready(start.system.n),
        root_is_held(
            start.network,
            start.system.n,
            names.uid,
            cid,
            state.timestamp,
            coefficients,
        ),
        are_coefficients(coefficients, start.system.t),
        root_opens(cid, password, coefficients[0], state),
        account_is_held(
            start.network,
            start.system.n,
            state.rsp,
            names.ls,
            account.ciphertext,
        ),
        account_opens(
            account.ciphertext,
            state.k0,
            names.uid,
            names.ls,
            account.secret,
            account.counter,
        ),
        holds(verifiers(start.network), names.login_uid, vinfo(account.secret, names.ls)),
        start.system.rng.scalar() != 0,
        begins(
            start.system,
            names.uid,
            password,
            Requirement::Threshold,
            GoalModel::Authenticate(names),
            login.system,
            login.step,
        ),
        login.is_delivered(start.network, 3),
    ensures
        login.outcome() == StepModel::Done(Ok(())),
        login.client().idle(),
        login.network() == start.network,
{
    assert(login.passes(start.network, 0) && login.passes(start.network, 1) && login.passes(
        start.network,
        2,
    ));
    law_identification_reads_the_root(
        start,
        names.uid,
        password,
        Requirement::Threshold,
        GoalModel::Authenticate(names),
        cid,
        coefficients,
        state,
        login,
    );
    law_recovery_reads_the_account(start.network, names, state, false, account, login, 1);
    let request = RequestModel::Ls(
        LsRequestModel::Authenticate {
            uid: names.login_uid,
            verifier: vinfo(account.secret, names.ls),
        },
    );
    lemma_delivered_to_login_server(
        login.worlds[1],
        login.steps[1],
        login.events[2],
        login.worlds[2],
        login.steps[2],
        request,
    );
    assert(login.network().providers == start.network.providers);
    assert(login.network().login == start.network.login);
}

/// Every provider can take an account write: the record is not pending and the session is
/// fresh, and the account is the one that is replaced, or there is none.
pub open spec fn account_is_writable(
    network: Network,
    n: int,
    rsp: Seq<u8>,
    ls: Seq<u8>,
    previous: Option<AccountModel>,
    sid: Seq<u8>,
) -> bool {
    forall|i: int|
        #![trigger network.providers[i]]
        0 <= i < n ==> {
            let provider = records(network, i);
            let record = account_record(rsp, ls, i);
            let address = account_address(rsp, ls, (i + 1) as u32);
            &&& !provider.pending.contains_key(record)
            &&& !provider.completed.contains_key(
                BindingModel { sid, phase: write_phase(previous), record },
            )
            &&& match previous {
                Some(account) => provider.accounts.contains_pair(address, account.ciphertext),
                None => !provider.accounts.contains_key(address),
            }
        }
}

/// Each provider has taken in an account ciphertext at its own address, and nothing else
/// changed but the session.
pub open spec fn account_is_in_place(
    before: Network,
    after: Network,
    n: int,
    rsp: Seq<u8>,
    ls: Seq<u8>,
    ciphertext: Seq<u8>,
) -> bool {
    &&& after.ready(n)
    &&& forall|i: int|
        #![trigger after.providers[i]]
        0 <= i < n ==> {
            &&& records(after, i).accounts == records(before, i).accounts.insert(
                account_address(rsp, ls, (i + 1) as u32),
                ciphertext,
            )
            &&& records(after, i).roots == records(before, i).roots
            &&& after.providers[i]->tspa == before.providers[i]->tspa
            &&& !records(after, i).pending.contains_key(account_record(rsp, ls, i))
            &&& settles_only(
                records(before, i),
                records(after, i),
                if records(before, i).accounts.contains_key(
                    account_address(rsp, ls, (i + 1) as u32),
                ) {
                    Phase::SecretUpdate
                } else {
                    Phase::Registration
                },
                account_record(rsp, ls, i),
            )
        }
}

/// The login server takes the change of an account write: the user's name is free for a
/// first account, and has the verifier of the secret that is replaced otherwise.
pub open spec fn change_is_acceptable(
    server: LoginModel,
    names: Names,
    previous: Option<AccountModel>,
) -> bool {
    match previous {
        Some(account) => holds(server, names.login_uid, vinfo(account.secret, names.ls)),
        None => !server.contains_key(names.login_uid),
    }
}

/// A provider behind the preparation and the storing of an account write.
spec fn account_arrived(
    before: NodeModel,
    prepared: NodeModel,
    after: NodeModel,
    rsp: Seq<u8>,
    ls: Seq<u8>,
    ciphertext: Seq<u8>,
    i: int,
) -> bool {
    &&& before is Provider && prepared is Provider && after is Provider
    &&& after->upspa.wf()
    &&& after->upspa.provider_id == before->upspa.provider_id
    &&& after->tspa == before->tspa
    &&& after->upspa.accounts == before->upspa.accounts.insert(
        account_address(rsp, ls, (i + 1) as u32),
        ciphertext,
    )
    &&& after->upspa.roots == before->upspa.roots
    &&& !after->upspa.pending.contains_key(account_record(rsp, ls, i))
    &&& settles_only(
        before->upspa,
        after->upspa,
        if before->upspa.accounts.contains_key(account_address(rsp, ls, (i + 1) as u32)) {
            Phase::SecretUpdate
        } else {
            Phase::Registration
        },
        account_record(rsp, ls, i),
    )
}

proof fn lemma_account_arrives(
    node: NodeModel,
    n: int,
    names: Names,
    state: StateModel,
    previous: Option<AccountModel>,
    counter: u64,
    draw: AccountDraw,
    i: int,
    clock: u64,
    later: u64,
)
    requires
        node is Provider,
        node->upspa.wf(),
        0 <= i < n,
        is_blob(
            written_ciphertext(names.uid, names.ls, state.k0, counter, draw),
            ACCOUNT_LEN as int,
        ),
        !node->upspa.pending.contains_key(account_record(state.rsp, names.ls, i)),
        !node->upspa.completed.contains_key(
            BindingModel {
                sid: draw.sid,
                phase: write_phase(previous),
                record: account_record(state.rsp, names.ls, i),
            },
        ),
        match previous {
            Some(account) => node->upspa.accounts.contains_pair(
                account_address(state.rsp, names.ls, (i + 1) as u32),
                account.ciphertext,
            ),
            None => !node->upspa.accounts.contains_key(
                account_address(state.rsp, names.ls, (i + 1) as u32),
            ),
        },
    ensures
        ({
            let plan = account_plan(n, names, state, previous, counter, draw);
            let finals = final_messages(plan.sid, plan.phase, plan.records, true);
            let prepared = node_next(node, plan.requests[i].1, clock);
            let ciphertext = written_ciphertext(names.uid, names.ls, state.k0, counter, draw);
            &&& node_answer(node, plan.requests[i].1, clock) == Ok::<ReplyModel, Seq<char>>(
                ReplyModel::Ack(true),
            )
            &&& node_answer(prepared, finals[i].1, later) == Ok::<ReplyModel, Seq<char>>(
                ReplyModel::Ack(true),
            )
            &&& prepared->upspa.is_pending(finals[i].1->Up_0->Finalize_binding)
            &&& !prepared->upspa.completed.contains_key(finals[i].1->Up_0->Finalize_binding)
            &&& prepared is Provider && prepared->upspa.wf()
            &&& account_arrived(
                node,
                prepared,
                node_next(prepared, finals[i].1, later),
                state.rsp,
                names.ls,
                ciphertext,
                i,
            )
        }),
{
    let plan = account_plan(n, names, state, previous, counter, draw);
    let provider = node->upspa;
    let prepare = plan.requests[i].1->Up_0;
    assert(plan.records[i] == account_record(state.rsp, names.ls, i));
    assert(provider_answer(provider, prepare, clock) is Ok);
    law_account_write_is_stored(
        provider,
        n,
        names,
        state,
        previous,
        counter,
        draw,
        i,
        clock,
        later,
    );
    let finals = final_messages(plan.sid, plan.phase, plan.records, true);
    let prepared = node_next(node, plan.requests[i].1, clock);
    let stored = node_next(prepared, finals[i].1, later);
    assert(stored->upspa.pending =~= provider.pending);
}

/// The requests that store an account write.
pub open spec fn write_finals(
    n: int,
    names: Names,
    state: StateModel,
    previous: Option<AccountModel>,
    counter: u64,
    draw: AccountDraw,
) -> Seq<(Target, RequestModel)> {
    let plan = account_plan(n, names, state, previous, counter, draw);
    final_messages(plan.sid, plan.phase, plan.records, true)
}

/// A world in which an account write can run: all nodes can take it, and its ciphertext
/// opens to the drawn secret and the counter.
pub open spec fn write_can_run(
    world: World,
    names: Names,
    state: StateModel,
    previous: Option<AccountModel>,
    counter: u64,
    draw: AccountDraw,
) -> bool {
    &&& world.system.wf()
    &&& world.system.idle()
    &&& world.network.ready(world.system.n)
    &&& next_counter(previous) == Some(counter)
    &&& account_opens(
        written_ciphertext(names.uid, names.ls, state.k0, counter, draw),
        state.k0,
        names.uid,
        names.ls,
        draw.secret,
        counter,
    )
    &&& account_is_writable(
        world.network,
        world.system.n,
        state.rsp,
        names.ls,
        previous,
        draw.sid,
    )
    &&& change_is_acceptable(verifiers(world.network), names, previous)
}

/// An account write that every provider and the login server can take comes to its Store:
/// every provider awaits it, and the login server holds the verifier of the written secret.
#[verifier::rlimit(30)]
pub proof fn lemma_write_comes_to_store(
    network: Network,
    names: Names,
    state: StateModel,
    previous: Option<AccountModel>,
    counter: u64,
    draw: AccountDraw,
    write: Journey,
    k: int,
)
    requires
        write_can_run(write.world(network, k), names, state, previous, counter, draw),
        write.step_at(k) == write_step(
            write.world(network, k).system,
            names,
            state,
            previous,
            draw,
        ),
        0 <= k,
        write.passes(network, k),
        write.passes(network, k + 1),
    ensures
        ({
            let start = write.world(network, k);
            let n = start.system.n;
            let finals = write_finals(n, names, state, previous, counter, draw);
            let ciphertext = written_ciphertext(names.uid, names.ls, state.k0, counter, draw);
            let waiting = write.worlds[k + 1];
            &&& (waiting.system, write.steps[k + 1]) == begin_finalization(
                start.system,
                finals,
                true,
                Ok(()),
            )
            &&& all_await_store(waiting.network, n, finals)
            &&& waiting.network.login is LoginServer
            &&& holds(
                verifiers(waiting.network),
                names.login_uid,
                vinfo(draw.secret, names.ls),
            )
            &&& forall|after: Network|
                #![trigger all_stored(waiting.network, after, n, finals)]
                all_stored(waiting.network, after, n, finals) ==> account_is_in_place(
                    start.network,
                    after,
                    n,
                    state.rsp,
                    names.ls,
                    ciphertext,
                )
        }),
{
    let start = write.world(network, k);
    let n = start.system.n;
    let plan = account_plan(n, names, state, previous, counter, draw);
    let (prepare, change) = (write.events[k], write.events[k + 1]);
    let (prepared, changed) = (write.worlds[k], write.worlds[k + 1]);
    let (first, second, third) = (write.step_at(k), write.steps[k], write.steps[k + 1]);
    let requests = plan.requests;
    let finals = write_finals(n, names, state, previous, counter, draw);
    let ciphertext = written_ciphertext(names.uid, names.ls, state.k0, counter, draw);
    assert(in_turn(requests));
    assert(in_turn(finals));
    lemma_delivered_in_turn(start, first, prepare, prepared, second, n);
    assert forall|i: int| #![trigger requests[i]] 0 <= i < n implies node_answer(
        start.network.node(requests[i].0),
        requests[i].1,
        prepare.clock,
    ) == Ok::<ReplyModel, Seq<char>>(ReplyModel::Ack(true)) by {
        assert(start.network.node(requests[i].0) == start.network.providers[i]);
        lemma_account_arrives(
            start.network.providers[i],
            n,
            names,
            state,
            previous,
            counter,
            draw,
            i,
            prepare.clock,
            0,
        );
    }
    lemma_delivered_acknowledgements(start, first, prepare, prepared, second);
    law_login_server_takes_the_written_secret(
        verifiers(start.network),
        n,
        names,
        state,
        previous,
        counter,
        draw,
    );
    lemma_delivered_to_login_server(
        prepared,
        second,
        change,
        changed,
        third,
        RequestModel::Ls(plan.ls_request),
    );
    let ack = seq![(0u32, ReplyModel::Ack(true))];
    assert(all_acknowledged(ack));
    assert(acknowledged(change.end) is Ok);
    assert forall|i: int| #![trigger changed.network.providers[i]] 0 <= i < n implies awaits_store(
        changed.network.providers[i],
        finals[i].1,
    ) && account_arrived(
        start.network.providers[i],
        changed.network.providers[i],
        stored_node(changed.network.providers[i], finals[i].1),
        state.rsp,
        names.ls,
        ciphertext,
        i,
    ) by {
        assert(prepared.network.providers[i] == node_next(
            start.network.providers[i],
            requests[i].1,
            prepare.clock,
        ));
        lemma_account_arrives(
            start.network.providers[i],
            n,
            names,
            state,
            previous,
            counter,
            draw,
            i,
            prepare.clock,
            0,
        );
    }
    assert forall|after: Network|
        #![trigger all_stored(changed.network, after, n, finals)]
        all_stored(changed.network, after, n, finals) implies account_is_in_place(
        start.network,
        after,
        n,
        state.rsp,
        names.ls,
        ciphertext,
    ) by {
        assert forall|i: int| #![trigger after.providers[i]] 0 <= i < n implies account_arrived(
            start.network.providers[i],
            changed.network.providers[i],
            after.providers[i],
            state.rsp,
            names.ls,
            ciphertext,
            i,
        ) by {
            assert(awaits_store(changed.network.providers[i], finals[i].1));
        }
    }
}

/// An account write that every provider and the login server can take succeeds: every
/// provider holds the ciphertext at its address, the login server holds the verifier of the
/// secret in it, and nothing is left unfinished.
pub proof fn law_account_write_succeeds(
    network: Network,
    names: Names,
    state: StateModel,
    previous: Option<AccountModel>,
    counter: u64,
    draw: AccountDraw,
    write: Journey,
    k: int,
)
    requires
        write_can_run(write.world(network, k), names, state, previous, counter, draw),
        write.step_at(k) == write_step(
            write.world(network, k).system,
            names,
            state,
            previous,
            draw,
        ),
        0 <= k,
        write.passes(network, k),
        write.passes(network, k + 1),
        write.passes(network, k + 2),
    ensures
        write.steps[k + 2] == StepModel::Done(Ok(())),
        write.worlds[k + 2].system == write.world(network, k).system,
        account_is_in_place(
            write.world(network, k).network,
            write.worlds[k + 2].network,
            write.world(network, k).system.n,
            state.rsp,
            names.ls,
            written_ciphertext(names.uid, names.ls, state.k0, counter, draw),
        ),
        holds(
            verifiers(write.worlds[k + 2].network),
            names.login_uid,
            vinfo(draw.secret, names.ls),
        ),
{
    let n = write.world(network, k).system.n;
    let finals = write_finals(n, names, state, previous, counter, draw);
    lemma_write_comes_to_store(network, names, state, previous, counter, draw, write, k);
    let waiting = write.worlds[k + 1];
    assert(partly_stored(waiting.network, waiting.network, n, finals));
    lemma_delivered_finalization(
        waiting.network,
        n,
        finals,
        waiting,
        write.steps[k + 1],
        write.events[k + 2],
        write.worlds[k + 2],
        write.steps[k + 2],
    );
}

/// What an account write leaves in place holds the root as before, and the account.
proof fn lemma_write_keeps_the_root(
    before: Network,
    after: Network,
    n: int,
    uid: Seq<u8>,
    cid: Seq<u8>,
    timestamp: u64,
    coefficients: Seq<int>,
    rsp: Seq<u8>,
    ls: Seq<u8>,
    ciphertext: Seq<u8>,
)
    requires
        before.ready(n),
        root_is_held(before, n, uid, cid, timestamp, coefficients),
        account_is_in_place(before, after, n, rsp, ls, ciphertext),
    ensures
        root_is_held(after, n, uid, cid, timestamp, coefficients),
        account_is_held(after, n, rsp, ls, ciphertext),
{
    assert forall|i: int| #![trigger after.providers[i]] 0 <= i < n implies {
        let root = records(after, i).roots[uid];
        &&& records(after, i).roots.contains_key(uid)
        &&& root.cid == cid && root.timestamp == timestamp
        &&& root.share == scalar_bytes(share_value(coefficients, i + 1))
    } by {
        assert(before.providers[i] is Provider);
    }
}

/// A registration succeeds: every provider holds one ciphertext at its own address, which
/// opens to the drawn secret with counter zero, and the login server holds the secret's
/// verifier. The session is fresh, and the blinding is not zero.
pub proof fn law_registration_succeeds(
    start: World,
    names: Names,
    password: Seq<u8>,
    cid: Seq<u8>,
    coefficients: Seq<int>,
    state: StateModel,
    registration: Journey,
)
    requires
        start.system.wf(),
        start.system.idle(),
        start.network.ready(start.system.n),
        root_is_held(
            start.network,
            start.system.n,
            names.uid,
            cid,
            state.timestamp,
            coefficients,
        ),
        are_coefficients(coefficients, start.system.t),
        root_opens(cid, password, coefficients[0], state),
        start.system.rng.scalar() != 0,
        account_is_writable(
            start.network,
            start.system.n,
            state.rsp,
            names.ls,
            None,
            account_draw(registration.system.rng).sid,
        ),
        change_is_acceptable(verifiers(start.network), names, None),
        begins(
            start.system,
            names.uid,
            password,
            Requirement::AllProviders,
            GoalModel::Register(names),
            registration.system,
            registration.step,
        ),
        registration.is_delivered(start.network, 4),
    ensures
        registration.outcome() == StepModel::Done(Ok(())),
        registration.client().wf(),
        registration.client().idle(),
        registration.client().n == start.system.n,
        registration.client().t == start.system.t,
        ({
            let draw = account_draw(registration.system.rng);
            let ciphertext = written_ciphertext(names.uid, names.ls, state.k0, 0, draw);
            &&& account_is_in_place(
                start.network,
                registration.network(),
                start.system.n,
                state.rsp,
                names.ls,
                ciphertext,
            )
            &&& account_opens(ciphertext, state.k0, names.uid, names.ls, draw.secret, 0)
            &&& holds(
                verifiers(registration.network()),
                names.login_uid,
                vinfo(draw.secret, names.ls),
            )
            &&& root_is_held(
                registration.network(),
                start.system.n,
                names.uid,
                cid,
                state.timestamp,
                coefficients,
            )
            &&& account_is_held(
                registration.network(),
                start.system.n,
                state.rsp,
                names.ls,
                ciphertext,
            )
        }),
{
    let n = start.system.n;
    let draw = account_draw(registration.system.rng);
    let counter = 0u64;
    let ciphertext = written_ciphertext(names.uid, names.ls, state.k0, counter, draw);
    assert(forall|k: int| 0 <= k < 4 ==> #[trigger] registration.passes(start.network, k));
    assert(registration.passes(start.network, 0));
    law_identification_reads_the_root(
        start,
        names.uid,
        password,
        Requirement::AllProviders,
        GoalModel::Register(names),
        cid,
        coefficients,
        state,
        registration,
    );
    assert(write_opens(names, state, None, draw));
    law_account_write_succeeds(
        start.network,
        names,
        state,
        None,
        counter,
        draw,
        registration,
        1,
    );
    lemma_write_keeps_the_root(
        start.network,
        registration.network(),
        n,
        names.uid,
        cid,
        state.timestamp,
        coefficients,
        state.rsp,
        names.ls,
        ciphertext,
    );
}

/// A registration, then an authentication with the same password, succeeds: every provider
/// holds one ciphertext at its own address, which opens to the drawn secret with counter
/// zero, and the login server holds the secret's verifier. The session is fresh, and no
/// blinding is zero.
pub proof fn law_registration_then_authentication(
    start: World,
    names: Names,
    password: Seq<u8>,
    cid: Seq<u8>,
    coefficients: Seq<int>,
    state: StateModel,
    registration: Journey,
    login: Journey,
)
    requires
        start.system.wf(),
        start.system.idle(),
        start.network.ready(start.system.n),
        root_is_held(
            start.network,
            start.system.n,
            names.uid,
            cid,
            state.timestamp,
            coefficients,
        ),
        are_coefficients(coefficients, start.system.t),
        root_opens(cid, password, coefficients[0], state),
        start.system.rng.scalar() != 0,
        account_is_writable(
            start.network,
            start.system.n,
            state.rsp,
            names.ls,
            None,
            account_draw(registration.system.rng).sid,
        ),
        change_is_acceptable(verifiers(start.network), names, None),
        begins(
            start.system,
            names.uid,
            password,
            Requirement::AllProviders,
            GoalModel::Register(names),
            registration.system,
            registration.step,
        ),
        registration.is_delivered(start.network, 4),
        registration.client().rng.scalar() != 0,
        begins(
            registration.client(),
            names.uid,
            password,
            Requirement::Threshold,
            GoalModel::Authenticate(names),
            login.system,
            login.step,
        ),
        login.is_delivered(registration.network(), 3),
    ensures
        registration.outcome() == StepModel::Done(Ok(())),
        account_is_in_place(
            start.network,
            registration.network(),
            start.system.n,
            state.rsp,
            names.ls,
            written_ciphertext(
                names.uid,
                names.ls,
                state.k0,
                0,
                account_draw(registration.system.rng),
            ),
        ),
        account_opens(
            written_ciphertext(
                names.uid,
                names.ls,
                state.k0,
                0,
                account_draw(registration.system.rng),
            ),
            state.k0,
            names.uid,
            names.ls,
            account_draw(registration.system.rng).secret,
            0,
        ),
        holds(
            verifiers(registration.network()),
            names.login_uid,
            vinfo(account_draw(registration.system.rng).secret, names.ls),
        ),
        login.outcome() == StepModel::Done(Ok(())),
        login.network() == registration.network(),
{
    let draw = account_draw(registration.system.rng);
    let counter = 0u64;
    let ciphertext = written_ciphertext(names.uid, names.ls, state.k0, counter, draw);
    law_registration_succeeds(
        start,
        names,
        password,
        cid,
        coefficients,
        state,
        registration,
    );
    law_stored_account_authenticates(
        registration.worlds.last(),
        names,
        password,
        cid,
        coefficients,
        state,
        AccountModel { secret: draw.secret, counter, ciphertext },
        login,
    );
}

/// The account that a secret update replaces, in a world where it can.
proof fn lemma_update_comes_to_write(
    start: World,
    names: Names,
    password: Seq<u8>,
    cid: Seq<u8>,
    coefficients: Seq<int>,
    state: StateModel,
    account: AccountModel,
    counter: u64,
    update: Journey,
)
    requires
        start.system.wf(),
        start.system.idle(),
        start.network.ready(start.system.n),
        root_is_held(
            start.network,
            start.system.n,
            names.uid,
            cid,
            state.timestamp,
            coefficients,
        ),
        are_coefficients(coefficients, start.system.t),
        root_opens(cid, password, coefficients[0], state),
        start.system.rng.scalar() != 0,
        account_is_writable(
            start.network,
            start.system.n,
            state.rsp,
            names.ls,
            Some(account),
            account_draw(update.system.rng).sid,
        ),
        change_is_acceptable(verifiers(start.network), names, Some(account)),
        account_opens(
            account.ciphertext,
            state.k0,
            names.uid,
            names.ls,
            account.secret,
            account.counter,
        ),
        next_counter(Some(account)) == Some(counter),
        begins(
            start.system,
            names.uid,
            password,
            Requirement::AllProviders,
            GoalModel::Renew(names),
            update.system,
            update.step,
        ),
        update.passes(start.network, 0),
        update.passes(start.network, 1),
    ensures
        write_can_run(
            update.world(start.network, 2),
            names,
            state,
            Some(account),
            counter,
            account_draw(update.system.rng),
        ),
        update.world(start.network, 2).network == start.network,
        update.world(start.network, 2).system.n == start.system.n,
        update.world(start.network, 2).system.t == start.system.t,
        update.step_at(2) == write_step(
            update.world(start.network, 2).system,
            names,
            state,
            Some(account),
            account_draw(update.system.rng),
        ),
{
    let draw = account_draw(update.system.rng);
    law_identification_reads_the_root(
        start,
        names.uid,
        password,
        Requirement::AllProviders,
        GoalModel::Renew(names),
        cid,
        coefficients,
        state,
        update,
    );
    assert(account_is_held(
        start.network,
        start.system.n,
        state.rsp,
        names.ls,
        account.ciphertext,
    )) by {
        assert forall|i: int| #![trigger start.network.providers[i]] 0 <= i
            < start.system.n implies records(start.network, i).accounts.contains_pair(
            account_address(state.rsp, names.ls, (i + 1) as u32),
            account.ciphertext,
        ) by {}
    }
    law_recovery_reads_the_account(start.network, names, state, true, account, update, 1);
    assert(write_opens(names, state, Some(account), draw));
}

/// A secret update succeeds: every provider holds one new ciphertext at its own address,
/// which opens to the drawn secret with the next counter, and the login server holds the
/// new secret's verifier. The session is fresh, and the blinding is not zero.
#[verifier::rlimit(30)]
pub proof fn law_secret_update_succeeds(
    start: World,
    names: Names,
    password: Seq<u8>,
    cid: Seq<u8>,
    coefficients: Seq<int>,
    state: StateModel,
    account: AccountModel,
    counter: u64,
    update: Journey,
)
    requires
        start.system.wf(),
        start.system.idle(),
        start.network.ready(start.system.n),
        root_is_held(
            start.network,
            start.system.n,
            names.uid,
            cid,
            state.timestamp,
            coefficients,
        ),
        are_coefficients(coefficients, start.system.t),
        root_opens(cid, password, coefficients[0], state),
        start.system.rng.scalar() != 0,
        account_is_writable(
            start.network,
            start.system.n,
            state.rsp,
            names.ls,
            Some(account),
            account_draw(update.system.rng).sid,
        ),
        change_is_acceptable(verifiers(start.network), names, Some(account)),
        account_opens(
            account.ciphertext,
            state.k0,
            names.uid,
            names.ls,
            account.secret,
            account.counter,
        ),
        counter == account.counter + 1,
        begins(
            start.system,
            names.uid,
            password,
            Requirement::AllProviders,
            GoalModel::Renew(names),
            update.system,
            update.step,
        ),
        update.is_delivered(start.network, 5),
    ensures
        update.outcome() == StepModel::Done(Ok(())),
        update.client().wf(),
        update.client().idle(),
        update.client().n == start.system.n,
        update.client().t == start.system.t,
        ({
            let draw = account_draw(update.system.rng);
            let ciphertext = written_ciphertext(names.uid, names.ls, state.k0, counter, draw);
            &&& account_is_in_place(
                start.network,
                update.network(),
                start.system.n,
                state.rsp,
                names.ls,
                ciphertext,
            )
            &&& account_opens(ciphertext, state.k0, names.uid, names.ls, draw.secret, counter)
            &&& holds(
                verifiers(update.network()),
                names.login_uid,
                vinfo(draw.secret, names.ls),
            )
            &&& root_is_held(
                update.network(),
                start.system.n,
                names.uid,
                cid,
                state.timestamp,
                coefficients,
            )
            &&& account_is_held(
                update.network(),
                start.system.n,
                state.rsp,
                names.ls,
                ciphertext,
            )
        }),
{
    let n = start.system.n;
    let draw = account_draw(update.system.rng);
    let ciphertext = written_ciphertext(names.uid, names.ls, state.k0, counter, draw);
    assert(forall|k: int| 0 <= k < 5 ==> #[trigger] update.passes(start.network, k));
    assert(update.passes(start.network, 0) && update.passes(start.network, 1));
    lemma_update_comes_to_write(
        start,
        names,
        password,
        cid,
        coefficients,
        state,
        account,
        counter,
        update,
    );
    law_account_write_succeeds(
        start.network,
        names,
        state,
        Some(account),
        counter,
        draw,
        update,
        2,
    );
    lemma_write_keeps_the_root(
        start.network,
        update.network(),
        n,
        names.uid,
        cid,
        state.timestamp,
        coefficients,
        state.rsp,
        names.ls,
        ciphertext,
    );
}

/// A secret update, then an authentication with the same password, succeeds: every provider
/// holds one new ciphertext at its own address, which opens to the drawn secret with the
/// next counter, and the login server holds the new secret's verifier. The session is
/// fresh, and no blinding is zero.
#[verifier::rlimit(30)]
pub proof fn law_secret_update_then_authentication(
    start: World,
    names: Names,
    password: Seq<u8>,
    cid: Seq<u8>,
    coefficients: Seq<int>,
    state: StateModel,
    account: AccountModel,
    counter: u64,
    update: Journey,
    login: Journey,
)
    requires
        start.system.wf(),
        start.system.idle(),
        start.network.ready(start.system.n),
        root_is_held(
            start.network,
            start.system.n,
            names.uid,
            cid,
            state.timestamp,
            coefficients,
        ),
        are_coefficients(coefficients, start.system.t),
        root_opens(cid, password, coefficients[0], state),
        start.system.rng.scalar() != 0,
        account_is_writable(
            start.network,
            start.system.n,
            state.rsp,
            names.ls,
            Some(account),
            account_draw(update.system.rng).sid,
        ),
        change_is_acceptable(verifiers(start.network), names, Some(account)),
        account_opens(
            account.ciphertext,
            state.k0,
            names.uid,
            names.ls,
            account.secret,
            account.counter,
        ),
        counter == account.counter + 1,
        begins(
            start.system,
            names.uid,
            password,
            Requirement::AllProviders,
            GoalModel::Renew(names),
            update.system,
            update.step,
        ),
        update.is_delivered(start.network, 5),
        update.client().rng.scalar() != 0,
        begins(
            update.client(),
            names.uid,
            password,
            Requirement::Threshold,
            GoalModel::Authenticate(names),
            login.system,
            login.step,
        ),
        login.is_delivered(update.network(), 3),
    ensures
        update.outcome() == StepModel::Done(Ok(())),
        account_is_in_place(
            start.network,
            update.network(),
            start.system.n,
            state.rsp,
            names.ls,
            written_ciphertext(
                names.uid,
                names.ls,
                state.k0,
                counter,
                account_draw(update.system.rng),
            ),
        ),
        account_opens(
            written_ciphertext(
                names.uid,
                names.ls,
                state.k0,
                counter,
                account_draw(update.system.rng),
            ),
            state.k0,
            names.uid,
            names.ls,
            account_draw(update.system.rng).secret,
            counter,
        ),
        holds(
            verifiers(update.network()),
            names.login_uid,
            vinfo(account_draw(update.system.rng).secret, names.ls),
        ),
        login.outcome() == StepModel::Done(Ok(())),
        login.network() == update.network(),
{
    let draw = account_draw(update.system.rng);
    let ciphertext = written_ciphertext(names.uid, names.ls, state.k0, counter, draw);
    law_secret_update_succeeds(
        start,
        names,
        password,
        cid,
        coefficients,
        state,
        account,
        counter,
        update,
    );
    law_stored_account_authenticates(
        update.worlds.last(),
        names,
        password,
        cid,
        coefficients,
        state,
        AccountModel { secret: draw.secret, counter, ciphertext },
        login,
    );
}

/// A secret update of an account whose counter is used up fails behind its two reading
/// stages: nothing is prepared, asked for or finalized, and no node changes.
pub proof fn law_used_up_counter_ends_the_update(
    start: World,
    names: Names,
    password: Seq<u8>,
    cid: Seq<u8>,
    coefficients: Seq<int>,
    state: StateModel,
    account: AccountModel,
    update: Journey,
)
    requires
        start.system.wf(),
        start.system.idle(),
        start.network.ready(start.system.n),
        root_is_held(
            start.network,
            start.system.n,
            names.uid,
            cid,
            state.timestamp,
            coefficients,
        ),
        are_coefficients(coefficients, start.system.t),
        root_opens(cid, password, coefficients[0], state),
        start.system.rng.scalar() != 0,
        account_is_held(
            start.network,
            start.system.n,
            state.rsp,
            names.ls,
            account.ciphertext,
        ),
        account_opens(
            account.ciphertext,
            state.k0,
            names.uid,
            names.ls,
            account.secret,
            account.counter,
        ),
        account.counter == u64::MAX,
        begins(
            start.system,
            names.uid,
            password,
            Requirement::AllProviders,
            GoalModel::Renew(names),
            update.system,
            update.step,
        ),
        update.is_delivered(start.network, 2),
    ensures
        update.outcome() == StepModel::Done(Err("counter overflow"@)),
        update.network() == start.network,
        update.client().idle(),
{
    assert(update.passes(start.network, 0) && update.passes(start.network, 1));
    law_identification_reads_the_root(
        start,
        names.uid,
        password,
        Requirement::AllProviders,
        GoalModel::Renew(names),
        cid,
        coefficients,
        state,
        update,
    );
    law_recovery_reads_the_account(start.network, names, state, true, account, update, 1);
}

/// A secret update whose Store acknowledgements are lost in every attempt, wherever the
/// requests were processed, is retained: other phases are refused. Resumed, it sends the
/// same requests, succeeds, and leaves every provider as if it had stored once; an
/// authentication with the same password succeeds. The session is fresh, and no blinding is
/// zero.
#[verifier::rlimit(30)]
pub proof fn law_lost_acknowledgements_can_be_resumed(
    start: World,
    names: Names,
    password: Seq<u8>,
    cid: Seq<u8>,
    coefficients: Seq<int>,
    state: StateModel,
    account: AccountModel,
    counter: u64,
    update: Journey,
    other_uid: Seq<u8>,
    other_password: Seq<u8>,
    requirement: Requirement,
    goal: GoalModel,
    other: (SystemModel, StepModel),
    resume: Journey,
    login: Journey,
)
    requires
        start.system.wf(),
        start.system.idle(),
        start.network.ready(start.system.n),
        root_is_held(
            start.network,
            start.system.n,
            names.uid,
            cid,
            state.timestamp,
            coefficients,
        ),
        are_coefficients(coefficients, start.system.t),
        root_opens(cid, password, coefficients[0], state),
        start.system.rng.scalar() != 0,
        account_is_writable(
            start.network,
            start.system.n,
            state.rsp,
            names.ls,
            Some(account),
            account_draw(update.system.rng).sid,
        ),
        change_is_acceptable(verifiers(start.network), names, Some(account)),
        account_opens(
            account.ciphertext,
            state.k0,
            names.uid,
            names.ls,
            account.secret,
            account.counter,
        ),
        counter == account.counter + 1,
        begins(
            start.system,
            names.uid,
            password,
            Requirement::AllProviders,
            GoalModel::Renew(names),
            update.system,
            update.step,
        ),
        update.events.len() == update.worlds.len() == update.steps.len() == 7,
        forall|k: int| 0 <= k < 4 ==> #[trigger] update.passes(start.network, k),
        forall|k: int|
            4 <= k < 7 ==> #[trigger] update.leads(start.network, k) && acknowledged(
                update.events[k].end,
            ) is Err,
        begins(
            update.client(),
            other_uid,
            other_password,
            requirement,
            goal,
            other.0,
            other.1,
        ),
        (resume.system, resume.step) == resumed(update.client()),
        resume.is_delivered(update.network(), 1),
        resume.client().rng.scalar() != 0,
        begins(
            resume.client(),
            names.uid,
            password,
            Requirement::Threshold,
            GoalModel::Authenticate(names),
            login.system,
            login.step,
        ),
        login.is_delivered(resume.network(), 3),
    ensures
        update.outcome() == StepModel::Done(
            Err(
                "finalization incomplete; retained for resume: "@ + acknowledged(
                    update.events[6].end,
                )->Err_0,
            ),
        ),
        other == (update.client(), not_idle()),
        resume.step->Run_0.requests == write_finals(
            start.system.n,
            names,
            state,
            Some(account),
            counter,
            account_draw(update.system.rng),
        ),
        resume.step->Run_0.requests == update.steps[3]->Run_0.requests,
        resume.outcome() == StepModel::Done(Ok(())),
        resume.client().idle(),
        account_is_in_place(
            start.network,
            resume.network(),
            start.system.n,
            state.rsp,
            names.ls,
            written_ciphertext(
                names.uid,
                names.ls,
                state.k0,
                counter,
                account_draw(update.system.rng),
            ),
        ),
        account_opens(
            written_ciphertext(
                names.uid,
                names.ls,
                state.k0,
                counter,
                account_draw(update.system.rng),
            ),
            state.k0,
            names.uid,
            names.ls,
            account_draw(update.system.rng).secret,
            counter,
        ),
        holds(
            verifiers(resume.network()),
            names.login_uid,
            vinfo(account_draw(update.system.rng).secret, names.ls),
        ),
        login.outcome() == StepModel::Done(Ok(())),
        login.network() == resume.network(),
{
    let n = start.system.n;
    let draw = account_draw(update.system.rng);
    let ciphertext = written_ciphertext(names.uid, names.ls, state.k0, counter, draw);
    let finals = write_finals(n, names, state, Some(account), counter, draw);
    assert(update.passes(start.network, 0) && update.passes(start.network, 1));
    lemma_update_comes_to_write(
        start,
        names,
        password,
        cid,
        coefficients,
        state,
        account,
        counter,
        update,
    );
    assert(update.passes(start.network, 2) && update.passes(start.network, 3));
    lemma_write_comes_to_store(
        start.network,
        names,
        state,
        Some(account),
        counter,
        draw,
        update,
        2,
    );
    let waiting = update.worlds[3];
    assert(partly_stored(waiting.network, waiting.network, n, finals));
    assert(update.leads(start.network, 4));
    lemma_lost_finalization(
        waiting.network,
        n,
        finals,
        waiting,
        update.steps[3],
        update.events[4],
        update.worlds[4],
        update.steps[4],
    );
    assert(update.leads(start.network, 5));
    lemma_lost_finalization(
        waiting.network,
        n,
        finals,
        update.worlds[4],
        update.steps[4],
        update.events[5],
        update.worlds[5],
        update.steps[5],
    );
    assert(update.leads(start.network, 6));
    lemma_lost_finalization(
        waiting.network,
        n,
        finals,
        update.worlds[5],
        update.steps[5],
        update.events[6],
        update.worlds[6],
        update.steps[6],
    );
    assert(resume.passes(update.network(), 0));
    lemma_delivered_finalization(
        waiting.network,
        n,
        finals,
        World { system: resume.system, network: update.network() },
        resume.step,
        resume.events[0],
        resume.worlds[0],
        resume.steps[0],
    );
    lemma_write_keeps_the_root(
        start.network,
        resume.network(),
        n,
        names.uid,
        cid,
        state.timestamp,
        coefficients,
        state.rsp,
        names.ls,
        ciphertext,
    );
    law_stored_account_authenticates(
        resume.worlds.last(),
        names,
        password,
        cid,
        coefficients,
        state,
        AccountModel { secret: draw.secret, counter, ciphertext },
        login,
    );
}

/// A change that the login server accepts is never discarded, whatever is lost and however
/// late it is: the phase stores, or keeps both ways and asks the login server; and asked, a
/// login server that holds the new verifier is not answered with Discard either.
pub proof fn law_accepted_change_is_never_discarded(
    world: World,
    step: StepModel,
    change: LsRequestModel,
    event: Event,
    next: World,
    further: StepModel,
)
    requires
        world.network.login is LoginServer,
        leads_to(world, step, event, next, further),
        step->Run_0.policy == Policy::All,
        match step->Run_1 {
            ProgressModel::Changing { .. } => step->Run_0.requests == seq![
                (Target::LoginServer, RequestModel::Ls(change)),
            ] && login_answer(verifiers(world.network), change) == Ok::<ReplyModel, Seq<char>>(
                ReplyModel::Ack(true),
            ),
            ProgressModel::Resolving { .. } => step->Run_0.requests == seq![
                (Target::LoginServer, probe(change)),
            ] && login_answer(verifiers(world.network), probe(change)->Ls_0) == Ok::<
                ReplyModel,
                Seq<char>,
            >(ReplyModel::Ack(true)) && world.system.resolution is Some,
            _ => false,
        },
    ensures
        !starts_discarding(further),
        next.system.resolution is Some || starts_storing(further),
{
    let requests = step->Run_0.requests;
    let arrivals = event.arrivals;
    let request = requests[0].1;
    assert(node_answer(world.network.login, request, event.clock) == Ok::<ReplyModel, Seq<char>>(
        ReplyModel::Ack(true),
    ));
    assert(!event.refused) by {
        if event.refused {
            let i = choose|i: int|
                0 <= i < requests.len() && (#[trigger] requests[i]).0 == Target::LoginServer
                    && event.reached.contains(Target::LoginServer) && !call_succeeded(
                    node_answer(world.network.login, requests[i].1, event.clock),
                );
            assert(i == 0);
        }
    }
    if !event.expired && event.end is Ok {
        law_all_means_every_reply(1, arrivals);
        assert(arrivals[0].1 is Ok);
        let i = choose|i: int|
            0 <= i < requests.len() && can_arrive(
                world.network,
                #[trigger] requests[i],
                event,
                arrivals[0],
            );
        assert(i == 0);
        let replies = event.end->Ok_0;
        assert(replies[0].1 == ReplyModel::Ack(true));
        assert(all_acknowledged(replies));
    }
}

} // verus!
