//! Phases on roots from start to end, on a network that delivers every call: what setup and
//! password update leave behind, and what the identifications after them read.

use vstd::prelude::*;

use crate::accounts::final_messages;
use crate::agreement::agreement_value;
use crate::client::{
    law_sealed_root_is_read, root_opens, setup_root, state_in_root, SetupDraw, StateModel,
};
use crate::course::{
    in_turn, leads_to, lemma_delivered_acknowledgements, lemma_delivered_agreement,
    lemma_delivered_in_turn, lemma_delivered_refusals, lemma_delivered_replies,
    lemma_network_in_turn, passes_to, Event, Journey, Network, World,
};
use crate::crypto::{is_blob, opened, password_key, password_point, share_value};
use crate::flow::{
    after_identification, are_coefficients, begins, identification_result, identifies, root_records,
    run, sets_up, setup_draw, update_draw, update_opens, GoalModel, ProgressModel, Requirement,
    StageKind, StepModel,
};
use crate::group::point_mul;
use crate::interpolation::{lemma_residue, order};
use crate::login_server::{holds, LoginModel};
use crate::messages::{
    BindingModel, PasswordUpdateModel, Phase, RecordIdModel, ReplyModel, RequestModel, RootModel,
    UpRequestModel, ROOT_LEN,
};
use crate::password::{
    law_sound_update_is_accepted, next_timestamp, signed_update, sound_update, update_messages,
    UpdateDraw,
};
use crate::provider::{distance, evaluates, fits_record, ProviderModel};
use crate::provider_laws::{
    law_finalization_can_be_repeated, law_password_update_replaces_the_root, law_setup_is_served,
    usable_root,
};
use crate::random::RngModel;
use crate::round_trip::{
    law_drawn_polynomials_are_valid, law_honest_providers_evaluate, served_roots,
};
use crate::scalar::{le_value, lemma_scalar_bytes, scalar_bytes, scalar_value};
use crate::signature::{commits_to_identity, ed25519_key_valid, ed25519_public};
use crate::stage::{acknowledged, Policy};
use crate::transport::{contributes, node_answer, node_next, NodeModel, Target};
use crate::wire::stamped;

verus! {

/// The records of a provider of the network.
pub open spec fn records(network: Network, i: int) -> ProviderModel {
    network.providers[i]->upspa
}

/// The verifiers of the network's login server.
pub open spec fn verifiers(network: Network) -> LoginModel {
    network.login->LoginServer_0
}

/// Every provider holds one root ciphertext of a user, under one timestamp, and its share
/// of one polynomial.
pub open spec fn root_is_held(
    network: Network,
    n: int,
    uid: Seq<u8>,
    cid: Seq<u8>,
    timestamp: u64,
    coefficients: Seq<int>,
) -> bool {
    forall|i: int|
        #![trigger network.providers[i]]
        0 <= i < n ==> {
            let root = records(network, i).roots[uid];
            &&& records(network, i).roots.contains_key(uid)
            &&& root.cid == cid && root.timestamp == timestamp
            &&& root.share == scalar_bytes(share_value(coefficients, i + 1))
        }
}

/// No provider has a pending replacement of a record.
pub open spec fn nothing_pending(network: Network, n: int, record: RecordIdModel) -> bool {
    forall|i: int|
        #![trigger network.providers[i]]
        0 <= i < n ==> !records(network, i).pending.contains_key(record)
}

/// No provider has finalized a transaction of a session on a record: the session is fresh.
pub open spec fn session_is_fresh(network: Network, n: int, binding: BindingModel) -> bool {
    forall|i: int|
        #![trigger network.providers[i]]
        0 <= i < n ==> !records(network, i).completed.contains_key(binding)
}

/// Between two states of a provider one session of a phase for a record was finalized, and
/// nothing else became pending or final.
pub open spec fn settles_only(
    before: ProviderModel,
    after: ProviderModel,
    phase: Phase,
    record: RecordIdModel,
) -> bool {
    &&& after.provider_id == before.provider_id
    &&& after.clock_window_ms == before.clock_window_ms
    &&& after.pending == before.pending
    &&& forall|binding: BindingModel|
        #![trigger after.completed.contains_key(binding)]
        after.completed.contains_key(binding) ==> before.completed.contains_key(binding) || (
        binding.phase == phase && binding.record == record)
}

/// The binding of a setup.
pub open spec fn setup_binding(draw: SetupDraw, uid: Seq<u8>) -> BindingModel {
    BindingModel { sid: draw.sid, phase: Phase::Setup, record: RecordIdModel::Root(uid) }
}

/// Each provider has taken in the root of a setup with its share, and nothing else changed
/// but the session.
pub open spec fn setup_is_in_place(
    before: Network,
    after: Network,
    n: int,
    uid: Seq<u8>,
    password: Seq<u8>,
    draw: SetupDraw,
) -> bool {
    &&& after.ready(n)
    &&& after.login == before.login
    &&& nothing_pending(after, n, RecordIdModel::Root(uid))
    &&& forall|i: int|
        #![trigger after.providers[i]]
        0 <= i < n ==> {
            &&& records(after, i).roots == records(before, i).roots.insert(
                uid,
                setup_root(uid, password, draw, i + 1),
            )
            &&& records(after, i).accounts == records(before, i).accounts
            &&& after.providers[i]->tspa == before.providers[i]->tspa
            &&& settles_only(
                records(before, i),
                records(after, i),
                Phase::Setup,
                RecordIdModel::Root(uid),
            )
        }
}

/// A setup on providers without a root of the user succeeds: every provider has the root
/// with its share and timestamp zero, nothing is pending, and the client is idle again.
#[verifier::rlimit(30)]
pub proof fn law_setup_succeeds(
    start: World,
    uid: Seq<u8>,
    password: Seq<u8>,
    setup: Journey,
)
    requires
        start.system.wf(),
        start.system.idle(),
        start.network.ready(start.system.n),
        nothing_pending(start.network, start.system.n, RecordIdModel::Root(uid)),
        forall|i: int|
            #![trigger start.network.providers[i]]
            0 <= i < start.system.n ==> !records(start.network, i).roots.contains_key(uid),
        session_is_fresh(
            start.network,
            start.system.n,
            setup_binding(setup_draw(start.system.rng, start.system.t as nat), uid),
        ),
        sets_up(start.system, uid, password, setup.system, setup.step),
        setup.is_delivered(start.network, 2),
    ensures
        setup.outcome() == StepModel::Done(Ok(())),
        setup.client() == setup.system,
        setup.system.idle(),
        setup_is_in_place(
            start.network,
            setup.network(),
            start.system.n,
            uid,
            password,
            setup_draw(start.system.rng, start.system.t as nat),
        ),
{
    let n = start.system.n;
    let draw = setup_draw(start.system.rng, start.system.t as nat);
    let (first, second, last) = (setup.step, setup.steps[0], setup.steps[1]);
    let (prepare, store) = (setup.events[0], setup.events[1]);
    let (prepared, stored) = (setup.worlds[0], setup.worlds[1]);
    let begun = World { system: setup.system, network: start.network };
    assert(setup.passes(start.network, 0) && setup.passes(start.network, 1));
    let requests = first->Run_0.requests;
    assert(in_turn(requests));
    lemma_delivered_in_turn(begun, first, prepare, prepared, second, n);
    assert forall|i: int| #![trigger requests[i]] 0 <= i < requests.len() implies node_answer(
        start.network.node(requests[i].0),
        requests[i].1,
        prepare.clock,
    ) == Ok::<ReplyModel, Seq<char>>(ReplyModel::Ack(true)) by {
        let root = setup_root(uid, password, draw, i + 1);
        assert(usable_root(root));
        assert(start.network.node(requests[i].0) == start.network.providers[i]);
        law_setup_is_served(
            records(start.network, i),
            draw.sid,
            root,
            prepare.clock,
            store.clock,
        );
    }
    lemma_delivered_acknowledgements(begun, first, prepare, prepared, second);
    let finals = final_messages(draw.sid, Phase::Setup, root_records(n, uid), true);
    assert(second->Run_0.requests == finals);
    assert(in_turn(finals));
    lemma_delivered_in_turn(prepared, second, store, stored, last, n);
    assert forall|i: int| #![trigger finals[i]] 0 <= i < finals.len() implies node_answer(
        prepared.network.node(finals[i].0),
        finals[i].1,
        store.clock,
    ) == Ok::<ReplyModel, Seq<char>>(ReplyModel::Ack(true)) by {
        let root = setup_root(uid, password, draw, i + 1);
        assert(usable_root(root));
        assert(prepared.network.node(finals[i].0) == prepared.network.providers[i]);
        law_setup_is_served(
            records(start.network, i),
            draw.sid,
            root,
            prepare.clock,
            store.clock,
        );
    }
    lemma_delivered_acknowledgements(prepared, second, store, stored, last);
    assert forall|i: int| #![trigger stored.network.providers[i]] 0 <= i < n implies {
        &&& stored.network.providers[i] is Provider
        &&& records(stored.network, i).wf()
        &&& records(stored.network, i).provider_id == i + 1
        &&& stored.network.providers[i]->tspa == start.network.providers[i]->tspa
        &&& records(stored.network, i).roots == records(start.network, i).roots.insert(
            uid,
            setup_root(uid, password, draw, i + 1),
        )
        &&& records(stored.network, i).accounts == records(start.network, i).accounts
        &&& !records(stored.network, i).pending.contains_key(RecordIdModel::Root(uid))
        &&& settles_only(
            records(start.network, i),
            records(stored.network, i),
            Phase::Setup,
            RecordIdModel::Root(uid),
        )
    } by {
        let root = setup_root(uid, password, draw, i + 1);
        assert(usable_root(root));
        let p = records(start.network, i);
        assert(start.network.providers[i] is Provider);
        assert(prepared.network.providers[i] == node_next(
            start.network.providers[i],
            requests[i].1,
            prepare.clock,
        ));
        assert(stored.network.providers[i] == node_next(
            prepared.network.providers[i],
            finals[i].1,
            store.clock,
        ));
        law_setup_is_served(p, draw.sid, root, prepare.clock, store.clock);
        assert(records(stored.network, i).wf());
        assert(records(stored.network, i).pending =~= p.pending);
    }
}

/// What a setup leaves in place is one root ciphertext and the shares of one polynomial.
pub proof fn lemma_setup_holds_root(
    before: Network,
    after: Network,
    n: int,
    uid: Seq<u8>,
    password: Seq<u8>,
    draw: SetupDraw,
)
    requires
        setup_is_in_place(before, after, n, uid, password, draw),
    ensures
        root_is_held(
            after,
            n,
            uid,
            setup_root(uid, password, draw, 1).cid,
            0,
            draw.coeffs,
        ),
{
}

/// The encoding of a drawn scalar stands for it.
pub proof fn lemma_drawn_scalar(rng: RngModel)
    ensures
        0 <= rng.scalar() < order(),
        scalar_value(scalar_bytes(rng.scalar())) == rng.scalar(),
{
    lemma_residue(le_value(rng.bytes(64)) as int);
    lemma_scalar_bytes(rng.scalar());
}

/// An identification with any password on providers that hold one root gives what the
/// root's ciphertext opens to under the key of that password, and changes no node: the
/// phase goes on with that, and it is refused exactly where the ciphertext does not open
/// under the key. The blinding must not be zero.
pub proof fn law_identification_evaluates_the_password(
    start: World,
    uid: Seq<u8>,
    password: Seq<u8>,
    requirement: Requirement,
    goal: GoalModel,
    cid: Seq<u8>,
    timestamp: u64,
    coefficients: Seq<int>,
    reading: Journey,
)
    requires
        start.system.wf(),
        start.network.ready(start.system.n),
        root_is_held(start.network, start.system.n, uid, cid, timestamp, coefficients),
        are_coefficients(coefficients, start.system.t),
        is_blob(cid, ROOT_LEN as int),
        start.system.rng.scalar() != 0,
        identifies(
            start.system,
            uid,
            password,
            requirement,
            goal,
            reading.system,
            reading.step,
        ),
        reading.passes(start.network, 0),
    ensures
        reading.worlds[0].network == start.network,
        ({
            let key = password_key(password, coefficients[0]);
            let result = state_in_root(key, cid, timestamp);
            &&& identification_result(
                requirement,
                start.system.t,
                password,
                scalar_bytes(start.system.rng.scalar()),
                reading.events[0].end,
            ) == result
            &&& (reading.worlds[0].system, reading.steps[0]) == after_identification(
                reading.system,
                result,
                goal,
                reading.events[0].now,
            )
            &&& opened(key, Seq::empty(), cid) is None <==> result is Err
            &&& opened(key, Seq::empty(), cid) is None ==> is_refused_password(
                reading,
                goal,
            )
        }),
{
    let (system, first, second) = (reading.system, reading.step, reading.steps[0]);
    let (event, next) = (reading.events[0], reading.worlds[0]);
    let n = start.system.n;
    let t = start.system.t;
    let rng = start.system.rng;
    let begun = World { system, network: start.network };
    let requests = first->Run_0.requests;
    let r = scalar_bytes(rng.scalar());
    let blinded = point_mul(password_point(password), rng.scalar());
    lemma_drawn_scalar(rng);
    assert(in_turn(requests));
    assert forall|i: int| #![trigger requests[i]] 0 <= i < n implies {
        let node = start.network.node(requests[i].0);
        let answer = node_answer(node, requests[i].1, event.clock);
        contributes(node, requests[i].1, answer) ==> (answer matches Ok(reply)
            && agreement_value(reply) == Some(stamped(cid, timestamp)))
    } by {
        assert(start.network.node(requests[i].0) == start.network.providers[i]);
        assert(records(start.network, i).roots.contains_key(uid));
    }
    lemma_delivered_agreement(
        begun,
        first,
        event,
        next,
        second,
        n,
        t,
        stamped(cid, timestamp),
    );
    let replies = event.end->Ok_0;
    assert(served_roots(
        replies,
        cid,
        timestamp,
        password,
        scalar_value(r),
        coefficients,
    )) by {
        assert forall|k: int| #![trigger replies[k]] 0 <= k < replies.len() implies (
        replies[k].1 matches ReplyModel::Identification { cid: held, timestamp: moment, contribution }
            && held == cid && moment == timestamp && evaluates(
            contribution,
            point_mul(password_point(password), scalar_value(r)),
            scalar_value(scalar_bytes(share_value(coefficients, replies[k].0 as int))),
        )) by {
            let i = replies[k].0 - 1;
            assert(requests[i].1 == RequestModel::Up(UpRequestModel::Identify { uid, blinded }));
            assert(records(start.network, i).roots.contains_key(uid));
        }
    }
    law_honest_providers_evaluate(
        system,
        requirement,
        password,
        r,
        replies,
        cid,
        timestamp,
        coefficients,
    );
    lemma_delivered_in_turn(begun, first, event, next, second, n);
    assert(next.network.providers =~= start.network.providers) by {
        assert forall|i: int| 0 <= i < n implies next.network.providers[i]
            == start.network.providers[i] by {
            assert(requests[i].1 == RequestModel::Up(UpRequestModel::Identify { uid, blinded }));
            assert(start.network.providers[i] is Provider);
        }
    }
}

/// A phase ends behind its identification because the password is refused, with the client
/// as it was.
pub open spec fn is_refused_password(reading: Journey, goal: GoalModel) -> bool {
    &&& reading.worlds[0].system == reading.system
    &&& reading.steps[0] == (if goal is Report {
        StepModel::Identified(Err("root decryption failed"@))
    } else {
        StepModel::Done(Err("root decryption failed"@))
    })
}

/// An identification on providers that hold one root reads the state that the root was
/// encrypted from, and changes no node: the phase goes on with that state. The blinding
/// must not be zero.
pub proof fn law_identification_reads_the_root(
    start: World,
    uid: Seq<u8>,
    password: Seq<u8>,
    requirement: Requirement,
    goal: GoalModel,
    cid: Seq<u8>,
    coefficients: Seq<int>,
    state: StateModel,
    reading: Journey,
)
    requires
        start.system.wf(),
        start.network.ready(start.system.n),
        root_is_held(start.network, start.system.n, uid, cid, state.timestamp, coefficients),
        are_coefficients(coefficients, start.system.t),
        root_opens(cid, password, coefficients[0], state),
        start.system.rng.scalar() != 0,
        identifies(
            start.system,
            uid,
            password,
            requirement,
            goal,
            reading.system,
            reading.step,
        ),
        reading.passes(start.network, 0),
    ensures
        reading.worlds[0].network == start.network,
        (reading.worlds[0].system, reading.steps[0]) == after_identification(
            reading.system,
            Ok(state),
            goal,
            reading.events[0].now,
        ),
        identification_result(
            requirement,
            start.system.t,
            password,
            scalar_bytes(start.system.rng.scalar()),
            reading.events[0].end,
        ) == Ok::<StateModel, Seq<char>>(state),
{
    law_identification_evaluates_the_password(
        start,
        uid,
        password,
        requirement,
        goal,
        cid,
        state.timestamp,
        coefficients,
        reading,
    );
    law_sealed_root_is_read(cid, password, coefficients[0], state);
}

/// A setup for a user whose root is in place is refused: the phase fails, no node changes,
/// and the client is idle again.
pub proof fn law_second_setup_is_refused(
    start: World,
    uid: Seq<u8>,
    password: Seq<u8>,
    setup: Journey,
)
    requires
        start.system.wf(),
        start.system.idle(),
        start.network.ready(start.system.n),
        nothing_pending(start.network, start.system.n, RecordIdModel::Root(uid)),
        forall|i: int|
            #![trigger start.network.providers[i]]
            0 <= i < start.system.n ==> records(start.network, i).roots.contains_key(uid),
        sets_up(start.system, uid, password, setup.system, setup.step),
        setup.is_delivered(start.network, 2),
    ensures
        setup.outcome() == StepModel::Done(Err("root already exists"@)),
        setup.client() == setup.system,
        setup.system.idle(),
        setup.network() == start.network,
{
    let n = start.system.n;
    let draw = setup_draw(start.system.rng, start.system.t as nat);
    let (first, second, last) = (setup.step, setup.steps[0], setup.steps[1]);
    let (prepare, discard) = (setup.events[0], setup.events[1]);
    let (prepared, discarded) = (setup.worlds[0], setup.worlds[1]);
    let begun = World { system: setup.system, network: start.network };
    assert(setup.passes(start.network, 0) && setup.passes(start.network, 1));
    let requests = first->Run_0.requests;
    assert(in_turn(requests));
    lemma_delivered_in_turn(begun, first, prepare, prepared, second, n);
    lemma_delivered_refusals(begun, first, prepare, prepared, second, "root already exists"@);
    assert(prepared.network.providers =~= start.network.providers) by {
        assert forall|i: int| 0 <= i < n implies prepared.network.providers[i]
            == start.network.providers[i] by {
            assert(requests[i].1 is Up);
            assert(records(start.network, i).roots.contains_key(uid));
        }
    }
    let finals = final_messages(draw.sid, Phase::Setup, root_records(n, uid), false);
    assert(second->Run_0.requests == finals);
    assert(in_turn(finals));
    lemma_delivered_in_turn(prepared, second, discard, discarded, last, n);
    lemma_delivered_replies(prepared, second, discard, discarded, last);
    assert(discarded.network.providers =~= start.network.providers) by {
        assert forall|i: int| 0 <= i < n implies discarded.network.providers[i]
            == start.network.providers[i] by {
            assert(finals[i].1 is Up);
            assert(!records(start.network, i).pending.contains_key(RecordIdModel::Root(uid)));
        }
    }
}

/// A setup, then an identification with its password, gives the drawn keys with timestamp
/// zero; a second setup for the user is refused and leaves every node as it is. The session
/// is fresh, and the blinding is not zero.
pub proof fn law_setup_then_identification(
    start: World,
    uid: Seq<u8>,
    password: Seq<u8>,
    setup: Journey,
    requirement: Requirement,
    reading: Journey,
    other_password: Seq<u8>,
    again: Journey,
)
    requires
        start.system.wf(),
        start.system.idle(),
        start.network.ready(start.system.n),
        nothing_pending(start.network, start.system.n, RecordIdModel::Root(uid)),
        forall|i: int|
            #![trigger start.network.providers[i]]
            0 <= i < start.system.n ==> !records(start.network, i).roots.contains_key(uid),
        session_is_fresh(
            start.network,
            start.system.n,
            setup_binding(setup_draw(start.system.rng, start.system.t as nat), uid),
        ),
        sets_up(start.system, uid, password, setup.system, setup.step),
        setup.is_delivered(start.network, 2),
        setup.client().rng.scalar() != 0,
        identifies(
            setup.client(),
            uid,
            password,
            requirement,
            GoalModel::Report,
            reading.system,
            reading.step,
        ),
        reading.is_delivered(setup.network(), 1),
        sets_up(reading.client(), uid, other_password, again.system, again.step),
        again.is_delivered(reading.network(), 2),
    ensures
        ({
            let draw = setup_draw(start.system.rng, start.system.t as nat);
            let state = StateModel {
                ssk: draw.ssk,
                rsp: draw.rsp,
                k0: draw.k0,
                timestamp: 0,
            };
            &&& setup.outcome() == StepModel::Done(Ok(()))
            &&& setup_is_in_place(
                start.network,
                setup.network(),
                start.system.n,
                uid,
                password,
                draw,
            )
            &&& reading.outcome() == StepModel::Identified(Ok(state))
            &&& reading.network() == setup.network()
            &&& again.outcome() == StepModel::Done(Err("root already exists"@))
            &&& again.network() == setup.network()
            &&& again.client().idle()
        }),
{
    let n = start.system.n;
    let t = start.system.t;
    let draw = setup_draw(start.system.rng, t as nat);
    let cid = setup_root(uid, password, draw, 1).cid;
    let state = StateModel { ssk: draw.ssk, rsp: draw.rsp, k0: draw.k0, timestamp: 0 };
    law_setup_succeeds(start, uid, password, setup);
    lemma_setup_holds_root(start.network, setup.network(), n, uid, password, draw);
    law_drawn_polynomials_are_valid(start.system.rng, n as nat, t as nat);
    assert(root_opens(cid, password, draw.coeffs[0], state));
    assert(reading.passes(setup.network(), 0));
    law_identification_reads_the_root(
        setup.worlds.last(),
        uid,
        password,
        requirement,
        GoalModel::Report,
        cid,
        draw.coeffs,
        state,
        reading,
    );
    law_second_setup_is_refused(reading.worlds.last(), uid, other_password, again);
}

/// The binding of a password update.
pub open spec fn update_binding(draw: UpdateDraw, uid: Seq<u8>) -> BindingModel {
    BindingModel { sid: draw.sid, phase: Phase::PasswordUpdate, record: RecordIdModel::Root(uid) }
}

/// Providers that accept an update of a user's root to a new timestamp, at their time: they
/// hold the signer's key, their clock window allows the timestamp, and no signature commits
/// to the identity.
pub open spec fn update_is_acceptable(
    network: Network,
    n: int,
    uid: Seq<u8>,
    password: Seq<u8>,
    state: StateModel,
    timestamp: u64,
    draw: UpdateDraw,
    clock: u64,
) -> bool {
    forall|i: int|
        #![trigger network.providers[i]]
        0 <= i < n ==> {
            let provider = records(network, i);
            &&& provider.roots[uid].svk == ed25519_public(state.ssk)
            &&& ed25519_key_valid(ed25519_public(state.ssk))
            &&& distance(timestamp, clock) <= provider.clock_window_ms
            &&& !commits_to_identity(
                signed_update(uid, password, state, timestamp, draw, i + 1).signature,
            )
        }
}

/// Each provider has taken in an update of a user's root: ciphertext, share and timestamp
/// are new, everything else of the root is as it was, and nothing else changed but the
/// session.
pub open spec fn update_is_in_place(
    before: Network,
    after: Network,
    n: int,
    uid: Seq<u8>,
    password: Seq<u8>,
    state: StateModel,
    timestamp: u64,
    draw: UpdateDraw,
) -> bool {
    &&& after.ready(n)
    &&& after.login == before.login
    &&& nothing_pending(after, n, RecordIdModel::Root(uid))
    &&& forall|i: int|
        #![trigger after.providers[i]]
        0 <= i < n ==> {
            let update = signed_update(uid, password, state, timestamp, draw, i + 1);
            &&& records(after, i).roots == records(before, i).roots.insert(
                uid,
                (RootModel {
                    cid: update.cid_new,
                    share: update.share_new,
                    timestamp,
                    ..records(before, i).roots[uid]
                }),
            )
            &&& records(after, i).accounts == records(before, i).accounts
            &&& after.providers[i]->tspa == before.providers[i]->tspa
            &&& settles_only(
                records(before, i),
                records(after, i),
                Phase::PasswordUpdate,
                RecordIdModel::Root(uid),
            )
        }
}

/// A provider has taken in the update of a user's root.
spec fn update_arrived(
    before: NodeModel,
    after: NodeModel,
    uid: Seq<u8>,
    update: PasswordUpdateModel,
) -> bool {
    &&& after is Provider && after->upspa.wf()
    &&& after->upspa.provider_id == before->upspa.provider_id
    &&& after->tspa == before->tspa
    &&& after->upspa.roots == before->upspa.roots.insert(
        uid,
        (RootModel {
            cid: update.cid_new,
            share: update.share_new,
            timestamp: update.timestamp_new,
            ..before->upspa.roots[uid]
        }),
    )
    &&& after->upspa.accounts == before->upspa.accounts
    &&& !after->upspa.pending.contains_key(RecordIdModel::Root(uid))
    &&& settles_only(
        before->upspa,
        after->upspa,
        Phase::PasswordUpdate,
        RecordIdModel::Root(uid),
    )
}

proof fn lemma_update_arrives(node: NodeModel, update: PasswordUpdateModel, ssk: Seq<u8>, clock: u64)
    requires
        node is Provider,
        node->upspa.wf(),
        sound_update(update, ssk),
        node->upspa.roots.contains_key(update.uid),
        node->upspa.roots[update.uid].svk == ed25519_public(ssk),
        ed25519_key_valid(ed25519_public(ssk)),
        node->upspa.roots[update.uid].timestamp == update.timestamp_old,
        update.provider_id == node->upspa.provider_id,
        update.timestamp_old < update.timestamp_new,
        distance(update.timestamp_new, clock) <= node->upspa.clock_window_ms,
        !commits_to_identity(update.signature),
        !node->upspa.pending.contains_key(RecordIdModel::Root(update.uid)),
        !node->upspa.completed.contains_key(
            BindingModel {
                sid: update.sid,
                phase: Phase::PasswordUpdate,
                record: RecordIdModel::Root(update.uid),
            },
        ),
    ensures
        ({
            let request = RequestModel::Up(UpRequestModel::PasswordUpdate(update));
            let store = RequestModel::Up(
                UpRequestModel::Finalize {
                    binding: BindingModel {
                        sid: update.sid,
                        phase: Phase::PasswordUpdate,
                        record: RecordIdModel::Root(update.uid),
                    },
                    store: true,
                },
            );
            let prepared = node_next(node, request, clock);
            &&& node_answer(node, request, clock) == Ok::<ReplyModel, Seq<char>>(
                ReplyModel::Ack(true),
            )
            &&& awaits_store(prepared, store)
            &&& update_arrived(node, stored_node(prepared, store), update.uid, update)
        }),
{
    law_sound_update_is_accepted(node->upspa, update, ssk, clock);
    law_password_update_replaces_the_root(node->upspa, update, clock, 0);
    let request = RequestModel::Up(UpRequestModel::PasswordUpdate(update));
    let store = RequestModel::Up(
        UpRequestModel::Finalize {
            binding: BindingModel {
                sid: update.sid,
                phase: Phase::PasswordUpdate,
                record: RecordIdModel::Root(update.uid),
            },
            store: true,
        },
    );
    let stored = stored_node(node_next(node, request, clock), store);
    assert(stored->upspa.pending =~= node->upspa.pending);
}

/// A password update on providers that hold one root and accept the update succeeds: every
/// provider has the new ciphertext, share and timestamp, and the client is idle again. The
/// session is fresh, and the blinding is not zero.
#[verifier::rlimit(30)]
pub proof fn law_password_update_succeeds(
    start: World,
    uid: Seq<u8>,
    password: Seq<u8>,
    new_password: Seq<u8>,
    cid: Seq<u8>,
    coefficients: Seq<int>,
    state: StateModel,
    timestamp: u64,
    update: Journey,
)
    requires
        start.system.wf(),
        start.system.idle(),
        start.network.ready(start.system.n),
        root_is_held(start.network, start.system.n, uid, cid, state.timestamp, coefficients),
        are_coefficients(coefficients, start.system.t),
        root_opens(cid, password, coefficients[0], state),
        nothing_pending(start.network, start.system.n, RecordIdModel::Root(uid)),
        start.system.rng.scalar() != 0,
        begins(
            start.system,
            uid,
            password,
            Requirement::AllProviders,
            GoalModel::ChangePassword { uid, password: new_password },
            update.system,
            update.step,
        ),
        update.is_delivered(start.network, 3),
        next_timestamp(state.timestamp, update.events[0].now) == Some(timestamp),
        ({
            let draw = update_draw(update.system.rng, start.system.t as nat);
            &&& session_is_fresh(start.network, start.system.n, update_binding(draw, uid))
            &&& update_is_acceptable(
                start.network,
                start.system.n,
                uid,
                new_password,
                state,
                timestamp,
                draw,
                update.events[1].clock,
            )
        }),
    ensures
        update.outcome() == StepModel::Done(Ok(())),
        update.client().idle(),
        update.client().n == start.system.n && update.client().t == start.system.t,
        update_is_in_place(
            start.network,
            update.network(),
            start.system.n,
            uid,
            new_password,
            state,
            timestamp,
            update_draw(update.system.rng, start.system.t as nat),
        ),
        root_opens(
            signed_update(
                uid,
                new_password,
                state,
                timestamp,
                update_draw(update.system.rng, start.system.t as nat),
                1,
            ).cid_new,
            new_password,
            update_draw(update.system.rng, start.system.t as nat).coeffs[0],
            (StateModel { timestamp, ..state }),
        ),
{
    let n = start.system.n;
    let t = start.system.t;
    let draw = update_draw(update.system.rng, t as nat);
    let goal = GoalModel::ChangePassword { uid, password: new_password };
    assert(update.passes(start.network, 0) && update.passes(start.network, 1) && update.passes(
        start.network,
        2,
    ));
    law_identification_reads_the_root(
        start,
        uid,
        password,
        Requirement::AllProviders,
        goal,
        cid,
        coefficients,
        state,
        update,
    );
    assert(update_opens(update.system, uid, new_password, state, update.events[0].now, draw));
    lemma_update_is_stored(
        start.network,
        update.worlds[0],
        uid,
        new_password,
        state,
        timestamp,
        draw,
        update,
    );
}

proof fn lemma_update_is_stored(
    network: Network,
    start: World,
    uid: Seq<u8>,
    password: Seq<u8>,
    state: StateModel,
    timestamp: u64,
    draw: UpdateDraw,
    update: Journey,
)
    requires
        start.system.wf(),
        start.system.idle(),
        start.network.ready(start.system.n),
        start == update.worlds[0],
        update.passes(network, 1),
        update.passes(network, 2),
        timestamp > state.timestamp,
        nothing_pending(start.network, start.system.n, RecordIdModel::Root(uid)),
        session_is_fresh(start.network, start.system.n, update_binding(draw, uid)),
        update_is_acceptable(
            start.network,
            start.system.n,
            uid,
            password,
            state,
            timestamp,
            draw,
            update.events[1].clock,
        ),
        forall|i: int|
            #![trigger start.network.providers[i]]
            0 <= i < start.system.n ==> records(start.network, i).roots.contains_key(uid)
                && records(start.network, i).roots[uid].timestamp == state.timestamp,
        forall|i: int|
            #![trigger signed_update(uid, password, state, timestamp, draw, i)]
            1 <= i <= start.system.n ==> sound_update(
                signed_update(uid, password, state, timestamp, draw, i),
                state.ssk,
            ),
        update.steps[0] == run(
            StageKind::ProviderPrepare,
            update_messages(start.system.n, uid, password, state, timestamp, draw),
            Policy::All,
            false,
            ProgressModel::Preparing {
                sid: draw.sid,
                phase: Phase::PasswordUpdate,
                records: root_records(start.system.n, uid),
                change: None,
            },
        ),
    ensures
        update.steps[2] == StepModel::Done(Ok(())),
        update.worlds[2].system == start.system,
        update_is_in_place(
            start.network,
            update.worlds[2].network,
            start.system.n,
            uid,
            password,
            state,
            timestamp,
            draw,
        ),
{
    let n = start.system.n;
    let prepare = update.events[1];
    let prepared = update.worlds[1];
    let requests = update_messages(n, uid, password, state, timestamp, draw);
    let finals = final_messages(draw.sid, Phase::PasswordUpdate, root_records(n, uid), true);
    assert(in_turn(requests));
    assert(in_turn(finals));
    lemma_delivered_in_turn(start, update.steps[0], prepare, prepared, update.steps[1], n);
    assert forall|i: int| #![trigger prepared.network.providers[i]] 0 <= i < n implies {
        let request = signed_update(uid, password, state, timestamp, draw, i + 1);
        let node = start.network.providers[i];
        &&& node_answer(node, requests[i].1, prepare.clock) == Ok::<ReplyModel, Seq<char>>(
            ReplyModel::Ack(true),
        )
        &&& awaits_store(prepared.network.providers[i], finals[i].1)
        &&& update_arrived(
            node,
            stored_node(prepared.network.providers[i], finals[i].1),
            uid,
            request,
        )
    } by {
        let request = signed_update(uid, password, state, timestamp, draw, i + 1);
        assert(sound_update(request, state.ssk));
        assert(start.network.providers[i] is Provider);
        assert(!records(start.network, i).completed.contains_key(update_binding(draw, uid)));
        lemma_update_arrives(start.network.providers[i], request, state.ssk, prepare.clock);
        assert(requests[i].1 == RequestModel::Up(UpRequestModel::PasswordUpdate(request)));
    }
    assert forall|i: int| #![trigger requests[i]] 0 <= i < n implies node_answer(
        start.network.node(requests[i].0),
        requests[i].1,
        prepare.clock,
    ) == Ok::<ReplyModel, Seq<char>>(ReplyModel::Ack(true)) by {
        assert(start.network.node(requests[i].0) == start.network.providers[i]);
        assert(awaits_store(prepared.network.providers[i], finals[i].1));
    }
    lemma_delivered_acknowledgements(
        start,
        update.steps[0],
        prepare,
        prepared,
        update.steps[1],
    );
    assert(partly_stored(prepared.network, prepared.network, n, finals));
    lemma_delivered_finalization(
        prepared.network,
        n,
        finals,
        prepared,
        update.steps[1],
        update.events[2],
        update.worlds[2],
        update.steps[2],
    );
    let stored = update.worlds[2].network;
    assert forall|i: int| #![trigger stored.providers[i]] 0 <= i < n implies update_arrived(
        start.network.providers[i],
        stored.providers[i],
        uid,
        signed_update(uid, password, state, timestamp, draw, i + 1),
    ) && stored.providers[i] is Provider by {
        assert(awaits_store(prepared.network.providers[i], finals[i].1));
    }
}

/// A password update, then an identification with the new password, gives the same keys
/// with the new timestamp, which is the client's time or the next moment after the old
/// timestamp if that is later. An identification with any other password, the old one too,
/// gives what the new ciphertext opens to under the key of that password with the new PRF
/// key, and is refused exactly where it does not open. At every provider ciphertext, share
/// and timestamp are new and the verification key is as it was; accounts and the login
/// server are untouched. The session is fresh, and no blinding is zero.
#[verifier::rlimit(30)]
pub proof fn law_password_update_then_identification(
    start: World,
    uid: Seq<u8>,
    password: Seq<u8>,
    new_password: Seq<u8>,
    cid: Seq<u8>,
    coefficients: Seq<int>,
    state: StateModel,
    timestamp: u64,
    update: Journey,
    requirement: Requirement,
    reading: Journey,
    other_password: Seq<u8>,
    other: Journey,
)
    requires
        start.system.wf(),
        start.system.idle(),
        start.network.ready(start.system.n),
        root_is_held(start.network, start.system.n, uid, cid, state.timestamp, coefficients),
        are_coefficients(coefficients, start.system.t),
        root_opens(cid, password, coefficients[0], state),
        nothing_pending(start.network, start.system.n, RecordIdModel::Root(uid)),
        start.system.rng.scalar() != 0,
        begins(
            start.system,
            uid,
            password,
            Requirement::AllProviders,
            GoalModel::ChangePassword { uid, password: new_password },
            update.system,
            update.step,
        ),
        update.is_delivered(start.network, 3),
        next_timestamp(state.timestamp, update.events[0].now) == Some(timestamp),
        ({
            let draw = update_draw(update.system.rng, start.system.t as nat);
            &&& session_is_fresh(start.network, start.system.n, update_binding(draw, uid))
            &&& update_is_acceptable(
                start.network,
                start.system.n,
                uid,
                new_password,
                state,
                timestamp,
                draw,
                update.events[1].clock,
            )
        }),
        update.client().rng.scalar() != 0,
        identifies(
            update.client(),
            uid,
            new_password,
            requirement,
            GoalModel::Report,
            reading.system,
            reading.step,
        ),
        reading.is_delivered(update.network(), 1),
        reading.client().rng.scalar() != 0,
        identifies(
            reading.client(),
            uid,
            other_password,
            requirement,
            GoalModel::Report,
            other.system,
            other.step,
        ),
        other.is_delivered(reading.network(), 1),
    ensures
        update.outcome() == StepModel::Done(Ok(())),
        update_is_in_place(
            start.network,
            update.network(),
            start.system.n,
            uid,
            new_password,
            state,
            timestamp,
            update_draw(update.system.rng, start.system.t as nat),
        ),
        timestamp > state.timestamp,
        timestamp == update.events[0].now || timestamp == state.timestamp + 1,
        timestamp >= update.events[0].now,
        reading.outcome() == StepModel::Identified(Ok(StateModel { timestamp, ..state })),
        reading.network() == update.network(),
        ({
            let draw = update_draw(update.system.rng, start.system.t as nat);
            let new_cid = signed_update(uid, new_password, state, timestamp, draw, 1).cid_new;
            let key = password_key(other_password, draw.coeffs[0]);
            &&& other.outcome() == StepModel::Identified(state_in_root(key, new_cid, timestamp))
            &&& opened(key, Seq::empty(), new_cid) is None <==> other.outcome()
                == StepModel::Identified(Err("root decryption failed"@))
        }),
        other.network() == update.network(),
{
    let n = start.system.n;
    let t = start.system.t;
    let draw = update_draw(update.system.rng, t as nat);
    law_password_update_succeeds(
        start,
        uid,
        password,
        new_password,
        cid,
        coefficients,
        state,
        timestamp,
        update,
    );
    let new_cid = signed_update(uid, new_password, state, timestamp, draw, 1).cid_new;
    assert(root_is_held(update.network(), n, uid, new_cid, timestamp, draw.coeffs));
    law_drawn_polynomials_are_valid(update.system.rng, n as nat, t as nat);
    assert(reading.passes(update.network(), 0));
    law_identification_reads_the_root(
        update.worlds.last(),
        uid,
        new_password,
        requirement,
        GoalModel::Report,
        new_cid,
        draw.coeffs,
        StateModel { timestamp, ..state },
        reading,
    );
    assert(other.passes(reading.network(), 0));
    law_identification_evaluates_the_password(
        reading.worlds.last(),
        uid,
        other_password,
        requirement,
        GoalModel::Report,
        new_cid,
        timestamp,
        draw.coeffs,
        other,
    );
}

/// After a password update, a phase that begins with an identification under any password,
/// the old one too, is refused exactly where the new ciphertext does not open under the key
/// of that password with the new PRF key: it ends behind its first stage, with every node
/// as it was. The session of the update is fresh, and no blinding is zero.
#[verifier::rlimit(30)]
pub proof fn law_password_update_then_other_password(
    start: World,
    uid: Seq<u8>,
    password: Seq<u8>,
    new_password: Seq<u8>,
    cid: Seq<u8>,
    coefficients: Seq<int>,
    state: StateModel,
    timestamp: u64,
    update: Journey,
    other_password: Seq<u8>,
    requirement: Requirement,
    goal: GoalModel,
    attempt: Journey,
)
    requires
        start.system.wf(),
        start.system.idle(),
        start.network.ready(start.system.n),
        root_is_held(start.network, start.system.n, uid, cid, state.timestamp, coefficients),
        are_coefficients(coefficients, start.system.t),
        root_opens(cid, password, coefficients[0], state),
        nothing_pending(start.network, start.system.n, RecordIdModel::Root(uid)),
        start.system.rng.scalar() != 0,
        begins(
            start.system,
            uid,
            password,
            Requirement::AllProviders,
            GoalModel::ChangePassword { uid, password: new_password },
            update.system,
            update.step,
        ),
        update.is_delivered(start.network, 3),
        next_timestamp(state.timestamp, update.events[0].now) == Some(timestamp),
        ({
            let draw = update_draw(update.system.rng, start.system.t as nat);
            &&& session_is_fresh(start.network, start.system.n, update_binding(draw, uid))
            &&& update_is_acceptable(
                start.network,
                start.system.n,
                uid,
                new_password,
                state,
                timestamp,
                draw,
                update.events[1].clock,
            )
        }),
        update.client().rng.scalar() != 0,
        begins(
            update.client(),
            uid,
            other_password,
            requirement,
            goal,
            attempt.system,
            attempt.step,
        ),
        attempt.passes(update.network(), 0),
    ensures
        attempt.worlds[0].network == update.network(),
        ({
            let draw = update_draw(update.system.rng, start.system.t as nat);
            let new_cid = signed_update(uid, new_password, state, timestamp, draw, 1).cid_new;
            let key = password_key(other_password, draw.coeffs[0]);
            let result = state_in_root(key, new_cid, timestamp);
            &&& (attempt.worlds[0].system, attempt.steps[0]) == after_identification(
                attempt.system,
                result,
                goal,
                attempt.events[0].now,
            )
            &&& opened(key, Seq::empty(), new_cid) is None <==> result is Err
            &&& opened(key, Seq::empty(), new_cid) is None ==> is_refused_password(attempt, goal)
        }),
{
    let n = start.system.n;
    let t = start.system.t;
    let draw = update_draw(update.system.rng, t as nat);
    law_password_update_succeeds(
        start,
        uid,
        password,
        new_password,
        cid,
        coefficients,
        state,
        timestamp,
        update,
    );
    let new_cid = signed_update(uid, new_password, state, timestamp, draw, 1).cid_new;
    assert(root_is_held(update.network(), n, uid, new_cid, timestamp, draw.coeffs));
    law_drawn_polynomials_are_valid(update.system.rng, n as nat, t as nat);
    law_identification_evaluates_the_password(
        update.worlds.last(),
        uid,
        other_password,
        requirement,
        goal,
        new_cid,
        timestamp,
        draw.coeffs,
        attempt,
    );
}

/// A provider that a Store has reached, once or more often.
pub open spec fn stored_node(node: NodeModel, store: RequestModel) -> NodeModel {
    node_next(node, store, 0)
}

/// A provider can take a Store: its transaction is pending.
pub open spec fn awaits_store(node: NodeModel, store: RequestModel) -> bool {
    &&& node is Provider && node->upspa.wf()
    &&& store matches RequestModel::Up(UpRequestModel::Finalize { binding, store: true })
        && node->upspa.is_pending(binding)
}

/// Store takes effect once: repeated, it is acknowledged again and changes nothing.
pub proof fn law_store_takes_effect_once(node: NodeModel, store: RequestModel, clock: u64)
    requires
        awaits_store(node, store),
    ensures
        node_next(node, store, clock) == stored_node(node, store),
        node_next(stored_node(node, store), store, clock) == stored_node(node, store),
        node_answer(node, store, clock) == Ok::<ReplyModel, Seq<char>>(ReplyModel::Ack(true)),
        node_answer(stored_node(node, store), store, clock) == Ok::<ReplyModel, Seq<char>>(
            ReplyModel::Ack(true),
        ),
{
    let binding = store->Up_0->Finalize_binding;
    assert(fits_record(binding.record, node->upspa.pending[binding.record]));
    law_finalization_can_be_repeated(node->upspa, binding, true, true);
}

/// Each provider is as it was when its transaction was pending, or has stored it.
pub open spec fn partly_stored(
    prepared: Network,
    network: Network,
    n: int,
    finals: Seq<(Target, RequestModel)>,
) -> bool {
    &&& network.providers.len() == n
    &&& network.login == prepared.login
    &&& forall|i: int|
        #![trigger network.providers[i]]
        0 <= i < n ==> network.providers[i] == prepared.providers[i] || network.providers[i]
            == stored_node(prepared.providers[i], finals[i].1)
}

/// Every provider has stored its transaction.
pub open spec fn all_stored(
    prepared: Network,
    network: Network,
    n: int,
    finals: Seq<(Target, RequestModel)>,
) -> bool {
    &&& network.providers.len() == n
    &&& network.login == prepared.login
    &&& forall|i: int|
        #![trigger network.providers[i]]
        0 <= i < n ==> network.providers[i] == stored_node(prepared.providers[i], finals[i].1)
}

/// Every provider awaits its Store.
pub open spec fn all_await_store(
    prepared: Network,
    n: int,
    finals: Seq<(Target, RequestModel)>,
) -> bool {
    &&& prepared.providers.len() == n
    &&& finals.len() == n
    &&& in_turn(finals)
    &&& forall|i: int|
        #![trigger prepared.providers[i]]
        0 <= i < n ==> awaits_store(prepared.providers[i], finals[i].1)
}

/// Whatever is lost of a finalization that stores, each provider is still as it was or has
/// stored.
pub proof fn lemma_lost_finalization(
    prepared: Network,
    n: int,
    finals: Seq<(Target, RequestModel)>,
    world: World,
    step: StepModel,
    event: Event,
    next: World,
    further: StepModel,
)
    requires
        all_await_store(prepared, n, finals),
        partly_stored(prepared, world.network, n, finals),
        leads_to(world, step, event, next, further),
        step->Run_0.requests == finals,
    ensures
        partly_stored(prepared, next.network, n, finals),
{
    lemma_network_in_turn(world.network, finals, event);
    assert forall|i: int| #![trigger next.network.providers[i]] 0 <= i < n implies (
    next.network.providers[i] == prepared.providers[i] || next.network.providers[i] == stored_node(
        prepared.providers[i],
        finals[i].1,
    )) by {
        law_store_takes_effect_once(prepared.providers[i], finals[i].1, event.clock);
        assert(world.network.providers[i] == prepared.providers[i] || world.network.providers[i]
            == stored_node(prepared.providers[i], finals[i].1));
    }
}

/// A finalization that stores and is delivered ends with every provider stored and every
/// acknowledgement, wherever it was stored before.
pub proof fn lemma_delivered_finalization(
    prepared: Network,
    n: int,
    finals: Seq<(Target, RequestModel)>,
    world: World,
    step: StepModel,
    event: Event,
    next: World,
    further: StepModel,
)
    requires
        all_await_store(prepared, n, finals),
        partly_stored(prepared, world.network, n, finals),
        passes_to(world, step, event, next, further),
        step->Run_0.requests == finals,
        step->Run_0.policy == Policy::All,
    ensures
        all_stored(prepared, next.network, n, finals),
        acknowledged(event.end) is Ok,
{
    lemma_delivered_in_turn(world, step, event, next, further, n);
    assert forall|i: int| #![trigger finals[i]] 0 <= i < finals.len() implies node_answer(
        world.network.node(finals[i].0),
        finals[i].1,
        event.clock,
    ) == Ok::<ReplyModel, Seq<char>>(ReplyModel::Ack(true)) by {
        law_store_takes_effect_once(prepared.providers[i], finals[i].1, event.clock);
        assert(world.network.node(finals[i].0) == world.network.providers[i]);
    }
    lemma_delivered_acknowledgements(world, step, event, next, further);
    assert forall|i: int| #![trigger next.network.providers[i]] 0 <= i < n implies next.network.providers[i]
        == stored_node(prepared.providers[i], finals[i].1) by {
        law_store_takes_effect_once(prepared.providers[i], finals[i].1, event.clock);
        assert(world.network.providers[i] == prepared.providers[i] || world.network.providers[i]
            == stored_node(prepared.providers[i], finals[i].1));
    }
}

} // verus!
