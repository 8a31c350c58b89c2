//! What a benchmarked phase does to nodes without records once its fixture has run: every
//! phase takes effect, and each its own.

use vstd::prelude::*;

use vstd::bytes::spec_u64_to_le_bytes;
use vstd::utf8::encode_utf8;

use crate::account_journeys::{
    account_is_held, account_is_writable, account_record, law_registration_succeeds,
    law_secret_update_succeeds, law_stored_account_authenticates,
};
use crate::accounts::{account_opens, written_ciphertext, AccountModel, Names};
use crate::benchmark::{bench_names, bench_new_password, bench_password, bench_uid, invokes};
use crate::client::{root_opens, setup_root, StateModel};
use crate::course::{Journey, Network, World};
use crate::crypto::{account_address, opened, password_key, vinfo};
use crate::flow::{
    account_draw, are_coefficients, begins, setup_draw, update_draw, GoalModel, Requirement,
    StepModel,
};
use crate::interpolation::{evaluate, order};
use crate::journeys::{
    law_password_update_succeeds, law_setup_succeeds, lemma_setup_holds_root, nothing_pending,
    records, root_is_held, session_is_fresh, setup_is_in_place, update_binding,
    update_is_acceptable, verifiers,
};
use crate::login_server::holds;
use crate::messages::{BindingModel, Phase, Protocol, RecordIdModel, RootModel};
use crate::password::{law_timestamps_move_forward, next_timestamp, signed_update};
use crate::provider::{distance, PendingModel};
use crate::provider_laws::usable_root;
use crate::round_trip::law_drawn_polynomials_are_valid;
use crate::scalar::scalar_bytes;
use crate::signature::{commits_to_identity, ed25519_key_valid, ed25519_public};
use crate::tspa_journeys::law_tspa_registration_then_authentication;
use crate::wire::labelled_pair;

verus! {

/// The providers `1..=n` and a login server, all without records.
pub open spec fn is_new(network: Network, n: int) -> bool {
    &&& network.ready(n)
    &&& verifiers(network) == Map::<Seq<u8>, Seq<u8>>::empty()
    &&& forall|i: int|
        #![trigger network.providers[i]]
        0 <= i < n ==> {
            &&& records(network, i).roots == Map::<Seq<u8>, RootModel>::empty()
            &&& records(network, i).accounts == Map::<Seq<u8>, Seq<u8>>::empty()
            &&& records(network, i).pending == Map::<RecordIdModel, PendingModel>::empty()
            &&& records(network, i).completed == Map::<BindingModel, bool>::empty()
            &&& network.providers[i]->tspa.record_db == Map::<Seq<u8>, Seq<u8>>::empty()
        }
}

/// User, login server and login name of the benchmark.
pub open spec fn benchmark_names() -> Names {
    Names {
        uid: encode_utf8("user123"@),
        ls: encode_utf8("LS1"@),
        login_uid: encode_utf8("stable-login-user"@),
    }
}

/// Every provider has a root of the benchmark's user with the drawn verification key, its
/// share of the drawn polynomial, and one ciphertext of the drawn keys under the key of the
/// benchmark's password.
pub open spec fn user_is_set_up(start: World, after: Network, timestamp: u64) -> bool {
    let draw = setup_draw(start.system.rng, start.system.t as nat);
    let uid = encode_utf8("user123"@);
    let password = encode_utf8("benchmark password"@);
    forall|i: int|
        #![trigger after.providers[i]]
        0 <= i < start.system.n ==> {
            let root = records(after, i).roots[uid];
            &&& records(after, i).roots.contains_key(uid)
            &&& root.uid == uid
            &&& root.timestamp == timestamp
            &&& root.svk == ed25519_public(draw.ssk)
            &&& root.share == scalar_bytes(evaluate(draw.coeffs, i + 1) % order())
            &&& opened(password_key(password, draw.coeffs[0]), Seq::empty(), root.cid) == Some(
                draw.ssk + draw.rsp + draw.k0,
            )
        }
}

/// Every provider has, at its own address, one ciphertext of a secret and a counter for the
/// benchmark's user and login server, and the login server has the secret's verifier.
pub open spec fn account_is_set_up(
    start: World,
    after: Network,
    secret: Seq<u8>,
    counter: u64,
) -> bool {
    let draw = setup_draw(start.system.rng, start.system.t as nat);
    let names = benchmark_names();
    &&& verifiers(after).contains_pair(names.login_uid, vinfo(secret, names.ls))
    &&& forall|i: int|
        #![trigger after.providers[i]]
        0 <= i < start.system.n ==> {
            let address = account_address(draw.rsp, names.ls, (i + 1) as u32);
            &&& records(after, i).accounts.contains_key(address)
            &&& opened(
                draw.k0,
                labelled_pair("account"@, names.uid, names.ls),
                records(after, i).accounts[address],
            ) == Some(secret + spec_u64_to_le_bytes(counter))
        }
}

/// What the client and the nodes are like once the benchmark's user is set up.
spec fn after_setup(start: World, setup: Journey) -> bool {
    let n = start.system.n;
    let uid = bench_uid();
    let draw = setup_draw(start.system.rng, start.system.t as nat);
    let state = StateModel { ssk: draw.ssk, rsp: draw.rsp, k0: draw.k0, timestamp: 0 };
    let cid = setup_root(uid, bench_password(), draw, 1).cid;
    &&& setup.client().wf()
    &&& setup.client().idle()
    &&& setup.client().n == n
    &&& setup.client().t == start.system.t
    &&& setup.network().ready(n)
    &&& setup.network().login == start.network.login
    &&& root_is_held(setup.network(), n, uid, cid, 0, draw.coeffs)
    &&& are_coefficients(draw.coeffs, start.system.t)
    &&& root_opens(cid, bench_password(), draw.coeffs[0], state)
    &&& forall|i: int|
        #![trigger setup.network().providers[i]]
        0 <= i < n ==> {
            let provider = records(setup.network(), i);
            &&& provider.accounts == Map::<Seq<u8>, Seq<u8>>::empty()
            &&& provider.pending == Map::<RecordIdModel, PendingModel>::empty()
            &&& forall|binding: BindingModel|
                #![trigger provider.completed.contains_key(binding)]
                provider.completed.contains_key(binding) ==> binding.phase == Phase::Setup
        }
}

/// A benchmarked setup on new nodes succeeds and hands every provider its root.
pub proof fn law_benchmarked_setup(start: World, setup: Journey)
    requires
        start.system.wf(),
        start.system.idle(),
        is_new(start.network, start.system.n),
        invokes(start.system, Protocol::UpSPA, Phase::Setup, setup.system, setup.step),
        setup.is_delivered(start.network, 2),
    ensures
        setup.outcome() == StepModel::Done(Ok(())),
        user_is_set_up(start, setup.network(), 0),
        setup.network().login == start.network.login,
{
    lemma_setup(start, setup);
    let n = start.system.n;
    let draw = setup_draw(start.system.rng, start.system.t as nat);
    let after = setup.network();
    assert forall|i: int| #![trigger after.providers[i]] 0 <= i < n implies {
        let root = records(after, i).roots[bench_uid()];
        &&& records(after, i).roots.contains_key(bench_uid())
        &&& root == setup_root(bench_uid(), bench_password(), draw, i + 1)
    } by {
        assert(start.network.providers[i] is Provider);
    }
}

proof fn lemma_setup(start: World, setup: Journey)
    requires
        start.system.wf(),
        start.system.idle(),
        is_new(start.network, start.system.n),
        invokes(start.system, Protocol::UpSPA, Phase::Setup, setup.system, setup.step),
        setup.is_delivered(start.network, 2),
    ensures
        setup.outcome() == StepModel::Done(Ok(())),
        after_setup(start, setup),
        setup_is_in_place(
            start.network,
            setup.network(),
            start.system.n,
            bench_uid(),
            bench_password(),
            setup_draw(start.system.rng, start.system.t as nat),
        ),
{
    let n = start.system.n;
    let uid = bench_uid();
    let draw = setup_draw(start.system.rng, start.system.t as nat);
    let state = StateModel { ssk: draw.ssk, rsp: draw.rsp, k0: draw.k0, timestamp: 0 };
    let cid = setup_root(uid, bench_password(), draw, 1).cid;
    law_setup_succeeds(start, uid, bench_password(), setup);
    lemma_setup_holds_root(start.network, setup.network(), n, uid, bench_password(), draw);
    law_drawn_polynomials_are_valid(start.system.rng, n as nat, start.system.t as nat);
    assert(root_opens(cid, bench_password(), draw.coeffs[0], state));
    assert forall|i: int| #![trigger setup.network().providers[i]] 0 <= i < n implies {
        let provider = records(setup.network(), i);
        &&& provider.accounts == Map::<Seq<u8>, Seq<u8>>::empty()
        &&& provider.pending == Map::<RecordIdModel, PendingModel>::empty()
        &&& forall|binding: BindingModel|
            #![trigger provider.completed.contains_key(binding)]
            provider.completed.contains_key(binding) ==> binding.phase == Phase::Setup
    } by {
        assert(start.network.providers[i] is Provider);
    }
}

/// What the client and the nodes are like once the benchmark's account is registered.
spec fn after_registration(start: World, setup: Journey, registration: Journey) -> bool {
    let n = start.system.n;
    let uid = bench_uid();
    let names = bench_names();
    let draw = setup_draw(start.system.rng, start.system.t as nat);
    let cid = setup_root(uid, bench_password(), draw, 1).cid;
    let secret = account_draw(registration.system.rng);
    let ciphertext = written_ciphertext(uid, names.ls, draw.k0, 0, secret);
    &&& registration.client().wf()
    &&& registration.client().idle()
    &&& registration.client().n == n
    &&& registration.client().t == start.system.t
    &&& registration.network().ready(n)
    &&& root_is_held(registration.network(), n, uid, cid, 0, draw.coeffs)
    &&& account_is_held(registration.network(), n, draw.rsp, names.ls, ciphertext)
    &&& account_opens(ciphertext, draw.k0, uid, names.ls, secret.secret, 0)
    &&& holds(
        verifiers(registration.network()),
        names.login_uid,
        vinfo(secret.secret, names.ls),
    )
    &&& forall|i: int|
        #![trigger registration.network().providers[i]]
        0 <= i < n ==> {
            let provider = records(registration.network(), i);
            &&& provider.pending == Map::<RecordIdModel, PendingModel>::empty()
            &&& provider.roots == records(setup.network(), i).roots
            &&& forall|binding: BindingModel|
                #![trigger provider.completed.contains_key(binding)]
                provider.completed.contains_key(binding) ==> binding.phase == Phase::Setup
                    || binding.phase == Phase::Registration
        }
}

proof fn lemma_registration(start: World, setup: Journey, registration: Journey)
    requires
        start.system.wf(),
        verifiers(start.network) == Map::<Seq<u8>, Seq<u8>>::empty(),
        after_setup(start, setup),
        setup.client().rng.scalar() != 0,
        invokes(
            setup.client(),
            Protocol::UpSPA,
            Phase::Registration,
            registration.system,
            registration.step,
        ),
        registration.is_delivered(setup.network(), 4),
    ensures
        registration.outcome() == StepModel::Done(Ok(())),
        after_registration(start, setup, registration),
{
    let n = start.system.n;
    let uid = bench_uid();
    let names = bench_names();
    let draw = setup_draw(start.system.rng, start.system.t as nat);
    let state = StateModel { ssk: draw.ssk, rsp: draw.rsp, k0: draw.k0, timestamp: 0 };
    let cid = setup_root(uid, bench_password(), draw, 1).cid;
    let world = setup.worlds.last();
    let sid = account_draw(registration.system.rng).sid;
    assert(account_is_writable(world.network, n, state.rsp, names.ls, None, sid)) by {
        assert forall|i: int| #![trigger world.network.providers[i]] 0 <= i < n implies {
            let provider = records(world.network, i);
            let record = account_record(state.rsp, names.ls, i);
            &&& !provider.pending.contains_key(record)
            &&& !provider.completed.contains_key(
                BindingModel { sid, phase: Phase::Registration, record },
            )
            &&& !provider.accounts.contains_key(
                account_address(state.rsp, names.ls, (i + 1) as u32),
            )
        } by {
            assert(setup.network().providers[i] is Provider);
        }
    }
    assert(begins(
        world.system,
        uid,
        bench_password(),
        Requirement::AllProviders,
        GoalModel::Register(names),
        registration.system,
        registration.step,
    ));
    law_registration_succeeds(
        world,
        names,
        bench_password(),
        cid,
        draw.coeffs,
        state,
        registration,
    );
    assert forall|i: int| #![trigger registration.network().providers[i]] 0 <= i < n implies {
        let provider = records(registration.network(), i);
        &&& provider.pending == Map::<RecordIdModel, PendingModel>::empty()
        &&& provider.roots == records(setup.network(), i).roots
        &&& forall|binding: BindingModel|
            #![trigger provider.completed.contains_key(binding)]
            provider.completed.contains_key(binding) ==> binding.phase == Phase::Setup
                || binding.phase == Phase::Registration
    } by {
        assert(setup.network().providers[i] is Provider);
    }
}

/// A benchmarked registration, after its fixture on new nodes, succeeds: every provider has
/// a ciphertext of the drawn secret with counter zero, the login server has its verifier,
/// and the roots are as they were. No blinding is zero.
pub proof fn law_benchmarked_registration(start: World, setup: Journey, registration: Journey)
    requires
        start.system.wf(),
        start.system.idle(),
        is_new(start.network, start.system.n),
        invokes(start.system, Protocol::UpSPA, Phase::Setup, setup.system, setup.step),
        setup.is_delivered(start.network, 2),
        setup.client().rng.scalar() != 0,
        invokes(
            setup.client(),
            Protocol::UpSPA,
            Phase::Registration,
            registration.system,
            registration.step,
        ),
        registration.is_delivered(setup.network(), 4),
    ensures
        registration.outcome() == StepModel::Done(Ok(())),
        account_is_set_up(
            start,
            registration.network(),
            account_draw(registration.system.rng).secret,
            0,
        ),
        user_is_set_up(start, registration.network(), 0),
{
    law_benchmarked_setup(start, setup);
    lemma_setup(start, setup);
    lemma_registration(start, setup, registration);
    assert forall|i: int| #![trigger registration.network().providers[i]] 0 <= i
        < start.system.n implies records(registration.network(), i).roots == records(
        setup.network(),
        i,
    ).roots by {
        assert(setup.network().providers[i] is Provider);
    }
}

/// A benchmarked login, after its fixture on new nodes, succeeds and changes no node. No
/// blinding is zero.
pub proof fn law_benchmarked_authentication(
    start: World,
    setup: Journey,
    registration: Journey,
    login: Journey,
)
    requires
        start.system.wf(),
        start.system.idle(),
        is_new(start.network, start.system.n),
        invokes(start.system, Protocol::UpSPA, Phase::Setup, setup.system, setup.step),
        setup.is_delivered(start.network, 2),
        setup.client().rng.scalar() != 0,
        invokes(
            setup.client(),
            Protocol::UpSPA,
            Phase::Registration,
            registration.system,
            registration.step,
        ),
        registration.is_delivered(setup.network(), 4),
        registration.client().rng.scalar() != 0,
        invokes(
            registration.client(),
            Protocol::UpSPA,
            Phase::Authentication,
            login.system,
            login.step,
        ),
        login.is_delivered(registration.network(), 3),
    ensures
        login.outcome() == StepModel::Done(Ok(())),
        login.network() == registration.network(),
{
    lemma_setup(start, setup);
    lemma_registration(start, setup, registration);
    let names = bench_names();
    let draw = setup_draw(start.system.rng, start.system.t as nat);
    let state = StateModel { ssk: draw.ssk, rsp: draw.rsp, k0: draw.k0, timestamp: 0 };
    let secret = account_draw(registration.system.rng);
    law_stored_account_authenticates(
        registration.worlds.last(),
        names,
        bench_password(),
        setup_root(bench_uid(), bench_password(), draw, 1).cid,
        draw.coeffs,
        state,
        AccountModel {
            secret: secret.secret,
            counter: 0,
            ciphertext: written_ciphertext(names.uid, names.ls, draw.k0, 0, secret),
        },
        login,
    );
}

/// A benchmarked secret update, after its fixture on new nodes, succeeds: every provider
/// has a ciphertext of the newly drawn secret with counter one in the place of the
/// registered one, and the login server has the verifier of the new secret in the place of
/// the old. No blinding is zero.
pub proof fn law_benchmarked_secret_update(
    start: World,
    setup: Journey,
    registration: Journey,
    update: Journey,
)
    requires
        start.system.wf(),
        start.system.idle(),
        is_new(start.network, start.system.n),
        invokes(start.system, Protocol::UpSPA, Phase::Setup, setup.system, setup.step),
        setup.is_delivered(start.network, 2),
        setup.client().rng.scalar() != 0,
        invokes(
            setup.client(),
            Protocol::UpSPA,
            Phase::Registration,
            registration.system,
            registration.step,
        ),
        registration.is_delivered(setup.network(), 4),
        registration.client().rng.scalar() != 0,
        invokes(
            registration.client(),
            Protocol::UpSPA,
            Phase::SecretUpdate,
            update.system,
            update.step,
        ),
        update.is_delivered(registration.network(), 5),
    ensures
        update.outcome() == StepModel::Done(Ok(())),
        account_is_set_up(
            start,
            update.network(),
            account_draw(update.system.rng).secret,
            1,
        ),
{
    lemma_setup(start, setup);
    lemma_registration(start, setup, registration);
    let n = start.system.n;
    let names = bench_names();
    let draw = setup_draw(start.system.rng, start.system.t as nat);
    let state = StateModel { ssk: draw.ssk, rsp: draw.rsp, k0: draw.k0, timestamp: 0 };
    let secret = account_draw(registration.system.rng);
    let account = AccountModel {
        secret: secret.secret,
        counter: 0,
        ciphertext: written_ciphertext(names.uid, names.ls, draw.k0, 0, secret),
    };
    let world = registration.worlds.last();
    let sid = account_draw(update.system.rng).sid;
    assert(account_is_writable(world.network, n, state.rsp, names.ls, Some(account), sid)) by {
        assert forall|i: int| #![trigger world.network.providers[i]] 0 <= i < n implies {
            let provider = records(world.network, i);
            let record = account_record(state.rsp, names.ls, i);
            &&& !provider.pending.contains_key(record)
            &&& !provider.completed.contains_key(
                BindingModel { sid, phase: Phase::SecretUpdate, record },
            )
            &&& provider.accounts.contains_pair(
                account_address(state.rsp, names.ls, (i + 1) as u32),
                account.ciphertext,
            )
        } by {
            assert(registration.network().providers[i] is Provider);
        }
    }
    assert(begins(
        world.system,
        names.uid,
        bench_password(),
        Requirement::AllProviders,
        GoalModel::Renew(names),
        update.system,
        update.step,
    ));
    law_secret_update_succeeds(
        world,
        names,
        bench_password(),
        setup_root(bench_uid(), bench_password(), draw, 1).cid,
        draw.coeffs,
        state,
        account,
        1,
        update,
    );
}

/// A benchmarked password update, after its fixture on new nodes, succeeds where the new
/// timestamp lies within every provider's clock window: every provider has a later
/// timestamp, its share of the newly drawn polynomial, and a ciphertext of the same keys
/// that opens under the key of the new password. The blinding is not zero, and no signature
/// commits to the identity.
pub proof fn law_benchmarked_password_update(start: World, setup: Journey, update: Journey)
    requires
        start.system.wf(),
        start.system.idle(),
        is_new(start.network, start.system.n),
        invokes(start.system, Protocol::UpSPA, Phase::Setup, setup.system, setup.step),
        setup.is_delivered(start.network, 2),
        setup.client().rng.scalar() != 0,
        invokes(
            setup.client(),
            Protocol::UpSPA,
            Phase::PasswordUpdate,
            update.system,
            update.step,
        ),
        update.is_delivered(setup.network(), 3),
        ({
            let timestamp = next_timestamp(0, update.events[0].now)->0;
            let keys = setup_draw(start.system.rng, start.system.t as nat);
            let state = StateModel { ssk: keys.ssk, rsp: keys.rsp, k0: keys.k0, timestamp: 0 };
            let draw = update_draw(update.system.rng, start.system.t as nat);
            forall|i: int|
                #![trigger start.network.providers[i]]
                0 <= i < start.system.n ==> {
                    let window = records(start.network, i).clock_window_ms;
                    &&& timestamp - update.events[1].clock <= window
                    &&& update.events[1].clock - timestamp <= window
                    &&& !commits_to_identity(
                        signed_update(
                            bench_uid(),
                            bench_new_password(),
                            state,
                            timestamp,
                            draw,
                            i + 1,
                        ).signature,
                    )
                }
        }),
    ensures
        update.outcome() == StepModel::Done(Ok(())),
        update.network().login == start.network.login,
        ({
            let keys = setup_draw(start.system.rng, start.system.t as nat);
            let draw = update_draw(update.system.rng, start.system.t as nat);
            let uid = encode_utf8("user123"@);
            let password = encode_utf8("updated benchmark password"@);
            forall|i: int|
                #![trigger update.network().providers[i]]
                0 <= i < start.system.n ==> {
                    let root = records(update.network(), i).roots[uid];
                    &&& records(update.network(), i).roots.contains_key(uid)
                    &&& root.timestamp > 0
                    &&& root.timestamp >= update.events[0].now
                    &&& root.svk == ed25519_public(keys.ssk)
                    &&& root.share == scalar_bytes(evaluate(draw.coeffs, i + 1) % order())
                    &&& opened(password_key(password, draw.coeffs[0]), Seq::empty(), root.cid)
                        == Some(keys.ssk + keys.rsp + keys.k0)
                }
        }),
{
    law_benchmarked_setup(start, setup);
    lemma_setup(start, setup);
    let n = start.system.n;
    let uid = bench_uid();
    let keys = setup_draw(start.system.rng, start.system.t as nat);
    let state = StateModel { ssk: keys.ssk, rsp: keys.rsp, k0: keys.k0, timestamp: 0 };
    let cid = setup_root(uid, bench_password(), keys, 1).cid;
    let draw = update_draw(update.system.rng, start.system.t as nat);
    let world = setup.worlds.last();
    let now = update.events[0].now;
    law_timestamps_move_forward(0, now);
    let timestamp = next_timestamp(0, now)->0;
    assert(session_is_fresh(world.network, n, update_binding(draw, uid))) by {
        assert forall|i: int| #![trigger world.network.providers[i]] 0 <= i < n implies !records(
            world.network,
            i,
        ).completed.contains_key(update_binding(draw, uid)) by {
            assert(setup.network().providers[i] is Provider);
        }
    }
    assert(nothing_pending(world.network, n, RecordIdModel::Root(uid))) by {
        assert forall|i: int| #![trigger world.network.providers[i]] 0 <= i < n implies !records(
            world.network,
            i,
        ).pending.contains_key(RecordIdModel::Root(uid)) by {
            assert(setup.network().providers[i] is Provider);
        }
    }
    assert(ed25519_key_valid(ed25519_public(keys.ssk))) by {
        assert(usable_root(
            setup_root(uid, bench_password(), keys, 1),
        ));
    }
    assert(update_is_acceptable(
        world.network,
        n,
        uid,
        bench_new_password(),
        state,
        timestamp,
        draw,
        update.events[1].clock,
    )) by {
        assert forall|i: int| #![trigger world.network.providers[i]] 0 <= i < n implies {
            let provider = records(world.network, i);
            &&& provider.roots[uid].svk == ed25519_public(keys.ssk)
            &&& distance(timestamp, update.events[1].clock)
                <= provider.clock_window_ms
            &&& !commits_to_identity(
                signed_update(
                    uid,
                    bench_new_password(),
                    state,
                    timestamp,
                    draw,
                    i + 1,
                ).signature,
            )
        } by {
            assert(setup.network().providers[i] is Provider);
            assert(start.network.providers[i] is Provider);
        }
    }
    assert(begins(
        world.system,
        uid,
        bench_password(),
        Requirement::AllProviders,
        GoalModel::ChangePassword { uid, password: bench_new_password() },
        update.system,
        update.step,
    ));
    law_password_update_succeeds(
        world,
        uid,
        bench_password(),
        bench_new_password(),
        cid,
        keys.coeffs,
        state,
        timestamp,
        update,
    );
    assert forall|i: int| #![trigger update.network().providers[i]] 0 <= i < n implies {
        let root = records(update.network(), i).roots[uid];
        &&& records(update.network(), i).roots.contains_key(uid)
        &&& root.timestamp > 0
        &&& root.timestamp >= now
        &&& root.svk == ed25519_public(keys.ssk)
        &&& root.share == scalar_bytes(evaluate(draw.coeffs, i + 1) % order())
        &&& opened(password_key(bench_new_password(), draw.coeffs[0]), Seq::empty(), root.cid)
            == Some(keys.ssk + keys.rsp + keys.k0)
    } by {
        assert(setup.network().providers[i] is Provider);
        let first = signed_update(uid, bench_new_password(), state, timestamp, draw, 1);
        let own = signed_update(uid, bench_new_password(), state, timestamp, draw, i + 1);
        assert(first.cid_new == own.cid_new);
    }
}

/// A benchmarked TSPA registration on new nodes, then a benchmarked TSPA login, succeeds.
/// The login changes no node. The blinding is not zero.
pub proof fn law_benchmarked_tspa(start: World, registration: Journey, login: Journey)
    requires
        start.system.wf(),
        is_new(start.network, start.system.n),
        invokes(
            start.system,
            Protocol::TSPA,
            Phase::Registration,
            registration.system,
            registration.step,
        ),
        registration.is_delivered(start.network, 2),
        registration.client().rng.scalar() != 0,
        invokes(
            registration.client(),
            Protocol::TSPA,
            Phase::Authentication,
            login.system,
            login.step,
        ),
        login.is_delivered(registration.network(), 2),
    ensures
        registration.outcome() == StepModel::Done(Ok(())),
        login.outcome() == StepModel::Done(Ok(())),
        login.network() == registration.network(),
{
    let names = bench_names();
    law_tspa_registration_then_authentication(
        start,
        names.uid,
        bench_password(),
        names.ls,
        names.login_uid,
        registration,
        login,
    );
}

} // verus!
