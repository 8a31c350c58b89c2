//! TSPA registration and authentication from start to end, on a network that delivers every
//! call.

use vstd::prelude::*;

use crate::agreement::{distinct_providers, provider_ids, Vote};
use crate::course::{
    in_turn, lemma_delivered_acknowledgements, lemma_delivered_in_turn, lemma_delivered_to_all,
    lemma_delivered_to_login_server, Journey, Network, World,
};
use crate::crypto::share_value;
use crate::crypto_tspa::{storage_address, tspa_point, tspa_vinfo};
use crate::flow::{
    ask_login_server, authenticates_tspa, registers_tspa, tspa_registration_step, ProgressModel,
    StepModel,
};
use crate::group::{point_decodes, point_mul};
use crate::journeys::{lemma_drawn_scalar, records, verifiers};
use crate::login_server::holds;
use crate::messages::{LsRequestModel, ReplyModel, RequestModel, TspaRequestModel};
use crate::provider::evaluates;
use crate::round_trip::{
    law_drawn_polynomials_are_valid, law_tspa_authentication_succeeds, lemma_sorted_replies,
    served_shares,
};
use crate::scalar::{is_canonical, scalar_bytes, scalar_value, values_of};
use crate::stage::all_acknowledged;
use crate::transport::{node_answer, NodeModel};
use crate::tspa_adapter::{
    first_fault, holds_share, reconstructed, registration_draw, registration_of, reply_fault,
    shares_open, RegistrationDraw, RegistrationModel,
};
use crate::tspa_client::{authenticate_messages, by_provider, register_messages};

verus! {

/// A TSPA registration under a free name, then a TSPA authentication with the same
/// password, succeeds. The authentication asks exactly the first providers, as many as the
/// threshold, all with one address and one blinded element, then the login server, and
/// changes no node. The records of UpSPA are untouched. The blinding is not zero.
pub proof fn law_tspa_registration_then_authentication(
    start: World,
    uid: Seq<u8>,
    password: Seq<u8>,
    ls: Seq<u8>,
    login_uid: Seq<u8>,
    registration: Journey,
    login: Journey,
)
    requires
        start.system.wf(),
        start.network.ready(start.system.n),
        !verifiers(start.network).contains_key(login_uid),
        registers_tspa(
            start.system,
            uid,
            password,
            ls,
            login_uid,
            registration.system,
            registration.step,
        ),
        registration.is_delivered(start.network, 2),
        registration.client().rng.scalar() != 0,
        authenticates_tspa(
            registration.client(),
            uid,
            password,
            ls,
            login_uid,
            login.system,
            login.step,
        ),
        login.is_delivered(registration.network(), 2),
    ensures
        registration.outcome() == StepModel::Done(Ok(())),
        registration.network().ready(start.system.n),
        forall|i: int|
            #![trigger registration.network().providers[i]]
            0 <= i < start.system.n ==> records(registration.network(), i) == records(
                start.network,
                i,
            ),
        login.step->Run_0.requests == authenticate_messages(
            start.system.t,
            storage_address(uid, ls),
            point_mul(tspa_point(password), registration.client().rng.scalar()),
        ),
        login.outcome() == StepModel::Done(Ok(())),
        login.network() == registration.network(),
{
    let (n, t) = (start.system.n, start.system.t);
    let draw = registration_draw(start.system.rng, n as nat, t as nat);
    law_drawn_polynomials_are_valid(start.system.rng, n as nat, t as nat);
    assert(registration.worlds.last() == registration.worlds[1]);
    assert(forall|i: int| #![trigger draw.keys[i]] 0 <= i < n ==> is_canonical(draw.keys[i]));
    lemma_tspa_registration(start, uid, password, ls, login_uid, n, draw, registration);
    assert(draw.coeffs[0] == registration_draw(start.system.rng, n as nat, t as nat).coeffs[0]);
    assert(is_canonical(draw.coeffs[0]));
    lemma_drawn_scalar(registration.client().rng);
    lemma_tspa_login(
        registration.worlds[1],
        uid,
        password,
        ls,
        login_uid,
        n,
        t,
        draw,
        login,
    );
}

/// Every provider holds its OPRF key and its ciphertext of one TSPA registration.
pub open spec fn tspa_is_held(network: Network, n: int, data: RegistrationModel) -> bool {
    forall|i: int|
        #![trigger network.providers[i]]
        0 <= i < n ==> {
            let tspa = network.providers[i]->tspa;
            &&& network.providers[i] is Provider
            &&& tspa.sp_id == i + 1
            &&& tspa.oprf_key == data.keys[i]
            &&& tspa.record_db.contains_pair(data.stor_uid, data.ciphertexts[i])
        }
}

/// A provider has taken in its part of a TSPA registration.
spec fn tspa_share_arrived(
    before: NodeModel,
    after: NodeModel,
    stor_uid: Seq<u8>,
    key: Seq<u8>,
    ciphertext: Seq<u8>,
) -> bool {
    &&& after is Provider
    &&& after->upspa == before->upspa
    &&& after->tspa.sp_id == before->tspa.sp_id
    &&& after->tspa.oprf_key == key
    &&& after->tspa.record_db.contains_pair(stor_uid, ciphertext)
}

proof fn lemma_tspa_registration(
    start: World,
    uid: Seq<u8>,
    password: Seq<u8>,
    ls: Seq<u8>,
    login_uid: Seq<u8>,
    n: int,
    draw: RegistrationDraw,
    registration: Journey,
)
    requires
        start.system.wf(),
        start.system.n == n,
        start.network.ready(n),
        !verifiers(start.network).contains_key(login_uid),
        draw.keys.len() == n && draw.ivs.len() == n,
        forall|i: int| #![trigger draw.keys[i]] 0 <= i < n ==> is_canonical(draw.keys[i]),
        shares_open(registration_of(uid, ls, password, draw), password, draw),
        registration.step == tspa_registration_step(
            registration_of(uid, ls, password, draw),
            login_uid,
        ),
        registration.is_delivered(start.network, 2),
    ensures
        ({
            let data = registration_of(uid, ls, password, draw);
            let after = registration.worlds[1].network;
            &&& registration.steps[1] == StepModel::Done(Ok(()))
            &&& registration.worlds[1].system == registration.system
            &&& after.providers.len() == n && after.login is LoginServer
            &&& holds(verifiers(after), login_uid, data.verifier)
            &&& tspa_is_held(after, n, data)
            &&& forall|i: int|
                #![trigger after.providers[i]]
                0 <= i < n ==> records(after, i) == records(start.network, i)
            &&& after.ready(n)
        }),
{
    let data = registration_of(uid, ls, password, draw);
    assert(registration.passes(start.network, 0) && registration.passes(start.network, 1));
    let begun = World { system: registration.system, network: start.network };
    let requests = register_messages(data);
    assert(requests.len() == n);
    assert(in_turn(requests));
    let (prepare, prepared) = (registration.events[0], registration.worlds[0]);
    let (first, second) = (registration.step, registration.steps[0]);
    lemma_delivered_in_turn(begun, first, prepare, prepared, second, n);
    assert forall|i: int| #![trigger prepared.network.providers[i]] 0 <= i < n implies node_answer(
        start.network.providers[i],
        requests[i].1,
        prepare.clock,
    ) == Ok::<ReplyModel, Seq<char>>(ReplyModel::Ack(true)) && tspa_share_arrived(
        start.network.providers[i],
        prepared.network.providers[i],
        data.stor_uid,
        draw.keys[i],
        data.ciphertexts[i],
    ) by {
        assert(start.network.providers[i] is Provider);
        assert(holds_share(
            data.ciphertexts[i],
            password,
            scalar_value(draw.keys[i]),
            share_value(values_of(draw.coeffs), i + 1),
        ));
        assert(is_canonical(draw.keys[i]));
    }
    assert forall|i: int| #![trigger requests[i]] 0 <= i < n implies node_answer(
        start.network.node(requests[i].0),
        requests[i].1,
        prepare.clock,
    ) == Ok::<ReplyModel, Seq<char>>(ReplyModel::Ack(true)) by {
        assert(start.network.node(requests[i].0) == start.network.providers[i]);
        assert(prepared.network.providers[i] is Provider);
    }
    lemma_delivered_acknowledgements(begun, first, prepare, prepared, second);
    let register = RequestModel::Ls(
        LsRequestModel::Register { uid: login_uid, verifier: data.verifier },
    );
    lemma_delivered_to_login_server(
        prepared,
        second,
        registration.events[1],
        registration.worlds[1],
        registration.steps[1],
        register,
    );
    let ack = seq![(0u32, ReplyModel::Ack(true))];
    assert(all_acknowledged(ack));
    let after = registration.worlds[1].network;
    assert forall|i: int| #![trigger after.providers[i]] 0 <= i < n implies tspa_share_arrived(
        start.network.providers[i],
        after.providers[i],
        data.stor_uid,
        draw.keys[i],
        data.ciphertexts[i],
    ) && start.network.providers[i] is Provider by {
        assert(prepared.network.providers[i] == after.providers[i]);
    }
}

/// The verifier that an authentication with a password shows the login server, given the
/// replies of the providers.
pub open spec fn shown_verifier(
    password: Seq<u8>,
    r: int,
    replies: Seq<Vote>,
    ls: Seq<u8>,
) -> Seq<u8> {
    tspa_vinfo(scalar_bytes(reconstructed(password, r, by_provider(replies))), ls)
}

proof fn lemma_no_fault(replies: Seq<Vote>)
    requires
        forall|k: int|
            #![trigger replies[k]]
            0 <= k < replies.len() ==> reply_fault(replies[k].1) is None,
    ensures
        first_fault(replies) is None,
    decreases replies.len(),
{
    if replies.len() > 0 {
        assert(reply_fault(replies[0].1) is None);
        let rest = replies.drop_first();
        assert forall|k: int| #![trigger rest[k]] 0 <= k < rest.len() implies reply_fault(rest[k].1)
            is None by {
            assert(rest[k] == replies[k + 1]);
        }
        lemma_no_fault(rest);
    }
}

/// Replies of distinct providers, none of them at fault, are not at fault when sorted.
proof fn lemma_sorted_without_fault(replies: Seq<Vote>)
    requires
        distinct_providers(replies),
        forall|k: int|
            #![trigger replies[k]]
            0 <= k < replies.len() ==> reply_fault(replies[k].1) is None,
    ensures
        provider_ids(replies).no_duplicates(),
        first_fault(by_provider(replies)) is None,
{
    assert forall|i: int, j: int|
        0 <= i < replies.len() && 0 <= j < replies.len() && i != j implies provider_ids(
        replies,
    )[i] != provider_ids(replies)[j] by {
        if i < j {
            assert(replies[i].0 != replies[j].0);
        } else {
            assert(replies[j].0 != replies[i].0);
        }
    }
    let sorted = by_provider(replies);
    lemma_sorted_replies(replies);
    assert forall|k: int| #![trigger sorted[k]] 0 <= k < sorted.len() implies reply_fault(
        sorted[k].1,
    ) is None by {
        assert(replies.contains(sorted[k]));
        let m = choose|m: int| 0 <= m < replies.len() && replies[m] == sorted[k];
        assert(reply_fault(replies[m].1) is None);
    }
    lemma_no_fault(sorted);
}

/// The first stage of an authentication with any password brings the replies of honest
/// providers, and changes no node.
proof fn lemma_tspa_served(
    start: World,
    uid: Seq<u8>,
    password: Seq<u8>,
    ls: Seq<u8>,
    login_uid: Seq<u8>,
    n: int,
    t: int,
    data: RegistrationModel,
    attempt: Journey,
)
    requires
        start.system.wf(),
        start.system.n == n && start.system.t == t,
        start.network.providers.len() == n,
        data.stor_uid == storage_address(uid, ls),
        data.keys.len() == n && data.ciphertexts.len() == n,
        tspa_is_held(start.network, n, data),
        authenticates_tspa(
            start.system,
            uid,
            password,
            ls,
            login_uid,
            attempt.system,
            attempt.step,
        ),
        attempt.passes(start.network, 0),
    ensures
        attempt.worlds[0].network.providers == start.network.providers,
        attempt.worlds[0].network.login == start.network.login,
        attempt.events[0].end matches Ok(replies) && replies.len() == t && distinct_providers(
            replies,
        ) && forall|k: int|
            #![trigger replies[k]]
            0 <= k < replies.len() ==> is_share_reply(
                replies[k],
                password,
                start.system.rng.scalar(),
                data,
            ),
{
    let rng = start.system.rng;
    let blinded = point_mul(tspa_point(password), rng.scalar());
    lemma_drawn_scalar(rng);
    let begun = World { system: attempt.system, network: start.network };
    let requests = authenticate_messages(t, data.stor_uid, blinded);
    let (event, next) = (attempt.events[0], attempt.worlds[0]);
    assert(attempt.step->Run_0.requests == requests);
    assert(in_turn(requests));
    assert forall|i: int| #![trigger requests[i]] 0 <= i < t implies {
        let node = start.network.node(requests[i].0);
        node_answer(node, requests[i].1, event.clock) is Ok
    } by {
        assert(start.network.node(requests[i].0) == start.network.providers[i]);
        assert(start.network.providers[i] is Provider);
    }
    lemma_delivered_to_all(begun, attempt.step, event, next, attempt.steps[0], t);
    let replies = event.end->Ok_0;
    assert forall|k: int| #![trigger replies[k]] 0 <= k < replies.len() implies is_share_reply(
        replies[k],
        password,
        rng.scalar(),
        data,
    ) by {
        let i = replies[k].0 - 1;
        assert(requests[i].1 == RequestModel::Tspa(
            TspaRequestModel::Authenticate { stor_uid: data.stor_uid, blinded },
        ));
        assert(start.network.providers[i] is Provider);
    }
    lemma_delivered_in_turn(begun, attempt.step, event, next, attempt.steps[0], n);
    assert(next.network.providers =~= start.network.providers) by {
        assert forall|i: int| 0 <= i < n implies next.network.providers[i]
            == start.network.providers[i] by {
            assert(start.network.providers[i] is Provider);
            if i < t {
                assert(requests[i].1 is Tspa);
            }
        }
    }
}

/// The reply of a provider that holds its part of a registration.
spec fn is_share_reply(
    vote: Vote,
    password: Seq<u8>,
    r: int,
    data: RegistrationModel,
) -> bool {
    &&& 1 <= vote.0 <= data.keys.len() && vote.0 <= data.ciphertexts.len()
    &&& vote.1 matches ReplyModel::TspaAuthentication { contribution, ciphertext } && ciphertext
        == data.ciphertexts[vote.0 - 1] && evaluates(
        contribution,
        point_mul(tspa_point(password), r),
        scalar_value(data.keys[vote.0 - 1]),
    )
}

/// Replies with the shares of one registration are replies of honest providers, none of
/// them at fault.
proof fn lemma_share_replies(
    replies: Seq<Vote>,
    password: Seq<u8>,
    r: int,
    data: RegistrationModel,
)
    requires
        distinct_providers(replies),
        point_decodes(tspa_point(password)),
        forall|i: int|
            #![trigger data.ciphertexts[i]]
            0 <= i < data.ciphertexts.len() ==> data.ciphertexts[i].len() == 48,
        forall|k: int|
            #![trigger replies[k]]
            0 <= k < replies.len() ==> is_share_reply(replies[k], password, r, data),
    ensures
        served_shares(replies, password, r, data.keys, data.ciphertexts),
        first_fault(by_provider(replies)) is None,
{
    assert forall|k: int| #![trigger replies[k]] 0 <= k < replies.len() implies reply_fault(
        replies[k].1,
    ) is None by {
        assert(is_share_reply(replies[k], password, r, data));
        assert(data.ciphertexts[replies[k].0 - 1].len() == 48);
    }
    lemma_sorted_without_fault(replies);
    assert forall|k: int| #![trigger replies[k]] 0 <= k < replies.len() implies is_share_reply(
        replies[k],
        password,
        r,
        data,
    ) by {}
}

/// An authentication with any password on providers that hold one registration: the first
/// stage brings the replies of honest providers, none of them at fault, and the login
/// server is shown the verifier that they give.
proof fn lemma_tspa_replies(
    start: World,
    uid: Seq<u8>,
    password: Seq<u8>,
    ls: Seq<u8>,
    login_uid: Seq<u8>,
    n: int,
    t: int,
    data: RegistrationModel,
    attempt: Journey,
)
    requires
        start.system.wf(),
        start.system.n == n && start.system.t == t,
        start.network.providers.len() == n,
        data.stor_uid == storage_address(uid, ls),
        data.keys.len() == n && data.ciphertexts.len() == n,
        forall|i: int|
            #![trigger data.ciphertexts[i]]
            0 <= i < n ==> data.ciphertexts[i].len() == 48,
        tspa_is_held(start.network, n, data),
        authenticates_tspa(
            start.system,
            uid,
            password,
            ls,
            login_uid,
            attempt.system,
            attempt.step,
        ),
        attempt.passes(start.network, 0),
    ensures
        attempt.worlds[0].network.providers == start.network.providers,
        attempt.worlds[0].network.login == start.network.login,
        attempt.worlds[0].system == attempt.system,
        attempt.events[0].end matches Ok(replies) && replies.len() == t && served_shares(
            replies,
            password,
            start.system.rng.scalar(),
            data.keys,
            data.ciphertexts,
        ) && first_fault(by_provider(replies)) is None && attempt.steps[0] == ask_login_server(
            RequestModel::Ls(
                LsRequestModel::Authenticate {
                    uid: login_uid,
                    verifier: shown_verifier(
                        password,
                        start.system.rng.scalar(),
                        replies,
                        ls,
                    ),
                },
            ),
            ProgressModel::Confirming,
        ),
{
    lemma_drawn_scalar(start.system.rng);
    lemma_tspa_served(start, uid, password, ls, login_uid, n, t, data, attempt);
    lemma_share_replies(
        attempt.events[0].end->Ok_0,
        password,
        start.system.rng.scalar(),
        data,
    );
}

/// The end of an authentication that shows the login server a verifier.
proof fn lemma_tspa_answer(
    start: World,
    login_uid: Seq<u8>,
    registered: Seq<u8>,
    shown: Seq<u8>,
    attempt: Journey,
)
    requires
        start.network.login is LoginServer,
        holds(verifiers(start.network), login_uid, registered),
        attempt.worlds[0].network.providers == start.network.providers,
        attempt.worlds[0].network.login == start.network.login,
        attempt.steps[0] == ask_login_server(
            RequestModel::Ls(
                LsRequestModel::Authenticate { uid: login_uid, verifier: shown },
            ),
            ProgressModel::Confirming,
        ),
        attempt.passes(start.network, 1),
    ensures
        attempt.worlds[1].network == start.network,
        attempt.worlds[1].system == attempt.worlds[0].system,
        attempt.steps[1] == StepModel::Done(
            if shown == registered {
                Ok(())
            } else {
                Err("operation rejected"@)
            },
        ),
{
    let request = RequestModel::Ls(
        LsRequestModel::Authenticate { uid: login_uid, verifier: shown },
    );
    lemma_delivered_to_login_server(
        attempt.worlds[0],
        attempt.steps[0],
        attempt.events[1],
        attempt.worlds[1],
        attempt.steps[1],
        request,
    );
    let replies = seq![(0u32, ReplyModel::Ack(shown == registered))];
    assert(replies[0].1 == ReplyModel::Ack(shown == registered));
    assert(all_acknowledged(replies) == (shown == registered));
    assert(attempt.worlds[1].network.providers == start.network.providers);
    assert(attempt.worlds[1].network.login == start.network.login);
}

/// The authentication after a TSPA registration.
proof fn lemma_tspa_login(
    start: World,
    uid: Seq<u8>,
    password: Seq<u8>,
    ls: Seq<u8>,
    login_uid: Seq<u8>,
    n: int,
    t: int,
    draw: RegistrationDraw,
    login: Journey,
)
    requires
        start.system.wf(),
        start.system.n == n && start.system.t == t,
        start.network.providers.len() == n,
        start.network.login is LoginServer,
        ({
            let data = registration_of(uid, ls, password, draw);
            &&& shares_open(data, password, draw)
            &&& draw.coeffs.len() == t && is_canonical(draw.coeffs[0])
            &&& draw.keys.len() == n && data.ciphertexts.len() == n
            &&& holds(verifiers(start.network), login_uid, data.verifier)
            &&& tspa_is_held(start.network, n, data)
        }),
        start.system.rng.scalar() != 0,
        authenticates_tspa(start.system, uid, password, ls, login_uid, login.system, login.step),
        login.is_delivered(start.network, 2),
    ensures
        login.outcome() == StepModel::Done(Ok(())),
        login.network() == start.network,
        login.client() == login.system,
{
    let rng = start.system.rng;
    let data = registration_of(uid, ls, password, draw);
    let r = scalar_bytes(rng.scalar());
    lemma_drawn_scalar(rng);
    assert(login.passes(start.network, 0) && login.passes(start.network, 1));
    lemma_tspa_replies(start, uid, password, ls, login_uid, n, t, data, login);
    let replies = login.events[0].end->Ok_0;
    law_tspa_authentication_succeeds(uid, ls, password, login_uid, draw, r, replies);
    lemma_tspa_answer(start, login_uid, data.verifier, data.verifier, login);
}

/// A TSPA registration under a free name, then a TSPA authentication with any password:
/// no reply of the providers is at fault, and the authentication succeeds exactly if the
/// verifier of the secret that the replies give under that password is the registered one;
/// it is refused otherwise. It changes no node.
pub proof fn law_tspa_registration_then_any_password(
    start: World,
    uid: Seq<u8>,
    password: Seq<u8>,
    ls: Seq<u8>,
    login_uid: Seq<u8>,
    registration: Journey,
    other_password: Seq<u8>,
    attempt: Journey,
)
    requires
        start.system.wf(),
        start.network.ready(start.system.n),
        !verifiers(start.network).contains_key(login_uid),
        registers_tspa(
            start.system,
            uid,
            password,
            ls,
            login_uid,
            registration.system,
            registration.step,
        ),
        registration.is_delivered(start.network, 2),
        authenticates_tspa(
            registration.client(),
            uid,
            other_password,
            ls,
            login_uid,
            attempt.system,
            attempt.step,
        ),
        attempt.is_delivered(registration.network(), 2),
    ensures
        registration.outcome() == StepModel::Done(Ok(())),
        attempt.network() == registration.network(),
        ({
            let draw = registration_draw(
                start.system.rng,
                start.system.n as nat,
                start.system.t as nat,
            );
            let registered = registration_of(uid, ls, password, draw).verifier;
            let r = registration.client().rng.scalar();
            attempt.events[0].end matches Ok(replies) && {
                let shown = shown_verifier(other_password, r, replies, ls);
                &&& first_fault(by_provider(replies)) is None
                &&& shown == registered ==> attempt.outcome() == StepModel::Done(Ok(()))
                &&& shown != registered ==> attempt.outcome() == StepModel::Done(
                    Err("operation rejected"@),
                )
            }
        }),
{
    let (n, t) = (start.system.n, start.system.t);
    let draw = registration_draw(start.system.rng, n as nat, t as nat);
    let data = registration_of(uid, ls, password, draw);
    law_drawn_polynomials_are_valid(start.system.rng, n as nat, t as nat);
    assert(registration.worlds.last() == registration.worlds[1]);
    assert(forall|i: int| #![trigger draw.keys[i]] 0 <= i < n ==> is_canonical(draw.keys[i]));
    lemma_tspa_registration(start, uid, password, ls, login_uid, n, draw, registration);
    lemma_tspa_attempt(
        registration.worlds[1],
        uid,
        password,
        ls,
        login_uid,
        n,
        t,
        draw,
        other_password,
        attempt,
    );
}

/// An authentication with any password after a TSPA registration.
proof fn lemma_tspa_attempt(
    start: World,
    uid: Seq<u8>,
    password: Seq<u8>,
    ls: Seq<u8>,
    login_uid: Seq<u8>,
    n: int,
    t: int,
    draw: RegistrationDraw,
    other_password: Seq<u8>,
    attempt: Journey,
)
    requires
        start.system.wf(),
        start.system.n == n && start.system.t == t,
        start.network.providers.len() == n,
        start.network.login is LoginServer,
        ({
            let data = registration_of(uid, ls, password, draw);
            &&& shares_open(data, password, draw)
            &&& draw.keys.len() == n && data.ciphertexts.len() == n
            &&& holds(verifiers(start.network), login_uid, data.verifier)
            &&& tspa_is_held(start.network, n, data)
        }),
        authenticates_tspa(
            start.system,
            uid,
            other_password,
            ls,
            login_uid,
            attempt.system,
            attempt.step,
        ),
        attempt.is_delivered(start.network, 2),
    ensures
        attempt.network() == start.network,
        ({
            let registered = registration_of(uid, ls, password, draw).verifier;
            attempt.events[0].end matches Ok(replies) && {
                let shown = shown_verifier(
                    other_password,
                    start.system.rng.scalar(),
                    replies,
                    ls,
                );
                &&& first_fault(by_provider(replies)) is None
                &&& attempt.outcome() == StepModel::Done(
                    if shown == registered {
                        Ok(())
                    } else {
                        Err("operation rejected"@)
                    },
                )
            }
        }),
{
    let data = registration_of(uid, ls, password, draw);
    assert(attempt.passes(start.network, 0) && attempt.passes(start.network, 1));
    lemma_tspa_replies(start, uid, other_password, ls, login_uid, n, t, data, attempt);
    let replies = attempt.events[0].end->Ok_0;
    let shown = shown_verifier(other_password, start.system.rng.scalar(), replies, ls);
    lemma_tspa_answer(start, login_uid, data.verifier, shown, attempt);
}

} // verus!
