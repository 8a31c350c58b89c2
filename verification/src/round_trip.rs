//! What honest nodes give back of what was stored with them: identification,
//! authentication and TSPA authentication from end to end.

use vstd::prelude::*;

use crate::accounts::{
    account_opens, account_plan, final_messages, law_written_account_is_recovered, probe,
    AccountDraw, AccountModel, Names,
};
use crate::agreement::{
    agreement_value, distinct_providers, law_unanimous_replies_agree, provider_ids, Vote,
};
use crate::client::{
    law_sealed_root_is_read, root_opens, setup_root, state_in_root, used_replies, SetupDraw, StateModel,
};
use crate::crypto::{is_blob, password_key, password_point, share_value, vinfo};
use crate::crypto_tspa::tspa_point;
use crate::flow::{
    advanced, after_tspa_recovery, are_coefficients, ask_login_server, begin_finalization,
    identification_result, identifies_honestly, reconstructs_honestly, recovery_step, setup_draw,
    update_draw, GoalModel, ProgressModel, Requirement, StepModel, SystemModel,
};
use crate::group::{point_decodes, point_mul};
use crate::interpolation::{lemma_residue, order};
use crate::login_server::{holds, login_answer, login_next, LoginModel};
use crate::messages::{
    LsRequestModel, Phase, RecordIdModel, ReplyModel, RequestModel, TspaRequestModel,
    ROOT_LEN,
};
use crate::password::{signed_update, UpdateDraw};
use crate::provider::{evaluates, identify_answer, ProviderModel};
use crate::random::{encoded_scalars, RngModel};
use crate::scalar::{
    is_canonical, le_value, lemma_canonical_residue, lemma_le_bytes, lemma_scalar_bytes,
    scalar_bytes, scalar_value, values_of,
};
use crate::sp::TspaProviderModel;
use crate::stage::{acknowledged, collected, successes, Arrival, Policy, StageOutcome};
use crate::system_laws::law_stored_shares_contribute_honestly;
use crate::tspa_adapter::{
    holds_share, honest_replies, honest_reply, registration_draw, registration_of, shares_open,
    tspa_answer, RegistrationDraw,
};
use crate::tspa_client::{by_provider, place};
use crate::wire::stamped;

verus! {

/// Replies of distinct providers that hold one root ciphertext and their shares of one
/// polynomial, to the password's group element blinded by `r`.
pub open spec fn served_roots(
    replies: Seq<Vote>,
    cid: Seq<u8>,
    timestamp: u64,
    password: Seq<u8>,
    r: int,
    coefficients: Seq<int>,
) -> bool {
    &&& distinct_providers(replies)
    &&& point_decodes(password_point(password))
    &&& forall|i: int|
        #![trigger replies[i]]
        0 <= i < replies.len() ==> (replies[i].1 matches ReplyModel::Identification {
            cid: held,
            timestamp: moment,
            contribution,
        } && held == cid && moment == timestamp && evaluates(
            contribution,
            point_mul(password_point(password), r),
            scalar_value(scalar_bytes(share_value(coefficients, replies[i].0 as int))),
        ))
}

proof fn lemma_served_roots_agree(
    replies: Seq<Vote>,
    threshold: usize,
    outstanding: int,
    cid: Seq<u8>,
    timestamp: u64,
    password: Seq<u8>,
    r: int,
    coefficients: Seq<int>,
)
    requires
        served_roots(replies, cid, timestamp, password, r, coefficients),
        is_blob(cid, ROOT_LEN as int),
        1 <= threshold <= replies.len(),
        0 <= outstanding < threshold,
    ensures
        crate::agreement::agreement(replies, threshold as int, outstanding) == Ok::<
            Option<Seq<Vote>>,
            Seq<char>,
        >(Some(replies)),
{
    assert forall|i: int|
        #![trigger replies[i]]
        0 <= i < replies.len() implies agreement_value(replies[i].1) == Some(
        stamped(cid, timestamp),
    ) by {}
    law_unanimous_replies_agree(
        replies,
        threshold as int,
        outstanding,
        stamped(cid, timestamp),
    );
}

/// Providers of which each holds the same root ciphertext and its share of one
/// polynomial.
pub open spec fn hold_root(
    providers: Seq<ProviderModel>,
    uid: Seq<u8>,
    cid: Seq<u8>,
    timestamp: u64,
    coefficients: Seq<int>,
) -> bool {
    forall|i: int|
        #![trigger providers[i]]
        0 <= i < providers.len() ==> providers[i].roots.contains_key(uid)
            && providers[i].roots[uid].cid == cid && providers[i].roots[uid].timestamp == timestamp
            && providers[i].roots[uid].share == scalar_bytes(
            share_value(coefficients, providers[i].provider_id as int),
        )
}

/// What providers that hold one root answer to an identification are replies of honest
/// providers.
pub proof fn law_stored_roots_are_served(
    providers: Seq<ProviderModel>,
    uid: Seq<u8>,
    cid: Seq<u8>,
    timestamp: u64,
    password: Seq<u8>,
    r: int,
    coefficients: Seq<int>,
    replies: Seq<Vote>,
)
    requires
        hold_root(providers, uid, cid, timestamp, coefficients),
        point_decodes(password_point(password)),
        point_decodes(point_mul(password_point(password), r)),
        replies.len() == providers.len(),
        distinct_providers(replies),
        forall|i: int|
            #![trigger replies[i]]
            0 <= i < replies.len() ==> {
                let blinded = point_mul(password_point(password), r);
                &&& replies[i].0 == providers[i].provider_id
                &&& identify_answer(providers[i], uid, blinded) == Ok::<ReplyModel, Seq<char>>(
                    replies[i].1,
                )
                &&& evaluates(
                    replies[i].1->Identification_contribution,
                    blinded,
                    scalar_value(providers[i].roots[uid].share),
                )
            },
    ensures
        served_roots(replies, cid, timestamp, password, r, coefficients),
{
    assert forall|i: int|
        #![trigger replies[i]]
        0 <= i < replies.len() implies (replies[i].1 matches ReplyModel::Identification {
        cid: held,
        timestamp: moment,
        contribution,
    } && held == cid && moment == timestamp && evaluates(
        contribution,
        point_mul(password_point(password), r),
        scalar_value(scalar_bytes(share_value(coefficients, replies[i].0 as int))),
    )) by {
        assert(providers[i].roots.contains_key(uid));
    }
}

/// Providers that stored the roots of one setup hold one root ciphertext and their shares
/// of the drawn polynomial.
pub proof fn law_setup_gives_every_provider_its_share(
    providers: Seq<ProviderModel>,
    uid: Seq<u8>,
    password: Seq<u8>,
    draw: SetupDraw,
)
    requires
        forall|i: int|
            #![trigger providers[i]]
            0 <= i < providers.len() ==> providers[i].roots.contains_pair(
                uid,
                setup_root(uid, password, draw, providers[i].provider_id as int),
            ),
    ensures
        hold_root(providers, uid, setup_root(uid, password, draw, 1).cid, 0, draw.coeffs),
{
}

/// Providers that stored the requests of one password update hold one root ciphertext and
/// their shares of the drawn polynomial, under the new timestamp.
pub proof fn law_update_gives_every_provider_its_share(
    providers: Seq<ProviderModel>,
    uid: Seq<u8>,
    password: Seq<u8>,
    state: StateModel,
    timestamp: u64,
    draw: UpdateDraw,
)
    requires
        forall|i: int|
            #![trigger providers[i]]
            0 <= i < providers.len() ==> {
                let update = signed_update(
                    uid,
                    password,
                    state,
                    timestamp,
                    draw,
                    providers[i].provider_id as int,
                );
                &&& providers[i].roots.contains_key(uid)
                &&& providers[i].roots[uid].cid == update.cid_new
                &&& providers[i].roots[uid].share == update.share_new
                &&& providers[i].roots[uid].timestamp == update.timestamp_new
            },
    ensures
        hold_root(
            providers,
            uid,
            signed_update(uid, password, state, timestamp, draw, 1).cid_new,
            timestamp,
            draw.coeffs,
        ),
{
}

/// A stage that waits for agreement ends with the replies of honest providers as soon as
/// as many replied as the threshold asks for and fewer are missing.
pub proof fn law_honest_replies_end_the_stage(
    threshold: usize,
    count: int,
    arrivals: Seq<Arrival>,
    cid: Seq<u8>,
    timestamp: u64,
    password: Seq<u8>,
    r: int,
    coefficients: Seq<int>,
)
    requires
        served_roots(successes(arrivals), cid, timestamp, password, r, coefficients),
        is_blob(cid, ROOT_LEN as int),
        1 <= threshold <= successes(arrivals).len(),
        0 <= count - arrivals.len() < threshold,
    ensures
        collected(Policy::Agreement(threshold), count, arrivals) == Some(
            Ok::<Seq<Vote>, Seq<char>>(successes(arrivals)),
        ),
{
    lemma_served_roots_agree(
        successes(arrivals),
        threshold,
        count - arrivals.len(),
        cid,
        timestamp,
        password,
        r,
        coefficients,
    );
}

/// An identification from the replies of honest providers, as many as the threshold asks
/// for or more, gives for every password what the root's ciphertext opens to under the key
/// of that password, if it does. The blinding must not be zero.
pub proof fn law_honest_providers_evaluate(
    system: SystemModel,
    requirement: Requirement,
    password: Seq<u8>,
    r: Seq<u8>,
    replies: Seq<Vote>,
    cid: Seq<u8>,
    timestamp: u64,
    coefficients: Seq<int>,
)
    requires
        system.wf(),
        are_coefficients(coefficients, system.t),
        scalar_value(r) != 0,
        served_roots(replies, cid, timestamp, password, scalar_value(r), coefficients),
        is_blob(cid, ROOT_LEN as int),
        replies.len() >= system.t,
        identifies_honestly(requirement, system.t, password, r, Ok(replies)),
    ensures
        identification_result(requirement, system.t, password, r, Ok(replies)) == state_in_root(
            password_key(password, coefficients[0]),
            cid,
            timestamp,
        ),
{
    let rv = scalar_value(r);
    let t = system.t;
    lemma_served_roots_agree(
        replies,
        t as usize,
        0,
        cid,
        timestamp,
        password,
        rv,
        coefficients,
    );
    let used = used_replies(replies, t);
    assert forall|i: int| #![trigger used[i]] 0 <= i < used.len() implies used[i] == replies[i] by {}
    assert(provider_ids(used).no_duplicates()) by {
        assert forall|i: int, j: int|
            0 <= i < used.len() && 0 <= j < used.len() && i != j implies provider_ids(used)[i]
            != provider_ids(used)[j] by {
            assert(used[i] == replies[i] && used[j] == replies[j]);
            if i < j {
                assert(replies[i].0 != replies[j].0);
            } else {
                assert(replies[j].0 != replies[i].0);
            }
        }
    }
    lemma_residue(le_value(r) as int);
    law_stored_shares_contribute_honestly(used, password, rv, coefficients);
    assert(coefficients[0] % order() == coefficients[0]) by {
        vstd::arithmetic::div_mod::lemma_small_mod(coefficients[0] as nat, order() as nat);
    }
    assert(replies[0].1 is Identification);
}

/// An identification from the replies of honest providers, as many as the threshold asks
/// for or more, gives the state that the root was encrypted from. The blinding must not
/// be zero.
pub proof fn law_honest_providers_identify(
    system: SystemModel,
    requirement: Requirement,
    password: Seq<u8>,
    r: Seq<u8>,
    replies: Seq<Vote>,
    cid: Seq<u8>,
    state: StateModel,
    coefficients: Seq<int>,
)
    requires
        system.wf(),
        are_coefficients(coefficients, system.t),
        scalar_value(r) != 0,
        served_roots(replies, cid, state.timestamp, password, scalar_value(r), coefficients),
        root_opens(cid, password, coefficients[0], state),
        replies.len() >= system.t,
        identifies_honestly(requirement, system.t, password, r, Ok(replies)),
    ensures
        identification_result(requirement, system.t, password, r, Ok(replies)) == Ok::<
            StateModel,
            Seq<char>,
        >(state),
{
    law_honest_providers_evaluate(
        system,
        requirement,
        password,
        r,
        replies,
        cid,
        state.timestamp,
        coefficients,
    );
    law_sealed_root_is_read(cid, password, coefficients[0], state);
}

/// Once a user's root and account are stored with honest providers and the login server
/// holds the verifier of the account's secret, an authentication succeeds: its
/// identification, its recovery and its login follow each other and end in success.
pub proof fn law_authentication_succeeds(
    system: SystemModel,
    names: Names,
    password: Seq<u8>,
    r: Seq<u8>,
    coefficients: Seq<int>,
    state: StateModel,
    roots: Seq<Vote>,
    cid: Seq<u8>,
    accounts: Seq<Vote>,
    account: AccountModel,
    server: LoginModel,
    now: u64,
)
    requires
        system.wf(),
        are_coefficients(coefficients, system.t),
        scalar_value(r) != 0,
        served_roots(roots, cid, state.timestamp, password, scalar_value(r), coefficients),
        root_opens(cid, password, coefficients[0], state),
        roots.len() >= system.t,
        identifies_honestly(Requirement::Threshold, system.t, password, r, Ok(roots)),
        accounts.len() >= 1,
        accounts[0].1 == ReplyModel::Account(account.ciphertext),
        account_opens(
            account.ciphertext,
            state.k0,
            names.uid,
            names.ls,
            account.secret,
            account.counter,
        ),
        holds(server, names.login_uid, vinfo(account.secret, names.ls)),
    ensures
        ({
            let identifying = ProgressModel::Identifying {
                password,
                r,
                requirement: Requirement::Threshold,
                goal: GoalModel::Authenticate(names),
            };
            let recovering = ProgressModel::Recovering { state, names, renew: false };
            let login = LsRequestModel::Authenticate {
                uid: names.login_uid,
                verifier: vinfo(account.secret, names.ls),
            };
            &&& advanced(system, identifying, Ok(roots), true, now) == (
                system,
                recovery_step(system, state, names, false),
            )
            &&& advanced(system, recovering, Ok(accounts), true, now) == (
                system,
                ask_login_server(RequestModel::Ls(login), ProgressModel::Confirming),
            )
            &&& login_answer(server, login) == Ok::<ReplyModel, Seq<char>>(ReplyModel::Ack(true))
            &&& advanced(
                system,
                ProgressModel::Confirming,
                Ok(seq![(0u32, ReplyModel::Ack(true))]),
                true,
                now,
            ) == (system, StepModel::Done(Ok(())))
        }),
{
    law_honest_providers_identify(
        system,
        Requirement::Threshold,
        password,
        r,
        roots,
        cid,
        state,
        coefficients,
    );
    law_written_account_is_recovered(
        account.ciphertext,
        state.k0,
        names.uid,
        names.ls,
        account.secret,
        account.counter,
    );
}

/// A write that every node acknowledges succeeds: after the preparation the login server
/// makes the change, if there is one, then the providers store, and nothing is left
/// unfinished.
pub proof fn law_acknowledged_write_succeeds(
    system: SystemModel,
    sid: Seq<u8>,
    phase: Phase,
    records: Seq<RecordIdModel>,
    change: Option<LsRequestModel>,
    prepared: StageOutcome,
    changed: StageOutcome,
    stored: StageOutcome,
    refused: bool,
    now: u64,
)
    requires
        system.idle(),
        acknowledged(prepared) is Ok,
        acknowledged(changed) is Ok,
        acknowledged(stored) is Ok,
    ensures
        ({
            let preparing = ProgressModel::Preparing { sid, phase, records, change };
            let requests = final_messages(sid, phase, records, true);
            let storing = begin_finalization(system, requests, true, Ok(()));
            let after = advanced(system, preparing, prepared, refused, now);
            &&& match change {
                None => after == storing,
                Some(change) => {
                    let changing = ProgressModel::Changing {
                        sid,
                        phase,
                        records,
                        probe: probe(change),
                    };
                    &&& after == (system, ask_login_server(RequestModel::Ls(change), changing))
                    &&& advanced(system, changing, changed, refused, now) == storing
                },
            }
            &&& advanced(storing.0, storing.1->Run_1, stored, refused, now) == (
                system,
                StepModel::Done(Ok(())),
            )
        }),
{
}

/// The login server accepts the change of an account write, if the user's name is free
/// for a first account and has the previous secret's verifier otherwise; it then holds
/// the verifier of the written secret, and asking whether the change took effect is
/// answered with yes.
pub proof fn law_login_server_takes_the_written_secret(
    server: LoginModel,
    n: int,
    names: Names,
    state: StateModel,
    previous: Option<AccountModel>,
    counter: u64,
    draw: AccountDraw,
)
    requires
        match previous {
            Some(account) => holds(server, names.login_uid, vinfo(account.secret, names.ls)),
            None => !server.contains_key(names.login_uid),
        },
    ensures
        ({
            let change = account_plan(n, names, state, previous, counter, draw).ls_request;
            let next = login_next(server, change);
            &&& login_answer(server, change) == Ok::<ReplyModel, Seq<char>>(ReplyModel::Ack(true))
            &&& holds(next, names.login_uid, vinfo(draw.secret, names.ls))
            &&& login_answer(next, probe(change)->Ls_0) == Ok::<ReplyModel, Seq<char>>(
                ReplyModel::Ack(true),
            )
        }),
{
}

/// Asking whether a change took effect is answered truthfully: with yes exactly if the
/// login server holds the verifier that the change puts in place.
pub proof fn law_probe_is_answered_truthfully(server: LoginModel, change: LsRequestModel)
    requires
        !(change is Authenticate),
    ensures
        login_answer(server, probe(change)->Ls_0) == Ok::<ReplyModel, Seq<char>>(
            ReplyModel::Ack(
                match change {
                    LsRequestModel::Register { uid, verifier } => holds(server, uid, verifier),
                    LsRequestModel::ChangeCredential { uid, next, .. } => holds(
                        server,
                        uid,
                        next,
                    ),
                    LsRequestModel::Authenticate { .. } => false,
                },
            ),
        ),
        login_next(server, probe(change)->Ls_0) == server,
{
}

/// Sorting by provider keeps replies of distinct providers, each once.
pub proof fn lemma_sorted_replies(replies: Seq<Vote>)
    requires
        provider_ids(replies).no_duplicates(),
    ensures
        by_provider(replies).len() == replies.len(),
        forall|i: int|
            #![trigger by_provider(replies)[i]]
            0 <= i < replies.len() ==> replies.contains(by_provider(replies)[i]),
        provider_ids(by_provider(replies)).no_duplicates(),
    decreases replies.len(),
{
    if replies.len() > 0 {
        let front = replies.drop_last();
        let vote = replies.last();
        assert forall|i: int, j: int|
            0 <= i < front.len() && 0 <= j < front.len() && i != j implies provider_ids(front)[i]
            != provider_ids(front)[j] by {
            assert(provider_ids(replies)[i] != provider_ids(replies)[j]);
        }
        lemma_sorted_replies(front);
        let earlier = by_provider(front);
        crate::tspa_client::law_sorting_keeps_the_replies(front);
        lemma_place_is_inside(earlier, vote.0);
        let k = place(earlier, vote.0);
        let s = earlier.insert(k, vote);
        assert(replies[replies.len() - 1] == vote);
        assert forall|i: int| #![trigger s[i]] 0 <= i < s.len() implies replies.contains(s[i]) && (
        i != k ==> s[i].0 != vote.0) by {
            if i != k {
                let h = if i < k {
                    i
                } else {
                    i - 1
                };
                assert(s[i] == earlier[h]);
                assert(front.contains(earlier[h]));
                let m = choose|m: int| 0 <= m < front.len() && front[m] == earlier[h];
                assert(replies[m] == s[i]);
                assert(provider_ids(replies)[m] != provider_ids(replies)[replies.len() - 1]);
            }
        }
        assert forall|i: int, j: int|
            0 <= i < s.len() && 0 <= j < s.len() && i != j implies provider_ids(s)[i]
            != provider_ids(s)[j] by {
            assert(replies.contains(s[i]) && replies.contains(s[j]));
            if i != k && j != k {
                let a = if i < k {
                    i
                } else {
                    i - 1
                };
                let b = if j < k {
                    j
                } else {
                    j - 1
                };
                assert(s[i] == earlier[a] && s[j] == earlier[b]);
                assert(provider_ids(earlier)[a] != provider_ids(earlier)[b]);
            }
        }
    }
}

proof fn lemma_place_is_inside(sorted: Seq<Vote>, id: u32)
    ensures
        0 <= place(sorted, id) <= sorted.len(),
    decreases sorted.len(),
{
    if sorted.len() > 0 && sorted.last().0 > id {
        lemma_place_is_inside(sorted.drop_last(), id);
    }
}

/// Replies of distinct providers that hold OPRF keys and ciphertexts of one TSPA
/// registration, to the password's group element blinded by `r`.
pub open spec fn served_shares(
    replies: Seq<Vote>,
    password: Seq<u8>,
    r: int,
    keys: Seq<Seq<u8>>,
    ciphertexts: Seq<Seq<u8>>,
) -> bool {
    &&& provider_ids(replies).no_duplicates()
    &&& point_decodes(tspa_point(password))
    &&& forall|i: int|
        #![trigger replies[i]]
        0 <= i < replies.len() ==> 1 <= replies[i].0 <= keys.len() && replies[i].0
            <= ciphertexts.len() && (replies[i].1 matches ReplyModel::TspaAuthentication {
            contribution,
            ciphertext,
        } && ciphertext == ciphertexts[replies[i].0 - 1] && evaluates(
            contribution,
            point_mul(tspa_point(password), r),
            scalar_value(keys[replies[i].0 - 1]),
        ))
}

/// What providers that stored the requests of one TSPA registration answer to an
/// authentication are replies of honest providers.
pub proof fn law_stored_shares_are_served(
    providers: Seq<TspaProviderModel>,
    stor_uid: Seq<u8>,
    password: Seq<u8>,
    r: int,
    keys: Seq<Seq<u8>>,
    ciphertexts: Seq<Seq<u8>>,
    replies: Seq<Vote>,
)
    requires
        point_decodes(tspa_point(password)),
        replies.len() == providers.len(),
        provider_ids(replies).no_duplicates(),
        forall|i: int|
            #![trigger replies[i]]
            0 <= i < replies.len() ==> {
                let blinded = point_mul(tspa_point(password), r);
                let id = providers[i].sp_id;
                &&& replies[i].0 == id && 1 <= id <= keys.len() && id <= ciphertexts.len()
                &&& providers[i].oprf_key == keys[id - 1]
                &&& providers[i].record_db.contains_pair(stor_uid, ciphertexts[id - 1])
                &&& tspa_answer(
                    providers[i],
                    TspaRequestModel::Authenticate { stor_uid, blinded },
                ) == Ok::<ReplyModel, Seq<char>>(replies[i].1)
                &&& evaluates(
                    replies[i].1->TspaAuthentication_contribution,
                    blinded,
                    scalar_value(providers[i].oprf_key),
                )
            },
    ensures
        served_shares(replies, password, r, keys, ciphertexts),
{
    assert forall|i: int|
        #![trigger replies[i]]
        0 <= i < replies.len() implies 1 <= replies[i].0 <= keys.len() && replies[i].0
        <= ciphertexts.len() && (replies[i].1 matches ReplyModel::TspaAuthentication {
        contribution,
        ciphertext,
    } && ciphertext == ciphertexts[replies[i].0 - 1] && evaluates(
        contribution,
        point_mul(tspa_point(password), r),
        scalar_value(keys[replies[i].0 - 1]),
    )) by {}
}

/// Once a TSPA registration is stored with honest providers, an authentication from the
/// replies of at least as many as the threshold asks for shows the login server the
/// verifier that was registered there. The blinding must not be zero.
pub proof fn law_tspa_authentication_succeeds(
    uid: Seq<u8>,
    ls: Seq<u8>,
    password: Seq<u8>,
    login_uid: Seq<u8>,
    draw: RegistrationDraw,
    r: Seq<u8>,
    replies: Seq<Vote>,
)
    requires
        shares_open(registration_of(uid, ls, password, draw), password, draw),
        is_canonical(draw.coeffs[0]),
        scalar_value(r) != 0,
        served_shares(
            replies,
            password,
            scalar_value(r),
            draw.keys,
            registration_of(uid, ls, password, draw).ciphertexts,
        ),
        1 <= draw.coeffs.len() <= replies.len(),
        reconstructs_honestly(password, r, Ok(replies)),
    ensures
        after_tspa_recovery(password, ls, login_uid, r, Ok(replies)) == ask_login_server(
            RequestModel::Ls(
                LsRequestModel::Authenticate {
                    uid: login_uid,
                    verifier: registration_of(uid, ls, password, draw).verifier,
                },
            ),
            ProgressModel::Confirming,
        ),
{
    let data = registration_of(uid, ls, password, draw);
    let rv = scalar_value(r);
    let sorted = by_provider(replies);
    let shared = values_of(draw.coeffs);
    lemma_sorted_replies(replies);
    let values = Seq::new(sorted.len(), |i: int| scalar_value(draw.keys[sorted[i].0 - 1]));
    lemma_residue(le_value(r) as int);
    assert forall|i: int| #![trigger sorted[i]] 0 <= i < sorted.len() implies honest_reply(
        sorted[i].1,
        password,
        rv,
        values[i],
        share_value(shared, sorted[i].0 as int),
    ) by {
        assert(replies.contains(sorted[i]));
        let m = choose|m: int| 0 <= m < replies.len() && replies[m] == sorted[i];
        let id = replies[m].0;
        assert(data.ciphertexts[id - 1] == replies[m].1->ciphertext);
        lemma_residue(le_value(draw.keys[id - 1]) as int);
        assert(point_mul(tspa_point(password), rv) == point_mul(tspa_point(password), rv));
        assert(holds_share(
            data.ciphertexts[id - 1],
            password,
            scalar_value(draw.keys[id - 1]),
            share_value(shared, id as int),
        ));
    }
    assert(honest_replies(sorted, password, rv, values, shared));
    let first = draw.coeffs[0];
    lemma_canonical_residue(first);
    lemma_le_bytes(first);
    vstd::arithmetic::div_mod::lemma_small_mod(le_value(first), order() as nat);
    assert(shared[0] == scalar_value(first));
    assert(scalar_bytes(shared[0] % order()) == first);
}

/// What a generator gives for a polynomial is one: as many coefficients as the threshold
/// asks for, all of them reduced.
pub proof fn law_drawn_polynomials_are_valid(rng: RngModel, n: nat, t: nat)
    ensures
        are_coefficients(setup_draw(rng, t).coeffs, t as int),
        are_coefficients(update_draw(rng, t).coeffs, t as int),
        registration_draw(rng, n, t).coeffs.len() == t,
        forall|i: int|
            #![trigger registration_draw(rng, n, t).coeffs[i]]
            0 <= i < t ==> is_canonical(registration_draw(rng, n, t).coeffs[i]),
        forall|i: int|
            #![trigger registration_draw(rng, n, t).keys[i]]
            0 <= i < n ==> is_canonical(registration_draw(rng, n, t).keys[i]),
{
    lemma_scalars(rng.after(16).after(32), t);
    lemma_scalars(rng.after(16), t);
    lemma_scalars(rng, t);
    lemma_scalars(rng.after_scalars(t), n);
}

proof fn lemma_scalars(rng: RngModel, count: nat)
    ensures
        are_coefficients(rng.scalars(count), count as int),
        forall|i: int|
            #![trigger encoded_scalars(rng.scalars(count))[i]]
            0 <= i < count ==> is_canonical(encoded_scalars(rng.scalars(count))[i]),
{
    assert forall|i: int| #![trigger rng.scalars(count)[i]] 0 <= i < count implies 0
        <= rng.scalars(count)[i] < order() by {
        lemma_residue(le_value(rng.after_scalars(i as nat).bytes(64)) as int);
    }
    assert forall|i: int|
        #![trigger encoded_scalars(rng.scalars(count))[i]]
        0 <= i < count implies is_canonical(encoded_scalars(rng.scalars(count))[i]) by {
        assert(0 <= rng.scalars(count)[i] < order());
        lemma_scalar_bytes(rng.scalars(count)[i]);
    }
}

} // verus!
