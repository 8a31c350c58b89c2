//! How a phase starts: whom it asks for what, what it is for, and when it is refused.

use vstd::prelude::*;

use vstd::utf8::encode_utf8;

use crate::accounts::Names;
use crate::benchmark::{invokes, prerequisites};
use crate::client::setup_root;
use crate::crypto::{opened, password_key, password_point, share_value};
use crate::crypto_rules::{
    law_draw_moves_behind_what_was_drawn, law_setup_draws_one_behind_the_other,
    law_tspa_registration_draws_one_behind_the_other, words_on,
};
use crate::crypto_tspa::{aes_ctr, share_key, storage_address, tspa_point, tspa_vinfo};
use crate::flow::{
    authenticates_tspa, begins, identifies, registers_tspa, reports, sets_up, setup_draw, GoalModel,
    ProgressModel, Requirement, StageKind, StepModel, SystemModel,
};
use crate::group::{point_decodes, point_mul};
use crate::interpolation::{evaluate, order};
use crate::messages::{
    LsRequestModel, Phase, Protocol, RecordIdModel, RequestModel, TspaRequestModel, UpRequestModel,
};
use crate::random::RngModel;
use crate::scalar::{le_value, lemma_scalar_bytes, scalar_bytes, scalar_value, values_of};
use crate::signature::{ed25519_key_valid, ed25519_public};
use crate::stage::Policy;
use crate::step_rules::asks_each;
use crate::tspa_adapter::{holds_share, registration_draw, registration_of};

verus! {

/// Only the generator of the client moved on.
pub open spec fn only_draws(system: SystemModel, next: SystemModel, rng: RngModel) -> bool {
    &&& next.n == system.n && next.t == system.t
    &&& next.finalization == system.finalization
    &&& next.resolution == system.resolution
    &&& next.rng == rng
}

/// Every provider is asked to evaluate the user's blinded password, the same for all, until
/// enough agree or until all replied, as required; the blinding, the password and the goal
/// are remembered.
pub open spec fn asks_for_identification(
    system: SystemModel,
    step: StepModel,
    uid: Seq<u8>,
    password: Seq<u8>,
    requirement: Requirement,
    goal: GoalModel,
) -> bool {
    step matches StepModel::Run(stage, progress) && {
        &&& stage.kind == StageKind::Identification
        &&& !stage.settle
        &&& requirement == Requirement::Threshold ==> stage.policy == Policy::Agreement(
            system.t as usize,
        )
        &&& requirement == Requirement::AllProviders ==> stage.policy == Policy::All
        &&& asks_each(stage.requests, system.n)
        &&& forall|i: int|
            #![trigger stage.requests[i]]
            0 <= i < system.n ==> stage.requests[i].1 == RequestModel::Up(
                UpRequestModel::Identify {
                    uid,
                    blinded: point_mul(password_point(password), system.rng.scalar()),
                },
            )
        &&& progress matches ProgressModel::Identifying {
            password: kept,
            r,
            requirement: needed,
            goal: wanted,
        } && {
            &&& kept == password
            &&& r.len() == 32
            &&& scalar_value(r) == system.rng.scalar()
            &&& needed == requirement
            &&& wanted == goal
        }
    }
}

/// The refusal of a phase while another one is unfinished.
pub open spec fn refuses(system: SystemModel, next: SystemModel, step: StepModel) -> bool {
    &&& next == system
    &&& step == StepModel::Done(Err("finalization must complete before another phase"@))
}

/// An identification always starts, and asks every provider.
pub proof fn law_identification_asks_every_provider(
    system: SystemModel,
    uid: Seq<u8>,
    password: Seq<u8>,
    requirement: Requirement,
    goal: GoalModel,
    next: SystemModel,
    step: StepModel,
)
    requires
        system.wf(),
        identifies(system, uid, password, requirement, goal, next, step),
    ensures
        only_draws(system, next, words_on(system.rng, 16)),
        asks_for_identification(system, step, uid, password, requirement, goal),
        point_decodes(point_mul(password_point(password), system.rng.scalar())),
{
    vstd::arithmetic::div_mod::lemma_mod_bound(
        le_value(system.rng.bytes(64)) as int,
        order(),
    );
    lemma_scalar_bytes(system.rng.scalar());
    law_draw_moves_behind_what_was_drawn(system.rng, 64);
}

/// An identification on its own always starts, with the requirement that was asked for, and
/// is to report the user's state.
pub proof fn law_identification_reports_the_state(
    system: SystemModel,
    uid: Seq<u8>,
    password: Seq<u8>,
    requirement: Requirement,
    next: SystemModel,
    step: StepModel,
)
    requires
        system.wf(),
        reports(system, uid, password, requirement, next, step),
    ensures
        only_draws(system, next, words_on(system.rng, 16)),
        asks_for_identification(system, step, uid, password, requirement, GoalModel::Report),
{
    law_identification_asks_every_provider(
        system,
        uid,
        password,
        requirement,
        GoalModel::Report,
        next,
        step,
    );
}

/// A phase that begins with an identification starts exactly if nothing is unfinished, and
/// is refused without a draw otherwise.
pub proof fn law_phase_starts_when_nothing_is_unfinished(
    system: SystemModel,
    uid: Seq<u8>,
    password: Seq<u8>,
    requirement: Requirement,
    goal: GoalModel,
    next: SystemModel,
    step: StepModel,
)
    requires
        system.wf(),
        begins(system, uid, password, requirement, goal, next, step),
    ensures
        system.finalization is None && system.resolution is None ==> only_draws(
            system,
            next,
            words_on(system.rng, 16),
        )
            && asks_for_identification(system, step, uid, password, requirement, goal)
            && point_decodes(point_mul(password_point(password), system.rng.scalar())),
        system.finalization is Some || system.resolution is Some ==> refuses(system, next, step),
{
    if system.idle() {
        law_identification_asks_every_provider(
            system,
            uid,
            password,
            requirement,
            goal,
            next,
            step,
        );
    }
}

/// A setup hands every provider the same user, verification key and ciphertext at timestamp
/// zero, and provider `i` the polynomial's value at `i`. The ciphertext opens, under the
/// key of the password and the polynomial's constant, to the drawn keys. It starts exactly
/// if nothing is unfinished.
pub proof fn law_setup_hands_out_one_root(
    system: SystemModel,
    uid: Seq<u8>,
    password: Seq<u8>,
    next: SystemModel,
    step: StepModel,
)
    requires
        system.wf(),
        sets_up(system, uid, password, next, step),
    ensures
        system.finalization is Some || system.resolution is Some ==> refuses(system, next, step),
        system.finalization is None && system.resolution is None ==> {
            let draw = setup_draw(system.rng, system.t as nat);
            &&& only_draws(system, next, words_on(system.rng, 34 + 16 * system.t))
            &&& step matches StepModel::Run(
                stage,
                ProgressModel::Preparing { sid, phase, records, change },
            ) && {
                &&& stage.kind == StageKind::ProviderPrepare
                &&& stage.policy == Policy::All
                &&& !stage.settle
                &&& sid == draw.sid
                &&& phase == Phase::Setup
                &&& change is None
                &&& records.len() == system.n
                &&& asks_each(stage.requests, system.n)
                &&& forall|i: int|
                    #![trigger records[i]]
                    0 <= i < system.n ==> records[i] == RecordIdModel::Root(uid)
                &&& forall|i: int|
                    #![trigger stage.requests[i]]
                    0 <= i < system.n ==> (stage.requests[i].1 matches RequestModel::Up(
                        UpRequestModel::Setup { sid: session, root },
                    ) && {
                        &&& session == draw.sid
                        &&& root.uid == uid
                        &&& root.timestamp == 0
                        &&& root.svk == ed25519_public(draw.ssk)
                        &&& ed25519_key_valid(root.svk)
                        &&& root.share == scalar_bytes(evaluate(draw.coeffs, i + 1) % order())
                        &&& root.cid.len() == 136
                        &&& root.cid == stage.requests[0].1->Up_0->Setup_root.cid
                        &&& opened(password_key(password, draw.coeffs[0]), Seq::empty(), root.cid)
                            == Some(draw.ssk + draw.rsp + draw.k0)
                    })
            }
        },
{
    if system.idle() {
        let draw = setup_draw(system.rng, system.t as nat);
        let requests = step->Run_0.requests;
        assert forall|i: int| #![trigger requests[i]] 0 <= i < system.n implies ({
            let root = requests[i].1->Up_0->Setup_root;
            &&& root.cid.len() == 136
            &&& ed25519_key_valid(root.svk)
            &&& opened(password_key(password, draw.coeffs[0]), Seq::empty(), root.cid) == Some(
                draw.ssk + draw.rsp + draw.k0,
            )
        }) by {
            let root = setup_root(uid, password, draw, i + 1);
            assert(requests[i].1->Up_0->Setup_root == root);
            assert(1 <= i + 1 <= system.n);
        }
        law_setup_draws_one_behind_the_other(system.rng, system.t);
    }
}

/// A TSPA registration always starts. It hands provider `i` the drawn key `i` and a
/// ciphertext of 48 bytes, all at one address, which decrypts under the key of the password
/// and the drawn key to the polynomial's value at `i`. It is to register the verifier of
/// the polynomial's constant under the login name.
pub proof fn law_tspa_registration_hands_out_shares(
    system: SystemModel,
    uid: Seq<u8>,
    password: Seq<u8>,
    ls: Seq<u8>,
    login_uid: Seq<u8>,
    next: SystemModel,
    step: StepModel,
)
    requires
        system.wf(),
        registers_tspa(system, uid, password, ls, login_uid, next, step),
    ensures
        only_draws(system, next, words_on(system.rng, 16 * system.t + 20 * system.n)),
        ({
            let draw = registration_draw(system.rng, system.n as nat, system.t as nat);
            step matches StepModel::Run(stage, ProgressModel::TspaPreparing { register }) && {
                &&& stage.kind == StageKind::ProviderPrepare
                &&& stage.policy == Policy::All
                &&& !stage.settle
                &&& asks_each(stage.requests, system.n)
                &&& forall|i: int|
                    #![trigger stage.requests[i]]
                    0 <= i < system.n ==> (stage.requests[i].1 matches RequestModel::Tspa(
                        TspaRequestModel::Register { stor_uid, key, ciphertext },
                    ) && {
                        &&& stor_uid == storage_address(uid, ls)
                        &&& key == draw.keys[i]
                        &&& ciphertext.len() == 48
                        &&& scalar_value(
                            aes_ctr(
                                share_key(password, scalar_value(key)),
                                ciphertext.subrange(0, 16),
                                ciphertext.subrange(16, 48),
                            ),
                        ) == evaluate(values_of(draw.coeffs), i + 1) % order()
                    })
                &&& register == RequestModel::Ls(
                    LsRequestModel::Register {
                        uid: login_uid,
                        verifier: tspa_vinfo(draw.coeffs[0], ls),
                    },
                )
            }
        }),
{
    let n = system.n as nat;
    let t = system.t as nat;
    let draw = registration_draw(system.rng, n, t);
    let data = registration_of(uid, ls, password, draw);
    law_tspa_registration_draws_one_behind_the_other(system.rng, system.n, system.t);
    assert forall|i: int| #![trigger data.ciphertexts[i]] 0 <= i
        < n implies data.ciphertexts[i].len() == 48 && scalar_value(
        aes_ctr(
            share_key(password, scalar_value(draw.keys[i])),
            data.ciphertexts[i].subrange(0, 16),
            data.ciphertexts[i].subrange(16, 48),
        ),
    ) == evaluate(values_of(draw.coeffs), i + 1) % order() by {
        assert(holds_share(
            data.ciphertexts[i],
            password,
            scalar_value(draw.keys[i]),
            share_value(values_of(draw.coeffs), i + 1),
        ));
    }
}

/// A TSPA login always starts. It asks exactly the first providers, as many as the
/// threshold, for one address and with one blinded password, and needs a reply of each.
pub proof fn law_tspa_login_asks_the_first_providers(
    system: SystemModel,
    uid: Seq<u8>,
    password: Seq<u8>,
    ls: Seq<u8>,
    login_uid: Seq<u8>,
    next: SystemModel,
    step: StepModel,
)
    requires
        system.wf(),
        authenticates_tspa(system, uid, password, ls, login_uid, next, step),
    ensures
        only_draws(system, next, words_on(system.rng, 16)),
        step matches StepModel::Run(
            stage,
            ProgressModel::TspaRecovering { password: kept, ls: server, login_uid: name, r },
        ) && {
            &&& stage.kind == StageKind::AccountRecovery
            &&& stage.policy == Policy::All
            &&& !stage.settle
            &&& asks_each(stage.requests, system.t)
            &&& forall|i: int|
                #![trigger stage.requests[i]]
                0 <= i < system.t ==> stage.requests[i].1 == RequestModel::Tspa(
                    TspaRequestModel::Authenticate {
                        stor_uid: storage_address(uid, ls),
                        blinded: point_mul(tspa_point(password), system.rng.scalar()),
                    },
                )
            &&& kept == password && server == ls && name == login_uid
            &&& r.len() == 32
            &&& scalar_value(r) == system.rng.scalar()
        },
        point_decodes(point_mul(tspa_point(password), system.rng.scalar())),
{
    vstd::arithmetic::div_mod::lemma_mod_bound(
        le_value(system.rng.bytes(64)) as int,
        order(),
    );
    lemma_scalar_bytes(system.rng.scalar());
    law_draw_moves_behind_what_was_drawn(system.rng, 64);
}

/// Each benchmarked phase is what it is named after: a setup hands out roots; registration,
/// secret update and password update identify the user with all providers and go on to
/// register, renew or change the password; authentication identifies the user with the
/// threshold and logs in. All of UpSPA is refused while a phase is unfinished. TSPA has a
/// registration and a login, which are never refused, and no other phase.
pub proof fn law_invoked_phase_has_its_goal(
    system: SystemModel,
    protocol: Protocol,
    phase: Phase,
    next: SystemModel,
    step: StepModel,
)
    requires
        system.wf(),
        invokes(system, protocol, phase, next, step),
    ensures
        ({
            let uid = encode_utf8("user123"@);
            let password = encode_utf8("benchmark password"@);
            let names = Names {
                uid,
                ls: encode_utf8("LS1"@),
                login_uid: encode_utf8("stable-login-user"@),
            };
            let idle = system.finalization is None && system.resolution is None;
            &&& protocol == Protocol::UpSPA && !idle ==> refuses(system, next, step)
            &&& protocol == Protocol::UpSPA && idle ==> match phase {
                Phase::Setup => sets_up(system, uid, password, next, step) && (
                step matches StepModel::Run(stage, ProgressModel::Preparing { phase: p, .. }) && p
                    == Phase::Setup),
                Phase::Registration => asks_for_identification(
                    system,
                    step,
                    uid,
                    password,
                    Requirement::AllProviders,
                    GoalModel::Register(names),
                ),
                Phase::Authentication => asks_for_identification(
                    system,
                    step,
                    uid,
                    password,
                    Requirement::Threshold,
                    GoalModel::Authenticate(names),
                ),
                Phase::SecretUpdate => asks_for_identification(
                    system,
                    step,
                    uid,
                    password,
                    Requirement::AllProviders,
                    GoalModel::Renew(names),
                ),
                Phase::PasswordUpdate => asks_for_identification(
                    system,
                    step,
                    uid,
                    password,
                    Requirement::AllProviders,
                    GoalModel::ChangePassword {
                        uid,
                        password: encode_utf8("updated benchmark password"@),
                    },
                ),
            }
            &&& protocol == Protocol::TSPA ==> match phase {
                Phase::Registration => registers_tspa(
                    system,
                    uid,
                    password,
                    names.ls,
                    names.login_uid,
                    next,
                    step,
                ) && step is Run && step->Run_1 is TspaPreparing,
                Phase::Authentication => authenticates_tspa(
                    system,
                    uid,
                    password,
                    names.ls,
                    names.login_uid,
                    next,
                    step,
                ) && step is Run && step->Run_1 is TspaRecovering,
                _ => next == system && step == StepModel::Done(
                    Err("phase not defined by TSPA"@),
                ),
            }
        }),
{
    vstd::arithmetic::div_mod::lemma_mod_bound(
        le_value(system.rng.bytes(64)) as int,
        order(),
    );
    lemma_scalar_bytes(system.rng.scalar());
    law_draw_moves_behind_what_was_drawn(system.rng, 64);
}

/// What has to be run before a phase: a setup before every UpSPA phase but itself, then a
/// registration exactly before what uses an account, and nothing else. Nothing runs twice,
/// and what has to be run needs nothing that is not run before it.
pub proof fn law_fixture_is_what_a_phase_builds_on(protocol: Protocol, phase: Phase)
    ensures
        ({
            let before = prerequisites(protocol, phase);
            &&& before.contains(Phase::Setup) <==> protocol == Protocol::UpSPA && phase
                != Phase::Setup
            &&& before.contains(Phase::Registration) <==> phase == Phase::Authentication || (
            protocol == Protocol::UpSPA && phase == Phase::SecretUpdate)
            &&& !before.contains(Phase::Authentication)
            &&& !before.contains(Phase::SecretUpdate)
            &&& !before.contains(Phase::PasswordUpdate)
            &&& before.no_duplicates()
            &&& forall|k: int|
                #![trigger before[k]]
                0 <= k < before.len() ==> prerequisites(protocol, before[k]) =~= before.take(k)
        }),
{
    let before = prerequisites(protocol, phase);
    assert(before.contains(Phase::Setup) <==> protocol == Protocol::UpSPA && phase
        != Phase::Setup) by {
        if protocol == Protocol::UpSPA && phase != Phase::Setup {
            assert(before[0] == Phase::Setup);
        }
    }
    assert(before.contains(Phase::Registration) <==> phase == Phase::Authentication || (protocol
        == Protocol::UpSPA && phase == Phase::SecretUpdate)) by {
        if protocol == Protocol::UpSPA && (phase == Phase::Authentication || phase
            == Phase::SecretUpdate) {
            assert(before[1] == Phase::Registration);
        }
        if protocol == Protocol::TSPA && phase == Phase::Authentication {
            assert(before[0] == Phase::Registration);
        }
    }
}

} // verus!
