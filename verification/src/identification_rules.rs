//! Which replies an identification goes by, and what it makes of them.

use vstd::prelude::*;

use crate::agreement::{
    agreement_value, distinct_providers, lemma_supporters, provider_ids, Vote,
};
use crate::agreement_rules::{
    backers, divided, law_agreement_counts_each_provider_once,
    law_agreement_is_what_enough_providers_say, lemma_backers, lemma_prevails_is_settled, prevails,
};
use crate::client::{
    first_root_fault, identified, law_sealed_root_is_read, root_opens, state_in_root, used_replies,
    StateModel,
};
use crate::crypto::password_key;
use crate::flow::{
    accepted_roots, advanced, are_coefficients, identification_result, identifies_honestly,
    GoalModel, ProgressModel, Requirement, StepModel, SystemModel,
};
use crate::group::point_decodes;
use crate::interpolation::{lemma_residue, order};
use crate::messages::ReplyModel;
use crate::round_trip::served_roots;
use crate::scalar::{le_value, scalar_value};
use crate::stage::StageOutcome;
use crate::system_laws::law_stored_shares_contribute_honestly;

verus! {

/// With every provider asked and every reply in, an identification goes on with exactly the
/// backers of the one root that at least the threshold of them back, however many others
/// say something else. It fails if two roots have that many, if none has, and if a reply
/// is of provider zero or of a provider that replied before. With a threshold asked for,
/// it goes by the replies that the stage settled on.
pub proof fn law_identification_goes_by_the_backers(t: int, replies: Seq<Vote>)
    requires
        1 <= t <= usize::MAX,
    ensures
        distinct_providers(replies) ==> forall|k: int| #[trigger]
            prevails(replies, t, 0, k) ==> accepted_roots(Requirement::AllProviders, t, replies)
                == Ok::<Seq<Vote>, Seq<char>>(backers(replies, replies[k].1)),
        distinct_providers(replies) && divided(replies, t) ==> accepted_roots(
            Requirement::AllProviders,
            t,
            replies,
        ) == Err::<Seq<Vote>, Seq<char>>("ambiguous ciphertext agreement"@),
        distinct_providers(replies) && !divided(replies, t) && (forall|k: int|
            !#[trigger] prevails(replies, t, 0, k)) ==> accepted_roots(
            Requirement::AllProviders,
            t,
            replies,
        ) == Err::<Seq<Vote>, Seq<char>>("insufficient matching ciphertexts"@),
        (exists|i: int| 0 <= i < replies.len() && (#[trigger] replies[i]).0 == 0)
            ==> accepted_roots(Requirement::AllProviders, t, replies) == Err::<
            Seq<Vote>,
            Seq<char>,
        >("duplicate or zero provider id"@),
        (exists|i: int, j: int|
            #![trigger replies[i], replies[j]]
            0 <= i < j < replies.len() && replies[i].0 == replies[j].0) ==> accepted_roots(
            Requirement::AllProviders,
            t,
            replies,
        ) == Err::<Seq<Vote>, Seq<char>>("duplicate or zero provider id"@),
        accepted_roots(Requirement::Threshold, t, replies) == Ok::<Seq<Vote>, Seq<char>>(replies),
{
    law_agreement_counts_each_provider_once(replies, t as usize, 0);
    law_agreement_is_what_enough_providers_say(replies, t, 0);
}

/// With every provider asked, honest providers with shares of one polynomial, as many as
/// the threshold asks for, give the state of their root to any password, whatever the
/// others reply, as long as no other root has as many backers.
pub proof fn law_dissent_does_not_stop_an_identification(
    system: SystemModel,
    password: Seq<u8>,
    r: Seq<u8>,
    replies: Seq<Vote>,
    k: int,
    cid: Seq<u8>,
    timestamp: u64,
    coefficients: Seq<int>,
)
    requires
        system.wf(),
        are_coefficients(coefficients, system.t),
        scalar_value(r) != 0,
        distinct_providers(replies),
        prevails(replies, system.t, 0, k),
        served_roots(
            backers(replies, replies[k].1),
            cid,
            timestamp,
            password,
            scalar_value(r),
            coefficients,
        ),
        identifies_honestly(Requirement::AllProviders, system.t, password, r, Ok(replies)),
    ensures
        identification_result(Requirement::AllProviders, system.t, password, r, Ok(replies))
            == state_in_root(password_key(password, coefficients[0]), cid, timestamp),
        forall|state: StateModel| #[trigger]
            root_opens(cid, password, coefficients[0], state) && state.timestamp == timestamp
                ==> identification_result(
                Requirement::AllProviders,
                system.t,
                password,
                r,
                Ok(replies),
            ) == Ok::<StateModel, Seq<char>>(state),
{
    let t = system.t;
    let rv = scalar_value(r);
    let accepted = backers(replies, replies[k].1);
    law_identification_goes_by_the_backers(t, replies);
    lemma_prevails_is_settled(replies, t, 0, k);
    lemma_backers(replies, replies[k].1);
    lemma_supporters(replies, agreement_value(replies[k].1)->0);
    let used = used_replies(accepted, t);
    assert forall|i: int| #![trigger used[i]] 0 <= i < used.len() implies used[i] == accepted[i] by {}
    assert(provider_ids(used).no_duplicates()) by {
        assert forall|i: int, j: int|
            0 <= i < used.len() && 0 <= j < used.len() && i != j implies provider_ids(used)[i]
            != provider_ids(used)[j] by {
            assert(used[i] == accepted[i] && used[j] == accepted[j]);
            if i < j {
                assert(accepted[i].0 != accepted[j].0);
            } else {
                assert(accepted[j].0 != accepted[i].0);
            }
        }
    }
    lemma_residue(le_value(r) as int);
    law_stored_shares_contribute_honestly(used, password, rv, coefficients);
    assert(coefficients[0] % order() == coefficients[0]) by {
        vstd::arithmetic::div_mod::lemma_small_mod(coefficients[0] as nat, order() as nat);
    }
    assert(accepted[0].1 is Identification);
    assert forall|state: StateModel| #[trigger]
        root_opens(cid, password, coefficients[0], state) && state.timestamp
            == timestamp implies state_in_root(
        password_key(password, coefficients[0]),
        cid,
        timestamp,
    ) == Ok::<StateModel, Seq<char>>(state) by {
        law_sealed_root_is_read(cid, password, coefficients[0], state);
    }
}

/// The key is computed from the first replies, as many as the threshold: what comes behind
/// them does not matter.
pub proof fn law_key_is_of_the_first_replies(
    password: Seq<u8>,
    r: int,
    t: int,
    accepted: Seq<Vote>,
    other: Seq<Vote>,
)
    requires
        1 <= t <= accepted.len(),
        t <= other.len(),
        accepted.take(t) == other.take(t),
    ensures
        identified(password, r, t, accepted) == identified(password, r, t, other),
{
    assert(accepted.take(t)[0] == other.take(t)[0]);
    assert(accepted[0] == other[0]);
    if accepted.len() == t {
        assert(accepted.take(t) =~= accepted);
    }
    if other.len() == t {
        assert(other.take(t) =~= other);
    }
}

/// Among the replies that the key is computed from, one that is no root or whose
/// contribution does not decode fails the identification, with the error of the first.
pub proof fn law_malformed_root_fails_the_identification(
    password: Seq<u8>,
    r: int,
    t: int,
    accepted: Seq<Vote>,
    k: int,
)
    requires
        0 <= k < t,
        k < accepted.len(),
        forall|j: int|
            #![trigger accepted[j]]
            0 <= j < k ==> (accepted[j].1 matches ReplyModel::Identification { contribution, .. }
                && point_decodes(contribution)),
        !(accepted[k].1 matches ReplyModel::Identification { contribution, .. } && point_decodes(
            contribution,
        )),
    ensures
        identified(password, r, t, accepted) == Err::<StateModel, Seq<char>>(
            if accepted[k].1 is Identification {
                "invalid point"@
            } else {
                "invalid root response"@
            },
        ),
{
    let used = used_replies(accepted, t);
    assert(used[k] == accepted[k]);
    assert forall|j: int| #![trigger used[j]] 0 <= j < k implies (
    used[j].1 matches ReplyModel::Identification { contribution, .. } && point_decodes(
        contribution,
    )) by {
        assert(used[j] == accepted[j]);
    }
    lemma_first_fault_is_reported(used, k);
}

proof fn lemma_first_fault_is_reported(replies: Seq<Vote>, k: int)
    requires
        0 <= k < replies.len(),
        forall|j: int|
            #![trigger replies[j]]
            0 <= j < k ==> (replies[j].1 matches ReplyModel::Identification { contribution, .. }
                && point_decodes(contribution)),
        !(replies[k].1 matches ReplyModel::Identification { contribution, .. } && point_decodes(
            contribution,
        )),
    ensures
        first_root_fault(replies) == Some(
            if replies[k].1 is Identification {
                "invalid point"@
            } else {
                "invalid root response"@
            },
        ),
    decreases replies.len(),
{
    let front = replies.drop_last();
    if k < front.len() {
        assert(front[k] == replies[k]);
        assert forall|j: int| #![trigger front[j]] 0 <= j < k implies (
        front[j].1 matches ReplyModel::Identification { contribution, .. } && point_decodes(
            contribution,
        )) by {
            assert(front[j] == replies[j]);
        }
        lemma_first_fault_is_reported(front, k);
    } else {
        assert forall|j: int| #![trigger front[j]] 0 <= j < front.len() implies (
        front[j].1 matches ReplyModel::Identification { contribution, .. } && point_decodes(
            contribution,
        )) by {
            assert(front[j] == replies[j]);
        }
        lemma_no_fault(front);
    }
}

proof fn lemma_no_fault(replies: Seq<Vote>)
    requires
        forall|j: int|
            #![trigger replies[j]]
            0 <= j < replies.len() ==> (replies[j].1 matches ReplyModel::Identification {
                contribution,
                ..
            } && point_decodes(contribution)),
    ensures
        first_root_fault(replies) is None,
    decreases replies.len(),
{
    if replies.len() > 0 {
        let front = replies.drop_last();
        assert forall|j: int| #![trigger front[j]] 0 <= j < front.len() implies (
        front[j].1 matches ReplyModel::Identification { contribution, .. } && point_decodes(
            contribution,
        )) by {
            assert(front[j] == replies[j]);
        }
        lemma_no_fault(front);
        assert(replies[replies.len() - 1] == replies.last());
    }
}

/// A stage that failed fails the identification with the same error.
pub proof fn law_failed_stage_fails_the_identification(
    requirement: Requirement,
    t: int,
    password: Seq<u8>,
    r: Seq<u8>,
    end: StageOutcome,
)
    requires
        end is Err,
    ensures
        identification_result(requirement, t, password, r, end) == Err::<StateModel, Seq<char>>(
            end->Err_0,
        ),
{
}

/// A failed identification ends the phase with its error and without a draw, a pending
/// finalization or a pending resolution that was not there before.
pub proof fn law_failed_identification_ends_the_phase(
    system: SystemModel,
    password: Seq<u8>,
    r: Seq<u8>,
    requirement: Requirement,
    goal: GoalModel,
    end: StageOutcome,
    refused: bool,
    now: u64,
)
    requires
        identification_result(requirement, system.t, password, r, end) is Err,
    ensures
        ({
            let error = identification_result(requirement, system.t, password, r, end)->Err_0;
            let (next, step) = advanced(
                system,
                ProgressModel::Identifying { password, r, requirement, goal },
                end,
                refused,
                now,
            );
            &&& next == system
            &&& step == match goal {
                GoalModel::Report => StepModel::Identified(Err(error)),
                _ => StepModel::Done(Err(error)),
            }
        }),
{
}

} // verus!
