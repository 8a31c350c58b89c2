//! What a stage ends with, told by the content of the answers alone: who backs whom, how
//! many are enough, and which error comes of which answers.

use vstd::prelude::*;

use crate::agreement::{
    agreement, agreement_of, agreement_value, ambiguous, distinct_providers,
    law_agreement_is_on_content, lemma_settled_is_the_outcome, lemma_supporters, qualifies, settled,
    supporters, Vote,
};
use crate::group::point_decodes;
use crate::messages::ReplyModel;
use crate::stage::{
    acknowledged, collected, first_failure, lemma_all_succeeded, policy_objection, successes,
    Arrival, Policy, StageOutcome,
};
use crate::transport::Target;

verus! {

/// Two replies say the same: both are roots with a contribution that decodes, the same
/// ciphertext of 136 bytes and the same timestamp, or both are the same account ciphertext
/// of 80 bytes. A malformed reply says the same as none, not even as itself.
pub open spec fn concur(a: ReplyModel, b: ReplyModel) -> bool {
    match (a, b) {
        (
            ReplyModel::Identification { cid, timestamp, contribution },
            ReplyModel::Identification { cid: other, timestamp: moment, contribution: second },
        ) => cid.len() == 136 && cid == other && timestamp == moment && point_decodes(contribution)
            && point_decodes(second),
        (ReplyModel::Account(ciphertext), ReplyModel::Account(other)) => ciphertext.len() == 80
            && ciphertext == other,
        _ => false,
    }
}

/// The replies that say the same as this one, in the order in which they came.
pub open spec fn backers(replies: Seq<Vote>, reply: ReplyModel) -> Seq<Vote> {
    replies.filter(|vote: Vote| concur(vote.1, reply))
}

/// Among the replies, the one at `k` has enough backers, and none that says something else
/// can still get as many.
pub open spec fn prevails(replies: Seq<Vote>, threshold: int, outstanding: int, k: int) -> bool {
    &&& 0 <= k < replies.len()
    &&& outstanding < threshold <= backers(replies, replies[k].1).len()
    &&& forall|j: int|
        #![trigger replies[j]]
        0 <= j < replies.len() && !concur(replies[j].1, replies[k].1) ==> backers(
            replies,
            replies[j].1,
        ).len() + outstanding < threshold
}

/// Two replies that do not say the same both have enough backers.
pub open spec fn divided(replies: Seq<Vote>, threshold: int) -> bool {
    exists|i: int, j: int|
        #![trigger replies[i], replies[j]]
        0 <= i < replies.len() && 0 <= j < replies.len() && !concur(replies[i].1, replies[j].1)
            && backers(replies, replies[i].1).len() >= threshold && backers(
            replies,
            replies[j].1,
        ).len() >= threshold
}

/// Two replies say the same exactly if they count for the same value.
proof fn lemma_concur(a: ReplyModel, b: ReplyModel)
    ensures
        concur(a, b) <==> agreement_value(a) is Some && agreement_value(a) == agreement_value(b),
{
    if agreement_value(a) is Some && agreement_value(a) == agreement_value(b) {
        law_agreement_is_on_content(a, b);
    }
}

/// The supporters of the value of a reply are its backers.
pub proof fn lemma_backers(replies: Seq<Vote>, reply: ReplyModel)
    ensures
        agreement_value(reply) is Some ==> supporters(replies, agreement_value(reply)->0)
            == backers(replies, reply),
        agreement_value(reply) is None ==> backers(replies, reply).len() == 0,
    decreases replies.len(),
{
    reveal(Seq::filter);
    if replies.len() > 0 {
        lemma_backers(replies.drop_last(), reply);
        lemma_concur(replies.last().1, reply);
    }
}

/// A value with supporters is the value of a reply.
proof fn lemma_supported_value_is_held(replies: Seq<Vote>, value: Seq<u8>) -> (k: int)
    requires
        supporters(replies, value).len() > 0,
    ensures
        0 <= k < replies.len(),
        agreement_value(replies[k].1) == Some(value),
        backers(replies, replies[k].1) == supporters(replies, value),
{
    lemma_supporters(replies, value);
    let vote = supporters(replies, value)[0];
    let k = choose|k: int| 0 <= k < replies.len() && replies[k] == vote;
    lemma_backers(replies, replies[k].1);
    k
}

pub proof fn lemma_prevails_is_settled(
    replies: Seq<Vote>,
    threshold: int,
    outstanding: int,
    k: int,
)
    requires
        0 < threshold,
        0 <= outstanding,
        prevails(replies, threshold, outstanding, k),
    ensures
        agreement_value(replies[k].1) is Some,
        settled(replies, threshold, outstanding, agreement_value(replies[k].1)->0),
{
    lemma_backers(replies, replies[k].1);
    let value = agreement_value(replies[k].1)->0;
    assert forall|other: Seq<u8>|
        #![trigger supporters(replies, other)]
        other != value implies supporters(replies, other).len() + outstanding < threshold by {
        if supporters(replies, other).len() > 0 {
            let j = lemma_supported_value_is_held(replies, other);
            lemma_concur(replies[j].1, replies[k].1);
        }
    }
}

proof fn lemma_settled_prevails(
    replies: Seq<Vote>,
    threshold: int,
    outstanding: int,
    value: Seq<u8>,
) -> (k: int)
    requires
        0 < threshold,
        0 <= outstanding,
        settled(replies, threshold, outstanding, value),
    ensures
        prevails(replies, threshold, outstanding, k),
        supporters(replies, value) == backers(replies, replies[k].1),
{
    let k = lemma_supported_value_is_held(replies, value);
    assert forall|j: int|
        #![trigger replies[j]]
        0 <= j < replies.len() && !concur(replies[j].1, replies[k].1) implies backers(
        replies,
        replies[j].1,
    ).len() + outstanding < threshold by {
        lemma_backers(replies, replies[j].1);
        lemma_concur(replies[j].1, replies[k].1);
    }
    k
}

proof fn lemma_divided(replies: Seq<Vote>, threshold: int)
    requires
        0 < threshold,
    ensures
        divided(replies, threshold) <==> ambiguous(replies, threshold),
{
    if divided(replies, threshold) {
        let (i, j) = choose|i: int, j: int|
            #![trigger replies[i], replies[j]]
            0 <= i < replies.len() && 0 <= j < replies.len() && !concur(
                replies[i].1,
                replies[j].1,
            ) && backers(replies, replies[i].1).len() >= threshold && backers(
                replies,
                replies[j].1,
            ).len() >= threshold;
        lemma_backers(replies, replies[i].1);
        lemma_backers(replies, replies[j].1);
        lemma_concur(replies[i].1, replies[j].1);
        let a = agreement_value(replies[i].1)->0;
        let b = agreement_value(replies[j].1)->0;
        assert(supporters(replies, a).len() >= threshold);
        assert(supporters(replies, b).len() >= threshold);
    }
    if ambiguous(replies, threshold) {
        let (a, b) = choose|a: Seq<u8>, b: Seq<u8>|
            #![trigger supporters(replies, a), supporters(replies, b)]
            a != b && qualifies(replies, threshold, a)
                && qualifies(replies, threshold, b);
        let i = lemma_supported_value_is_held(replies, a);
        let j = lemma_supported_value_is_held(replies, b);
        lemma_concur(replies[i].1, replies[j].1);
        assert(replies[i] == replies[i] && replies[j] == replies[j]);
    }
}

/// The outcome of a list of replies: the backers of the one reply that prevails, whoever
/// says something else; an error as soon as two have enough backers; and if none prevails,
/// an error when no reply is outstanding and nothing while one is.
pub proof fn law_agreement_is_what_enough_providers_say(
    replies: Seq<Vote>,
    threshold: int,
    outstanding: int,
)
    requires
        0 < threshold,
        0 <= outstanding,
    ensures
        forall|k: int| #[trigger]
            prevails(replies, threshold, outstanding, k) ==> agreement(
                replies,
                threshold,
                outstanding,
            ) == Ok::<Option<Seq<Vote>>, Seq<char>>(Some(backers(replies, replies[k].1))),
        divided(replies, threshold) ==> agreement(replies, threshold, outstanding) == Err::<
            Option<Seq<Vote>>,
            Seq<char>,
        >("ambiguous ciphertext agreement"@),
        !divided(replies, threshold) && (forall|k: int|
            !#[trigger] prevails(replies, threshold, outstanding, k)) ==> agreement(
            replies,
            threshold,
            outstanding,
        ) == (if outstanding == 0 {
            Err::<Option<Seq<Vote>>, Seq<char>>("insufficient matching ciphertexts"@)
        } else {
            Ok(None)
        }),
{
    lemma_divided(replies, threshold);
    assert forall|k: int| #[trigger] prevails(replies, threshold, outstanding, k) implies agreement(
        replies,
        threshold,
        outstanding,
    ) == Ok::<Option<Seq<Vote>>, Seq<char>>(Some(backers(replies, replies[k].1))) by {
        lemma_prevails_is_settled(replies, threshold, outstanding, k);
        lemma_backers(replies, replies[k].1);
        lemma_settled_is_the_outcome(
            replies,
            threshold,
            outstanding,
            agreement_value(replies[k].1)->0,
        );
    }
    if exists|value: Seq<u8>| settled(replies, threshold, outstanding, value) {
        let value = choose|value: Seq<u8>| settled(replies, threshold, outstanding, value);
        let k = lemma_settled_prevails(replies, threshold, outstanding, value);
        assert(prevails(replies, threshold, outstanding, k));
    }
}

/// A search for agreement refuses the threshold zero, a provider numbered zero and one that
/// occurs twice, and nothing else.
pub proof fn law_agreement_counts_each_provider_once(
    replies: Seq<Vote>,
    threshold: usize,
    outstanding: usize,
)
    ensures
        threshold == 0 ==> agreement_of(replies, threshold, outstanding) == Err::<
            Option<Seq<Vote>>,
            Seq<char>,
        >("zero threshold"@),
        threshold > 0 && (exists|i: int| 0 <= i < replies.len() && (#[trigger] replies[i]).0 == 0)
            ==> agreement_of(replies, threshold, outstanding) == Err::<
            Option<Seq<Vote>>,
            Seq<char>,
        >("duplicate or zero provider id"@),
        threshold > 0 && (exists|i: int, j: int|
            #![trigger replies[i], replies[j]]
            0 <= i < j < replies.len() && replies[i].0 == replies[j].0) ==> agreement_of(
            replies,
            threshold,
            outstanding,
        ) == Err::<Option<Seq<Vote>>, Seq<char>>("duplicate or zero provider id"@),
        threshold > 0 && (forall|i: int|
            #![trigger replies[i]]
            0 <= i < replies.len() ==> replies[i].0 != 0) && (forall|i: int, j: int|
            #![trigger replies[i], replies[j]]
            0 <= i < j < replies.len() ==> replies[i].0 != replies[j].0) ==> agreement_of(
            replies,
            threshold,
            outstanding,
        ) == agreement(replies, threshold as int, outstanding as int),
{
    if exists|i: int| 0 <= i < replies.len() && (#[trigger] replies[i]).0 == 0 {
        assert(!distinct_providers(replies));
    }
    if exists|i: int, j: int|
        #![trigger replies[i], replies[j]]
        0 <= i < j < replies.len() && replies[i].0 == replies[j].0 {
        assert(!distinct_providers(replies));
    }
}

/// The replies of a stage are its answers without the errors, in the order in which they
/// came, each under the number of its provider and the login server's under zero.
pub proof fn law_replies_are_the_answers_without_errors(arrivals: Seq<Arrival>)
    ensures
        successes(arrivals) == arrivals.filter(|arrival: Arrival| arrival.1 is Ok).map_values(
            |arrival: Arrival|
                (
                    match arrival.0 {
                        Target::Provider(id) => id,
                        Target::LoginServer => 0u32,
                    },
                    arrival.1->Ok_0,
                ),
        ),
    decreases arrivals.len(),
{
    reveal(Seq::filter);
    let keep = |arrival: Arrival| arrival.1 is Ok;
    let named = |arrival: Arrival|
        (
            match arrival.0 {
                Target::Provider(id) => id,
                Target::LoginServer => 0u32,
            },
            arrival.1->Ok_0,
        );
    if arrivals.len() == 0 {
        assert(successes(arrivals) =~= arrivals.filter(keep).map_values(named));
    } else {
        let front = arrivals.drop_last();
        law_replies_are_the_answers_without_errors(front);
        assert(successes(front) == front.filter(keep).map_values(named));
        if arrivals.last().1 is Ok {
            assert(arrivals.filter(keep) == front.filter(keep).push(arrivals.last()));
            assert(arrivals.filter(keep).map_values(named) =~= front.filter(keep).map_values(
                named,
            ).push(named(arrivals.last())));
        }
    }
}

/// A stage that waits for all ends with the last answer and not before. It fails with the
/// error that came first if there is one, and else it has every reply.
pub proof fn law_stage_of_all(count: int, arrivals: Seq<Arrival>)
    ensures
        arrivals.len() < count ==> collected(Policy::All, count, arrivals) is None,
        arrivals.len() >= count && (forall|i: int|
            #![trigger arrivals[i]]
            0 <= i < arrivals.len() ==> arrivals[i].1 is Ok) ==> collected(
            Policy::All,
            count,
            arrivals,
        ) == Some(Ok::<Seq<Vote>, Seq<char>>(successes(arrivals))) && successes(arrivals).len()
            == arrivals.len(),
        arrivals.len() >= count ==> forall|i: int|
            #![trigger arrivals[i]]
            0 <= i < arrivals.len() && arrivals[i].1 is Err && (forall|j: int|
                #![trigger arrivals[j]]
                0 <= j < i ==> arrivals[j].1 is Ok) ==> collected(Policy::All, count, arrivals)
                == Some(Err::<Seq<Vote>, Seq<char>>(arrivals[i].1->Err_0)),
{
    lemma_all_succeeded(arrivals);
    assert forall|i: int|
        #![trigger arrivals[i]]
        0 <= i < arrivals.len() && arrivals[i].1 is Err && (forall|j: int|
            #![trigger arrivals[j]]
            0 <= j < i ==> arrivals[j].1 is Ok) implies first_failure(arrivals) == Some(
        arrivals[i].1->Err_0,
    ) by {
        lemma_first_failure(arrivals, i);
    }
}

proof fn lemma_first_failure(arrivals: Seq<Arrival>, i: int)
    requires
        0 <= i < arrivals.len(),
        arrivals[i].1 is Err,
        forall|j: int| #![trigger arrivals[j]] 0 <= j < i ==> arrivals[j].1 is Ok,
    ensures
        first_failure(arrivals) == Some(arrivals[i].1->Err_0),
    decreases arrivals.len(),
{
    let front = arrivals.drop_last();
    if i < front.len() {
        assert(front[i] == arrivals[i]);
        assert forall|j: int| #![trigger front[j]] 0 <= j < i implies front[j].1 is Ok by {
            assert(front[j] == arrivals[j]);
        }
        lemma_first_failure(front, i);
    } else {
        assert forall|j: int| #![trigger front[j]] 0 <= j < front.len() implies front[j].1 is Ok by {
            assert(front[j] == arrivals[j]);
        }
        lemma_all_succeeded(front);
    }
}

/// A stage cannot wait for an agreement of nobody; every other policy is accepted.
pub proof fn law_agreement_of_nobody_is_refused(policy: Policy)
    ensures
        policy_objection(policy) is Some <==> policy == Policy::Agreement(0),
        policy_objection(policy) is Some ==> policy_objection(policy)->0 == "zero threshold"@,
{
}

/// A stage that waits for agreement goes by the replies so far, with every target that has
/// not answered outstanding: it ends with the backers of the reply that prevails, with an
/// error of the replies, or, once nothing is outstanding, for want of agreement. Targets
/// that answered with an error count for nothing.
pub proof fn law_stage_of_agreement(threshold: usize, count: int, arrivals: Seq<Arrival>)
    requires
        0 < threshold,
        arrivals.len() <= count,
    ensures
        ({
            let replies = successes(arrivals);
            let outstanding = count - arrivals.len();
            let end = collected(Policy::Agreement(threshold), count, arrivals);
            let distinct = (forall|i: int|
                #![trigger replies[i]]
                0 <= i < replies.len() ==> replies[i].0 != 0) && (forall|i: int, j: int|
                #![trigger replies[i], replies[j]]
                0 <= i < j < replies.len() ==> replies[i].0 != replies[j].0);
            &&& !distinct ==> end == Some(
                Err::<Seq<Vote>, Seq<char>>("duplicate or zero provider id"@),
            )
            &&& distinct ==> forall|k: int| #[trigger]
                prevails(replies, threshold as int, outstanding, k) ==> end == Some(
                    Ok::<Seq<Vote>, Seq<char>>(backers(replies, replies[k].1)),
                )
            &&& distinct && divided(replies, threshold as int) ==> end == Some(
                Err::<Seq<Vote>, Seq<char>>("ambiguous ciphertext agreement"@),
            )
            &&& distinct && !divided(replies, threshold as int) && (forall|k: int|
                !#[trigger] prevails(replies, threshold as int, outstanding, k)) ==> end == (
            if outstanding == 0 {
                Some(Err::<Seq<Vote>, Seq<char>>("insufficient matching ciphertexts"@))
            } else {
                None
            })
        }),
{
    let replies = successes(arrivals);
    law_agreement_is_what_enough_providers_say(
        replies,
        threshold as int,
        count - arrivals.len(),
    );
    let distinct = (forall|i: int|
        #![trigger replies[i]]
        0 <= i < replies.len() ==> replies[i].0 != 0) && (forall|i: int, j: int|
        #![trigger replies[i], replies[j]]
        0 <= i < j < replies.len() ==> replies[i].0 != replies[j].0);
    assert(distinct == distinct_providers(replies));
}

/// A stage of acknowledgements succeeds exactly if it ended with replies and each of them
/// is a positive acknowledgement. Otherwise it fails with the stage's error, or because a
/// reply is something else.
pub proof fn law_every_acknowledgement_counts(end: StageOutcome)
    ensures
        acknowledged(end) == Ok::<(), Seq<char>>(()) <==> end is Ok && forall|i: int|
            #![trigger end->Ok_0[i]]
            0 <= i < end->Ok_0.len() ==> end->Ok_0[i].1 == ReplyModel::Ack(true),
        end is Err ==> acknowledged(end) == Err::<(), Seq<char>>(end->Err_0),
        end is Ok && acknowledged(end) is Err ==> acknowledged(end) == Err::<(), Seq<char>>(
            "operation rejected"@,
        ),
{
}

} // verus!
