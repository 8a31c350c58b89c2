//! One round of requests: which replies a stage waits for and what it ends with.

use vstd::prelude::*;

use crate::agreement::{
    agreement, copy_replies, distinct_providers, law_agreement_stands, lemma_settled_is_the_outcome,
    settled, supporters, votes, AgreementTracker, Vote,
};
use crate::messages::{
    answer, message, outcome, require_ack, Answer, Outcome, Reply, ReplyModel, Request,
    RequestModel, Result,
};
use crate::transport::Target;

verus! {

/// Which replies a stage waits for: all of them, or as many matching ones as a
/// threshold asks for.
#[derive(Clone, Copy, Debug, PartialEq, Eq, Structural)]
pub enum Policy {
    All,
    Agreement(usize),
}

/// Model of a list of requests.
pub open spec fn sent(requests: Seq<(Target, Request)>) -> Seq<(Target, RequestModel)> {
    Seq::new(requests.len(), |i: int| (requests[i].0, requests[i].1@))
}

/// A copy of a list of requests.
pub fn copy_requests(requests: &[(Target, Request)]) -> (copy: Vec<(Target, Request)>)
    ensures
        sent(copy@) == sent(requests@),
{
    let mut copy: Vec<(Target, Request)> = Vec::new();
    let mut i: usize = 0;
    while i < requests.len()
        invariant
            i <= requests.len(),
            copy@.len() == i,
            forall|k: int|
                #![trigger copy@[k]]
                0 <= k < i ==> copy@[k].0 == requests@[k].0 && copy@[k].1@ == requests@[k].1@,
        decreases requests.len() - i,
    {
        copy.push((requests[i].0, requests[i].1.clone()));
        i += 1;
    }
    assert(sent(copy@) =~= sent(requests@));
    copy
}

/// The answer of a target.
pub type Arrival = (Target, Answer);

/// What a stage ends with: replies with their senders, or an error.
pub type StageOutcome = std::result::Result<Seq<Vote>, Seq<char>>;

/// Model of what a stage ends with.
pub open spec fn stage_outcome(result: Result<Vec<(u32, Reply)>>) -> StageOutcome {
    match result {
        Ok(replies) => Ok(votes(replies@)),
        Err(error) => Err(error@),
    }
}

/// The number under which a target replies. The login server has none.
pub open spec fn sender(target: Target) -> u32 {
    match target {
        Target::Provider(id) => id,
        Target::LoginServer => 0,
    }
}

/// The replies among the answers, in the order in which they came.
pub open spec fn successes(arrivals: Seq<Arrival>) -> Seq<Vote>
    decreases arrivals.len(),
{
    if arrivals.len() == 0 {
        Seq::empty()
    } else {
        let earlier = successes(arrivals.drop_last());
        match arrivals.last().1 {
            Ok(reply) => earlier.push((sender(arrivals.last().0), reply)),
            Err(_) => earlier,
        }
    }
}

/// The first error among the answers.
pub open spec fn first_failure(arrivals: Seq<Arrival>) -> Option<Seq<char>>
    decreases arrivals.len(),
{
    if arrivals.len() == 0 {
        None
    } else {
        match first_failure(arrivals.drop_last()) {
            Some(error) => Some(error),
            None => match arrivals.last().1 {
                Ok(_) => None,
                Err(error) => Some(error),
            },
        }
    }
}

/// What a stage of `count` requests ends with once these answers are in, or nothing if
/// it has to wait.
pub open spec fn collected(policy: Policy, count: int, arrivals: Seq<Arrival>) -> Option<
    StageOutcome,
> {
    match policy {
        Policy::All => if arrivals.len() < count {
            None
        } else {
            match first_failure(arrivals) {
                Some(error) => Some(Err(error)),
                None => Some(Ok(successes(arrivals))),
            }
        },
        Policy::Agreement(threshold) => if !distinct_providers(successes(arrivals)) {
            Some(Err("duplicate or zero provider id"@))
        } else {
            match agreement(successes(arrivals), threshold as int, count - arrivals.len()) {
                Ok(Some(accepted)) => Some(Ok(accepted)),
                Ok(None) => None,
                Err(error) => Some(Err(error)),
            }
        },
    }
}

/// What stands against a policy: an agreement of nobody.
pub open spec fn policy_objection(policy: Policy) -> Option<Seq<char>> {
    if policy == Policy::Agreement(0) {
        Some("zero threshold"@)
    } else {
        None
    }
}

/// Collects the answers of one stage.
pub struct Collector {
    policy: Policy,
    count: usize,
    received: usize,
    replies: Vec<(u32, Reply)>,
    first_error: Option<String>,
    tracker: Option<AgreementTracker>,
    arrivals: Ghost<Seq<Arrival>>,
}

/// Model of [`Collector`]: how the stage was started and the answers so far.
pub struct CollectorModel {
    pub policy: Policy,
    pub count: int,
    pub arrivals: Seq<Arrival>,
}

impl View for Collector {
    type V = CollectorModel;

    closed spec fn view(&self) -> CollectorModel {
        CollectorModel {
            policy: self.policy,
            count: self.count as int,
            arrivals: self.arrivals@,
        }
    }
}

impl Collector {
    /// Replies, first error and tracker are those of the answers so far.
    pub closed spec fn wf(&self) -> bool {
        &&& self.received == self.arrivals@.len()
        &&& self.received <= self.count
        &&& votes(self.replies@) == successes(self.arrivals@)
        &&& first_failure(self.arrivals@) == (match self.first_error {
            Some(error) => Some(error@),
            None => None,
        })
        &&& match self.policy {
            Policy::All => self.tracker is None,
            Policy::Agreement(threshold) => threshold >= 1 && self.tracker is Some
                && self.tracker->0.wf() && self.tracker->0@.threshold == threshold
                && self.tracker->0@.replies == successes(self.arrivals@) && distinct_providers(
                successes(self.arrivals@),
            ),
        }
    }

    /// Starts a stage of `count` requests.
    pub fn new(policy: Policy, count: usize) -> (result: Result<Self>)
        ensures
            match result {
                Ok(collector) => policy_objection(policy) is None && collector.wf() && collector@
                    == (CollectorModel { policy, count: count as int, arrivals: Seq::empty() }),
                Err(error) => policy_objection(policy) == Some(error@),
            },
    {
        let tracker = match policy {
            Policy::Agreement(threshold) => match AgreementTracker::new(threshold) {
                Ok(tracker) => Some(tracker),
                Err(error) => {
                    return Err(error);
                },
            },
            Policy::All => None,
        };
        let collector = Collector {
            policy,
            count,
            received: 0,
            replies: Vec::new(),
            first_error: None,
            tracker,
            arrivals: Ghost(Seq::empty()),
        };
        assert(votes(collector.replies@) =~= successes(collector.arrivals@));
        Ok(collector)
    }

    /// What the stage ends with, or nothing if it has to wait for more answers.
    pub fn poll(&self) -> (result: Option<Result<Vec<(u32, Reply)>>>)
        requires
            self.wf(),
        ensures
            collected(self@.policy, self@.count, self@.arrivals) == (match result {
                Some(end) => Some(stage_outcome(end)),
                None => None,
            }),
    {
        match &self.tracker {
            Some(tracker) => match tracker.resolve(self.count - self.received) {
                Ok(Some(accepted)) => Some(Ok(accepted)),
                Ok(None) => None,
                Err(error) => Some(Err(error)),
            },
            None => {
                if self.received < self.count {
                    return None;
                }
                match &self.first_error {
                    Some(error) => Some(Err(error.clone())),
                    None => Some(Ok(copy_replies(self.replies.as_slice()))),
                }
            },
        }
    }

    /// Takes in one answer. Returns what the stage ends with, or nothing if it has to
    /// wait for more.
    pub fn receive(&mut self, target: Target, response: Result<Reply>) -> (result: Option<
        Result<Vec<(u32, Reply)>>,
    >)
        requires
            old(self).wf(),
            old(self)@.arrivals.len() < old(self)@.count,
        ensures
            collected(
                old(self)@.policy,
                old(self)@.count,
                old(self)@.arrivals.push((target, answer(response))),
            ) == (match result {
                Some(end) => Some(stage_outcome(end)),
                None => None,
            }),
            result is None ==> final(self).wf() && final(self)@ == (CollectorModel {
                arrivals: old(self)@.arrivals.push((target, answer(response))),
                ..old(self)@
            }),
    {
        let ghost before = self.arrivals@;
        let ghost after = before.push((target, answer(response)));
        assert(after.drop_last() =~= before);
        match response {
            Ok(reply) => {
                let id = match target {
                    Target::Provider(id) => id,
                    Target::LoginServer => 0,
                };
                let ghost vote: Vote = (id, reply@);
                assert(successes(after) == successes(before).push(vote));
                let mut tracker: Option<AgreementTracker> = None;
                std::mem::swap(&mut tracker, &mut self.tracker);
                match tracker {
                    Some(mut tracker) => {
                        match tracker.push(id, reply.clone()) {
                            Ok(_) => {},
                            Err(error) => {
                                return Some(Err(error));
                            },
                        }
                        self.tracker = Some(tracker);
                    },
                    None => {},
                }
                let ghost earlier = self.replies@;
                self.replies.push((id, reply));
                assert(votes(self.replies@) =~= votes(earlier).push(vote));
            },
            Err(error) => {
                if self.first_error.is_none() {
                    self.first_error = Some(error);
                }
            },
        }
        self.received += 1;
        self.arrivals = Ghost(after);
        self.poll()
    }
}

/// What a stage ends with whose deadline passed.
pub open spec fn deadline_passed() -> StageOutcome {
    Err("stage deadline exceeded"@)
}

/// What a stage ends with whose deadline passed.
pub fn expired() -> (result: Result<Vec<(u32, Reply)>>)
    ensures
        stage_outcome(result) == deadline_passed(),
{
    Err(message("stage deadline exceeded"))
}

/// Every reply is a positive acknowledgement.
pub open spec fn all_acknowledged(replies: Seq<Vote>) -> bool {
    forall|i: int| #![trigger replies[i]] 0 <= i < replies.len() ==> replies[i].1 == ReplyModel::Ack(
        true,
    )
}

/// The outcome of a stage whose replies must all be positive acknowledgements.
pub open spec fn acknowledged(end: StageOutcome) -> Outcome {
    match end {
        Ok(replies) => if all_acknowledged(replies) {
            Ok(())
        } else {
            Err("operation rejected"@)
        },
        Err(error) => Err(error),
    }
}

/// Succeeds exactly if the stage did and every reply is a positive acknowledgement.
pub fn require_acks(end: Result<Vec<(u32, Reply)>>) -> (result: Result<()>)
    ensures
        outcome(result) == acknowledged(stage_outcome(end)),
{
    let replies = match end {
        Ok(replies) => replies,
        Err(error) => {
            return Err(error);
        },
    };
    let ghost all = votes(replies@);
    let mut i: usize = 0;
    while i < replies.len()
        invariant
            i <= replies.len(),
            all == votes(replies@),
            stage_outcome(end) == Ok::<Seq<Vote>, Seq<char>>(all),
            forall|k: int| #![trigger all[k]] 0 <= k < i ==> all[k].1 == ReplyModel::Ack(true),
        decreases replies.len() - i,
    {
        assert(all[i as int].1 == replies@[i as int].1@);
        match require_ack(replies[i].1.clone()) {
            Ok(_) => {},
            Err(error) => {
                assert(!all_acknowledged(all));
                return Err(error);
            },
        }
        i += 1;
    }
    Ok(())
}

/// Answers without an error are replies, one by one.
pub proof fn lemma_all_succeeded(arrivals: Seq<Arrival>)
    ensures
        first_failure(arrivals) is None <==> forall|i: int|
            #![trigger arrivals[i]]
            0 <= i < arrivals.len() ==> arrivals[i].1 is Ok,
        first_failure(arrivals) is None ==> successes(arrivals).len() == arrivals.len()
            && forall|i: int|
            #![trigger successes(arrivals)[i]]
            0 <= i < arrivals.len() ==> successes(arrivals)[i] == (
                sender(arrivals[i].0),
                arrivals[i].1->Ok_0,
            ),
        successes(arrivals).len() <= arrivals.len(),
    decreases arrivals.len(),
{
    if arrivals.len() > 0 {
        let front = arrivals.drop_last();
        lemma_all_succeeded(front);
        if first_failure(arrivals) is None {
            assert forall|i: int|
                #![trigger arrivals[i]]
                0 <= i < arrivals.len() implies arrivals[i].1 is Ok by {
                if i < front.len() {
                    assert(front[i].1 is Ok);
                } else {
                    assert(arrivals[i] == arrivals.last());
                }
            }
            assert forall|i: int|
                #![trigger successes(arrivals)[i]]
                0 <= i < arrivals.len() implies successes(arrivals)[i] == (
                sender(arrivals[i].0),
                arrivals[i].1->Ok_0,
            ) by {
                if i < front.len() {
                    assert(front[i] == arrivals[i]);
                    assert(successes(arrivals)[i] == successes(front)[i]);
                } else {
                    assert(arrivals[i] == arrivals.last());
                }
            }
        } else if forall|i: int|
            #![trigger arrivals[i]]
            0 <= i < arrivals.len() ==> arrivals[i].1 is Ok {
            assert(arrivals[arrivals.len() - 1].1 is Ok);
            assert forall|i: int| #![trigger front[i]] 0 <= i < front.len() implies front[i].1
                is Ok by {
                assert(front[i] == arrivals[i]);
            }
        }
    }
}

/// A stage that waits for all succeeds exactly if every target answered with a reply; it
/// ends with all of them.
pub proof fn law_all_means_every_reply(count: int, arrivals: Seq<Arrival>)
    requires
        arrivals.len() <= count,
    ensures
        collected(Policy::All, count, arrivals) matches Some(Ok(replies)) ==> replies.len()
            == count && forall|i: int|
            #![trigger replies[i]]
            0 <= i < count ==> arrivals[i].1 is Ok && replies[i] == (
                sender(arrivals[i].0),
                arrivals[i].1->Ok_0,
            ),
        (collected(Policy::All, count, arrivals) matches Some(Ok(_))) <==> arrivals.len() == count
            && forall|i: int| #![trigger arrivals[i]] 0 <= i < count ==> arrivals[i].1 is Ok,
{
    lemma_all_succeeded(arrivals);
}

/// A stage always ends: with every answer in there is nothing to wait for.
pub proof fn law_complete_stage_ends(policy: Policy, count: int, arrivals: Seq<Arrival>)
    requires
        arrivals.len() == count,
    ensures
        collected(policy, count, arrivals) is Some,
{
}

proof fn lemma_successes_concat(a: Seq<Arrival>, b: Seq<Arrival>)
    ensures
        successes(a + b) == successes(a) + successes(b),
    decreases b.len(),
{
    if b.len() == 0 {
        assert(a + b =~= a);
        assert(successes(a) + successes(b) =~= successes(a));
    } else {
        lemma_successes_concat(a, b.drop_last());
        assert((a + b).drop_last() =~= a + b.drop_last());
        assert((a + b).last() == b.last());
        assert(successes(a + b) =~= successes(a) + successes(b));
    }
}

/// A stage that waits for agreement need not wait for the rest: whatever the remaining
/// targets answer, the stage would have ended with the same value.
pub proof fn law_late_answers_change_nothing(
    threshold: usize,
    count: int,
    arrivals: Seq<Arrival>,
    later: Seq<Arrival>,
)
    requires
        arrivals.len() + later.len() <= count,
        collected(Policy::Agreement(threshold), count, arrivals) matches Some(Ok(_)),
        distinct_providers(successes(arrivals + later)),
    ensures
        exists|value: Seq<u8>|
            {
                &&& #[trigger] settled(
                    successes(arrivals),
                    threshold as int,
                    count - arrivals.len(),
                    value,
                )
                &&& collected(Policy::Agreement(threshold), count, arrivals) == Some(
                    Ok::<Seq<Vote>, Seq<char>>(supporters(successes(arrivals), value)),
                )
                &&& collected(Policy::Agreement(threshold), count, arrivals + later) == Some(
                    Ok::<Seq<Vote>, Seq<char>>(
                        supporters(successes(arrivals), value) + supporters(
                            successes(later),
                            value,
                        ),
                    ),
                )
            },
{
    let replies = successes(arrivals);
    let outstanding = count - arrivals.len();
    let value = choose|value: Seq<u8>| settled(replies, threshold as int, outstanding, value);
    assert(settled(replies, threshold as int, outstanding, value));
    lemma_successes_concat(arrivals, later);
    lemma_all_succeeded(later);
    law_agreement_stands(replies, successes(later), threshold as int, outstanding, value);
    let missing = count - (arrivals + later).len();
    assert(outstanding - successes(later).len() >= missing);
    lemma_fewer_outstanding(
        replies + successes(later),
        threshold as int,
        outstanding - successes(later).len(),
        missing,
        value,
    );
    crate::agreement::lemma_supporters_concat(replies, successes(later), value);
}

/// A value that is settled stays settled when fewer replies are outstanding.
proof fn lemma_fewer_outstanding(
    replies: Seq<Vote>,
    threshold: int,
    more: int,
    fewer: int,
    value: Seq<u8>,
)
    requires
        0 <= fewer <= more,
        settled(replies, threshold, more, value),
    ensures
        settled(replies, threshold, fewer, value),
        agreement(replies, threshold, fewer) == Ok::<Option<Seq<Vote>>, Seq<char>>(
            Some(supporters(replies, value)),
        ),
{
    assert(settled(replies, threshold, fewer, value));
    lemma_settled_is_the_outcome(replies, threshold, fewer, value);
}

} // verus!
