//! Agreement of providers on one ciphertext: which replies support the same value, and
//! when no reply that is still outstanding can change the outcome.

use vstd::prelude::*;

use std::collections::HashSet;

use crate::bytes::{copy_bytes, same_bytes};
use crate::crypto::is_blob;
use crate::group::{decode_point, point_decodes};
use crate::messages::{decode_blob, message, ACCOUNT_LEN, ROOT_LEN, Reply, ReplyModel, Result};
use crate::wire::{law_stamped_is_injective, serialize_stamped, stamped};

verus! {

/// A reply with the provider that sent it.
pub type Vote = (u32, ReplyModel);

/// Model of a list of replies.
pub open spec fn votes(replies: Seq<(u32, Reply)>) -> Seq<Vote> {
    Seq::new(replies.len(), |i: int| (replies[i].0, replies[i].1@))
}

/// The providers of the replies.
pub open spec fn provider_ids(replies: Seq<Vote>) -> Seq<u32> {
    Seq::new(replies.len(), |i: int| replies[i].0)
}

/// What providers have to agree on: ciphertext and timestamp of a root, ciphertext of
/// an account. A malformed reply supports nothing.
pub open spec fn agreement_value(reply: ReplyModel) -> Option<Seq<u8>> {
    match reply {
        ReplyModel::Identification { cid, timestamp, contribution } => if point_decodes(
            contribution,
        ) && is_blob(cid, ROOT_LEN as int) {
            Some(stamped(cid, timestamp))
        } else {
            None
        },
        ReplyModel::Account(ciphertext) => if is_blob(ciphertext, ACCOUNT_LEN as int) {
            Some(ciphertext)
        } else {
            None
        },
        _ => None,
    }
}

/// The value that a reply supports.
pub fn agreement_key(reply: &Reply) -> (key: Option<Vec<u8>>)
    ensures
        agreement_value(reply@) == (match key {
            Some(bytes) => Some(bytes@),
            None => None,
        }),
{
    match reply {
        Reply::Identification { cid, timestamp, contribution } => {
            if !decode_point(contribution) || decode_blob::<ROOT_LEN>(cid.as_slice()).is_err() {
                return None;
            }
            Some(serialize_stamped(cid, *timestamp))
        },
        Reply::Account(ciphertext) => {
            if decode_blob::<ACCOUNT_LEN>(ciphertext.as_slice()).is_err() {
                return None;
            }
            Some(copy_bytes(ciphertext.as_slice()))
        },
        _ => None,
    }
}

/// Two replies that support the same value carry the same ciphertext, and roots the
/// same timestamp.
pub proof fn law_agreement_is_on_content(a: ReplyModel, b: ReplyModel)
    requires
        agreement_value(a) is Some,
    ensures
        agreement_value(a) == agreement_value(b) ==> match (a, b) {
            (
                ReplyModel::Identification { cid, timestamp, .. },
                ReplyModel::Identification { cid: other, timestamp: moment, .. },
            ) => cid == other && timestamp == moment,
            (ReplyModel::Account(ciphertext), ReplyModel::Account(other)) => ciphertext == other,
            _ => false,
        },
{
    match (a, b) {
        (
            ReplyModel::Identification { cid, timestamp, .. },
            ReplyModel::Identification { cid: other, timestamp: moment, .. },
        ) => {
            if agreement_value(b) is Some {
                law_stamped_is_injective(cid, timestamp, other, moment);
            }
        },
        (ReplyModel::Identification { cid, timestamp, .. }, ReplyModel::Account(_)) => {
            assert(stamped(cid, timestamp).len() > 140) by {
                vstd::bytes::lemma_auto_spec_u64_to_from_le_bytes();
            }
        },
        (ReplyModel::Account(_), ReplyModel::Identification { cid, timestamp, .. }) => {
            assert(is_blob(cid, ROOT_LEN as int) ==> stamped(cid, timestamp).len() > 140) by {
                vstd::bytes::lemma_auto_spec_u64_to_from_le_bytes();
            }
        },
        _ => {},
    }
}

/// The replies that support a value, in the order in which they came.
pub open spec fn supporters(replies: Seq<Vote>, value: Seq<u8>) -> Seq<Vote>
    decreases replies.len(),
{
    if replies.len() == 0 {
        Seq::empty()
    } else {
        let earlier = supporters(replies.drop_last(), value);
        if agreement_value(replies.last().1) == Some(value) {
            earlier.push(replies.last())
        } else {
            earlier
        }
    }
}

/// A value has as many supporters as the threshold asks for.
pub open spec fn qualifies(replies: Seq<Vote>, threshold: int, value: Seq<u8>) -> bool {
    supporters(replies, value).len() >= threshold
}

/// Two values have as many supporters as the threshold asks for.
pub open spec fn ambiguous(replies: Seq<Vote>, threshold: int) -> bool {
    exists|a: Seq<u8>, b: Seq<u8>|
        #![trigger supporters(replies, a), supporters(replies, b)]
        a != b && qualifies(replies, threshold, a) && qualifies(replies, threshold, b)
}

/// A value qualifies, and the outstanding replies cannot lift another one to the
/// threshold.
pub open spec fn settled(
    replies: Seq<Vote>,
    threshold: int,
    outstanding: int,
    value: Seq<u8>,
) -> bool {
    &&& qualifies(replies, threshold, value)
    &&& outstanding < threshold
    &&& forall|other: Seq<u8>|
        #![trigger supporters(replies, other)]
        other != value ==> supporters(replies, other).len() + outstanding < threshold
}

/// Result of a search for agreement: the supporters, or nothing yet, or an error.
pub type Verdict = std::result::Result<Option<Seq<Vote>>, Seq<char>>;

/// The outcome of the replies so far, with some outstanding.
pub open spec fn agreement(replies: Seq<Vote>, threshold: int, outstanding: int) -> Verdict {
    if ambiguous(replies, threshold) {
        Err("ambiguous ciphertext agreement"@)
    } else if exists|value: Seq<u8>| settled(replies, threshold, outstanding, value) {
        Ok(
            Some(
                supporters(
                    replies,
                    choose|value: Seq<u8>| settled(replies, threshold, outstanding, value),
                ),
            ),
        )
    } else if outstanding == 0 {
        Err("insufficient matching ciphertexts"@)
    } else {
        Ok(None)
    }
}

/// No provider is numbered zero or occurs twice.
pub open spec fn distinct_providers(replies: Seq<Vote>) -> bool {
    &&& forall|i: int| #![trigger replies[i]] 0 <= i < replies.len() ==> replies[i].0 != 0
    &&& forall|i: int, j: int|
        #![trigger replies[i], replies[j]]
        0 <= i < j < replies.len() ==> replies[i].0 != replies[j].0
}

/// Model of the result of a search for agreement.
pub open spec fn verdict(result: Result<Option<Vec<(u32, Reply)>>>) -> Verdict {
    match result {
        Ok(Some(accepted)) => Ok(Some(votes(accepted@))),
        Ok(None) => Ok(None),
        Err(error) => Err(error@),
    }
}

/// At most one value is settled.
pub proof fn lemma_one_value_settles(
    replies: Seq<Vote>,
    threshold: int,
    outstanding: int,
    a: Seq<u8>,
    b: Seq<u8>,
)
    requires
        0 <= outstanding,
        settled(replies, threshold, outstanding, a),
        settled(replies, threshold, outstanding, b),
    ensures
        a == b,
{
}

/// A settled value decides the outcome.
pub proof fn lemma_settled_is_the_outcome(
    replies: Seq<Vote>,
    threshold: int,
    outstanding: int,
    value: Seq<u8>,
)
    requires
        0 <= outstanding,
        settled(replies, threshold, outstanding, value),
    ensures
        agreement(replies, threshold, outstanding) == Ok::<Option<Seq<Vote>>, Seq<char>>(
            Some(supporters(replies, value)),
        ),
{
    assert forall|a: Seq<u8>, b: Seq<u8>|
        #![trigger supporters(replies, a), supporters(replies, b)]
        a != b implies !(qualifies(replies, threshold, a) && qualifies(replies, threshold, b)) by {
    }
    let chosen = choose|v: Seq<u8>| settled(replies, threshold, outstanding, v);
    lemma_one_value_settles(replies, threshold, outstanding, value, chosen);
}

/// What supporters are: replies of the list with that value, each with its provider.
pub proof fn lemma_supporters(replies: Seq<Vote>, value: Seq<u8>)
    ensures
        supporters(replies, value).len() <= replies.len(),
        forall|i: int|
            #![trigger supporters(replies, value)[i]]
            0 <= i < supporters(replies, value).len() ==> agreement_value(
                supporters(replies, value)[i].1,
            ) == Some(value) && replies.contains(supporters(replies, value)[i]),
        distinct_providers(replies) ==> distinct_providers(supporters(replies, value)),
    decreases replies.len(),
{
    if replies.len() > 0 {
        let front = replies.drop_last();
        lemma_supporters(front, value);
        let s = supporters(replies, value);
        let earlier = supporters(front, value);
        assert(replies[replies.len() - 1] == replies.last());
        assert forall|i: int| #![trigger s[i]] 0 <= i < s.len() implies agreement_value(s[i].1)
            == Some(value) && replies.contains(s[i]) by {
            if i < earlier.len() {
                assert(s[i] == earlier[i]);
                let k = choose|k: int| 0 <= k < front.len() && front[k] == earlier[i];
                assert(replies[k] == earlier[i]);
            }
        }
        if distinct_providers(replies) {
            assert(distinct_providers(front)) by {
                assert forall|i: int| #![trigger front[i]] 0 <= i < front.len() implies front[i].0
                    != 0 by {
                    assert(front[i] == replies[i]);
                }
                assert forall|i: int, j: int|
                    #![trigger front[i], front[j]]
                    0 <= i < j < front.len() implies front[i].0 != front[j].0 by {
                    assert(front[i] == replies[i] && front[j] == replies[j]);
                }
            }
            assert forall|i: int| #![trigger s[i]] 0 <= i < s.len() implies s[i].0 != 0 by {
                let k = choose|k: int| 0 <= k < replies.len() && replies[k] == s[i];
                assert(replies[k].0 != 0);
            }
            assert forall|i: int, j: int| #![trigger s[i], s[j]] 0 <= i < j < s.len() implies s[i].0
                != s[j].0 by {
                assert(s[i] == earlier[i]);
                assert(front.contains(earlier[i]));
                let k = choose|k: int| 0 <= k < front.len() && front[k] == earlier[i];
                assert(replies[k] == s[i]);
                if j < earlier.len() {
                    assert(s[j] == earlier[j]);
                } else {
                    assert(s[j] == replies[replies.len() - 1]);
                }
            }
        }
    }
}

/// Supporters among two lists of replies, one after the other.
pub proof fn lemma_supporters_concat(a: Seq<Vote>, b: Seq<Vote>, value: Seq<u8>)
    ensures
        supporters(a + b, value) == supporters(a, value) + supporters(b, value),
    decreases b.len(),
{
    if b.len() == 0 {
        assert(a + b =~= a);
        assert(supporters(a, value) + supporters(b, value) =~= supporters(a, value));
    } else {
        lemma_supporters_concat(a, b.drop_last(), value);
        assert((a + b).drop_last() =~= a + b.drop_last());
        assert((a + b).last() == b.last());
        assert(supporters(a + b, value) =~= supporters(a, value) + supporters(b, value));
    }
}

/// An agreement stands: whatever the outstanding providers still reply, the same value is
/// the outcome, with the same supporters and those that came later.
pub proof fn law_agreement_stands(
    replies: Seq<Vote>,
    later: Seq<Vote>,
    threshold: int,
    outstanding: int,
    value: Seq<u8>,
)
    requires
        later.len() <= outstanding,
        settled(replies, threshold, outstanding, value),
    ensures
        agreement(replies, threshold, outstanding) == Ok::<Option<Seq<Vote>>, Seq<char>>(
            Some(supporters(replies, value)),
        ),
        settled(replies + later, threshold, outstanding - later.len(), value),
        agreement(replies + later, threshold, outstanding - later.len()) == Ok::<
            Option<Seq<Vote>>,
            Seq<char>,
        >(Some(supporters(replies, value) + supporters(later, value))),
{
    lemma_settled_is_the_outcome(replies, threshold, outstanding, value);
    lemma_supporters_concat(replies, later, value);
    assert forall|other: Seq<u8>|
        #![trigger supporters(replies + later, other)]
        other != value implies supporters(replies + later, other).len() + (outstanding
        - later.len()) < threshold by {
        lemma_supporters_concat(replies, later, other);
        lemma_supporters(later, other);
        assert(supporters(replies, other).len() + outstanding < threshold);
    }
    lemma_settled_is_the_outcome(replies + later, threshold, outstanding - later.len(), value);
}

/// An accepted agreement is one value with at least as many distinct providers as the
/// threshold asks for.
pub proof fn law_agreement_has_threshold_support(
    replies: Seq<Vote>,
    threshold: int,
    outstanding: int,
    accepted: Seq<Vote>,
)
    requires
        0 < threshold,
        0 <= outstanding,
        distinct_providers(replies),
        agreement(replies, threshold, outstanding) == Ok::<Option<Seq<Vote>>, Seq<char>>(
            Some(accepted),
        ),
    ensures
        accepted.len() >= threshold,
        distinct_providers(accepted),
        forall|i: int| #![trigger accepted[i]] 0 <= i < accepted.len() ==> replies.contains(
            accepted[i],
        ),
        exists|value: Seq<u8>|
            settled(replies, threshold, outstanding, value) && accepted == supporters(
                replies,
                value,
            ),
        forall|i: int, j: int|
            #![trigger accepted[i], accepted[j]]
            0 <= i < accepted.len() && 0 <= j < accepted.len() ==> agreement_value(accepted[i].1)
                is Some && agreement_value(accepted[i].1) == agreement_value(accepted[j].1),
{
    let value = choose|value: Seq<u8>| settled(replies, threshold, outstanding, value);
    assert(settled(replies, threshold, outstanding, value));
    lemma_supporters(replies, value);
}

/// Two values with enough supporters are never decided between, however many replies are
/// outstanding, and none of the replies that may still come can mend it.
pub proof fn law_ambiguity_is_final(
    replies: Seq<Vote>,
    later: Seq<Vote>,
    threshold: int,
    outstanding: int,
)
    requires
        ambiguous(replies, threshold),
    ensures
        agreement(replies + later, threshold, outstanding) == Err::<Option<Seq<Vote>>, Seq<char>>(
            "ambiguous ciphertext agreement"@,
        ),
{
    let (a, b) = choose|a: Seq<u8>, b: Seq<u8>|
        #![trigger supporters(replies, a), supporters(replies, b)]
        a != b && qualifies(replies, threshold, a) && qualifies(replies, threshold, b);
    lemma_supporters_concat(replies, later, a);
    lemma_supporters_concat(replies, later, b);
    assert(supporters(replies + later, a).len() >= threshold);
    assert(supporters(replies + later, b).len() >= threshold);
}

/// Replies that all support one value, and that those outstanding cannot outvote, are
/// the agreement.
pub proof fn law_unanimous_replies_agree(
    replies: Seq<Vote>,
    threshold: int,
    outstanding: int,
    value: Seq<u8>,
)
    requires
        0 < threshold <= replies.len(),
        0 <= outstanding < threshold,
        forall|i: int|
            #![trigger replies[i]]
            0 <= i < replies.len() ==> agreement_value(replies[i].1) == Some(value),
    ensures
        settled(replies, threshold, outstanding, value),
        agreement(replies, threshold, outstanding) == Ok::<Option<Seq<Vote>>, Seq<char>>(
            Some(replies),
        ),
{
    lemma_unanimous(replies, value);
    assert forall|other: Seq<u8>|
        #![trigger supporters(replies, other)]
        other != value implies supporters(replies, other).len() + outstanding < threshold by {
        lemma_supporters(replies, other);
        if supporters(replies, other).len() > 0 {
            let vote = supporters(replies, other)[0];
            let k = choose|k: int| 0 <= k < replies.len() && replies[k] == vote;
            assert(agreement_value(replies[k].1) == Some(value));
        }
    }
    lemma_settled_is_the_outcome(replies, threshold, outstanding, value);
}

proof fn lemma_unanimous(replies: Seq<Vote>, value: Seq<u8>)
    requires
        forall|i: int|
            #![trigger replies[i]]
            0 <= i < replies.len() ==> agreement_value(replies[i].1) == Some(value),
    ensures
        supporters(replies, value) == replies,
    decreases replies.len(),
{
    if replies.len() == 0 {
        assert(replies =~= Seq::<Vote>::empty());
    } else {
        let front = replies.drop_last();
        assert forall|i: int| #![trigger front[i]] 0 <= i < front.len() implies agreement_value(
            front[i].1,
        ) == Some(value) by {
            assert(front[i] == replies[i]);
        }
        lemma_unanimous(front, value);
        assert(agreement_value(replies[replies.len() - 1].1) == Some(value));
        assert(supporters(replies, value) =~= replies);
    }
}

/// With every reply in, the order in which they came decides at most the order of the
/// supporters: the outcome is an agreement exactly if one value alone qualifies.
pub proof fn law_complete_agreement(replies: Seq<Vote>, threshold: int)
    requires
        0 < threshold,
    ensures
        agreement(replies, threshold, 0) is Ok <==> exists|value: Seq<u8>|
            settled(replies, threshold, 0, value),
        forall|value: Seq<u8>| #[trigger]
            settled(replies, threshold, 0, value) <==> qualifies(replies, threshold, value)
                && !ambiguous(replies, threshold),
{
    assert forall|value: Seq<u8>| #[trigger]
        settled(replies, threshold, 0, value) <==> qualifies(replies, threshold, value)
            && !ambiguous(replies, threshold) by {
        if settled(replies, threshold, 0, value) {
            lemma_settled_is_the_outcome(replies, threshold, 0, value);
        }
        if qualifies(replies, threshold, value) && !ambiguous(replies, threshold) {
            assert forall|other: Seq<u8>|
                #![trigger supporters(replies, other)]
                other != value implies supporters(replies, other).len() + 0 < threshold by {
                assert(!(qualifies(replies, threshold, value) && qualifies(
                    replies,
                    threshold,
                    other,
                )));
            }
        }
    }
    if exists|value: Seq<u8>| settled(replies, threshold, 0, value) {
        let value = choose|value: Seq<u8>| settled(replies, threshold, 0, value);
        lemma_settled_is_the_outcome(replies, threshold, 0, value);
    }
}

/// A provider is among those that replied.
pub open spec fn replied(replies: Seq<Vote>, id: u32) -> bool {
    exists|i: int| 0 <= i < replies.len() && (#[trigger] replies[i]).0 == id
}

/// The replies that support one value.
struct Group {
    value: Vec<u8>,
    members: Vec<(u32, Reply)>,
}

/// The groups are those of the replies: one for each value that has supporters.
closed spec fn grouped(groups: Seq<Group>, replies: Seq<Vote>) -> bool {
    &&& forall|g: int|
        #![trigger groups[g]]
        0 <= g < groups.len() ==> votes(groups[g].members@) == supporters(
            replies,
            groups[g].value@,
        ) && groups[g].members@.len() > 0
    &&& forall|g: int, h: int|
        #![trigger groups[g], groups[h]]
        0 <= g < h < groups.len() ==> groups[g].value@ != groups[h].value@
    &&& forall|value: Seq<u8>|
        #![trigger supporters(replies, value)]
        supporters(replies, value).len() > 0 ==> exists|g: int|
            0 <= g < groups.len() && (#[trigger] groups[g]).value@ == value
}

proof fn lemma_one_more_supporter(replies: Seq<Vote>, vote: Vote, value: Seq<u8>)
    ensures
        supporters(replies.push(vote), value) == (if agreement_value(vote.1) == Some(value) {
            supporters(replies, value).push(vote)
        } else {
            supporters(replies, value)
        }),
{
    assert(replies.push(vote).drop_last() =~= replies);
}

proof fn lemma_joins_no_group(groups: Seq<Group>, replies: Seq<Vote>, vote: Vote)
    requires
        grouped(groups, replies),
        agreement_value(vote.1) is None,
    ensures
        grouped(groups, replies.push(vote)),
{
    let after = replies.push(vote);
    assert forall|g: int| #![trigger groups[g]] 0 <= g < groups.len() implies votes(
        groups[g].members@,
    ) == supporters(after, groups[g].value@) by {
        lemma_one_more_supporter(replies, vote, groups[g].value@);
    }
    assert forall|value: Seq<u8>|
        #![trigger supporters(after, value)]
        supporters(after, value).len() > 0 implies exists|g: int|
        0 <= g < groups.len() && (#[trigger] groups[g]).value@ == value by {
        lemma_one_more_supporter(replies, vote, value);
    }
}

proof fn lemma_joins_group(
    groups: Seq<Group>,
    next: Seq<Group>,
    replies: Seq<Vote>,
    vote: Vote,
    g: int,
)
    requires
        grouped(groups, replies),
        0 <= g < groups.len() == next.len(),
        agreement_value(vote.1) == Some(groups[g].value@),
        forall|k: int| 0 <= k < groups.len() && k != g ==> #[trigger] next[k] == groups[k],
        next[g].value == groups[g].value,
        votes(next[g].members@) == votes(groups[g].members@).push(vote),
    ensures
        grouped(next, replies.push(vote)),
{
    let after = replies.push(vote);
    assert forall|k: int| #![trigger next[k]] 0 <= k < next.len() implies votes(next[k].members@)
        == supporters(after, next[k].value@) && next[k].members@.len() > 0 by {
        lemma_one_more_supporter(replies, vote, groups[k].value@);
        assert(votes(groups[k].members@) == supporters(replies, groups[k].value@));
        if k != g {
            assert(groups[k].value@ != groups[g].value@);
        } else {
            assert(votes(next[g].members@).len() == next[g].members@.len());
        }
    }
    assert forall|i: int, j: int| #![trigger next[i], next[j]] 0 <= i < j < next.len() implies next[i].value@
        != next[j].value@ by {
        assert(groups[i].value@ != groups[j].value@);
    }
    assert forall|value: Seq<u8>|
        #![trigger supporters(after, value)]
        supporters(after, value).len() > 0 implies exists|k: int|
        0 <= k < next.len() && (#[trigger] next[k]).value@ == value by {
        lemma_one_more_supporter(replies, vote, value);
        if value == groups[g].value@ {
            assert(next[g].value@ == value);
        } else {
            let k = choose|k: int| 0 <= k < groups.len() && (#[trigger] groups[k]).value@ == value;
            assert(next[k].value@ == value);
        }
    }
}

proof fn lemma_opens_group(groups: Seq<Group>, group: Group, replies: Seq<Vote>, vote: Vote)
    requires
        grouped(groups, replies),
        agreement_value(vote.1) == Some(group.value@),
        forall|k: int| 0 <= k < groups.len() ==> (#[trigger] groups[k]).value@ != group.value@,
        votes(group.members@) == seq![vote],
    ensures
        grouped(groups.push(group), replies.push(vote)),
{
    let after = replies.push(vote);
    let next = groups.push(group);
    assert(supporters(replies, group.value@).len() == 0);
    assert forall|k: int| #![trigger next[k]] 0 <= k < next.len() implies votes(next[k].members@)
        == supporters(after, next[k].value@) && next[k].members@.len() > 0 by {
        lemma_one_more_supporter(replies, vote, next[k].value@);
        if k < groups.len() {
            assert(next[k] == groups[k]);
            assert(votes(groups[k].members@) == supporters(replies, groups[k].value@));
        } else {
            assert(supporters(replies, group.value@).push(vote) =~= seq![vote]);
            assert(votes(group.members@).len() == group.members@.len());
        }
    }
    assert forall|i: int, j: int| #![trigger next[i], next[j]] 0 <= i < j < next.len() implies next[i].value@
        != next[j].value@ by {
        assert(next[i] == groups[i]);
        if j < groups.len() {
            assert(next[j] == groups[j]);
        }
    }
    assert forall|value: Seq<u8>|
        #![trigger supporters(after, value)]
        supporters(after, value).len() > 0 implies exists|k: int|
        0 <= k < next.len() && (#[trigger] next[k]).value@ == value by {
        lemma_one_more_supporter(replies, vote, value);
        if value == group.value@ {
            assert(next[groups.len() as int].value@ == value);
        } else {
            let k = choose|k: int| 0 <= k < groups.len() && (#[trigger] groups[k]).value@ == value;
            assert(next[k].value@ == value);
        }
    }
}

/// Collects replies of distinct providers and finds the value that they agree on.
pub struct AgreementTracker {
    threshold: usize,
    seen: HashSet<u32>,
    groups: Vec<Group>,
    replies: Ghost<Seq<Vote>>,
}

/// Model of [`AgreementTracker`]: the threshold and the replies so far.
pub struct TrackerModel {
    pub threshold: int,
    pub replies: Seq<Vote>,
}

impl View for AgreementTracker {
    type V = TrackerModel;

    closed spec fn view(&self) -> TrackerModel {
        TrackerModel { threshold: self.threshold as int, replies: self.replies@ }
    }
}

impl AgreementTracker {
    /// The groups are those of the replies so far.
    pub closed spec fn wf(&self) -> bool {
        &&& self.threshold >= 1
        &&& distinct_providers(self.replies@)
        &&& forall|id: u32|
            #![trigger self.seen@.contains(id)]
            self.seen@.contains(id) <==> replied(self.replies@, id)
        &&& grouped(self.groups@, self.replies@)
    }

    /// A tracker without replies.
    pub fn new(threshold: usize) -> (result: Result<Self>)
        ensures
            match result {
                Ok(tracker) => threshold > 0 && tracker.wf() && tracker@ == (TrackerModel {
                    threshold: threshold as int,
                    replies: Seq::empty(),
                }),
                Err(error) => threshold == 0 && error@ == "zero threshold"@,
            },
    {
        broadcast use vstd::std_specs::hash::group_hash_axioms;

        if threshold == 0 {
            return Err(message("zero threshold"));
        }
        let tracker = AgreementTracker {
            threshold,
            seen: HashSet::new(),
            groups: Vec::new(),
            replies: Ghost(Seq::empty()),
        };
        Ok(tracker)
    }

    fn find(&self, value: &Vec<u8>) -> (found: Option<usize>)
        requires
            self.wf(),
        ensures
            match found {
                Some(g) => g < self.groups@.len() && self.groups@[g as int].value@ == value@,
                None => forall|g: int|
                    0 <= g < self.groups@.len() ==> (#[trigger] self.groups@[g]).value@ != value@,
            },
    {
        let mut g: usize = 0;
        while g < self.groups.len()
            invariant
                g <= self.groups.len(),
                forall|k: int| 0 <= k < g ==> (#[trigger] self.groups@[k]).value@ != value@,
            decreases self.groups.len() - g,
        {
            if same_bytes(self.groups[g].value.as_slice(), value.as_slice()) {
                return Some(g);
            }
            g += 1;
        }
        None
    }

    /// Takes in the reply of a provider. A provider that is numbered zero or that
    /// replied before is refused, and nothing changes.
    pub fn push(&mut self, id: u32, reply: Reply) -> (result: Result<()>)
        requires
            old(self).wf(),
        ensures
            final(self).wf(),
            match result {
                Ok(_) => final(self)@ == (TrackerModel {
                    threshold: old(self)@.threshold,
                    replies: old(self)@.replies.push((id, reply@)),
                }),
                Err(error) => *final(self) == *old(self) && error@
                    == "duplicate or zero provider id"@,
            },
            result is Ok <==> distinct_providers(old(self)@.replies.push((id, reply@))),
    {
        broadcast use vstd::std_specs::hash::group_hash_axioms;

        let ghost before = self.replies@;
        let ghost vote: Vote = (id, reply@);
        let ghost after = before.push(vote);
        if id == 0 || self.seen.contains(&id) {
            proof {
                if distinct_providers(after) {
                    assert(after[before.len() as int].0 == id);
                    let i = choose|i: int| 0 <= i < before.len() && (#[trigger] before[i]).0 == id;
                    assert(after[i] == before[i]);
                }
            }
            return Err(message("duplicate or zero provider id"));
        }
        assert(distinct_providers(after)) by {
            assert forall|i: int, j: int|
                #![trigger after[i], after[j]]
                0 <= i < j < after.len() implies after[i].0 != after[j].0 by {
                assert(after[i] == before[i]);
                if j < before.len() {
                    assert(after[j] == before[j]);
                }
            }
            assert forall|i: int| #![trigger after[i]] 0 <= i < after.len() implies after[i].0
                != 0 by {
                if i < before.len() {
                    assert(after[i] == before[i]);
                }
            }
        }
        let ghost groups = self.groups@;
        let key = agreement_key(&reply);
        match key {
            Some(value) => match self.find(&value) {
                Some(g) => {
                    self.groups[g].members.push((id, reply));
                    proof {
                        assert(votes(self.groups@[g as int].members@) =~= votes(
                            groups[g as int].members@,
                        ).push(vote));
                        lemma_joins_group(groups, self.groups@, before, vote, g as int);
                    }
                },
                None => {
                    let mut members: Vec<(u32, Reply)> = Vec::new();
                    members.push((id, reply));
                    assert(votes(members@) =~= seq![vote]);
                    let group = Group { value, members };
                    proof {
                        lemma_opens_group(groups, group, before, vote);
                    }
                    self.groups.push(group);
                },
            },
            None => {
                proof {
                    lemma_joins_no_group(groups, before, vote);
                }
            },
        }
        self.seen.insert(id);
        self.replies = Ghost(after);
        assert forall|other: u32| #![trigger self.seen@.contains(other)] self.seen@.contains(
            other,
        ) == replied(after, other) by {
            if replied(before, other) {
                let i = choose|i: int| 0 <= i < before.len() && (#[trigger] before[i]).0 == other;
                assert(after[i].0 == other);
            }
            if replied(after, other) && other != id {
                let i = choose|i: int| 0 <= i < after.len() && (#[trigger] after[i]).0 == other;
                assert(before[i].0 == other);
            }
            if other == id {
                assert(after[before.len() as int].0 == other);
            }
        }
        Ok(())
    }

    /// Decides with `outstanding` replies still to come.
    pub fn resolve(&self, outstanding: usize) -> (result: Result<Option<Vec<(u32, Reply)>>>)
        requires
            self.wf(),
        ensures
            verdict(result) == agreement(self@.replies, self@.threshold, outstanding as int),
    {
        let ghost replies = self.replies@;
        let ghost threshold = self.threshold as int;
        let mut accepted: Option<usize> = None;
        let mut competing = false;
        let mut g: usize = 0;
        while g < self.groups.len()
            invariant
                self.wf(),
                replies == self.replies@,
                threshold == self.threshold,
                g <= self.groups.len(),
                match accepted {
                    Some(a) => a < g && self.groups@[a as int].members@.len() >= threshold
                        && forall|k: int|
                        #![trigger self.groups@[k]]
                        0 <= k < g && k != a ==> self.groups@[k].members@.len() < threshold,
                    None => forall|k: int|
                        #![trigger self.groups@[k]]
                        0 <= k < g ==> self.groups@[k].members@.len() < threshold,
                },
                competing == exists|k: int|
                    0 <= k < g && (#[trigger] self.groups@[k]).members@.len() < threshold
                        && self.groups@[k].members@.len() + outstanding >= threshold,
            decreases self.groups.len() - g,
        {
            let size = self.groups[g].members.len();
            proof {
                assert(votes(self.groups@[g as int].members@).len() == size);
            }
            if size >= self.threshold {
                match accepted {
                    Some(a) => {
                        proof {
                            let first = self.groups@[a as int];
                            let second = self.groups@[g as int];
                            assert(votes(first.members@).len() == first.members@.len());
                            assert(supporters(replies, first.value@).len() >= threshold);
                            assert(supporters(replies, second.value@).len() >= threshold);
                            assert(first.value@ != second.value@);
                        }
                        return Err(message("ambiguous ciphertext agreement"));
                    },
                    None => {
                        accepted = Some(g);
                    },
                }
            } else if outstanding >= self.threshold - size {
                competing = true;
            }
            g += 1;
        }
        proof {
            assert forall|v: Seq<u8>|
                #![trigger supporters(replies, v)]
                supporters(replies, v).len() > 0 implies exists|k: int|
                0 <= k < self.groups@.len() && (#[trigger] self.groups@[k]).value@ == v
                    && self.groups@[k].members@.len() == supporters(replies, v).len() by {
                let k = choose|k: int|
                    0 <= k < self.groups@.len() && (#[trigger] self.groups@[k]).value@ == v;
                assert(votes(self.groups@[k].members@) == supporters(replies, v));
                assert(votes(self.groups@[k].members@).len() == self.groups@[k].members@.len());
            }
            assert forall|k: int| #![trigger self.groups@[k]] 0 <= k
                < self.groups@.len() implies supporters(replies, self.groups@[k].value@).len()
                == self.groups@[k].members@.len() by {
                assert(votes(self.groups@[k].members@).len() == self.groups@[k].members@.len());
            }
        }
        match accepted {
            Some(a) => {
                let ghost value = self.groups@[a as int].value@;
                assert(!ambiguous(replies, threshold)) by {
                    assert forall|v: Seq<u8>|
                        #![trigger supporters(replies, v)]
                        qualifies(replies, threshold, v) implies v == value by {
                        let k = choose|k: int|
                            0 <= k < self.groups@.len() && (#[trigger] self.groups@[k]).value@ == v
                                && self.groups@[k].members@.len() == supporters(replies, v).len();
                        assert(k == a);
                    }
                }
                if outstanding < self.threshold && !competing {
                    proof {
                        assert forall|v: Seq<u8>|
                            #![trigger supporters(replies, v)]
                            v != value implies supporters(replies, v).len() + outstanding
                            < threshold by {
                            if supporters(replies, v).len() > 0 {
                                let k = choose|k: int|
                                    0 <= k < self.groups@.len() && (
                                    #[trigger] self.groups@[k]).value@ == v
                                        && self.groups@[k].members@.len() == supporters(
                                        replies,
                                        v,
                                    ).len();
                                assert(k != a);
                            }
                        }
                        lemma_settled_is_the_outcome(
                            replies,
                            threshold,
                            outstanding as int,
                            value,
                        );
                    }
                    return Ok(Some(copy_replies(self.groups[a].members.as_slice())));
                }
                assert(!exists|v: Seq<u8>| settled(replies, threshold, outstanding as int, v)) by {
                    if exists|v: Seq<u8>| settled(replies, threshold, outstanding as int, v) {
                        let v = choose|v: Seq<u8>|
                            settled(replies, threshold, outstanding as int, v);
                        assert(supporters(replies, value).len() >= threshold);
                        assert(v == value);
                        if competing {
                            let k = choose|k: int|
                                0 <= k < self.groups@.len() && (
                                #[trigger] self.groups@[k]).members@.len() < threshold
                                    && self.groups@[k].members@.len() + outstanding >= threshold;
                            assert(self.groups@[k].value@ != value);
                            assert(supporters(replies, self.groups@[k].value@).len()
                                == self.groups@[k].members@.len());
                        }
                    }
                }
            },
            None => {
                assert forall|v: Seq<u8>| #![trigger supporters(replies, v)] !qualifies(
                    replies,
                    threshold,
                    v,
                ) by {
                    if supporters(replies, v).len() > 0 {
                        let k = choose|k: int|
                            0 <= k < self.groups@.len() && (#[trigger] self.groups@[k]).value@ == v
                                && self.groups@[k].members@.len() == supporters(replies, v).len();
                        assert(self.groups@[k].members@.len() < threshold);
                    }
                }
            },
        }
        if outstanding == 0 {
            Err(message("insufficient matching ciphertexts"))
        } else {
            Ok(None)
        }
    }
}

/// A copy of a list of replies.
pub fn copy_replies(replies: &[(u32, Reply)]) -> (copy: Vec<(u32, Reply)>)
    ensures
        votes(copy@) == votes(replies@),
{
    let mut copy: Vec<(u32, Reply)> = Vec::new();
    let mut i: usize = 0;
    while i < replies.len()
        invariant
            i <= replies.len(),
            copy@.len() == i,
            forall|k: int|
                #![trigger copy@[k]]
                0 <= k < i ==> copy@[k].0 == replies@[k].0 && copy@[k].1@ == replies@[k].1@,
        decreases replies.len() - i,
    {
        copy.push((replies[i].0, replies[i].1.clone()));
        i += 1;
    }
    assert(votes(copy@) =~= votes(replies@));
    copy
}

/// The outcome of a list of replies, with `outstanding` more to come.
pub open spec fn agreement_of(replies: Seq<Vote>, threshold: usize, outstanding: usize) -> Verdict {
    if threshold == 0 {
        Err("zero threshold"@)
    } else if !distinct_providers(replies) {
        Err("duplicate or zero provider id"@)
    } else {
        agreement(replies, threshold as int, outstanding as int)
    }
}

/// Finds the one value that the replies agree on.
pub fn unique_agreement(replies: &[(u32, Reply)], threshold: usize, outstanding: usize) -> (result:
    Result<Option<Vec<(u32, Reply)>>>)
    ensures
        verdict(result) == agreement_of(votes(replies@), threshold, outstanding),
{
    let mut tracker = match AgreementTracker::new(threshold) {
        Ok(tracker) => tracker,
        Err(error) => {
            return Err(error);
        },
    };
    let ghost all = votes(replies@);
    let mut i: usize = 0;
    while i < replies.len()
        invariant
            i <= replies.len(),
            all == votes(replies@),
            tracker.wf(),
            tracker@.threshold == threshold,
            tracker@.replies == all.take(i as int),
            distinct_providers(all.take(i as int)),
        decreases replies.len() - i,
    {
        let ghost longer = all.take(i as int).push(all[i as int]);
        assert(longer =~= all.take(i as int + 1));
        match tracker.push(replies[i].0, replies[i].1.clone()) {
            Ok(_) => {},
            Err(error) => {
                proof {
                    if distinct_providers(all) {
                        assert forall|k: int| #![trigger longer[k]] 0 <= k
                            < longer.len() implies longer[k].0 != 0 by {
                            assert(longer[k] == all[k]);
                        }
                        assert forall|k: int, l: int|
                            #![trigger longer[k], longer[l]]
                            0 <= k < l < longer.len() implies longer[k].0 != longer[l].0 by {
                            assert(longer[k] == all[k] && longer[l] == all[l]);
                        }
                    }
                }
                return Err(error);
            },
        }
        i += 1;
    }
    assert(all.take(i as int) =~= all);
    tracker.resolve(outstanding)
}

} // verus!
