//! What a client of TSPA sends, and the order in which it reads the replies.

use vstd::prelude::*;

use crate::agreement::{votes, Vote};
use crate::bytes::copy_bytes;
use crate::messages::{Key, Reply, Request, RequestModel, TspaRequest, TspaRequestModel};
use crate::stage::sent;
use crate::transport::Target;
use crate::tspa_adapter::{RegistrationData, RegistrationModel};

verus! {

/// The requests of a registration: each provider gets its OPRF key and its ciphertext.
pub open spec fn register_messages(data: RegistrationModel) -> Seq<(Target, RequestModel)> {
    Seq::new(
        if data.keys.len() <= data.ciphertexts.len() {
            data.keys.len()
        } else {
            data.ciphertexts.len()
        },
        |i: int|
            (
                Target::Provider((i + 1) as u32),
                RequestModel::Tspa(
                    TspaRequestModel::Register {
                        stor_uid: data.stor_uid,
                        key: data.keys[i],
                        ciphertext: data.ciphertexts[i],
                    },
                ),
            ),
    )
}

/// The requests of a registration.
pub fn register_requests(data: &RegistrationData) -> (requests: Vec<(Target, Request)>)
    requires
        data.keys@.len() <= u32::MAX,
    ensures
        sent(requests@) == register_messages(data@),
{
    let mut requests: Vec<(Target, Request)> = Vec::new();
    let mut i: usize = 0;
    while i < data.keys.len() && i < data.ciphertexts.len()
        invariant
            i <= data.keys@.len() <= u32::MAX,
            i <= data.ciphertexts@.len(),
            requests@.len() == i,
            forall|k: int|
                #![trigger requests@[k]]
                0 <= k < i ==> (requests@[k].0, requests@[k].1@) == register_messages(data@)[k],
        decreases data.keys@.len() - i,
    {
        let id: u32 = (i + 1) as u32;
        let request = TspaRequest::Register {
            stor_uid: data.stor_uid,
            key: data.keys[i],
            ciphertext: copy_bytes(data.ciphertexts[i].as_slice()),
        };
        requests.push((Target::Provider(id), Request::Tspa(request)));
        i += 1;
    }
    assert(sent(requests@) =~= register_messages(data@));
    requests
}

/// The requests of an authentication: the first `t` providers get the same.
pub open spec fn authenticate_messages(t: int, stor_uid: Seq<u8>, blinded: Seq<u8>) -> Seq<
    (Target, RequestModel),
> {
    Seq::new(
        t as nat,
        |i: int|
            (
                Target::Provider((i + 1) as u32),
                RequestModel::Tspa(TspaRequestModel::Authenticate { stor_uid, blinded }),
            ),
    )
}

/// The requests of an authentication.
pub fn authenticate_requests(t: usize, stor_uid: &Key, blinded: &Key) -> (requests: Vec<
    (Target, Request),
>)
    requires
        t <= u32::MAX,
    ensures
        sent(requests@) == authenticate_messages(t as int, stor_uid@, blinded@),
{
    let mut requests: Vec<(Target, Request)> = Vec::new();
    let mut i: usize = 0;
    while i < t
        invariant
            i <= t <= u32::MAX,
            requests@.len() == i,
            forall|k: int|
                #![trigger requests@[k]]
                0 <= k < i ==> (requests@[k].0, requests@[k].1@) == authenticate_messages(
                    t as int,
                    stor_uid@,
                    blinded@,
                )[k],
        decreases t - i,
    {
        let id: u32 = (i + 1) as u32;
        let request = TspaRequest::Authenticate { stor_uid: *stor_uid, blinded: *blinded };
        requests.push((Target::Provider(id), Request::Tspa(request)));
        i += 1;
    }
    assert(sent(requests@) =~= authenticate_messages(t as int, stor_uid@, blinded@));
    requests
}

/// The position of a new reply in a sorted list: behind every provider that is not
/// larger, counted from the end.
pub open spec fn place(sorted: Seq<Vote>, id: u32) -> int
    decreases sorted.len(),
{
    if sorted.len() == 0 || sorted.last().0 <= id {
        sorted.len() as int
    } else {
        place(sorted.drop_last(), id)
    }
}

/// The replies in the order of their providers; replies of one provider keep their
/// order.
pub open spec fn by_provider(replies: Seq<Vote>) -> Seq<Vote>
    decreases replies.len(),
{
    if replies.len() == 0 {
        Seq::empty()
    } else {
        let earlier = by_provider(replies.drop_last());
        earlier.insert(place(earlier, replies.last().0), replies.last())
    }
}

/// Providers do not decrease.
pub open spec fn in_order(replies: Seq<Vote>) -> bool {
    forall|i: int, j: int|
        #![trigger replies[i], replies[j]]
        0 <= i <= j < replies.len() ==> replies[i].0 <= replies[j].0
}

proof fn lemma_place(sorted: Seq<Vote>, id: u32)
    requires
        in_order(sorted),
    ensures
        0 <= place(sorted, id) <= sorted.len(),
        forall|i: int| 0 <= i < place(sorted, id) ==> (#[trigger] sorted[i]).0 <= id,
        forall|i: int| place(sorted, id) <= i < sorted.len() ==> (#[trigger] sorted[i]).0 > id,
    decreases sorted.len(),
{
    if sorted.len() > 0 {
        if sorted.last().0 <= id {
            assert(sorted[sorted.len() - 1].0 <= id);
            assert forall|i: int| 0 <= i < sorted.len() implies (#[trigger] sorted[i]).0 <= id by {
                assert(sorted[i].0 <= sorted[sorted.len() - 1].0);
            }
        } else {
            let front = sorted.drop_last();
            assert forall|i: int, j: int|
                #![trigger front[i], front[j]]
                0 <= i <= j < front.len() implies front[i].0 <= front[j].0 by {
                assert(front[i] == sorted[i] && front[j] == sorted[j]);
            }
            lemma_place(front, id);
            assert forall|i: int| 0 <= i < place(sorted, id) implies (#[trigger] sorted[i]).0
                <= id by {
                assert(front[i] == sorted[i]);
            }
            assert forall|i: int| place(sorted, id) <= i < sorted.len() implies (
            #[trigger] sorted[i]).0 > id by {
                if i < front.len() {
                    assert(front[i] == sorted[i]);
                }
            }
        }
    }
}

/// Sorting by provider gives the same replies, with providers that do not decrease.
pub proof fn law_sorting_keeps_the_replies(replies: Seq<Vote>)
    ensures
        in_order(by_provider(replies)),
        by_provider(replies).len() == replies.len(),
        by_provider(replies).to_multiset() == replies.to_multiset(),
    decreases replies.len(),
{
    if replies.len() > 0 {
        let front = replies.drop_last();
        law_sorting_keeps_the_replies(front);
        let earlier = by_provider(front);
        let vote = replies.last();
        lemma_place(earlier, vote.0);
        let k = place(earlier, vote.0);
        let s = earlier.insert(k, vote);
        assert forall|i: int, j: int| #![trigger s[i], s[j]] 0 <= i <= j < s.len() implies s[i].0
            <= s[j].0 by {
            if i < k && j < k {
                assert(s[i] == earlier[i] && s[j] == earlier[j]);
            } else if i < k && j > k {
                assert(s[i] == earlier[i] && s[j] == earlier[j - 1]);
            } else if i > k {
                assert(s[i] == earlier[i - 1] && s[j] == earlier[j - 1]);
            } else if i < k {
                assert(s[i] == earlier[i]);
            } else if j > k {
                assert(s[j] == earlier[j - 1]);
            }
        }
        vstd::seq_lib::to_multiset_insert(earlier, k, vote);
        assert(replies =~= front.push(vote));
        vstd::seq_lib::to_multiset_build(front, vote);
    } else {
        assert(by_provider(replies) =~= replies);
    }
}

/// Sorts replies by provider; replies of one provider keep their order.
pub fn sort_by_provider(replies: Vec<(u32, Reply)>) -> (sorted: Vec<(u32, Reply)>)
    ensures
        votes(sorted@) == by_provider(votes(replies@)),
{
    let ghost all = votes(replies@);
    let mut sorted: Vec<(u32, Reply)> = Vec::new();
    let mut i: usize = 0;
    assert(votes(sorted@) =~= by_provider(all.take(0)));
    while i < replies.len()
        invariant
            i <= replies.len(),
            all == votes(replies@),
            votes(sorted@) == by_provider(all.take(i as int)),
        decreases replies.len() - i,
    {
        let id = replies[i].0;
        let reply = replies[i].1.clone();
        let ghost before = votes(sorted@);
        let mut k: usize = sorted.len();
        assert(before.take(k as int) =~= before);
        while k > 0 && sorted[k - 1].0 > id
            invariant
                k <= sorted.len(),
                before == votes(sorted@),
                place(before, id) == place(before.take(k as int), id),
            decreases k,
        {
            assert(before.take(k as int).last() == before[k - 1]);
            assert(before.take(k as int).drop_last() =~= before.take(k - 1));
            k -= 1;
        }
        proof {
            if k > 0 {
                assert(before.take(k as int).last() == before[k - 1]);
            }
            assert(all.take(i + 1).drop_last() =~= all.take(i as int));
            assert(all.take(i + 1).last() == all[i as int]);
        }
        sorted.insert(k, (id, reply));
        assert(votes(sorted@) =~= before.insert(k as int, all[i as int]));
        i += 1;
    }
    assert(all.take(i as int) =~= all);
    sorted
}

} // verus!
