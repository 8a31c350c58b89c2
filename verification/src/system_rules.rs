//! The client itself: which numbers it takes, what a reset asks for and leaves, and what it
//! makes of TSPA shares.

use vstd::prelude::*;

use vstd::utf8::encode_utf8;

use crate::agreement::{provider_ids, Vote};
use crate::crypto::blake3_hash;
use crate::crypto_tspa::{aes_ctr, tspa_vinfo};
use crate::flow::{advanced, new_client, ProgressModel, StageKind, StepModel, SystemModel};
use crate::group::{point_decodes, point_mul, products};
use crate::interpolation::{inverse, order, total};
use crate::messages::{Answer, LsRequestModel, ReplyModel, RequestModel};
use crate::scalar::{id_weights, le_value, lemma_scalar_bytes, scalar_bytes, scalar_value};
use crate::stage::StageOutcome;
use crate::step_rules::asks_login_server;
use crate::system::{after_reset, first_refusal, reset_messages};
use crate::transport::Target;
use crate::tspa_adapter::{decrypted_share, first_fault, reconstructed, reconstruction};
use crate::tspa_client::{by_provider, in_order, law_sorting_keeps_the_replies, place};

verus! {

/// A client is made exactly for at least one and at most a hundred providers and a
/// threshold that they can reach. It starts at the beginning of its seed's stream, with
/// nothing unfinished.
pub proof fn law_client_needs_a_reachable_threshold(n: int, t: int, seed: Seq<u8>)
    ensures
        ({
            let client = new_client(n, t, seed);
            &&& client is Ok <==> 1 <= t && t <= n && n <= 100
            &&& client is Ok ==> {
                &&& client->Ok_0.n == n
                &&& client->Ok_0.t == t
                &&& client->Ok_0.rng.seed == seed
                &&& client->Ok_0.rng.position == 0
                &&& client->Ok_0.finalization is None
                &&& client->Ok_0.resolution is None
            }
            &&& client is Err ==> client->Err_0 == "require 1 <= t_sp <= n_sp <= 100"@
        }),
{
}

/// A reset goes to every provider and to the login server, once to each.
pub proof fn law_reset_goes_to_every_node(n: int)
    requires
        0 <= n <= 100,
    ensures
        ({
            let requests = reset_messages(n);
            &&& requests.len() == n + 1
            &&& forall|i: int|
                #![trigger requests[i]]
                0 <= i <= n ==> requests[i].1 == RequestModel::Reset
            &&& forall|i: int|
                #![trigger requests[i]]
                0 <= i < n ==> requests[i].0 == Target::Provider((i + 1) as u32)
            &&& requests[n].0 == Target::LoginServer
        }),
{
}

/// A reset succeeds exactly if every answer is a positive acknowledgement. Then nothing is
/// unfinished any more, and everything else of the client is as it was. Otherwise the
/// client is unchanged, and the first answer that is none tells the error.
pub proof fn law_reset_needs_every_acknowledgement(system: SystemModel, answers: Seq<Answer>)
    ensures
        ({
            let all = forall|i: int|
                #![trigger answers[i]]
                0 <= i < answers.len() ==> answers[i] == Ok::<ReplyModel, Seq<char>>(
                    ReplyModel::Ack(true),
                );
            let next = after_reset(system, answers);
            &&& first_refusal(answers) is Ok <==> all
            &&& all ==> next.finalization is None && next.resolution is None && next.n == system.n
                && next.t == system.t && next.rng == system.rng
            &&& !all ==> next == system
            &&& forall|k: int|
                #![trigger answers[k]]
                0 <= k < answers.len() && answers[k] != Ok::<ReplyModel, Seq<char>>(
                    ReplyModel::Ack(true),
                ) && (forall|j: int|
                    #![trigger answers[j]]
                    0 <= j < k ==> answers[j] == Ok::<ReplyModel, Seq<char>>(
                        ReplyModel::Ack(true),
                    )) ==> first_refusal(answers) == (match answers[k] {
                    Ok(_) => Err::<(), Seq<char>>("operation rejected"@),
                    Err(error) => Err(error),
                })
        }),
    decreases answers.len(),
{
    if answers.len() > 0 {
        let front = answers.drop_last();
        law_reset_needs_every_acknowledgement(system, front);
        assert forall|i: int| #![trigger front[i]] 0 <= i < front.len() implies front[i]
            == answers[i] by {}
        assert(answers[answers.len() - 1] == answers.last());
        let yes = Ok::<ReplyModel, Seq<char>>(ReplyModel::Ack(true));
        if forall|i: int| #![trigger front[i]] 0 <= i < front.len() ==> front[i] == yes {
            assert forall|i: int| #![trigger answers[i]] 0 <= i < front.len() implies answers[i]
                == yes by {
                assert(front[i] == yes);
            }
        } else {
            let i = choose|i: int|
                #![trigger front[i]]
                0 <= i < front.len() && front[i] != yes;
            assert(answers[i] != yes);
        }
        assert forall|k: int|
            #![trigger answers[k]]
            0 <= k < answers.len() && answers[k] != yes && (forall|j: int|
                #![trigger answers[j]]
                0 <= j < k ==> answers[j] == yes) implies first_refusal(answers) == (
        match answers[k] {
            Ok(_) => Err::<(), Seq<char>>("operation rejected"@),
            Err(error) => Err(error),
        }) by {
            if k < front.len() {
                assert(front[k] == answers[k]);
                assert forall|j: int| #![trigger front[j]] 0 <= j < k implies front[j] == yes by {
                    assert(answers[j] == yes);
                }
            } else {
                assert forall|j: int| #![trigger front[j]] 0 <= j < front.len() implies front[j]
                    == yes by {
                    assert(answers[j] == yes);
                }
            }
        }
    }
}

/// A reply with a TSPA share that can be used: a contribution that decodes and a ciphertext
/// of 48 bytes.
pub open spec fn is_share(reply: ReplyModel) -> bool {
    reply matches ReplyModel::TspaAuthentication { contribution, ciphertext } && point_decodes(
        contribution,
    ) && ciphertext.len() == 48
}

/// What is wrong with a reply that holds no usable share.
pub open spec fn share_complaint(reply: ReplyModel) -> Seq<char> {
    match reply {
        ReplyModel::TspaAuthentication { contribution, .. } => if point_decodes(contribution) {
            "invalid TSPA ciphertext length"@
        } else {
            "invalid TSPA point"@
        },
        _ => "unexpected TSPA response"@,
    }
}

proof fn lemma_first_share_fault(replies: Seq<Vote>)
    ensures
        first_fault(replies) is None <==> forall|i: int|
            #![trigger replies[i]]
            0 <= i < replies.len() ==> is_share(replies[i].1),
        forall|k: int|
            #![trigger replies[k]]
            0 <= k < replies.len() && !is_share(replies[k].1) && (forall|j: int|
                #![trigger replies[j]]
                0 <= j < k ==> is_share(replies[j].1)) ==> first_fault(replies) == Some(
                share_complaint(replies[k].1),
            ),
    decreases replies.len(),
{
    if replies.len() > 0 {
        let rest = replies.drop_first();
        lemma_first_share_fault(rest);
        assert forall|i: int| #![trigger rest[i]] 0 <= i < rest.len() implies rest[i] == replies[i
            + 1] by {}
        if is_share(replies[0].1) {
            if forall|i: int| #![trigger rest[i]] 0 <= i < rest.len() ==> is_share(rest[i].1) {
                assert forall|i: int| #![trigger replies[i]] 0 <= i < replies.len() implies is_share(
                    replies[i].1,
                ) by {
                    if i > 0 {
                        assert(is_share(rest[i - 1].1));
                    }
                }
            } else {
                let i = choose|i: int|
                    #![trigger rest[i]]
                    0 <= i < rest.len() && !is_share(rest[i].1);
                assert(!is_share(replies[i + 1].1));
            }
        } else {
            assert(!is_share(replies[0].1));
        }
        assert forall|k: int|
            #![trigger replies[k]]
            0 <= k < replies.len() && !is_share(replies[k].1) && (forall|j: int|
                #![trigger replies[j]]
                0 <= j < k ==> is_share(replies[j].1)) implies first_fault(replies) == Some(
            share_complaint(replies[k].1),
        ) by {
            if k > 0 {
                assert(is_share(replies[0].1));
                assert(rest[k - 1] == replies[k]);
                assert forall|j: int| #![trigger rest[j]] 0 <= j < k - 1 implies is_share(
                    rest[j].1,
                ) by {
                    assert(is_share(replies[j + 1].1));
                }
            }
        }
    }
}

/// After providers returned TSPA shares: with usable shares alone the login server is shown
/// the verifier of the secret that they give. Otherwise the login ends with what is wrong
/// with the first unusable one, in the order of the providers, and a stage that failed ends
/// it with its error. The client is unchanged.
pub proof fn law_after_the_tspa_shares_were_read(
    system: SystemModel,
    password: Seq<u8>,
    ls: Seq<u8>,
    login_uid: Seq<u8>,
    r: Seq<u8>,
    end: StageOutcome,
    refused: bool,
    now: u64,
)
    ensures
        ({
            let progress = ProgressModel::TspaRecovering { password, ls, login_uid, r };
            let (next, step) = advanced(system, progress, end, refused, now);
            &&& next == system
            &&& end is Err ==> step == StepModel::Done(Err(end->Err_0))
            &&& end matches Ok(replies) ==> {
                let sorted = by_provider(replies);
                let usable = forall|i: int|
                    #![trigger sorted[i]]
                    0 <= i < sorted.len() ==> is_share(sorted[i].1);
                &&& usable ==> (step matches StepModel::Run(stage, ProgressModel::Confirming)
                    && asks_login_server(stage, StageKind::LsInteraction, false)
                    && stage.requests[0].1 == RequestModel::Ls(
                    LsRequestModel::Authenticate {
                        uid: login_uid,
                        verifier: tspa_vinfo(
                            scalar_bytes(reconstructed(password, scalar_value(r), sorted)),
                            ls,
                        ),
                    },
                ))
                &&& forall|k: int|
                    #![trigger sorted[k]]
                    0 <= k < sorted.len() && !is_share(sorted[k].1) && (forall|j: int|
                        #![trigger sorted[j]]
                        0 <= j < k ==> is_share(sorted[j].1)) ==> step == StepModel::Done(
                        Err(share_complaint(sorted[k].1)),
                    )
            }
        }),
{
    if let Ok(replies) = end {
        lemma_first_share_fault(by_provider(replies));
    }
}

/// From usable shares alone a secret is reconstructed, of 32 bytes and below the group
/// order, and the verifier is that of this secret and the login server. Otherwise the first
/// unusable share tells the error.
pub proof fn law_verifier_is_of_the_reconstructed_secret(
    password: Seq<u8>,
    ls: Seq<u8>,
    r: int,
    replies: Seq<Vote>,
)
    ensures
        ({
            let result = reconstruction(password, ls, r, replies);
            let usable = forall|i: int|
                #![trigger replies[i]]
                0 <= i < replies.len() ==> is_share(replies[i].1);
            &&& result is Ok <==> usable
            &&& result matches Ok((secret, verifier)) ==> {
                &&& secret.len() == 32
                &&& le_value(secret) < order()
                &&& scalar_value(secret) == reconstructed(password, r, replies)
                &&& verifier == blake3_hash(encode_utf8("tspa/vinfo/v1"@) + secret + ls)
            }
            &&& forall|k: int|
                #![trigger replies[k]]
                0 <= k < replies.len() && !is_share(replies[k].1) && (forall|j: int|
                    #![trigger replies[j]]
                    0 <= j < k ==> is_share(replies[j].1)) ==> result == Err::<
                    (Seq<u8>, Seq<u8>),
                    Seq<char>,
                >(share_complaint(replies[k].1))
        }),
{
    lemma_first_share_fault(replies);
    let secret = scalar_bytes(reconstructed(password, r, replies));
    vstd::arithmetic::div_mod::lemma_mod_bound(
        total(
            products(
                Seq::new(replies.len(), |i: int| decrypted_share(password, r, replies[i].1)),
                id_weights(provider_ids(replies)),
            ),
        ),
        order(),
    );
    lemma_scalar_bytes(reconstructed(password, r, replies));
    let domain = encode_utf8("tspa/vinfo/v1"@);
    assert(domain + (secret + ls) =~= domain + secret + ls);
}

/// A share is decrypted under the key of the password and the unblinded contribution, with
/// the first 16 bytes of the ciphertext as vector and the 32 behind them as text.
pub proof fn law_share_is_decrypted_by_position(
    password: Seq<u8>,
    r: int,
    contribution: Seq<u8>,
    ciphertext: Seq<u8>,
)
    ensures
        ({
            let key = blake3_hash(
                encode_utf8("tspa/oprf-finalize/v1"@) + password + point_mul(
                    contribution,
                    inverse(r) % order(),
                ),
            );
            decrypted_share(
                password,
                r,
                ReplyModel::TspaAuthentication { contribution, ciphertext },
            ) == le_value(
                aes_ctr(key, ciphertext.subrange(0, 16), ciphertext.subrange(16, 48)),
            ) as int % order()
        }),
{
    let domain = encode_utf8("tspa/oprf-finalize/v1"@);
    let point = point_mul(contribution, inverse(r) % order());
    assert(domain + (password + point) =~= domain + password + point);
}

/// Sorting by provider puts the replies in the order of the providers' numbers, loses and
/// adds none, and leaves those of one provider in the order in which they came.
pub proof fn law_sorting_is_stable(replies: Seq<Vote>, id: u32)
    ensures
        in_order(by_provider(replies)),
        forall|i: int, j: int|
            #![trigger by_provider(replies)[i], by_provider(replies)[j]]
            0 <= i < j < replies.len() ==> by_provider(replies)[i].0 <= by_provider(replies)[j].0,
        by_provider(replies).to_multiset() == replies.to_multiset(),
        by_provider(replies).filter(|vote: Vote| vote.0 == id) == replies.filter(
            |vote: Vote| vote.0 == id,
        ),
    decreases replies.len(),
{
    law_sorting_keeps_the_replies(replies);
    reveal(Seq::filter);
    let own = |vote: Vote| vote.0 == id;
    if replies.len() > 0 {
        let front = replies.drop_last();
        let last = replies.last();
        law_sorting_is_stable(front, id);
        law_sorting_keeps_the_replies(front);
        let earlier = by_provider(front);
        let k = place(earlier, last.0);
        lemma_place_splits(earlier, last.0);
        let head = earlier.take(k);
        let tail = earlier.skip(k);
        assert(earlier =~= head + tail);
        assert(by_provider(replies) =~= head + seq![last] + tail);
        Seq::filter_distributes_over_add(head, tail, own);
        Seq::filter_distributes_over_add(head + seq![last], tail, own);
        Seq::filter_distributes_over_add(head, seq![last], own);
        assert(seq![last].drop_last() =~= Seq::<Vote>::empty());
        assert(Seq::<Vote>::empty().filter(own) =~= Seq::<Vote>::empty());
        if last.0 == id {
            assert(seq![last].filter(own) =~= seq![last]);
            assert(tail.filter(own) =~= Seq::<Vote>::empty()) by {
                lemma_none_left(tail, id);
            }
            assert(by_provider(replies).filter(own) =~= earlier.filter(own).push(last));
        } else {
            assert(seq![last].filter(own) =~= Seq::<Vote>::empty());
            assert(by_provider(replies).filter(own) =~= earlier.filter(own));
        }
    }
}

proof fn lemma_place_splits(sorted: Seq<Vote>, id: u32)
    requires
        in_order(sorted),
    ensures
        0 <= place(sorted, id) <= sorted.len(),
        forall|i: int|
            #![trigger sorted[i]]
            place(sorted, id) <= i < sorted.len() ==> sorted[i].0 > id,
    decreases sorted.len(),
{
    if sorted.len() > 0 && sorted.last().0 > id {
        let front = sorted.drop_last();
        assert(in_order(front)) by {
            assert forall|i: int, j: int|
                #![trigger front[i], front[j]]
                0 <= i <= j < front.len() implies front[i].0 <= front[j].0 by {
                assert(sorted[i].0 <= sorted[j].0);
            }
        }
        lemma_place_splits(front, id);
        assert forall|i: int|
            #![trigger sorted[i]]
            place(sorted, id) <= i < sorted.len() implies sorted[i].0 > id by {
            if i < front.len() {
                assert(front[i].0 > id);
            }
        }
    }
}

proof fn lemma_none_left(votes: Seq<Vote>, id: u32)
    requires
        forall|i: int| #![trigger votes[i]] 0 <= i < votes.len() ==> votes[i].0 != id,
    ensures
        votes.filter(|vote: Vote| vote.0 == id) == Seq::<Vote>::empty(),
    decreases votes.len(),
{
    reveal(Seq::filter);
    let own = |vote: Vote| vote.0 == id;
    if votes.len() == 0 {
        assert(votes.filter(own) =~= Seq::<Vote>::empty());
    } else {
        let front = votes.drop_last();
        assert forall|i: int| #![trigger front[i]] 0 <= i < front.len() implies front[i].0 != id by {
            assert(votes[i].0 != id);
        }
        lemma_none_left(front, id);
        assert(votes[votes.len() - 1].0 != id);
    }
}

} // verus!
