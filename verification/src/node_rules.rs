//! What the nodes do with a request: the login server's verifiers, the TSPA records of a
//! provider, which part of a node answers, and what a reset leaves.

use vstd::prelude::*;

use vstd::bytes::{
    lemma_auto_spec_u32_to_from_le_bytes, spec_u32_from_le_bytes, spec_u32_to_le_bytes,
};

use crate::group::{point_decodes, point_mul};
use crate::interpolation::order;
use crate::login_server::{login_answer, login_next, LoginModel};
use crate::messages::{
    Answer, BindingModel, LsRequestModel, RecordIdModel, ReplyModel, RequestModel, RootModel,
    TspaRequestModel, UpRequestModel,
};
use crate::provider::{provider_answer, provider_next, PendingModel};
use crate::scalar::{lemma_scalar_bytes, le_value, scalar_value};
use crate::sp::TspaProviderModel;
use crate::transport::{
    admission_objection, announced_length, calls_node, frame_traffic, fresh_nodes, length_field, located,
    node_answer, node_next, node_of, NodeModel, Target,
};
use crate::tspa_adapter::{tspa_answer, tspa_next};

verus! {

/// A registration is accepted exactly for a free user name, a login exactly with the
/// verifier in place, and a change exactly where its old verifier is in place. After an
/// accepted registration or change the user has the new verifier and every other user has
/// what it had; after anything else nothing has changed.
pub proof fn law_login_server_keeps_one_verifier(
    server: LoginModel,
    uid: Seq<u8>,
    verifier: Seq<u8>,
    previous: Seq<u8>,
)
    ensures
        ({
            let request = LsRequestModel::Register { uid, verifier };
            &&& !server.contains_key(uid) ==> login_answer(server, request) == Ok::<
                ReplyModel,
                Seq<char>,
            >(ReplyModel::Ack(true)) && login_next(server, request) =~= server.insert(uid, verifier)
            &&& server.contains_key(uid) ==> login_answer(server, request) == Err::<
                ReplyModel,
                Seq<char>,
            >("already registered"@) && login_next(server, request) == server
        }),
        ({
            let request = LsRequestModel::Authenticate { uid, verifier };
            &&& login_next(server, request) == server
            &&& login_answer(server, request) == Ok::<ReplyModel, Seq<char>>(
                ReplyModel::Ack(server.contains_pair(uid, verifier)),
            )
        }),
        ({
            let request = LsRequestModel::ChangeCredential { uid, previous, next: verifier };
            &&& server.contains_pair(uid, previous) ==> login_answer(server, request) == Ok::<
                ReplyModel,
                Seq<char>,
            >(ReplyModel::Ack(true)) && login_next(server, request) =~= server.insert(uid, verifier)
            &&& !server.contains_pair(uid, previous) ==> login_answer(server, request) == Err::<
                ReplyModel,
                Seq<char>,
            >("old verifier mismatch"@) && login_next(server, request) == server
        }),
{
}

/// A TSPA registration is accepted exactly with a ciphertext of 48 bytes and an OPRF key
/// below the group order. It sets the key and the record at its address, and nothing else.
pub proof fn law_tspa_registration_is_stored(
    provider: TspaProviderModel,
    stor_uid: Seq<u8>,
    key: Seq<u8>,
    ciphertext: Seq<u8>,
)
    ensures
        ({
            let request = TspaRequestModel::Register { stor_uid, key, ciphertext };
            let answer = tspa_answer(provider, request);
            let next = tspa_next(provider, request);
            &&& answer is Ok <==> ciphertext.len() == 48 && key.len() == 32 && le_value(key)
                < order()
            &&& answer is Ok ==> {
                &&& answer == Ok::<ReplyModel, Seq<char>>(ReplyModel::Ack(true))
                &&& next.sp_id == provider.sp_id
                &&& next.oprf_key == key
                &&& next.record_db =~= provider.record_db.insert(stor_uid, ciphertext)
            }
            &&& answer is Err ==> next == provider && answer == Err::<ReplyModel, Seq<char>>(
                if ciphertext.len() != 48 {
                    "invalid TSPA ciphertext length"@
                } else {
                    "invalid TSPA key"@
                },
            )
        }),
{
}

/// A TSPA login is answered exactly for an element that decodes and an address with a
/// record: with the element times the OPRF key, and the record.
pub proof fn law_tspa_login_reads_the_record(
    provider: TspaProviderModel,
    stor_uid: Seq<u8>,
    blinded: Seq<u8>,
)
    ensures
        ({
            let request = TspaRequestModel::Authenticate { stor_uid, blinded };
            let answer = tspa_answer(provider, request);
            &&& tspa_next(provider, request) == provider
            &&& answer is Ok <==> point_decodes(blinded) && provider.record_db.contains_key(
                stor_uid,
            )
            &&& answer is Ok ==> answer == Ok::<ReplyModel, Seq<char>>(
                ReplyModel::TspaAuthentication {
                    contribution: point_mul(blinded, le_value(provider.oprf_key) as int % order()),
                    ciphertext: provider.record_db[stor_uid],
                },
            )
            &&& answer is Err ==> answer == Err::<ReplyModel, Seq<char>>(
                if point_decodes(blinded) {
                    "unknown TSPA record"@
                } else {
                    "invalid TSPA point"@
                },
            )
        }),
{
}

/// A provider serves both protocols, each from its own records, and the login server its
/// users. No node answers for another, and a liveness request changes nothing.
pub proof fn law_requests_reach_their_part(node: NodeModel, request: RequestModel, now: u64)
    ensures
        match (node, request) {
            (NodeModel::Provider { upspa, tspa }, RequestModel::Up(inner)) => {
                &&& node_answer(node, request, now) == provider_answer(upspa, inner, now)
                &&& node_next(node, request, now) == (NodeModel::Provider {
                    upspa: provider_next(upspa, inner, now),
                    tspa,
                })
            },
            (NodeModel::Provider { upspa, tspa }, RequestModel::Tspa(inner)) => {
                &&& node_answer(node, request, now) == tspa_answer(tspa, inner)
                &&& node_next(node, request, now) == (NodeModel::Provider {
                    upspa,
                    tspa: tspa_next(tspa, inner),
                })
            },
            (NodeModel::LoginServer(server), RequestModel::Ls(inner)) => {
                &&& node_answer(node, request, now) == login_answer(server, inner)
                &&& node_next(node, request, now) == NodeModel::LoginServer(
                    login_next(server, inner),
                )
            },
            (_, RequestModel::Ping) => {
                &&& node_answer(node, request, now) == Ok::<ReplyModel, Seq<char>>(
                    ReplyModel::Ack(true),
                )
                &&& node_next(node, request, now) == node
            },
            (_, RequestModel::Reset) => node_answer(node, request, now) == Ok::<
                ReplyModel,
                Seq<char>,
            >(ReplyModel::Ack(true)),
            _ => {
                &&& node_answer(node, request, now) == Err::<ReplyModel, Seq<char>>("wrong node"@)
                &&& node_next(node, request, now) == node
            },
        },
{
}

/// After a reset the login server has no user: no verifier logs anyone in, no credential
/// can be changed, and every user name can be registered.
pub proof fn law_reset_login_server_has_no_user(
    server: LoginModel,
    now: u64,
    later: u64,
    uid: Seq<u8>,
    verifier: Seq<u8>,
    next: Seq<u8>,
)
    ensures
        ({
            let node = node_next(NodeModel::LoginServer(server), RequestModel::Reset, now);
            &&& node == NodeModel::LoginServer(Map::empty())
            &&& node_answer(
                node,
                RequestModel::Ls(LsRequestModel::Authenticate { uid, verifier }),
                later,
            ) == Ok::<ReplyModel, Seq<char>>(ReplyModel::Ack(false))
            &&& node_answer(
                node,
                RequestModel::Ls(LsRequestModel::Register { uid, verifier }),
                later,
            ) == Ok::<ReplyModel, Seq<char>>(ReplyModel::Ack(true))
            &&& node_answer(
                node,
                RequestModel::Ls(
                    LsRequestModel::ChangeCredential { uid, previous: verifier, next },
                ),
                later,
            ) == Err::<ReplyModel, Seq<char>>("old verifier mismatch"@)
        }),
{
    assert(node_next(NodeModel::LoginServer(server), RequestModel::Reset, now)
        == NodeModel::LoginServer(Map::empty()));
}

/// After a reset a provider has no root, no account, no pending and no finalized
/// transaction and no TSPA record, and the OPRF key one. Its number and clock window stay.
/// So every identification and read finds nothing, and nothing is there to finalize.
pub proof fn law_reset_provider_has_no_record(
    node: NodeModel,
    now: u64,
    later: u64,
    address: Seq<u8>,
    blinded: Seq<u8>,
    binding: BindingModel,
    store: bool,
)
    requires
        node is Provider,
    ensures
        ({
            let after = node_next(node, RequestModel::Reset, now);
            &&& after is Provider
            &&& after->upspa.provider_id == node->upspa.provider_id
            &&& after->upspa.clock_window_ms == node->upspa.clock_window_ms
            &&& after->upspa.roots == Map::<Seq<u8>, RootModel>::empty()
            &&& after->upspa.accounts == Map::<Seq<u8>, Seq<u8>>::empty()
            &&& after->upspa.pending == Map::<RecordIdModel, PendingModel>::empty()
            &&& after->upspa.completed == Map::<BindingModel, bool>::empty()
            &&& after->tspa.sp_id == node->upspa.provider_id
            &&& scalar_value(after->tspa.oprf_key) == 1
            &&& after->tspa.oprf_key.len() == 32
            &&& after->tspa.record_db == Map::<Seq<u8>, Seq<u8>>::empty()
            &&& node_answer(
                after,
                RequestModel::Up(UpRequestModel::Identify { uid: address, blinded }),
                later,
            ) is Err
            &&& node_answer(
                after,
                RequestModel::Up(UpRequestModel::ReadAccount { suid: address }),
                later,
            ) is Err
            &&& node_answer(
                after,
                RequestModel::Up(UpRequestModel::Finalize { binding, store }),
                later,
            ) == Ok::<ReplyModel, Seq<char>>(ReplyModel::Ack(false))
            &&& node_answer(
                after,
                RequestModel::Tspa(TspaRequestModel::Authenticate { stor_uid: address, blinded }),
                later,
            ) is Err
        }),
{
    lemma_scalar_bytes(1);
}

/// The nodes that a system starts with are where they are addressed: provider `id` under
/// its number and with that number, the login server under its own target, all without a
/// record, and no node under any other target.
pub proof fn law_new_nodes_are_where_they_are_addressed(n: int, clock_window_ms: u64)
    requires
        0 <= n <= u32::MAX,
    ensures
        ({
            let nodes = fresh_nodes(n, clock_window_ms);
            &&& nodes.len() == n + 1
            &&& located(nodes, Target::LoginServer, n)
            &&& nodes[n].1 == NodeModel::LoginServer(Map::empty())
            &&& forall|i: int|
                #![trigger nodes[i]]
                0 <= i < n ==> {
                    &&& located(nodes, Target::Provider((i + 1) as u32), i)
                    &&& nodes[i].1 is Provider
                    &&& nodes[i].1->upspa.provider_id == i + 1
                    &&& nodes[i].1->upspa.clock_window_ms == clock_window_ms
                    &&& nodes[i].1->upspa.roots == Map::<Seq<u8>, RootModel>::empty()
                    &&& nodes[i].1->upspa.accounts == Map::<Seq<u8>, Seq<u8>>::empty()
                    &&& nodes[i].1->upspa.pending == Map::<RecordIdModel, PendingModel>::empty()
                    &&& nodes[i].1->upspa.completed == Map::<BindingModel, bool>::empty()
                    &&& nodes[i].1->tspa.sp_id == i + 1
                    &&& scalar_value(nodes[i].1->tspa.oprf_key) == 1
                    &&& nodes[i].1->tspa.record_db == Map::<Seq<u8>, Seq<u8>>::empty()
                }
        }),
{
    lemma_scalar_bytes(1);
    let nodes = fresh_nodes(n, clock_window_ms);
    assert forall|i: int| #![trigger nodes[i]] 0 <= i < n implies located(
        nodes,
        Target::Provider((i + 1) as u32),
        i,
    ) by {
        assert forall|k: int| 0 <= k < i implies (#[trigger] nodes[k]).0 != Target::Provider(
            (i + 1) as u32,
        ) by {
            assert((k + 1) as u32 != (i + 1) as u32);
        }
    }
}

/// A call reaches the first node under its target: that node answers as on its own and takes
/// its next state, and every other node stays as it is. Where no node is under the target
/// the call fails and changes nothing.
pub proof fn law_call_reaches_one_node(
    before: Seq<(Target, NodeModel)>,
    target: Target,
    request: RequestModel,
    now: u64,
    reply: Answer,
    after: Seq<(Target, NodeModel)>,
    i: int,
)
    requires
        calls_node(before, target, request, now, reply, after),
        0 <= i <= before.len(),
        forall|k: int| 0 <= k < i ==> (#[trigger] before[k]).0 != target,
        i < before.len() ==> before[i].0 == target,
    ensures
        after.len() == before.len(),
        forall|k: int|
            #![trigger after[k]]
            0 <= k < before.len() ==> after[k].0 == before[k].0 && (k != i ==> after[k].1
                == before[k].1),
        i == before.len() ==> reply == Err::<ReplyModel, Seq<char>>("missing endpoint"@),
        i < before.len() ==> {
            &&& reply == node_answer(before[i].1, request, now)
            &&& after[i].1 == node_next(before[i].1, request, now)
        },
{
    if i < before.len() {
        assert(located(before, target, i));
    }
}

/// A node is made for every number but zero, as a provider with this number and clock
/// window, and as the login server where no number is given; it has no record.
pub proof fn law_new_node_has_no_record(provider_id: Option<u32>, clock_window_ms: u64)
    ensures
        ({
            let node = node_of(provider_id, clock_window_ms);
            &&& provider_id == Some(0u32) ==> node == Err::<NodeModel, Seq<char>>(
                "provider ids are one-based"@,
            )
            &&& provider_id is None ==> node == Ok::<NodeModel, Seq<char>>(
                NodeModel::LoginServer(Map::empty()),
            )
            &&& provider_id is Some && provider_id->0 != 0 ==> {
                &&& node is Ok && node->Ok_0 is Provider
                &&& node->Ok_0->upspa.provider_id == provider_id->0
                &&& node->Ok_0->upspa.clock_window_ms == clock_window_ms
                &&& node->Ok_0->upspa.roots == Map::<Seq<u8>, RootModel>::empty()
                &&& node->Ok_0->upspa.accounts == Map::<Seq<u8>, Seq<u8>>::empty()
                &&& node->Ok_0->upspa.pending == Map::<RecordIdModel, PendingModel>::empty()
                &&& node->Ok_0->upspa.completed == Map::<BindingModel, bool>::empty()
                &&& node->Ok_0->tspa.sp_id == provider_id->0
                &&& scalar_value(node->Ok_0->tspa.oprf_key) == 1
                &&& node->Ok_0->tspa.record_db == Map::<Seq<u8>, Seq<u8>>::empty()
            }
        }),
{
    lemma_scalar_bytes(1);
}

/// Only a reset can be kept from a node, and only where it is not allowed.
pub proof fn law_only_a_reset_is_held_back(request: RequestModel, allow_reset: bool)
    ensures
        admission_objection(request, allow_reset) is Some <==> request == RequestModel::Reset
            && !allow_reset,
        admission_objection(request, allow_reset) is Some ==> admission_objection(
            request,
            allow_reset,
        )->0 == "benchmark reset disabled"@,
{
}

/// A frame can be sent exactly up to one mebibyte, its length field has four bytes, and
/// the receiver reads the length back; it accepts no field that the sender would not send.
pub proof fn law_frames_are_limited_alike(length: int, header: Seq<u8>)
    requires
        0 <= length,
        header.len() == 4,
    ensures
        length_field(length) is Ok <==> length <= 1048576,
        length_field(length) is Ok ==> length_field(length)->Ok_0.len() == 4 && announced_length(
            length_field(length)->Ok_0,
        ) == Ok::<int, Seq<char>>(length),
        length_field(length) is Ok ==> frame_traffic(length) == length_field(length)->Ok_0.len()
            + length,
        length_field(length) is Err ==> length_field(length)->Err_0 == "frame exceeds size limit"@,
        announced_length(header) is Ok ==> 0 <= announced_length(header)->Ok_0 && length_field(
            announced_length(header)->Ok_0,
        ) == Ok::<Seq<u8>, Seq<char>>(header),
        announced_length(header) is Err ==> announced_length(header)->Err_0
            == "frame exceeds size limit"@ && forall|sendable: int|
            0 <= sendable && #[trigger] length_field(sendable) is Ok ==> length_field(
                sendable,
            )->Ok_0 != header,
{
    lemma_auto_spec_u32_to_from_le_bytes();
    if length <= 1048576 {
        let field = spec_u32_to_le_bytes(length as u32);
        assert(field.len() == 4);
        assert(spec_u32_from_le_bytes(field) == length as u32);
    }
}

} // verus!
