//! Nodes and how requests reach them: targets, request dispatch and frame lengths.

use vstd::prelude::*;

use vstd::bytes::{
    lemma_auto_spec_u32_to_from_le_bytes, spec_u32_from_le_bytes, spec_u32_to_le_bytes,
    u32_from_le_bytes, u32_to_le_bytes,
};

use crate::bytes::to_array;
use crate::login_server::{login_answer, login_next, LoginModel, LoginServer};
use crate::messages::{
    answer, message, Answer, Reply, ReplyModel, Request, RequestModel, Response, Result,
    TspaRequestModel, UpRequestModel,
};
use crate::provider::{evaluates, provider_answer, provider_next, ProviderModel, UpSpaProvider};
use crate::scalar::{lemma_le_bytes, scalar_bytes, scalar_from_u64, scalar_value};
use crate::sp::{TspaProvider, TspaProviderModel};
use crate::tspa_adapter::{handle, tspa_answer, tspa_next};

verus! {

/// The largest frame that is sent or accepted.
pub const MAX_FRAME: usize = 1024 * 1024;

/// The receiver of a request.
#[derive(Clone, Copy, Debug, PartialEq, Eq, Hash, Structural)]
pub enum Target {
    Provider(u32),
    LoginServer,
}

/// A response with the traffic that it took.
#[derive(Debug)]
pub struct Packet {
    pub response: Response,
    pub bytes_sent: u64,
    pub bytes_received: u64,
}

/// A node: a storage provider for both protocols, or the login server.
pub enum Node {
    Provider { upspa: Box<UpSpaProvider>, tspa: TspaProvider },
    LoginServer(LoginServer),
}

/// Model of [`Node`].
pub enum NodeModel {
    Provider { upspa: ProviderModel, tspa: TspaProviderModel },
    LoginServer(LoginModel),
}

impl View for Node {
    type V = NodeModel;

    open spec fn view(&self) -> NodeModel {
        match self {
            Node::Provider { upspa, tspa } => NodeModel::Provider { upspa: upspa@, tspa: tspa@ },
            Node::LoginServer(ls) => NodeModel::LoginServer(ls@),
        }
    }
}

impl Clone for Node {
    fn clone(&self) -> (copy: Self)
        ensures
            copy@ == self@,
    {
        match self {
            Node::Provider { upspa, tspa } => Node::Provider {
                upspa: Box::new((**upspa).clone()),
                tspa: tspa.clone(),
            },
            Node::LoginServer(ls) => Node::LoginServer(ls.clone()),
        }
    }
}

impl NodeModel {
    /// The provider's records are well formed.
    pub open spec fn wf(self) -> bool {
        match self {
            NodeModel::Provider { upspa, .. } => upspa.wf(),
            NodeModel::LoginServer(_) => true,
        }
    }
}

/// A provider without records. Its OPRF key is one until a registration sets it.
pub open spec fn fresh_provider(id: u32, clock_window_ms: u64) -> NodeModel {
    NodeModel::Provider {
        upspa: ProviderModel {
            provider_id: id,
            roots: Map::empty(),
            accounts: Map::empty(),
            pending: Map::empty(),
            completed: Map::empty(),
            clock_window_ms,
        },
        tspa: TspaProviderModel {
            sp_id: id,
            oprf_key: scalar_bytes(1),
            record_db: Map::empty(),
        },
    }
}

/// A node as it was before its first request.
pub open spec fn fresh_node(node: NodeModel) -> NodeModel {
    match node {
        NodeModel::Provider { upspa, .. } => fresh_provider(
            upspa.provider_id,
            upspa.clock_window_ms,
        ),
        NodeModel::LoginServer(_) => NodeModel::LoginServer(Map::empty()),
    }
}

/// What a node answers.
pub open spec fn node_answer(node: NodeModel, request: RequestModel, now: u64) -> Answer {
    match (request, node) {
        (RequestModel::Reset, _) => Ok(ReplyModel::Ack(true)),
        (RequestModel::Ping, _) => Ok(ReplyModel::Ack(true)),
        (RequestModel::Up(request), NodeModel::Provider { upspa, .. }) => provider_answer(
            upspa,
            request,
            now,
        ),
        (RequestModel::Tspa(request), NodeModel::Provider { tspa, .. }) => tspa_answer(
            tspa,
            request,
        ),
        (RequestModel::Ls(request), NodeModel::LoginServer(ls)) => login_answer(ls, request),
        _ => Err("wrong node"@),
    }
}

/// A node's state after a request.
pub open spec fn node_next(node: NodeModel, request: RequestModel, now: u64) -> NodeModel {
    match (request, node) {
        (RequestModel::Reset, _) => fresh_node(node),
        (RequestModel::Up(request), NodeModel::Provider { upspa, tspa }) => NodeModel::Provider {
            upspa: provider_next(upspa, request, now),
            tspa,
        },
        (RequestModel::Tspa(request), NodeModel::Provider { upspa, tspa }) => NodeModel::Provider {
            upspa,
            tspa: tspa_next(tspa, request),
        },
        (RequestModel::Ls(request), NodeModel::LoginServer(ls)) => NodeModel::LoginServer(
            login_next(ls, request),
        ),
        _ => node,
    }
}

/// The contribution in a reply is the blinded element's multiple by the provider's share
/// or OPRF key.
pub open spec fn contributes(node: NodeModel, request: RequestModel, reply: Answer) -> bool {
    match (request, node, reply) {
        (
            RequestModel::Up(UpRequestModel::Identify { uid, blinded }),
            NodeModel::Provider { upspa, .. },
            Ok(ReplyModel::Identification { contribution, .. }),
        ) => evaluates(contribution, blinded, scalar_value(upspa.roots[uid].share)),
        (
            RequestModel::Tspa(TspaRequestModel::Authenticate { blinded, .. }),
            NodeModel::Provider { tspa, .. },
            Ok(ReplyModel::TspaAuthentication { contribution, .. }),
        ) => evaluates(contribution, blinded, scalar_value(tspa.oprf_key)),
        _ => true,
    }
}

/// The node of a number: a provider, or the login server where there is none.
pub open spec fn node_of(provider_id: Option<u32>, clock_window_ms: u64) -> std::result::Result<
    NodeModel,
    Seq<char>,
> {
    match provider_id {
        Some(id) => if id == 0 {
            Err("provider ids are one-based"@)
        } else {
            Ok(fresh_provider(id, clock_window_ms))
        },
        None => Ok(NodeModel::LoginServer(Map::empty())),
    }
}

impl Node {
    /// The node of a number: a provider, or the login server where there is none.
    pub fn for_id(provider_id: Option<u32>, clock_window_ms: u64) -> (node: Result<Self>)
        ensures
            node_of(provider_id, clock_window_ms) == (match node {
                Ok(node) => Ok(node@),
                Err(error) => Err(error@),
            }),
            node matches Ok(node) ==> node@.wf(),
    {
        match provider_id {
            Some(0) => Err(message("provider ids are one-based")),
            Some(id) => Ok(Node::provider(id, clock_window_ms)),
            None => Ok(Node::LoginServer(LoginServer::default())),
        }
    }

    /// A provider without records.
    pub fn provider(id: u32, clock_window_ms: u64) -> (node: Self)
        ensures
            node@ == fresh_provider(id, clock_window_ms),
            node@.wf(),
    {
        let one = scalar_from_u64(1);
        proof {
            lemma_le_bytes(one@);
        }
        Node::Provider {
            upspa: Box::new(UpSpaProvider::new(id, clock_window_ms)),
            tspa: TspaProvider::new(id, one),
        }
    }

    /// Answers one request at the time `now`.
    pub fn handle(&mut self, request: Request, now: u64) -> (result: Result<Reply>)
        requires
            old(self)@.wf(),
        ensures
            answer(result) == node_answer(old(self)@, request@, now),
            final(self)@ == node_next(old(self)@, request@, now),
            final(self)@.wf(),
            contributes(old(self)@, request@, answer(result)),
    {
        match request {
            Request::Reset => {
                let fresh = match self {
                    Node::Provider { upspa, .. } => Node::provider(
                        upspa.provider_id,
                        upspa.clock_window_ms,
                    ),
                    Node::LoginServer(_) => Node::LoginServer(LoginServer::default()),
                };
                *self = fresh;
                Ok(Reply::Ack(true))
            },
            Request::Ping => Ok(Reply::Ack(true)),
            Request::Up(request) => match self {
                Node::Provider { upspa, .. } => upspa.handle(request, now),
                _ => Err(message("wrong node")),
            },
            Request::Tspa(request) => match self {
                Node::Provider { tspa, .. } => handle(tspa, request),
                _ => Err(message("wrong node")),
            },
            Request::Ls(request) => match self {
                Node::LoginServer(ls) => ls.handle(request),
                _ => Err(message("wrong node")),
            },
        }
    }
}

/// What stands against a request before it reaches the node: a reset must be allowed.
pub open spec fn admission_objection(request: RequestModel, allow_reset: bool) -> Option<
    Seq<char>,
> {
    if request is Reset && !allow_reset {
        Some("benchmark reset disabled"@)
    } else {
        None
    }
}

/// The response to a request that is refused before it reaches the node: a reset that is
/// not allowed.
pub fn refused(request: &Request, allow_reset: bool) -> (response: Option<Response>)
    ensures
        match response {
            Some(response) => admission_objection(request@, allow_reset) is Some && answer(
                response.result,
            ) == Err::<ReplyModel, Seq<char>>(admission_objection(request@, allow_reset)->0)
                && response.processing_ns == 0,
            None => admission_objection(request@, allow_reset) is None,
        },
{
    match request {
        Request::Reset => {
            if allow_reset {
                None
            } else {
                Some(
                    Response {
                        result: Err(message("benchmark reset disabled")),
                        processing_ns: 0,
                    },
                )
            }
        },
        _ => None,
    }
}

/// Nodes that are called in place.
pub struct InMemoryTransport {
    pub nodes: Vec<(Target, Node)>,
}

/// Model of [`InMemoryTransport`]: the nodes, each with its target.
pub open spec fn placed(nodes: Seq<(Target, Node)>) -> Seq<(Target, NodeModel)> {
    Seq::new(nodes.len(), |i: int| (nodes[i].0, nodes[i].1@))
}

impl View for InMemoryTransport {
    type V = Seq<(Target, NodeModel)>;

    open spec fn view(&self) -> Seq<(Target, NodeModel)> {
        placed(self.nodes@)
    }
}

/// Every node is well formed.
pub open spec fn all_wf(nodes: Seq<(Target, NodeModel)>) -> bool {
    forall|i: int| #![trigger nodes[i]] 0 <= i < nodes.len() ==> nodes[i].1.wf()
}

/// The first node of a target.
pub open spec fn located(nodes: Seq<(Target, NodeModel)>, target: Target, i: int) -> bool {
    &&& 0 <= i < nodes.len()
    &&& nodes[i].0 == target
    &&& forall|k: int| 0 <= k < i ==> (#[trigger] nodes[k]).0 != target
}

/// The first node of the target answers and changes, and no other does; without one nothing
/// changes.
pub open spec fn calls_node(
    before: Seq<(Target, NodeModel)>,
    target: Target,
    request: RequestModel,
    now: u64,
    reply: Answer,
    after: Seq<(Target, NodeModel)>,
) -> bool {
    &&& (forall|i: int| 0 <= i < before.len() ==> (#[trigger] before[i]).0 != target) ==> reply
        == Err::<ReplyModel, Seq<char>>("missing endpoint"@) && after == before
    &&& forall|i: int| #[trigger]
        located(before, target, i) ==> reply == node_answer(before[i].1, request, now) && after
            == before.update(i, (target, node_next(before[i].1, request, now)))
}

/// The providers `1..=n` and the login server, all without records.
pub open spec fn fresh_nodes(n: int, clock_window_ms: u64) -> Seq<(Target, NodeModel)> {
    Seq::new(
        (n + 1) as nat,
        |i: int|
            if i < n {
                (
                    Target::Provider((i + 1) as u32),
                    fresh_provider((i + 1) as u32, clock_window_ms),
                )
            } else {
                (Target::LoginServer, NodeModel::LoginServer(Map::empty()))
            },
    )
}

impl InMemoryTransport {
    /// The providers `1..=n` and the login server, all without records.
    pub fn new(n: usize, clock_window_ms: u64) -> (transport: Self)
        requires
            n <= u32::MAX,
        ensures
            transport@ == fresh_nodes(n as int, clock_window_ms),
            all_wf(transport@),
    {
        let mut nodes: Vec<(Target, Node)> = Vec::new();
        let mut i: usize = 0;
        while i < n
            invariant
                i <= n <= u32::MAX,
                nodes@.len() == i,
                forall|k: int|
                    #![trigger nodes@[k]]
                    0 <= k < i ==> (nodes@[k].0, nodes@[k].1@) == fresh_nodes(
                        n as int,
                        clock_window_ms,
                    )[k],
            decreases n - i,
        {
            let id: u32 = (i + 1) as u32;
            nodes.push((Target::Provider(id), Node::provider(id, clock_window_ms)));
            i += 1;
        }
        nodes.push((Target::LoginServer, Node::LoginServer(LoginServer::default())));
        assert(placed(nodes@) =~= fresh_nodes(n as int, clock_window_ms));
        InMemoryTransport { nodes }
    }

    /// Calls the node of a target at the time `now`.
    pub fn call(&mut self, target: Target, request: Request, now: u64) -> (result: Result<Reply>)
        requires
            all_wf(old(self)@),
        ensures
            all_wf(final(self)@),
            calls_node(old(self)@, target, request@, now, answer(result), final(self)@),
            forall|i: int| #[trigger]
                located(old(self)@, target, i) ==> contributes(
                    old(self)@[i].1,
                    request@,
                    answer(result),
                ),
    {
        let ghost before = self@;
        let mut i: usize = 0;
        while i < self.nodes.len() && self.nodes[i].0 != target
            invariant
                i <= self.nodes@.len(),
                before == self@,
                self.nodes@ == old(self).nodes@,
                forall|k: int| 0 <= k < i ==> (#[trigger] before[k]).0 != target,
            decreases self.nodes@.len() - i,
        {
            assert(before[i as int].0 == self.nodes@[i as int].0);
            i += 1;
        }
        if i == self.nodes.len() {
            return Err(message("missing endpoint"));
        }
        assert(before[i as int].0 == self.nodes@[i as int].0);
        assert(located(before, target, i as int));
        assert forall|k: int| #[trigger] located(before, target, k) implies k == i by {
            if k < i {
                assert(before[k].0 != target);
            }
            if k > i {
                assert(before[i as int].0 == target);
            }
        }
        assert(before[i as int].1 == self.nodes@[i as int].1@);
        let result = self.nodes[i].1.handle(request, now);
        assert(self@ =~= before.update(
            i as int,
            (target, node_next(before[i as int].1, request@, now)),
        ));
        result
    }
}

/// The length field of a frame of this length, or the error of one that is too long.
pub open spec fn length_field(length: int) -> std::result::Result<Seq<u8>, Seq<char>> {
    if length > MAX_FRAME {
        Err("frame exceeds size limit"@)
    } else {
        Ok(spec_u32_to_le_bytes(length as u32))
    }
}

/// The length that a length field announces, or the error of one that is too long.
pub open spec fn announced_length(header: Seq<u8>) -> std::result::Result<int, Seq<char>> {
    if spec_u32_from_le_bytes(header) > MAX_FRAME {
        Err("frame exceeds size limit"@)
    } else {
        Ok(spec_u32_from_le_bytes(header) as int)
    }
}

/// The length field in front of a frame, or an error if the frame is too long.
pub fn frame_header(length: usize) -> (header: Result<[u8; 4]>)
    ensures
        length_field(length as int) == (match header {
            Ok(bytes) => Ok(bytes@),
            Err(error) => Err(error@),
        }),
{
    if length > MAX_FRAME {
        return Err(message("frame exceeds size limit"));
    }
    let bytes = u32_to_le_bytes(length as u32);
    proof {
        lemma_auto_spec_u32_to_from_le_bytes();
    }
    Ok(to_array(bytes.as_slice()))
}

/// The length of the frame behind a length field, or an error if it is too long.
pub fn frame_size(header: &[u8; 4]) -> (size: Result<usize>)
    ensures
        announced_length(header@) == (match size {
            Ok(length) => Ok(length as int),
            Err(error) => Err(error@),
        }),
{
    let length: usize = u32_from_le_bytes(header.as_slice()) as usize;
    if length > MAX_FRAME {
        return Err(message("frame exceeds size limit"));
    }
    Ok(length)
}

/// The traffic of a frame: its length field and its content.
pub open spec fn frame_traffic(length: int) -> int {
    length + 4
}

/// The traffic of a frame: its length field and its content.
pub fn framed_length(length: usize) -> (bytes: u64)
    requires
        length <= MAX_FRAME,
    ensures
        bytes == frame_traffic(length as int),
{
    length as u64 + 4
}

/// What a length field is read as is the length that it was written for.
pub proof fn law_frame_length_is_read_back(length: u32)
    ensures
        spec_u32_from_le_bytes(spec_u32_to_le_bytes(length)) == length,
{
    lemma_auto_spec_u32_to_from_le_bytes();
    assert(spec_u32_to_le_bytes(length).len() == 4);
}

/// A request that a node does not serve changes nothing.
pub proof fn law_wrong_node_is_unchanged(node: NodeModel, request: RequestModel, now: u64)
    ensures
        match (request, node) {
            (RequestModel::Up(_), NodeModel::LoginServer(_)) => true,
            (RequestModel::Tspa(_), NodeModel::LoginServer(_)) => true,
            (RequestModel::Ls(_), NodeModel::Provider { .. }) => true,
            _ => false,
        } ==> node_next(node, request, now) == node && node_answer(node, request, now) == Err::<
            ReplyModel,
            Seq<char>,
        >("wrong node"@),
{
}

/// After a reset a node is as it was before its first request.
pub proof fn law_reset_forgets_everything(node: NodeModel, now: u64)
    ensures
        node_answer(node, RequestModel::Reset, now) == Ok::<ReplyModel, Seq<char>>(
            ReplyModel::Ack(true),
        ),
        node_next(node, RequestModel::Reset, now) == fresh_node(node),
        fresh_node(node).wf(),
        fresh_node(fresh_node(node)) == fresh_node(node),
{
}

/// The two protocols of a provider do not touch each other's records.
pub proof fn law_protocols_are_separate(node: NodeModel, request: RequestModel, now: u64)
    requires
        node is Provider,
    ensures
        request is Up ==> node_next(node, request, now)->tspa == node->tspa,
        request is Tspa ==> node_next(node, request, now)->upspa == node->upspa,
{
}

} // verus!
