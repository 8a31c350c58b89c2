//! The course of phases on a network of nodes: which requests reach their nodes, which
//! answers come back, and how the client goes on.

use vstd::prelude::*;

use crate::agreement::{
    agreement, agreement_value, ambiguous, distinct_providers, law_unanimous_replies_agree,
    lemma_supporters, qualifies, settled, supporters, Vote,
};
use crate::flow::{goes_on, StageModel, StepModel, SystemModel};
use crate::messages::{ReplyModel, RequestModel};
use crate::stage::{
    acknowledged, collected, first_failure, law_all_means_every_reply, lemma_all_succeeded, sender,
    successes, Arrival, Policy, StageOutcome,
};
use crate::trace::call_succeeded;
use crate::transport::{contributes, node_answer, node_next, NodeModel, Target};

verus! {

/// The nodes: the providers, numbered from one, and the login server.
pub struct Network {
    pub providers: Seq<NodeModel>,
    pub login: NodeModel,
}

impl Network {
    /// Whether there is a node for a target.
    pub open spec fn has(self, target: Target) -> bool {
        match target {
            Target::Provider(id) => 1 <= id <= self.providers.len(),
            Target::LoginServer => true,
        }
    }

    /// The node of a target.
    pub open spec fn node(self, target: Target) -> NodeModel {
        match target {
            Target::Provider(id) => self.providers[id - 1],
            Target::LoginServer => self.login,
        }
    }

    /// `n` providers under their numbers, with well-formed records, and a login server.
    pub open spec fn ready(self, n: int) -> bool {
        &&& self.providers.len() == n
        &&& forall|i: int|
            #![trigger self.providers[i]]
            0 <= i < n ==> self.providers[i] is Provider && self.providers[i]->upspa.wf()
                && self.providers[i]->upspa.provider_id == i + 1 && self.providers[i]->tspa.sp_id
                == i + 1
        &&& self.login is LoginServer
    }
}

/// A client and the network.
pub struct World {
    pub system: SystemModel,
    pub network: Network,
}

/// What happens while a stage runs: which targets process their request, which answers
/// come in, what the stage ends with, whether its deadline passed, whether the login server
/// is recorded to have refused, and the clocks of nodes and client.
pub struct Event {
    pub reached: Set<Target>,
    pub arrivals: Seq<Arrival>,
    pub end: StageOutcome,
    pub expired: bool,
    pub refused: bool,
    pub clock: u64,
    pub now: u64,
}

/// A node after the requests that are addressed to it.
pub open spec fn handled(
    node: NodeModel,
    target: Target,
    requests: Seq<(Target, RequestModel)>,
    clock: u64,
) -> NodeModel
    decreases requests.len(),
{
    if requests.len() == 0 {
        node
    } else {
        let earlier = handled(node, target, requests.drop_last(), clock);
        if requests.last().0 == target {
            node_next(earlier, requests.last().1, clock)
        } else {
            earlier
        }
    }
}

/// A node after a stage: changed by the requests that are addressed to it, if they reach
/// it.
pub open spec fn visited(
    node: NodeModel,
    target: Target,
    requests: Seq<(Target, RequestModel)>,
    event: Event,
) -> NodeModel {
    if event.reached.contains(target) {
        handled(node, target, requests, event.clock)
    } else {
        node
    }
}

/// The network after a stage.
pub open spec fn network_after(
    network: Network,
    requests: Seq<(Target, RequestModel)>,
    event: Event,
) -> Network {
    Network {
        providers: Seq::new(
            network.providers.len(),
            |i: int|
                visited(network.providers[i], Target::Provider((i + 1) as u32), requests, event),
        ),
        login: visited(network.login, Target::LoginServer, requests, event),
    }
}

/// An answer is the one of the node that a request is addressed to.
pub open spec fn is_genuine(
    network: Network,
    request: (Target, RequestModel),
    clock: u64,
    arrival: Arrival,
) -> bool {
    &&& arrival.0 == request.0
    &&& network.has(request.0)
    &&& arrival.1 == node_answer(network.node(request.0), request.1, clock)
    &&& contributes(network.node(request.0), request.1, arrival.1)
}

/// An answer can come in: it is that of a node which its request reached, or an error of
/// the transport.
pub open spec fn can_arrive(
    network: Network,
    request: (Target, RequestModel),
    event: Event,
    arrival: Arrival,
) -> bool {
    &&& arrival.0 == request.0
    &&& arrival.1 is Err || (event.reached.contains(request.0) && is_genuine(
        network,
        request,
        event.clock,
        arrival,
    ))
}

/// Each target answers at most once.
pub open spec fn one_answer_each(arrivals: Seq<Arrival>) -> bool {
    forall|i: int, j: int|
        #![trigger arrivals[i], arrivals[j]]
        0 <= i < j < arrivals.len() ==> arrivals[i].0 != arrivals[j].0
}

/// What can happen while a stage runs. Requests may be lost, and so may answers; the stage
/// ends as its answers tell or by its deadline; and the login server is recorded to have
/// refused only if it did.
pub open spec fn can_happen(network: Network, stage: StageModel, event: Event) -> bool {
    let requests = stage.requests;
    &&& event.arrivals.len() <= requests.len()
    &&& one_answer_each(event.arrivals)
    &&& forall|k: int|
        #![trigger event.arrivals[k]]
        0 <= k < event.arrivals.len() ==> exists|i: int|
            0 <= i < requests.len() && can_arrive(
                network,
                #[trigger] requests[i],
                event,
                event.arrivals[k],
            )
    &&& if event.expired {
        event.end == Err::<Seq<Vote>, Seq<char>>("stage deadline exceeded"@)
    } else {
        collected(stage.policy, requests.len() as int, event.arrivals) == Some(event.end)
    }
    &&& event.refused ==> exists|i: int|
        0 <= i < requests.len() && (#[trigger] requests[i]).0 == Target::LoginServer
            && event.reached.contains(Target::LoginServer) && !call_succeeded(
            node_answer(network.login, requests[i].1, event.clock),
        )
}

/// Everything is delivered: every request reaches its node, every answer is the node's, and
/// the deadline does not pass.
pub open spec fn is_delivered(network: Network, stage: StageModel, event: Event) -> bool {
    let requests = stage.requests;
    &&& !event.expired
    &&& forall|i: int|
        0 <= i < requests.len() ==> event.reached.contains((#[trigger] requests[i]).0)
    &&& forall|k: int|
        #![trigger event.arrivals[k]]
        0 <= k < event.arrivals.len() ==> exists|i: int|
            0 <= i < requests.len() && is_genuine(
                network,
                #[trigger] requests[i],
                event.clock,
                event.arrivals[k],
            )
}

/// A step runs its stage on the network, and the client goes on to the next one.
pub open spec fn leads_to(
    world: World,
    step: StepModel,
    event: Event,
    next: World,
    further: StepModel,
) -> bool {
    step matches StepModel::Run(stage, progress) && {
        &&& can_happen(world.network, stage, event)
        &&& next.network == network_after(world.network, stage.requests, event)
        &&& goes_on(
            world.system,
            progress,
            event.end,
            event.refused,
            event.now,
            next.system,
            further,
        )
    }
}

/// A step runs its stage with everything delivered, and the client goes on to the next one.
pub open spec fn passes_to(
    world: World,
    step: StepModel,
    event: Event,
    next: World,
    further: StepModel,
) -> bool {
    &&& leads_to(world, step, event, next, further)
    &&& is_delivered(world.network, step->Run_0, event)
}

/// A phase on a network: how the client starts it, what happens in each of its stages, and
/// what follows on each.
pub struct Journey {
    pub system: SystemModel,
    pub step: StepModel,
    pub events: Seq<Event>,
    pub worlds: Seq<World>,
    pub steps: Seq<StepModel>,
}

impl Journey {
    /// The world in which a stage runs.
    pub open spec fn world(self, network: Network, k: int) -> World {
        if k == 0 {
            World { system: self.system, network }
        } else {
            self.worlds[k - 1]
        }
    }

    /// The step that runs a stage.
    pub open spec fn step_at(self, k: int) -> StepModel {
        if k == 0 {
            self.step
        } else {
            self.steps[k - 1]
        }
    }

    /// A stage runs as it can.
    pub open spec fn leads(self, network: Network, k: int) -> bool {
        leads_to(
            self.world(network, k),
            self.step_at(k),
            self.events[k],
            self.worlds[k],
            self.steps[k],
        )
    }

    /// A stage runs with everything delivered.
    pub open spec fn passes(self, network: Network, k: int) -> bool {
        passes_to(
            self.world(network, k),
            self.step_at(k),
            self.events[k],
            self.worlds[k],
            self.steps[k],
        )
    }

    /// This many stages run, with everything delivered.
    pub open spec fn is_delivered(self, network: Network, stages: int) -> bool {
        &&& self.events.len() == self.worlds.len() == self.steps.len() == stages
        &&& forall|k: int| 0 <= k < stages ==> #[trigger] self.passes(network, k)
    }

    /// The client behind the last stage.
    pub open spec fn client(self) -> SystemModel {
        self.worlds.last().system
    }

    /// The network behind the last stage.
    pub open spec fn network(self) -> Network {
        self.worlds.last().network
    }

    /// What follows on the last stage.
    pub open spec fn outcome(self) -> StepModel {
        self.steps.last()
    }
}

/// The requests go to the providers one by one.
pub open spec fn in_turn(requests: Seq<(Target, RequestModel)>) -> bool {
    &&& requests.len() <= 100
    &&& forall|i: int|
        0 <= i < requests.len() ==> (#[trigger] requests[i]).0 == Target::Provider((i + 1) as u32)
}

proof fn lemma_handled_in_turn(
    node: NodeModel,
    requests: Seq<(Target, RequestModel)>,
    i: int,
    clock: u64,
)
    requires
        in_turn(requests),
        0 <= i < 100,
    ensures
        handled(node, Target::Provider((i + 1) as u32), requests, clock) == (if i < requests.len() {
            node_next(node, requests[i].1, clock)
        } else {
            node
        }),
        handled(node, Target::LoginServer, requests, clock) == node,
    decreases requests.len(),
{
    if requests.len() > 0 {
        let front = requests.drop_last();
        assert forall|k: int| 0 <= k < front.len() implies (#[trigger] front[k]).0
            == Target::Provider((k + 1) as u32) by {
            assert(front[k] == requests[k]);
        }
        lemma_handled_in_turn(node, front, i, clock);
        assert(requests[requests.len() - 1].0 == Target::Provider(requests.len() as u32));
        if i < front.len() {
            assert(front[i] == requests[i]);
        }
    }
}

/// The network after requests that go to the providers one by one: each of the providers
/// that are reached has handled its own.
pub proof fn lemma_network_in_turn(
    network: Network,
    requests: Seq<(Target, RequestModel)>,
    event: Event,
)
    requires
        network.providers.len() <= 100,
        in_turn(requests),
    ensures
        network_after(network, requests, event).providers.len() == network.providers.len(),
        network_after(network, requests, event).login == network.login,
        forall|i: int|
            #![trigger network_after(network, requests, event).providers[i]]
            0 <= i < network.providers.len() ==> network_after(
                network,
                requests,
                event,
            ).providers[i] == (if i < requests.len() && event.reached.contains(
                Target::Provider((i + 1) as u32),
            ) {
                node_next(network.providers[i], requests[i].1, event.clock)
            } else {
                network.providers[i]
            }),
{
    assert forall|i: int|
        #![trigger network_after(network, requests, event).providers[i]]
        0 <= i < network.providers.len() implies network_after(
        network,
        requests,
        event,
    ).providers[i] == (if i < requests.len() && event.reached.contains(
        Target::Provider((i + 1) as u32),
    ) {
        node_next(network.providers[i], requests[i].1, event.clock)
    } else {
        network.providers[i]
    }) by {
        lemma_handled_in_turn(network.providers[i], requests, i, event.clock);
    }
    lemma_handled_in_turn(network.login, requests, 0, event.clock);
}

/// The network after requests that go to the providers one by one and are delivered: each
/// of these providers has handled its own.
pub proof fn lemma_delivered_in_turn(
    world: World,
    step: StepModel,
    event: Event,
    next: World,
    further: StepModel,
    n: int,
)
    requires
        passes_to(world, step, event, next, further),
        world.network.providers.len() == n <= 100,
        in_turn(step->Run_0.requests),
    ensures
        next.network.providers.len() == n,
        next.network.login == world.network.login,
        forall|i: int|
            #![trigger next.network.providers[i]]
            0 <= i < n ==> next.network.providers[i] == (if i < step->Run_0.requests.len() {
                node_next(world.network.providers[i], step->Run_0.requests[i].1, event.clock)
            } else {
                world.network.providers[i]
            }),
{
    let requests = step->Run_0.requests;
    lemma_network_in_turn(world.network, requests, event);
    assert forall|i: int|
        #![trigger next.network.providers[i]]
        0 <= i < n implies next.network.providers[i] == (if i < requests.len() {
        node_next(world.network.providers[i], requests[i].1, event.clock)
    } else {
        world.network.providers[i]
    }) by {
        if i < requests.len() {
            assert(event.reached.contains(requests[i].0));
        }
    }
}

/// The network after one delivered request to the login server.
pub proof fn lemma_delivered_to_login_server(
    world: World,
    step: StepModel,
    event: Event,
    next: World,
    further: StepModel,
    request: RequestModel,
)
    requires
        passes_to(world, step, event, next, further),
        step->Run_0.requests == seq![(Target::LoginServer, request)],
        step->Run_0.policy == Policy::All,
    ensures
        next.network.providers == world.network.providers,
        next.network.login == node_next(world.network.login, request, event.clock),
        event.end == (match node_answer(world.network.login, request, event.clock) {
            Ok(reply) => Ok::<Seq<Vote>, Seq<char>>(seq![(0u32, reply)]),
            Err(error) => Err(error),
        }),
{
    let requests = step->Run_0.requests;
    let earlier = requests.drop_last();
    assert(requests.last() == (Target::LoginServer, request));
    assert(handled(world.network.login, Target::LoginServer, earlier, event.clock)
        == world.network.login);
    assert(event.reached.contains(requests[0].0));
    assert forall|i: int|
        #![trigger next.network.providers[i]]
        0 <= i < world.network.providers.len() implies next.network.providers[i]
        == world.network.providers[i] by {
        let target = Target::Provider((i + 1) as u32);
        assert(handled(world.network.providers[i], target, earlier, event.clock)
            == world.network.providers[i]);
        assert(handled(world.network.providers[i], target, requests, event.clock)
            == world.network.providers[i]);
    }
    assert(next.network.providers =~= world.network.providers);
    let arrivals = event.arrivals;
    assert(arrivals.len() == 1);
    let i = choose|i: int|
        0 <= i < requests.len() && is_genuine(
            world.network,
            #[trigger] requests[i],
            event.clock,
            arrivals[0],
        );
    assert(requests[i] == (Target::LoginServer, request));
    assert(arrivals.last() == arrivals[0]);
    assert(arrivals.drop_last() =~= Seq::<Arrival>::empty());
    assert(successes(arrivals.drop_last()) =~= Seq::<Vote>::empty());
    assert(first_failure(arrivals.drop_last()) is None);
    match arrivals[0].1 {
        Ok(reply) => {
            assert(successes(arrivals) =~= seq![(0u32, reply)]);
        },
        Err(_) => {},
    }
}

/// Delivered requests that are all answered with a positive acknowledgement give a
/// successful stage.
pub proof fn lemma_delivered_acknowledgements(
    world: World,
    step: StepModel,
    event: Event,
    next: World,
    further: StepModel,
)
    requires
        passes_to(world, step, event, next, further),
        step->Run_0.policy == Policy::All,
        forall|i: int|
            #![trigger step->Run_0.requests[i]]
            0 <= i < step->Run_0.requests.len() ==> node_answer(
                world.network.node(step->Run_0.requests[i].0),
                step->Run_0.requests[i].1,
                event.clock,
            ) == Ok::<ReplyModel, Seq<char>>(ReplyModel::Ack(true)),
    ensures
        acknowledged(event.end) is Ok,
        event.end is Ok,
{
    let requests = step->Run_0.requests;
    let arrivals = event.arrivals;
    assert forall|k: int| #![trigger arrivals[k]] 0 <= k < arrivals.len() implies arrivals[k].1
        == Ok::<ReplyModel, Seq<char>>(ReplyModel::Ack(true)) by {
        let i = choose|i: int|
            0 <= i < requests.len() && is_genuine(
                world.network,
                #[trigger] requests[i],
                event.clock,
                arrivals[k],
            );
        assert(arrivals[k].1 == node_answer(
            world.network.node(requests[i].0),
            requests[i].1,
            event.clock,
        ));
    }
    law_all_means_every_reply(requests.len() as int, arrivals);
    assert(collected(Policy::All, requests.len() as int, arrivals) matches Some(Ok(_)));
    let replies = event.end->Ok_0;
    assert forall|k: int| #![trigger replies[k]] 0 <= k < replies.len() implies replies[k].1
        == ReplyModel::Ack(true) by {
        assert(arrivals[k].1 is Ok);
    }
}

/// Delivered requests that are all answered with one error give a stage that ends with it.
pub proof fn lemma_delivered_refusals(
    world: World,
    step: StepModel,
    event: Event,
    next: World,
    further: StepModel,
    error: Seq<char>,
)
    requires
        passes_to(world, step, event, next, further),
        step->Run_0.policy == Policy::All,
        step->Run_0.requests.len() >= 1,
        forall|i: int|
            #![trigger step->Run_0.requests[i]]
            0 <= i < step->Run_0.requests.len() ==> node_answer(
                world.network.node(step->Run_0.requests[i].0),
                step->Run_0.requests[i].1,
                event.clock,
            ) == Err::<ReplyModel, Seq<char>>(error),
    ensures
        event.end == Err::<Seq<Vote>, Seq<char>>(error),
{
    let requests = step->Run_0.requests;
    let arrivals = event.arrivals;
    assert forall|k: int| #![trigger arrivals[k]] 0 <= k < arrivals.len() implies arrivals[k].1
        == Err::<ReplyModel, Seq<char>>(error) by {
        let i = choose|i: int|
            0 <= i < requests.len() && is_genuine(
                world.network,
                #[trigger] requests[i],
                event.clock,
                arrivals[k],
            );
        assert(arrivals[k].1 == node_answer(
            world.network.node(requests[i].0),
            requests[i].1,
            event.clock,
        ));
    }
    lemma_first_failure(arrivals, error);
}

proof fn lemma_first_failure(arrivals: Seq<Arrival>, error: Seq<char>)
    requires
        arrivals.len() >= 1,
        forall|k: int|
            #![trigger arrivals[k]]
            0 <= k < arrivals.len() ==> arrivals[k].1 == Err::<ReplyModel, Seq<char>>(error),
    ensures
        first_failure(arrivals) == Some(error),
    decreases arrivals.len(),
{
    let front = arrivals.drop_last();
    assert(arrivals.last() == arrivals[arrivals.len() - 1]);
    if arrivals.len() > 1 {
        assert forall|k: int| #![trigger front[k]] 0 <= k < front.len() implies front[k].1 == Err::<
            ReplyModel,
            Seq<char>,
        >(error) by {
            assert(front[k] == arrivals[k]);
        }
        lemma_first_failure(front, error);
    } else {
        assert(first_failure(front) is None);
    }
}

/// Delivered requests that are all answered with a reply give a successful stage.
pub proof fn lemma_delivered_replies(
    world: World,
    step: StepModel,
    event: Event,
    next: World,
    further: StepModel,
)
    requires
        passes_to(world, step, event, next, further),
        step->Run_0.policy == Policy::All,
        forall|i: int|
            #![trigger step->Run_0.requests[i]]
            0 <= i < step->Run_0.requests.len() ==> node_answer(
                world.network.node(step->Run_0.requests[i].0),
                step->Run_0.requests[i].1,
                event.clock,
            ) is Ok,
    ensures
        event.end is Ok,
{
    let requests = step->Run_0.requests;
    let arrivals = event.arrivals;
    assert forall|k: int| #![trigger arrivals[k]] 0 <= k < arrivals.len() implies arrivals[k].1
        is Ok by {
        let i = choose|i: int|
            0 <= i < requests.len() && is_genuine(
                world.network,
                #[trigger] requests[i],
                event.clock,
                arrivals[k],
            );
        assert(arrivals[k].1 == node_answer(
            world.network.node(requests[i].0),
            requests[i].1,
            event.clock,
        ));
    }
    law_all_means_every_reply(requests.len() as int, arrivals);
}

/// A stage whose answers all support one value, if their contributions are sound, ends with
/// these answers: there are enough of them, and they come from distinct providers.
pub proof fn lemma_delivered_agreement(
    world: World,
    step: StepModel,
    event: Event,
    next: World,
    further: StepModel,
    n: int,
    t: int,
    value: Seq<u8>,
)
    requires
        passes_to(world, step, event, next, further),
        in_turn(step->Run_0.requests),
        step->Run_0.requests.len() == n,
        1 <= t <= n <= 100,
        step->Run_0.policy == Policy::All || step->Run_0.policy == Policy::Agreement(t as usize),
        forall|i: int|
            #![trigger step->Run_0.requests[i]]
            0 <= i < n ==> {
                let node = world.network.node(step->Run_0.requests[i].0);
                let answer = node_answer(node, step->Run_0.requests[i].1, event.clock);
                contributes(node, step->Run_0.requests[i].1, answer) ==> (answer matches Ok(reply)
                    && agreement_value(reply) == Some(value))
            },
    ensures
        event.end matches Ok(replies) && replies.len() >= t && distinct_providers(replies)
            && forall|k: int|
            #![trigger replies[k]]
            0 <= k < replies.len() ==> {
                let i = replies[k].0 - 1;
                &&& 0 <= i < n
                &&& agreement_value(replies[k].1) == Some(value)
                &&& node_answer(
                    world.network.providers[i],
                    step->Run_0.requests[i].1,
                    event.clock,
                ) == Ok::<ReplyModel, Seq<char>>(replies[k].1)
                &&& contributes(
                    world.network.providers[i],
                    step->Run_0.requests[i].1,
                    Ok(replies[k].1),
                )
            },
{
    let requests = step->Run_0.requests;
    let arrivals = event.arrivals;
    assert forall|k: int| #![trigger arrivals[k]] 0 <= k < arrivals.len() implies {
        let i = sender(arrivals[k].0) - 1;
        &&& 0 <= i < n
        &&& arrivals[k].0 == Target::Provider((i + 1) as u32)
        &&& arrivals[k].1 is Ok
        &&& agreement_value(arrivals[k].1->Ok_0) == Some(value)
        &&& arrivals[k].1 == node_answer(
            world.network.providers[i],
            requests[i].1,
            event.clock,
        )
        &&& contributes(world.network.providers[i], requests[i].1, arrivals[k].1)
    } by {
        let i = choose|i: int|
            0 <= i < requests.len() && is_genuine(
                world.network,
                #[trigger] requests[i],
                event.clock,
                arrivals[k],
            );
        assert(requests[i].0 == Target::Provider((i + 1) as u32));
    }
    lemma_all_succeeded(arrivals);
    let replies = successes(arrivals);
    assert(replies.len() == arrivals.len());
    assert forall|k: int| #![trigger replies[k]] 0 <= k < replies.len() implies {
        let i = replies[k].0 - 1;
        &&& 0 <= i < n
        &&& agreement_value(replies[k].1) == Some(value)
        &&& node_answer(world.network.providers[i], requests[i].1, event.clock) == Ok::<
            ReplyModel,
            Seq<char>,
        >(replies[k].1)
        &&& contributes(world.network.providers[i], requests[i].1, Ok(replies[k].1))
    } by {
        assert(arrivals[k].1 is Ok);
    }
    assert(distinct_providers(replies)) by {
        assert forall|i: int, j: int| #![trigger replies[i], replies[j]] 0 <= i < j
            < replies.len() implies replies[i].0 != replies[j].0 by {
            assert(arrivals[i].0 != arrivals[j].0);
        }
    }
    if step->Run_0.policy == Policy::Agreement(t as usize) {
        lemma_unanimous_outcome(replies, t, n - arrivals.len(), value);
    }
}

/// A stage that waits for all, whose requests go to the providers one by one and are all
/// answered with a reply, ends with these replies.
pub proof fn lemma_delivered_to_all(
    world: World,
    step: StepModel,
    event: Event,
    next: World,
    further: StepModel,
    n: int,
)
    requires
        passes_to(world, step, event, next, further),
        in_turn(step->Run_0.requests),
        step->Run_0.requests.len() == n <= 100,
        step->Run_0.policy == Policy::All,
        forall|i: int|
            #![trigger step->Run_0.requests[i]]
            0 <= i < n ==> {
                let node = world.network.node(step->Run_0.requests[i].0);
                node_answer(node, step->Run_0.requests[i].1, event.clock) is Ok
            },
    ensures
        event.end matches Ok(replies) && replies.len() == n && distinct_providers(replies)
            && forall|k: int|
            #![trigger replies[k]]
            0 <= k < replies.len() ==> {
                let i = replies[k].0 - 1;
                &&& 0 <= i < n
                &&& node_answer(
                    world.network.providers[i],
                    step->Run_0.requests[i].1,
                    event.clock,
                ) == Ok::<ReplyModel, Seq<char>>(replies[k].1)
                &&& contributes(
                    world.network.providers[i],
                    step->Run_0.requests[i].1,
                    Ok(replies[k].1),
                )
            },
{
    let requests = step->Run_0.requests;
    let arrivals = event.arrivals;
    assert forall|k: int| #![trigger arrivals[k]] 0 <= k < arrivals.len() implies {
        let i = sender(arrivals[k].0) - 1;
        &&& 0 <= i < n
        &&& arrivals[k].0 == Target::Provider((i + 1) as u32)
        &&& arrivals[k].1 is Ok
        &&& arrivals[k].1 == node_answer(
            world.network.providers[i],
            requests[i].1,
            event.clock,
        )
        &&& contributes(world.network.providers[i], requests[i].1, arrivals[k].1)
    } by {
        let i = choose|i: int|
            0 <= i < requests.len() && is_genuine(
                world.network,
                #[trigger] requests[i],
                event.clock,
                arrivals[k],
            );
        assert(requests[i].0 == Target::Provider((i + 1) as u32));
    }
    lemma_all_succeeded(arrivals);
    let replies = successes(arrivals);
    assert forall|k: int| #![trigger replies[k]] 0 <= k < replies.len() implies {
        let i = replies[k].0 - 1;
        &&& 0 <= i < n
        &&& node_answer(world.network.providers[i], requests[i].1, event.clock) == Ok::<
            ReplyModel,
            Seq<char>,
        >(replies[k].1)
        &&& contributes(world.network.providers[i], requests[i].1, Ok(replies[k].1))
    } by {
        assert(arrivals[k].1 is Ok);
    }
    assert(distinct_providers(replies)) by {
        assert forall|i: int, j: int| #![trigger replies[i], replies[j]] 0 <= i < j
            < replies.len() implies replies[i].0 != replies[j].0 by {
            assert(arrivals[i].0 != arrivals[j].0);
        }
    }
}

/// Replies that all support one value are the agreement as soon as there is one.
proof fn lemma_unanimous_outcome(replies: Seq<Vote>, threshold: int, outstanding: int, value: Seq<u8>)
    requires
        1 <= threshold <= replies.len() + outstanding,
        0 <= outstanding,
        forall|i: int|
            #![trigger replies[i]]
            0 <= i < replies.len() ==> agreement_value(replies[i].1) == Some(value),
        agreement(replies, threshold, outstanding) != Ok::<Option<Seq<Vote>>, Seq<char>>(None),
    ensures
        agreement(replies, threshold, outstanding) == Ok::<Option<Seq<Vote>>, Seq<char>>(
            Some(replies),
        ),
        replies.len() >= threshold,
{
    if threshold <= replies.len() && outstanding < threshold {
        law_unanimous_replies_agree(replies, threshold, outstanding, value);
    } else {
        assert forall|other: Seq<u8>| #![trigger supporters(replies, other)] supporters(
            replies,
            other,
        ).len() <= replies.len() && (other != value ==> supporters(replies, other).len() == 0) by {
            lemma_supporters(replies, other);
            if other != value && supporters(replies, other).len() > 0 {
                let vote = supporters(replies, other)[0];
                let k = choose|k: int| 0 <= k < replies.len() && replies[k] == vote;
                assert(agreement_value(replies[k].1) == Some(value));
            }
        }
        assert(!ambiguous(replies, threshold)) by {
            if ambiguous(replies, threshold) {
                let (a, b) = choose|a: Seq<u8>, b: Seq<u8>|
                    #![trigger supporters(replies, a), supporters(replies, b)]
                    a != b && qualifies(replies, threshold, a) && qualifies(replies, threshold, b);
                assert(supporters(replies, a).len() == 0 || supporters(replies, b).len() == 0);
            }
        }
        assert(!exists|v: Seq<u8>| settled(replies, threshold, outstanding, v)) by {
            if exists|v: Seq<u8>| settled(replies, threshold, outstanding, v) {
                let v = choose|v: Seq<u8>| settled(replies, threshold, outstanding, v);
                assert(supporters(replies, v).len() <= replies.len());
            }
        }
        assert(outstanding > 0);
        assert(false);
    }
}

} // verus!
