//! What is recorded of the calls and stages of a phase.

use vstd::prelude::*;

use crate::messages::{answer, message, Answer, Reply, ReplyModel, Result};
use crate::transport::{Packet, Target};

verus! {

/// The record of one call.
#[derive(Debug, PartialEq, Eq)]
pub struct CallSample {
    pub stage_id: usize,
    pub target: Target,
    pub operation: String,
    pub processing_ns: Option<u64>,
    pub bytes_sent: Option<u64>,
    pub bytes_received: Option<u64>,
    pub success: bool,
    pub error: String,
}

/// Model of [`CallSample`].
pub struct CallModel {
    pub stage_id: usize,
    pub target: Target,
    pub operation: Seq<char>,
    pub processing_ns: Option<u64>,
    pub bytes_sent: Option<u64>,
    pub bytes_received: Option<u64>,
    pub success: bool,
    pub error: Seq<char>,
}

impl View for CallSample {
    type V = CallModel;

    open spec fn view(&self) -> CallModel {
        CallModel {
            stage_id: self.stage_id,
            target: self.target,
            operation: self.operation@,
            processing_ns: self.processing_ns,
            bytes_sent: self.bytes_sent,
            bytes_received: self.bytes_received,
            success: self.success,
            error: self.error@,
        }
    }
}

impl Clone for CallSample {
    fn clone(&self) -> (copy: Self)
        ensures
            copy@ == self@,
    {
        CallSample {
            stage_id: self.stage_id,
            target: self.target,
            operation: self.operation.clone(),
            processing_ns: self.processing_ns,
            bytes_sent: self.bytes_sent,
            bytes_received: self.bytes_received,
            success: self.success,
            error: self.error.clone(),
        }
    }
}

/// The record of one stage.
#[derive(Debug, PartialEq, Eq)]
pub struct StageSample {
    pub stage_id: usize,
    pub stage: String,
    pub elapsed_ns: u64,
    pub requests: usize,
}

/// Model of [`StageSample`].
pub struct StageRecord {
    pub stage_id: usize,
    pub stage: Seq<char>,
    pub elapsed_ns: u64,
    pub requests: usize,
}

impl View for StageSample {
    type V = StageRecord;

    open spec fn view(&self) -> StageRecord {
        StageRecord {
            stage_id: self.stage_id,
            stage: self.stage@,
            elapsed_ns: self.elapsed_ns,
            requests: self.requests,
        }
    }
}

impl Clone for StageSample {
    fn clone(&self) -> (copy: Self)
        ensures
            copy@ == self@,
    {
        StageSample {
            stage_id: self.stage_id,
            stage: self.stage.clone(),
            elapsed_ns: self.elapsed_ns,
            requests: self.requests,
        }
    }
}

/// The record of a phase: client time, stages and calls.
#[derive(Debug)]
pub struct Trace {
    pub client_ns: u64,
    pub stages: Vec<StageSample>,
    pub calls: Vec<CallSample>,
}

impl Default for Trace {
    fn default() -> (trace: Self)
        ensures
            trace.client_ns == 0,
            trace.stages@ == Seq::<StageSample>::empty(),
            trace.calls@ == Seq::<CallSample>::empty(),
    {
        Trace { client_ns: 0, stages: Vec::new(), calls: Vec::new() }
    }
}

impl Clone for Trace {
    fn clone(&self) -> (copy: Self)
        ensures
            copy.client_ns == self.client_ns,
            copy.stages@.len() == self.stages@.len(),
            forall|i: int|
                0 <= i < self.stages@.len() ==> (#[trigger] copy.stages@[i])@ == self.stages@[i]@,
            copy.calls@.len() == self.calls@.len(),
            forall|i: int|
                0 <= i < self.calls@.len() ==> (#[trigger] copy.calls@[i])@ == self.calls@[i]@,
    {
        let mut stages: Vec<StageSample> = Vec::new();
        let mut i: usize = 0;
        while i < self.stages.len()
            invariant
                i <= self.stages@.len(),
                stages@.len() == i,
                forall|k: int| 0 <= k < i ==> (#[trigger] stages@[k])@ == self.stages@[k]@,
            decreases self.stages@.len() - i,
        {
            stages.push(self.stages[i].clone());
            i += 1;
        }
        let mut calls: Vec<CallSample> = Vec::new();
        let mut j: usize = 0;
        while j < self.calls.len()
            invariant
                j <= self.calls@.len(),
                calls@.len() == j,
                forall|k: int| 0 <= k < j ==> (#[trigger] calls@[k])@ == self.calls@[k]@,
            decreases self.calls@.len() - j,
        {
            calls.push(self.calls[j].clone());
            j += 1;
        }
        Trace { client_ns: self.client_ns, stages, calls }
    }
}

/// What a call brought: a packet, or an error of the transport.
pub open spec fn packet_answer(packet: Result<Packet>) -> Answer {
    match packet {
        Ok(packet) => answer(packet.response.result),
        Err(error) => Err(error@),
    }
}

/// A call succeeded if it was answered with a reply other than a refusal.
pub open spec fn call_succeeded(reply: Answer) -> bool {
    reply is Ok && reply != Ok::<ReplyModel, Seq<char>>(ReplyModel::Ack(false))
}

/// The record of a call: time and traffic are known only of a call that brought a
/// packet.
pub open spec fn call_record(
    stage_id: usize,
    target: Target,
    operation: Seq<char>,
    packet: Result<Packet>,
) -> CallModel {
    let reply = packet_answer(packet);
    CallModel {
        stage_id,
        target,
        operation,
        processing_ns: match packet {
            Ok(packet) => Some(packet.response.processing_ns),
            Err(_) => None,
        },
        bytes_sent: match packet {
            Ok(packet) => Some(packet.bytes_sent),
            Err(_) => None,
        },
        bytes_received: match packet {
            Ok(packet) => Some(packet.bytes_received),
            Err(_) => None,
        },
        success: call_succeeded(reply),
        error: match reply {
            Err(error) => error,
            Ok(_) => if call_succeeded(reply) {
                ""@
            } else {
                "operation rejected"@
            },
        },
    }
}

/// Takes a call's result apart into the answer and the record of the call.
pub fn record_call(
    stage_id: usize,
    target: Target,
    operation: &str,
    packet: Result<Packet>,
) -> (recorded: (
    Result<Reply>,
    CallSample,
))
    ensures
        answer(recorded.0) == packet_answer(packet),
        recorded.1@ == call_record(stage_id, target, operation@, packet),
{
    let (result, processing_ns, bytes_sent, bytes_received) = match packet {
        Ok(packet) => (
            packet.response.result,
            Some(packet.response.processing_ns),
            Some(packet.bytes_sent),
            Some(packet.bytes_received),
        ),
        Err(error) => (Err(error), None, None, None),
    };
    let success = match &result {
        Ok(reply) => !matches!(reply, Reply::Ack(false)),
        Err(_) => false,
    };
    let error = match &result {
        Err(error) => error.clone(),
        Ok(_) => if success {
            message("")
        } else {
            message("operation rejected")
        },
    };
    (
        result,
        CallSample {
            stage_id,
            target,
            operation: message(operation),
            processing_ns,
            bytes_sent,
            bytes_received,
            success,
            error,
        },
    )
}

/// A call that the login server answered with a refusal: it brought a packet, and what the
/// packet holds is an error or a negative acknowledgement.
pub open spec fn is_refusal(call: CallSample, stage_id: usize) -> bool {
    call.stage_id == stage_id && call.target == Target::LoginServer && call.processing_ns is Some
        && !call.success
}

/// The login server answered some call of a stage with a refusal.
pub open spec fn login_server_refused(calls: Seq<CallSample>, stage_id: usize) -> bool {
    exists|i: int| 0 <= i < calls.len() && is_refusal(#[trigger] calls[i], stage_id)
}

/// Whether the login server answered some call of a stage with a refusal.
pub fn refused_by_login_server(calls: &[CallSample], stage_id: usize) -> (refused: bool)
    ensures
        refused == login_server_refused(calls@, stage_id),
{
    let mut i: usize = 0;
    while i < calls.len()
        invariant
            i <= calls@.len(),
            forall|k: int| 0 <= k < i ==> !is_refusal(#[trigger] calls@[k], stage_id),
        decreases calls@.len() - i,
    {
        if calls[i].stage_id == stage_id && calls[i].target == Target::LoginServer
            && calls[i].processing_ns.is_some() && !calls[i].success {
            assert(is_refusal(calls@[i as int], stage_id));
            return true;
        }
        i += 1;
    }
    false
}

/// A call is recorded as a refusal of the login server exactly if a packet came from it
/// that holds an error or a negative acknowledgement.
pub proof fn law_only_refusals_are_recorded_as_such(
    sample: CallSample,
    stage_id: usize,
    target: Target,
    operation: Seq<char>,
    packet: Result<Packet>,
)
    requires
        sample@ == call_record(stage_id, target, operation, packet),
    ensures
        is_refusal(sample, stage_id) <==> target == Target::LoginServer && packet is Ok
            && !call_succeeded(packet_answer(packet)),
{
    assert(sample.stage_id == sample@.stage_id);
}

} // verus!
