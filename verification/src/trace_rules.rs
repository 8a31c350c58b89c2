//! What a recorded call tells: traffic and time exactly of what was answered, success
//! exactly of what was not refused.

use vstd::prelude::*;

use crate::messages::{
    ack_outcome, LsRequestModel, ReplyModel, RequestModel, Result, TspaRequestModel,
    UpRequestModel,
};
use crate::trace::{call_record, is_refusal, login_server_refused, packet_answer, CallSample};
use crate::transport::{Packet, Target};

verus! {

/// What came back is handed on as it is. A call that was answered is recorded with the node's processing time and the bytes in
/// both directions, one that was not with none of them. It succeeded exactly if it was
/// answered with a reply that is no negative acknowledgement; a success has no error text,
/// a failed call that of the node or of the transport, and a negative acknowledgement the
/// text of a rejected operation.
pub proof fn law_recorded_call_tells_what_came_back(
    stage_id: usize,
    target: Target,
    operation: Seq<char>,
    packet: Result<Packet>,
)
    ensures
        packet_answer(packet) == (match packet {
            Ok(packet) => match packet.response.result {
                Ok(reply) => Ok::<ReplyModel, Seq<char>>(reply@),
                Err(error) => Err(error@),
            },
            Err(error) => Err(error@),
        }),
        ({
            let record = call_record(stage_id, target, operation, packet);
            &&& record.stage_id == stage_id
            &&& record.target == target
            &&& record.operation == operation
            &&& match packet {
                Ok(packet) => {
                    &&& record.processing_ns == Some(packet.response.processing_ns)
                    &&& record.bytes_sent == Some(packet.bytes_sent)
                    &&& record.bytes_received == Some(packet.bytes_received)
                    &&& match packet.response.result {
                        Ok(reply) => {
                            &&& record.success == (reply@ != ReplyModel::Ack(false))
                            &&& record.success ==> record.error == ""@
                            &&& !record.success ==> record.error == "operation rejected"@
                        },
                        Err(error) => !record.success && record.error == error@,
                    }
                },
                Err(error) => {
                    &&& record.processing_ns is None
                    &&& record.bytes_sent is None
                    &&& record.bytes_received is None
                    &&& !record.success
                    &&& record.error == error@
                },
            }
        }),
{
}

/// The login server is on record to have refused in a stage exactly if one of the stage's
/// calls to it was answered, which the processing time tells, and failed. What was not
/// answered is no refusal, and neither is what a provider answered or another stage saw.
pub proof fn law_refusal_is_an_answer_of_the_login_server(
    calls: Seq<CallSample>,
    stage_id: usize,
)
    ensures
        login_server_refused(calls, stage_id) <==> exists|i: int|
            0 <= i < calls.len() && (#[trigger] calls[i]).stage_id == stage_id && calls[i].target
                == Target::LoginServer && calls[i].processing_ns is Some && !calls[i].success,
{
    if exists|i: int|
        0 <= i < calls.len() && (#[trigger] calls[i]).stage_id == stage_id && calls[i].target
            == Target::LoginServer && calls[i].processing_ns is Some && !calls[i].success {
        let i = choose|i: int|
            0 <= i < calls.len() && (#[trigger] calls[i]).stage_id == stage_id && calls[i].target
                == Target::LoginServer && calls[i].processing_ns is Some && !calls[i].success;
        assert(is_refusal(calls[i], stage_id));
    }
    if login_server_refused(calls, stage_id) {
        let i = choose|i: int|
            0 <= i < calls.len() && is_refusal(#[trigger] calls[i], stage_id);
        assert(calls[i].stage_id == stage_id);
    }
}

/// Only a positive acknowledgement counts as one.
pub proof fn law_only_a_yes_is_a_yes(reply: ReplyModel)
    ensures
        ack_outcome(reply) is Ok <==> reply == ReplyModel::Ack(true),
        ack_outcome(reply) is Err ==> ack_outcome(reply) == Err::<(), Seq<char>>(
            "operation rejected"@,
        ),
{
}

/// Every kind of request is traced under a name of its own, Store and Discard under one
/// each.
pub proof fn law_requests_are_traced_by_kind(request: RequestModel)
    ensures
        request.operation() == match request {
            RequestModel::Up(request) => match request {
                UpRequestModel::Setup { .. } => "setup_prepare"@,
                UpRequestModel::PrepareAccount { .. } => "account_prepare"@,
                UpRequestModel::PasswordUpdate(_) => "password_prepare"@,
                UpRequestModel::Identify { .. } => "identification"@,
                UpRequestModel::ReadAccount { .. } => "account_read"@,
                UpRequestModel::Finalize { store: true, .. } => "store_ack"@,
                UpRequestModel::Finalize { store: false, .. } => "discard_ack"@,
            },
            RequestModel::Tspa(TspaRequestModel::Register { .. }) => "record_store"@,
            RequestModel::Tspa(TspaRequestModel::Authenticate { .. }) => "oprf_and_record_read"@,
            RequestModel::Ls(request) => match request {
                LsRequestModel::Register { .. } => "ls_register"@,
                LsRequestModel::Authenticate { .. } => "ls_authenticate"@,
                LsRequestModel::ChangeCredential { .. } => "ls_change_credential"@,
            },
            RequestModel::Reset => "reset"@,
            RequestModel::Ping => "ping"@,
        },
{
}

} // verus!
