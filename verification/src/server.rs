use vstd::prelude::*;

use crate::header::DnsHeader;
use crate::packet::{DnsPacket, PacketModel};
use crate::question::{DnsQuestion, QuestionModel};
use crate::record::RecordModel;
use crate::result_code::ResultCode;

verus! {

/// Take the question a reply will answer off the request.
pub fn take_question(request: &mut DnsPacket) -> (q: Option<DnsQuestion>)
    ensures
        final(request).header == old(request).header,
        final(request)@.answers == old(request)@.answers,
        final(request)@.authorities == old(request)@.authorities,
        final(request)@.additionals == old(request)@.additionals,
        match q {
            Some(x) => old(request)@.questions.len() > 0 && x@ == old(request)@.questions.last()
                && final(request)@.questions =~= old(request)@.questions.drop_last(),
            None => old(request)@.questions.len() == 0 && final(request)@.questions == old(
                request,
            )@.questions,
        },
{
    let q = request.questions.pop();
    proof {
        if old(request)@.questions.len() > 0 {
            assert(request.questions@.map_values(|x: DnsQuestion| x@) =~= old(
                request,
            ).questions@.map_values(|x: DnsQuestion| x@).drop_last());
            assert(old(request).questions@.last()@ == old(request)@.questions.last());
        }
    }
    q
}

/// Build the reply to one request.  The request's id is mirrored; the
/// response, recursion-desired and recursion-available bits are set.  A
/// present question is always echoed, exactly once.  With no question the
/// status is `FORMERR` and every section stays empty; with a question but
/// no lookup result the status is `SERVFAIL` and the record sections stay
/// empty; with a result the reply carries the result's status and its
/// three record sections, and its counts are recomputed from the section
/// lengths.
pub fn build_reply(id: u16, question: Option<DnsQuestion>, lookup: Option<DnsPacket>) -> (reply:
    DnsPacket)
    ensures
        reply.header.id == id,
        reply.header.is_response,
        reply.header.recursion_desired,
        reply.header.recursion_available,
        reply.header.opcode == 0 && !reply.header.authoritative_answer
            && !reply.header.truncated_message && reply.header.z == 0,
        match (question, lookup) {
            (Some(q), Some(result)) => {
                &&& reply.header.result_code == result.header.result_code
                &&& reply@.questions =~= seq![q@]
                &&& reply@.answers == result@.answers
                &&& reply@.authorities == result@.authorities
                &&& reply@.additionals == result@.additionals
                &&& reply.header.questions_count == 1
                &&& reply.header.answers_count == result@.answers.len() as u16
                &&& reply.header.authority_records_count == result@.authorities.len() as u16
                &&& reply.header.additional_records_count == result@.additionals.len() as u16
            },
            (Some(q), None) => {
                &&& reply.header.result_code == ResultCode::SERVFAIL
                &&& reply@.questions =~= seq![q@]
                &&& reply@.answers.len() == 0 && reply@.authorities.len() == 0
                    && reply@.additionals.len() == 0
                &&& reply.header.questions_count == 1 && reply.header.answers_count == 0
                    && reply.header.authority_records_count == 0
                    && reply.header.additional_records_count == 0
            },
            (None, _) => {
                &&& reply.header.result_code == ResultCode::FORMERR
                &&& reply@.questions.len() == 0 && reply@.answers.len() == 0
                    && reply@.authorities.len() == 0 && reply@.additionals.len() == 0
                &&& reply.header.questions_count == 0 && reply.header.answers_count == 0
                    && reply.header.authority_records_count == 0
                    && reply.header.additional_records_count == 0
            },
        },
{
    let mut packet = DnsPacket::new();
    packet.header.id = id;
    packet.header.recursion_desired = true;
    packet.header.recursion_available = true;
    packet.header.is_response = true;

    match (question, lookup) {
        (Some(q), Some(result)) => {
            let ghost qm = q@;
            packet.questions.push(q);
            packet.header.result_code = result.header.result_code;
            packet.answers = result.answers;
            packet.authorities = result.authorities;
            packet.additionals = result.additionals;
            packet.header.questions_count = 1;
            packet.header.answers_count = packet.answers.len() as u16;
            packet.header.authority_records_count = packet.authorities.len() as u16;
            packet.header.additional_records_count = packet.additionals.len() as u16;
            proof {
                assert(packet.questions@.map_values(|x: DnsQuestion| x@) =~= seq![qm]);
            }
            packet
        },
        (Some(q), None) => {
            let ghost qm = q@;
            packet.questions.push(q);
            packet.header.questions_count = 1;
            packet.header.result_code = ResultCode::SERVFAIL;
            proof {
                assert(packet.questions@.map_values(|x: DnsQuestion| x@) =~= seq![qm]);
            }
            packet
        },
        (None, _) => {
            packet.header.result_code = ResultCode::FORMERR;
            packet
        },
    }
}

} // verus!
