use vstd::prelude::*;

use crate::buffer::{u16_be, u32_be, u16_of, u32_of};
use crate::errors::DnsError;
use crate::header::DnsHeader;
use crate::name::{encodable_name, name_wire, lemma_name_wire_len, lemma_name_wire_parses};
use crate::packet::{
    packet_wire, parse_packet, parse_questions, parse_records, questions_wire, records_wire,
    PacketModel,
};
use crate::query_class::QueryClass;
use crate::query_type::QueryType;
use crate::question::{lemma_question_wire_parses, parse_question, question_wire, QuestionModel};
use crate::record::{parse_record, record_wire, RecordModel};

verus! {

/// A question in round-trip form: an encodable name and canonical type and
/// class values, as decoding always leaves them.
pub open spec fn question_round_trippable(q: QuestionModel) -> bool {
    &&& encodable_name(q.name)
    &&& QueryType::spec_of_num(q.qtype.spec_num()) == q.qtype
    &&& QueryClass::spec_of_num(q.qclass.spec_num()) == q.qclass
}

/// A record in round-trip form: encodable names; decoding writes class `IN`
/// back for recognized types, so only records of unrecognized type carry
/// their own class, which must be canonical, and their payload, which was
/// skipped on decode, must be empty.
pub open spec fn record_round_trippable(r: RecordModel) -> bool {
    match r {
        RecordModel::A { domain, .. } => encodable_name(domain),
        RecordModel::NS { domain, host, .. } => encodable_name(domain) && encodable_name(host),
        RecordModel::CNAME { domain, host, .. } => encodable_name(domain) && encodable_name(host),
        RecordModel::MX { domain, host, .. } => encodable_name(domain) && encodable_name(host),
        RecordModel::AAAA { domain, .. } => encodable_name(domain),
        RecordModel::UNKNOWN { domain, qtype, qclass, rdlength, .. } => {
            &&& encodable_name(domain)
            &&& rdlength == 0
            &&& qtype is UNKNOWN
            &&& QueryType::spec_of_num(qtype.spec_num()) == qtype
            &&& QueryClass::spec_of_num(qclass.spec_num()) == qclass
        },
    }
}

/// The requirements shared by the per-variant record parse lemmas.
pub open spec fn record_wire_laid(buf: Seq<u8>, pos: int, r: RecordModel) -> bool {
    &&& buf.len() == 512
    &&& record_round_trippable(r)
    &&& 0 <= pos
    &&& pos + record_wire(r).len() <= 512
    &&& buf.subrange(pos, pos + record_wire(r).len() as int) == record_wire(r)
}

/// The record's own domain name parses back from the front of its wire
/// bytes.
#[verifier::rlimit(60)]
proof fn lemma_record_domain_parses(buf: Seq<u8>, pos: int, r: RecordModel, domain: Seq<char>)
    requires
        record_wire_laid(buf, pos, r),
        domain == record_domain(r),
    ensures
        crate::name::parse_name_at(buf, pos, 0) == Ok::<(Seq<char>, int), DnsError>(
            (domain, pos + domain.len() + 2),
        ),
        forall|j: int| 0 <= j < record_wire(r).len() ==> buf[pos + j] == #[trigger] record_wire(
            r,
        )[j],
{
    let w = record_wire(r);
    let d = (domain.len() + 2) as int;
    lemma_name_wire_len(domain);
    assert forall|j: int| 0 <= j < w.len() implies buf[pos + j] == #[trigger] w[j] by {
        assert(buf.subrange(pos, pos + w.len() as int)[j] == w[j]);
    }
    assert(buf.subrange(pos, pos + d) =~= name_wire(domain)) by {
        assert forall|j: int| 0 <= j < d implies buf.subrange(pos, pos + d)[j] == name_wire(
            domain,
        )[j] by {
            assert(buf[pos + j] == w[j]);
            assert(w[j] == name_wire(domain)[j]);
        }
    }
    lemma_name_wire_parses(buf, pos, domain, 0);
}

/// The domain a record owns.
pub open spec fn record_domain(r: RecordModel) -> Seq<char> {
    match r {
        RecordModel::A { domain, .. } => domain,
        RecordModel::NS { domain, .. } => domain,
        RecordModel::CNAME { domain, .. } => domain,
        RecordModel::MX { domain, .. } => domain,
        RecordModel::AAAA { domain, .. } => domain,
        RecordModel::UNKNOWN { domain, .. } => domain,
    }
}

#[verifier::rlimit(60)]
#[verifier::spinoff_prover]
proof fn lemma_a_record_parses(buf: Seq<u8>, pos: int, r: RecordModel)
    requires
        record_wire_laid(buf, pos, r),
        r is A,
    ensures
        parse_record(buf, pos) == Ok::<(RecordModel, int), DnsError>(
            (r, pos + record_wire(r).len()),
        ),
{
    let w = record_wire(r);
    let domain = r->A_domain;
    let ip_v4_addr = r->A_ip_v4_addr;
    let ttl = r->A_ttl;
    let d = (domain.len() + 2) as int;
    lemma_name_wire_len(domain);
    lemma_record_domain_parses(buf, pos, r, domain);
    let p1 = pos + d;
    assert(buf[p1] == w[d] && buf[p1 + 1] == w[d + 1] && buf[p1 + 2] == w[d + 2] && buf[p1 + 3]
        == w[d + 3] && buf[p1 + 4] == w[d + 4] && buf[p1 + 5] == w[d + 5] && buf[p1 + 6] == w[d + 6]
        && buf[p1 + 7] == w[d + 7] && buf[p1 + 8] == w[d + 8] && buf[p1 + 9] == w[d + 9]);
    crate::buffer::lemma_u16_be_of(1);
    crate::buffer::lemma_u16_be_of(4);
    crate::buffer::lemma_u32_be_of(ttl);
    assert(u16_of(buf[p1], buf[p1 + 1]) == 1);
    assert(u32_of(buf[p1 + 4], buf[p1 + 5], buf[p1 + 6], buf[p1 + 7]) == ttl);
    assert(buf[p1 + 10] == w[d + 10] && buf[p1 + 11] == w[d + 11] && buf[p1 + 12] == w[d + 12]
        && buf[p1 + 13] == w[d + 13]);
    assert(buf[p1 + 10] == ip_v4_addr.o0 && buf[p1 + 11] == ip_v4_addr.o1 && buf[p1 + 12]
        == ip_v4_addr.o2 && buf[p1 + 13] == ip_v4_addr.o3);
}

#[verifier::rlimit(60)]
#[verifier::spinoff_prover]
proof fn lemma_host_record_parses(buf: Seq<u8>, pos: int, r: RecordModel)
    requires
        record_wire_laid(buf, pos, r),
        r is NS || r is CNAME,
    ensures
        parse_record(buf, pos) == Ok::<(RecordModel, int), DnsError>(
            (r, pos + record_wire(r).len()),
        ),
{
    let w = record_wire(r);
    let domain = record_domain(r);
    let host = if r is NS {
        r->NS_host
    } else {
        r->CNAME_host
    };
    let ttl = if r is NS {
        r->NS_ttl
    } else {
        r->CNAME_ttl
    };
    let code: u16 = if r is NS {
        2
    } else {
        5
    };
    let d = (domain.len() + 2) as int;
    let h = (host.len() + 2) as int;
    lemma_name_wire_len(domain);
    lemma_name_wire_len(host);
    lemma_record_domain_parses(buf, pos, r, domain);
    let p1 = pos + d;
    assert(buf[p1] == w[d] && buf[p1 + 1] == w[d + 1] && buf[p1 + 2] == w[d + 2] && buf[p1 + 3]
        == w[d + 3] && buf[p1 + 4] == w[d + 4] && buf[p1 + 5] == w[d + 5] && buf[p1 + 6] == w[d + 6]
        && buf[p1 + 7] == w[d + 7] && buf[p1 + 8] == w[d + 8] && buf[p1 + 9] == w[d + 9]);
    crate::buffer::lemma_u16_be_of(code);
    crate::buffer::lemma_u16_be_of(1);
    crate::buffer::lemma_u32_be_of(ttl);
    assert(u16_of(buf[p1], buf[p1 + 1]) == code);
    assert(u32_of(buf[p1 + 4], buf[p1 + 5], buf[p1 + 6], buf[p1 + 7]) == ttl);
    assert(buf.subrange(p1 + 10, p1 + 10 + h) =~= name_wire(host)) by {
        assert forall|j: int| 0 <= j < h implies buf.subrange(p1 + 10, p1 + 10 + h)[j] == name_wire(
            host,
        )[j] by {
            assert(buf[pos + (d + 10 + j)] == w[d + 10 + j]);
            assert(w[d + 10 + j] == name_wire(host)[j]);
        }
    }
    lemma_name_wire_parses(buf, p1 + 10, host, 0);
}

#[verifier::rlimit(60)]
#[verifier::spinoff_prover]
proof fn lemma_mx_record_parses(buf: Seq<u8>, pos: int, r: RecordModel)
    requires
        record_wire_laid(buf, pos, r),
        r is MX,
    ensures
        parse_record(buf, pos) == Ok::<(RecordModel, int), DnsError>(
            (r, pos + record_wire(r).len()),
        ),
{
    let w = record_wire(r);
    let domain = r->MX_domain;
    let priority = r->MX_priority;
    let host = r->MX_host;
    let ttl = r->MX_ttl;
    let d = (domain.len() + 2) as int;
    let h = (host.len() + 2) as int;
    lemma_name_wire_len(domain);
    lemma_name_wire_len(host);
    lemma_record_domain_parses(buf, pos, r, domain);
    let p1 = pos + d;
    assert(buf[p1] == w[d] && buf[p1 + 1] == w[d + 1] && buf[p1 + 2] == w[d + 2] && buf[p1 + 3]
        == w[d + 3] && buf[p1 + 4] == w[d + 4] && buf[p1 + 5] == w[d + 5] && buf[p1 + 6] == w[d + 6]
        && buf[p1 + 7] == w[d + 7] && buf[p1 + 8] == w[d + 8] && buf[p1 + 9] == w[d + 9]);
    crate::buffer::lemma_u16_be_of(15);
    crate::buffer::lemma_u16_be_of(1);
    crate::buffer::lemma_u16_be_of(priority);
    crate::buffer::lemma_u32_be_of(ttl);
    assert(u16_of(buf[p1], buf[p1 + 1]) == 15);
    assert(u32_of(buf[p1 + 4], buf[p1 + 5], buf[p1 + 6], buf[p1 + 7]) == ttl);
    assert(buf[p1 + 10] == w[d + 10] && buf[p1 + 11] == w[d + 11]);
    assert(u16_of(buf[p1 + 10], buf[p1 + 11]) == priority);
    assert(buf.subrange(p1 + 12, p1 + 12 + h) =~= name_wire(host)) by {
        assert forall|j: int| 0 <= j < h implies buf.subrange(p1 + 12, p1 + 12 + h)[j] == name_wire(
            host,
        )[j] by {
            assert(buf[pos + (d + 12 + j)] == w[d + 12 + j]);
            assert(w[d + 12 + j] == name_wire(host)[j]);
        }
    }
    lemma_name_wire_parses(buf, p1 + 12, host, 0);
}

#[verifier::rlimit(90)]
#[verifier::spinoff_prover]
proof fn lemma_aaaa_record_parses(buf: Seq<u8>, pos: int, r: RecordModel)
    requires
        record_wire_laid(buf, pos, r),
        r is AAAA,
    ensures
        parse_record(buf, pos) == Ok::<(RecordModel, int), DnsError>(
            (r, pos + record_wire(r).len()),
        ),
{
    let w = record_wire(r);
    let domain = r->AAAA_domain;
    let ip = r->AAAA_ip_v6_addr;
    let ttl = r->AAAA_ttl;
    let d = (domain.len() + 2) as int;
    lemma_name_wire_len(domain);
    lemma_record_domain_parses(buf, pos, r, domain);
    let p1 = pos + d;
    assert(buf[p1] == w[d] && buf[p1 + 1] == w[d + 1] && buf[p1 + 2] == w[d + 2] && buf[p1 + 3]
        == w[d + 3] && buf[p1 + 4] == w[d + 4] && buf[p1 + 5] == w[d + 5] && buf[p1 + 6] == w[d + 6]
        && buf[p1 + 7] == w[d + 7] && buf[p1 + 8] == w[d + 8] && buf[p1 + 9] == w[d + 9]);
    assert(buf[p1 + 10] == w[d + 10] && buf[p1 + 11] == w[d + 11] && buf[p1 + 12] == w[d + 12]
        && buf[p1 + 13] == w[d + 13] && buf[p1 + 14] == w[d + 14] && buf[p1 + 15] == w[d + 15]
        && buf[p1 + 16] == w[d + 16] && buf[p1 + 17] == w[d + 17]);
    assert(buf[p1 + 18] == w[d + 18] && buf[p1 + 19] == w[d + 19] && buf[p1 + 20] == w[d + 20]
        && buf[p1 + 21] == w[d + 21] && buf[p1 + 22] == w[d + 22] && buf[p1 + 23] == w[d + 23]
        && buf[p1 + 24] == w[d + 24] && buf[p1 + 25] == w[d + 25]);
    crate::buffer::lemma_u16_be_of(28);
    crate::buffer::lemma_u16_be_of(1);
    crate::buffer::lemma_u16_be_of(16);
    crate::buffer::lemma_u32_be_of(ttl);
    crate::buffer::lemma_u16_be_of(ip.s0);
    crate::buffer::lemma_u16_be_of(ip.s1);
    crate::buffer::lemma_u16_be_of(ip.s2);
    crate::buffer::lemma_u16_be_of(ip.s3);
    crate::buffer::lemma_u16_be_of(ip.s4);
    crate::buffer::lemma_u16_be_of(ip.s5);
    crate::buffer::lemma_u16_be_of(ip.s6);
    crate::buffer::lemma_u16_be_of(ip.s7);
    assert(u16_of(buf[p1], buf[p1 + 1]) == 28);
    assert(u32_of(buf[p1 + 4], buf[p1 + 5], buf[p1 + 6], buf[p1 + 7]) == ttl);
    assert(u16_of(buf[p1 + 10], buf[p1 + 11]) == ip.s0);
    assert(u16_of(buf[p1 + 12], buf[p1 + 13]) == ip.s1);
    assert(u16_of(buf[p1 + 14], buf[p1 + 15]) == ip.s2);
    assert(u16_of(buf[p1 + 16], buf[p1 + 17]) == ip.s3);
    assert(u16_of(buf[p1 + 18], buf[p1 + 19]) == ip.s4);
    assert(u16_of(buf[p1 + 20], buf[p1 + 21]) == ip.s5);
    assert(u16_of(buf[p1 + 22], buf[p1 + 23]) == ip.s6);
    assert(u16_of(buf[p1 + 24], buf[p1 + 25]) == ip.s7);
}

#[verifier::rlimit(60)]
#[verifier::spinoff_prover]
proof fn lemma_unknown_record_parses(buf: Seq<u8>, pos: int, r: RecordModel)
    requires
        record_wire_laid(buf, pos, r),
        r is UNKNOWN,
    ensures
        parse_record(buf, pos) == Ok::<(RecordModel, int), DnsError>(
            (r, pos + record_wire(r).len()),
        ),
{
    let w = record_wire(r);
    let domain = r->UNKNOWN_domain;
    let qtype = r->UNKNOWN_qtype;
    let qclass = r->UNKNOWN_qclass;
    let ttl = r->UNKNOWN_ttl;
    let rdlength = r->UNKNOWN_rdlength;
    let d = (domain.len() + 2) as int;
    lemma_name_wire_len(domain);
    lemma_record_domain_parses(buf, pos, r, domain);
    let p1 = pos + d;
    assert(buf[p1] == w[d] && buf[p1 + 1] == w[d + 1] && buf[p1 + 2] == w[d + 2] && buf[p1 + 3]
        == w[d + 3] && buf[p1 + 4] == w[d + 4] && buf[p1 + 5] == w[d + 5] && buf[p1 + 6] == w[d + 6]
        && buf[p1 + 7] == w[d + 7] && buf[p1 + 8] == w[d + 8] && buf[p1 + 9] == w[d + 9]);
    crate::buffer::lemma_u16_be_of(qtype.spec_num());
    crate::buffer::lemma_u16_be_of(qclass.spec_num());
    crate::buffer::lemma_u16_be_of(rdlength);
    crate::buffer::lemma_u32_be_of(ttl);
    assert(u16_of(buf[p1], buf[p1 + 1]) == qtype.spec_num());
    assert(u16_of(buf[p1 + 2], buf[p1 + 3]) == qclass.spec_num());
    assert(u32_of(buf[p1 + 4], buf[p1 + 5], buf[p1 + 6], buf[p1 + 7]) == ttl);
    assert(u16_of(buf[p1 + 8], buf[p1 + 9]) == rdlength);
}

/// Law: a record in round-trip form parses back from its own wire bytes,
/// wherever they stand in the frame.
pub proof fn lemma_record_wire_parses(buf: Seq<u8>, pos: int, r: RecordModel)
    requires
        buf.len() == 512,
        record_round_trippable(r),
        0 <= pos,
        pos + record_wire(r).len() <= 512,
        buf.subrange(pos, pos + record_wire(r).len() as int) == record_wire(r),
    ensures
        parse_record(buf, pos) == Ok::<(RecordModel, int), DnsError>(
            (r, pos + record_wire(r).len()),
        ),
{
    match r {
        RecordModel::A { .. } => lemma_a_record_parses(buf, pos, r),
        RecordModel::NS { .. } => lemma_host_record_parses(buf, pos, r),
        RecordModel::CNAME { .. } => lemma_host_record_parses(buf, pos, r),
        RecordModel::MX { .. } => lemma_mx_record_parses(buf, pos, r),
        RecordModel::AAAA { .. } => lemma_aaaa_record_parses(buf, pos, r),
        RecordModel::UNKNOWN { .. } => lemma_unknown_record_parses(buf, pos, r),
    }
}

/// Law: a run of records in round-trip form parses back, in order, from
/// its own wire bytes.
#[verifier::rlimit(100)]
#[verifier::spinoff_prover]
pub proof fn lemma_records_wire_parse(buf: Seq<u8>, pos: int, rs: Seq<RecordModel>)
    requires
        buf.len() == 512,
        forall|i: int| 0 <= i < rs.len() ==> record_round_trippable(#[trigger] rs[i]),
        0 <= pos,
        pos + records_wire(rs).len() <= 512,
        buf.subrange(pos, pos + records_wire(rs).len() as int) == records_wire(rs),
    ensures
        parse_records(buf, pos, rs.len() as int) == Ok::<(Seq<RecordModel>, int), DnsError>(
            (rs, pos + records_wire(rs).len()),
        ),
    decreases rs.len(),
{
    if rs.len() == 0 {
        assert(rs =~= Seq::<RecordModel>::empty());
    } else {
        let w = records_wire(rs);
        let hw = record_wire(rs[0]);
        let tw = records_wire(rs.drop_first());
        assert(w == hw + tw);
        assert forall|j: int| 0 <= j < w.len() implies buf[pos + j] == #[trigger] w[j] by {
            assert(buf.subrange(pos, pos + w.len() as int)[j] == w[j]);
        }
        assert(buf.subrange(pos, pos + hw.len() as int) =~= hw) by {
            assert forall|j: int| 0 <= j < hw.len() implies buf.subrange(
                pos,
                pos + hw.len() as int,
            )[j] == hw[j] by {
                assert(buf[pos + j] == w[j]);
                assert(w[j] == hw[j]);
            }
        }
        lemma_record_wire_parses(buf, pos, rs[0]);
        let p1 = pos + hw.len() as int;
        assert(buf.subrange(p1, p1 + tw.len() as int) =~= tw) by {
            assert forall|j: int| 0 <= j < tw.len() implies buf.subrange(p1, p1 + tw.len() as int)[j]
                == tw[j] by {
                assert(buf[pos + (hw.len() + j)] == w[hw.len() + j]);
                assert(w[hw.len() + j] == tw[j]);
            }
        }
        assert forall|i: int| 0 <= i < rs.drop_first().len() implies record_round_trippable(
            #[trigger] rs.drop_first()[i],
        ) by {
            assert(rs.drop_first()[i] == rs[i + 1]);
        }
        lemma_records_wire_parse(buf, p1, rs.drop_first());
        assert(seq![rs[0]] + rs.drop_first() =~= rs);
    }
}

/// Law: a run of questions in round-trip form parses back, in order, from
/// its own wire bytes.
#[verifier::rlimit(100)]
#[verifier::spinoff_prover]
pub proof fn lemma_questions_wire_parse(buf: Seq<u8>, pos: int, qs: Seq<QuestionModel>)
    requires
        buf.len() == 512,
        forall|i: int| 0 <= i < qs.len() ==> question_round_trippable(#[trigger] qs[i]),
        0 <= pos,
        pos + questions_wire(qs).len() <= 512,
        buf.subrange(pos, pos + questions_wire(qs).len() as int) == questions_wire(qs),
    ensures
        parse_questions(buf, pos, qs.len() as int) == Ok::<(Seq<QuestionModel>, int), DnsError>(
            (qs, pos + questions_wire(qs).len()),
        ),
    decreases qs.len(),
{
    if qs.len() == 0 {
        assert(qs =~= Seq::<QuestionModel>::empty());
    } else {
        let w = questions_wire(qs);
        let hw = question_wire(qs[0]);
        let tw = questions_wire(qs.drop_first());
        lemma_name_wire_len(qs[0].name);
        assert(w == hw + tw);
        assert forall|j: int| 0 <= j < w.len() implies buf[pos + j] == #[trigger] w[j] by {
            assert(buf.subrange(pos, pos + w.len() as int)[j] == w[j]);
        }
        assert(buf.subrange(pos, pos + hw.len() as int) =~= hw) by {
            assert forall|j: int| 0 <= j < hw.len() implies buf.subrange(
                pos,
                pos + hw.len() as int,
            )[j] == hw[j] by {
                assert(buf[pos + j] == w[j]);
                assert(w[j] == hw[j]);
            }
        }
        lemma_question_wire_parses(buf, pos, qs[0]);
        let p1 = pos + hw.len() as int;
        assert(buf.subrange(p1, p1 + tw.len() as int) =~= tw) by {
            assert forall|j: int| 0 <= j < tw.len() implies buf.subrange(p1, p1 + tw.len() as int)[j]
                == tw[j] by {
                assert(buf[pos + (hw.len() + j)] == w[hw.len() + j]);
                assert(w[hw.len() + j] == tw[j]);
            }
        }
        assert forall|i: int| 0 <= i < qs.drop_first().len() implies question_round_trippable(
            #[trigger] qs.drop_first()[i],
        ) by {
            assert(qs.drop_first()[i] == qs[i + 1]);
        }
        lemma_questions_wire_parse(buf, p1, qs.drop_first());
        assert(seq![qs[0]] + qs.drop_first() =~= qs);
    }
}

/// A message in round-trip form: a well-formed header whose counts equal
/// the section lengths, and names and codes that decoding would produce.
/// These are exactly the messages whose wire bytes use no compression.
pub open spec fn packet_round_trippable(m: PacketModel) -> bool {
    &&& m.header.wf()
    &&& m.header.questions_count == m.questions.len()
    &&& m.header.answers_count == m.answers.len()
    &&& m.header.authority_records_count == m.authorities.len()
    &&& m.header.additional_records_count == m.additionals.len()
    &&& forall|i: int| 0 <= i < m.questions.len() ==> question_round_trippable(
        #[trigger] m.questions[i],
    )
    &&& forall|i: int| 0 <= i < m.answers.len() ==> record_round_trippable(#[trigger] m.answers[i])
    &&& forall|i: int|
        0 <= i < m.authorities.len() ==> record_round_trippable(#[trigger] m.authorities[i])
    &&& forall|i: int|
        0 <= i < m.additionals.len() ==> record_round_trippable(#[trigger] m.additionals[i])
}

/// Law: a message in round-trip form parses back, whole, from its own wire
/// bytes at the start of the frame.
#[verifier::rlimit(100)]
#[verifier::spinoff_prover]
pub proof fn lemma_packet_wire_parses(buf: Seq<u8>, m: PacketModel)
    requires
        buf.len() == 512,
        packet_round_trippable(m),
        packet_wire(m).len() <= 512,
        buf.subrange(0, packet_wire(m).len() as int) == packet_wire(m),
    ensures
        parse_packet(buf, 0) == Ok::<(PacketModel, int), DnsError>(
            (m, packet_wire(m).len() as int),
        ),
{
    let w = packet_wire(m);
    let l = w.len() as int;
    let hw = m.header.wire();
    let qw = questions_wire(m.questions);
    let aw = records_wire(m.answers);
    let uw = records_wire(m.authorities);
    let dw = records_wire(m.additionals);
    assert(w == hw + qw + aw + uw + dw);
    assert forall|j: int| 0 <= j < l implies buf[j] == w[j] by {
        assert(buf.subrange(0, l)[j] == w[j]);
    }
    assert(hw.len() == 12);
    crate::header::lemma_header_round_trip(m.header);
    assert forall|j: int| 0 <= j < 12 implies buf[j] == hw[j] by {
        assert(w[j] == hw[j]);
    }
    assert(DnsHeader::spec_parse(buf, 0) == DnsHeader::spec_parse(hw, 0));

    let p1 = 12;
    assert(buf.subrange(p1, p1 + qw.len() as int) =~= qw) by {
        assert forall|j: int| 0 <= j < qw.len() implies buf[p1 + j] == qw[j] by {
            assert(w[12 + j] == qw[j]);
        }
    }
    lemma_questions_wire_parse(buf, p1, m.questions);
    let p2 = p1 + qw.len() as int;
    assert(buf.subrange(p2, p2 + aw.len() as int) =~= aw) by {
        assert forall|j: int| 0 <= j < aw.len() implies buf[p2 + j] == aw[j] by {
            assert(w[12 + qw.len() + j] == aw[j]);
        }
    }
    lemma_records_wire_parse(buf, p2, m.answers);
    let p3 = p2 + aw.len() as int;
    assert(buf.subrange(p3, p3 + uw.len() as int) =~= uw) by {
        assert forall|j: int| 0 <= j < uw.len() implies buf[p3 + j] == uw[j] by {
            assert(w[12 + qw.len() + aw.len() + j] == uw[j]);
        }
    }
    lemma_records_wire_parse(buf, p3, m.authorities);
    let p4 = p3 + uw.len() as int;
    assert(buf.subrange(p4, p4 + dw.len() as int) =~= dw) by {
        assert forall|j: int| 0 <= j < dw.len() implies buf[p4 + j] == dw[j] by {
            assert(w[12 + qw.len() + aw.len() + uw.len() + j] == dw[j]);
        }
    }
    lemma_records_wire_parse(buf, p4, m.additionals);
}

/// Law: decoding a frame that holds the wire bytes of a message in
/// round-trip form, and encoding the decoded message again, reproduces
/// those bytes exactly.  Such frames are exactly the valid encodings that
/// use no compression, so this is the codec's round trip.
pub proof fn lemma_message_round_trip(buf: Seq<u8>, m: PacketModel)
    requires
        buf.len() == 512,
        packet_round_trippable(m),
        packet_wire(m).len() <= 512,
        buf.subrange(0, packet_wire(m).len() as int) == packet_wire(m),
    ensures
        parse_packet(buf, 0) is Ok,
        packet_wire(parse_packet(buf, 0)->Ok_0.0) == buf.subrange(0, packet_wire(m).len() as int),
        parse_packet(buf, 0)->Ok_0.1 == packet_wire(m).len(),
{
    lemma_packet_wire_parses(buf, m);
}

} // verus!
