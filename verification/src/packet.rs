use vstd::prelude::*;

use crate::buffer::{splice, BytePacketBuffer};
use crate::errors::DnsError;
use crate::header::DnsHeader;
use crate::name::has_long_label;
use crate::query_class::QueryClass;
use crate::query_type::QueryType;
use crate::question::{parse_question, question_wire, DnsQuestion, QuestionModel};
use crate::record::{parse_record, record_encodable, record_wire, DnsRecord, Ipv4Addr, RecordModel};

verus! {

/// The mathematical shape of a whole message.
pub struct PacketModel {
    pub header: DnsHeader,
    pub questions: Seq<QuestionModel>,
    pub answers: Seq<RecordModel>,
    pub authorities: Seq<RecordModel>,
    pub additionals: Seq<RecordModel>,
}

/// The parse of `n` questions one after another from `pos`.
pub open spec fn parse_questions(buf: Seq<u8>, pos: int, n: int) -> Result<
    (Seq<QuestionModel>, int),
    DnsError,
>
    decreases n,
{
    if n <= 0 {
        Ok((Seq::empty(), pos))
    } else {
        match parse_question(buf, pos) {
            Err(e) => Err(e),
            Ok((q, p1)) => match parse_questions(buf, p1, n - 1) {
                Err(e) => Err(e),
                Ok((rest, end)) => Ok((seq![q] + rest, end)),
            },
        }
    }
}

/// The parse of `n` records one after another from `pos`.
pub open spec fn parse_records(buf: Seq<u8>, pos: int, n: int) -> Result<
    (Seq<RecordModel>, int),
    DnsError,
>
    decreases n,
{
    if n <= 0 {
        Ok((Seq::empty(), pos))
    } else {
        match parse_record(buf, pos) {
            Err(e) => Err(e),
            Ok((r, p1)) => match parse_records(buf, p1, n - 1) {
                Err(e) => Err(e),
                Ok((rest, end)) => Ok((seq![r] + rest, end)),
            },
        }
    }
}

/// The parse of a whole message: the header, then exactly the counted
/// questions, answers, authority records and additional records, in that
/// fixed order.
pub open spec fn parse_packet(buf: Seq<u8>, pos: int) -> Result<(PacketModel, int), DnsError> {
    if !(pos + 12 <= 512) {
        Err(DnsError::Overflow)
    } else {
        let header = DnsHeader::spec_parse(buf, pos);
        match parse_questions(buf, pos + 12, header.questions_count as int) {
            Err(e) => Err(e),
            Ok((questions, p1)) => match parse_records(buf, p1, header.answers_count as int) {
                Err(e) => Err(e),
                Ok((answers, p2)) => match parse_records(
                    buf,
                    p2,
                    header.authority_records_count as int,
                ) {
                    Err(e) => Err(e),
                    Ok((authorities, p3)) => match parse_records(
                        buf,
                        p3,
                        header.additional_records_count as int,
                    ) {
                        Err(e) => Err(e),
                        Ok((additionals, end)) => Ok(
                            (PacketModel { header, questions, answers, authorities, additionals }, end),
                        ),
                    },
                },
            },
        }
    }
}

/// The wire bytes of a run of questions.
pub open spec fn questions_wire(qs: Seq<QuestionModel>) -> Seq<u8>
    decreases qs.len(),
{
    if qs.len() == 0 {
        Seq::empty()
    } else {
        question_wire(qs[0]) + questions_wire(qs.drop_first())
    }
}

/// The wire bytes of a run of records.
pub open spec fn records_wire(rs: Seq<RecordModel>) -> Seq<u8>
    decreases rs.len(),
{
    if rs.len() == 0 {
        Seq::empty()
    } else {
        record_wire(rs[0]) + records_wire(rs.drop_first())
    }
}

/// The wire bytes of a whole message: header, questions, answers,
/// authorities, additionals, in that fixed order.
pub open spec fn packet_wire(m: PacketModel) -> Seq<u8> {
    m.header.wire() + questions_wire(m.questions) + records_wire(m.answers) + records_wire(
        m.authorities,
    ) + records_wire(m.additionals)
}

/// No name anywhere in the run of questions has a label over 63 characters.
pub open spec fn questions_encodable(qs: Seq<QuestionModel>) -> bool {
    forall|i: int| 0 <= i < qs.len() ==> !has_long_label(#[trigger] qs[i].name)
}

/// No name anywhere in the run of records has a label over 63 characters.
pub open spec fn records_encodable(rs: Seq<RecordModel>) -> bool {
    forall|i: int| 0 <= i < rs.len() ==> record_encodable(#[trigger] rs[i])
}

/// No name anywhere in the message has a label over 63 characters.
pub open spec fn packet_encodable(m: PacketModel) -> bool {
    &&& questions_encodable(m.questions)
    &&& records_encodable(m.answers)
    &&& records_encodable(m.authorities)
    &&& records_encodable(m.additionals)
}

/// A whole message: the header and the four record sections.
#[derive(Debug, Clone, PartialEq, Eq, Hash)]
pub struct DnsPacket {
    pub header: DnsHeader,
    pub questions: Vec<DnsQuestion>,
    pub answers: Vec<DnsRecord>,
    pub authorities: Vec<DnsRecord>,
    pub additionals: Vec<DnsRecord>,
}

impl View for DnsPacket {
    type V = PacketModel;

    open spec fn view(&self) -> PacketModel {
        PacketModel {
            header: self.header,
            questions: self.questions@.map_values(|q: DnsQuestion| q@),
            answers: self.answers@.map_values(|x: DnsRecord| x@),
            authorities: self.authorities@.map_values(|x: DnsRecord| x@),
            additionals: self.additionals@.map_values(|x: DnsRecord| x@),
        }
    }
}

/// Read `count` questions one after another from the cursor.
fn read_questions(buffer: &mut BytePacketBuffer, count: u16) -> (r: Result<
    Vec<DnsQuestion>,
    DnsError,
>)
    requires
        old(buffer).wf(),
    ensures
        final(buffer).wf(),
        final(buffer).buf@ == old(buffer).buf@,
        match r {
            Ok(qs) => qs@.len() == count && parse_questions(
                old(buffer).buf@,
                old(buffer).pos as int,
                count as int,
            ) == Ok::<(Seq<QuestionModel>, int), DnsError>(
                (qs@.map_values(|q: DnsQuestion| q@), final(buffer).pos as int),
            ),
            Err(e) => parse_questions(old(buffer).buf@, old(buffer).pos as int, count as int)
                == Err::<(Seq<QuestionModel>, int), DnsError>(e),
        },
    decreases count,
{
    if count == 0 {
        let qs: Vec<DnsQuestion> = Vec::new();
        proof {
            assert(qs@.map_values(|q: DnsQuestion| q@) =~= Seq::<QuestionModel>::empty());
        }
        return Ok(qs);
    }
    let mut question = DnsQuestion::new(String::new(), QueryType::UNKNOWN(0), QueryClass::UNKNOWN(0));
    question.read(buffer)?;
    let mut rest = read_questions(buffer, count - 1)?;
    let ghost rest0 = rest@;
    rest.insert(0, question);
    proof {
        assert(rest@.map_values(|q: DnsQuestion| q@) =~= seq![question@] + rest0.map_values(
            |q: DnsQuestion| q@,
        ));
    }
    Ok(rest)
}

/// Read `count` records one after another from the cursor.
fn read_records(buffer: &mut BytePacketBuffer, count: u16) -> (r: Result<Vec<DnsRecord>, DnsError>)
    requires
        old(buffer).wf(),
    ensures
        final(buffer).wf(),
        final(buffer).buf@ == old(buffer).buf@,
        match r {
            Ok(rs) => rs@.len() == count && parse_records(
                old(buffer).buf@,
                old(buffer).pos as int,
                count as int,
            ) == Ok::<(Seq<RecordModel>, int), DnsError>(
                (rs@.map_values(|x: DnsRecord| x@), final(buffer).pos as int),
            ),
            Err(e) => parse_records(old(buffer).buf@, old(buffer).pos as int, count as int)
                == Err::<(Seq<RecordModel>, int), DnsError>(e),
        },
    decreases count,
{
    if count == 0 {
        let rs: Vec<DnsRecord> = Vec::new();
        proof {
            assert(rs@.map_values(|x: DnsRecord| x@) =~= Seq::<RecordModel>::empty());
        }
        return Ok(rs);
    }
    let rec = DnsRecord::read(buffer)?;
    let mut rest = read_records(buffer, count - 1)?;
    let ghost rest0 = rest@;
    rest.insert(0, rec);
    proof {
        assert(rest@.map_values(|x: DnsRecord| x@) =~= seq![rec@] + rest0.map_values(
            |x: DnsRecord| x@,
        ));
    }
    Ok(rest)
}

/// Write the questions of `questions` from index `from` on.
fn write_questions(buffer: &mut BytePacketBuffer, questions: &Vec<DnsQuestion>, from: usize) -> (r:
    Result<(), DnsError>)
    requires
        old(buffer).wf(),
        from <= questions@.len(),
    ensures
        final(buffer).wf(),
        ({
            let models = questions@.map_values(|q: DnsQuestion| q@);
            let ws = questions_wire(models.subrange(from as int, models.len() as int));
            match r {
                Ok(()) => {
                    &&& questions_encodable(models.subrange(from as int, models.len() as int))
                    &&& old(buffer).pos + ws.len() <= 512
                    &&& final(buffer).pos == old(buffer).pos + ws.len()
                    &&& final(buffer).buf@ == splice(old(buffer).buf@, old(buffer).pos as int, ws)
                },
                Err(e) => {
                    &&& (e == DnsError::LabelTooLong || e == DnsError::Overflow)
                    &&& (e == DnsError::LabelTooLong ==> !questions_encodable(
                        models.subrange(from as int, models.len() as int),
                    ))
                    &&& (e == DnsError::Overflow ==> old(buffer).pos + ws.len() > 512)
                    &&& final(buffer).pos >= old(buffer).pos
                },
            }
        }),
    decreases questions@.len() - from,
{
    let ghost models = questions@.map_values(|q: DnsQuestion| q@);
    if from == questions.len() {
        proof {
            assert(models.subrange(from as int, models.len() as int) =~= Seq::<
                QuestionModel,
            >::empty());
        }
        return Ok(());
    }
    let ghost b0 = buffer.buf@;
    let ghost p0 = buffer.pos as int;
    let ghost part = models.subrange(from as int, models.len() as int);
    proof {
        assert(part.drop_first() =~= models.subrange(from + 1, models.len() as int));
        assert(part[0] == models[from as int]);
        crate::name::lemma_name_wire_len(models[from as int].name);
    }
    match questions[from].write(buffer) {
        Ok(()) => {},
        Err(e) => {
            proof {
                if e == DnsError::LabelTooLong {
                    assert(has_long_label(part[0].name));
                }
            }
            return Err(e);
        },
    }
    match write_questions(buffer, questions, from + 1) {
        Ok(()) => {},
        Err(e) => {
            proof {
                if e == DnsError::LabelTooLong {
                    assert(!questions_encodable(part)) by {
                        if questions_encodable(part) {
                            let rest = models.subrange(from + 1, models.len() as int);
                            assert forall|i: int| 0 <= i < rest.len() implies !has_long_label(
                                #[trigger] rest[i].name,
                            ) by {
                                assert(rest[i] == part[i + 1]);
                            }
                        }
                    }
                }
            }
            return Err(e);
        },
    }
    proof {
        crate::buffer::lemma_splice_splice(
            b0,
            p0,
            question_wire(models[from as int]),
            questions_wire(models.subrange(from + 1, models.len() as int)),
        );
        let rest = models.subrange(from + 1, models.len() as int);
        assert forall|i: int| 0 <= i < part.len() implies !has_long_label(
            #[trigger] part[i].name,
        ) by {
            if i > 0 {
                assert(part[i] == rest[i - 1]);
            }
        }
    }
    Ok(())
}

/// Write the records of `records` from index `from` on.
fn write_records(buffer: &mut BytePacketBuffer, records: &Vec<DnsRecord>, from: usize) -> (r:
    Result<(), DnsError>)
    requires
        old(buffer).wf(),
        from <= records@.len(),
    ensures
        final(buffer).wf(),
        ({
            let models = records@.map_values(|x: DnsRecord| x@);
            let ws = records_wire(models.subrange(from as int, models.len() as int));
            match r {
                Ok(()) => {
                    &&& records_encodable(models.subrange(from as int, models.len() as int))
                    &&& old(buffer).pos + ws.len() <= 512
                    &&& final(buffer).pos == old(buffer).pos + ws.len()
                    &&& final(buffer).buf@ == splice(old(buffer).buf@, old(buffer).pos as int, ws)
                },
                Err(e) => {
                    &&& (e == DnsError::LabelTooLong || e == DnsError::Overflow)
                    &&& (e == DnsError::LabelTooLong ==> !records_encodable(
                        models.subrange(from as int, models.len() as int),
                    ))
                    &&& (e == DnsError::Overflow ==> old(buffer).pos + ws.len() > 512)
                    &&& final(buffer).pos >= old(buffer).pos
                },
            }
        }),
    decreases records@.len() - from,
{
    let ghost models = records@.map_values(|x: DnsRecord| x@);
    if from == records.len() {
        proof {
            assert(models.subrange(from as int, models.len() as int) =~= Seq::<
                RecordModel,
            >::empty());
        }
        return Ok(());
    }
    let ghost b0 = buffer.buf@;
    let ghost p0 = buffer.pos as int;
    let ghost part = models.subrange(from as int, models.len() as int);
    proof {
        assert(part.drop_first() =~= models.subrange(from + 1, models.len() as int));
        assert(part[0] == models[from as int]);
    }
    match records[from].write(buffer) {
        Ok(_) => {},
        Err(e) => {
            proof {
                if e == DnsError::LabelTooLong {
                    assert(!record_encodable(part[0]));
                }
            }
            return Err(e);
        },
    }
    match write_records(buffer, records, from + 1) {
        Ok(()) => {},
        Err(e) => {
            proof {
                if e == DnsError::LabelTooLong {
                    assert(!records_encodable(part)) by {
                        if records_encodable(part) {
                            let rest = models.subrange(from + 1, models.len() as int);
                            assert forall|i: int| 0 <= i < rest.len() implies record_encodable(
                                #[trigger] rest[i],
                            ) by {
                                assert(rest[i] == part[i + 1]);
                            }
                        }
                    }
                }
            }
            return Err(e);
        },
    }
    proof {
        crate::buffer::lemma_splice_splice(
            b0,
            p0,
            record_wire(models[from as int]),
            records_wire(models.subrange(from + 1, models.len() as int)),
        );
        let rest = models.subrange(from + 1, models.len() as int);
        assert forall|i: int| 0 <= i < part.len() implies record_encodable(
            #[trigger] part[i],
        ) by {
            if i > 0 {
                assert(part[i] == rest[i - 1]);
            }
        }
    }
    Ok(())
}

impl DnsPacket {
    /// A fresh, empty message.
    pub fn new() -> (r: DnsPacket)
        ensures
            r.header == DnsHeader::spec_new(),
            r@.questions =~= Seq::<QuestionModel>::empty(),
            r@.answers =~= Seq::<RecordModel>::empty(),
            r@.authorities =~= Seq::<RecordModel>::empty(),
            r@.additionals =~= Seq::<RecordModel>::empty(),
    {
        DnsPacket {
            header: DnsHeader::new(),
            questions: Vec::new(),
            answers: Vec::new(),
            authorities: Vec::new(),
            additionals: Vec::new(),
        }
    }

    /// Decode a whole message from the frame: the header's counts say how
    /// many entries each section holds.
    pub fn from_buffer(buffer: &mut BytePacketBuffer) -> (r: Result<DnsPacket, DnsError>)
        requires
            old(buffer).wf(),
        ensures
            final(buffer).wf(),
            final(buffer).buf@ == old(buffer).buf@,
            match r {
                Ok(p) => {
                    &&& parse_packet(old(buffer).buf@, old(buffer).pos as int) == Ok::<
                        (PacketModel, int),
                        DnsError,
                    >((p@, final(buffer).pos as int))
                    &&& p.header.wf()
                    &&& p@.questions.len() == p.header.questions_count
                    &&& p@.answers.len() == p.header.answers_count
                    &&& p@.authorities.len() == p.header.authority_records_count
                    &&& p@.additionals.len() == p.header.additional_records_count
                },
                Err(e) => parse_packet(old(buffer).buf@, old(buffer).pos as int) == Err::<
                    (PacketModel, int),
                    DnsError,
                >(e),
            },
    {
        let mut header = DnsHeader::new();
        header.read(buffer)?;
        let questions = read_questions(buffer, header.questions_count())?;
        let answers = read_records(buffer, header.answers_count())?;
        let authorities = read_records(buffer, header.authority_records_count())?;
        let additionals = read_records(buffer, header.additional_records_count())?;
        Ok(DnsPacket { header, questions, answers, authorities, additionals })
    }

    /// Encode the whole message into the frame, header first, then every
    /// section in the fixed order.
    #[verifier::rlimit(100)]
    #[verifier::spinoff_prover]
    pub fn to_buffer(&mut self, buffer: &mut BytePacketBuffer) -> (r: Result<(), DnsError>)
        requires
            old(buffer).wf(),
        ensures
            final(buffer).wf(),
            *final(self) == *old(self),
            match r {
                Ok(()) => {
                    &&& packet_encodable(old(self)@)
                    &&& old(buffer).pos + packet_wire(old(self)@).len() <= 512
                    &&& final(buffer).pos == old(buffer).pos + packet_wire(old(self)@).len()
                    &&& final(buffer).buf@ == splice(
                        old(buffer).buf@,
                        old(buffer).pos as int,
                        packet_wire(old(self)@),
                    )
                },
                Err(e) => {
                    &&& (e == DnsError::LabelTooLong || e == DnsError::Overflow)
                    &&& (e == DnsError::LabelTooLong ==> !packet_encodable(old(self)@))
                    &&& (e == DnsError::Overflow ==> old(buffer).pos + packet_wire(
                        old(self)@,
                    ).len() > 512)
                    &&& final(buffer).pos >= old(buffer).pos
                },
            },
    {
        let ghost b0 = buffer.buf@;
        let ghost p0 = buffer.pos as int;
        let ghost m = self@;
        proof {
            assert(m.questions.subrange(0, m.questions.len() as int) =~= m.questions);
            assert(m.answers.subrange(0, m.answers.len() as int) =~= m.answers);
            assert(m.authorities.subrange(0, m.authorities.len() as int) =~= m.authorities);
            assert(m.additionals.subrange(0, m.additionals.len() as int) =~= m.additionals);
        }
        self.header.write(buffer)?;
        write_questions(buffer, &self.questions, 0)?;
        write_records(buffer, &self.answers, 0)?;
        write_records(buffer, &self.authorities, 0)?;
        write_records(buffer, &self.additionals, 0)?;
        proof {
            let hw = m.header.wire();
            let qw = questions_wire(m.questions);
            let aw = records_wire(m.answers);
            let uw = records_wire(m.authorities);
            let dw = records_wire(m.additionals);
            crate::buffer::lemma_splice_splice(b0, p0, hw, qw);
            crate::buffer::lemma_splice_splice(b0, p0, hw + qw, aw);
            crate::buffer::lemma_splice_splice(b0, p0, hw + qw + aw, uw);
            crate::buffer::lemma_splice_splice(b0, p0, hw + qw + aw + uw, dw);
        }
        Ok(())
    }
}

/// Whether `domain` is a character suffix of `qname`.  This is the plain
/// suffix test the lookup helpers use: it is not label-aware, so a name can
/// match a domain across a label boundary.
pub open spec fn suffix_match(qname: Seq<char>, domain: Seq<char>) -> bool {
    domain.len() <= qname.len() && qname.subrange(
        qname.len() - domain.len(),
        qname.len() as int,
    ) == domain
}

/// The IPv4 addresses of the A records of a run, in order.
pub open spec fn a_addrs(rs: Seq<RecordModel>) -> Seq<Ipv4Addr>
    decreases rs.len(),
{
    if rs.len() == 0 {
        Seq::empty()
    } else {
        match rs[0] {
            RecordModel::A { ip_v4_addr, .. } => seq![ip_v4_addr] + a_addrs(rs.drop_first()),
            _ => a_addrs(rs.drop_first()),
        }
    }
}

/// The address of the first A record of the run whose domain is `host`.
pub open spec fn glue_a(adds: Seq<RecordModel>, host: Seq<char>) -> Option<Ipv4Addr>
    decreases adds.len(),
{
    if adds.len() == 0 {
        None
    } else {
        match adds[0] {
            RecordModel::A { domain, ip_v4_addr, .. } => if domain == host {
                Some(ip_v4_addr)
            } else {
                glue_a(adds.drop_first(), host)
            },
            _ => glue_a(adds.drop_first(), host),
        }
    }
}

/// The first glue address among the authorities: the first NS record whose
/// domain is a suffix of `qname` and whose host has an A record among the
/// additionals gives that record's address.
pub open spec fn resolved_ns_from(
    auth: Seq<RecordModel>,
    adds: Seq<RecordModel>,
    qname: Seq<char>,
) -> Option<Ipv4Addr>
    decreases auth.len(),
{
    if auth.len() == 0 {
        None
    } else {
        let rest = resolved_ns_from(auth.drop_first(), adds, qname);
        match auth[0] {
            RecordModel::NS { domain, host, .. } => if suffix_match(qname, domain) {
                match glue_a(adds, host) {
                    Some(ip) => Some(ip),
                    None => rest,
                }
            } else {
                rest
            },
            _ => rest,
        }
    }
}

/// The host of the first NS record among the authorities whose domain is a
/// suffix of `qname` and whose host has no A record among the additionals.
pub open spec fn unresolved_ns_from(
    auth: Seq<RecordModel>,
    adds: Seq<RecordModel>,
    qname: Seq<char>,
) -> Option<Seq<char>>
    decreases auth.len(),
{
    if auth.len() == 0 {
        None
    } else {
        let rest = unresolved_ns_from(auth.drop_first(), adds, qname);
        match auth[0] {
            RecordModel::NS { domain, host, .. } => if suffix_match(qname, domain) && glue_a(
                adds,
                host,
            ) is None {
                Some(host)
            } else {
                rest
            },
            _ => rest,
        }
    }
}

/// The resolved-NS lookup of a message.
pub open spec fn resolved_ns(m: PacketModel, qname: Seq<char>) -> Option<Ipv4Addr> {
    resolved_ns_from(m.authorities, m.additionals, qname)
}

/// The unresolved-NS lookup of a message.
pub open spec fn unresolved_ns(m: PacketModel, qname: Seq<char>) -> Option<Seq<char>> {
    unresolved_ns_from(m.authorities, m.additionals, qname)
}

/// Whether `s` ends with `suffix`, character by character.
fn str_ends_with(s: &str, suffix: &str) -> (r: bool)
    ensures
        r == suffix_match(s@, suffix@),
{
    let n = s.unicode_len();
    let m = suffix.unicode_len();
    if m > n {
        return false;
    }
    let mut j: usize = 0;
    while j < m
        invariant
            j <= m <= n,
            n == s@.len(),
            m == suffix@.len(),
            forall|k: int| 0 <= k < j ==> s@[n - m + k] == suffix@[k],
        decreases m - j,
    {
        if s.get_char(n - m + j) != suffix.get_char(j) {
            proof {
                assert(s@.subrange(n - m, n as int)[j as int] == s@[n - m + j]);
            }
            return false;
        }
        j = j + 1;
    }
    proof {
        assert(s@.subrange(n - m, n as int) =~= suffix@);
    }
    true
}

impl DnsPacket {
    /// The address of the first additional-section A record whose domain is
    /// `host`.
    fn glue_lookup(&self, host: &String) -> (r: Option<Ipv4Addr>)
        ensures
            r == glue_a(self@.additionals, host@),
    {
        let ghost adds = self@.additionals;
        let mut i: usize = 0;
        proof {
            assert(adds.subrange(0, adds.len() as int) =~= adds);
        }
        while i < self.additionals.len()
            invariant
                i <= self.additionals.len(),
                adds == self@.additionals,
                adds.len() == self.additionals.len(),
                glue_a(adds, host@) == glue_a(adds.subrange(i as int, adds.len() as int), host@),
            decreases self.additionals.len() - i,
        {
            let ghost tail = adds.subrange(i as int, adds.len() as int);
            proof {
                assert(tail.drop_first() =~= adds.subrange(i + 1, adds.len() as int));
                assert(tail[0] == self.additionals@[i as int]@);
            }
            match &self.additionals[i] {
                DnsRecord::A { domain, ip_v4_addr, .. } => {
                    if domain.eq(host) {
                        return Some(*ip_v4_addr);
                    }
                },
                _ => {},
            }
            i = i + 1;
        }
        proof {
            assert(adds.subrange(i as int, adds.len() as int) =~= Seq::<RecordModel>::empty());
        }
        None
    }

    /// The glue address for `qname`: the first authority NS record whose
    /// domain is a suffix of `qname` (a plain character-suffix test) with
    /// an A record among the additionals, in authority order.
    pub fn get_resolved_ns(&self, qname: &str) -> (r: Option<Ipv4Addr>)
        ensures
            r == resolved_ns(self@, qname@),
    {
        let ghost auth = self@.authorities;
        let ghost adds = self@.additionals;
        let mut i: usize = 0;
        proof {
            assert(auth.subrange(0, auth.len() as int) =~= auth);
        }
        while i < self.authorities.len()
            invariant
                i <= self.authorities.len(),
                auth == self@.authorities,
                adds == self@.additionals,
                auth.len() == self.authorities.len(),
                resolved_ns_from(auth, adds, qname@) == resolved_ns_from(
                    auth.subrange(i as int, auth.len() as int),
                    adds,
                    qname@,
                ),
            decreases self.authorities.len() - i,
        {
            let ghost tail = auth.subrange(i as int, auth.len() as int);
            proof {
                assert(tail.drop_first() =~= auth.subrange(i + 1, auth.len() as int));
                assert(tail[0] == self.authorities@[i as int]@);
            }
            match &self.authorities[i] {
                DnsRecord::NS { host, domain, .. } => {
                    if str_ends_with(qname, domain.as_str()) {
                        match self.glue_lookup(host) {
                            Some(ip) => {
                                return Some(ip);
                            },
                            None => {},
                        }
                    }
                },
                _ => {},
            }
            i = i + 1;
        }
        proof {
            assert(auth.subrange(i as int, auth.len() as int) =~= Seq::<RecordModel>::empty());
        }
        None
    }

    /// The host name of the first authority NS record whose domain is a
    /// suffix of `qname` but whose address no additional record supplies.
    pub fn get_unresolved_ns<'a>(&'a self, qname: &'a str) -> (r: Option<&'a str>)
        ensures
            match r {
                Some(h) => unresolved_ns(self@, qname@) == Some(h@),
                None => unresolved_ns(self@, qname@) is None,
            },
    {
        let ghost auth = self@.authorities;
        let ghost adds = self@.additionals;
        let mut i: usize = 0;
        proof {
            assert(auth.subrange(0, auth.len() as int) =~= auth);
        }
        while i < self.authorities.len()
            invariant
                i <= self.authorities.len(),
                auth == self@.authorities,
                adds == self@.additionals,
                auth.len() == self.authorities.len(),
                unresolved_ns_from(auth, adds, qname@) == unresolved_ns_from(
                    auth.subrange(i as int, auth.len() as int),
                    adds,
                    qname@,
                ),
            decreases self.authorities.len() - i,
        {
            let ghost tail = auth.subrange(i as int, auth.len() as int);
            proof {
                assert(tail.drop_first() =~= auth.subrange(i + 1, auth.len() as int));
                assert(tail[0] == self.authorities@[i as int]@);
            }
            match &self.authorities[i] {
                DnsRecord::NS { host, domain, .. } => {
                    if str_ends_with(qname, domain.as_str()) {
                        match self.glue_lookup(host) {
                            Some(_) => {},
                            None => {
                                return Some(host.as_str());
                            },
                        }
                    }
                },
                _ => {},
            }
            i = i + 1;
        }
        proof {
            assert(auth.subrange(i as int, auth.len() as int) =~= Seq::<RecordModel>::empty());
        }
        None
    }

    /// One A-record address from the answer section, drawn at random; the
    /// result is some address of that section exactly when one is there.
    pub fn get_random_a(&self) -> (r: Option<Ipv4Addr>)
        ensures
            r is Some <==> a_addrs(self@.answers).len() > 0,
            match r {
                Some(ip) => a_addrs(self@.answers).contains(ip),
                None => true,
            },
    {
        let ghost ans = self@.answers;
        let mut a_records: Vec<Ipv4Addr> = Vec::new();
        let mut i: usize = 0;
        proof {
            assert(ans.subrange(0, ans.len() as int) =~= ans);
        }
        while i < self.answers.len()
            invariant
                i <= self.answers.len(),
                ans == self@.answers,
                ans.len() == self.answers.len(),
                a_addrs(ans) == a_records@ + a_addrs(ans.subrange(i as int, ans.len() as int)),
            decreases self.answers.len() - i,
        {
            let ghost tail = ans.subrange(i as int, ans.len() as int);
            proof {
                assert(tail.drop_first() =~= ans.subrange(i + 1, ans.len() as int));
                assert(tail[0] == self.answers@[i as int]@);
            }
            let ghost before = a_records@;
            match &self.answers[i] {
                DnsRecord::A { ip_v4_addr, .. } => {
                    a_records.push(*ip_v4_addr);
                },
                _ => {},
            }
            proof {
                assert(a_records@ + a_addrs(ans.subrange(i + 1, ans.len() as int)) =~= before
                    + a_addrs(tail));
            }
            i = i + 1;
        }
        proof {
            assert(a_addrs(ans.subrange(i as int, ans.len() as int)) =~= Seq::<Ipv4Addr>::empty());
            assert(a_addrs(ans) =~= a_records@);
        }
        if a_records.len() == 0 {
            return None;
        }
        let mut rng = crate::rng::thread_rng_handle();
        let idx = crate::rng::gen_index(&mut rng, a_records.len());
        let ip = a_records[idx];
        proof {
            assert(a_addrs(ans)[idx as int] == ip);
        }
        Some(ip)
    }
}

} // verus!
