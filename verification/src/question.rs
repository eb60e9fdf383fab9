use vstd::prelude::*;

use crate::buffer::{splice, u16_be, u16_of, BytePacketBuffer};
use crate::errors::DnsError;
use crate::name::{has_long_label, name_wire, parse_name_at};
use crate::query_class::QueryClass;
use crate::query_type::QueryType;

verus! {

/// The mathematical shape of a question: its name as characters, its type
/// and its class.
pub struct QuestionModel {
    pub name: Seq<char>,
    pub qtype: QueryType,
    pub qclass: QueryClass,
}

/// The bytes of a question on the wire: name, type code, class code.
pub open spec fn question_wire(q: QuestionModel) -> Seq<u8> {
    name_wire(q.name) + u16_be(q.qtype.spec_num()) + u16_be(q.qclass.spec_num())
}

/// The parse of a question at `pos`: a name, then two 16-bit codes.
pub open spec fn parse_question(buf: Seq<u8>, pos: int) -> Result<(QuestionModel, int), DnsError> {
    match parse_name_at(buf, pos, 0) {
        Err(e) => Err(e),
        Ok((name, p1)) => if p1 + 4 <= 512 {
            Ok(
                (
                    QuestionModel {
                        name,
                        qtype: QueryType::spec_of_num(u16_of(buf[p1], buf[p1 + 1])),
                        qclass: QueryClass::spec_of_num(u16_of(buf[p1 + 2], buf[p1 + 3])),
                    },
                    p1 + 4,
                ),
            )
        } else {
            Err(DnsError::Overflow)
        },
    }
}

/// One entry of the question section.
#[derive(Debug, Clone, PartialEq, Eq, Hash)]
pub struct DnsQuestion {
    pub name: String,
    pub qtype: QueryType,
    pub qclass: QueryClass,
}

impl View for DnsQuestion {
    type V = QuestionModel;

    open spec fn view(&self) -> QuestionModel {
        QuestionModel { name: self.name@, qtype: self.qtype, qclass: self.qclass }
    }
}

impl DnsQuestion {
    pub fn new(name: String, qtype: QueryType, qclass: QueryClass) -> (r: DnsQuestion)
        ensures
            r@ == (QuestionModel { name: name@, qtype, qclass }),
    {
        DnsQuestion { name, qtype, qclass }
    }

    /// Fill the question from the bytes under the cursor.
    pub fn read(&mut self, buffer: &mut BytePacketBuffer) -> (r: Result<(), DnsError>)
        requires
            old(buffer).wf(),
        ensures
            final(buffer).wf(),
            final(buffer).buf@ == old(buffer).buf@,
            match r {
                Ok(()) => parse_question(old(buffer).buf@, old(buffer).pos as int) == Ok::<
                    (QuestionModel, int),
                    DnsError,
                >((final(self)@, final(buffer).pos as int)),
                Err(e) => parse_question(old(buffer).buf@, old(buffer).pos as int) == Err::<
                    (QuestionModel, int),
                    DnsError,
                >(e) && *final(self) == *old(self),
            },
    {
        let name = buffer.read_name()?;
        let qtype_num = buffer.read_u16()?;
        let qclass_num = buffer.read_u16()?;
        self.name = name;
        self.qtype = QueryType::from_num(qtype_num);
        self.qclass = QueryClass::from_num(qclass_num);
        Ok(())
    }

    /// Write the question under the cursor.
    pub fn write(&self, buffer: &mut BytePacketBuffer) -> (r: Result<(), DnsError>)
        requires
            old(buffer).wf(),
        ensures
            final(buffer).wf(),
            match r {
                Ok(()) => {
                    &&& !has_long_label(self.name@)
                    &&& old(buffer).pos + self.name@.len() + 6 <= 512
                    &&& final(buffer).pos == old(buffer).pos + self.name@.len() + 6
                    &&& final(buffer).buf@ == splice(
                        old(buffer).buf@,
                        old(buffer).pos as int,
                        question_wire(self@),
                    )
                },
                Err(e) => {
                    &&& (e == DnsError::LabelTooLong || e == DnsError::Overflow)
                    &&& (e == DnsError::LabelTooLong ==> has_long_label(self.name@))
                    &&& (e == DnsError::Overflow ==> old(buffer).pos + self.name@.len() + 6 > 512)
                    &&& final(buffer).pos >= old(buffer).pos
                },
            },
    {
        let ghost b0 = buffer.buf@;
        let ghost p0 = buffer.pos as int;
        proof {
            crate::name::lemma_name_wire_len(self.name@);
        }
        buffer.write_qname(&self.name)?;
        buffer.write_u16(self.qtype.to_num())?;
        buffer.write_u16(self.qclass.to_num())?;
        proof {
            crate::buffer::lemma_splice_splice(
                b0,
                p0,
                name_wire(self.name@),
                u16_be(self.qtype.spec_num()),
            );
            crate::buffer::lemma_splice_splice(
                b0,
                p0,
                name_wire(self.name@) + u16_be(self.qtype.spec_num()),
                u16_be(self.qclass.spec_num()),
            );
        }
        Ok(())
    }
}

/// Law: a question whose name is in encodable form parses back from its own
/// wire bytes, wherever they stand in the frame.
pub proof fn lemma_question_wire_parses(buf: Seq<u8>, pos: int, q: QuestionModel)
    requires
        buf.len() == 512,
        crate::name::encodable_name(q.name),
        QueryType::spec_of_num(q.qtype.spec_num()) == q.qtype,
        QueryClass::spec_of_num(q.qclass.spec_num()) == q.qclass,
        0 <= pos,
        pos + q.name.len() + 6 <= 512,
        buf.subrange(pos, pos + q.name.len() + 6) == question_wire(q),
    ensures
        parse_question(buf, pos) == Ok::<(QuestionModel, int), DnsError>(
            (q, pos + q.name.len() + 6),
        ),
{
    let w = question_wire(q);
    let nlen = q.name.len() as int;
    crate::name::lemma_name_wire_len(q.name);
    assert(buf.subrange(pos, pos + nlen + 2) =~= name_wire(q.name)) by {
        assert forall|j: int| 0 <= j < nlen + 2 implies buf.subrange(pos, pos + nlen + 6)[j]
            == name_wire(q.name)[j] by {
            assert(w[j] == name_wire(q.name)[j]);
        }
    }
    crate::name::lemma_name_wire_parses(buf, pos, q.name, 0);
    let p1 = pos + nlen + 2;
    assert(buf[p1] == w[nlen + 2] && buf[p1 + 1] == w[nlen + 3] && buf[p1 + 2] == w[nlen + 4] && buf[
        p1 + 3] == w[nlen + 5]);
    crate::buffer::lemma_u16_be_of(q.qtype.spec_num());
    crate::buffer::lemma_u16_be_of(q.qclass.spec_num());
}

} // verus!
