use vstd::prelude::*;

use crate::buffer::{splice, u16_be, u16_of, BytePacketBuffer};
use crate::errors::DnsError;
use crate::result_code::ResultCode;

verus! {

/// A flag bit as a 16-bit 0-or-1 value.
pub open spec fn flag_bit(b: bool) -> u16 {
    if b {
        1
    } else {
        0
    }
}

/// The 12-byte fixed message header: correlation id, packed flag word,
/// and the four section counts.
#[derive(Debug, Clone, PartialEq, Eq, Hash, Structural)]
pub struct DnsHeader {
    pub id: u16,
    pub is_response: bool,
    pub opcode: u8,
    pub authoritative_answer: bool,
    pub truncated_message: bool,
    pub recursion_desired: bool,
    pub recursion_available: bool,
    pub z: u8,
    pub result_code: ResultCode,
    pub questions_count: u16,
    pub answers_count: u16,
    pub authority_records_count: u16,
    pub additional_records_count: u16,
}

impl DnsHeader {
    /// The bit fields are in range and the result code is in its canonical
    /// variant, as decoding always leaves them.
    pub open spec fn wf(&self) -> bool {
        &&& self.opcode < 16
        &&& self.z < 8
        &&& self.result_code.spec_num() < 16
        &&& (self.result_code is UNKNOWN ==> self.result_code.spec_num() > 5)
    }

    /// The 16-bit flag word: QR | opcode | AA | TC | RD | RA | Z | RCODE,
    /// from bit 15 down to bit 0.
    pub open spec fn spec_flags(&self) -> u16 {
        (flag_bit(self.is_response) * 0x8000 + (self.opcode as int % 16) * 0x800 + flag_bit(
            self.authoritative_answer,
        ) * 0x400 + flag_bit(self.truncated_message) * 0x200 + flag_bit(self.recursion_desired)
            * 0x100 + flag_bit(self.recursion_available) * 0x80 + (self.z as int % 8) * 0x10 + (
        self.result_code.spec_num() as int % 16)) as u16
    }

    /// The 12 bytes of the header on the wire.
    pub open spec fn wire(&self) -> Seq<u8> {
        u16_be(self.id) + u16_be(self.spec_flags()) + u16_be(self.questions_count) + u16_be(
            self.answers_count,
        ) + u16_be(self.authority_records_count) + u16_be(self.additional_records_count)
    }

    /// The header read from twelve bytes of the frame starting at `pos`.
    pub open spec fn spec_parse(buf: Seq<u8>, pos: int) -> DnsHeader {
        let flags = u16_of(buf[pos + 2], buf[pos + 3]);
        DnsHeader {
            id: u16_of(buf[pos], buf[pos + 1]),
            is_response: (flags as int / 0x8000) % 2 == 1,
            opcode: ((flags as int / 0x800) % 16) as u8,
            authoritative_answer: (flags as int / 0x400) % 2 == 1,
            truncated_message: (flags as int / 0x200) % 2 == 1,
            recursion_desired: (flags as int / 0x100) % 2 == 1,
            recursion_available: (flags as int / 0x80) % 2 == 1,
            z: ((flags as int / 0x10) % 8) as u8,
            result_code: ResultCode::spec_of_num((flags as int % 16) as u8),
            questions_count: u16_of(buf[pos + 4], buf[pos + 5]),
            answers_count: u16_of(buf[pos + 6], buf[pos + 7]),
            authority_records_count: u16_of(buf[pos + 8], buf[pos + 9]),
            additional_records_count: u16_of(buf[pos + 10], buf[pos + 11]),
        }
    }

    /// The header of a fresh message: all fields zero, status `NOERROR`.
    pub open spec fn spec_new() -> DnsHeader {
        DnsHeader {
            id: 0,
            is_response: false,
            opcode: 0,
            authoritative_answer: false,
            truncated_message: false,
            recursion_desired: false,
            recursion_available: false,
            z: 0,
            result_code: ResultCode::NOERROR,
            questions_count: 0,
            answers_count: 0,
            authority_records_count: 0,
            additional_records_count: 0,
        }
    }

    /// A header of a fresh message: all fields zero, status `NOERROR`.
    pub fn new() -> (r: DnsHeader)
        ensures
            r == DnsHeader::spec_new(),
            r.wf(),
    {
        DnsHeader {
            id: 0,
            is_response: false,
            opcode: 0,
            authoritative_answer: false,
            truncated_message: false,
            recursion_desired: false,
            recursion_available: false,
            z: 0,
            result_code: ResultCode::NOERROR,
            questions_count: 0,
            answers_count: 0,
            authority_records_count: 0,
            additional_records_count: 0,
        }
    }

    /// Fill the header from the twelve bytes under the cursor.
    pub fn read(&mut self, buffer: &mut BytePacketBuffer) -> (r: Result<(), DnsError>)
        requires
            old(buffer).wf(),
        ensures
            final(buffer).wf(),
            final(buffer).buf@ == old(buffer).buf@,
            match r {
                Ok(()) => {
                    &&& old(buffer).pos + 12 <= 512
                    &&& final(buffer).pos == old(buffer).pos + 12
                    &&& *final(self) == DnsHeader::spec_parse(
                        old(buffer).buf@,
                        old(buffer).pos as int,
                    )
                    &&& final(self).wf()
                },
                Err(e) => {
                    &&& e == DnsError::Overflow
                    &&& old(buffer).pos + 12 > 512
                    &&& *final(self) == *old(self)
                    &&& final(buffer).pos >= old(buffer).pos
                },
            },
    {
        let id = buffer.read_u16()?;
        let flags = buffer.read_u16()?;
        let questions_count = buffer.read_u16()?;
        let answers_count = buffer.read_u16()?;
        let authority_records_count = buffer.read_u16()?;
        let additional_records_count = buffer.read_u16()?;

        self.id = id;
        self.is_response = (flags / 0x8000) % 2 == 1;
        self.opcode = ((flags / 0x800) % 16) as u8;
        self.authoritative_answer = (flags / 0x400) % 2 == 1;
        self.truncated_message = (flags / 0x200) % 2 == 1;
        self.recursion_desired = (flags / 0x100) % 2 == 1;
        self.recursion_available = (flags / 0x80) % 2 == 1;
        self.z = ((flags / 0x10) % 8) as u8;
        self.result_code = ResultCode::from_num((flags % 16) as u8);
        self.questions_count = questions_count;
        self.answers_count = answers_count;
        self.authority_records_count = authority_records_count;
        self.additional_records_count = additional_records_count;
        Ok(())
    }

    /// Write the twelve header bytes under the cursor.
    #[verifier::rlimit(50)]
    pub fn write(&mut self, buffer: &mut BytePacketBuffer) -> (r: Result<(), DnsError>)
        requires
            old(buffer).wf(),
        ensures
            final(buffer).wf(),
            *final(self) == *old(self),
            match r {
                Ok(()) => {
                    &&& old(buffer).pos + 12 <= 512
                    &&& final(buffer).pos == old(buffer).pos + 12
                    &&& final(buffer).buf@ == splice(
                        old(buffer).buf@,
                        old(buffer).pos as int,
                        old(self).wire(),
                    )
                },
                Err(e) => {
                    &&& e == DnsError::Overflow
                    &&& old(buffer).pos + 12 > 512
                    &&& final(buffer).pos >= old(buffer).pos
                },
            },
    {
        let flags: u16 = (if self.is_response {
            0x8000u16
        } else {
            0u16
        }) + ((self.opcode as u16) % 16) * 0x800 + (if self.authoritative_answer {
            0x400u16
        } else {
            0u16
        }) + (if self.truncated_message {
            0x200u16
        } else {
            0u16
        }) + (if self.recursion_desired {
            0x100u16
        } else {
            0u16
        }) + (if self.recursion_available {
            0x80u16
        } else {
            0u16
        }) + ((self.z as u16) % 8) * 0x10 + ((self.result_code.to_num() as u16) % 16);
        assert(flags == self.spec_flags());

        let ghost b0 = buffer.buf@;
        let ghost p = buffer.pos as int;
        buffer.write_u16(self.id)?;
        let ghost b1 = buffer.buf@;
        buffer.write_u16(flags)?;
        let ghost b2 = buffer.buf@;
        buffer.write_u16(self.questions_count)?;
        let ghost b3 = buffer.buf@;
        buffer.write_u16(self.answers_count)?;
        let ghost b4 = buffer.buf@;
        buffer.write_u16(self.authority_records_count)?;
        let ghost b5 = buffer.buf@;
        buffer.write_u16(self.additional_records_count)?;
        proof {
            crate::buffer::lemma_splice_splice(b0, p, u16_be(self.id), u16_be(flags));
            crate::buffer::lemma_splice_splice(
                b0,
                p,
                u16_be(self.id) + u16_be(flags),
                u16_be(self.questions_count),
            );
            crate::buffer::lemma_splice_splice(
                b0,
                p,
                u16_be(self.id) + u16_be(flags) + u16_be(self.questions_count),
                u16_be(self.answers_count),
            );
            crate::buffer::lemma_splice_splice(
                b0,
                p,
                u16_be(self.id) + u16_be(flags) + u16_be(self.questions_count) + u16_be(
                    self.answers_count,
                ),
                u16_be(self.authority_records_count),
            );
            crate::buffer::lemma_splice_splice(
                b0,
                p,
                u16_be(self.id) + u16_be(flags) + u16_be(self.questions_count) + u16_be(
                    self.answers_count,
                ) + u16_be(self.authority_records_count),
                u16_be(self.additional_records_count),
            );
            assert(buffer.buf@ == splice(b0, p, self.wire()));
        }
        Ok(())
    }

    pub fn questions_count(&self) -> (r: u16)
        ensures
            r == self.questions_count,
    {
        self.questions_count
    }

    pub fn answers_count(&self) -> (r: u16)
        ensures
            r == self.answers_count,
    {
        self.answers_count
    }

    pub fn authority_records_count(&self) -> (r: u16)
        ensures
            r == self.authority_records_count,
    {
        self.authority_records_count
    }

    pub fn additional_records_count(&self) -> (r: u16)
        ensures
            r == self.additional_records_count,
    {
        self.additional_records_count
    }
}

/// Law: a header whose bit fields are in range comes back bit-for-bit,
/// reserved bits included, when its twelve encoded bytes are decoded.
#[verifier::rlimit(50)]
pub proof fn lemma_header_round_trip(h: DnsHeader)
    requires
        h.wf(),
    ensures
        DnsHeader::spec_parse(h.wire(), 0) == h,
{
    let w = h.wire();
    crate::buffer::lemma_u16_be_of(h.id);
    crate::buffer::lemma_u16_be_of(h.spec_flags());
    crate::buffer::lemma_u16_be_of(h.questions_count);
    crate::buffer::lemma_u16_be_of(h.answers_count);
    crate::buffer::lemma_u16_be_of(h.authority_records_count);
    crate::buffer::lemma_u16_be_of(h.additional_records_count);
    assert(w[0] == u16_be(h.id)[0] && w[1] == u16_be(h.id)[1]);
    assert(w[2] == u16_be(h.spec_flags())[0] && w[3] == u16_be(h.spec_flags())[1]);
    assert(w[4] == u16_be(h.questions_count)[0] && w[5] == u16_be(h.questions_count)[1]);
    assert(w[6] == u16_be(h.answers_count)[0] && w[7] == u16_be(h.answers_count)[1]);
    assert(w[8] == u16_be(h.authority_records_count)[0] && w[9] == u16_be(
        h.authority_records_count,
    )[1]);
    assert(w[10] == u16_be(h.additional_records_count)[0] && w[11] == u16_be(
        h.additional_records_count,
    )[1]);

    let f = h.spec_flags();
    let qr = flag_bit(h.is_response);
    let op = h.opcode as u16;
    let aa = flag_bit(h.authoritative_answer);
    let tc = flag_bit(h.truncated_message);
    let rd = flag_bit(h.recursion_desired);
    let ra = flag_bit(h.recursion_available);
    let z = h.z as u16;
    let rc = h.result_code.spec_num() as u16;
    assert(f == qr * 0x8000 + op * 0x800 + aa * 0x400 + tc * 0x200 + rd * 0x100 + ra * 0x80 + z
        * 0x10 + rc);
    assert((f as int / 0x8000) % 2 == qr && (f as int / 0x800) % 16 == op && (f as int / 0x400) % 2
        == aa && (f as int / 0x200) % 2 == tc && (f as int / 0x100) % 2 == rd && (f as int / 0x80)
        % 2 == ra && (f as int / 0x10) % 8 == z && f as int % 16 == rc) by (bit_vector)
        requires
            qr <= 1 && op < 16 && aa <= 1 && tc <= 1 && rd <= 1 && ra <= 1 && z < 8 && rc < 16 && f
                == qr * 0x8000 + op * 0x800 + aa * 0x400 + tc * 0x200 + rd * 0x100 + ra * 0x80 + z
                * 0x10 + rc,
    ;
    crate::result_code::lemma_result_code_round_trip(h.result_code, (f % 16) as u8);
}

} // verus!
