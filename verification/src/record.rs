use vstd::prelude::*;

use crate::buffer::{splice, u16_be, u16_of, u32_be, u32_of, BytePacketBuffer};
use crate::errors::DnsError;
use crate::name::{has_long_label, name_wire, parse_name_at};
use crate::query_class::QueryClass;
use crate::query_type::QueryType;

verus! {

/// An IPv4 address as its four octets.
#[derive(Debug, Clone, Copy, PartialEq, Eq, Hash, Structural)]
pub struct Ipv4Addr {
    pub o0: u8,
    pub o1: u8,
    pub o2: u8,
    pub o3: u8,
}

impl Ipv4Addr {
    pub fn new(o0: u8, o1: u8, o2: u8, o3: u8) -> (r: Ipv4Addr)
        ensures
            r == (Ipv4Addr { o0, o1, o2, o3 }),
    {
        Ipv4Addr { o0, o1, o2, o3 }
    }
}

/// An IPv6 address as its eight 16-bit segments.
#[derive(Debug, Clone, Copy, PartialEq, Eq, Hash, Structural)]
pub struct Ipv6Addr {
    pub s0: u16,
    pub s1: u16,
    pub s2: u16,
    pub s3: u16,
    pub s4: u16,
    pub s5: u16,
    pub s6: u16,
    pub s7: u16,
}

impl Ipv6Addr {
    pub fn new(s0: u16, s1: u16, s2: u16, s3: u16, s4: u16, s5: u16, s6: u16, s7: u16) -> (r:
        Ipv6Addr)
        ensures
            r == (Ipv6Addr { s0, s1, s2, s3, s4, s5, s6, s7 }),
    {
        Ipv6Addr { s0, s1, s2, s3, s4, s5, s6, s7 }
    }
}

/// The mathematical shape of a resource record, with names as characters.
pub enum RecordModel {
    A { domain: Seq<char>, ip_v4_addr: Ipv4Addr, ttl: u32 },
    NS { domain: Seq<char>, host: Seq<char>, ttl: u32 },
    CNAME { domain: Seq<char>, host: Seq<char>, ttl: u32 },
    MX { domain: Seq<char>, priority: u16, host: Seq<char>, ttl: u32 },
    AAAA { domain: Seq<char>, ip_v6_addr: Ipv6Addr, ttl: u32 },
    UNKNOWN { domain: Seq<char>, qtype: QueryType, qclass: QueryClass, ttl: u32, rdlength: u16 },
}

/// The wire bytes of a record whose payload is one name: name, type code,
/// class `IN`, time to live, the payload length, then the payload name.
pub open spec fn host_record_wire(domain: Seq<char>, code: u16, host: Seq<char>, ttl: u32) -> Seq<
    u8,
> {
    name_wire(domain) + u16_be(code) + u16_be(1) + u32_be(ttl) + u16_be((host.len() + 2) as u16)
        + name_wire(host)
}

/// The wire bytes of a mail-exchange record: its payload is a 16-bit
/// priority followed by a name.
pub open spec fn mx_record_wire(domain: Seq<char>, priority: u16, host: Seq<char>, ttl: u32) -> Seq<
    u8,
> {
    name_wire(domain) + u16_be(15) + u16_be(1) + u32_be(ttl) + u16_be((host.len() + 4) as u16)
        + u16_be(priority) + name_wire(host)
}

/// The bytes of a record on the wire: name, type code, class code, time to
/// live, payload length, then the type-specific payload.  Recognized types
/// are written with class `IN`; a record of unrecognized type is re-emitted
/// with its raw codes and length but no payload, since none was kept.
pub open spec fn record_wire(r: RecordModel) -> Seq<u8> {
    match r {
        RecordModel::A { domain, ip_v4_addr, ttl } => name_wire(domain) + u16_be(1) + u16_be(1)
            + u32_be(ttl) + u16_be(4) + seq![
            ip_v4_addr.o0,
            ip_v4_addr.o1,
            ip_v4_addr.o2,
            ip_v4_addr.o3,
        ],
        RecordModel::NS { domain, host, ttl } => host_record_wire(domain, 2, host, ttl),
        RecordModel::CNAME { domain, host, ttl } => host_record_wire(domain, 5, host, ttl),
        RecordModel::MX { domain, priority, host, ttl } => mx_record_wire(
            domain,
            priority,
            host,
            ttl,
        ),
        RecordModel::AAAA { domain, ip_v6_addr, ttl } => name_wire(domain) + u16_be(28) + u16_be(1)
            + u32_be(ttl) + u16_be(16) + u16_be(ip_v6_addr.s0) + u16_be(ip_v6_addr.s1) + u16_be(
            ip_v6_addr.s2,
        ) + u16_be(ip_v6_addr.s3) + u16_be(ip_v6_addr.s4) + u16_be(ip_v6_addr.s5) + u16_be(
            ip_v6_addr.s6,
        ) + u16_be(ip_v6_addr.s7),
        RecordModel::UNKNOWN { domain, qtype, qclass, ttl, rdlength } => name_wire(domain) + u16_be(
            qtype.spec_num(),
        ) + u16_be(qclass.spec_num()) + u32_be(ttl) + u16_be(rdlength),
    }
}

/// Whether the record's names can be written: no label over 63 characters.
pub open spec fn record_encodable(r: RecordModel) -> bool {
    match r {
        RecordModel::A { domain, .. } => !has_long_label(domain),
        RecordModel::NS { domain, host, .. } => !has_long_label(domain) && !has_long_label(host),
        RecordModel::CNAME { domain, host, .. } => !has_long_label(domain) && !has_long_label(
            host,
        ),
        RecordModel::MX { domain, host, .. } => !has_long_label(domain) && !has_long_label(host),
        RecordModel::AAAA { domain, .. } => !has_long_label(domain),
        RecordModel::UNKNOWN { domain, .. } => !has_long_label(domain),
    }
}

/// The parse of a record at `pos`: a name, the four fixed fields, then the
/// payload as the type code directs.  The payload of an unrecognized type
/// is skipped by its declared length, not kept.
pub open spec fn parse_record(buf: Seq<u8>, pos: int) -> Result<(RecordModel, int), DnsError> {
    match parse_name_at(buf, pos, 0) {
        Err(e) => Err(e),
        Ok((domain, p1)) => if !(p1 + 10 <= 512) {
            Err(DnsError::Overflow)
        } else {
            let qtype = QueryType::spec_of_num(u16_of(buf[p1], buf[p1 + 1]));
            let qclass = QueryClass::spec_of_num(u16_of(buf[p1 + 2], buf[p1 + 3]));
            let ttl = u32_of(buf[p1 + 4], buf[p1 + 5], buf[p1 + 6], buf[p1 + 7]);
            let rdlength = u16_of(buf[p1 + 8], buf[p1 + 9]);
            let p2 = p1 + 10;
            match qtype {
                QueryType::A => if p2 + 4 <= 512 {
                    Ok(
                        (
                            RecordModel::A {
                                domain,
                                ip_v4_addr: Ipv4Addr {
                                    o0: buf[p2],
                                    o1: buf[p2 + 1],
                                    o2: buf[p2 + 2],
                                    o3: buf[p2 + 3],
                                },
                                ttl,
                            },
                            p2 + 4,
                        ),
                    )
                } else {
                    Err(DnsError::Overflow)
                },
                QueryType::NS => match parse_name_at(buf, p2, 0) {
                    Ok((host, p3)) => Ok((RecordModel::NS { domain, host, ttl }, p3)),
                    Err(e) => Err(e),
                },
                QueryType::CNAME => match parse_name_at(buf, p2, 0) {
                    Ok((host, p3)) => Ok((RecordModel::CNAME { domain, host, ttl }, p3)),
                    Err(e) => Err(e),
                },
                QueryType::MX => if !(p2 + 2 <= 512) {
                    Err(DnsError::Overflow)
                } else {
                    let priority = u16_of(buf[p2], buf[p2 + 1]);
                    match parse_name_at(buf, p2 + 2, 0) {
                        Ok((host, p3)) => Ok((RecordModel::MX { domain, priority, host, ttl }, p3)),
                        Err(e) => Err(e),
                    }
                },
                QueryType::AAAA => if p2 + 16 <= 512 {
                    Ok(
                        (
                            RecordModel::AAAA {
                                domain,
                                ip_v6_addr: Ipv6Addr {
                                    s0: u16_of(buf[p2], buf[p2 + 1]),
                                    s1: u16_of(buf[p2 + 2], buf[p2 + 3]),
                                    s2: u16_of(buf[p2 + 4], buf[p2 + 5]),
                                    s3: u16_of(buf[p2 + 6], buf[p2 + 7]),
                                    s4: u16_of(buf[p2 + 8], buf[p2 + 9]),
                                    s5: u16_of(buf[p2 + 10], buf[p2 + 11]),
                                    s6: u16_of(buf[p2 + 12], buf[p2 + 13]),
                                    s7: u16_of(buf[p2 + 14], buf[p2 + 15]),
                                },
                                ttl,
                            },
                            p2 + 16,
                        ),
                    )
                } else {
                    Err(DnsError::Overflow)
                },
                QueryType::UNKNOWN(_) => if p2 + rdlength <= 512 {
                    Ok((RecordModel::UNKNOWN { domain, qtype, qclass, ttl, rdlength }, p2 + rdlength))
                } else {
                    Err(DnsError::Overflow)
                },
            }
        },
    }
}

/// A resource record, keyed by its type; the payload shape differs per
/// type.  Every variant carries the owning domain and a time to live.
#[derive(Debug, Clone, PartialEq, Eq, Hash)]
pub enum DnsRecord {
    A { domain: String, ip_v4_addr: Ipv4Addr, ttl: u32 },
    NS { domain: String, host: String, ttl: u32 },
    CNAME { domain: String, host: String, ttl: u32 },
    MX { domain: String, priority: u16, host: String, ttl: u32 },
    AAAA { domain: String, ip_v6_addr: Ipv6Addr, ttl: u32 },
    UNKNOWN { domain: String, qtype: QueryType, qclass: QueryClass, ttl: u32, rdlength: u16 },
}

impl View for DnsRecord {
    type V = RecordModel;

    open spec fn view(&self) -> RecordModel {
        match self {
            DnsRecord::A { domain, ip_v4_addr, ttl } => RecordModel::A {
                domain: domain@,
                ip_v4_addr: *ip_v4_addr,
                ttl: *ttl,
            },
            DnsRecord::NS { domain, host, ttl } => RecordModel::NS {
                domain: domain@,
                host: host@,
                ttl: *ttl,
            },
            DnsRecord::CNAME { domain, host, ttl } => RecordModel::CNAME {
                domain: domain@,
                host: host@,
                ttl: *ttl,
            },
            DnsRecord::MX { domain, priority, host, ttl } => RecordModel::MX {
                domain: domain@,
                priority: *priority,
                host: host@,
                ttl: *ttl,
            },
            DnsRecord::AAAA { domain, ip_v6_addr, ttl } => RecordModel::AAAA {
                domain: domain@,
                ip_v6_addr: *ip_v6_addr,
                ttl: *ttl,
            },
            DnsRecord::UNKNOWN { domain, qtype, qclass, ttl, rdlength } => RecordModel::UNKNOWN {
                domain: domain@,
                qtype: *qtype,
                qclass: *qclass,
                ttl: *ttl,
                rdlength: *rdlength,
            },
        }
    }
}

impl DnsRecord {
    /// Read the record under the cursor and leave the cursor after it.
    pub fn read(buffer: &mut BytePacketBuffer) -> (r: Result<DnsRecord, DnsError>)
        requires
            old(buffer).wf(),
        ensures
            final(buffer).wf(),
            final(buffer).buf@ == old(buffer).buf@,
            match r {
                Ok(rec) => parse_record(old(buffer).buf@, old(buffer).pos as int) == Ok::<
                    (RecordModel, int),
                    DnsError,
                >((rec@, final(buffer).pos as int)),
                Err(e) => parse_record(old(buffer).buf@, old(buffer).pos as int) == Err::<
                    (RecordModel, int),
                    DnsError,
                >(e),
            },
    {
        let domain = buffer.read_name()?;
        let qtype_num = buffer.read_u16()?;
        let qclass_num = buffer.read_u16()?;
        let ttl = buffer.read_u32()?;
        let rdlength = buffer.read_u16()?;
        let qtype = QueryType::from_num(qtype_num);
        let qclass = QueryClass::from_num(qclass_num);

        match qtype {
            QueryType::A => {
                let o0 = buffer.read_u8()?;
                let o1 = buffer.read_u8()?;
                let o2 = buffer.read_u8()?;
                let o3 = buffer.read_u8()?;
                Ok(DnsRecord::A { domain, ip_v4_addr: Ipv4Addr { o0, o1, o2, o3 }, ttl })
            },
            QueryType::NS => {
                let host = buffer.read_name()?;
                Ok(DnsRecord::NS { domain, host, ttl })
            },
            QueryType::CNAME => {
                let host = buffer.read_name()?;
                Ok(DnsRecord::CNAME { domain, host, ttl })
            },
            QueryType::MX => {
                let priority = buffer.read_u16()?;
                let host = buffer.read_name()?;
                Ok(DnsRecord::MX { domain, priority, host, ttl })
            },
            QueryType::AAAA => {
                let s0 = buffer.read_u16()?;
                let s1 = buffer.read_u16()?;
                let s2 = buffer.read_u16()?;
                let s3 = buffer.read_u16()?;
                let s4 = buffer.read_u16()?;
                let s5 = buffer.read_u16()?;
                let s6 = buffer.read_u16()?;
                let s7 = buffer.read_u16()?;
                Ok(
                    DnsRecord::AAAA {
                        domain,
                        ip_v6_addr: Ipv6Addr { s0, s1, s2, s3, s4, s5, s6, s7 },
                        ttl,
                    },
                )
            },
            QueryType::UNKNOWN(_) => {
                buffer.step(rdlength as usize)?;
                Ok(DnsRecord::UNKNOWN { domain, qtype, qclass, ttl, rdlength })
            },
        }
    }

    /// Write the record under the cursor and give back the number of bytes
    /// it occupies.  Payloads holding a name are length-prefixed in two
    /// passes: a placeholder length is written, the name follows, and the
    /// true span is patched in at the placeholder's position.
    pub fn write(&self, buffer: &mut BytePacketBuffer) -> (r: Result<usize, DnsError>)
        requires
            old(buffer).wf(),
        ensures
            final(buffer).wf(),
            match r {
                Ok(n) => {
                    &&& record_encodable(self@)
                    &&& old(buffer).pos + record_wire(self@).len() <= 512
                    &&& n == record_wire(self@).len()
                    &&& final(buffer).pos == old(buffer).pos + n
                    &&& final(buffer).buf@ == splice(
                        old(buffer).buf@,
                        old(buffer).pos as int,
                        record_wire(self@),
                    )
                },
                Err(e) => {
                    &&& (e == DnsError::LabelTooLong || e == DnsError::Overflow)
                    &&& (e == DnsError::LabelTooLong ==> !record_encodable(self@))
                    &&& (e == DnsError::Overflow ==> old(buffer).pos + record_wire(self@).len()
                        > 512)
                    &&& final(buffer).pos >= old(buffer).pos
                },
            },
    {
        let start_pos = buffer.pos();
        match self {
            DnsRecord::A { domain, ip_v4_addr, ttl } => {
                proof {
                    crate::name::lemma_name_wire_len(domain@);
                }
                write_a_payload(buffer, domain, *ip_v4_addr, *ttl)?;
                Ok(buffer.pos() - start_pos)
            },
            DnsRecord::NS { domain, host, ttl } => {
                proof {
                    crate::name::lemma_name_wire_len(domain@);
                    crate::name::lemma_name_wire_len(host@);
                }
                write_host_payload(buffer, domain, 2, host, *ttl)?;
                Ok(buffer.pos() - start_pos)
            },
            DnsRecord::CNAME { domain, host, ttl } => {
                proof {
                    crate::name::lemma_name_wire_len(domain@);
                    crate::name::lemma_name_wire_len(host@);
                }
                write_host_payload(buffer, domain, 5, host, *ttl)?;
                Ok(buffer.pos() - start_pos)
            },
            DnsRecord::MX { domain, priority, host, ttl } => {
                proof {
                    crate::name::lemma_name_wire_len(domain@);
                    crate::name::lemma_name_wire_len(host@);
                }
                write_mx_payload(buffer, domain, *priority, host, *ttl)?;
                Ok(buffer.pos() - start_pos)
            },
            DnsRecord::AAAA { domain, ip_v6_addr, ttl } => {
                proof {
                    crate::name::lemma_name_wire_len(domain@);
                }
                write_aaaa_payload(buffer, domain, *ip_v6_addr, *ttl)?;
                Ok(buffer.pos() - start_pos)
            },
            DnsRecord::UNKNOWN { domain, qtype, qclass, ttl, rdlength } => {
                proof {
                    crate::name::lemma_name_wire_len(domain@);
                }
                write_unknown_payload(buffer, domain, *qtype, *qclass, *ttl, *rdlength)?;
                Ok(buffer.pos() - start_pos)
            },
        }
    }
}

/// Write an address record: class `IN`, a fixed payload length of 4, and
/// the four octets.
#[verifier::rlimit(60)]
fn write_a_payload(buffer: &mut BytePacketBuffer, domain: &String, ip: Ipv4Addr, ttl: u32) -> (r:
    Result<(), DnsError>)
    requires
        old(buffer).wf(),
    ensures
        final(buffer).wf(),
        ({
            let w = name_wire(domain@) + u16_be(1) + u16_be(1) + u32_be(ttl) + u16_be(4) + seq![
                ip.o0,
                ip.o1,
                ip.o2,
                ip.o3,
            ];
            match r {
                Ok(()) => {
                    &&& !has_long_label(domain@)
                    &&& old(buffer).pos + w.len() <= 512
                    &&& final(buffer).pos == old(buffer).pos + w.len()
                    &&& final(buffer).buf@ == splice(old(buffer).buf@, old(buffer).pos as int, w)
                },
                Err(e) => {
                    &&& (e == DnsError::LabelTooLong || e == DnsError::Overflow)
                    &&& (e == DnsError::LabelTooLong ==> has_long_label(domain@))
                    &&& (e == DnsError::Overflow ==> old(buffer).pos + w.len() > 512)
                    &&& final(buffer).pos >= old(buffer).pos
                },
            }
        }),
{
    let ghost b0 = buffer.buf@;
    let ghost p0 = buffer.pos as int;
    proof {
        crate::name::lemma_name_wire_len(domain@);
    }
    buffer.write_qname(domain)?;
    buffer.write_u16(1)?;
    buffer.write_u16(1)?;
    buffer.write_u32(ttl)?;
    buffer.write_u16(4)?;
    let v = (ip.o0 as u32) * 0x1000000 + (ip.o1 as u32) * 0x10000 + (ip.o2 as u32) * 256 + (
    ip.o3 as u32);
    buffer.write_u32(v)?;
    proof {
        crate::buffer::lemma_u32_of_be(ip.o0, ip.o1, ip.o2, ip.o3);
        let nw = name_wire(domain@);
        crate::buffer::lemma_splice_splice(b0, p0, nw, u16_be(1));
        crate::buffer::lemma_splice_splice(b0, p0, nw + u16_be(1), u16_be(1));
        crate::buffer::lemma_splice_splice(b0, p0, nw + u16_be(1) + u16_be(1), u32_be(ttl));
        crate::buffer::lemma_splice_splice(
            b0,
            p0,
            nw + u16_be(1) + u16_be(1) + u32_be(ttl),
            u16_be(4),
        );
        crate::buffer::lemma_splice_splice(
            b0,
            p0,
            nw + u16_be(1) + u16_be(1) + u32_be(ttl) + u16_be(4),
            u32_be(v),
        );
    }
    Ok(())
}

/// Write a record whose payload is one name, in two passes: a placeholder
/// length, the name, then the patch with the measured span.
#[verifier::rlimit(60)]
fn write_host_payload(
    buffer: &mut BytePacketBuffer,
    domain: &String,
    code: u16,
    host: &String,
    ttl: u32,
) -> (r: Result<(), DnsError>)
    requires
        old(buffer).wf(),
    ensures
        final(buffer).wf(),
        ({
            let w = host_record_wire(domain@, code, host@, ttl);
            match r {
                Ok(()) => {
                    &&& !has_long_label(domain@) && !has_long_label(host@)
                    &&& old(buffer).pos + w.len() <= 512
                    &&& final(buffer).pos == old(buffer).pos + w.len()
                    &&& final(buffer).buf@ == splice(old(buffer).buf@, old(buffer).pos as int, w)
                },
                Err(e) => {
                    &&& (e == DnsError::LabelTooLong || e == DnsError::Overflow)
                    &&& (e == DnsError::LabelTooLong ==> has_long_label(domain@) || has_long_label(
                        host@,
                    ))
                    &&& (e == DnsError::Overflow ==> old(buffer).pos + w.len() > 512)
                    &&& final(buffer).pos >= old(buffer).pos
                },
            }
        }),
{
    let ghost b0 = buffer.buf@;
    let ghost p0 = buffer.pos as int;
    proof {
        crate::name::lemma_name_wire_len(domain@);
        crate::name::lemma_name_wire_len(host@);
    }
    buffer.write_qname(domain)?;
    buffer.write_u16(code)?;
    buffer.write_u16(1)?;
    buffer.write_u32(ttl)?;

    let pos = buffer.pos();
    buffer.write_u16(0)?;
    buffer.write_qname(host)?;

    let size = buffer.pos() - (pos + 2);
    buffer.set_u16(pos, size as u16)?;
    proof {
        let nw = name_wire(domain@);
        let hw = name_wire(host@);
        let pre = nw + u16_be(code) + u16_be(1) + u32_be(ttl);
        crate::buffer::lemma_splice_splice(b0, p0, nw, u16_be(code));
        crate::buffer::lemma_splice_splice(b0, p0, nw + u16_be(code), u16_be(1));
        crate::buffer::lemma_splice_splice(b0, p0, nw + u16_be(code) + u16_be(1), u32_be(ttl));
        crate::buffer::lemma_splice_splice(b0, p0, pre, u16_be(0));
        crate::buffer::lemma_splice_splice(b0, p0, pre + u16_be(0), hw);
        assert(pre + u16_be(0) + hw =~= pre + (u16_be(0) + hw));
        crate::buffer::lemma_backpatch(b0, p0, pre, u16_be(0), u16_be(size as u16), hw);
        assert(host_record_wire(domain@, code, host@, ttl) =~= pre + u16_be(size as u16) + hw);
        assert(buffer.buf@ == splice(b0, p0, host_record_wire(domain@, code, host@, ttl)));
    }
    Ok(())
}

/// Write a mail-exchange record in two passes, its payload a priority and
/// a name.
#[verifier::rlimit(60)]
fn write_mx_payload(
    buffer: &mut BytePacketBuffer,
    domain: &String,
    priority: u16,
    host: &String,
    ttl: u32,
) -> (r: Result<(), DnsError>)
    requires
        old(buffer).wf(),
    ensures
        final(buffer).wf(),
        ({
            let w = mx_record_wire(domain@, priority, host@, ttl);
            match r {
                Ok(()) => {
                    &&& !has_long_label(domain@) && !has_long_label(host@)
                    &&& old(buffer).pos + w.len() <= 512
                    &&& final(buffer).pos == old(buffer).pos + w.len()
                    &&& final(buffer).buf@ == splice(old(buffer).buf@, old(buffer).pos as int, w)
                },
                Err(e) => {
                    &&& (e == DnsError::LabelTooLong || e == DnsError::Overflow)
                    &&& (e == DnsError::LabelTooLong ==> has_long_label(domain@) || has_long_label(
                        host@,
                    ))
                    &&& (e == DnsError::Overflow ==> old(buffer).pos + w.len() > 512)
                    &&& final(buffer).pos >= old(buffer).pos
                },
            }
        }),
{
    let ghost b0 = buffer.buf@;
    let ghost p0 = buffer.pos as int;
    proof {
        crate::name::lemma_name_wire_len(domain@);
        crate::name::lemma_name_wire_len(host@);
    }
    buffer.write_qname(domain)?;
    buffer.write_u16(15)?;
    buffer.write_u16(1)?;
    buffer.write_u32(ttl)?;

    let pos = buffer.pos();
    buffer.write_u16(0)?;
    buffer.write_u16(priority)?;
    buffer.write_qname(host)?;

    let size = buffer.pos() - (pos + 2);
    buffer.set_u16(pos, size as u16)?;
    proof {
        let nw = name_wire(domain@);
        let hw = name_wire(host@);
        let pre = nw + u16_be(15) + u16_be(1) + u32_be(ttl);
        crate::buffer::lemma_splice_splice(b0, p0, nw, u16_be(15));
        crate::buffer::lemma_splice_splice(b0, p0, nw + u16_be(15), u16_be(1));
        crate::buffer::lemma_splice_splice(b0, p0, nw + u16_be(15) + u16_be(1), u32_be(ttl));
        crate::buffer::lemma_splice_splice(b0, p0, pre, u16_be(0));
        crate::buffer::lemma_splice_splice(b0, p0, pre + u16_be(0), u16_be(priority));
        crate::buffer::lemma_splice_splice(b0, p0, pre + u16_be(0) + u16_be(priority), hw);
        assert(pre + u16_be(0) + u16_be(priority) + hw =~= pre + (u16_be(0) + (u16_be(priority)
            + hw)));
        crate::buffer::lemma_backpatch(
            b0,
            p0,
            pre,
            u16_be(0),
            u16_be(size as u16),
            u16_be(priority) + hw,
        );
        assert(mx_record_wire(domain@, priority, host@, ttl) =~= pre + u16_be(size as u16) + (
        u16_be(priority) + hw));
        assert(buffer.buf@ == splice(
            b0,
            p0,
            mx_record_wire(domain@, priority, host@, ttl),
        ));
    }
    Ok(())
}

/// Write an IPv6 address record: class `IN`, a fixed payload length of 16,
/// and the eight segments.
#[verifier::rlimit(80)]
fn write_aaaa_payload(buffer: &mut BytePacketBuffer, domain: &String, ip: Ipv6Addr, ttl: u32) -> (r:
    Result<(), DnsError>)
    requires
        old(buffer).wf(),
    ensures
        final(buffer).wf(),
        ({
            let w = name_wire(domain@) + u16_be(28) + u16_be(1) + u32_be(ttl) + u16_be(16) + u16_be(
                ip.s0,
            ) + u16_be(ip.s1) + u16_be(ip.s2) + u16_be(ip.s3) + u16_be(ip.s4) + u16_be(ip.s5)
                + u16_be(ip.s6) + u16_be(ip.s7);
            match r {
                Ok(()) => {
                    &&& !has_long_label(domain@)
                    &&& old(buffer).pos + w.len() <= 512
                    &&& final(buffer).pos == old(buffer).pos + w.len()
                    &&& final(buffer).buf@ == splice(old(buffer).buf@, old(buffer).pos as int, w)
                },
                Err(e) => {
                    &&& (e == DnsError::LabelTooLong || e == DnsError::Overflow)
                    &&& (e == DnsError::LabelTooLong ==> has_long_label(domain@))
                    &&& (e == DnsError::Overflow ==> old(buffer).pos + w.len() > 512)
                    &&& final(buffer).pos >= old(buffer).pos
                },
            }
        }),
{
    let ghost b0 = buffer.buf@;
    let ghost p0 = buffer.pos as int;
    proof {
        crate::name::lemma_name_wire_len(domain@);
    }
    buffer.write_qname(domain)?;
    buffer.write_u16(28)?;
    buffer.write_u16(1)?;
    buffer.write_u32(ttl)?;
    buffer.write_u16(16)?;
    buffer.write_u16(ip.s0)?;
    buffer.write_u16(ip.s1)?;
    buffer.write_u16(ip.s2)?;
    buffer.write_u16(ip.s3)?;
    buffer.write_u16(ip.s4)?;
    buffer.write_u16(ip.s5)?;
    buffer.write_u16(ip.s6)?;
    buffer.write_u16(ip.s7)?;
    proof {
        let nw = name_wire(domain@);
        let w0 = nw + u16_be(28);
        let w1 = w0 + u16_be(1);
        let w2 = w1 + u32_be(ttl);
        let w3 = w2 + u16_be(16);
        let w4 = w3 + u16_be(ip.s0);
        let w5 = w4 + u16_be(ip.s1);
        let w6 = w5 + u16_be(ip.s2);
        let w7 = w6 + u16_be(ip.s3);
        let w8 = w7 + u16_be(ip.s4);
        let w9 = w8 + u16_be(ip.s5);
        let w10 = w9 + u16_be(ip.s6);
        crate::buffer::lemma_splice_splice(b0, p0, nw, u16_be(28));
        crate::buffer::lemma_splice_splice(b0, p0, w0, u16_be(1));
        crate::buffer::lemma_splice_splice(b0, p0, w1, u32_be(ttl));
        crate::buffer::lemma_splice_splice(b0, p0, w2, u16_be(16));
        crate::buffer::lemma_splice_splice(b0, p0, w3, u16_be(ip.s0));
        crate::buffer::lemma_splice_splice(b0, p0, w4, u16_be(ip.s1));
        crate::buffer::lemma_splice_splice(b0, p0, w5, u16_be(ip.s2));
        crate::buffer::lemma_splice_splice(b0, p0, w6, u16_be(ip.s3));
        crate::buffer::lemma_splice_splice(b0, p0, w7, u16_be(ip.s4));
        crate::buffer::lemma_splice_splice(b0, p0, w8, u16_be(ip.s5));
        crate::buffer::lemma_splice_splice(b0, p0, w9, u16_be(ip.s6));
        crate::buffer::lemma_splice_splice(b0, p0, w10, u16_be(ip.s7));
    }
    Ok(())
}

/// Write a record of unrecognized type: its raw codes, time to live and
/// payload length, with no payload bytes.
#[verifier::rlimit(60)]
fn write_unknown_payload(
    buffer: &mut BytePacketBuffer,
    domain: &String,
    qtype: QueryType,
    qclass: QueryClass,
    ttl: u32,
    rdlength: u16,
) -> (r: Result<(), DnsError>)
    requires
        old(buffer).wf(),
    ensures
        final(buffer).wf(),
        ({
            let w = name_wire(domain@) + u16_be(qtype.spec_num()) + u16_be(qclass.spec_num())
                + u32_be(ttl) + u16_be(rdlength);
            match r {
                Ok(()) => {
                    &&& !has_long_label(domain@)
                    &&& old(buffer).pos + w.len() <= 512
                    &&& final(buffer).pos == old(buffer).pos + w.len()
                    &&& final(buffer).buf@ == splice(old(buffer).buf@, old(buffer).pos as int, w)
                },
                Err(e) => {
                    &&& (e == DnsError::LabelTooLong || e == DnsError::Overflow)
                    &&& (e == DnsError::LabelTooLong ==> has_long_label(domain@))
                    &&& (e == DnsError::Overflow ==> old(buffer).pos + w.len() > 512)
                    &&& final(buffer).pos >= old(buffer).pos
                },
            }
        }),
{
    let ghost b0 = buffer.buf@;
    let ghost p0 = buffer.pos as int;
    proof {
        crate::name::lemma_name_wire_len(domain@);
    }
    buffer.write_qname(domain)?;
    buffer.write_u16(qtype.to_num())?;
    buffer.write_u16(qclass.to_num())?;
    buffer.write_u32(ttl)?;
    buffer.write_u16(rdlength)?;
    proof {
        let nw = name_wire(domain@);
        let qt = u16_be(qtype.spec_num());
        let qc = u16_be(qclass.spec_num());
        crate::buffer::lemma_splice_splice(b0, p0, nw, qt);
        crate::buffer::lemma_splice_splice(b0, p0, nw + qt, qc);
        crate::buffer::lemma_splice_splice(b0, p0, nw + qt + qc, u32_be(ttl));
        crate::buffer::lemma_splice_splice(b0, p0, nw + qt + qc + u32_be(ttl), u16_be(rdlength));
    }
    Ok(())
}

} // verus!
