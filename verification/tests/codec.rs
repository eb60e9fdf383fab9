use dns_codec::{
    BytePacketBuffer, DnsError, DnsHeader, DnsPacket, DnsQuestion, DnsRecord, QueryClass,
    QueryType, ResultCode,
};
use dns_codec::record::{Ipv4Addr, Ipv6Addr};

fn write_name(buffer: &mut BytePacketBuffer, labels: &[&str]) {
    for label in labels {
        buffer.write_u8(label.len() as u8).unwrap();
        for b in label.bytes() {
            buffer.write_u8(b).unwrap();
        }
    }
    buffer.write_u8(0).unwrap();
}

#[test]
fn cursor_reads_back_written_scalars() {
    let mut buffer = BytePacketBuffer::new();
    buffer.write_u8(0xAB).unwrap();
    buffer.write_u16(0x1234).unwrap();
    buffer.write_u32(0xDEADBEEF).unwrap();
    assert_eq!(buffer.pos(), 7);
    buffer.seek(0).unwrap();
    assert_eq!(buffer.read_u8().unwrap(), 0xAB);
    assert_eq!(buffer.read_u16().unwrap(), 0x1234);
    assert_eq!(buffer.read_u32().unwrap(), 0xDEADBEEF);
}

#[test]
fn cursor_overflow_conditions() {
    let mut buffer = BytePacketBuffer::new();
    buffer.seek(512).unwrap();
    assert_eq!(buffer.read_u8(), Err(DnsError::Overflow));
    assert_eq!(buffer.write_u8(1), Err(DnsError::Overflow));
    assert_eq!(buffer.seek(513), Err(DnsError::Overflow));
    assert_eq!(buffer.step(1), Err(DnsError::Overflow));
    assert_eq!(buffer.get(512), Err(DnsError::Overflow));
    assert_eq!(buffer.get_range(510, 3), Err(DnsError::Overflow));
    buffer.seek(511).unwrap();
    assert_eq!(buffer.read_u16(), Err(DnsError::Overflow));
    assert_eq!(buffer.read_u32(), Err(DnsError::Overflow));
    assert_eq!(buffer.set_u16(511, 7), Err(DnsError::Overflow));
}

#[test]
fn set_u16_back_patches_without_moving_cursor() {
    let mut buffer = BytePacketBuffer::new();
    buffer.write_u32(0).unwrap();
    buffer.set_u16(1, 0x0A0B).unwrap();
    assert_eq!(buffer.pos(), 4);
    assert_eq!(buffer.get(1).unwrap(), 0x0A);
    assert_eq!(buffer.get(2).unwrap(), 0x0B);
}

#[test]
fn type_codes_round_trip() {
    for code in [1u16, 2, 5, 15, 28] {
        assert_eq!(QueryType::from_num(code).to_num(), code);
    }
    assert_eq!(QueryType::from_num(1), QueryType::A);
    assert_eq!(QueryType::from_num(2), QueryType::NS);
    assert_eq!(QueryType::from_num(5), QueryType::CNAME);
    assert_eq!(QueryType::from_num(15), QueryType::MX);
    assert_eq!(QueryType::from_num(28), QueryType::AAAA);
    // every unrecognized code keeps its exact numeric value
    for code in [0u16, 3, 4, 16, 255, 999, 65535] {
        assert_eq!(QueryType::from_num(code), QueryType::UNKNOWN(code));
        assert_eq!(QueryType::from_num(code).to_num(), code);
    }
}

#[test]
fn class_codes_round_trip() {
    for code in [1u16, 3, 4, 255] {
        assert_eq!(QueryClass::from_num(code).to_num(), code);
    }
    assert_eq!(QueryClass::from_num(1), QueryClass::IN);
    for code in [0u16, 2, 5, 254, 40000] {
        assert_eq!(QueryClass::from_num(code), QueryClass::UNKNOWN(code));
        assert_eq!(QueryClass::from_num(code).to_num(), code);
    }
}

#[test]
fn result_codes_round_trip() {
    for code in 0u8..16 {
        assert_eq!(ResultCode::from_num(code).to_num(), code);
    }
    assert_eq!(ResultCode::from_num(0), ResultCode::NOERROR);
    assert_eq!(ResultCode::from_num(1), ResultCode::FORMERR);
    assert_eq!(ResultCode::from_num(2), ResultCode::SERVFAIL);
    assert_eq!(ResultCode::from_num(3), ResultCode::NXDOMAIN);
    assert_eq!(ResultCode::from_num(9), ResultCode::UNKNOWN(9));
}

#[test]
fn header_flags_round_trip_all_sixteen_combinations() {
    for mask in 0u16..16 {
        let mut header = DnsHeader::new();
        header.id = 0x7777;
        header.is_response = mask & 1 != 0;
        header.authoritative_answer = mask & 2 != 0;
        header.truncated_message = mask & 4 != 0;
        header.recursion_desired = mask & 8 != 0;
        header.recursion_available = mask & 1 != 0;
        header.opcode = (mask % 16) as u8;
        header.z = (mask % 8) as u8;
        header.result_code = ResultCode::from_num((mask % 16) as u8);
        header.questions_count = mask;
        header.answers_count = 2 * mask;
        header.authority_records_count = 3 * mask;
        header.additional_records_count = 4 * mask;

        let mut buffer = BytePacketBuffer::new();
        header.write(&mut buffer).unwrap();
        assert_eq!(buffer.pos(), 12);
        buffer.seek(0).unwrap();
        let mut decoded = DnsHeader::new();
        decoded.read(&mut buffer).unwrap();
        assert_eq!(decoded, header);
    }
}

#[test]
fn name_decode_lowercases_and_joins_labels() {
    let mut buffer = BytePacketBuffer::new();
    write_name(&mut buffer, &["ExAmPle", "COM"]);
    buffer.seek(0).unwrap();
    let name = buffer.read_name().unwrap();
    assert_eq!(name, "example.com");
    assert_eq!(buffer.pos(), 13);
}

#[test]
fn name_decode_follows_compression_pointer() {
    let mut buffer = BytePacketBuffer::new();
    write_name(&mut buffer, &["example", "com"]);
    buffer.seek(40).unwrap();
    // a label then a pointer back to the name at offset 0
    buffer.write_u8(3).unwrap();
    for b in "www".bytes() {
        buffer.write_u8(b).unwrap();
    }
    buffer.write_u8(0xC0).unwrap();
    buffer.write_u8(0).unwrap();
    buffer.seek(40).unwrap();
    let name = buffer.read_name().unwrap();
    assert_eq!(name, "www.example.com");
    // the cursor lands right after the first pointer
    assert_eq!(buffer.pos(), 46);
}

#[test]
fn name_decode_five_jumps_succeed_six_fail() {
    // a chain of pointers, each hop 10 bytes apart, ending at a real name
    let mut buffer = BytePacketBuffer::new();
    for hop in 0..6 {
        let at = 100 + 10 * hop;
        let target = (at + 10) as u16;
        buffer.buf[at] = 0xC0 | (target >> 8) as u8;
        buffer.buf[at + 1] = (target & 0xFF) as u8;
    }
    buffer.buf[160] = 1;
    buffer.buf[161] = b'a';
    buffer.buf[162] = 0;

    // reading at 110 crosses five pointers: allowed
    buffer.seek(110).unwrap();
    assert_eq!(buffer.read_name().unwrap(), "a");
    assert_eq!(buffer.pos(), 112);

    // reading at 100 crosses six: the compression loop guard fires
    buffer.seek(100).unwrap();
    assert_eq!(buffer.read_name(), Err(DnsError::CompressionLoop));
}

#[test]
fn qname_label_length_limit() {
    let long_label: String = "a".repeat(64);
    let mut buffer = BytePacketBuffer::new();
    assert_eq!(buffer.write_qname(&long_label), Err(DnsError::LabelTooLong));

    let max_label: String = "a".repeat(63);
    let mut buffer = BytePacketBuffer::new();
    buffer.write_qname(&max_label).unwrap();
    assert_eq!(buffer.pos(), 65);
    buffer.seek(0).unwrap();
    assert_eq!(buffer.read_name().unwrap(), max_label);
}

#[test]
fn question_round_trips() {
    let question = DnsQuestion::new("example.com".to_string(), QueryType::MX, QueryClass::CH);
    let mut buffer = BytePacketBuffer::new();
    question.write(&mut buffer).unwrap();
    buffer.seek(0).unwrap();
    let mut decoded = DnsQuestion::new(String::new(), QueryType::UNKNOWN(0), QueryClass::UNKNOWN(0));
    decoded.read(&mut buffer).unwrap();
    assert_eq!(decoded, question);
}

#[test]
fn record_round_trips_every_variant() {
    let records = vec![
        DnsRecord::A {
            domain: "a.example".to_string(),
            ip_v4_addr: Ipv4Addr::new(10, 0, 0, 1),
            ttl: 60,
        },
        DnsRecord::NS {
            domain: "example".to_string(),
            host: "ns1.example".to_string(),
            ttl: 120,
        },
        DnsRecord::CNAME {
            domain: "www.example".to_string(),
            host: "example".to_string(),
            ttl: 180,
        },
        DnsRecord::MX {
            domain: "example".to_string(),
            priority: 10,
            host: "mail.example".to_string(),
            ttl: 240,
        },
        DnsRecord::AAAA {
            domain: "example".to_string(),
            ip_v6_addr: Ipv6Addr::new(0x2001, 0xdb8, 0, 0, 0, 0, 0, 1),
            ttl: 300,
        },
        DnsRecord::UNKNOWN {
            domain: "example".to_string(),
            qtype: QueryType::UNKNOWN(200),
            qclass: QueryClass::CH,
            ttl: 360,
            rdlength: 0,
        },
    ];
    for record in &records {
        let mut buffer = BytePacketBuffer::new();
        let written = record.write(&mut buffer).unwrap();
        assert_eq!(written, buffer.pos());
        buffer.seek(0).unwrap();
        let decoded = DnsRecord::read(&mut buffer).unwrap();
        assert_eq!(&decoded, record);
        assert_eq!(buffer.pos(), written);
    }
}

#[test]
fn cname_and_aaaa_write_their_own_type_codes() {
    let record = DnsRecord::CNAME {
        domain: "x".to_string(),
        host: "y".to_string(),
        ttl: 1,
    };
    let mut buffer = BytePacketBuffer::new();
    record.write(&mut buffer).unwrap();
    // name "x" occupies 3 bytes; the type code follows
    assert_eq!(buffer.get(3).unwrap(), 0);
    assert_eq!(buffer.get(4).unwrap(), 5);

    let record = DnsRecord::AAAA {
        domain: "x".to_string(),
        ip_v6_addr: Ipv6Addr::new(0, 0, 0, 0, 0, 0, 0, 1),
        ttl: 1,
    };
    let mut buffer = BytePacketBuffer::new();
    record.write(&mut buffer).unwrap();
    assert_eq!(buffer.get(3).unwrap(), 0);
    assert_eq!(buffer.get(4).unwrap(), 28);
}

#[test]
fn unknown_record_skips_payload_on_decode() {
    let mut buffer = BytePacketBuffer::new();
    write_name(&mut buffer, &["x"]);
    buffer.write_u16(200).unwrap(); // unrecognized type
    buffer.write_u16(1).unwrap();
    buffer.write_u32(99).unwrap();
    buffer.write_u16(4).unwrap(); // rdlength
    buffer.write_u32(0xAABBCCDD).unwrap(); // skipped payload
    let end = buffer.pos();
    buffer.seek(0).unwrap();
    let decoded = DnsRecord::read(&mut buffer).unwrap();
    assert_eq!(
        decoded,
        DnsRecord::UNKNOWN {
            domain: "x".to_string(),
            qtype: QueryType::UNKNOWN(200),
            qclass: QueryClass::IN,
            ttl: 99,
            rdlength: 4,
        }
    );
    assert_eq!(buffer.pos(), end);
}

#[test]
fn message_encode_decode_reproduces_bytes() {
    // a full compression-free message: encode, decode, encode again, and
    // the bytes come back identical
    let mut packet = DnsPacket::new();
    packet.header.id = 0x4242;
    packet.header.is_response = true;
    packet.header.recursion_desired = true;
    packet.header.recursion_available = true;
    packet.questions.push(DnsQuestion::new(
        "example.com".to_string(),
        QueryType::A,
        QueryClass::IN,
    ));
    packet.answers.push(DnsRecord::A {
        domain: "example.com".to_string(),
        ip_v4_addr: Ipv4Addr::new(93, 184, 216, 34),
        ttl: 300,
    });
    packet.authorities.push(DnsRecord::NS {
        domain: "com".to_string(),
        host: "ns1.example.com".to_string(),
        ttl: 600,
    });
    packet.additionals.push(DnsRecord::UNKNOWN {
        domain: "meta.example".to_string(),
        qtype: QueryType::UNKNOWN(333),
        qclass: QueryClass::HS,
        ttl: 9,
        rdlength: 0,
    });
    packet.header.questions_count = 1;
    packet.header.answers_count = 1;
    packet.header.authority_records_count = 1;
    packet.header.additional_records_count = 1;

    let mut first = BytePacketBuffer::new();
    packet.to_buffer(&mut first).unwrap();
    let len = first.pos();

    first.seek(0).unwrap();
    let decoded = DnsPacket::from_buffer(&mut first).unwrap();
    assert_eq!(first.pos(), len);
    assert_eq!(decoded, packet);

    let mut second = BytePacketBuffer::new();
    let mut decoded = decoded;
    decoded.to_buffer(&mut second).unwrap();
    assert_eq!(second.pos(), len);
    assert_eq!(first.buf, second.buf);
}

#[test]
fn hand_built_buffer_decodes_one_a_answer() {
    let mut buffer = BytePacketBuffer::new();
    let bytes: [u8; 56] = [
        0x12, 0x34, // id
        0x81, 0x80, // flags: response, recursion desired and available
        0, 1, // one question
        0, 1, // one answer
        0, 0, // no authority records
        0, 0, // no additional records
        7, b'e', b'x', b'a', b'm', b'p', b'l', b'e', 3, b'c', b'o', b'm', 0, // example.com
        0, 1, // type A
        0, 1, // class IN
        7, b'e', b'x', b'a', b'm', b'p', b'l', b'e', 3, b'c', b'o', b'm', 0, // example.com
        0, 1, // type A
        0, 1, // class IN
        0, 0, 1, 0x2C, // ttl 300
        0, 4, // rdlength
        93, 184, 216, 34, // the address
    ];
    buffer.buf[..56].copy_from_slice(&bytes);

    let packet = DnsPacket::from_buffer(&mut buffer).unwrap();
    assert_eq!(packet.header.id, 0x1234);
    assert_eq!(packet.questions.len(), 1);
    assert_eq!(packet.questions[0].name, "example.com");
    assert_eq!(packet.questions[0].qtype, QueryType::A);
    assert_eq!(packet.answers.len(), 1);
    assert_eq!(
        packet.answers[0],
        DnsRecord::A {
            domain: "example.com".to_string(),
            ip_v4_addr: Ipv4Addr::new(93, 184, 216, 34),
            ttl: 300,
        }
    );
}

#[test]
fn error_messages_name_each_condition() {
    assert!(DnsError::Overflow.message().contains("overflow"));
    assert!(DnsError::CompressionLoop.message().contains("jump"));
    assert!(DnsError::LabelTooLong.message().contains("63"));
    assert!(DnsError::Transport.message().contains("transport"));
}
