use bytes::BytesMut;
use dns_responder::dns_hdr::{Answer, DNSHdr, Flags, OpCode, Query, RCode, RRClass, RRType};
use dns_responder::error::Error;
use dns_responder::name::{check_name, parse_labels};
use std::collections::HashMap;

const DNS_HDR_SIZE: usize = 12;

fn no_flags() -> Flags {
    Flags { qr: 0, opcode: 0, aa: 0, tc: 0, rd: 0, ra: 0, rcode: 0 }
}

fn labels(parts: &[&str]) -> Vec<Vec<u8>> {
    parts.iter().map(|p| p.as_bytes().to_vec()).collect()
}

#[test]
fn test_encoding() {
    let flags = Flags { qr: 1, opcode: 0, aa: 0, tc: 0, rd: 0, ra: 0, rcode: 0 };
    let answer = DNSHdr::new(12345, flags, vec![], vec![]);

    assert_eq!(answer.id, 12345);
    assert_eq!(answer.flags.qr, 1);

    let bytes = answer.to_bytes().unwrap();
    println!("{bytes:?}");
}

#[test]
fn test_query_decode() {
    let buf: &[u8] = &[
        250, 252, 1, 32, 0, 1, 0, 0, 0, 0, 0, 0, 12, 99, 111, 100, 101, 99, 114, 97, 102, 116,
        101, 114, 115, 3, 105, 111, 120, 0, 0, 1, 0, 1,
    ];

    println!("{buf:?}");

    let (_, qs) = Query::from_bytes(&buf[DNS_HDR_SIZE..], 1, &buf).unwrap();

    let q = qs.iter().next().unwrap();

    assert_eq!(q.qclass, RRClass::IN.code());
    assert_eq!(q.qtype, RRType::A.code());
}

#[test]
fn test_query_decode_compressed() {
    let buf = &[
        212, 158, 1, 0, 0, 2, 0, 0, 0, 0, 0, 0, 3, 97, 98, 99, 17, 108, 111, 110, 103, 97, 115,
        115, 100, 111, 109, 97, 105, 110, 110, 97, 109, 101, 3, 99, 111, 109, 0, 0, 1, 0, 1, 3,
        100, 101, 102, 192, 16, 0, 1, 0, 1,
    ];

    let (_, qs) = Query::from_bytes(&buf[DNS_HDR_SIZE..], 2, buf).unwrap();

    let q = qs.iter().skip(1).next().unwrap();
    println!("{q:?}");

    assert_eq!(q.qclass, RRClass::IN.code());
    assert_eq!(q.qtype, RRType::A.code());
}

#[test]
fn test_answer_encode() {
    let rr_db: HashMap<String, (u32, [u8; 4])> =
        HashMap::from([("google.com".to_string(), (60, [192, 168, 10, 10]))]);
    let domain = "google.com";

    let (ttl, data) = rr_db[domain];

    let answer = Answer::new(vec![vec![0x03, 10, 20, 30, 0x0]], RRType::A, RRClass::IN, ttl, &data);
    let mut buf = BytesMut::new();
    answer.to_bytes(&mut buf).unwrap();

    println!("{answer:?} -> {buf:?}");
}

#[test]
fn header_of_an_empty_response_is_twelve_bytes() {
    let flags = Flags { qr: 1, opcode: 0, aa: 0, tc: 0, rd: 0, ra: 0, rcode: 0 };
    let bytes = DNSHdr::new(12345, flags, vec![], vec![]).to_bytes().unwrap();
    assert_eq!(
        &bytes[..],
        &[0x30, 0x39, 0x80, 0x00, 0x00, 0x00, 0x00, 0x00, 0x00, 0x00, 0x00, 0x00]
    );
}

#[test]
fn header_counts_follow_the_sections() {
    let q = Query { name: labels(&["a"]), qtype: 1, qclass: 1 };
    let a = Answer::new(labels(&["a"]), RRType::A, RRClass::IN, 1, &[9, 9, 9, 9]);
    let m = DNSHdr::new(0x0102, no_flags(), vec![q.clone(), q], vec![a]);
    let bytes = m.to_bytes().unwrap();
    assert_eq!(&bytes[..12], &[1, 2, 0, 0, 0, 2, 0, 1, 0, 0, 0, 0]);
}

#[test]
fn pointer_splices_in_the_suffix() {
    let buf = &[
        212, 158, 1, 0, 0, 2, 0, 0, 0, 0, 0, 0, 3, 97, 98, 99, 17, 108, 111, 110, 103, 97, 115,
        115, 100, 111, 109, 97, 105, 110, 110, 97, 109, 101, 3, 99, 111, 109, 0, 0, 1, 0, 1, 3,
        100, 101, 102, 192, 16, 0, 1, 0, 1,
    ];
    let (rest, qs) = Query::from_bytes(&buf[DNS_HDR_SIZE..], 2, buf).unwrap();
    assert!(rest.is_empty());
    assert_eq!(qs.len(), 2);
    assert_eq!(qs[0].name, labels(&["abc", "longassdomainname", "com"]));
    assert_eq!(qs[1].name, labels(&["def", "longassdomainname", "com"]));
    assert_eq!(qs[1].domain(), "def.longassdomainname.com");
}

#[test]
fn pointer_to_the_start_of_a_name_gives_the_whole_name() {
    let mut buf = vec![0u8; 12];
    buf.extend_from_slice(&[3, b'a', b'b', b'c', 3, b'c', b'o', b'm', 0]);
    buf.extend_from_slice(&[3, b'd', b'e', b'f', 192, 12, 0xaa]);
    let (rest, first) = parse_labels(&buf[12..], &buf).unwrap();
    assert_eq!(first, labels(&["abc", "com"]));
    assert_eq!(rest.len(), 7);
    let (rest, second) = parse_labels(rest, &buf).unwrap();
    assert_eq!(second, labels(&["def", "abc", "com"]));
    assert_eq!(rest, &[0xaa]);
}

#[test]
fn pointer_uses_all_fourteen_bits() {
    let mut pkt = vec![0u8; 0x1234];
    pkt.extend_from_slice(&[1, b'x', 0]);
    let (rest, name) = parse_labels(&[1, b'y', 0xd2, 0x34, 7], &pkt).unwrap();
    assert_eq!(name, labels(&["y", "x"]));
    assert_eq!(rest, &[7]);
}

#[test]
fn pointer_cycle_is_refused() {
    let mut buf = vec![0u8; 12];
    buf.extend_from_slice(&[192, 14, 192, 12]);
    assert_eq!(parse_labels(&buf[12..], &buf), Err(Error::PointerCycle));
    assert_eq!(parse_labels(&buf[14..], &buf), Err(Error::PointerCycle));
    assert_eq!(Query::from_bytes(&buf[12..], 1, &buf), Err(Error::PointerCycle));
}

#[test]
fn pointer_to_itself_is_refused() {
    let mut buf = vec![0u8; 12];
    buf.extend_from_slice(&[192, 12]);
    assert_eq!(parse_labels(&buf[12..], &buf), Err(Error::PointerCycle));
}

#[test]
fn a_chain_of_pointers_must_move_backwards() {
    // 0: "a" end; 3: pointer to 0; 5: pointer to 3; 7: pointer to 5
    let pkt = [1, b'a', 0, 192, 0, 192, 3, 192, 5];
    let (_, name) = parse_labels(&pkt[7..], &pkt).unwrap();
    assert_eq!(name, labels(&["a"]));
    // 0: pointer to 4; 2: "b" end (unused); 4: pointer to 6; 6: "c" end
    let pkt = [192, 4, 0, 0, 192, 6, 1, b'c', 0];
    assert_eq!(parse_labels(&pkt, &pkt), Err(Error::PointerCycle));
}

#[test]
fn pointer_past_the_end_is_refused() {
    let mut buf = vec![0u8; 12];
    buf.extend_from_slice(&[192, 14]);
    assert_eq!(parse_labels(&buf[12..], &buf), Err(Error::PointerOutOfRange));
    buf.extend_from_slice(&[0xff, 0xff]);
    assert_eq!(parse_labels(&buf[14..], &buf), Err(Error::PointerOutOfRange));
}

#[test]
fn malformed_length_bytes_are_refused() {
    let pkt = [0u8; 70];
    assert_eq!(parse_labels(&[0x40, 0], &pkt), Err(Error::InvalidLabelLength));
    assert_eq!(parse_labels(&[0x7f, 0], &pkt), Err(Error::InvalidLabelLength));
    assert_eq!(parse_labels(&[0x80, 0], &pkt), Err(Error::InvalidLabelLength));
    assert_eq!(parse_labels(&[0xbf, 0], &pkt), Err(Error::InvalidLabelLength));
}

#[test]
fn a_label_of_sixty_three_bytes_is_read() {
    let mut buf = vec![63u8];
    buf.extend_from_slice(&[b'z'; 63]);
    buf.push(0);
    let (rest, name) = parse_labels(&buf, &buf).unwrap();
    assert!(rest.is_empty());
    assert_eq!(name, vec![vec![b'z'; 63]]);
}

#[test]
fn truncated_names_are_refused() {
    let pkt = [0u8; 4];
    assert_eq!(parse_labels(&[], &pkt), Err(Error::TruncatedInput));
    assert_eq!(parse_labels(&[3, b'a', b'b'], &pkt), Err(Error::TruncatedInput));
    assert_eq!(parse_labels(&[3, b'a', b'b', b'c'], &pkt), Err(Error::TruncatedInput));
    assert_eq!(parse_labels(&[192], &pkt), Err(Error::TruncatedInput));
}

#[test]
fn a_name_of_more_than_255_bytes_is_refused_when_read() {
    // four labels of 63 bytes take 256 bytes; with the end byte 257
    let mut buf = Vec::new();
    for _ in 0..4 {
        buf.push(63u8);
        buf.extend_from_slice(&[b'a'; 63]);
    }
    buf.push(0);
    assert_eq!(parse_labels(&buf, &buf), Err(Error::NameTooLong));
    // 63 + 63 + 63 + 61 bytes of labels, four length bytes, the end byte: 255
    let mut buf = Vec::new();
    for _ in 0..3 {
        buf.push(63u8);
        buf.extend_from_slice(&[b'a'; 63]);
    }
    buf.push(61u8);
    buf.extend_from_slice(&[b'a'; 61]);
    buf.push(0);
    assert_eq!(buf.len(), 255);
    let (_, name) = parse_labels(&buf, &buf).unwrap();
    assert_eq!(name.len(), 4);
    assert_eq!(check_name(&name), Ok(()));
}

#[test]
fn names_that_cannot_be_written_are_refused() {
    assert_eq!(check_name(&vec![]), Ok(()));
    assert_eq!(check_name(&labels(&["www", "example", "com"])), Ok(()));
    assert_eq!(check_name(&vec![vec![b'a'; 63]]), Ok(()));
    assert_eq!(check_name(&vec![vec![]]), Err(Error::InvalidLabelLength));
    assert_eq!(check_name(&vec![vec![b'a'; 64]]), Err(Error::InvalidLabelLength));
    assert_eq!(check_name(&vec![vec![b'a'; 63]; 4]), Err(Error::NameTooLong));
    // an invalid label is reported before the length of the whole
    let mut name = vec![vec![b'a'; 63]; 4];
    name.push(vec![]);
    assert_eq!(check_name(&name), Err(Error::InvalidLabelLength));

    let mut buf = BytesMut::new();
    buf.extend_from_slice(&[7]);
    let q = Query { name: vec![vec![]], qtype: 1, qclass: 1 };
    assert_eq!(q.to_bytes(&mut buf), Err(Error::InvalidLabelLength));
    assert_eq!(&buf[..], &[7]);
    let q = Query { name: vec![vec![b'a'; 63]; 4], qtype: 1, qclass: 1 };
    assert_eq!(q.to_bytes(&mut buf), Err(Error::NameTooLong));
    assert_eq!(&buf[..], &[7]);
    let m = DNSHdr::new(1, no_flags(), vec![q], vec![]);
    assert_eq!(m.to_bytes(), Err(Error::NameTooLong));
}

#[test]
fn question_is_written_uncompressed() {
    let q = Query { name: labels(&["codecrafters", "io"]), qtype: 1, qclass: 0x0203 };
    let mut buf = BytesMut::new();
    buf.extend_from_slice(&[0xee]);
    assert_eq!(q.to_bytes(&mut buf), Ok(()));
    assert_eq!(
        &buf[..],
        &[
            0xee, 12, 99, 111, 100, 101, 99, 114, 97, 102, 116, 101, 114, 115, 2, 105, 111, 0, 0,
            1, 2, 3
        ]
    );
}

#[test]
fn record_is_written_with_length_prefixed_data() {
    let answer = Answer::new(vec![vec![0x03, 10, 20, 30, 0x0]], RRType::A, RRClass::IN, 60, &[192, 168, 10, 10]);
    assert_eq!(answer.qtype, 1);
    assert_eq!(answer.qclass, 1);
    assert_eq!(answer.ttl, 60);
    assert_eq!(answer.rddata, vec![192, 168, 10, 10]);
    let mut buf = BytesMut::new();
    assert_eq!(answer.to_bytes(&mut buf), Ok(()));
    assert_eq!(
        &buf[..],
        &[5, 0x03, 10, 20, 30, 0x0, 0, 0, 1, 0, 1, 0, 0, 0, 60, 0, 4, 192, 168, 10, 10]
    );

    let wide = Answer {
        name: labels(&["x"]),
        qtype: 0x1011,
        qclass: 0x1213,
        ttl: 0x01020304,
        rddata: vec![0xab; 0x0102],
    };
    let mut buf = BytesMut::new();
    assert_eq!(wide.to_bytes(&mut buf), Ok(()));
    assert_eq!(&buf[..13], &[1, b'x', 0, 0x10, 0x11, 0x12, 0x13, 1, 2, 3, 4, 1, 2]);
    assert_eq!(buf.len(), 13 + 0x0102);
    assert!(buf[13..].iter().all(|b| *b == 0xab));
}

#[test]
fn records_are_read_with_their_data() {
    let mut buf = vec![0u8; 12];
    buf.extend_from_slice(&[1, b'x', 0, 0, 16, 0, 3, 0x01, 0x02, 0x03, 0x04, 0, 3, 7, 8, 9]);
    buf.extend_from_slice(&[192, 12, 0, 1, 0, 1, 0, 0, 1, 0, 0, 0, 0xfe]);
    let (rest, answers) = Answer::from_bytes(&buf[12..], 2, &buf).unwrap();
    assert_eq!(rest, &[0xfe]);
    assert_eq!(
        answers,
        vec![
            Answer { name: labels(&["x"]), qtype: 16, qclass: 3, ttl: 0x01020304, rddata: vec![7, 8, 9] },
            Answer { name: labels(&["x"]), qtype: 1, qclass: 1, ttl: 256, rddata: vec![] },
        ]
    );
}

#[test]
fn truncated_entries_are_refused() {
    let pkt = [0u8; 12];
    // a question that ends inside its class
    assert_eq!(Query::from_bytes(&[1, b'x', 0, 0, 1, 0], 1, &pkt), Err(Error::TruncatedInput));
    // fewer questions than asked for
    assert_eq!(Query::from_bytes(&[1, b'x', 0, 0, 1, 0, 1], 2, &pkt), Err(Error::TruncatedInput));
    // a record that ends inside its time to live
    assert_eq!(
        Answer::from_bytes(&[1, b'x', 0, 0, 1, 0, 1, 0, 0, 0], 1, &pkt),
        Err(Error::TruncatedInput)
    );
    // a record with less data than its length says
    assert_eq!(
        Answer::from_bytes(&[1, b'x', 0, 0, 1, 0, 1, 0, 0, 0, 60, 0, 4, 1, 2, 3], 1, &pkt),
        Err(Error::TruncatedInput)
    );
    // none asked for, none read
    let (rest, none) = Answer::from_bytes(&[5, 6], 0, &pkt).unwrap();
    assert!(none.is_empty());
    assert_eq!(rest, &[5, 6]);
}

#[test]
fn a_header_of_fewer_than_twelve_bytes_is_refused() {
    for n in 0..12 {
        let buf = vec![0u8; n];
        assert_eq!(DNSHdr::from_bytes(&buf), Err(Error::TruncatedInput));
    }
    let buf = vec![0u8; 12];
    let (rest, m) = DNSHdr::from_bytes(&buf).unwrap();
    assert!(rest.is_empty());
    assert_eq!(m, DNSHdr::new(0, no_flags(), vec![], vec![]));
}

#[test]
fn a_message_with_fewer_entries_than_counted_is_refused() {
    let buf = [0, 1, 0, 0, 0, 2, 0, 0, 0, 0, 0, 0, 1, b'x', 0, 0, 1, 0, 1];
    assert_eq!(DNSHdr::from_bytes(&buf), Err(Error::TruncatedInput));
    let buf = [0, 1, 0, 0, 0, 1, 0, 1, 0, 0, 0, 0, 1, b'x', 0, 0, 1, 0, 1];
    assert_eq!(DNSHdr::from_bytes(&buf), Err(Error::TruncatedInput));
}

#[test]
fn a_query_is_read_whole() {
    let buf: &[u8] = &[
        250, 252, 1, 32, 0, 1, 0, 0, 0, 0, 0, 0, 12, 99, 111, 100, 101, 99, 114, 97, 102, 116,
        101, 114, 115, 2, 105, 111, 0, 0, 1, 0, 1,
    ];
    let (rest, m) = DNSHdr::from_bytes(buf).unwrap();
    assert!(rest.is_empty());
    assert_eq!(m.id, 0xfafc);
    // the reserved bit that is set in the flag word is dropped
    assert_eq!(m.flags, Flags { qr: 0, opcode: 0, aa: 0, tc: 0, rd: 1, ra: 0, rcode: 0 });
    assert_eq!(m.queries, vec![Query { name: labels(&["codecrafters", "io"]), qtype: 1, qclass: 1 }]);
    assert!(m.answers.is_empty());
    assert_eq!(m.queries[0].domain(), "codecrafters.io");
}

#[test]
fn the_last_two_counts_are_dropped_and_what_follows_is_handed_back() {
    let buf = [0, 7, 0, 0, 0, 0, 0, 0, 0, 3, 0, 4, 9, 9, 9];
    let (rest, m) = DNSHdr::from_bytes(&buf).unwrap();
    assert_eq!(rest, &[9, 9, 9]);
    assert_eq!(m, DNSHdr::new(7, no_flags(), vec![], vec![]));
    assert_eq!(&m.to_bytes().unwrap()[..], &[0, 7, 0, 0, 0, 0, 0, 0, 0, 0, 0, 0]);
}

#[test]
fn a_message_reads_back_as_it_was_written() {
    let flags = Flags { qr: 1, opcode: 2, aa: 1, tc: 0, rd: 1, ra: 1, rcode: 3 };
    let m = DNSHdr::new(
        0xbeef,
        flags,
        vec![
            Query { name: labels(&["www", "example", "com"]), qtype: 1, qclass: 1 },
            Query { name: vec![], qtype: 255, qclass: 0xffff },
            Query { name: vec![vec![0xff, 0x00, b'.'], vec![b'a'; 63]], qtype: 28, qclass: 3 },
        ],
        vec![
            Answer::new(labels(&["www", "example", "com"]), RRType::A, RRClass::IN, 3600, &[93, 184, 216, 34]),
            Answer::new(labels(&["t"]), RRType::TXT, RRClass::CH, u32::MAX, &[]),
            Answer { name: vec![], qtype: 0, qclass: 0, ttl: 0, rddata: vec![1; 65535] },
        ],
    );
    let bytes = m.to_bytes().unwrap();
    let (rest, back) = DNSHdr::from_bytes(&bytes).unwrap();
    assert!(rest.is_empty());
    assert_eq!(back, m);
}

#[test]
fn data_of_more_than_65535_bytes_is_refused() {
    let big = Answer { name: labels(&["x"]), qtype: 16, qclass: 1, ttl: 0, rddata: vec![0; 65536] };
    let mut buf = BytesMut::new();
    buf.extend_from_slice(&[1, 2]);
    assert_eq!(big.to_bytes(&mut buf), Err(Error::PayloadTooLarge));
    assert_eq!(&buf[..], &[1, 2]);
    let m = DNSHdr::new(1, no_flags(), vec![], vec![big]);
    assert_eq!(m.to_bytes(), Err(Error::PayloadTooLarge));
}

#[test]
fn a_section_of_more_than_65535_entries_is_refused() {
    let q = Query { name: vec![], qtype: 1, qclass: 1 };
    let m = DNSHdr::new(1, no_flags(), vec![q.clone(); 65536], vec![]);
    assert_eq!(m.to_bytes(), Err(Error::PayloadTooLarge));
    let m = DNSHdr::new(1, no_flags(), vec![q; 65535], vec![]);
    let bytes = m.to_bytes().unwrap();
    assert_eq!(bytes.len(), 12 + 5 * 65535);
    assert_eq!(&bytes[4..6], &[0xff, 0xff]);
}

#[test]
fn flags_pack_into_their_bits() {
    let f = Flags { qr: 1, opcode: 2, aa: 1, tc: 0, rd: 1, ra: 1, rcode: 3 };
    assert!(f.is_valid());
    assert_eq!(f.compress_u16(), 0x9583);
    assert_eq!(no_flags().compress_u16(), 0);
    let all = Flags { qr: 1, opcode: 15, aa: 1, tc: 1, rd: 1, ra: 1, rcode: 15 };
    assert_eq!(all.compress_u16(), 0xff8f);
    assert_eq!(Flags { tc: 1, ..no_flags() }.compress_u16(), 0x0200);
    assert_eq!(Flags::parse_flags(0x9583), f);
    // reserved bits are dropped
    assert_eq!(Flags::parse_flags(0xffff), all);
    assert_eq!(Flags::parse_flags(0x0070), no_flags());
}

#[test]
fn flags_round_trip_for_every_combination() {
    for qr in 0..2u8 {
        for opcode in 0..16u8 {
            for bits in 0..16u8 {
                for rcode in 0..16u8 {
                    let f = Flags {
                        qr,
                        opcode,
                        aa: bits & 1,
                        tc: (bits >> 1) & 1,
                        rd: (bits >> 2) & 1,
                        ra: (bits >> 3) & 1,
                        rcode,
                    };
                    assert!(f.is_valid());
                    let w = f.compress_u16();
                    assert_eq!(w & 0x0070, 0);
                    assert_eq!(Flags::parse_flags(w), f);
                }
            }
        }
    }
}

#[test]
fn flags_out_of_their_widths_are_told_apart() {
    assert!(!Flags { qr: 2, ..no_flags() }.is_valid());
    assert!(!Flags { opcode: 16, ..no_flags() }.is_valid());
    assert!(!Flags { aa: 2, ..no_flags() }.is_valid());
    assert!(!Flags { tc: 2, ..no_flags() }.is_valid());
    assert!(!Flags { rd: 2, ..no_flags() }.is_valid());
    assert!(!Flags { ra: 2, ..no_flags() }.is_valid());
    assert!(!Flags { rcode: 16, ..no_flags() }.is_valid());
}

#[test]
fn codes_are_those_of_the_wire() {
    assert_eq!(OpCode::QUERY.code(), 0);
    assert_eq!(OpCode::IQUERY.code(), 1);
    assert_eq!(OpCode::STATUS.code(), 2);
    assert_eq!(RCode::OK.code(), 0);
    assert_eq!(RCode::FmtError.code(), 1);
    assert_eq!(RCode::ServerFailure.code(), 2);
    assert_eq!(RCode::NameError.code(), 3);
    assert_eq!(RCode::NotImplemted.code(), 4);
    assert_eq!(RCode::Refused.code(), 5);
    assert_eq!(RRType::A.code(), 1);
    assert_eq!(RRType::NS.code(), 2);
    assert_eq!(RRType::CNAME.code(), 5);
    assert_eq!(RRType::NULL.code(), 10);
    assert_eq!(RRType::MX.code(), 15);
    assert_eq!(RRType::TXT.code(), 16);
    assert_eq!(RRClass::IN.code(), 1);
    assert_eq!(RRClass::CS.code(), 2);
    assert_eq!(RRClass::CH.code(), 3);
    assert_eq!(RRClass::HS.code(), 4);
}

#[test]
fn domain_joins_the_text_labels_with_dots() {
    let q = |name: Vec<Vec<u8>>| Query { name, qtype: 1, qclass: 1 };
    assert_eq!(q(labels(&["codecrafters", "io"])).domain(), "codecrafters.io");
    assert_eq!(q(labels(&["io"])).domain(), "io");
    assert_eq!(q(vec![]).domain(), "");
    // a label that is not UTF-8 is left out
    assert_eq!(q(vec![b"a".to_vec(), vec![0xff, 0xfe], b"b".to_vec()]).domain(), "a.b");
    assert_eq!(q(vec![vec![0xff], b"b".to_vec()]).domain(), "b");
    assert_eq!(q(vec![vec![0xc3, 0xa9], b"fr".to_vec()]).domain(), "\u{e9}.fr");
    // case is kept
    assert_eq!(q(labels(&["ExAmple", "COM"])).domain(), "ExAmple.COM");
    // an empty label is text too
    assert_eq!(q(vec![vec![], b"a".to_vec()]).domain(), ".a");
}

#[test]
fn a_copy_of_a_question_is_equal_to_it() {
    let q = Query { name: labels(&["a", "bc"]), qtype: 2, qclass: 3 };
    assert_eq!(q.clone(), q);
    let a = Answer::new(labels(&["a", "bc"]), RRType::MX, RRClass::HS, 5, &[1, 2]);
    assert_eq!(a.clone(), a);
}

#[test]
fn name_expansion_splices_in_the_suffix_at_the_offset() {
    let mut pkt = vec![0u8; 16];
    pkt.extend_from_slice(&[3, b'a', b'b', b'c', 17]);
    pkt.extend_from_slice(b"longassdomainname");
    pkt.extend_from_slice(&[3, b'c', b'o', b'm', 0]);
    pkt.extend_from_slice(&[3, b'd', b'e', b'f', 192, 16]);
    let (rest, first) = parse_labels(&pkt[16..], &pkt).unwrap();
    assert_eq!(first, labels(&["abc", "longassdomainname", "com"]));
    let (rest, second) = parse_labels(rest, &pkt).unwrap();
    assert_eq!(second, labels(&["def", "abc", "longassdomainname", "com"]));
    assert!(rest.is_empty());
}
