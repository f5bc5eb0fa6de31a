use geodns::codec::build_error;
use geodns::codec::build_query;
use geodns::codec::is_well_formed;
use geodns::codec::least_ttl;
use geodns::codec::min_answer_ttl;
use geodns::codec::parse;
use geodns::codec::read_id;
use geodns::codec::serialize;
use geodns::codec::write_header;
use geodns::codec::DnsMessage;
use geodns::codec::MessageType;
use geodns::codec::ParseError;
use geodns::codec::ResponseCode;
use geodns::codec::HEADER_LEN;
use geodns::codec::RECORD_TYPE_NS;

fn question() -> Vec<u8> {
    let mut bytes = vec![7];
    bytes.extend_from_slice(b"example");
    bytes.push(3);
    bytes.extend_from_slice(b"com");
    bytes.extend_from_slice(&[0, 0, 1, 0, 1]);
    bytes
}

fn query(id: u16) -> Vec<u8> {
    let mut bytes = vec![(id >> 8) as u8, id as u8, 0x01, 0x00, 0, 1, 0, 0, 0, 0, 0, 0];
    bytes.extend(question());
    bytes
}

fn response(id: u16, ttls: &[u32]) -> Vec<u8> {
    let mut bytes = vec![(id >> 8) as u8, id as u8, 0x81, 0x80, 0, 1, 0, ttls.len() as u8, 0, 0, 0, 0];
    bytes.extend(question());
    for (i, ttl) in ttls.iter().enumerate() {
        bytes.extend_from_slice(&[0xc0, 0x0c, 0, 1, 0, 1]);
        bytes.extend_from_slice(&ttl.to_be_bytes());
        bytes.extend_from_slice(&[0, 4, 93, 184, 216, 34 + i as u8]);
    }
    bytes
}

#[test]
fn parse_reads_the_inspected_fields_of_a_query() {
    let bytes = query(0x1234);
    let message = parse(&bytes).expect("a plain query parses");
    assert_eq!(message.id, 0x1234);
    assert_eq!(message.message_type, MessageType::Query);
    assert_eq!(message.op_code, 0);
    assert_eq!(message.response_code, 0);
    assert!(message.answer_ttls.is_empty());
    assert_eq!(message.raw, Some(bytes));
}

#[test]
fn parse_reads_the_answer_ttls_in_order() {
    let bytes = response(0xbeef, &[300, 30, 86400]);
    let message = parse(&bytes).expect("a plain response parses");
    assert_eq!(message.id, 0xbeef);
    assert_eq!(message.message_type, MessageType::Response);
    assert_eq!(message.answer_ttls, vec![300, 30, 86400]);
}

#[test]
fn parse_reads_opcode_and_response_code() {
    let mut bytes = vec![0, 7, 0x80 | (2 << 3), 0x03, 0, 0, 0, 0, 0, 0, 0, 0];
    let message = parse(&bytes).expect("a bare header parses");
    assert_eq!(message.op_code, 2);
    assert_eq!(message.response_code, 3);
    assert_eq!(message.message_type, MessageType::Response);
    bytes[2] = 3 << 3;
    assert_eq!(parse(&bytes).err(), Some(ParseError::Malformed));
}

#[test]
fn parse_rejects_a_truncated_header() {
    assert_eq!(parse(&[]).err(), Some(ParseError::TruncatedHeader));
    assert_eq!(parse(&[0x12, 0x34, 1, 0, 0, 1, 0, 0, 0, 0, 0]).err(), Some(ParseError::TruncatedHeader));
    assert!(!is_well_formed(&[0x12, 0x34]));
}

#[test]
fn parse_rejects_section_counts_that_the_bytes_do_not_back() {
    let bytes = [0x12, 0x34, 1, 0, 0, 1, 0, 0, 0, 0, 0, 0];
    assert_eq!(parse(&bytes).err(), Some(ParseError::Malformed));
    let mut short = response(1, &[60]);
    short.truncate(short.len() - 3);
    assert_eq!(parse(&short).err(), Some(ParseError::Malformed));
    assert!(!is_well_formed(&short));
    assert!(is_well_formed(&response(1, &[60])));
}

#[test]
fn serialize_passes_a_parsed_message_through() {
    let bytes = response(0x0102, &[5, 7]);
    let message = parse(&bytes).unwrap();
    assert_eq!(serialize(&message), bytes);
    let again = parse(&serialize(&message)).unwrap();
    assert_eq!(again.id, message.id);
    assert_eq!(again.op_code, message.op_code);
    assert_eq!(again.response_code, message.response_code);
    assert_eq!(again.answer_ttls, message.answer_ttls);
}

#[test]
fn serialize_writes_the_header_of_a_message_made_here() {
    let message = DnsMessage::error_reply(0xa1b2, ResponseCode::Refused);
    let bytes = serialize(&message);
    assert_eq!(bytes, vec![0xa1, 0xb2, 0x80, 5, 0, 0, 0, 0, 0, 0, 0, 0]);
    let back = parse(&bytes).unwrap();
    assert_eq!(back.id, 0xa1b2);
    assert_eq!(back.message_type, MessageType::Response);
    assert_eq!(back.op_code, 0);
    assert_eq!(back.response_code, 5);
    assert!(back.answer_ttls.is_empty());
}

#[test]
fn write_header_places_every_field() {
    assert_eq!(
        write_header(0x0110, MessageType::Response, 5, 3),
        vec![0x01, 0x10, 0x80 | (5 << 3), 3, 0, 0, 0, 0, 0, 0, 0, 0]
    );
    assert_eq!(write_header(0xffff, MessageType::Query, 0, 0), vec![0xff, 0xff, 0, 0, 0, 0, 0, 0, 0, 0, 0, 0]);
    assert_eq!(HEADER_LEN, 12);
}

#[test]
fn read_id_is_best_effort() {
    assert_eq!(read_id(&query(0x1234)), 0x1234);
    assert_eq!(read_id(&[0xab, 0xcd, 0, 0, 0, 0, 0, 0, 0, 0, 0, 0]), 0xabcd);
    assert_eq!(read_id(&[0xab, 0xcd, 0, 0, 0, 0, 0, 0, 0, 0, 0]), 0);
    assert_eq!(read_id(&[]), 0);
}

#[test]
fn build_error_echoes_the_transaction_id() {
    let reply = build_error(&query(0xabcd), ResponseCode::ServFail);
    assert_eq!(reply, vec![0xab, 0xcd, 0x80, 2, 0, 0, 0, 0, 0, 0, 0, 0]);
    let reply = build_error(&query(0x0001), ResponseCode::FormErr);
    assert_eq!(reply, vec![0x00, 0x01, 0x80, 1, 0, 0, 0, 0, 0, 0, 0, 0]);
}

#[test]
fn build_error_answers_a_request_without_header_with_id_zero() {
    let expected = vec![0, 0, 0x80, 1, 0, 0, 0, 0, 0, 0, 0, 0];
    assert_eq!(build_error(&[], ResponseCode::FormErr), expected);
    assert_eq!(build_error(&[0x12], ResponseCode::FormErr), expected);
    assert_eq!(build_error(&[0x12, 0x34, 1, 0, 0, 1], ResponseCode::FormErr), expected);
    assert_eq!(build_error(&[0x12, 0x34, 1, 0, 0, 1], ResponseCode::FormErr), expected);
}

#[test]
fn build_error_echoes_the_id_of_a_request_that_is_malformed_after_its_header() {
    let bytes = [0x12, 0x34, 1, 0, 0, 1, 0, 0, 0, 0, 0, 0];
    assert!(!is_well_formed(&bytes));
    assert_eq!(build_error(&bytes, ResponseCode::FormErr), vec![0x12, 0x34, 0x80, 1, 0, 0, 0, 0, 0, 0, 0, 0]);
}

#[test]
fn build_error_is_what_the_dns_library_encodes() {
    for (code, theirs) in [
        (ResponseCode::NoError, trust_dns_proto::op::ResponseCode::NoError),
        (ResponseCode::FormErr, trust_dns_proto::op::ResponseCode::FormErr),
        (ResponseCode::ServFail, trust_dns_proto::op::ResponseCode::ServFail),
        (ResponseCode::NXDomain, trust_dns_proto::op::ResponseCode::NXDomain),
        (ResponseCode::NotImp, trust_dns_proto::op::ResponseCode::NotImp),
        (ResponseCode::Refused, trust_dns_proto::op::ResponseCode::Refused),
    ] {
        let mut message = trust_dns_proto::op::Message::new();
        message.set_id(0x4d2e);
        message.set_response_code(theirs);
        message.set_message_type(trust_dns_proto::op::MessageType::Response);
        assert_eq!(build_error(&query(0x4d2e), code), message.to_vec().unwrap());
        assert_eq!(code.low() as u16, u16::from(theirs));
    }
}

#[test]
fn least_ttl_is_the_minimum() {
    assert_eq!(least_ttl(&vec![]), None);
    assert_eq!(least_ttl(&vec![7]), Some(7));
    assert_eq!(least_ttl(&vec![300, 30, 86400]), Some(30));
    assert_eq!(least_ttl(&vec![5, 5, 9]), Some(5));
    assert_eq!(least_ttl(&vec![u32::MAX, 0]), Some(0));
}

#[test]
fn min_answer_ttl_of_a_response() {
    assert_eq!(min_answer_ttl(&response(1, &[300, 30, 86400])), Some(30));
    assert_eq!(min_answer_ttl(&response(1, &[30])), Some(30));
    assert_eq!(min_answer_ttl(&response(1, &[0, 10])), Some(0));
}

#[test]
fn min_answer_ttl_without_answers_or_without_message() {
    assert_eq!(min_answer_ttl(&response(1, &[])), None);
    assert_eq!(min_answer_ttl(&query(1)), None);
    assert_eq!(min_answer_ttl(&[1, 2, 3]), None);
    assert_eq!(min_answer_ttl(&[]), None);
}

#[test]
fn build_query_encodes_one_question() {
    let mut expected = vec![0x00, 0x2a, 0, 0, 0, 1, 0, 0, 0, 0, 0, 0];
    expected.push(7);
    expected.extend_from_slice(b"example");
    expected.push(3);
    expected.extend_from_slice(b"com");
    expected.extend_from_slice(&[0, 0, 2, 0, 1]);
    assert_eq!(build_query(42, "example.com.", RECORD_TYPE_NS), Some(expected));
    let a_record = build_query(7, "a.b.", 1).unwrap();
    assert_eq!(a_record, vec![0, 7, 0, 0, 0, 1, 0, 0, 0, 0, 0, 0, 1, b'a', 1, b'b', 0, 0, 1, 0, 1]);
    assert!(is_well_formed(&a_record));
}

#[test]
fn build_query_refuses_what_is_no_domain_name() {
    let label = "a".repeat(64);
    assert_eq!(build_query(1, &format!("{}.com.", label), RECORD_TYPE_NS), None);
}

fn answer_record(record_type: u16, ttl: u32, rdata: &[u8]) -> Vec<u8> {
    let mut bytes = vec![0, (record_type >> 8) as u8, record_type as u8, 0, 1];
    bytes.extend_from_slice(&ttl.to_be_bytes());
    bytes.extend_from_slice(&(rdata.len() as u16).to_be_bytes());
    bytes.extend_from_slice(rdata);
    bytes
}

fn answers_only(id: u16, records: &[Vec<u8>]) -> Vec<u8> {
    let mut bytes = vec![(id >> 8) as u8, id as u8, 0x80, 0, 0, 0, 0, records.len() as u8, 0, 0, 0, 0];
    for record in records {
        bytes.extend_from_slice(record);
    }
    bytes
}

const DNSSEC_TYPES: [u16; 11] = [24, 25, 43, 46, 47, 48, 50, 51, 59, 60, 250];

#[test]
fn a_dnskey_record_too_short_for_its_fields_is_malformed() {
    let bytes = answers_only(1, &[answer_record(48, 60, &[7])]);
    assert_eq!(bytes.len(), 24);
    assert_eq!(parse(&bytes).err(), Some(ParseError::Malformed));
    assert!(!is_well_formed(&bytes));
    assert_eq!(min_answer_ttl(&bytes), None);
}

#[test]
fn a_dnskey_record_is_read() {
    let bytes = answers_only(2, &[answer_record(48, 3600, &[0x01, 0x01, 3, 8, 1, 2, 3, 4])]);
    let message = parse(&bytes).expect("a DNSKEY answer parses");
    assert_eq!(message.answer_ttls, vec![3600]);
    assert_eq!(min_answer_ttl(&bytes), Some(3600));
}

#[test]
fn a_signed_answer_is_read() {
    let signature = [
        0, 1, 8, 2, 0, 0, 0, 60, 0x60, 0, 0, 0, 0x50, 0, 0, 0, 0x12, 0x34, 0, 9, 9,
    ];
    let bytes = answers_only(
        3,
        &[answer_record(1, 300, &[93, 184, 216, 34]), answer_record(46, 30, &signature)],
    );
    let message = parse(&bytes).expect("an answer with its RRSIG parses");
    assert_eq!(message.answer_ttls, vec![300, 30]);
    assert_eq!(min_answer_ttl(&bytes), Some(30));
}

#[test]
fn records_of_other_dnssec_types_are_read() {
    let ds = answer_record(43, 11, &[0x12, 0x34, 8, 2, 0xaa, 0xbb]);
    let cds = answer_record(59, 12, &[0x12, 0x34, 8, 2, 0xaa, 0xbb]);
    let cdnskey = answer_record(60, 13, &[0x01, 0x00, 3, 13, 5]);
    let key = answer_record(25, 14, &[0x00, 0x00, 3, 8, 5, 6]);
    let nsec = answer_record(47, 15, &[0, 0, 1, 0x40]);
    let nsec3param = answer_record(51, 16, &[1, 0, 0, 5, 2, 0xab, 0xcd]);
    let nsec3 = answer_record(50, 17, &[1, 1, 0, 5, 1, 0xab, 2, 0xcd, 0xef, 0, 1, 0x40]);
    let bytes = answers_only(4, &[ds, cds, cdnskey, key, nsec, nsec3param, nsec3]);
    let message = parse(&bytes).expect("records of DNSSEC types parse");
    assert_eq!(message.answer_ttls, vec![11, 12, 13, 14, 15, 16, 17]);
    assert_eq!(min_answer_ttl(&bytes), Some(11));
}

#[test]
fn a_record_of_an_unassigned_type_is_read() {
    let bytes = answers_only(5, &[answer_record(65280, 77, &[1, 2, 3])]);
    assert_eq!(parse(&bytes).unwrap().answer_ttls, vec![77]);
}

#[test]
fn no_record_data_of_a_dnssec_type_stops_the_decoder() {
    for record_type in DNSSEC_TYPES {
        for length in 0..40usize {
            for fill in [0u8, 1, 3, 8, 0x3f, 0xc0, 0xff] {
                let rdata: Vec<u8> = (0..length).map(|i| if i % 3 == 0 { fill } else { i as u8 }).collect();
                let bytes = answers_only(6, &[answer_record(record_type, 9, &rdata)]);
                let parsed = parse(&bytes);
                assert_eq!(parsed.is_ok(), is_well_formed(&bytes));
                match parsed {
                    Ok(message) => assert_eq!(message.answer_ttls, vec![9]),
                    Err(error) => assert_eq!(error, ParseError::Malformed),
                }
            }
        }
    }
}

#[test]
fn every_record_type_with_one_byte_of_data_is_decoded_or_refused() {
    for record_type in 0..=300u16 {
        let bytes = answers_only(7, &[answer_record(record_type, 9, &[0])]);
        assert_eq!(parse(&bytes).is_ok(), is_well_formed(&bytes));
    }
    for record_type in [32768u16, 65279, 65535] {
        let bytes = answers_only(7, &[answer_record(record_type, 9, &[0])]);
        assert_eq!(parse(&bytes).is_ok(), is_well_formed(&bytes));
    }
}
