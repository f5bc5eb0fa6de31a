//! DNS wire messages: the fixed header as laid out on the wire, the fields of a
//! decoded message that the proxy inspects, and the responses it synthesizes.

use trust_dns_proto::error::ProtoError;
use trust_dns_proto::op::Message;
use trust_dns_proto::op::Query;
use trust_dns_proto::rr::Name;
use trust_dns_proto::rr::RecordType;
use vstd::prelude::*;

verus! {

/// Length of the fixed header that opens every DNS message.
pub const HEADER_LEN: usize = 12;

/// Whether a message is a query or a response (the header's QR bit).
#[derive(Clone, Copy, Debug, PartialEq, Eq, Structural)]
pub enum MessageType {
    Query,
    Response,
}

/// The response codes a server may put into a header's four RCODE bits.
#[derive(Clone, Copy, Debug, PartialEq, Eq, Structural)]
pub enum ResponseCode {
    NoError,
    FormErr,
    ServFail,
    NXDomain,
    NotImp,
    Refused,
}

impl ResponseCode {
    /// The code's number on the wire.
    pub open spec fn number(self) -> u8 {
        match self {
            ResponseCode::NoError => 0,
            ResponseCode::FormErr => 1,
            ResponseCode::ServFail => 2,
            ResponseCode::NXDomain => 3,
            ResponseCode::NotImp => 4,
            ResponseCode::Refused => 5,
        }
    }

    /// The code's number on the wire.
    pub fn low(self) -> (n: u8)
        ensures
            n == self.number(),
    {
        match self {
            ResponseCode::NoError => 0,
            ResponseCode::FormErr => 1,
            ResponseCode::ServFail => 2,
            ResponseCode::NXDomain => 3,
            ResponseCode::NotImp => 4,
            ResponseCode::Refused => 5,
        }
    }
}

/// Whether `bytes` is long enough to hold a whole header.
pub open spec fn header_readable(bytes: Seq<u8>) -> bool {
    bytes.len() >= HEADER_LEN
}

/// The transaction ID in a header: its first two bytes, most significant first.
pub open spec fn header_id(bytes: Seq<u8>) -> u16
    recommends
        header_readable(bytes),
{
    (bytes[0] as int * 256 + bytes[1] as int) as u16
}

/// The QR bit of a header: set in responses, clear in queries.
pub open spec fn header_message_type(bytes: Seq<u8>) -> MessageType
    recommends
        header_readable(bytes),
{
    if bytes[2] >= 128 {
        MessageType::Response
    } else {
        MessageType::Query
    }
}

/// The four opcode bits of a header.
pub open spec fn header_op_code(bytes: Seq<u8>) -> u8
    recommends
        header_readable(bytes),
{
    ((bytes[2] as int / 8) % 16) as u8
}

/// The four RCODE bits of a header.
pub open spec fn header_response_code(bytes: Seq<u8>) -> u8
    recommends
        header_readable(bytes),
{
    (bytes[3] as int % 16) as u8
}

/// The number of questions that a header announces.
pub open spec fn header_question_count(bytes: Seq<u8>) -> u16
    recommends
        header_readable(bytes),
{
    (bytes[4] as int * 256 + bytes[5] as int) as u16
}

/// The transaction ID that can be recovered from `bytes`, whatever they hold: the
/// header's ID where a whole header is there, 0 otherwise.
pub open spec fn best_effort_id(bytes: Seq<u8>) -> u16 {
    if header_readable(bytes) {
        header_id(bytes)
    } else {
        0
    }
}

/// A message of the header alone: the given ID, type, opcode and response code, every
/// other flag clear and all four section counts zero.
pub open spec fn header_only(id: u16, message_type: MessageType, op_code: u8, code: u8) -> Seq<u8>
    recommends
        op_code < 16,
        code < 16,
{
    seq![
        (id as int / 256) as u8,
        (id as int % 256) as u8,
        ((if message_type == MessageType::Response { 128int } else { 0int }) + op_code as int * 8) as u8,
        code,
        0u8,
        0u8,
        0u8,
        0u8,
        0u8,
        0u8,
        0u8,
        0u8,
    ]
}

/// The error response to `request`: a header-only response with the given code that
/// echoes the transaction ID as far as `request` yields one.
pub open spec fn error_response(request: Seq<u8>, code: ResponseCode) -> Seq<u8> {
    header_only(best_effort_id(request), MessageType::Response, 0, code.number())
}

/// The header fields can be read back from a header-only message.
pub proof fn lemma_header_only_fields(id: u16, message_type: MessageType, op_code: u8, code: u8)
    requires
        op_code < 16,
        code < 16,
    ensures
        header_only(id, message_type, op_code, code).len() == HEADER_LEN,
        header_readable(header_only(id, message_type, op_code, code)),
        header_id(header_only(id, message_type, op_code, code)) == id,
        header_message_type(header_only(id, message_type, op_code, code)) == message_type,
        header_op_code(header_only(id, message_type, op_code, code)) == op_code,
        header_response_code(header_only(id, message_type, op_code, code)) == code,
{
}

/// Reads the transaction ID out of a request as far as it can be read: the first two
/// bytes of a whole header, and 0 for anything shorter than a header.
pub fn read_id(bytes: &[u8]) -> (id: u16)
    ensures
        id == best_effort_id(bytes@),
{
    if bytes.len() >= HEADER_LEN {
        let hi: u16 = bytes[0] as u16;
        let lo: u16 = bytes[1] as u16;
        hi * 256 + lo
    } else {
        0
    }
}

/// Writes a header-only message.
pub fn write_header(id: u16, message_type: MessageType, op_code: u8, code: u8) -> (bytes: Vec<u8>)
    requires
        op_code < 16,
        code < 16,
    ensures
        bytes@ == header_only(id, message_type, op_code, code),
{
    let qr: u8 = match message_type {
        MessageType::Response => 128,
        MessageType::Query => 0,
    };
    let mut bytes: Vec<u8> = Vec::with_capacity(HEADER_LEN);
    bytes.push((id / 256) as u8);
    bytes.push((id % 256) as u8);
    bytes.push(qr + op_code * 8);
    bytes.push(code);
    bytes.push(0);
    bytes.push(0);
    bytes.push(0);
    bytes.push(0);
    bytes.push(0);
    bytes.push(0);
    bytes.push(0);
    bytes.push(0);
    assert(bytes@ =~= header_only(id, message_type, op_code, code));
    bytes
}

/// Builds the error response to a request that may itself be malformed. The reply is a
/// header-only response carrying `code`; it echoes the request's transaction ID where
/// the request holds a whole header and carries ID 0 where it does not. It never fails.
pub fn build_error(request: &[u8], code: ResponseCode) -> (reply: Vec<u8>)
    ensures
        reply@ == error_response(request@, code),
        reply@.len() == HEADER_LEN,
        header_id(reply@) == best_effort_id(request@),
        header_message_type(reply@) == MessageType::Response,
        header_response_code(reply@) == code.number(),
{
    proof {
        lemma_header_only_fields(best_effort_id(request@), MessageType::Response, 0, code.number());
    }
    write_header(read_id(request), MessageType::Response, 0, code.low())
}

/// The fields of a decoded message that the proxy inspects.
pub struct Decoded {
    pub id: u16,
    pub message_type: MessageType,
    pub op_code: u8,
    pub response_code: u16,
    pub answer_ttls: Seq<u32>,
}

/// What decoding `bytes` as a DNS message yields: the inspected fields of the message, or
/// nothing where the bytes are no well-formed message.
pub uninterp spec fn decoded(bytes: Seq<u8>) -> Option<Decoded>;

/// Why a message could not be parsed.
#[derive(Clone, Copy, Debug, PartialEq, Eq, Structural)]
pub enum ParseError {
    /// The bytes are too few to hold the fixed header.
    TruncatedHeader,
    /// A header is there, but what follows it does not match its section counts or is
    /// otherwise malformed.
    Malformed,
}

/// A DNS message as the proxy sees it: the header fields and answer TTLs it inspects,
/// and, for a message that came off the wire, the bytes it came as.
#[derive(Debug)]
pub struct DnsMessage {
    pub id: u16,
    pub message_type: MessageType,
    pub op_code: u8,
    pub response_code: u16,
    pub answer_ttls: Vec<u32>,
    pub raw: Option<Vec<u8>>,
}

impl DnsMessage {
    /// The inspected fields.
    pub open spec fn fields(&self) -> Decoded {
        Decoded {
            id: self.id,
            message_type: self.message_type,
            op_code: self.op_code,
            response_code: self.response_code,
            answer_ttls: self.answer_ttls@,
        }
    }

    /// The bytes the message travels as: the bytes it was parsed from, passed through
    /// untouched, or the bare header for a message made here.
    pub open spec fn wire(&self) -> Seq<u8> {
        match self.raw {
            Some(bytes) => bytes@,
            None => header_only(
                self.id,
                self.message_type,
                (self.op_code % 16) as u8,
                (self.response_code % 16) as u8,
            ),
        }
    }

    /// Whether the message is what parsing `bytes` yields.
    pub open spec fn parsed_from(&self, bytes: Seq<u8>) -> bool {
        &&& decoded(bytes) == Some(self.fields())
        &&& self.raw matches Some(raw)
        &&& raw@ == bytes
    }

    /// A response made here that carries nothing but a header: the ID to echo and the
    /// response code.
    pub fn error_reply(id: u16, code: ResponseCode) -> (message: DnsMessage)
        ensures
            message.id == id,
            message.message_type == MessageType::Response,
            message.op_code == 0,
            message.response_code == code.number(),
            message.answer_ttls@.len() == 0,
            message.raw is None,
            message.wire() == header_only(id, MessageType::Response, 0, code.number()),
    {
        DnsMessage {
            id,
            message_type: MessageType::Response,
            op_code: 0,
            response_code: code.low() as u16,
            answer_ttls: Vec::new(),
            raw: None,
        }
    }
}

/// `trust_dns_proto::error::ProtoError`, the error of the DNS library's decoder and
/// encoder. Nothing is known of it here; it is only told apart from success.
#[verifier::external_type_specification]
#[verifier::external_body]
pub struct ExProtoError(ProtoError);

struct WireFields {
    id: u16,
    message_type: MessageType,
    op_code: u8,
    response_code: u16,
    answer_ttls: Vec<u32>,
}

impl WireFields {
    spec fn fields(&self) -> Decoded {
        Decoded {
            id: self.id,
            message_type: self.message_type,
            op_code: self.op_code,
            response_code: self.response_code,
            answer_ttls: self.answer_ttls@,
        }
    }
}

/// Decodes `bytes` with `trust_dns_proto::op::Message::from_vec` and copies out the ID,
/// the message type, the opcode and response code as numbers, and the TTL of each answer
/// record in order. Trusted: the outcome is `decoded` of the bytes, and a message that
/// decodes holds a whole header whose first two bytes are the ID. The decoder is built
/// with its `dnssec` feature: records of the DNSSEC types are then read by their own
/// readers, and the decoder's internal check that a record's data has the type its
/// header names holds for every record type.
#[verifier::external_body]
fn decode_fields(bytes: &[u8]) -> (outcome: Result<WireFields, ProtoError>)
    ensures
        outcome matches Ok(found) ==> decoded(bytes@) == Some(found.fields())
            && header_readable(bytes@) && found.id == header_id(bytes@),
        outcome is Err ==> decoded(bytes@) is None,
{
    let message = Message::from_vec(bytes)?;
    Ok(WireFields {
        id: message.id(),
        message_type: match message.message_type() {
            trust_dns_proto::op::MessageType::Query => MessageType::Query,
            trust_dns_proto::op::MessageType::Response => MessageType::Response,
        },
        op_code: message.op_code().into(),
        response_code: message.response_code().into(),
        answer_ttls: message.answers().iter().map(|record| record.ttl()).collect(),
    })
}

/// Copies a byte slice.
pub fn copy_bytes(bytes: &[u8]) -> (copy: Vec<u8>)
    ensures
        copy@ == bytes@,
{
    let mut copy: Vec<u8> = Vec::with_capacity(bytes.len());
    let mut i: usize = 0;
    while i < bytes.len()
        invariant
            i <= bytes.len(),
            copy@ == bytes@.subrange(0, i as int),
        decreases bytes.len() - i,
    {
        copy.push(bytes[i]);
        i = i + 1;
        assert(copy@ =~= bytes@.subrange(0, i as int));
    }
    assert(bytes@.subrange(0, bytes@.len() as int) =~= bytes@);
    copy
}

/// Parses a wire message. Fails on bytes too short for a header and on bytes that are
/// malformed further on; a message that parses keeps the bytes it came as.
pub fn parse(bytes: &[u8]) -> (outcome: Result<DnsMessage, ParseError>)
    ensures
        outcome matches Ok(message) ==> message.parsed_from(bytes@) && header_readable(bytes@)
            && message.id == header_id(bytes@),
        outcome is Ok <==> decoded(bytes@) is Some,
        outcome == Err::<DnsMessage, ParseError>(ParseError::TruncatedHeader) <==> !header_readable(
            bytes@,
        ),
        outcome == Err::<DnsMessage, ParseError>(ParseError::Malformed) <==> header_readable(bytes@)
            && decoded(bytes@) is None,
{
    match decode_fields(bytes) {
        Ok(found) => Ok(
            DnsMessage {
                id: found.id,
                message_type: found.message_type,
                op_code: found.op_code,
                response_code: found.response_code,
                answer_ttls: found.answer_ttls,
                raw: Some(copy_bytes(bytes)),
            },
        ),
        Err(_) => if bytes.len() < HEADER_LEN {
            Err(ParseError::TruncatedHeader)
        } else {
            Err(ParseError::Malformed)
        },
    }
}

/// Whether `bytes` parse as a DNS message.
pub fn is_well_formed(bytes: &[u8]) -> (ok: bool)
    ensures
        ok <==> decoded(bytes@) is Some,
        ok ==> header_readable(bytes@),
{
    decode_fields(bytes).is_ok()
}

/// Serializes a message: a parsed message goes out as the bytes it came as, a message
/// made here as its header.
pub fn serialize(message: &DnsMessage) -> (bytes: Vec<u8>)
    ensures
        bytes@ == message.wire(),
{
    match &message.raw {
        Some(raw) => copy_bytes(raw.as_slice()),
        None => write_header(
            message.id,
            message.message_type,
            message.op_code % 16,
            (message.response_code % 16) as u8,
        ),
    }
}

/// Serializing loses nothing of a parsed message: it goes out as the bytes it was parsed
/// from, and parsing those yields its fields again.
pub proof fn lemma_parsed_message_round_trips(message: DnsMessage, bytes: Seq<u8>)
    requires
        message.parsed_from(bytes),
    ensures
        message.wire() == bytes,
        decoded(message.wire()) == Some(message.fields()),
{
}

/// Serializing loses no header field of a message made here: the ID, the type, the
/// opcode and the response code can be read back from its wire form.
pub proof fn lemma_made_message_keeps_header(message: DnsMessage)
    requires
        message.raw is None,
        message.op_code < 16,
        message.response_code < 16,
    ensures
        message.wire().len() == HEADER_LEN,
        header_id(message.wire()) == message.id,
        header_message_type(message.wire()) == message.message_type,
        header_op_code(message.wire()) == message.op_code,
        header_response_code(message.wire()) == message.response_code,
{
    lemma_header_only_fields(
        message.id,
        message.message_type,
        message.op_code,
        message.response_code as u8,
    );
}

/// Whether `least` is the smallest of `ttls`: nothing for an empty list, else a member
/// that no member is below.
pub open spec fn is_least_ttl(least: Option<u32>, ttls: Seq<u32>) -> bool {
    match least {
        None => ttls.len() == 0,
        Some(ttl) => ttls.contains(ttl) && forall|i: int| 0 <= i < ttls.len() ==> ttl <= ttls[i],
    }
}

/// The smallest of `ttls`, if there is any.
pub open spec fn least_of(ttls: Seq<u32>) -> Option<u32>
    decreases ttls.len(),
{
    if ttls.len() == 0 {
        None
    } else {
        match least_of(ttls.drop_last()) {
            Some(least) => if least <= ttls.last() {
                Some(least)
            } else {
                Some(ttls.last())
            },
            None => Some(ttls.last()),
        }
    }
}

/// `least_of` is the smallest member, and nothing else is.
pub proof fn lemma_least_of(ttls: Seq<u32>)
    ensures
        is_least_ttl(least_of(ttls), ttls),
        forall|other: Option<u32>| #[trigger] is_least_ttl(other, ttls) ==> other == least_of(ttls),
    decreases ttls.len(),
{
    if ttls.len() > 0 {
        let shorter = ttls.drop_last();
        lemma_least_of(shorter);
        let least = least_of(ttls).unwrap();
        match least_of(shorter) {
            Some(before) => {
                let at = choose|at: int| 0 <= at < shorter.len() && shorter[at] == before;
                assert(ttls[at] == before);
                assert(ttls[ttls.len() - 1] == ttls.last());
                assert forall|i: int| 0 <= i < ttls.len() implies least <= ttls[i] by {
                    if i < shorter.len() {
                        assert(shorter[i] == ttls[i]);
                    }
                }
            },
            None => {
                assert(ttls[ttls.len() - 1] == least);
            },
        }
        assert forall|other: Option<u32>| #[trigger] is_least_ttl(other, ttls) implies other
            == least_of(ttls) by {
            let found = other.unwrap();
            let at = choose|at: int| 0 <= at < ttls.len() && ttls[at] == found;
            let mine = choose|mine: int| 0 <= mine < ttls.len() && ttls[mine] == least;
            assert(found <= ttls[mine]);
            assert(least <= ttls[at]);
        }
    }
}

/// The smallest of a list of TTLs, if there is any.
pub fn least_ttl(ttls: &Vec<u32>) -> (least: Option<u32>)
    ensures
        least == least_of(ttls@),
        is_least_ttl(least, ttls@),
{
    proof {
        lemma_least_of(ttls@);
    }
    if ttls.len() == 0 {
        return None;
    }
    let mut least: u32 = ttls[0];
    let mut i: usize = 1;
    while i < ttls.len()
        invariant
            1 <= i <= ttls.len(),
            ttls@.contains(least),
            forall|k: int| 0 <= k < i ==> least <= ttls@[k],
        decreases ttls.len() - i,
    {
        if ttls[i] < least {
            least = ttls[i];
        }
        i = i + 1;
    }
    assert(is_least_ttl(Some(least), ttls@));
    Some(least)
}

/// The smallest TTL among the answer records of the response that `bytes` decode to:
/// nothing where they do not decode or the response answers nothing.
pub open spec fn answer_ttl(bytes: Seq<u8>) -> Option<u32> {
    match decoded(bytes) {
        Some(message) => least_of(message.answer_ttls),
        None => None,
    }
}

/// The smallest TTL among the answer records of a response: nothing where the bytes do
/// not parse or the response answers nothing.
pub fn min_answer_ttl(bytes: &[u8]) -> (least: Option<u32>)
    ensures
        least == answer_ttl(bytes@),
{
    match decode_fields(bytes) {
        Ok(found) => least_ttl(&found.answer_ttls),
        Err(_) => None,
    }
}

/// The record type of name-server records.
pub const RECORD_TYPE_NS: u16 = 2;

/// What a standard query with one question encodes to: the question asks for records
/// of `record_type` at the domain `name`, and the header carries `id` with no flag set.
/// Nothing where `name` is no domain name or the message cannot be encoded.
pub uninterp spec fn query_wire(id: u16, name: Seq<char>, record_type: u16) -> Option<Seq<u8>>;

/// Whether `name` is a domain name of the plainest kind: lower-case letters in labels
/// that are not empty, a dot after each label but possibly the last, and no more than
/// 63 characters in all.
pub open spec fn is_simple_name(name: Seq<char>) -> bool {
    &&& 0 < name.len() <= 63
    &&& name[0] != '.'
    &&& forall|i: int|
        0 <= i < name.len() ==> (97 <= #[trigger] name[i] as u32 <= 122) || name[i] == '.'
    &&& forall|i: int| 0 < i < name.len() ==> !(name[i - 1] == '.' && #[trigger] name[i] == '.')
}

/// Whether `bytes` open with the header of a standard query that carries `id` and one
/// question: not a response, opcode 0, response code 0.
pub open spec fn is_standard_query(bytes: Seq<u8>, id: u16) -> bool {
    &&& header_readable(bytes)
    &&& header_id(bytes) == id
    &&& header_message_type(bytes) == MessageType::Query
    &&& header_op_code(bytes) == 0
    &&& header_response_code(bytes) == 0
    &&& header_question_count(bytes) == 1
}

/// Builds a query message with `trust_dns_proto::op::Message` (a new message with the
/// ID set and one question made with `Query::query` from `Name::from_ascii` and
/// `RecordType::from`) and encodes it with `Message::to_vec`. Trusted: the outcome is
/// `query_wire` of the arguments; what is encoded opens with the header of a standard
/// query with the given ID and one question, as a new message's header is written; and
/// a simple name is always accepted and encoded.
#[verifier::external_body]
fn encode_query(id: u16, name: &str, record_type: u16) -> (outcome: Result<Vec<u8>, ProtoError>)
    ensures
        outcome matches Ok(bytes) ==> query_wire(id, name@, record_type) == Some(bytes@)
            && is_standard_query(bytes@, id),
        outcome is Err ==> query_wire(id, name@, record_type) is None,
        is_simple_name(name@) ==> outcome is Ok,
{
    let mut message = Message::new();
    message.set_id(id);
    message.add_query(Query::query(Name::from_ascii(name)?, RecordType::from(record_type)));
    message.to_vec()
}

/// Builds the wire form of a standard query for records of `record_type` at `name`.
/// Nothing where `name` is no domain name; a simple name always yields a query.
pub fn build_query(id: u16, name: &str, record_type: u16) -> (query: Option<Vec<u8>>)
    ensures
        query matches Some(bytes) ==> query_wire(id, name@, record_type) == Some(bytes@)
            && is_standard_query(bytes@, id),
        query is None <==> query_wire(id, name@, record_type) is None,
        is_simple_name(name@) ==> query is Some,
{
    match encode_query(id, name, record_type) {
        Ok(bytes) => Some(bytes),
        Err(_) => None,
    }
}

} // verus!
