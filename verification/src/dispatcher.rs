//! The control flow of one request: from the datagram to either an immediate response or
//! a forward to an upstream, and from the outcome of that exchange to the response.
//! The caller owns the sockets: it performs the forward and sends what comes back here.

use crate::address::UpstreamAddr;
use crate::cache::after_lookup;
use crate::cache::after_store;
use crate::cache::expiry;
use crate::cache::served;
use crate::cache::CacheKey;
use crate::cache::ResponseCache;
use crate::codec::answer_ttl;
use crate::codec::build_error;
use crate::codec::copy_bytes;
use crate::codec::decoded;
use crate::codec::error_response;
use crate::codec::header_id;
use crate::codec::header_message_type;
use crate::codec::header_readable;
use crate::codec::header_response_code;
use crate::codec::is_well_formed;
use crate::codec::lemma_header_only_fields;
use crate::codec::min_answer_ttl;
use crate::codec::MessageType;
use crate::codec::ResponseCode;
use crate::codec::HEADER_LEN;
use crate::geo::country_for;
use crate::geo::country_of;
use crate::geo::GeoLookup;
use crate::registry::UpstreamRegistry;
use vstd::prelude::*;

verus! {

/// The TTL, in seconds, of a cached response that names none.
pub const DEFAULT_TTL_SECONDS: u32 = 60;

/// The last instant at which a response with any TTL can still be given an expiry.
pub const LAST_INSTANT: u64 = 0xFFFF_FFFF_FFFF_FFFF - 0xFFFF_FFFF * 1000;

/// How forwarding a request to an upstream ended.
#[derive(Debug)]
pub enum Exchange {
    /// The upstream replied with these bytes.
    Reply { bytes: Vec<u8> },
    /// No reply came within the bound.
    TimedOut,
    /// Binding, connecting, sending or receiving failed.
    Failed,
}

/// A request that waits for its upstream: the raw request, the country it was routed
/// for and the upstream selected for it.
#[derive(Debug)]
pub struct Pending {
    pub request: Vec<u8>,
    pub country: String,
    pub upstream: UpstreamAddr,
}

/// What is to be done for a request that has just arrived.
#[derive(Debug)]
pub enum Step {
    /// Send these bytes to the client; the request is done.
    Respond { reply: Vec<u8> },
    /// Send the request to the upstream, and come back with the outcome.
    Forward { pending: Pending },
}

/// The TTL, in seconds, with which a reply is cached: the smallest TTL of its answer
/// records, and the default where it has none.
pub open spec fn reply_ttl(reply: Seq<u8>) -> u32 {
    match answer_ttl(reply) {
        Some(ttl) => ttl,
        None => DEFAULT_TTL_SECONDS,
    }
}

/// Caches `reply` under `key` at instant `now`, for as long as its answers allow.
pub fn store_reply(cache: &mut ResponseCache, key: CacheKey, reply: Vec<u8>, now: u64)
    requires
        now <= LAST_INSTANT,
    ensures
        final(cache).entries() == after_store(
            old(cache).entries(),
            key@,
            reply@,
            reply_ttl(reply@),
            now,
        ),
{
    let ttl: u32 = match min_answer_ttl(reply.as_slice()) {
        Some(ttl) => ttl,
        None => DEFAULT_TTL_SECONDS,
    };
    cache.put(key, reply, ttl, now);
}

/// Takes a request up. A request that does not parse is answered with a format error
/// and touches nothing. Any other request is routed for the country that `lookup`
/// gives, an upstream is selected for that country, and the cache is asked for the
/// pair of request and country at instant `now`: a hit is the response, a miss sends
/// the request on to the selected upstream.
pub fn on_request(
    registry: &mut UpstreamRegistry,
    cache: &mut ResponseCache,
    request: &[u8],
    lookup: GeoLookup,
    now: u64,
) -> (step: Step)
    requires
        old(registry).wf(),
    ensures
        final(registry).wf(),
        decoded(request@) is None ==> {
            &&& step matches Step::Respond { reply }
            &&& reply@ == error_response(request@, ResponseCode::FormErr)
            &&& final(registry)@ == old(registry)@
            &&& final(cache).entries() == old(cache).entries()
        },
        decoded(request@) is Some ==> {
            &&& final(registry)@ == old(registry)@.after_select(country_of(lookup))
            &&& final(cache).entries() == after_lookup(
                old(cache).entries(),
                (request@, country_of(lookup)),
                now,
            )
            &&& match served(old(cache).entries(), (request@, country_of(lookup)), now) {
                Some(bytes) => step matches Step::Respond { reply } && reply@ == bytes,
                None => {
                    &&& step matches Step::Forward { pending }
                    &&& pending.request@ == request@
                    &&& pending.country@ == country_of(lookup)
                    &&& pending.upstream == old(registry)@.pick(country_of(lookup))
                },
            }
        },
{
    if !is_well_formed(request) {
        return Step::Respond { reply: build_error(request, ResponseCode::FormErr) };
    }
    let country: String = country_for(lookup);
    let upstream: UpstreamAddr = registry.select(country.as_str());
    let key = CacheKey { request: copy_bytes(request), country };
    match cache.get(&key, now) {
        Some(reply) => Step::Respond { reply },
        None => Step::Forward {
            pending: Pending { request: key.request, country: key.country, upstream },
        },
    }
}

/// Takes the outcome of a forward up. A reply that parses is cached under the request
/// and its country, for as long as its answers allow, and relayed as it came. A reply
/// that does not parse, a timeout and a failure are each answered with a server
/// failure that echoes the request's transaction ID, and leave the cache as it was.
/// Only a reply that is cached needs an instant that leaves room for its expiry.
pub fn on_exchange(cache: &mut ResponseCache, pending: Pending, exchange: Exchange, now: u64) -> (reply:
    Vec<u8>)
    requires
        relayed(exchange) ==> now <= LAST_INSTANT,
    ensures
        reply@ == response_to(pending.request@, exchange),
        relayed(exchange) ==> {
            &&& exchange matches Exchange::Reply { bytes }
            &&& reply@ == bytes@
            &&& final(cache).entries() == after_store(
                old(cache).entries(),
                (pending.request@, pending.country@),
                bytes@,
                reply_ttl(bytes@),
                now,
            )
        },
        !relayed(exchange) ==> {
            &&& reply@ == error_response(pending.request@, ResponseCode::ServFail)
            &&& final(cache).entries() == old(cache).entries()
            &&& header_readable(pending.request@) ==> header_id(reply@) == header_id(
                pending.request@,
            )
        },
{
    match exchange {
        Exchange::Reply { bytes } => {
            if is_well_formed(bytes.as_slice()) {
                let key = CacheKey { request: pending.request, country: pending.country };
                store_reply(cache, key, copy_bytes(bytes.as_slice()), now);
                bytes
            } else {
                build_error(pending.request.as_slice(), ResponseCode::ServFail)
            }
        },
        _ => build_error(pending.request.as_slice(), ResponseCode::ServFail),
    }
}

/// Takes the outcome of a forward up at any instant. It does what `on_exchange` does,
/// except where a reply would have to be cached at an instant too late to give it an
/// expiry: then nothing is returned and the cache stays as it was.
pub fn try_on_exchange(cache: &mut ResponseCache, pending: Pending, exchange: Exchange, now: u64) -> (reply:
    Option<Vec<u8>>)
    ensures
        reply is None <==> relayed(exchange) && now > LAST_INSTANT,
        reply is None ==> final(cache).entries() == old(cache).entries(),
        reply matches Some(bytes) ==> {
            &&& bytes@ == response_to(pending.request@, exchange)
            &&& final(cache).entries() == if relayed(exchange) {
                after_store(
                    old(cache).entries(),
                    (pending.request@, pending.country@),
                    bytes@,
                    reply_ttl(bytes@),
                    now,
                )
            } else {
                old(cache).entries()
            }
        },
{
    let late: bool = now > LAST_INSTANT && match &exchange {
        Exchange::Reply { bytes } => is_well_formed(bytes.as_slice()),
        _ => false,
    };
    if late {
        None
    } else {
        Some(on_exchange(cache, pending, exchange, now))
    }
}

/// Whether the outcome of a forward is relayed to the client: a reply that parses is,
/// nothing else.
pub open spec fn relayed(exchange: Exchange) -> bool {
    exchange matches Exchange::Reply { bytes } && decoded(bytes@) is Some
}

/// The response that the outcome of a forward calls for: the upstream's reply where it
/// is relayed, a server failure in answer to the request where it is not.
pub open spec fn response_to(request: Seq<u8>, exchange: Exchange) -> Seq<u8> {
    match exchange {
        Exchange::Reply { bytes } => if decoded(bytes@) is Some {
            bytes@
        } else {
            error_response(request, ResponseCode::ServFail)
        },
        _ => error_response(request, ResponseCode::ServFail),
    }
}

/// The response to a request that holds a whole header carries the request's
/// transaction ID, provided that the upstream's reply, where one is relayed, carries it.
pub proof fn lemma_response_echoes_transaction_id(request: Seq<u8>, exchange: Exchange)
    requires
        header_readable(request),
        exchange matches Exchange::Reply { bytes } ==> decoded(bytes@) is Some ==> header_id(bytes@)
            == header_id(request),
    ensures
        header_id(response_to(request, exchange)) == header_id(request),
{
    lemma_error_echoes_transaction_id(request, ResponseCode::ServFail);
}

/// A forward that times out, fails or brings a reply that does not parse is answered
/// with a server failure: a response that carries the request's transaction ID and the
/// code for a server failure.
pub proof fn lemma_failed_forward_gets_server_failure(request: Seq<u8>, exchange: Exchange)
    requires
        header_readable(request),
        !relayed(exchange),
    ensures
        response_to(request, exchange) == error_response(request, ResponseCode::ServFail),
        header_id(response_to(request, exchange)) == header_id(request),
        header_message_type(response_to(request, exchange)) == MessageType::Response,
        header_response_code(response_to(request, exchange)) == 2,
{
    lemma_error_echoes_transaction_id(request, ResponseCode::ServFail);
}

/// A relayed reply is cached until the smallest TTL of its answers has passed, or the
/// default TTL where it answers nothing: up to that instant a repeat of the request for
/// the same country is served the reply byte for byte, and from that instant on it is
/// served nothing.
pub proof fn lemma_relayed_reply_serves_repeats(
    entries: Map<(Seq<u8>, Seq<char>), (Seq<u8>, u64)>,
    request: Seq<u8>,
    country: Seq<char>,
    reply: Seq<u8>,
    now: u64,
    later: u64,
)
    requires
        now <= LAST_INSTANT,
    ensures
        after_store(entries, (request, country), reply, reply_ttl(reply), now)[(request, country)]
            == (reply, (now + reply_ttl(reply) * 1000) as u64),
        later < now + reply_ttl(reply) * 1000 ==> served(
            after_store(entries, (request, country), reply, reply_ttl(reply), now),
            (request, country),
            later,
        ) == Some(reply),
        later >= now + reply_ttl(reply) * 1000 ==> served(
            after_store(entries, (request, country), reply, reply_ttl(reply), now),
            (request, country),
            later,
        ) is None,
        answer_ttl(reply) is None ==> reply_ttl(reply) == DEFAULT_TTL_SECONDS,
        answer_ttl(reply) matches Some(ttl) ==> reply_ttl(reply) == ttl,
{
    assert(expiry(now, reply_ttl(reply)) <= u64::MAX);
}

/// An error response echoes the transaction ID of a request that holds a whole header,
/// is marked as a response and carries the code it was built for.
pub proof fn lemma_error_echoes_transaction_id(request: Seq<u8>, code: ResponseCode)
    requires
        header_readable(request),
    ensures
        error_response(request, code).len() == HEADER_LEN,
        header_id(error_response(request, code)) == header_id(request),
        header_message_type(error_response(request, code)) == MessageType::Response,
        header_response_code(error_response(request, code)) == code.number(),
{
    lemma_header_only_fields(header_id(request), MessageType::Response, 0, code.number());
}

/// The error response to a request too short for a header carries the ID 0, whatever
/// the bytes are: two such requests get the same response.
pub proof fn lemma_truncated_request_gets_id_zero(request: Seq<u8>, other: Seq<u8>, code: ResponseCode)
    requires
        !header_readable(request),
        !header_readable(other),
    ensures
        header_id(error_response(request, code)) == 0,
        header_response_code(error_response(request, code)) == code.number(),
        error_response(request, code) == error_response(other, code),
{
    lemma_header_only_fields(0, MessageType::Response, 0, code.number());
}

} // verus!
