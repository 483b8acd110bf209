//! What the client and the server make of each other's messages.
use vstd::prelude::*;
use crate::client::is_response;
use crate::protocol::MSG_TYPE_REQUEST;
use crate::protocol::MSG_TYPE_RESPONSE;
use crate::protocol::frame_bytes;
use crate::protocol::holds_whole_message;
use crate::protocol::json_parse_error;
use crate::protocol::lemma_trailing_bytes_ignored;
use crate::protocol::lemma_decode_encoded_frame;
use crate::protocol::message_of;
use crate::protocol::payload_acceptable;
use crate::protocol::request_bytes;
use crate::protocol::response_bytes;
use crate::server::is_request;

verus! {

/// The payload of the response that carries `custom`.
pub open spec fn response_payload(custom: Option<Seq<u8>>) -> Seq<u8> {
    match custom {
        Some(d) => d,
        None => Seq::empty(),
    }
}

/// Law: a discovery request is taken as a request with no payload, and never
/// as a response.
pub proof fn lemma_request_is_understood()
    ensures
        message_of(request_bytes()) == Some((MSG_TYPE_REQUEST, Seq::<u8>::empty())),
        is_request(request_bytes()),
        !is_response(request_bytes()),
{
    lemma_decode_encoded_frame(MSG_TYPE_REQUEST, Seq::empty());
}

/// Law: a response is taken as a response whose payload is the server's
/// custom data (empty when there is none), and never as a request, provided
/// the custom data is a JSON document that a frame can carry.
pub proof fn lemma_response_is_understood(custom: Option<Seq<u8>>)
    requires
        custom matches Some(d) ==> d.len() <= u32::MAX && payload_acceptable(d),
    ensures
        message_of(response_bytes(custom)) == Some((MSG_TYPE_RESPONSE, response_payload(custom))),
        is_response(response_bytes(custom)),
        !is_request(response_bytes(custom)),
{
    lemma_decode_encoded_frame(MSG_TYPE_RESPONSE, response_payload(custom));
    assert(response_bytes(custom) == frame_bytes(MSG_TYPE_RESPONSE, response_payload(custom)));
}

/// Law: every message built from any type and any payload that is empty or
/// one JSON document (and that a frame can carry) is decoded back to that
/// type and that payload.
pub proof fn lemma_message_decodes(msg_type: u8, payload: Seq<u8>)
    requires
        payload.len() <= u32::MAX,
        payload.len() == 0 || json_parse_error(payload) is None,
    ensures
        message_of(frame_bytes(msg_type, payload)) == Some((msg_type, payload)),
{
    lemma_decode_encoded_frame(msg_type, payload);
}

/// Law: a decoded message is a request exactly when its type is the request
/// type, and a response exactly when its type is the response type,
/// whatever its payload.
pub proof fn lemma_roles_follow_type(buf: Seq<u8>)
    ensures
        message_of(buf) matches Some((t, _)) ==> (is_request(buf) <==> t == MSG_TYPE_REQUEST),
        message_of(buf) matches Some((t, _)) ==> (is_response(buf) <==> t == MSG_TYPE_RESPONSE),
        message_of(buf) is None ==> !is_request(buf) && !is_response(buf),
{
}

/// Law: a request that carries any payload that is empty or one JSON
/// document is a request the server answers; likewise a response with such
/// a payload is one the client takes.
pub proof fn lemma_any_payload_keeps_role(payload: Seq<u8>)
    requires
        payload.len() <= u32::MAX,
        payload.len() == 0 || json_parse_error(payload) is None,
    ensures
        is_request(frame_bytes(MSG_TYPE_REQUEST, payload)),
        !is_response(frame_bytes(MSG_TYPE_REQUEST, payload)),
        is_response(frame_bytes(MSG_TYPE_RESPONSE, payload)),
        !is_request(frame_bytes(MSG_TYPE_RESPONSE, payload)),
{
    lemma_decode_encoded_frame(MSG_TYPE_REQUEST, payload);
    lemma_decode_encoded_frame(MSG_TYPE_RESPONSE, payload);
}

/// Law: bytes after the message a buffer announces change neither whether
/// it is a request nor whether it is a response.
pub proof fn lemma_trailing_bytes_keep_role(buf: Seq<u8>, extra: Seq<u8>)
    requires
        holds_whole_message(buf),
    ensures
        is_request(buf + extra) == is_request(buf),
        is_response(buf + extra) == is_response(buf),
{
    lemma_trailing_bytes_ignored(buf, extra);
}

} // verus!
