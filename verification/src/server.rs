//! The server's side of discovery: which requests it answers, with what, and
//! which port it takes.
use vstd::prelude::*;
use crate::config::DiscoverConfig;
use crate::config::is_default_config;
use crate::error::DiscoverError;
use crate::protocol::MSG_TYPE_REQUEST;
use crate::protocol::PROTOCOL_HEADER_SIZE;
use crate::protocol::decode_message;
use crate::protocol::encode_response;
use crate::protocol::message_of;
use crate::protocol::decode_error_text;
use crate::protocol::response_bytes;
use crate::protocol::check_json;
use crate::protocol::json_document;
use crate::protocol::json_parse_error;
use crate::protocol::MSG_TYPE_RESPONSE;
use crate::laws::lemma_response_is_understood;
use crate::laws::response_payload;

verus! {

/// Size of the buffers that the client and the server receive datagrams into.
pub const RECV_BUFFER_SIZE: usize = 4096;

/// The most bytes the JSON text of custom data may have: a response that
/// carries it still fits in a receive buffer.
pub const MAX_CUSTOM_DATA_SIZE: usize = 4083;

/// Whether `buf` is a well-formed discovery request.
pub open spec fn is_request(buf: Seq<u8>) -> bool {
    message_of(buf) matches Some((t, _)) && t == MSG_TYPE_REQUEST
}

/// What the server makes of a datagram: an error when it is not a
/// well-formed message, nothing when it is a message of another type, and
/// the response to send back when it is a request. The response carries the
/// JSON text of the custom data, or no payload when there is none.
pub fn handle_discover_request(received_data: &[u8], custom_data: Option<&[u8]>) -> (res: Result<
    Option<Vec<u8>>,
    DiscoverError,
>)
    requires
        custom_data matches Some(d) ==> d@.len() <= u32::MAX,
    ensures
        res is Err <==> message_of(received_data@) is None,
        res matches Err(e) ==> (e matches DiscoverError::Protocol(m) && m@ == decode_error_text(received_data@)),
        res matches Ok(Some(_)) <==> is_request(received_data@),
        res matches Ok(Some(r)) ==> r@ == response_bytes(
            match custom_data {
                Some(d) => Some(d@),
                None => None,
            },
        ),
        message_of(received_data@) matches Some((t, _)) ==> (t == MSG_TYPE_REQUEST <==> res matches Ok(
            Some(_),
        )),
{
    let frame = decode_message(received_data)?;
    if frame.msg_type == MSG_TYPE_REQUEST {
        Ok(Some(encode_response(custom_data)))
    } else {
        Ok(None)
    }
}

/// Checks that the JSON text of custom data is small enough that a response
/// carrying it fits in a receive buffer.
pub fn check_custom_data(data: Vec<u8>) -> (res: Result<Vec<u8>, DiscoverError>)
    ensures
        data@.len() <= MAX_CUSTOM_DATA_SIZE ==> (res matches Ok(d) && d@ == data@),
        data@.len() > MAX_CUSTOM_DATA_SIZE ==> (res matches Err(DiscoverError::Other(m)) && m@
            == "Custom data is too large"@),
{
    if data.len() <= MAX_CUSTOM_DATA_SIZE {
        Ok(data)
    } else {
        let mut m = String::new();
        m.append("Custom data is too large");
        Err(DiscoverError::Other(m))
    }
}

/// The port to try at attempt `attempt` (counting from 0): the configured
/// ports in order, then `NoAvailablePort` once all have been tried.
pub fn candidate_port(ports: &[u16], attempt: usize) -> (res: Result<u16, DiscoverError>)
    ensures
        attempt < ports@.len() ==> (res matches Ok(p) && p == ports@[attempt as int]),
        attempt >= ports@.len() ==> res matches Err(DiscoverError::NoAvailablePort),
{
    if attempt < ports.len() {
        Ok(ports[attempt])
    } else {
        Err(DiscoverError::NoAvailablePort)
    }
}

/// Law: a response that carries accepted custom data fits in a receive buffer.
pub proof fn lemma_response_fits(custom: Option<Seq<u8>>)
    requires
        custom matches Some(d) ==> d.len() <= MAX_CUSTOM_DATA_SIZE,
    ensures
        response_bytes(custom).len() <= RECV_BUFFER_SIZE,
{
    assert(PROTOCOL_HEADER_SIZE + MAX_CUSTOM_DATA_SIZE == RECV_BUFFER_SIZE);
}

/// Whether `data` may be a server's custom data: a JSON document, not empty,
/// whose response fits in a receive buffer.
pub open spec fn custom_data_acceptable(data: Seq<u8>) -> bool {
    &&& 0 < data.len() <= MAX_CUSTOM_DATA_SIZE
    &&& json_document(data)
}

/// Law: custom data is acceptable exactly when it is not empty, fits in a
/// response, and serde_json accepts it as one JSON document; any JSON
/// document (an object, an array, a string, a number, ...) of that size is.
pub proof fn lemma_custom_data_acceptable(data: Seq<u8>)
    ensures
        custom_data_acceptable(data) <==> (0 < data.len() <= MAX_CUSTOM_DATA_SIZE
            && json_parse_error(data) is None),
{
}

/// What a server is built with: its configuration and the JSON text of its
/// custom data, which always fits in a response.
pub struct ServerSettings {
    config: DiscoverConfig,
    custom_data: Option<Vec<u8>>,
}

impl ServerSettings {
    #[verifier::type_invariant]
    spec fn custom_data_fits(self) -> bool {
        self.custom_data matches Some(d) ==> custom_data_acceptable(d@)
    }

    /// The configuration of the server.
    pub closed spec fn configuration(&self) -> DiscoverConfig {
        self.config
    }

    /// The JSON text of the server's custom data, if it has any.
    pub closed spec fn custom_payload(&self) -> Option<Seq<u8>> {
        match self.custom_data {
            Some(d) => Some(d@),
            None => None,
        }
    }

    /// Settings with the default configuration and no custom data.
    pub fn new() -> (s: Self)
        ensures
            is_default_config(s.configuration()),
            s.custom_payload() is None,
    {
        Self::with_config(DiscoverConfig::default())
    }

    /// Settings with the given configuration and no custom data.
    pub fn with_config(config: DiscoverConfig) -> (s: Self)
        ensures
            s.configuration() == config,
            s.custom_payload() is None,
    {
        ServerSettings { config, custom_data: None }
    }

    /// Sets the JSON text of the custom data, in place of any set before.
    /// Refuses it when a response that carries it would not fit in a receive
    /// buffer, when it is not one JSON document, or when it is empty.
    pub fn with_custom_data(self, data: Vec<u8>) -> (res: Result<Self, DiscoverError>)
        ensures
            res is Ok <==> custom_data_acceptable(data@),
            0 < data@.len() <= MAX_CUSTOM_DATA_SIZE && json_parse_error(data@) is None ==> (
            res matches Ok(s) && s.configuration() == self.configuration() && s.custom_payload()
                == Some(data@)),
            data@.len() == 0 || data@.len() > MAX_CUSTOM_DATA_SIZE || json_parse_error(data@) is Some
                ==> res is Err,
            res matches Ok(s) ==> s.configuration() == self.configuration() && s.custom_payload()
                == Some(data@),
            data@.len() > MAX_CUSTOM_DATA_SIZE ==> (res matches Err(DiscoverError::Other(m))
                && m@ == "Custom data is too large"@),
            data@.len() <= MAX_CUSTOM_DATA_SIZE ==> (json_parse_error(data@) matches Some(reason)
                ==> (res matches Err(DiscoverError::Other(m)) && m@
                == "Custom data is not a JSON document: "@ + reason)),
            data@.len() == 0 && json_document(data@) ==> (res matches Err(DiscoverError::Other(m))
                && m@ == "Custom data is empty"@),
    {
        let data = check_custom_data(data)?;
        match check_json(data.as_slice()) {
            Err(reason) => {
                let mut m = String::new();
                m.append("Custom data is not a JSON document: ");
                m.append(reason.as_str());
                return Err(DiscoverError::Other(m));
            },
            Ok(()) => {},
        }
        if data.len() == 0 {
            let mut m = String::new();
            m.append("Custom data is empty");
            return Err(DiscoverError::Other(m));
        }
        let ServerSettings { config, custom_data: _ } = self;
        Ok(ServerSettings { config, custom_data: Some(data) })
    }

    /// The configuration of the server.
    pub fn config(&self) -> (c: &DiscoverConfig)
        ensures
            *c == self.configuration(),
    {
        &self.config
    }

    /// The JSON text of the server's custom data, if it has any.
    pub fn custom_data(&self) -> (d: Option<&[u8]>)
        ensures
            match d {
                Some(b) => self.custom_payload() == Some(b@),
                None => self.custom_payload() is None,
            },
            d matches Some(b) ==> custom_data_acceptable(b@),
    {
        proof {
            use_type_invariant(self);
        }
        match &self.custom_data {
            Some(v) => Some(v.as_slice()),
            None => None,
        }
    }

    /// What the server sends back for a datagram: an error when it is not a
    /// well-formed message, nothing when it is not a request, and the
    /// response carrying the custom data when it is one.
    pub fn respond(&self, received_data: &[u8]) -> (res: Result<Option<Vec<u8>>, DiscoverError>)
        ensures
            res is Err <==> message_of(received_data@) is None,
            res matches Err(e) ==> (e matches DiscoverError::Protocol(m) && m@ == decode_error_text(received_data@)),
            res matches Ok(Some(_)) <==> is_request(received_data@),
            message_of(received_data@) matches Some((t, _)) ==> (t == MSG_TYPE_REQUEST
                <==> res matches Ok(Some(_))),
            res matches Ok(Some(r)) ==> r@ == response_bytes(self.custom_payload()),
            res matches Ok(Some(r)) ==> r@.len() <= RECV_BUFFER_SIZE,
            res matches Ok(Some(r)) ==> message_of(r@) == Some(
                (MSG_TYPE_RESPONSE, response_payload(self.custom_payload())),
            ),
    {
        proof {
            use_type_invariant(self);
            lemma_response_fits(self.custom_payload());
            lemma_response_is_understood(self.custom_payload());
        }
        handle_discover_request(received_data, self.custom_data())
    }
}

impl Default for ServerSettings {
    fn default() -> (s: Self)
        ensures
            is_default_config(s.configuration()),
            s.custom_payload() is None,
    {
        Self::new()
    }
}

/// Custom data that a server may announce: a name and a version.
#[derive(Clone, Debug)]
pub struct CustomData {
    pub name: String,
    pub version: String,
}

impl CustomData {
    /// Custom data with the given name and version.
    pub fn new(name: String, version: String) -> (c: Self)
        ensures
            c.name@ == name@,
            c.version@ == version@,
    {
        CustomData { name, version }
    }
}

} // verus!
