# simple_discover

Service discovery on a local network over UDP multicast, with the protocol
logic verified by Verus.

A message is a 13-byte header and a payload:

    Magic (4 bytes, LE, 0x53445343 "SDSC") | Type (1) | Length (4, LE) | CRC32 (4, LE) | Payload

A request (type 0) has an empty payload. A response (type 1) carries the JSON
text of the server's custom data, or nothing when the server has none.

- `src/protocol.rs`: encoding and decoding of messages, and the laws that
  relate them (decoding gives back what was encoded; a decoded message has
  one encoding; bytes after the message a buffer announces change neither
  what it decodes to nor the error it is refused with), and the CRC-32
  definition with its standard check value.
- `src/client.rs`: what the client makes of a datagram, and the reduction of
  the devices found to one per address, sorted.
- `src/server.rs`: which datagrams the server answers and with what, the size
  limit of custom data, the order in which ports are tried, and
  `ServerSettings`, the configuration and custom data (a JSON document) a
  server is built with.
- `src/discovery.rs`: a client's round (`DeviceCollector`): the devices it
  takes from the datagrams it receives, and the laws that each server is
  reported once with its custom data and that foreign datagrams change
  nothing.
- `src/laws.rs`: a request is understood as a request and a response as a
  response carrying the server's custom data.
- `src/config.rs`, `src/error.rs`, `src/text.rs`: configuration, errors and
  the texts of errors.
- `app/`: sockets, multicast, timeouts and the server task (tokio).
