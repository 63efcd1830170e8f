# elgato_streamdeck

Transports for Elgato Stream Deck devices, with their logic verified in
[Verus](https://github.com/verus-lang/verus).

- `src/` is the library. It holds no sockets, handles or threads: the `Transport` interface with
  the identity reports of each device kind (`transport`), the CORA wire format
  (`transport::cora::frame`), what frames do to a connection (`transport::cora::connection`), the
  dock's description of the attached deck (`transport::cora::device2`), and discovery and the deck
  as a transport (`transport::cora::session`).
- `app/` does the I/O: USB HID through `hidapi`, and TCP with one reader thread per connection.
- `tests/` runs the library on made-up traffic.

Beside the contracts of its functions the library proves, among other things, that encoded frames
are read back as they were sent, in however many reads they arrive; that every keepalive is
acknowledged; that an answer reaches its requester once; and that input reports are read in the
order of arrival, also after the connection is lost.
