# serial_gateway

A gateway between a telemetry device on a serial line and UDP clients, written in
Verus.

The device sends log records, COBS/R-encoded and ended by zero bytes. The gateway
decodes them, shows them, and sends the numbers in them to a plotter. Clients send
commands such as `!PWM_A 1200` or `!F_TEST 1.5`; the gateway writes them to the
device as packets.

- `src/` is the library. It cuts the line into frames, takes log records out of them,
  reads commands, builds packets and plot messages, and decides what is done with each
  event. It performs no input or output. Its functions have contracts that Verus
  proves.
- `app/` is the program: arguments, sockets, the serial port, the decoder of
  `cdefmt_decoder` that turns a log record into a log, and what needs floating point.
- `tests/` runs the library.

What is trusted rather than proved is marked in `src/`: `char::is_whitespace`,
`str::to_uppercase` and `String::from_utf8_lossy` of std in `text.rs`, `to_ne_bytes` of
std in `bytes.rs`, and `decode_max_output_size` and `decode_array` of `cobs2` in
`frames.rs`.

The decoder of `cdefmt_decoder` panics on some ELF files and on some log records, and
the library does not call it: the program hands it each record that the library takes
out of a frame, and hands the library what came back.

A packet is two bytes of length, least significant first, one byte that names the
variable, and the value in the byte order of the machine that the gateway runs on.
