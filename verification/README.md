# fping

A fast ICMP echo prober for many hosts at once, built around a library
whose logic is verified with Verus.

- `src/` is the verified library: ICMP echo request construction and the
  Internet checksum (`socket`), recognition of echo replies, the per-host
  statistics (`types`), the probing state machine with its scheduling,
  sequence numbers, reply matching, timeouts and final report (`pinger`),
  address selection (`dns`), host file parsing (`hostfile`), all text
  output (`output`, `tui`, `text`) and times (`time`).
- `app/` is the program around it: command-line parsing, raw and datagram
  ICMP sockets, name lookup, the clock, the terminal UI, and the loop that
  performs the I/O the state machine asks for.
- `tests/` exercises the library on concrete values.

Times are printed from exact integer nanosecond counts, rounded to the
nearest shown digit with an exact half to the even digit; no floating-point
value takes part in the output.
