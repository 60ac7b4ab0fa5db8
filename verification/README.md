# mfro

Home automation logic, verified with Verus.

- `src/` is the verified library:
  - `message`, `frame`, `scan` and `dsp`: decoding Honeywell 5816
    door/window sensor broadcasts (sync search, CRC-16/UMTS frame check,
    payload fields, the radio loop's decisions, the scanner's phases,
    convolution).
  - `schedule`: the garbage pickup calendar (date parsing, grouping by
    day, the iCalendar document, a time-based cache).
  - `server`: routing and token checks of the automation web server.
  - `bench`: timing spans and benchmarks, and Bluetooth advertisement
    helpers.
  - `homekey`: the automatic-login credential provider's state, its
    reference count and the Kerberos logon buffer.
- `app/` is the program around it: the radio, MQTT, HTTP and Bluetooth I/O,
  and the floating-point signal processing.
- `tests/` runs the library against the outside crates it calls.

Calls into outside crates (`crc`, `bitvec`, `chrono`, `icalendar`) go
through a few trusted wrappers; each states in its doc comment what it
claims of the call.
