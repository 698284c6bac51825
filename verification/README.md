# rawusb

USB device access in the spirit of libusb, with its logic verified by
[Verus](https://github.com/verus-lang/verus).

`src/` is the library: everything the project decides or computes, on plain
values, with contracts that Verus proves. `app/` performs what the library
decides: it opens device nodes, submits requests to the kernel, waits for
completions and hands the outcomes back. `tests/` runs the library.

## Modules

| module | what it holds |
| --- | --- |
| `types`, `descriptors`, `error` | basic types, descriptor parsing, errors |
| `transfer`, `handle`, `device`, `context` | transfers, claims and leases, strings, lookup |
| `hotplug` | which events follow from a scan, and who hears them |
| `class` | what the class helpers share: finding interfaces, claiming them |
| `hid` | HID interfaces and the report descriptor parser |
| `msc` | bulk-only transport, SCSI commands, block access |
| `serial` | CDC-ACM ports and FTDI chips |
| `net` | CDC-ECM, CDC-NCM and RNDIS adapters |
| `uvc` | cameras: descriptors, negotiation, frame assembly |
| `sys` | the platforms: usbfs URBs and events, IOKit calls, WinUSB places |

The logic of all three platforms is in `sys`. `app/` performs it on Linux; on
other systems its backend reports that USB is not supported there.

## How it is put together

Where an operation alternates between the device and a decision, the library
has a state machine: it says what to do next (`TransportAction`, `OpenAction`,
`ExchangeAction`, ...), and takes the outcome of that in its `step`. The
contract of a step is an open spec function from state and outcome to the next
state and action, so laws about whole runs (that they end, that a failed command
was followed by reset recovery, that streaming starts last) are proved over the
same functions that the executable code meets.

Times are nanoseconds, `0` means none. Errors are values of `Error`; their view
is `ErrorView`. Every `pub proof fn` states a law of the library in its doc
comment.

## What is trusted

A few calls are taken at their documented word: `String::from_utf8_lossy`,
`String::from_utf16_lossy`, `Debug` for `str`, `std::io::Error::last_os_error`,
and the counters of `pktkit::DeviceStats`. The doc comment of each says what is
claimed of it.
