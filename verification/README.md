# s2g

A verified core for an IEEE 802.11ah (S1G) physical layer: 2 MHz channels, one
spatial stream, long and short guard interval, BCC and LDPC, S1G_SHORT and
S1G_LONG preambles, NDP CMAC PPDUs, MCS 0 to 8 and 11.

`src/` is the library. Every function in it carries a contract that Verus
proves; properties that relate several functions stand as public proof
functions beside them.

| Module | What it holds |
|---|---|
| `params` | numerology, MCS tables, CCA thresholds, RCPI and RSSI codes, EVM limits, spectral mask |
| `bits`, `scrambler`, `mapping`, `ofdm`, `pilots`, `preamble` | bit order, scrambling, constellations, subcarriers, tone mapping, training fields |
| `ldpc` | the twelve codes, encoding, and the PPDU encoding process |
| `vector`, `sig` | TXVECTOR and RXVECTOR, SIG and SIG-A: layout, CRC, parsing, verdicts |
| `tx`, `rx`, `loopback` | transmit plans, the receive state machine, that what is sent comes back, and that the chunking of a stream does not matter |
| `pcap`, `recording`, `hex`, `text`, `octets` | capture and recording formats |
| `iiod`, `virtual_pluto` | the radio's network protocol, from both sides |
| `node`, `report`, `sim`, `wintap` | decisions of the tools |

Levels and amplitudes are integers here: constellation points are axis levels,
powers are in half or hundredth decibels. Floating-point signal processing,
files, sockets and the command-line tools are ordinary Rust under `app/`; they
hand the library plain values and act on its answers.

`tests/` runs the library on concrete values.
