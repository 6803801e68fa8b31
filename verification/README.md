# tdx

A client library for the TDX (TongdaXin) market data protocol, written in Verus.

- `src/` is the verified library: byte reading and writing (`wire`), the protocol's
  number encodings (little-endian integers, variable-length prices, packed dates),
  request and response framing with zlib bodies (`frame`), the session bookkeeping of a
  connection (`client`), and the commands of the standard market server (`standard`:
  handshake, bars, quotes, transactions, ex-rights records). Every decoder is specified
  by a parser over byte sequences; the executable code is proved to return exactly what
  that parser describes, and never to panic.
- `tests/` runs the library on concrete inputs.
- `app/` holds what the verified library leaves out: TCP connections with timeouts and
  the floating-point views of decoded records (prices in yuan, IEEE-754 quantities).

The library decodes every response into integers: bar prices in thousandths of a yuan,
and single-precision quantities as their bit patterns. `app/` turns them into `f64`.
