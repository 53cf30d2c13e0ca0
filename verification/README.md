# marketdata-service

A market data fan-out service whose rules are proved with Verus.

A feed publishes order books. Ingest stores the latest book of each instrument and then
publishes it on a bus. Clients ask for the latest book, or subscribe to instruments and
receive each book that is published from then on. A subscriber that does not keep up
loses books and is told how many. No book waits for a subscriber: what is stored and
published is proved to be independent of what subscribers do, and each of them of the
others. The program shares the table and the bus under locks that are held for one book or
one turn at a time.

## Layout

- `src/` is the library. It is verified, apart from the calls into `dashmap`, `tokio` and
  the standard library that are marked as `external_body`: what these do is assumed.
  - `types`: instruments, flags and books. `text`, `vars`: texts, numbers, settings. Two of
    the assumed calls, into the standard library, are in `text`.
  - `feed`: the simulated feed: configuration, random numbers, generator, pacing, buffer.
  - `table`, `channel`: what is assumed of `dashmap` and of the channels of `tokio`.
  - `snapshot`, `bus`: the table of latest books, and the bus with its subscriptions.
  - `fanout`, `isolation`, `course`: the model of the bus, what holds of many subscribers, and
    what becomes of one over a course of events.
  - `upstream`, `ingest`, `grpc`, `config`, `service`, `client`: the way of a book from the
    feed to the wire.
- `app/` is the program: threads, sockets, the environment, prices. It is not verified.
- `tests/` run the library with the real outside crates.

Prices and quantities are carried as bit patterns of floats. The library does not
compute with them.

## Running

```sh
SIM_INSTRUMENTS=10 SIM_RATE_HZ=1000 marketdata-service
marketdata-service client
SIM_MAX_MESSAGES=200 PRINT_EVERY=20 marketdata-service print-messages
```
