# netflow-query-api

A read-only REST API over the traffic statistics that a NetFlow collector writes to
PostgreSQL. The rules of the service are a Verus library; the HTTP server, the database and
the files around it are ordinary Rust.

## Layout

| Path | What it holds |
|---|---|
| `src/routes.rs` | the endpoints: parameters, sources, and the query each request comes to |
| `src/query.rs` | what the rows of the database come to in a response |
| `src/auth.rs` | API keys, and the address of the client behind trusted proxies |
| `src/config.rs` | the configuration and its checks |
| `src/threshold.rs` | the threshold of the threshold check, in bytes |
| `src/timeutil.rs` | dates, instants and days in Taipei |
| `src/address.rs` | IP addresses and networks |
| `src/models.rs`, `src/error.rs` | responses and errors |
| `src/cli.rs` | the command line and the reports to the operator |
| `src/text.rs` | trimming, splitting, joining and numerals |
| `tests/` | tests of the library |
| `app/` | the service: axum routes, SQL, TOML, JSON, `main` |

## How to read the contracts

Each function says in `ensures` what it returns, over spec functions on sequences and
integers. Functions named `law_*` state what holds of the library as a whole: that headers of
strangers are ignored, that an empty list closes its endpoint, that the days of Taipei fit
together, and so on.

Reading and writing addresses, dates and instants is done by the crates `ipnetwork`, `chrono`
and `chrono-tz`. The functions that call them are marked `external_body`; their comments say
what is taken for granted of each call.
