# Uniswap arbitrage bot

A bot that scans Uniswap V2 and V3 pools for two-swap closed-loop arbitrage. It
reads confirmed chain state only: the reserves of V2 pairs and read-only calls of
the V3 quoter. It runs dry unless told otherwise, and prints each opportunity as a
line of JSON. In live mode it calls an executor contract; where Telegram alerts are
switched on, it sends one for each opportunity.

The decisions of the bot are a library that is verified with Verus. The program
around it does the input and output.

## The library, `src/`

| module        | what it holds |
|---------------|---------------|
| `types`       | 256-bit amounts, addresses, 32-byte identifiers |
| `text`        | decimal and hexadecimal notation, white space, prefixes |
| `config`      | the configuration: validation, placeholders, defaults, endpoints |
| `dex`         | quotes: the constant-product formula, what to ask the chain, what an answer means |
| `opportunity` | the swaps of a route, and what is reported of it |
| `profit`      | profit, gas and the threshold; what becomes of a route |
| `agenda`      | the routes that a scan goes through, in order |
| `scanner`     | a scan as a conversation with the chain |
| `stability`   | what the result of a scan does not depend on |
| `ranking`     | the most promising opportunities first |
| `runner`      | when to scan, and what to do with what was found |
| `executor`    | the call that takes an opportunity |
| `notifier`    | the text of alerts and where they go |

Every function that is written out states what it returns for every input it takes
(the derived `Clone` and `Debug` impls state nothing), and the public
proof functions named `law_..` state what holds of the library as a whole: a trade
never drains a pool, a route without a price difference earns nothing, a dry run
executes nothing, a failed execution ends the report, a pool that cannot be quoted
drops only its own routes, what is reported is a closed loop above the threshold, and
so on.

256-bit arithmetic, the reading and writing of amounts and the writing of addresses
come from `ethers`. The contracts of these few calls are trusted; the doc comment of
each says what it claims.

## The program, `app/`

`main` holds the command line (`once`, `watch`, `watch-blocks`), `config` reads the
YAML file, `dex` asks the chain, `scanner` runs scans and logs them, `executor` sends
transactions and `notifier` sends alerts.

## Dependencies

`ethers-providers` is named beside `ethers` only to switch on TLS for WebSocket
endpoints (`wss://`). The `rustls` feature of `ethers` would do the same, but it
brings in far more packages.
