# plentra

Backend of an energy-market analytics service for the Polish wholesale
electricity market: fuel and carbon prices, clean spark and dark spreads,
residual demand, reserves and curtailment, served as JSON over HTTP.

The crate is split in two.

- `src/` is the library, verified with Verus. It holds the service's
  decisions and data handling: ICE contract symbols and the contracts a
  spread calculation needs, calendar arithmetic, PSE request filters and
  Warsaw-time timestamps, reading ENTSO-E XML documents, the stable
  sort-and-dedup applied to settlement prices and hourly readings, history
  query defaults, configuration parsing, the response cache's expiry rule,
  change-point alerts, the daily scheduler's timing, the admin endpoints'
  decisions, the order in which the summary looks for its retrospective
  text, and reading Stooq's daily CSV history. Each public function states
  its result in its contract, with one exception: the methods of `Cache`
  read and write a map shared between threads through `&self`, so their
  contracts fix what is handed to the map (the entry `new_entry` builds,
  the expiry rule `fresh_entry` applies) but not what the map holds. The
  `law_*` proof functions state properties across calls.
- `app/` is the service around it: the HTTP routes, database access, the
  fetchers that call Databento, ENTSO-E, PSE and Stooq, the language-model calls,
  and the floating-point analytics (spreads, decompositions, forecasts).

`tests/` runs the library on concrete values.
