# orca_pools

Pools of the Orca exchange: reading them out of their accounts, turning them into markets,
following their updates, and discovering fresh ones. The library is verified with Verus.

- `src/` is the library. `layout` decodes swap accounts; `rounding` and `binary64` carry fee
  rates in exact double precision; `orca`, `markets` and `table` list pools and file markets by
  pair; `fetch` reads accounts batch by batch; `stream` and `metrics` follow an account;
  `refresh` renews the cached pool list; `discovery` puts together what several exchanges know.
  Public functions named `law_` state what holds across calls.
- `app/` connects the library to the network, the file system, the clock and the log. It
  performs the steps that the library asks for and hands the outcomes back.
- `tests/` runs the library on concrete values.

What the library takes on trust is the base-58 form of addresses (`solana_program`), in `keys`,
and base-64 decoding (`base64`), in `stream`.
