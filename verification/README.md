# external_node

The decisions of an external node of a rollup: a node that follows the main
node, copies its blocks and attests its batches.

- `src/` is the verified library. Each long-running task of the node is a state
  machine there, with a model, an exact contract for every transition, and laws
  about whole runs.
- `app/` runs the machines: it performs the RPC calls, the database access and
  the waiting, and hands the outcomes in as events.
- `tests/` runs the library on concrete values.

| module           | task                                                        |
|------------------|-------------------------------------------------------------|
| `node`           | the steps of the node, what each gets, and how it ends      |
| `head`           | keeping track of the main node's last block                 |
| `config_fetch`   | getting the global configuration                            |
| `config_monitor` | watching the global configuration for a change              |
| `attestation`    | attesting batch after batch                                 |
| `block_fetch`    | fetching one block, with retries                            |
| `sequential`     | requesting all blocks from some number on                   |
| `fallback`       | requesting blocks while the node lags behind                |
| `consumer`       | handing fetched blocks on, in order                         |
| `pipeline`       | producer, channel and consumer together                     |
| `genesis`, `config`, `numbers`, `bytes`, `error` | the data they work on       |
