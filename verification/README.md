# arangodb_connector

The ArangoDB connector of the Irodori extension marketplace, with its logic
verified in Verus.

- `src/` is the verified library:
  - `text`: trimming, searching, splitting and replacing over character
    sequences;
  - `url`: percent-encoding of path components, with its decoding law;
  - `json`: the JSON values the connector reads and writes, and their model;
  - `config`: connection settings read from a request profile;
  - `secrets`: the secrets of a profile and their masking in messages;
  - `results`: columns and rows of query results, cursor bodies and
    replies, collection metadata;
  - `registry`: the table of open connections;
  - `connection`: an open connection and the requests it builds (reqwest);
  - `protocol`: call names, error codes, messages, reply documents, and
    the steps of each call (statement, lookup, registration, finishing).
- `app/` holds what runs around it: the tokio runtime, the HTTP exchanges,
  the shared connection table and the serde_json conversions.
- `tests/` exercises the library on concrete values.
