# hitr

The verified core of hitr, a REST client for Bruno-format collections.

- `src/` is the library, checked by Verus: the data model, the curl
  tokenizer, parser and exporter (with the proof that an exported command
  reads back as the request, in `curl_round_trip`), `{{var}}` substitution
  and request preparation, JSON comment stripping, the secrets vault (its
  key/value operations, environment rename and delete, and sealing with
  age), the collection loader's rules, request history, the OpenAPI
  importer (the spec text read with `openapiv3` in `openapi_doc`, the
  planning over its model and the skip-existing rule),
  the request editor's and environment editor's rules, and the response
  viewer's JSON tree.
- `tests/` exercises the library on concrete values.
- `app/` is the host around it: files on disk, the vault file, sending
  with reqwest, YAML of requests and environments, and the commands a user
  interface calls.
