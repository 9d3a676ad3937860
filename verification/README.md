# senda

The rules of a mesh of machines that serve language models together, written in
Verus: every function of the library is verified against its contract.

- `src/` is the library.
  - What the mesh says of itself: `model_ad` (signed claims on what a node
    serves), `trust`, `peers`, `split` (who serves a model with whom), `gpus`,
    `runtime`, `status`, `models`, `interests`, and `api`, which ties them together.
  - What a node finds out: `baseline` (how fast a model runs here), `fingerprint`
    and `verify` (whether a peer runs the model that it claims to run).
  - What a node does about itself: `visibility` (reaching the mesh again),
    `watchdog` (models that never finish loading), `service` (the background
    service), `routes`.
  - What these rest on: `text`, `bytes`, `order`, `text_map`, `json`, `hexcodec`,
    `crypto`, `clock`, and exact arithmetic on doubles in `double` and `gigabytes`.
- `tests/` runs the library on concrete values.
- `app/` is the program around it: the command line, files, network and clocks.

The functions whose names start with `law_` state what holds of several functions
at once. Floating point values are held as their bit patterns, or computed exactly
where a decision rests on them. What is taken on trust from other crates stands in
`crypto`, `hexcodec`, `json`, `text` and `clock`; each such item says what it
claims of the function that it calls.
