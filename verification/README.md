# pow_gate_core

The engine of a proof-of-work gate for nginx, written in Verus: executable Rust
whose behaviour is stated in contracts and proved.

A client that is challenged searches a nonce `n` with
`SHA-256(salt + n) < 2^256 / difficulty`, submits it together with a P-256 public
key, and is given a clearance cookie. Later requests pass on the cookie; requests
from page script can be asked for a signature of their own. Clients without
JavaScript can be given a timed grant instead. The server keeps no state per
client: challenges, grants and clearances are bound to it by HMAC-SHA256.

## Layout

    src/           the verified library
      target, pow, clearance, request_proof, nojs, decision, ranges, replay, uri
                   tokens and rules
      server/      what is answered to a request, on plain values
      perf         the client's side of the handshake
      text, number, bytes, address, codec, json, mac
                   what these share
    tests/         tests of the library
    app/           the nginx module: FFI, files, threads, DNS, the load generator

The public functions state in `ensures` what they return; the one without is
`server::runtime::now`, since nothing holds of every reading of a clock. Laws that
relate several functions stand at the end of each module as public proof functions.

## What is relied on

`base64`, `hmac`, `sha2`, `subtle`, `p256`, `getrandom` and `serde_json` do their
own work. Each call stands in a small function marked `external_body`, whose
contract and doc comment say what is claimed of the outside function.

`app/` needs the nginx sources to build (through the `ngx` crate), and the browser
assets `challenge.html`, `challenge-nojs.html` and `solver.js` installed under
`/usr/share/pow-gate/assets`.
