# netai_cloud

The decision logic of a set of cloud controllers and services, written in
Verus with its contracts proved.

- `src/` is the verified library:
  - `sorted`: an ordered map kept as a strictly sorted vector, viewed as a `Map`;
  - `text`: decimal rendering and text comparison;
  - `network`: request-latency histograms and the traffic graph of a service
    mesh (`network::laws` holds what every batch of requests keeps);
  - `cluster`: a cluster's control plane as seen from one box, and the node
    lists of the provisioning inventory;
  - `controller`: the reconcile decisions of the box, function, model-claim
    and node-session operators, as functions from what was observed to what
    is done next;
  - `actor`: function jobs, storage lookups, field paths of a function's
    input, and the input document itself: the walk that finds (and makes
    room for) a field, and the steps that fill in defaults and store input
    values there;
  - `user_auth`, `image`, `kubegraph`, `tracer`: user keys and login errors,
    camera frames, graph keys, log levels.
- `tests/` runs the library on concrete values.
- `app/` is the runtime side: tracing set-up, the shared graph behind an
  async lock, the loops that assemble an input document from the library's
  steps, conversions from raw values, and the serde forms of the library's
  types.
