# plexspaces_services

Node discovery, membership and service-layer logic of a PlexSpaces node,
written in Verus.

- `src/` is the verified library: the SWIM failure detector (`swim`,
  `swim_protocol`, `swim_round`, with its laws in `swim_laws`), the node
  registry's rules (`node_registry`, `node_directory`, `node_records`,
  `node_listing`, `registration_cache`), the decision logic of the node,
  object-registry, process-group, service-link, tracing, tuple-space, user and
  OIDC services, node setup (`node_setup`: the node configuration and the
  key-value store location), group-name patterns (`group_names`), and the TOML
  form of an application specification.
- `tests/` runs the library on concrete values.
- `app/` is the runtime shell: the probing loop and registry runtime (timers,
  network, object registry), files, environment, serde forms, and the
  floating-point scaling of SWIM timeouts.
