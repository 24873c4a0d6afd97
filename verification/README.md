# zenoh configuration and encoding library, verified with Verus

The library holds the logic of a zenoh node's configuration, value
encodings and a few runtime decisions, each function with a contract that
Verus proves.

## Layout

- `src/text.rs`: specifications of character sequences (prefixes, order,
  splitting and joining at a separator, decimal numbers) and the small
  string operations of std and `validated_struct` that the rest builds on.
- `src/json.rs`: JSON values with their abstract model; reading, writing
  and removing at `/`-separated paths, and taking out `private` members.
- `src/plugins.rs`: the plugins part of a configuration: edits that a
  plugin's validator can check before they take effect, removals, reads,
  and the load requests of the plugins.
- `src/config.rs`: the session configuration: defaults, role names and
  role sets, removal of plugin keys, plugin search directories, and the
  format of configuration files.
- `src/encoding.rs`: well-known MIME encodings, their wire numbers and
  string representations.
- `src/runtime.rs`: the settings a runtime starts with and the route a
  received message takes.
- `src/transport.rs`: the checks on the answer to an opening handshake.
- `src/notifier.rs`: which subscribers are kept after a notification.
- `app/`: what Verus does not see: `serde` conversions, reading
  configuration files, plugin validators and change notifications over
  channels.
- `tests/`: tests of the library on concrete values.
