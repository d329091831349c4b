# wsman

A WS-Management client runtime for Intel AMT, written in Verus, together
with the APF port-forwarding protocol that carries WS-Management over the
HECI link.

## Layout

- `src/` — the verified library.
  - `envelope`, `schema`, `selector`: the SOAP envelopes of Get, Put,
    Enumerate, Pull and method invocation, rendered into caller buffers.
  - `parse`, `scan`: reading element text, return values and faults out of
    replies; `response`: the enumeration context of an Enumerate reply.
  - `digest`, `client`: the HTTP Digest challenge/response and the client
    that retries a 401 once with credentials.
  - `message`, `session`, `apf_transport`, `heci`: APF framing, the APF
    session state machine, and HTTP/1.1 over an APF channel.
  - `amt`: the `AMT_GeneralSettings`, `IPS_HostBasedSetupService` and
    `AMT_SetupAndConfigurationService` bindings.
- `tests/`: tests of the library.
- `app/`: the HTTP transport over `reqwest`, error types implementing
  `std::error::Error`, and a lookup of the general settings driven by
  environment variables.
