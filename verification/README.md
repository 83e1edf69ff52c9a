# zion

The verified core of an edge gateway: a reverse proxy that ends TLS, forwards
requests to upstreams, and reads the configurations of other servers.

`src/` is the library. Everything in it is executable Rust with a contract that
Verus proves; what it takes from other crates goes through small declarations
whose doc comments say what is believed of them.

| module | what it holds |
| --- | --- |
| `import` | reading nginx, Caddy, Traefik and Compose configurations into one document, with a note for everything that is left out |
| `init` | the wizard that writes a first configuration |
| `proxy` | what is sent upstream: forwarding headers, failover, upgrades |
| `server` | admission, the plain listener, client identity, probing, limits, boot lines |
| `listener` | which listener is bound where, and when it is rebound |
| `quic` | the fields that cross between HTTP/3 and the pipeline |
| `metrics`, `page` | counters, latency histograms and the page that shows them |
| `observability`, `logging` | trace contexts, panic records and log lines |
| `numa`, `memfd` | maps sharded by memory node; names of files in memory |
| `headers`, `text`, `hex`, `ip`, `clock` | what the others share |

`tests/` runs the library on concrete values. `app/` is the program around it:
sockets, TLS, timers and the command line.

The proof functions named `law_…` state what holds across functions: that a read
gives back what was written, that no directive of an nginx configuration or a
Caddyfile is passed over in silence, that a retry never repeats a request that may
have had an effect.
