# iptv_proxy

A reverse proxy for IPTV playlists and for streams that are only served to pages of their own site.

| Request                          | What happens                                               |
|----------------------------------|------------------------------------------------------------|
| `/iptv/<URL>`                    | The URL is fetched. Direct links in an IPTV playlist are led through the proxy. |
| `/proxy/<host>:<port>/<path>`    | `http://<host>:<port>/<path>` is fetched.                  |
| `/?url=<encoded URL>`            | The URL is fetched with the headers of the guarded site. Segments in a playlist are led through the proxy. |
| `/health`, `/`                   | The proxy answers `OK`.                                    |

`src/` is the core, verified with Verus: it decides about requests, plans the upstream request and
the response, and rewrites playlists. Contracts speak of strings as sequences of characters.
`src/laws.rs` and `src/replacing.rs` state what holds of several operations together, such as that a
link in a rewritten playlist leads back to what was linked to.

What the core takes from other crates (`url`, `urlencoding`, `regex`, `memchr`, `http`) it reaches
through small functions whose doc comments say what is relied on.

`app/` is the server around the core, on pingora. It reads `LOCAL_IP`, `BIND_ADDR` and `WORKERS` from
the environment.
