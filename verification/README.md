# ss-rs

An encrypted tunnel: a server, a client with SOCKS5 and HTTP proxies and a
global TUN mode, and a desktop client that runs a proxy engine. The logic is in
a library whose functions carry contracts that Verus proves.

## Layout

- `src/` is the verified library.
  - `address`, `payload`, `packet`: what travels inside the tunnel.
  - `crypto`, `frame`, `stream`: the encrypted frames. The primitives come from
    `ring`; what is taken on trust of it stands at the top of `crypto`.
  - `socks5`, `http`, `session`, `routes`: the client and the server.
  - `node`, `engine`, `sysproxy`, `traffic`, `tunnel`: the desktop client.
  - `text`: splitting, trimming and numbers, described character by character.
- `tests/` runs the library.
- `app/` is the program around it: sockets, devices, processes and the window.

Public proof functions whose names begin with `law_` state what holds across
functions, such as that a frame is decoded to what was encoded however the
stream is cut, or that the proxy setting of the system comes back.

## Running

```text
ss-rs server --password <password>
ss-rs client --server <host:port> --password <password>
ss-rs gui
```

The node of the desktop client is set when it is built, with `VLESS_SERVER`,
`VLESS_PORT`, `VLESS_UUID`, `VLESS_SNI` and `VLESS_XHTTP_PATH`. With
`--cfg ss_rs_embed` among the compiler flags, the engine and the driver of the
adapter become part of the program, from the files that `SS_RS_MIHOMO_PATH` and
`SS_RS_WINTUN_PATH` name. Without them the window opens and refuses to connect.
