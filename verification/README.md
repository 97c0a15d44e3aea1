# connman

A connection manager that runs containers on demand: a container is started when a client opens a
TCP connection to its proxy, and stopped again after it has been idle for a minute.

The decisions of the manager are a library in Verus: what is done about a message, which port is
handed out, when a container is started or stopped, how identifiers are made, where an encrypted
connection is routed to. Its contracts and laws are checked by Verus. The program around it, under
`app/`, does the work that was decided on: sockets, channels, timers, the Docker API, the terminal
and the database.

| File                | What it decides                                                  |
|---------------------|------------------------------------------------------------------|
| `src/connman.rs`    | ports, deployments, the registries of images and proxies         |
| `src/docker.rs`     | images and containers of one Docker host                         |
| `src/proxy.rs`      | connections, idle containers, listeners, routes, flags           |
| `src/server.rs`     | requests of clients, their answers and their log                 |
| `src/setup.rs`      | certificates, their host name and their private key              |
| `src/tui.rs`        | the state of the terminal interface                              |
| `src/id.rs`         | identifiers and the registry                                     |
| `src/text.rs`       | functions on text                                                |

## Docker

The REST API of Docker has to be exposed. Run `systemctl edit docker`, add

```
[Service]
ExecStart=
ExecStart=/usr/bin/dockerd -H fd:// -H tcp://127.0.0.1:6969 --containerd=/run/containerd/containerd.sock
```

and restart the service. Docker listens on port 6969 of 127.0.0.1 from then on.

## The gRPC interface

The identifier of an image is a hash of what the image is, so that it is known beforehand:

```sh
# Add an image
grpcurl -d '{"image": "aswinmguptha/flashy_machine", "tag": "latest", "port": 5000}' \
    -proto extras/connman.proto -plaintext localhost:50051 connman.ConnMan.RegisterImage
# Add a proxy
grpcurl -d '{"id": "6387861277925541461", "envKey": "VALUE", "envValue": "flag{1}"}' \
    -proto extras/connman.proto -plaintext localhost:50051 connman.ConnMan.AddProxy
```
