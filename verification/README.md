# asna

A small job server. Clients send length-prefixed messages over TCP; the
server splits the byte stream into messages and hands job submissions to a
fixed pool of worker threads.

- `src/` is the verified library:
  - `message`: the messages, their wire format
    (`[kind:1 byte][payload length:4 bytes, big-endian][payload]`), the
    encoder, the parser and the laws that tie them together;
  - `connection`: the read buffer of a connection, which hands out one whole
    message at a time and keeps the bytes that follow it;
  - `worker_pool`: the job queue shared by the workers and the task that
    feeds them;
  - `ingress`: the backoff of the accept loop and the routing of messages;
  - `thread_pool`: the start-up error of the pool.
- `app/` is the program around it: sockets, tasks, threads and signals
  (`asna` runs the server, `asna client` submits one job).
- `tests/` runs the library on concrete inputs.
