# nbio

Exploring various ways of doing non-blocking I/O in Rust by writing HTTP servers,
with the logic of the servers verified by [Verus](https://github.com/verus-lang/verus).

## The library

`src/` decides; it performs no I/O.

* `request_buf` - the read buffer of a connection.
* `request` - recognising a request among the pending bytes, and answering it.
* `response` - the page that the servers answer with, and its headers.
* `exchange` - a non-blocking connection as a state machine: it is told what was
  read and written, and says what it needs next.
* `session` - a connection whose owner waits for each read and write.
* `blocking` - the connections of the three blocking servers.
* `registry` - values under recycled keys.
* `mio_st` - the event loop of the single-threaded server: whose turn it is.
* `mio_mt` - the task table of the multi-threaded server.
* `minitokio` - a small runtime for async tasks: the states of the tasks, and who
  waits for which socket.
* `attempt`, `ready_queue` - what the others share.
* `transcript`, `history`, `conversation` - what holds of a whole connection.

Among the theorems: each request gets exactly one response, in order, and no byte of
input or output is lost (`transcript`), however reads and writes are split
(`history`, `conversation`); a token waits for its turn exactly if it can proceed
(`mio_st`); each task is in exactly one place (`mio_mt`, `minitokio`); no wakeup is
lost (`minitokio`).

Parsing is done by `httparse`, dates come from `chrono`, and keys from `slab`; the
few claims about them stand in `request`, `response` and `registry`.

## The servers

`app/` opens the sockets, runs the threads and the async runtimes, and asks the
library what to do. Its first argument picks the server, the second one the address.

* `http_mio_st` - a single-threaded event loop driven by `mio::Poll`.
* `http_mio_mt` - an event loop driven by `mio::Poll`, with tasks executed in
  several threads.
* `http_tokio` - tokio and futures v0.1. Of tokio v0.1 it uses the parts that it is
  made of (`tokio-executor`, `tokio-io`, `tokio-tcp` and `tokio-threadpool`), as
  `tokio` itself stands for the later version.
* `http_tokio_async_await` - tokio and async-await.
* `http_minitokio` - the runtime of `app/minitokio.rs`, for async-await futures.
* `http_blocking_st` - a single-threaded blocking server.
* `http_blocking_mt` - a thread-per-connection blocking server.
* `http_blocking_tp` - a blocking server whose threads all accept connections from a
  single listening socket, to balance the load.
