# enclave_log

The console log and the status of a process that runs in an enclave, as a library verified with
[Verus](https://github.com/verus-lang/verus).

- `console`: a bounded log of bytes (`ByteLog`) on a ring, its readers, and the steps by which a
  stream is fed into a log and sent out of it.
- `frame`: how log data travels, and how it is written, read and decoded.
- `connection`: what a connection that serves several streams does next.
- `status`: the status of the process and the JSON line that tells it.
- `log_view`: what a log is.
- `log_laws`, `byte_log_laws`: what holds of a log over any number of appends and reads.
- `frame_laws`, `decode_laws`: what holds of frames, and of decoding them as they arrive.
- `stream_laws`, `connection_laws`: what a client gets of the logs.
- `outside`: what is taken for granted of other crates. `circbuf` has the ring, `bytes` the buffer
  that frames arrive in, `tokio` the channel that wakes watchers, `nix` the names of signals.

`app/` holds the tasks, sockets and locks around the library.
