# websockets

A WebSocket client whose protocol logic is verified with [Verus](https://github.com/verus-lang/verus).

## Layout

- `src/` is the verified library. It holds no sockets and no tasks: each part is a function on
  plain values or a state machine that takes an event and answers with an action.
  - `websocket/wire.rs`, `websocket/frame.rs`: the bytes of a frame, and the codec.
  - `websocket/message.rs`, `websocket/reassembly.rs`: messages cut into frames and put together.
  - `websocket/utf8.rs`: text whose scalars are split across frames.
  - `websocket/split/`: the read half and the write half of a connection.
  - `websocket/ops.rs`: closing a connection.
  - `websocket/handshake.rs`, `websocket/parsed_addr.rs`, `websocket/builder.rs`: opening one.
  - `websocket/mod.rs`: the two halves as one connection.
  - `batched.rs`: the buffer in front of the sink of frames.
  - `boundary.rs`: everything that is taken on trust of other crates, with what is believed of it.
- `tests/` runs the library on concrete values.
- `app/` drives the state machines with TCP and TLS sockets, and is what an application uses.

## What is proved

Contracts say what a function returns and changes, and when it fails. What another task makes of a
value in a channel, which random number comes up and how much memory is allocated are not stated; a
function that depends on one of these says what holds whatever comes, and leaves the rest to a
function that takes the result as an argument.

Functions whose names start with `law_` state what holds across functions: among others that a frame
from a server is read back from its bytes wherever they are cut, that a message which is fragmented,
sent, decoded and put together is the message again, that text read in fragments is the text that
was sent wherever its scalars are split, that the read half asks for a pong with the payload of a
ping and the write half sends what it is asked for, that a close frame is echoed once and a ping of
one's own is not sent after it, and that the buffer keeps the order of what it is given. The way of
an event from one half to the other leads through a channel, which is no part of these laws: the
halves tell what they put in and what they take out, and that the channel is the same.

Channels, random numbers, hashing, base64 and URL parsing come from other crates. What is believed
of them is written down in `src/boundary.rs`.
