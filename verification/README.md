# Joy

The core of Joy's capture agent: a baby monitor that captures audio and video
and streams them live to the clients that connect to it.

The library under `src/` is written in Verus. It holds the data types, the rules
and the decisions of the agent, each with a contract:

- `time`: monotonic timestamps and the arithmetic on them;
- `video`, `audio`: frames, chunks, configurations, capabilities, and the clock
  that stamps audio chunks without drift;
- `camera`, `microphone`, `simulate`: how the capture sources choose a mode,
  react to failures, and what the synthetic sources show and play;
- `color`, `jpeg`, `convert`: BT.601 arithmetic, the JPEG streams that can be
  decoded, and the conversion of every pixel format to planar I420;
- `encode`, `codec`: what reaches the encoders, how samples are timed, and the
  codecs offered to clients;
- `signaling`, `pump`, `session`, `negotiation`: the JSON wire protocol, one
  client's socket and its media session as state machines, and how its offer is
  read and answered;
- `probe`, `serve`: the command line, stream health and verdict of the capture
  probe, and how serve mode ends;
- `error`, `text`: errors, and numbers in messages.

Public proof functions named `law_...` state what holds across functions. What
is believed of other crates and of the standard library stands next to its use:
`external_body` functions and `assume_specification` items, each with a comment
that says what is claimed.

`tests/` runs the library. `app/` is the agent around it: devices, sockets,
tasks, and everything in floating point. Built with `--cfg 'feature="dev-ui"'`
it also serves a browser test page at `/`; production builds leave the page out.
