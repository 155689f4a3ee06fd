# Squillion

An MQTT 3.1.1 broker whose logic is verified with Verus.

- `src/` is the library: packets and their codec (`messages`), topics, subscriptions and
  retained messages (`broker`), sessions and their delivery guarantees (`sessions`), the
  work for a connection (`client`, `server`), users and passwords (`auth`), settings
  (`config`) and the health answers (`metrics`).
- `app/` is the program: sockets, files, timers, the database and the tasks around the
  library.
- `tests/` runs the library on concrete values.

What has to happen outside the library, such as writing to the database or sending to a
client, is a value that an operation returns together with where it stands. The program
does what is asked and hands back the outcome, and the operation goes on.
