# fire_ssr

The decisions of a server-side renderer that runs scripts on a pool of threads, with contracts
that Verus proves.

- `src/` is the library. `pool` keeps the threads and `handler` decides when one is started or
  asked to stop; `worker` and `runtime` are the state of one thread and of the script that it runs;
  `fetch` and `headers` prepare what a script fetches and read what comes back; `module` finds the
  file of a module. `channel` holds what is taken as given of the channels.
- `app/` is the code around it: threads, channels, sockets, files and the script engine.
- `tests/` runs the library.
