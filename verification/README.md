# kdj_server

The server of a music library, with its rules proved.

`src/` is the library: the download queue and its journal, previews of online tracks and their
cache, growing files of protected streams, folders with their undo, duplicates, watching of folders,
lyrics, analyses for other devices, imports, jobs, credentials and the checks of requests. Every item
is verified by Verus against a contract over mathematical models. What happens outside (files,
sockets, clocks, other services) comes in as plain values: a function takes facts and decides, or a
machine hands out one action after another and takes in what came of it.

`app/` is ordinary Rust around it: the routes, the files, the clocks, the sockets, and what computes
with floating-point numbers. The services of the application's other crates are traits there.

`tests/` runs the library.

Times are integers: microseconds since the epoch and of a clock that never goes back, milliseconds in
lyrics. Shares and rates are fractions. Growing files, snapshots and the tokens of downloads are
numbers that `app/` gives out. Paths have forward slashes on every system; `app/` writes them so.
