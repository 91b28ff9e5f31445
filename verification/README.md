# llcap-server

The server side of argument capture and testing for instrumented applications. It takes the
arguments of function calls out of buffers in shared memory, stores them as packets, and later
runs the application again and again, each time with one call's arguments replaced by a packet.

`src/` is the library. It is verified with Verus, except for what it takes from elsewhere on
trust, listed below:

- `bytes`, `text`, `ordering`: little-endian numbers, texts, stable sorting
- `modmap`: the modules and functions of the application
- `sizetype_handlers`: reading arguments from pieces of any size
- `shmem_capture`: the ring of buffers, the capture of argument packets, the parameters that are
  published to the application, the names of shared resources
- `stages`: the protocol of test clients, the tests and their numbers, the ways of testing, the
  jobs that run tests, the files that their outputs go to
- `log`, `results`, `phase`, `libc_wrappers`: log lines and reports, which result of a test
  counts, the order of things in a session, waiting for a process

Taken on trust are the contracts of these functions, each stated beside a small wrapper or
declaration in `src/`: `FromBytes::from_le_bytes` and `Zero::is_zero` of num-traits, and of the
standard library `String::push`, `String::from_utf8`, `i32::from_str_radix`, `Debug` of `str`, and
`Path::join`, `Path::parent`, `Path::file_name` and `Path::extension`.

The library does no input or output. Where a function depends on how an operation of the
operating system has ended, it takes the outcome as an argument and says what to do next.
Properties that relate several functions are stated as proof functions whose names begin with
`law_`.

`app/` is the program around it: command line, semaphores, shared memory, sockets, processes and
files. `tests/` runs the library on concrete values.
