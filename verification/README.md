# quip_solver_core

The shared contract of Quip solvers, with its decisions verified by Verus.

A solver samples Ising problems for a coordinator and returns spin
configurations with their energies. This project decides what a session does
with every message: which jobs it admits and with what budget, what each
finished job is answered, which work is abandoned, when a salt range ends, and
with which exit code the process stops.

## Layout

| Place | What it holds |
| -- | -- |
| `src/` | The verified library: wire codecs, coefficients, job admission, budgets, the session and writer state machines, salt ranges, driver mode |
| `tests/` | Tests of the library, on concrete values |
| `app/` | Ordinary Rust around it: the command line, logging, JSON, the gRPC transport, threads and tasks, floating point |

A backend implements `Sampler` (one method is required) and, to run on a thread
of its own, `StreamSampler` from `app/`; then it calls `run`.

## Numbers

Coefficients are whole numbers of steps: wire thousandths, or the narrower
fixed-point types of `coefficient`. Doubles cross the boundary of the library as
bit patterns, and their meaning is defined in `binary64`. Logarithms, square
roots and rates stay in `app/`.

## What is trusted

Three outside functions are named rather than defined: the standard base64
engine, the TOML parser, and the standard library's quoting of a string. Two
more are read without any claim about the result: the wall clock and the
operating system's random generator.
