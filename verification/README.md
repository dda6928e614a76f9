# checker

The verified core of a static analyzer for Rust programs that looks for
misuse of unsafe code: double frees, memory leaks through `mem::forget` and
`ManuallyDrop`, reads of forgotten or uninitialized memory, and similar
ownership errors.

`src/` is the library, proved with Verus:

- `analysis/ownership`: the ownership domain (the states of each memory path,
  its least upper bound, the double-free and leak check) and the union-find
  structure of paths that share a resource;
- `analysis/mir_visitor/call_visitor.rs`: how calls to well-known functions
  (`mem::forget`, `Box::leak`, `ManuallyDrop::new`, `Box::from_raw`,
  `ptr::read`, `ptr::copy`, `Vec::set_len`, ...) change the ownership domain;
- `analysis/memory/known_names.rs`: recognizing well-known functions by their
  definition path;
- `analysis/option.rs`: the analysis options and how parsed arguments apply
  to them;
- `analysis/global_context.rs`, `contain_unsafe.rs`, `callback.rs`: choosing
  the entry points and finding functions with unsafe code;
- `driver.rs`, `utils.rs`: the compiler's command line and sysroot.

`app/` is the program around it: logging, command line parsing with clap,
and the compiler driver callbacks that read the compiler's data structures.

The numerical analysis that runs from each entry point, and with it the
out-of-bounds warnings (such as the one for `*p.offset(5)` past the end of an
array), is not part of these sources: its modules (symbolic values, the
numerical abstract domains, the assertion checker) are missing, so the
program selects and reports the entry points but does not analyze them.
