# zellij_windows

The Windows side of a terminal multiplexer: console input and output, signals,
pseudo consoles, and the output that terminals leave behind.

`src/` is a Verus library. It holds what is decided and computed, with contracts
that are proved. Of what lies outside it only reads the clock, takes paths apart as
the system does, and counts generations in shared atomics. What alternates between
decisions and calls is a machine that says what to do next and is told how it went:

* `console_loop`, `stdin_handler`, `keyboard_parser`, `keys`: console events, and
  kitty key reports that arrive as single keys
* `console_mode`, `console_writer`, `utf8`, `utf16`: the console's input mode, and
  writing UTF-8 to it
* `signals`: changes of the window's size, the end of the session, mouse reporting
* `conpty`, `spawn`, `command_line`, `environment`: starting a process on a pseudo
  console
* `conpty_reader`, `dsr`: reading its output, and answering the query for the
  cursor's position that a shell starts with
* `pty_backend`: the terminals of a server
* `terminal_bytes`, `terminal_output`: numbering the output of terminals and keeping
  the end of it
* `pipes`, `input_trace`, `text`, `win32`: pipe paths, tracing, texts, and the
  constants of the Windows API

Proof functions whose names begin with `law_` state what holds of these together.

`app/` is ordinary Rust that makes the system calls. `tests/` runs the library.
