# rush

A small job-control shell, with its logic verified by Verus.

A command line is one command, two commands joined by `|`, or one command whose output goes to
a file with `>`. `exit`, `jobs`, `fg` and `cd` are built in. Ctrl+z stops the job in the
foreground, `fg` with a job's number brings it back, Ctrl+d leaves the shell.

* `src/` is the library. It makes no system call: the shell (`shell`) and its worker say what is
  to be done and are handed back what came of it.
  * `text`, `number`, `message`: trimming, splitting, decimal numbers, the lines on the terminal
  * `parser`: from a command line to commands
  * `worker`: the tables of jobs, process groups and processes
  * `effect`, `request`: what the worker asks for
  * `dispatch`, `builtin`, `launch`, `control`, `child`: messages, built-in commands, starting
    jobs, changes of state, what a new process does first
  * `laws`, `course`: what holds of every step, and from the start on
* `app/` is the program: the terminal, the threads and the system calls.
* `tests/` are the tests.
