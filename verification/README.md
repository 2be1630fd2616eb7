# cmpth

Composable user-level threads: work-stealing schedulers whose tasks have stacks
of their own, are polled as futures, or both, with the locks, barriers and
wakers that go with them.

- `src/` decides what happens: which task runs next, what a descriptor's state
  becomes, where a frame lies, who wakes whom. Every function states what it
  does and is proved to do it. State that threads share is passed in as a plain
  value; one call is one step that nobody else sees the middle of.
- `app/` does it: it maps stacks, switches between them, starts threads, and
  calls the library under a lock.
- `tests/` runs the library.

A switch from one stack to another is two calls. The first, on the stack that is
left, picks what comes next; the second, on the stack that was reached, makes
the books right and publishes the task that was left.
