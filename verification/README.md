# hazptr

Hazard pointers: when may a writer delete an object that readers may still be using? A reader
announces the address of what it reads in a hazard pointer and then looks again whether the address
is still the one to read. A writer takes an object out of its data structure, retires it, and leaves
it alone until no hazard pointer announces it.

## The library, in `src/`

Everything in `src/` is verified.

| module        | what it holds                                                                       |
|---------------|-------------------------------------------------------------------------------------|
| `ptr`         | a hazard pointer                                                                    |
| `deleter`     | retired objects, and what deletes them                                              |
| `disposer`    | where objects go that are due, and what that does to their domain                   |
| `domain`      | a domain: its hazard pointers, its retired objects, and when they are reclaimed     |
| `domains`     | the domain that is shared, and the numbers that tell the others apart               |
| `family`      | the family of the shared domain                                                     |
| `holder`      | the reader's side: announcing, validating, resetting                                |
| `obj`         | objects that know their domain                                                      |
| `acquirer`    | taking a hazard pointer, one access at a time                                       |
| `reclaimer`   | retiring and reclaiming, one access at a time                                       |
| `model`       | what a domain is as a mathematical value, and what its operations make of it        |
| `sweep`       | what passes come to when objects are disposed of in their middle                    |
| `laws`        | what holds over several calls, and of every call                                    |
| `history`     | how many hazard pointers a domain comes to have                                     |
| `undisturbed` | what a reclaimer comes to if nobody disturbs it                                     |
| `transitive`  | how a transitive reclaimer ends when deleters retire objects between its steps      |
| `protocol`    | why it is safe, in whatever order the threads come                                  |
| `tally`       | why the counter of retired objects is right, in whatever order the threads come     |
| `timing`      | why timed cleanups keep their distance, in whatever order the threads come          |

A domain is plain data. Addresses are numbers, and a holder, an object or a reclaimer names its
domain instead of pointing to it. Each method of a domain does its work in one piece, with the
objects that are due going to a `Disposer`, which may retire others by that. Its contract says
exactly what it leaves of the domain and of the disposer. The simplest disposer, a `Vec`, puts
deletion off.

Threads that share a domain do not work in one piece. An `Acquirer` or a `Reclaimer` is an
operation in progress, and each of its steps makes at most one access to the domain; between two
steps, others may do anything, and the deleters of the objects that were handed out run.
`protocol` states what that is for: in no order of events is an object handed out while a reader
protects it or has announced it since before it was retired, none is handed out twice, and none is
lost. `tally` adds that the counter of retired objects is never negative. Accesses are taken to
happen one after the other, which whoever shares a domain between threads has to see to.

## The rest, in `app/`

`app/` adds what needs raw pointers, shared state and a clock: the domain that all threads share,
references to protected objects, the usual deleters. It keeps a domain behind a lock that it holds
for one step at a time, and never while a deleter runs. So readers take the lock too, for an
announcement at a time, and no longer: they hold it neither while they use an object nor while a
writer reclaims.
