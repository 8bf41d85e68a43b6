# pve-compose

One docker compose stack per LXC, described by the `compose` subtree of the
guest's pve-meta document and reconciled by a loop on the owning node.

* `src/` is the library: reading documents and the operator's choices, planning
  what the wrapper needs, rendering the compose file, the verbs and the
  reconcile loop. All of it is verified with Verus.
* `app/` is the program: the command line, and what performs the actions that
  the library asks for.
* `tests/` runs the library against a node that lives in memory.

## How the library meets the world

Nothing in the library runs a command or touches a file. A verb takes a
`World`, the replies to the actions it asked for so far. It takes a reply for
every action that was performed and stops with the first one that was not:
`Stop::Act`. The program performs that action, hands the reply over with
`World::replied` and calls the verb again, until it ends with a result or with
`Stop::Fail`. A verb is thereby a function of its replies, and the contract of
every verb `f` says which one: the spec function `f_s` beside it.

## What is stated

The contract of a function says exactly what it gives back. What holds of
several functions together, or of every state, stands in the public proof
functions whose names begin with `law_`. Among them:

* a plan only ever adds and grows, and a wrapper that is as the document asks
  has nothing left to do;
* a document asks for nothing beyond the node's limits, and nothing in it
  means anything to a shell;
* every volume of a rendered file is bound to its directory;
* `new` touches nothing before everything is settled;
* the loop starts no stack, and every command it runs has a deadline;
* sizes, mount lines, stored choices and facts read back as they were written;
* an update changes the file as it is, and what it stored is what is loaded;
* a pass remembers every document it came upon and nothing else, and what fails
  in one guest stops neither a pass nor the rows of the others.

What rests on other crates without proof is marked in the source: reading and
printing YAML (`serde_yaml_ng`), reading JSON (`serde_json`), SHA-256 (`sha2`),
hexadecimal text (`hex`) and the clock (`chrono`). That the text of stored
choices and facts reads back rests on `serde_yaml_ng` reading what it printed,
which is claimed of texts on one line, natural numbers, lists and maps.
