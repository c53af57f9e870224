# pc_rl_core

A predictive-coding actor-critic agent for reinforcement learning, written and proved in Verus:
TD(0), TD(n) and trace-based learning, episodic learning, surprise-scaled learning rates,
plasticity state machines for actor and critic, elastic weight consolidation, distillation
toward a slowly following copy and a champion, a two-compartment replay memory, rollback
controls, crossover and save files.

## Layout

- `src/` is the library. Every function carries a contract that Verus checks.
  - `scalar`, `linalg`, `elementwise`, `numeric`: numbers as bit patterns, and the numeric
    backend that a user supplies. Contracts name each arithmetic result and assume nothing of
    its rounding.
  - `networks`, `network_ops`: actors and critics as data, and what the agent asks of them. The
    networks' own mathematics comes from the user; nothing is assumed of the answers.
  - `pc_actor_critic`: the agent. Decisions stand in functions of their own (`learning`,
    `bookkeeping`, `stepping`, `rehearsal`, `episode`, `plasticity`, `control`, ...); `online`,
    `running`, `rehearsing`, `episode` and `construction` call the networks in between.
    `champion` and `correspondence` hold what is proved of whole runs.
  - `serializer`: what a save file holds.
- `app/` reads and writes save files as JSON and holds a backend over machine doubles.
- `tests/` runs the library on concrete values.

## Reading the contracts

A contract about a call into the networks says which arguments are handed over and what is made
of the answer, for every answer that may come back: `learned`, `stepped`, `batch_learned` and
`episode_learned` describe whole operations that way. Properties that span several operations
are public proof functions next to them.
