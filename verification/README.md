# ryu_tuition

The rules of a tutor for one learner: grading by comparison, Bayesian Knowledge Tracing,
review scheduling over skills, a prerequisite graph, a session planner, an exam projection,
and what every stored row may become. The rules live in `src/`, stated as contracts and
proved by Verus. `app/` is the process around them: HTTP, the tool server, SQLite, the host
bridge and the clockwork.

## Layout

| module | what it decides |
|--------|-----------------|
| `text`, `double`, `decimal` | texts, the order of doubles by bit pattern, exact decimals |
| `models`, `error`, `config`, `auth` | the types, what callers are told, the settings, the bearer token |
| `grade` | objective grading |
| `bkt` | what goes into a Bayes step, and what its result does |
| `srs`, `calendar` | the review ladder, and days in the learner's zone |
| `graph`, `prereqs`, `readiness` | cycles, edges that may be added, what to study next |
| `planner`, `due` | filling a minutes budget, what is due |
| `trajectory` | the exam projection, and when none is made |
| `store`, `sittings`, `candidates`, `events` | the rules for rows, each claimed at most once |
| `answering`, `finishing`, `accepting`, `draining` | the flows that alternate decisions with reads and writes |
| `service`, `closing`, `generation`, `reply` | what those flows are made of, and the model edges |
| `api`, `mcp`, `host` | what a request may ask for, the tool protocol, the host's replies |
| `json` | what is read off a JSON value |

Floating-point arithmetic is done by the caller and handed in: a `Double` is a bit pattern
that the library compares, cuts off and orders, but does not compute with. `app/arithmetic.rs`
holds every such computation.

Where the library leans on `chrono`, `chrono-tz`, `uuid`, `serde_json` or the standard
library, the items that make the call say so, and say what is taken on trust.
