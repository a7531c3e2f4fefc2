# llmux

A router for language models that decides per request, by what the request is for: it classifies
the task, keeps sensitive content on local providers, picks the cheapest model that meets every
condition, and falls back along a chain of models when providers fail.

The rules live in `src/`, a library whose behaviour is stated in contracts and proved with Verus.
The program around it, in `app/`, does the I/O: HTTP in and out, the SQLite file, configuration
files, timers, and arithmetic on floating-point numbers.

## The library

| Module | What it holds |
| --- | --- |
| `text`, `json`, `float`, `table`, `order` | texts, JSON trees, doubles as bits, tables, arranging by a ranking |
| `config`, `validate` | the configuration and what makes one consistent |
| `classifier`, `privacy`, `cost` | the type of a task, sensitive content, estimated tokens |
| `router`, `plan` | the choice of a chain of models, and forced models held to the hard conditions |
| `providers`, `stream`, `retry` | keys, the two wire protocols, event streams, and when to retry, rotate or move on |
| `cache`, `logging`, `stats` | keys of cached answers, the request log with its caches, and figures from it |
| `pipeline`, `chat`, `api` | what happens to a chat request from the first header to the last log record |
| `startup` | arguments, the place of files, and the address to listen on |

Public functions state in `ensures` what they return for every input; public proof functions named
`law_…` state what holds across several of them, such as that a request of a `local_only` task is
planned on local providers only, whether or not a model is forced.

What is believed without proof stands behind small wrappers, each with a comment that names the
function it calls: the JSON parser and printer, a few functions on texts, sorting, the clock, and
the calendar.

## Instants and amounts

Instants are nanoseconds since the Unix epoch and are passed in by the caller. Doubles are held by
their bits (`float::Real`): the library orders and selects them, and the caller computes with them.
