# local_agents_ops

A desktop program that puts one question to several language models at once, on
the local Ollama engine and on online services, and compares their answers.

The rules of the program are a library verified with Verus:

| Module | What it holds |
| --- | --- |
| `catalog`, `selection` | the models on offer, and which of them a machine can run |
| `throughput` | how fast a machine reads weights, and the speeds that follow |
| `commands` | the memory budget, the providers, the course of a chat, the engine's version |
| `credentials` | where API keys are kept and what the store's replies mean |
| `engines` | requests, streams and errors of the engines; downloads; calibration |
| `in_flight` | the requests that run, by id |
| `router` | which services a question is worth sending to, and in which words |
| `updater` | updating the engine through the system's package manager |
| `json`, `text`, `outcome` | JSON values, text, and views of results |

Functions named `law_..` are proofs of what holds across functions, such as that
a response ends exactly once however it is cut into pieces, or that models which
hold their reservations at the same time fit in the memory budget together.

Amounts of memory are fixed-point numbers whose unit is a hundredth of a byte,
so that tenths of a gigabyte are exact. A throughput is a number of two words,
which holds every measurement to a small fraction of a byte per second, and a
speed is the exact quotient of a throughput and a size.

`app/` is the program around the library: the window, the network, the
credential store and the processes.
What Anthropic's assistant is called, and its default model, are settings: `app/`
takes them from `ANTHROPIC_ASSISTANT` and `ANTHROPIC_MODEL`.
