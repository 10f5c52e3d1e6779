# wa2

WA2 reasons about architectures. It holds a system as a graph of named and
unnamed entities and the statements on them, derives further facts from what it
finds there, and evaluates the rules of a policy against the result.

The library under `src/` is written in Verus. Every function states what it
returns or changes, over a mathematical model of the data, and the statements
are proved.

| Module | What it holds |
| --- | --- |
| `text`, `shown`, `names` | texts, values as messages show them, and tables by name |
| `model` | the graph, its changes, searches through it, and what holds whatever is done to it |
| `kernel` | the syntax of intents, queries, the meaning of expressions and statements, the rule engine and the analysis of a document |
| `guidance`, `advice` | advice on the stores of a graph |
| `vendor` | what the resources of a vendor stand for |
| `system` | systems in a graph database, and their text form |
| `documents`, `diagnostics`, `core_engine` | open documents, what is reported on them, definitions and hovers |
| `report` | what a check prints, and its course |

Facts that relate several functions are public proof functions: `model/laws.rs`,
`kernel/laws.rs`, `kernel/traversal.rs`, `system/laws.rs`, and the end of the
other modules.

What comes from other crates stands behind small functions whose contracts are
taken on trust; each says which outside function it calls and what it claims of
it. They are in `report/paint.rs`, `diagnostics.rs`, `documents.rs`, `shown.rs`
and `system/store.rs`.

`app/` is the command line and an editor server around the library. It reads
CloudFormation templates in JSON:

    wa2 check --profile quickstart --target stack.json --novalidation --verbose
    wa2 serve
