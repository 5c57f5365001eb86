# fullbleed

The verified core of a document engine that turns HTML and CSS into paged output. Parsing markup,
shaping text and writing files is the work of a backend; this library decides what is done with the
results.

| Modules | Subject |
| --- | --- |
| `builder`, `settings`, `engine`, `compose` | setting up the engine, and what it composes |
| `pages`, `margins` | page templates, margin boxes, page backgrounds and print marks |
| `layout`, `frame` | layout passes, and frames that are filled from top to bottom |
| `command`, `documents`, `overlay`, `watermark` | display lists, and what is laid over and under them |
| `shrink`, `fragments` | fitting pages that overflow |
| `dom`, `signals`, `tally`, `facts`, `findings` | the accessibility verifier |
| `pmr`, `rank` | the paged-media rank |
| `bindings`, `compiled`, `edits`, `flow`, `record`, `reuse`, `caches` | compiled documents and records |
| `batch` | batches that are rendered on several threads |
| `text`, `bytes`, `geometry` | texts, places in them, numbers and lengths |

Lengths are thousandths of a point. Other fractions are carried as ratios, and floating-point
numbers that are only passed on are carried as their bit patterns.

`app/` puts the library to work: files, threads, clocks and floating-point numbers.
