# vibe_studio

The document model of a timeline video editor, verified with Verus.

A document is a forest of layers: workstreams at the top, compositions
inside them, and media and effect layers anywhere below. Each layer has a
start, a length and fades, held in whole milliseconds. The library holds the
operations the editor performs on that forest — adding, removing, splitting,
reordering and re-parenting layers, dragging clips on the timeline with
snapping, laying compositions end to end, advancing playback frame by frame
across gaps, listing the rows of the timeline and the layer tree, the
inspector's and sidebar's edits — each with a contract over the sequence of
layers, and proves laws that relate them (see `src/laws.rs`, `src/chain.rs`,
`src/sequence.rs` and `src/rows.rs`).

Layout:

- `src/` — the verified library (`state`: the document; `edit`, `tree`,
  `drag`, `sequence`, `query`, `playback`: its operations; `rows`: what the
  timeline and the layer tree list; `panels`, `add_dialog`: the decisions of
  the inspector, the sidebar and the "add layer" dialog; `terminal`: the
  command line of the editor's terminal; `chain`, `laws`: properties across
  operations).
- `tests/` — tests on concrete documents.
- `app/` — a headless driver: the appearance of layers and the interface's
  floating-point settings, the audio element, serializable copies of the
  types, the audio side of playback frames, and a terminal read from
  standard input.
