# cocos_engine

The engine-independent core of a Cocos-style game engine, written in Verus:
each public function carries a `requires`/`ensures` contract over an
abstract view of its type, and Verus proves the code against it.

Layout:

- `src/` — the verified library:
  - `assets/` — asset kinds, pixel formats, the asset manager (loading,
    reference counting) and the resource loader (queued, concurrent loads);
  - `command_buffer`, `event`, `event_bus`, `event_target` — undo/redo and
    the event systems;
  - `state_machine`, `scene_manager`, `game/` (bootstrap checks, game
    lifecycle, director frames), `input/` (keys and buttons),
    `scriptable_object`, `component_registry`;
  - `data`, `memop` — object flags, object ids, object and memory pools;
  - `gi` — the integer side of light-probe tetrahedralization: probe grids,
    pairing the faces of tetrahedra and linking the outer cells by edges;
  - `utils/` — paths, string maps, text helpers, id generation.
- `tests/` — tests of the library's behaviour on concrete values.
- `app/` — the program around the library: shared (locked) event buses,
  the global id generator and the program-wide object id counter, downcasts
  through `Any`, the parts computed in floating point (armature animation,
  polynomial roots), and the place where a JavaScript engine would run the
  bootstrap script (none is linked in this build).

Laws that relate several operations (undo/redo, go-back, read after write,
and so on) are stated and proved as public `proof fn`s next to the
operations they speak of.

User closures (asset loaders, resource providers, transition guards and
conditions, factories, listeners and load callbacks) are stored as trait
objects. Each is boxed by a small trusted function whose contract says that
the trait object answers as the closure does; from there on, what the
library does with a closure's answer is proved, and so is that a callback
was called with given arguments (the closure's `call_ensures` holds for
them, which only a call establishes). Listeners of an event target or a
bus are handed the position of their call in the emission as a ghost
argument, so the contracts of `emit` state the order of the calls. Commands
record in their own spec state whether `execute` or `undo` ran last, and
states of a state machine what their hooks were told; the hooks of
`State` and `Command::description` are therefore required methods, since a
default body could not meet a contract stated over the implementor's own
spec functions.
