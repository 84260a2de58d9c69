# signals

A signal in the style of Godot's: callables are connected to a `Signal<T>`,
each at most once (a clone of a callable is the same connection), and are
called in the order in which they were connected.

- `src/` is the verified library (Verus). `callable.rs` holds `Callable`,
  whose identity is the address of its shared callback; `ids.rs` holds the
  `indexmap::IndexSet` of identities and what is taken as given of it;
  `signal.rs` holds `Signal`, whose view is the sequence of connected
  identities; `laws.rs` states what connecting and disconnecting do to that
  sequence and proves the laws that relate them.
- `app/` runs the callbacks (`Emit::emit`), shielding each call from the
  panics of the others, and gives the error type `Display` and `Error`.
- `tests/` exercises the library.
