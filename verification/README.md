# v12_engine

The core of a JavaScript engine, verified with Verus: numbers, texts, dates, objects,
their built-in operations, promises and the microtask queue.

Numbers are bit patterns of IEEE 754 doubles, and their arithmetic, their decimal texts
and the reading of decimals are written out on integers and proved. Texts are sequences of
UTF-16 units. Values refer to texts, objects, symbols and big integers by their number in a
heap, whose contents a contract sees as plain mathematical sequences (`HeapModel`). A
built-in says in its contract which heap it leaves and what it returns or throws.

Getters that settle a promise or revoke a proxy run inside the library. For one that runs
outside (a built-in or a function of the embedder) a built-in stops with
`Throw::HostGetter`; the embedder runs the getter, hands what it came to to the heap
(`Heap::set_answers`) and makes the call again, as `app/dispatch.rs` does.

## Layout

- `src/double.rs`, `decimal.rs`, `bignat.rs`, `read_back.rs`: doubles and decimals.
- `src/text.rs`, `utf8.rs`, `string*.rs`, `regexp.rs`, `global.rs`: texts.
- `src/calendar.rs`, `date*.rs`: dates.
- `src/value.rs`, `heap.rs`, `properties.rs`, `slots.rs`, `dictionary.rs`: values and the heap.
- `src/internal_methods.rs`, `descriptor.rs`, `object*.rs`, `reflect.rs`, `proxy.rs`,
  `key_order.rs`: objects.
- `src/array*.rs`, `map.rs`, `iterator.rs`: collections.
- `src/json*.rs`: JSON.
- `src/promise.rs`, `job_queue.rs`, `engine.rs`, `error*.rs`, `install.rs`, `native.rs`,
  `builtins.rs`, `jit_tier.rs`, `display.rs`: the engine around the interpreter.
- Proof functions whose names start with `law_` state what holds across functions. Some
  have files of their own: `property_laws.rs`, `integrity_laws.rs`, `number_laws.rs`,
  `collection_laws.rs`, `radix_laws.rs`, `date_round_trip.rs`, `json_laws.rs`.
- `app/`: the clock, the environment, floating-point functions, and the seams to a matcher
  of regular expressions and to an interpreter.
- `tests/`: examples.

Two outside crates hold data: `rustc-hash` the dictionary of an object with many
properties, `smallvec` its value slots. What is believed of them stands in `dictionary.rs`
and `slots.rs`.
