# struct_diff

Differences between values, written as a list of commands and read back into a value. Only what
changed is in the list:

    Enter(Field("a")), Value(3), Enter(Field("list")), Enter(CollectionIndex(0)), Value(9), Exit

`Enter` goes into a part of the value, `Value` replaces what has been entered, `Remove` takes items
off the end of a list, and `Exit` goes back out. `Value` and `Remove` are implicit `Exit`s. In a list,
a `Value` that no index precedes is added to the end.

## Layout

- `src/` is the library, verified with Verus: how differences are taken (`diff`, `context`, `list`,
  `terminal`, `primitive`), how they are read back (`apply`, `source`, `variant`), and what holds of
  the two together (`roundtrip`, `laws`).
- `app/` ties the library to serde: commands go out through a `Serializer` and come in through a
  `Deserializer`. It also holds the types that verified code cannot look into, such as floats.
- `tests/` runs the library on concrete values.

## What is proved

- `Diff` gives exactly the commands that `difference` says, and `Apply` does to its target exactly
  what `SerdeDiffable::applied` says, including which streams it refuses and what it leaves of them.
- Reading a difference back into the old value gives the new value, and leaves nothing of the
  difference unread (`law_round_trip`): for `bool`, `char`, `String`, `()` and all integer types,
  and for lists, however deeply nested.
- A difference is empty just if the values are equal, and part of a difference can be skipped
  without knowing its type.
- If the stream fails, the value is left as the commands read until then left it.

A stream that no difference gives is answered by a `Fault`; `app/` panics with its message.

## Trusted

`from_utf8_lossy` in `src/variant.rs` calls `String::from_utf8_lossy` of the standard library. All
else in `src/` is proved.
