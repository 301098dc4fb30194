# binview

Growable arrays of byte strings and of strings in the binary-view layout, verified with Verus.

Each element has a view of sixteen bytes. An element of at most twelve bytes is stored in its view.
A longer one is stored in a data buffer, and its view holds the first four bytes, the index of the
buffer and the offset in it. Bytes are never moved from one data buffer to another.

- `src/mutable.rs`: the growable array, `MutableBinaryViewArray`
- `src/array.rs`: the finished array, `BinaryViewArrayGeneric`
- `src/view.rs`, `src/buffer.rs`, `src/bitmap.rs`, `src/view_type.rs`, `src/utf8.rs`: its parts
- `src/model.rs`: what an array is, and what each operation makes of it
- `src/laws.rs`: what holds of the operations together
- `src/std_ext.rs`: functions of std whose contracts are taken on trust
- `app/`: trait objects and std's traits around the library
