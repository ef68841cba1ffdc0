# ffi_util

Bounded, sentinel-terminated arrays and bounded C strings for hand-written FFI
bindings, verified with Verus.

- `src/senti.rs`: `Senti<T, N>`, an array of at most `N` elements ended by a
  sentinel when shorter, with the `Terminated` and `BitwiseEq` traits. Its
  contracts are stated over the buffer as a sequence and over `content`, the
  elements before the first sentinel.
- `src/cstring.rs`: `BoundedCString<N>`, a C string of at most `N` bytes,
  built on `Senti<u8, N>`, including UTF-8 aware truncation.
- `src/order.rs`: lexicographic `PartialOrd` for both.
- `src/debug.rs`: the quoted, escaped debug form of a `BoundedCString`.
- `src/lib.rs`: `Bool`, `MaybeInvalid` and the `CEnum` trait for C-style
  enums, `Reserved` padding, and conversions between C characters and bytes.
- `app/`: what needs raw pointers or `std::ffi` (`Buffer`, `Ptr`, `MutPtr`,
  `CStr` conversions), in-place reinterpretations, and the `Debug`/`Display`
  impls, which call the library.
