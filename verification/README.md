# struct_migration

Parsing and planning for versioned structs. A struct carries its history in
attributes:

```rust
#[migration("0.1" => "0.2" { + email: String, name => full_name: String })]
#[migration("0.2" => "0.3" { age: u8 => u16 })]
struct User { full_name: String, email: String, age: u16 }
```

The library reads such attributes (and `#[version(..)]`) from token trees,
checks them against the grammar, and plans, for each step of the chain back
from the current version, how every field of the newer struct is initialised
from the older one. Everything in `src/` is verified with Verus; `app/` turns
`proc_macro2` streams into the library's tokens and its plans back into code.

- `src/tokens.rs`: token trees and their model.
- `src/syntax.rs`: punctuation, groups, identifiers, literals and type paths;
  the calls into `syn`.
- `src/field.rs`, `src/comment.rs`, `src/migration.rs`, `src/version.rs`: the
  grammar of changes, steps, migration attributes and versions.
- `src/order.rs`, `src/field_map.rs`: fields by name in `String` order.
- `src/plan.rs`: the field initialisers of one step, and their laws.
- `src/chain.rs`: the chain of steps back from the current version, and the
  `From` conversions it gives.
