# unity_typetree_gen

Generates Unity type trees for `MonoBehaviour` and `ScriptableObject` scripts
from the .NET assemblies of a game, following Unity's serialization rules.

The library in `src/` is written in Verus and proved against its contracts:

- `version` parses Unity version strings and decides the nesting limit of
  serialized fields.
- `field` and `template` hold the template trees of fields and the fixed
  layouts of Unity's built-in types (`PPtr`, `vector`, `Keyframe`, ...).
- `metadata` models the assemblies: type definitions, fields, type
  references, forwarders, and how a reference resolves.
- `generator` reads the serialized fields of a script type, inherited fields
  first, into a template tree.
- `typetree` builds the finished tree: byte sizes, array and align flags.
- `assembly` is the cache of parsed assemblies. Its operations are steps that
  either ask for one more assembly file or finish with their answer, so the
  caller does the reading.

`app/` is the ordinary Rust around it: reading assembly files, parsing them
with `dotnetdll` and converting the parsed metadata into the model, running
the steps, and converting trees to `rabex` values. `tests/` holds the tests.
