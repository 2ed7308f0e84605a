# extendable-assets

An asset framework for graphics and games, written in Verus: the library's
logic carries `requires` / `ensures` contracts that Verus proves.

## Layout

- `src/` — the verified library.
  - `asset_id.rs`: asset ids, and ids generated from asset paths
    (percent-encoding of the path, then XXH3 with a fixed seed).
  - `asset.rs`, `asset_type.rs`, `loader.rs`, `saver.rs`: assets, asset types
    and the loaders and savers they hand out.
  - `type_registry.rs`, `manager.rs`: the asset manager with its registries of
    asset types (by name) and assets (by id).
  - `filesystem.rs`: the filesystem abstraction, a fallback filesystem that
    tries several others in order, and a filesystem over embedded files.
  - `serialize.rs`, `compression.rs`, `inflate.rs`: serialized assets,
    serialization backends, zlib framing of serialized data, and a deflate
    decoder (stored, fixed- and dynamic-Huffman blocks).
- `tests/` — tests of the library on concrete values.
- `app/` — integration with the operating system and outside crates: the
  native filesystem, `rust-embed` providers, JSON and MessagePack backends,
  serde representations, downcastable asset data and a thread-safe manager.

The library's traits (`Filesystem`, `AssetType`, `AssetLoader`,
`AssetSerializationBackend`, `EmbedFilesystemProvider`) carry spec functions
that stand for what an implementation answers; the contracts of the manager
and of the filesystems say what they hand to these implementations and what
they do with the answers.

The laws the library keeps (what a lookup returns after a registration, that
decompressing a compressed buffer gives it back, that root directory
normalization is idempotent, ...) are public proof functions whose names
begin with `law_`.
