# goldy_doom

Reading DOOM WAD files, decoding their images and describing their levels, with the
logic proved correct by Verus.

- `src/name.rs`: eight-byte WAD names (parsing, appending, packing into lookup keys).
- `src/image.rs`: paletted images, the column-based patch format, clipped blitting.
- `src/archive.rs`: a WAD held in memory: header and directory parsing, level markers,
  lookup by name and index, reading and framing lumps.
- `src/meta.rs`: WAD metadata: skies chosen by level-name patterns, thing and linedef
  descriptions.
- `src/visitor.rs`: markers, object ids, the height ranges of moving floors and
  ceilings, and the walls, skies and flats a level's segments and sectors give.
- `src/analysis.rs`: the triggers of a level's linedef specials, the sectors they act
  on, and the object ids and height ranges those sectors get.
- `src/render.rs`: the render mode, palette conversion, and the triangle indices of
  level meshes.
- `src/index_map.rs`: the `indexmap` map as the library uses it.
- `app/`: the command-line program: reads the files, parses the TOML metadata, and
  reports what the library finds.

Verus proves the contracts of `src/`; `tests/` run the library on concrete WADs, patches and metadata.
