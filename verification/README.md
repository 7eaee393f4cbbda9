# renzora_authoring

The verified core of a game editor's authoring tools, written in Verus:

- `preprocess`, `validate`, `precompiled` — saving a material graph's compiled shader. Generated
  WGSL is preprocessed (`#ifdef`/`#else`/`#endif` against pipeline defines, `#import` lines
  dropped, import paths rewritten to stub names, the stub of the imported declarations put in
  front), checked against a conservative nesting bound (`nesting`) so that naga's recursive
  front end is never handed a source too deep for it, and handed to naga; the save is then decided by the outcome and the invalid-shader
  policy: what to write, the sidecar's contents, and the graph's link to the last good shader.
- `content_problems` — per-file problems, replaced wholesale on recompile, listed in path order.
- `diagnostic` — the role-by-role colouring of a codespan-style compiler diagnostic.
- `atmospherics` — the decisions of the weatherscape adapter: which cameras carry the
  pipeline, when exposure is written, when the weather package is reloaded and republished,
  when failed textures are reissued, what an older root is missing, and light markers.
- `text` — the character-level string operations the rest is built on.

`app/` writes the files a save decides on, with serde for the sidecar and the graph.
