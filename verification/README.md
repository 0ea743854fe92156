# wisp

The interface of *wisps*: plain `.wgsl` fullscreen shaders (possibly
multi-pass) whose tweakable inputs are reflected from the shader itself, with
`///` doc-comment annotations for UI hints.

`src/` is the library, verified with Verus:

- `annot` - the doc-comment annotation grammar (`@min(0.0)`, `@pass(name, ..)`,
  string, number, flag and named arguments) and its errors;
- `number` - number literals as written, with their integer and display forms;
- `reflect` - WGSL parsing and validation through naga, read into a plain model
  of the module's types, globals and entry points;
- `schema` - the reflected schema: params fields and UI hints, the globals
  uniform, textures and their roles, passes and their targets, bindings, and
  every error a malformed shader gets;
- `globals`, `inputs`, `layout` - the per-frame globals, the runtime input
  values, the packing of both uniforms and the bind group layout;
- `targets`, `align` - pass target sizes and dispatch sizes, and the padding of
  uniform structs;
- `audio` - the sample history behind `@audio` and `@audio_fft` textures;
- `editor` - the state and decisions of a live-coding editor;
- `text` - the character-level string operations the rest is written in.

`tests/` runs the library on concrete shaders and values. `app/` is the Bevy
side: the plugin, asset loading, rendering, the egui panel and the editor
window; it moves data between Bevy and the library.
