# lazy_export

Lowering of modules whose exports are synthesized rather than written, proved with Verus.

A bundler's scanner leaves a JSON, text, base64 or dataurl module as a single expression
statement. This library turns that statement into real export syntax:

- `module.exports = <value>` for a module that is linked as CommonJS;
- `var <key> = <value>; ... export default { <key>, ... }; export { <key>, ... }` for a JSON
  object, so that an importer can name the keys and unused ones can be dropped;
- `export default <value>` for anything else.

The link stage does this for all its modules at once and records their exports, statements and
symbols in its tables.

## Layout

- `src/ast.rs`: the part of a syntax tree that lowering looks at; all other nodes are carried
  along as values of a type parameter.
- `src/bindings.rs`: the ordered table of the variables a JSON object becomes.
- `src/lowering.rs`: lowering one module.
- `src/symbols.rs`, `src/stmt_info.rs`, `src/module.rs`, `src/link_stage.rs`: what the link stage
  keeps about a module.
- `src/semantic_stats.rs`, `src/json_exports.rs`: the records of a JSON object's exports.
- `src/generate_lazy_export.rs`: lowering all modules of a link stage.
- `src/lowering_laws.rs`, `src/linking_laws.rs`: laws of lowered and of linked modules.
- `app/`: the library on `oxc` syntax trees, with modules prepared on several threads.

Two things are supplied by the caller as functions: the local name for a key of a JSON object,
and the semantic analysis of a rewritten module.
