# just_template

Code generation from text templates, verified with Verus.

A template text uses three constructs:

- `<<<key>>>`: a placeholder, replaced by the value of the parameter `key`;
- `@@@ >>> name` ... `@@@ <<<`: an implementation area, removed from the
  text and copied, once per parameter set of the implementation block `name`,
  where a line `>>>>>>>>>> name` stands;
- `??? >>> name` ... `??? <<<`: a display block, kept (without its markers)
  only when `name` is a parameter (of the template, or of the parameter set
  being expanded) and every enclosing display block is kept.

## Layout

- `src/text.rs`: character-level operations (trim, split, join, replace)
  with their definitions over `Seq<char>`.
- `src/params.rs`: `Params`, parameters with unique keys in insertion order.
- `src/template.rs`: `Template`, `insert_param`, `add_impl`.
- `src/expand.rs`: the expansion, stage by stage, each stage with its
  definition; `Template::expand`.
- `src/basic.rs`: the dialect without display blocks.
- `src/laws.rs`: properties of the expansion proved for all inputs.
- `src/substitution.rs`: placeholder replacement as one left-to-right
  substitution; order independence and idempotence.
- `app/lib.rs`: the `tmpl!` call syntax front end (on `syn`/`quote`), the
  declarative macros, and a `Display` view of a template.
- `tests/`: executable tests.
