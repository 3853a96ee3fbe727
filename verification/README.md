# markdown_boxes

A gallery of markdown templates for AI-driven workflows. A template has placeholders
(`{{name | required | default: "x"}}`), conditional and loop blocks
(`{{#if cond}}...{{else}}...{{/if}}`, `{{#each list as item}}...{{/each}}`, which can
nest), typed
sections and a styling specification. The user fills in a form, and the filled-in text
is previewed and exported.

- `src/` is the library, verified with Verus: the text operations it rests on
  (`text`), the values of the placeholders (`values`), the data model (`models`), the
  placeholder filters, the substitution (`substitute`), the block engine (`engine`),
  the section and styling grammar of a template body (`sections`), the frontmatter of a
  template source and its filters (`frontmatter`), the template store
  (`store`), what the form, the gallery and a template's page show (`form`, `gallery`,
  `preview`), and properties of the whole (`laws`).
- `app/` is the Leptos web interface around it: components, pages, the serde copies of
  the data types, the bundled template sources and the reading of their YAML
  frontmatter into the index, and markdown rendering with comrak.
- `tests/` runs the library on concrete inputs.
