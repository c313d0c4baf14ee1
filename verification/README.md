# zellij_template_render

Verified core of a template-driven terminal renderer for Zellij plugins.

Templates call layout helpers (`Flex`, `Button`, `OnOverflow`) that render to private
markers; the library parses that markup into a layout tree, measures ANSI-styled text,
lays the tree out into a grid of cells with typed click targets, and returns a frame of
terminal lines and a same-shape hitbox grid.

## Layout

- `src/` — the library, proved with Verus:
  - `markup`, `helpers`: the marker protocol (emitting and parsing), argument checks,
    action tokens;
  - `node`, `layout`, `canvas`, `paint`, `ansi`: the layout tree, flex layout,
    cell grids, ANSI-aware painting and width measurement;
  - `filters`, `clock`: colour and style filters, clock patterns and refresh timing;
  - `host`, `paths`: environment allowlists, theme tokens, template source choice,
    template paths;
  - `actions`, `tabbar`, `timer`, `bench`: built-in actions, tab bar button policy,
    timer bookkeeping, benchmark plugin policy;
  - `lib.rs`: frames, render errors, error frames, click lookup, screen output.
- `app/` — MiniJinja evaluation, filesystem reads, and the Zellij plugin shells, built
  on the library.
- `tests/` — behaviour tests of the library.
