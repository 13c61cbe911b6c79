# rime

The verified core of a small component kit for the iced GUI toolkit.

`src/` is the library, written in Verus and proved: the palette model and
`#rrggbb[aa]` hex colors, the persisted dark/light choice, the theme registry's
name table (built-ins, user theme files, case-insensitive resolution), the
fixed-capacity secret buffer behind the masked password field and that field's
editing and key-routing rules, grid and table click handling, bijective base-26
column names, menu and flyout anchoring, drag-to-reorder for tab strips,
bit-field bands, and completion filtering. Each public function carries a
contract; the `law_*` proof functions state the properties that span several
calls (round trips, undo, invariants kept by every operation).

`app/` is the iced layer on top: widgets, drawing, layout and float geometry,
the active-palette channel, and file I/O for themes. It calls the library for
every decision listed above. `app/demo.rs` is a gallery that shows every
component on one screen.

`tests/` exercises the library on concrete values.
