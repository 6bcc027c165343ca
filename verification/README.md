# iced_context_menu

Context menus for Iced 0.14: right-click or programmatic open, nested submenus, toggles, sliders
over discrete stops, number fields, hotkey hints and theme-aware styling.

The crate is in two parts.

- `src/` is the library, proved with Verus. It holds the menu tree (`MenuSpec`,
  `MenuNode`), the paths into it, and every decision the menu takes: which row keyboard focus
  lands on, which submenus a focus opens, what a click, a slider press or drag, Escape or a click
  outside does, and what the host has to publish in answer. `context_menu/laws.rs` states and
  proves the properties that span those operations. `widget.rs` and `menu.rs` hold the panel-model
  form of the menu: rows reduced to their kinds, a focus index per shown panel, and the
  hover-open rules with their delay.
- `app/` is the Iced widget around it: measuring text, laying out and drawing panels, hit-testing
  the pointer, and hosting the number-field widgets. It hands the library plain inputs (a key, the
  row and slider stop under the pointer) and publishes the library's `Reaction`.

`tests/` runs the library on concrete menus.
