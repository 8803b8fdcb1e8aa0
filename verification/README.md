# xous_prefs

The decision logic of the Xous status service's device-preferences menu and
the generator of the `t!` translation macro, as a library whose functions
carry proved contracts.

- `src/` — the library.
  - `pref_ops`: menu opcodes and the routing of an incoming opcode.
  - `pref_menu`: the menu's operations and entries, the changes made when
    audio is switched on or off, and laws about those changes.
  - `pref_dialogs`, `decimal`, `volume`: what each preference dialog shows
    and what its answer turns into.
  - `placeholders`, `text_order`, `translations`, `codegen`, `locales`:
    placeholder extraction, merging of locale files and the text of the
    generated macro.
- `tests/` — tests on concrete values.
- `app/` — the programs around the library: reading the locale files and
  writing the macro, and the Xous glue of the preferences menu thread.
