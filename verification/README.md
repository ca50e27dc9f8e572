# alter_ego_tools

Tools for moderators of Alter Ego, a Discord bot that runs multiplayer text adventures.

The library in `src/` is verified with Verus:

- `tools::description` turns plain text into an Alter Ego `<desc>` description, one `<s>`
  element per sentence, line breaks written `<br />`.
- `tools::procedural` builds procedurals (a named random choice between possibilities with
  optional chances) and writes them as `<procedural>` markup, as possible names, or as
  containing phrases. `tools::chance` holds chances as the decimal text they are shown in.
- `tools::command_set` builds command sets: one entry per outcome, the commands escaped for
  Alter Ego and `$n` replaced by the capture groups of a regular expression.
- `theme` and `view_style` hold the small decisions of the settings and text views.
- `text` holds the character-level operations the generators share; `pattern` is the
  trusted boundary to the `regex` crate.

`app/` is the GTK front end (windows, forms, settings, clipboard). `tests/` runs the library.
