# iron_render_cad

The rules behind deterministic rendering of CAD drawings -- a drawing model
to SVG or PNG, and a change set drawn over the drawing it changes as a
redline -- stated as contracts and proved with Verus. The crate decides what
a render holds and how it is named, bounded and reported; it does not draw:
the floating-point geometry of each entity, the framing of the picture and
the assembled documents are not part of it.

- `src/` is the verified library: how a drawing's text is read (`text`,
  `svg::text_codes`), justified (`svg::justify`) and escaped
  (`svg::format`); the caps on what a file can ask for and the report of
  what they left out (`limits`); what a block reference expands to
  (`svg::blocks`); what the drawing hides (`svg::visibility`); which
  entities a space walks (`svg::select`) and which layouts have a sheet
  (`svg::sheet`); what a picture's frame leaves out (`svg::crop`,
  `svg::guard`); how texts and shared definitions are named (`svg::scene`,
  `svg::defs`); which vertices a polyline's segments join (`svg::polyline`);
  how many points an entity is drawn with (`svg`); what a change set's
  redline marks (`svg::overlay`); and the bound on a PNG's size and its
  errors (`png`).
- `app/` holds what stays outside the proofs: reading the drawing model and
  the change set into the library's values, serializable and printable
  copies of its reports and errors, the rasterizer, and the floating-point
  geometry of framing.
- `tests/` exercises the library on concrete drawings' values.
