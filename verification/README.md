# pbn-to-pdf

Reads PBN (Portable Bridge Notation) files and decides how their boards are
laid out as PDF hand records, bidding practice sheets, declarer's plans and
dealer summaries, in the style of Bridge Composer. The drawing of the pages
is absent (see below).

The library in `src/` is written in Verus and proved against its contracts:

- `model/` — cards, hands, deals, auctions and contracts, boards, Bridge
  Composer's display flags, commentary.
- `parser/` — the PBN header directives, commentary markup, auctions and
  their notes, suit escapes.
- `cli/`, `config.rs` — command-line options and the display settings they
  and the file's directives make.
- `render/` — every decision a layout makes before it draws: which parts of
  a board show, where each call of a bidding table goes, how columns fill and
  break, which card renditions a declarer's plan needs, the text of titles,
  labels, footers and notes, and the repair and compression of the finished
  PDF through lopdf: form XObjects get the resources their content names,
  their path coordinates are shortened, every stream is compressed.

`app/` is the program around it: argument parsing, reading the file through
the PBN reader, page geometry in millimetres, the PDF document, and the
rounding of a single coordinate, which reads and formats a float. The
drawing itself (printpdf output in floating-point millimetres) is not part
of this crate: `app/layouts.rs` reports that no layout can be drawn, so the
program stops before writing a PDF.
