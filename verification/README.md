# printa-ble

Rendering and job control for small Bluetooth thermal printers, written in Rust and verified with
[Verus](https://github.com/verus-lang/verus). Every page is a 1-bit bitmap, 384 pixels wide.

`src/` is the library. It does no input or output: documents, glyphs, notifications and requests
come in as values, and pages, frames and answers go out as values. Every public function states in
its contract what it returns, and the functions named `law_…` state what holds across functions.

| Module                                  | What it decides                                            |
| --------------------------------------- | ---------------------------------------------------------- |
| `bitmap`                                | The canvas                                                 |
| `text`, `table`, `fences`               | Words and lines, monospace tables, fence info strings      |
| `glyphs`, `faces`                       | Styles, sheets of glyphs, which face draws a character     |
| `layout`, `rich`                        | Word wrap, baselines, alignment, strikethrough             |
| `events`, `lowering`, `markdown`        | Markdown events, blocks, pages                             |
| `documents`, `directives`, `joins`      | Laws of whole documents: which spellings print the same    |
| `qr`, `barcode`, `wagara`               | Graphic fences                                             |
| `images`, `md_images`                   | Which images of a document are read or fetched             |
| `packets`, `job`                        | The X6 wire frames and print job                           |
| `server`                                | What a print server answers, and when it may touch the printer |

CommonMark parsing, QR encoding, base64 and font character maps come from `pulldown-cmark`,
`qrcode`, `base64` and `fontdue`. The items that call them say in their comments what is taken on
trust.

Lengths along a line are ten-thousandths of a pixel and font sizes hundredths, so that 0.6 em
advances and 1.3 em lines are whole numbers.

`app/` is the HTTP server around the library, with fonts, sockets and files. A printer, image
codecs and a browser are handed in through the traits of `app/backend.rs`.

`tests/` exercise the library from outside.
