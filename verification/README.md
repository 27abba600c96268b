# mdpreview

A terminal previewer for Markdown. A document is printed with ANSI styling and inline images (cat
mode), or shown in an interactive view that follows changes of the file (TUI mode).

`src/` is the library. It is verified with [Verus](https://github.com/verus-lang/verus): every
function states in its contract what it returns, as spec functions over sequences of characters.

| Module | What it holds |
| --- | --- |
| `text` | the string operations that the rest is built on |
| `node` | the document tree, and how it is rebuilt from a walk over it |
| `parser` | the Markdown parser (comrak) |
| `block` | blocks, inlines and images |
| `markdown` | from the document tree to blocks |
| `math` | formulas as Unicode text |
| `grammar` | which code the highlighter can take |
| `highlight` | the syntax highlighter (slt) |
| `png` | PNG data (image) and Base64 (base64) |
| `table` | column widths |
| `catmode` | blocks as text with ANSI styling |
| `render` | blocks as the rows of a user interface |
| `mermaid` | diagrams: which are to be drawn, their sizes, their images |
| `session` | which mode is used, and when a document is read and drawn again |

Public proof functions whose names start with `law_` state what holds of several functions
together.

`app/` is the program: arguments, files, the terminal, and the drawing of diagrams, which is in
floating point and reads fonts.

## Code that is not highlighted

The grammars of the highlighter abort on some code, or have undefined behavior on it. `grammar`
decides what they can take. It leaves out more than such code, as it bounds what a grammar may keep
by what the text could open at most: where code has errors, the grammars look for what opens in
comments and strings too, and go on with lines and columns that are not those of the text. What is
left out is shown as plain code:

- Ruby with a heredoc whose word is longer than 255 characters. Ruby with heredocs and about 200
  quotes, slashes and percent signs or more, if the lengths of some of the words, each with four
  added, may add up to a number that leaves the rest three by five. Only then can the buffer of the
  grammar be overrun; Ruby without heredocs is always highlighted.
- Python that is longer than 383 lines and has white space of more than 383 columns in a line.
- YAML with more than 253 of the marks that may open an indentation, together and at any level: `-`,
  `?` and `:` before a blank, and `|` and `>`. So 254 lines `key: value` are shown as plain code.
- Bash with a character beyond U+00FF behind an opening brace.

Code of the other languages that the highlighter knows is always highlighted.

## Trusted parts

The contracts of a few functions are believed without proof, because their bodies call other
crates or parts of the standard library that have no specification. They are marked
`#[verifier::external_body]` or `assume_specification`, and the comment above each one says what it
claims: `parser::walk_document`, `highlight::highlight`, `png::encode_png`, `png::encode_base64`,
`session::to_lowercase` and `String::push`.
