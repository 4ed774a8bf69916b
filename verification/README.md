# funky

A C/C++ source formatter whose logic is verified with Verus.

The text goes through four stages:

1. `lexer` cuts the source into tokens; the tokens' texts, joined, are the source.
2. `inject` puts braces around the unbraced bodies of `if`, `else`, `while` and
   `for`, as the settings ask.
3. `machine` lays the tokens out. It walks them once and keeps a `layout::State`;
   what each kind of token does to it stands in `emit`, `braces` and `words`. The
   look-ahead and look-behind that tell a declaration from an expression is in
   `scan`, the spacing rule in `spacing`, the rewriting of comments and
   preprocessor lines in `trivia`.
4. `align` moves trailing comments, enum `=` signs and Doxygen comments to common
   columns, group by group.

`formatter` puts the stages together, `config` holds the settings, `command` and
`walk` decide what the command line does with a file. Strings are handled as
sequences of characters by `text`; `std_contracts` lists what is taken on trust
from the standard library.

The contracts say exactly what every stage returns. What holds across the stages
is proved under `laws`, on top of `content`, `keep` and `neat`, which follow the
characters that are not white space, and the spaces at line ends, through the
layout machine; `laws::weave` follows the texts of the tokens:

- formatting changes white space only, and adds braces only where it is set to;
- the braces that are added are balanced, each `{` before its `}`, no token is
  lost or moved, and code whose bodies all have braces gets no more;
- with no kind of brace wanted the tokens come back as they were;
- the texts of the tokens stand in the output one behind the other, with white
  space between them, and the output reads as those tokens again where each ends
  before what is written next to it (see below);
- no more empty lines than are wanted lie between two tokens;
- alignment keeps every line and everything on it but white space, keeps the text
  of string and character literals, also of those that go on over several lines,
  and aligning twice is the same as aligning once;
- in the CRLF style every line end is a pair, and where no token holds a carriage
  return the output is the LF output with its line ends replaced;
- no line of the output ends in a space, in either style, where no line within a
  token does; block comments are trimmed;
- with `final_newline` the output is empty or ends with a line end, unless an
  injected `}` closes an initializer that the source leaves open at its end;
- the brace, blank-line, label, pointer and preprocessor settings do what they
  say, one step of the layout machine at a time.

Some tokens are written so close together that they read as another token:

- a sign in front of a sign: `x = - -y` is written `x = --y`, and `+ +y` is
  written `++y`;
- without spaces around operators, an operator in front of a sign: `a / *p` is
  written `a/*p`, which starts a comment, and `a - -b` is written `a--b`;
- where a `{` joins the line before it, one that follows a `//` comment or a
  preprocessor line: it becomes a part of that line.

`laws::reading` says of which texts this cannot happen. For the same reason it is
not claimed that formatting twice is the same as formatting once.

`app` is the command-line program: arguments, `funky.toml`, files.
