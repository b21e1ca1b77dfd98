# lib — verified parser combinators

A parser combinator library over text, written in Verus. Every parser states
what it does as a mathematical function of its input, and Verus proves that
the code does exactly that.

Two styles of parsing are offered.

* **Parsers over slices** (`parser`, `combinator`, `combine`, `char`,
  `primitive`, `token`, `tuple`): a parser takes `&[char]` and gives back the
  value with the rest of the input. `Parser::spec_parse` gives, for every
  sequence of characters, either the value with the number of characters
  consumed, or the error.

* **Parsers over inputs read in place** (`traits`, `adapters`,
  `combinators`, `text`, `cursor`, `char::primitive`, `char::state`): a parser
  reads from a `&mut` input and may go back to a place saved by a cursor.
  `Input` describes an input by its whole text, the number of characters read,
  the cursors open and the messages reported; `Parser::spec_parse` gives, for
  every text and place, the result, where the parser stops and what it reports.
  `StaticInput` reads a string held in memory; `StreamInput` decodes a byte
  source as it goes, keeping what it must be able to read again.

Below the text inputs sit a buffered byte reader (`bytereader`), a UTF-8
decoder (`decode`, proved to give back the characters of any valid UTF-8, in
terms of vstd's UTF-8 model) and a stream of decoded characters with
look-ahead (`utf8_stream`).

For example, a bracketed, comma-separated list of digits:

```rust
use lib::combine::{between, sepby};
use lib::pred::CharClass;
use lib::primitive::sat;
use lib::Parser;

let input: Vec<char> = "[1,2,3]".chars().collect();
let list = between('[', sepby(sat(CharClass::AsciiDigit), ','), ']');
assert_eq!(list.parse(&input[..]), Ok((vec!['1', '2', '3'], &input[7..])));
```

Characters and string slices are parsers; a function is not, so a class of
characters is read with `sat` and a `CharClass`.

`laws` states and proves what holds of the combinators on every input.

`app/` holds what needs `std::io` and `Display`: reading a `Read` source into
bytes, and the text of the decoding errors.
