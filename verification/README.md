# pincers

A clipboard manager modelled on Vim's registers. There are ten numbered registers, `"0` to `"9`,
and twenty-six named ones, `"a` to `"z`; the unnamed register `""` stands for the one that was used
last. A register holds data of several MIME types at once.

`src/` is the library, verified with Verus:

- `address`: register addresses, how they are read, shown and ordered
- `mime`: MIME types and which type answers a request for which
- `register`: the contents of one register, and its summary
- `listing`: registers with their summaries, in the order of their addresses
- `pincer`: the registers of one seat; yank, paste, list
- `seat`: the seats that are managed
- `daemon`: requests and how they are answered
- `client`: making requests, and what is put out for the responses
- `text`: decimal numbers, trimming, joining

The contracts speak of views: a register is a sequence of types with their data in the order in
which the types first came, a Pincer is its numbered registers in the order of their numbers and
its named ones in the order of their letters. What the library is meant to do as a whole is stated
in public proof functions, such as `pincer::paste_gives_back_what_was_yanked` and
`pincer::numbered_registers_are_the_history`.

Calls into other crates stand in small functions marked `external_body`, each with a comment that
says what is taken for granted: reading and comparing MIME types (`mediatype`), bounded numbers
(`bounded-integer`), joining lines (`itertools`), and a few functions of the standard library.

`app/` is the program: the command line, the socket and the messages on it. `tests/` holds the
tests of the library.
