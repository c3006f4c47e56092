# redsuite

The logic behind a black-box test suite for a base chain and its ephemeral
rollups, written in Verus: what the suites send, in which order, what they hold
the answers against, and what the three programs behind them do with their
accounts. Every function in `src/` is proved to do what its contract says.

## Layout

    src/chain.rs, effects.rs        accounts, instructions, and what a program asks the runtime for
    src/address.rs, delegation.rs   addresses that are searched for
    src/hash.rs                     SHA-256 chains and folds
    src/fields.rs, borsh_format.rs  the formats of instructions and account data
    src/text.rs, float_text.rs      numbers and bytes as text
    src/magic.rs, system.rs         instructions to the magic program and the system program
    src/redline/                    the load program and its interface
    src/redshift/                   the fixture program: counters, labelled counters, order books
    src/redhat.rs                   the program that asks for what it may not
    src/suite.rs                    what the suites share
    src/scenarios/                  one file per suite: its plan, its checks and its laws
    tests/                          tests on concrete values
    app/                            the suites and programs around the library

A program does not call the runtime. Its entry reads the accounts it was handed
and answers with a plan, a list of effects, and `app/programs.rs` carries the
plan out. A suite in the same way asks `src/scenarios/` what to send and what to
make of the reply; `app/` does the sending.

## Laws

Properties that relate several functions are public proof functions, each named
after what it states, such as `the_end_tells_the_order_on_each_account`,
`step_ids_are_unique`, `close_undoes_create` or `encoding_is_read_back`.

## What is trusted

Calls into other crates stand behind small functions marked
`#[verifier::external_body]`, each with a comment on what is claimed of the
call: the address search and the text of an address, SHA-256, borsh at two
types, the bincode form of instructions to the magic program and of its
responses, and UTF-8 decoding.
