# borealis passes, verified

A Verus library with two passes of the borealis compiler:

- `src/jib_ast.rs`, `src/pretty_print.rs`: the JIB pretty printer. Spec
  functions give the text of every node; `print_ast` returns the text of a
  sequence of definitions and is proved to equal it. Laws: printing in parts
  gives the whole, which functions are known abstract, every instruction is
  printed as whole lines at its indentation.
- `src/rudder.rs`, `src/debundler.rs`: the rudder IR (statements of a block
  read statements by position), the statement use analysis, and the
  debundling pass with its sequential specification. Laws: debundling keeps
  what every statement computes and keeps blocks well formed; a block without
  bundles is left as is; the constant-length transform rewrites exactly the
  bundles whose length is an unsigned constant.
- `src/text.rs`: decimal rendering of integers, and integers of any size
  (`BigInt`, a sign and canonical decimal digits) for JIB type constants.
- `app/lib.rs`: printing the text on standard output.
