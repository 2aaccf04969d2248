# mod_theory

Pattern matching in equational theories: the free theory
(discrimination nets, left-hand-side matching automata, right-hand-side builders), the data of
the associative-commutative theory with identity, and the substitutions, terms and DAG nodes they
work on. The functions of the library are verified with Verus against their contracts, except
the few trusted wrappers whose contracts state what `shared_vector` and `BTreeMap` do: the
argument lists of `node_list` and the least entry of a `BTreeMap` in `red_black_tree`.

Layout:

- `src/` the verified library. Terms live in a `TermStore` and DAG nodes in a `DagHeap`; both
  refer to their arguments and to the symbols of a `Signature` by index, arguments always coming
  first, so the structures are acyclic by construction.
  - `dag_node`, `dag_compare`, `dag_ops`: DAG nodes, their order, sorts, copying, counting and
    turning them back into terms.
  - `term`, `term_compare`, `term_analysis`: terms, their order, and the analyses that mark them.
  - `substitution`, `nat_set`: bindings of variables and sets of variable indices.
  - `lhs_automaton`, `lhs_compiler`, `abstraction`, `subproblem`: matching automata, their
    compilation, and the subproblems matching leaves.
  - `rhs_automaton`, `free_net`, `free_remainder`: building right-hand sides and discriminating
    between the equations of a free symbol.
  - `red_black_tree`, `acu_dag_node`, `acu_term`, `acu_automaton`, `acu`, `extension_info`,
    `numeric`: arguments, nodes and terms of the associative-commutative theory, the first steps
    of its matcher, its subproblems and what a match with extension leaves.
  - `node_list`: argument lists shared between nodes, kept in `shared_vector`.
- `tests/` tests of the library on concrete values.
- `app/` printing: the graph representation of a DAG and the names of symbol structures.
