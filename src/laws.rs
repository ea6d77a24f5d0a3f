use vstd::prelude::*;
use vstd::arithmetic::power2::pow2;
use crate::tree::Node;
use crate::expr::{Prop, eval, infix, latex, node_parse, var_list, vars, lemma_var_list};
use crate::names::{name_lt, sorted_names, lemma_lt_irreflexive, lemma_lt_transitive};
use crate::steps::{steps, lemma_trace};
use crate::table::{simple_rows, steps_rows};

verus! {

/// LaTeX symbol of a binary operator token.
pub open spec fn operator_symbol(op: Seq<char>) -> Seq<char> {
    if op == "*"@ {
        " \\wedge "@
    } else if op == "+"@ {
        " \\vee "@
    } else if op == "=>"@ {
        " \\rightarrow "@
    } else {
        " \\iff "@
    }
}

/// Canonical infix rendering read directly off a generic tree.
pub open spec fn tree_latex(n: Node) -> Seq<char>
    decreases n,
{
    match n {
        Node::Symbol(s) => s@,
        Node::List(v) => {
            if v.len() == 2 {
                "\\neg "@ + tree_latex(v[1])
            } else if v.len() == 3 {
                match v[1] {
                    Node::Symbol(op) => infix(
                        tree_latex(v[0]),
                        operator_symbol(op@),
                        tree_latex(v[2]),
                    ),
                    _ => Seq::empty(),
                }
            } else {
                Seq::empty()
            }
        },
    }
}

/// Parsing is a function of the tree: a tree never denotes two formulas.
pub proof fn parse_deterministic(n: Node, a: Prop, b: Prop)
    requires
        node_parse(n) == Some(a),
        node_parse(n) == Some(b),
    ensures
        a == b,
{
}

/// The tree reached from `n` by following operand positions: the operand
/// of a two-element list sits at index 1, those of a three-element list at
/// indices 0 and 2.
pub open spec fn operand_at(n: Node, path: Seq<int>) -> Option<Node>
    decreases path.len(),
{
    if path.len() == 0 {
        Some(n)
    } else {
        match n {
            Node::List(v) => {
                if (v.len() == 2 && path[0] == 1) || (v.len() == 3 && (path[0] == 0 || path[0]
                    == 2)) {
                    operand_at(v[path[0]], path.drop_first())
                } else {
                    None
                }
            },
            _ => None,
        }
    }
}

/// Parsing is all or nothing: a subtree in operand position anywhere in the
/// tree that does not parse makes the whole tree fail to parse.
pub proof fn malformed_subtree_fails(n: Node, path: Seq<int>, m: Node)
    requires
        operand_at(n, path) == Some(m),
        node_parse(m) is None,
    ensures
        node_parse(n) is None,
    decreases path.len(),
{
    if path.len() > 0 {
        if let Node::List(v) = n {
            malformed_subtree_fails(v[path[0]], path.drop_first(), m);
        }
    }
}

/// Every atom denotes the variable named by its text, whatever that text is.
pub proof fn atom_is_variable(s: String)
    ensures
        node_parse(Node::Symbol(s)) == Some(Prop::Var(s@)),
{
}

/// Rendering a parsed formula gives the canonical infix rendering of the
/// tree it came from: `(p * q)` renders as `(p \wedge q)`, and so on for
/// every operator.
pub proof fn render_after_parse(n: Node)
    requires
        node_parse(n) is Some,
    ensures
        latex(node_parse(n)->Some_0) == tree_latex(n),
    decreases n,
{
    if let Node::List(v) = n {
        if v.len() == 2 {
            render_after_parse(v[1]);
        } else if v.len() == 3 {
            render_after_parse(v[0]);
            render_after_parse(v[2]);
        }
    }
}

/// Evaluation follows the classical truth tables of the connectives:
/// an implication is false only when its antecedent is true and its
/// consequent false, a biconditional is true exactly when both sides agree.
pub proof fn connective_truth_tables(a: Prop, b: Prop, env: Map<Seq<char>, bool>)
    ensures
        eval(Prop::Not(Box::new(a)), env) == !eval(a, env),
        eval(Prop::And(Box::new(a), Box::new(b)), env) == (eval(a, env) && eval(b, env)),
        eval(Prop::Or(Box::new(a), Box::new(b)), env) == (eval(a, env) || eval(b, env)),
        !eval(Prop::Implies(Box::new(a), Box::new(b)), env) == (eval(a, env) && !eval(b, env)),
        eval(Prop::Iff(Box::new(a), Box::new(b)), env) == (eval(a, env) == eval(b, env)),
{
}

/// Two strictly ascending name lists with the same elements are equal.
pub proof fn lemma_sorted_unique(s: Seq<Seq<char>>, t: Seq<Seq<char>>)
    requires
        sorted_names(s),
        sorted_names(t),
        s.to_set() == t.to_set(),
    ensures
        s == t,
    decreases s.len(),
{
    if s.len() == 0 {
        if t.len() > 0 {
            assert(t.to_set().contains(t[0]));
        }
        assert(s =~= t);
    } else {
        assert(s.to_set().contains(s[0]));
        assert(t.len() > 0);
        let k = choose|k: int| 0 <= k < t.len() && t[k] == s[0];
        assert(t.to_set().contains(t[0]));
        let m = choose|m: int| 0 <= m < s.len() && s[m] == t[0];
        if k > 0 {
            assert(name_lt(t[0], t[k]));
            if m > 0 {
                assert(name_lt(s[0], s[m]));
                lemma_lt_transitive(s[0], s[m], s[0]);
            }
            lemma_lt_irreflexive(s[0]);
        }
        let (s1, t1) = (s.drop_first(), t.drop_first());
        assert(sorted_names(s1)) by {
            assert forall|i: int, j: int| 0 <= i < j < s1.len() implies name_lt(
                #[trigger] s1[i],
                #[trigger] s1[j],
            ) by {
                assert(s1[i] == s[i + 1] && s1[j] == s[j + 1]);
            };
        };
        assert(sorted_names(t1)) by {
            assert forall|i: int, j: int| 0 <= i < j < t1.len() implies name_lt(
                #[trigger] t1[i],
                #[trigger] t1[j],
            ) by {
                assert(t1[i] == t[i + 1] && t1[j] == t[j + 1]);
            };
        };
        assert(s1.to_set() =~= t1.to_set()) by {
            assert forall|y| s1.to_set().contains(y) implies t1.to_set().contains(y) by {
                let i = choose|i: int| 0 <= i < s1.len() && s1[i] == y;
                assert(s[i + 1] == y);
                assert(name_lt(s[0], s[i + 1]));
                lemma_lt_irreflexive(y);
                assert(t.to_set().contains(y));
                let j = choose|j: int| 0 <= j < t.len() && t[j] == y;
                assert(j != 0);
                assert(t1[j - 1] == y);
            };
            assert forall|y| t1.to_set().contains(y) implies s1.to_set().contains(y) by {
                let i = choose|i: int| 0 <= i < t1.len() && t1[i] == y;
                assert(t[i + 1] == y);
                assert(name_lt(t[0], t[i + 1]));
                lemma_lt_irreflexive(y);
                assert(s.to_set().contains(y));
                let j = choose|j: int| 0 <= j < s.len() && s[j] == y;
                assert(j != 0);
                assert(s1[j - 1] == y);
            };
        };
        lemma_sorted_unique(s1, t1);
        assert(s =~= seq![s[0]] + s1);
        assert(t =~= seq![t[0]] + t1);
    }
}

/// Collecting variables ignores repetition and operand order: a formula
/// combined with itself has the variables of the formula alone, and
/// swapping the operands of a binary connective leaves the list unchanged.
pub proof fn variables_idempotent_and_symmetric(a: Prop, b: Prop)
    ensures
        var_list(Prop::And(Box::new(a), Box::new(a))) == var_list(a),
        var_list(Prop::Or(Box::new(a), Box::new(a))) == var_list(a),
        var_list(Prop::Implies(Box::new(a), Box::new(a))) == var_list(a),
        var_list(Prop::Iff(Box::new(a), Box::new(a))) == var_list(a),
        var_list(Prop::And(Box::new(a), Box::new(b))) == var_list(
            Prop::And(Box::new(b), Box::new(a)),
        ),
        var_list(Prop::Or(Box::new(a), Box::new(b))) == var_list(
            Prop::Or(Box::new(b), Box::new(a)),
        ),
        var_list(Prop::Implies(Box::new(a), Box::new(b))) == var_list(
            Prop::Implies(Box::new(b), Box::new(a)),
        ),
        var_list(Prop::Iff(Box::new(a), Box::new(b))) == var_list(
            Prop::Iff(Box::new(b), Box::new(a)),
        ),
{
    let aa = Prop::And(Box::new(a), Box::new(a));
    let ab = Prop::And(Box::new(a), Box::new(b));
    let ba = Prop::And(Box::new(b), Box::new(a));
    lemma_var_list(a);
    lemma_var_list(aa);
    lemma_var_list(ab);
    lemma_var_list(ba);
    assert(vars(a).union(vars(a)) =~= vars(a));
    assert(vars(a).union(vars(b)) =~= vars(b).union(vars(a)));
    lemma_sorted_unique(var_list(aa), var_list(a));
    lemma_sorted_unique(var_list(ab), var_list(ba));
}

/// A step sequence is never empty, holds no two equal formulas, and ends
/// with the formula itself.
pub proof fn steps_distinct_and_end_with_formula(p: Prop)
    ensures
        steps(p).len() > 0,
        steps(p).no_duplicates(),
        steps(p).last() == p,
{
    lemma_trace(p);
    if p is Var {
        assert(seq![p].no_duplicates());
    }
}

/// A table has one row per assignment: `2^n` rows for `n` distinct variables.
pub proof fn table_has_a_row_per_assignment(p: Prop)
    ensures
        simple_rows(p).len() == pow2(vars(p).len()),
        steps_rows(p).len() == pow2(vars(p).len()),
{
    lemma_var_list(p);
    let s = var_list(p);
    assert(s.no_duplicates()) by {
        assert forall|i: int, j: int| 0 <= i < s.len() && 0 <= j < s.len() && i != j implies s[i]
            != s[j] by {
            if i < j {
                assert(name_lt(s[i], s[j]));
            } else {
                assert(name_lt(s[j], s[i]));
            }
            lemma_lt_irreflexive(s[i]);
        };
    };
    s.unique_seq_to_set();
}

} // verus!
