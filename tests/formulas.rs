use logic_table::assignment::Assignment;
use logic_table::expr::{Error, LogicExp};
use logic_table::tree::Node;

fn sym(s: &str) -> Node {
    Node::symbol(s)
}

fn bin(a: Node, op: &str, b: Node) -> Node {
    Node::list(vec![a, sym(op), b])
}

fn neg(a: Node) -> Node {
    Node::list(vec![sym("-"), a])
}

fn var(s: &str) -> LogicExp {
    LogicExp::Variable(s.to_string())
}

fn parsed(n: &Node) -> LogicExp {
    LogicExp::parse(n).unwrap()
}

fn assign(pairs: &[(&str, bool)]) -> Assignment {
    let mut a = Assignment::new();
    for (k, v) in pairs {
        a.insert(k.to_string(), *v);
    }
    a
}

#[test]
fn parse_atom_is_variable() {
    assert_eq!(parsed(&sym("p")), var("p"));
}

#[test]
fn parse_each_operator() {
    let p = || Box::new(var("p"));
    let q = || Box::new(var("q"));
    assert_eq!(parsed(&bin(sym("p"), "*", sym("q"))), LogicExp::And(p(), q()));
    assert_eq!(parsed(&bin(sym("p"), "+", sym("q"))), LogicExp::Or(p(), q()));
    assert_eq!(parsed(&bin(sym("p"), "=>", sym("q"))), LogicExp::Implies(p(), q()));
    assert_eq!(parsed(&bin(sym("p"), "<=>", sym("q"))), LogicExp::Iff(p(), q()));
    assert_eq!(parsed(&neg(sym("p"))), LogicExp::Not(p()));
}

#[test]
fn parse_is_deterministic() {
    let t = bin(neg(sym("a")), "<=>", bin(sym("b"), "+", sym("a")));
    assert_eq!(parsed(&t), parsed(&t));
}

#[test]
fn parse_rejects_missing_operand() {
    let t = Node::list(vec![sym("p"), sym("*")]);
    assert_eq!(LogicExp::parse(&t), Err(Error::ParseError));
}

#[test]
fn parse_any_atom_is_variable() {
    for t in ["1", "2.5", "-", "*", "<=>", "x_1"] {
        assert_eq!(parsed(&sym(t)), var(t));
    }
    let e = parsed(&bin(sym("1"), "+", sym("0")));
    assert_eq!(e.find_vars(), vec!["0".to_string(), "1".to_string()]);
}

#[test]
fn parse_rejects_malformed_nested_subtree() {
    let bad = Node::list(vec![sym("p"), sym("*")]);
    let t = bin(bad, "+", sym("q"));
    assert_eq!(LogicExp::parse(&t), Err(Error::ParseError));
    let deep = Node::list(vec![sym("-"), bin(sym("r"), "=>", Node::list(vec![sym("q")]))]);
    assert!(LogicExp::parse(&deep).is_err());
}

#[test]
fn parse_rejects_malformed_shapes() {
    assert!(LogicExp::parse(&Node::list(vec![])).is_err());
    assert!(LogicExp::parse(&Node::list(vec![sym("p")])).is_err());
    assert!(LogicExp::parse(&Node::list(vec![sym("a"), sym("b"), sym("c"), sym("d")])).is_err());
    assert!(LogicExp::parse(&Node::list(vec![sym("!"), sym("p")])).is_err());
    assert!(LogicExp::parse(&bin(sym("p"), "&", sym("q"))).is_err());
    assert!(LogicExp::parse(&Node::list(vec![sym("p"), Node::list(vec![]), sym("q")])).is_err());
    assert!(LogicExp::parse(&bin(sym("p"), "*", Node::list(vec![sym("q"), sym("*")]))).is_err());
}

#[test]
fn render_every_operator() {
    let cases = [
        ("*", "(p \\wedge q)"),
        ("+", "(p \\vee q)"),
        ("=>", "(p \\rightarrow q)"),
        ("<=>", "(p \\iff q)"),
    ];
    for (op, want) in cases {
        assert_eq!(parsed(&bin(sym("p"), op, sym("q"))).print_latex(), want);
    }
    assert_eq!(parsed(&neg(bin(sym("p"), "*", sym("q")))).print_latex(), "\\neg (p \\wedge q)");
}

#[test]
fn truth_tables_of_connectives() {
    for p in [true, false] {
        for q in [true, false] {
            let a = assign(&[("p", p), ("q", q)]);
            let e = |op: &str| parsed(&bin(sym("p"), op, sym("q"))).solve(&a);
            assert_eq!(e("*"), p && q);
            assert_eq!(e("+"), p || q);
            assert_eq!(e("=>"), !(p && !q));
            assert_eq!(e("<=>"), p == q);
            assert_eq!(parsed(&neg(sym("p"))).solve(&a), !p);
        }
    }
}

#[test]
fn later_binding_replaces_earlier() {
    let a = assign(&[("p", true), ("p", false)]);
    assert_eq!(a.get(&"p".to_string()), Some(false));
    assert_eq!(a.get(&"r".to_string()), None);
}

#[test]
fn find_vars_without_repeats() {
    assert_eq!(parsed(&bin(sym("p"), "*", sym("p"))).find_vars(), vec!["p".to_string()]);
}

#[test]
fn find_vars_sorted() {
    let t = bin(sym("q"), "+", bin(sym("p"), "=>", sym("q")));
    assert_eq!(parsed(&t).find_vars(), vec!["p".to_string(), "q".to_string()]);
    let u = bin(bin(sym("p"), "=>", sym("q")), "+", sym("q"));
    assert_eq!(parsed(&t).find_vars(), parsed(&u).find_vars());
}

#[test]
fn steps_of_bare_variable() {
    assert_eq!(var("p").get_steps(), vec![var("p")]);
}

#[test]
fn steps_skip_nested_variables() {
    let e = parsed(&bin(sym("p"), "*", sym("q")));
    assert_eq!(e.get_steps(), vec![e.clone()]);
}

#[test]
fn steps_are_deduplicated() {
    let pq = bin(sym("p"), "*", sym("q"));
    let t = bin(pq, "+", bin(sym("p"), "*", sym("q")));
    let e = parsed(&t);
    let steps = e.get_steps();
    assert_eq!(steps.len(), 2);
    assert_eq!(steps[0].print_latex(), "(p \\wedge q)");
    assert_eq!(steps[1], e);
}

#[test]
fn steps_operands_before_parents() {
    let t = bin(neg(sym("p")), "=>", neg(bin(sym("p"), "+", sym("q"))));
    let names: Vec<String> = parsed(&t).get_steps().iter().map(|s| s.print_latex()).collect();
    assert_eq!(
        names,
        vec![
            "\\neg p".to_string(),
            "(p \\vee q)".to_string(),
            "\\neg (p \\vee q)".to_string(),
            "(\\neg p \\rightarrow \\neg (p \\vee q))".to_string(),
        ]
    );
}
