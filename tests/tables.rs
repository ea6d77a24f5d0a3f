use logic_table::expr::LogicExp;
use logic_table::tree::Node;

fn sym(s: &str) -> Node {
    Node::symbol(s)
}

fn bin(a: Node, op: &str, b: Node) -> Node {
    Node::list(vec![a, sym(op), b])
}

fn parsed(n: &Node) -> LogicExp {
    LogicExp::parse(n).unwrap()
}

/// Rows of a final-column table: the lines after the `\hline`.
fn simple_rows(table: &str) -> Vec<String> {
    let body = table.split("\\hline\n").nth(1).unwrap();
    body.lines().filter(|l| !l.starts_with("\\end")).map(|l| l.to_string()).collect()
}

#[test]
fn single_variable_table() {
    assert_eq!(
        parsed(&sym("p")).simple_table(),
        "\\begin{tabular}{|L|L|}\n p &p \\\\\n\\hline\n T & T \\\\\n F & F \\\\\n\\end{tabular}"
    );
}

#[test]
fn row_count_is_power_of_two() {
    assert_eq!(simple_rows(&parsed(&sym("p")).simple_table()).len(), 2);
    assert_eq!(simple_rows(&parsed(&bin(sym("p"), "*", sym("q"))).simple_table()).len(), 4);
    let t = bin(sym("a"), "+", bin(sym("b"), "*", sym("c")));
    assert_eq!(simple_rows(&parsed(&t).simple_table()).len(), 8);
}

#[test]
fn conjunction_table() {
    let table = parsed(&bin(sym("p"), "*", sym("q"))).simple_table();
    assert_eq!(
        table,
        "\\begin{tabular}{|L|L|L|}\n p & q &(p \\wedge q) \\\\\n\\hline\n T & T & T \\\\\n F & T & F \\\\\n T & F & F \\\\\n F & F & F \\\\\n\\end{tabular}"
    );
}

#[test]
fn negation_tables() {
    let e = parsed(&Node::list(vec![sym("-"), sym("p")]));
    assert_eq!(e.find_vars(), vec!["p".to_string()]);
    assert_eq!(
        e.simple_table(),
        "\\begin{tabular}{|L|L|}\n p &\\neg p \\\\\n\\hline\n T & F \\\\\n F & T \\\\\n\\end{tabular}"
    );
    assert_eq!(
        e.steps_table(),
        "\\begin{tabular}{|c|}\n\\hline\n\\neg p\\\\\n\\hline\n F \\\\\n\\hline\n T \\\\\n\\hline\n\\end{tabular}"
    );
}

#[test]
fn implication_table() {
    let rows = simple_rows(&parsed(&bin(sym("p"), "=>", sym("q"))).simple_table());
    assert_eq!(
        rows,
        vec![
            " T & T & T \\\\".to_string(),
            " F & T & T \\\\".to_string(),
            " T & F & F \\\\".to_string(),
            " F & F & T \\\\".to_string(),
        ]
    );
}

#[test]
fn steps_table_columns() {
    let t = bin(Node::list(vec![sym("-"), sym("p")]), "+", sym("q"));
    assert_eq!(
        parsed(&t).steps_table(),
        "\\begin{tabular}{|c|c|}\n\\hline\n\\neg p&(\\neg p \\vee q)\\\\\n\\hline\n F & T \\\\\n\\hline\n T & T \\\\\n\\hline\n F & F \\\\\n\\hline\n T & T \\\\\n\\hline\n\\end{tabular}"
    );
}

#[test]
fn steps_table_of_variable() {
    assert_eq!(
        parsed(&sym("x")).steps_table(),
        "\\begin{tabular}{|c|}\n\\hline\nx\\\\\n\\hline\n T \\\\\n\\hline\n F \\\\\n\\hline\n\\end{tabular}"
    );
}
