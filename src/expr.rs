use vstd::prelude::*;
use crate::tree::Node;
use crate::assignment::Assignment;
use crate::names::{insert_sorted, lemma_merge_names, merge_names, sorted_names};

verus! {

/// Mathematical model of a formula: variable names are character sequences.
pub enum Prop {
    Var(Seq<char>),
    Not(Box<Prop>),
    And(Box<Prop>, Box<Prop>),
    Or(Box<Prop>, Box<Prop>),
    Implies(Box<Prop>, Box<Prop>),
    Iff(Box<Prop>, Box<Prop>),
}

/// A propositional formula over named variables.
#[derive(Debug)]
pub enum LogicExp {
    Variable(String),
    Not(Box<LogicExp>),
    And(Box<LogicExp>, Box<LogicExp>),
    Or(Box<LogicExp>, Box<LogicExp>),
    Implies(Box<LogicExp>, Box<LogicExp>),
    Iff(Box<LogicExp>, Box<LogicExp>),
}

/// The only way parsing fails: the tree matches no production of the grammar.
#[derive(Debug, Clone, Copy, PartialEq, Eq)]
pub enum Error {
    ParseError,
}

impl View for LogicExp {
    type V = Prop;

    open spec fn view(&self) -> Prop
        decreases self,
    {
        match self {
            LogicExp::Variable(s) => Prop::Var(s@),
            LogicExp::Not(a) => Prop::Not(Box::new((**a)@)),
            LogicExp::And(a, b) => Prop::And(Box::new((**a)@), Box::new((**b)@)),
            LogicExp::Or(a, b) => Prop::Or(Box::new((**a)@), Box::new((**b)@)),
            LogicExp::Implies(a, b) => Prop::Implies(Box::new((**a)@), Box::new((**b)@)),
            LogicExp::Iff(a, b) => Prop::Iff(Box::new((**a)@), Box::new((**b)@)),
        }
    }
}

/// The formula that `op` names between two operands, if it names one.
pub open spec fn binary_of(op: Seq<char>, a: Prop, b: Prop) -> Option<Prop> {
    if op == "*"@ {
        Some(Prop::And(Box::new(a), Box::new(b)))
    } else if op == "+"@ {
        Some(Prop::Or(Box::new(a), Box::new(b)))
    } else if op == "=>"@ {
        Some(Prop::Implies(Box::new(a), Box::new(b)))
    } else if op == "<=>"@ {
        Some(Prop::Iff(Box::new(a), Box::new(b)))
    } else {
        None
    }
}

/// The formula a tree denotes under the grammar
/// `atom | (- E) | (E * E) | (E + E) | (E => E) | (E <=> E)`, if any.
pub open spec fn node_parse(n: Node) -> Option<Prop>
    decreases n,
{
    match n {
        Node::Symbol(s) => Some(Prop::Var(s@)),
        Node::List(v) => {
            if v.len() == 2 {
                if v[0] matches Node::Symbol(m) && m@ == "-"@ {
                    match node_parse(v[1]) {
                        Some(e) => Some(Prop::Not(Box::new(e))),
                        None => None,
                    }
                } else {
                    None
                }
            } else if v.len() == 3 {
                match v[1] {
                    Node::Symbol(op) => match (node_parse(v[0]), node_parse(v[2])) {
                        (Some(a), Some(b)) => binary_of(op@, a, b),
                        _ => None,
                    },
                    _ => None,
                }
            } else {
                None
            }
        },
    }
}

/// `(left sym right)` with the operands already rendered.
pub open spec fn infix(l: Seq<char>, sym: Seq<char>, r: Seq<char>) -> Seq<char> {
    "("@ + l + sym + r + ")"@
}

/// LaTeX rendering of a formula.
pub open spec fn latex(p: Prop) -> Seq<char>
    decreases p,
{
    match p {
        Prop::Var(x) => x,
        Prop::Not(a) => "\\neg "@ + latex(*a),
        Prop::And(a, b) => infix(latex(*a), " \\wedge "@, latex(*b)),
        Prop::Or(a, b) => infix(latex(*a), " \\vee "@, latex(*b)),
        Prop::Implies(a, b) => infix(latex(*a), " \\rightarrow "@, latex(*b)),
        Prop::Iff(a, b) => infix(latex(*a), " \\iff "@, latex(*b)),
    }
}

/// Truth value of a formula under an environment that binds its variables.
pub open spec fn eval(p: Prop, env: Map<Seq<char>, bool>) -> bool
    decreases p,
{
    match p {
        Prop::Var(x) => env[x],
        Prop::Not(a) => !eval(*a, env),
        Prop::And(a, b) => eval(*a, env) && eval(*b, env),
        Prop::Or(a, b) => eval(*a, env) || eval(*b, env),
        Prop::Implies(a, b) => !eval(*a, env) || eval(*b, env),
        Prop::Iff(a, b) => (!eval(*a, env) || eval(*b, env)) && (!eval(*b, env) || eval(*a, env)),
    }
}

/// The set of variable names occurring in a formula.
pub open spec fn vars(p: Prop) -> Set<Seq<char>>
    decreases p,
{
    match p {
        Prop::Var(x) => set![x],
        Prop::Not(a) => vars(*a),
        Prop::And(a, b) => vars(*a).union(vars(*b)),
        Prop::Or(a, b) => vars(*a).union(vars(*b)),
        Prop::Implies(a, b) => vars(*a).union(vars(*b)),
        Prop::Iff(a, b) => vars(*a).union(vars(*b)),
    }
}

/// The variable names of a formula, without repeats, in ascending name order.
pub open spec fn var_list(p: Prop) -> Seq<Seq<char>>
    decreases p,
{
    match p {
        Prop::Var(x) => seq![x],
        Prop::Not(a) => var_list(*a),
        Prop::And(a, b) | Prop::Or(a, b) | Prop::Implies(a, b) | Prop::Iff(a, b) => merge_names(
            var_list(*a),
            var_list(*b),
        ),
    }
}

/// Names of a vector of strings.
pub open spec fn names_of(v: Seq<String>) -> Seq<Seq<char>> {
    v.map_values(|s: String| s@)
}

/// `var_list` enumerates exactly the variables, strictly ascending.
pub proof fn lemma_var_list(p: Prop)
    ensures
        var_list(p).to_set() == vars(p),
        sorted_names(var_list(p)),
    decreases p,
{
    match p {
        Prop::Var(x) => {
            assert(seq![x].to_set() =~= set![x]) by {
                assert(seq![x][0] == x);
            };
        },
        Prop::Not(a) => {
            lemma_var_list(*a);
        },
        Prop::And(a, b) | Prop::Or(a, b) | Prop::Implies(a, b) | Prop::Iff(a, b) => {
            lemma_var_list(*a);
            lemma_var_list(*b);
            lemma_merge_names(var_list(*a), var_list(*b));
        },
    }
}

/// Adds each name of `t`, in order, to the ascending list `acc`.
fn union_names(acc: Vec<String>, t: Vec<String>) -> (r: Vec<String>)
    ensures
        names_of(r@) == merge_names(names_of(acc@), names_of(t@)),
{
    let ghost s0 = names_of(acc@);
    let ghost tv = names_of(t@);
    let mut acc = acc;
    let mut i: usize = 0;
    assert(tv.subrange(0, 0) =~= Seq::<Seq<char>>::empty());
    while i < t.len()
        invariant
            i <= t.len(),
            tv == names_of(t@),
            names_of(acc@) == merge_names(s0, tv.subrange(0, i as int)),
        decreases t.len() - i,
    {
        assert(tv.subrange(0, i as int + 1).drop_last() =~= tv.subrange(0, i as int));
        insert_sorted(&mut acc, t[i].clone());
        i = i + 1;
    }
    assert(tv.subrange(0, i as int) =~= tv);
    acc
}

fn render_infix(l: String, sym: &str, r: String) -> (out: String)
    ensures
        out@ == infix(l@, sym@, r@),
{
    let mut out = String::from_str("(");
    out.append(l.as_str());
    out.append(sym);
    out.append(r.as_str());
    out.append(")");
    out
}

impl LogicExp {
    /// Builds the formula a generic tree denotes, or fails with
    /// `Error::ParseError` when the tree matches no production.
    pub fn parse(node: &Node) -> (r: Result<LogicExp, Error>)
        ensures
            match r {
                Ok(e) => node_parse(*node) == Some(e@),
                Err(_) => node_parse(*node) is None,
            },
        decreases node,
    {
        match node {
            Node::Symbol(s) => Ok(LogicExp::Variable(s.clone())),
            Node::List(v) => {
                if v.len() == 2 {
                    let is_not = match &v[0] {
                        Node::Symbol(m) => *m == String::from_str("-"),
                        _ => false,
                    };
                    if !is_not {
                        return Err(Error::ParseError);
                    }
                    match LogicExp::parse(&v[1]) {
                        Ok(e) => Ok(LogicExp::Not(Box::new(e))),
                        Err(err) => Err(err),
                    }
                } else if v.len() == 3 {
                    let op = match &v[1] {
                        Node::Symbol(op) => op,
                        _ => {
                            return Err(Error::ParseError);
                        },
                    };
                    let a = match LogicExp::parse(&v[0]) {
                        Ok(a) => a,
                        Err(err) => {
                            return Err(err);
                        },
                    };
                    let b = match LogicExp::parse(&v[2]) {
                        Ok(b) => b,
                        Err(err) => {
                            return Err(err);
                        },
                    };
                    let (a, b) = (Box::new(a), Box::new(b));
                    if *op == String::from_str("*") {
                        Ok(LogicExp::And(a, b))
                    } else if *op == String::from_str("+") {
                        Ok(LogicExp::Or(a, b))
                    } else if *op == String::from_str("=>") {
                        Ok(LogicExp::Implies(a, b))
                    } else if *op == String::from_str("<=>") {
                        Ok(LogicExp::Iff(a, b))
                    } else {
                        Err(Error::ParseError)
                    }
                } else {
                    Err(Error::ParseError)
                }
            },
        }
    }

    /// Renders the formula in LaTeX: negation as a prefix, binary operators
    /// infix between parenthesized operands.
    pub fn print_latex(&self) -> (r: String)
        ensures
            r@ == latex(self@),
        decreases self,
    {
        match self {
            LogicExp::Variable(s) => s.clone(),
            LogicExp::Not(a) => {
                let mut r = String::from_str("\\neg ");
                let inner = a.print_latex();
                r.append(inner.as_str());
                r
            },
            LogicExp::And(a, b) => render_infix(a.print_latex(), " \\wedge ", b.print_latex()),
            LogicExp::Or(a, b) => render_infix(a.print_latex(), " \\vee ", b.print_latex()),
            LogicExp::Implies(a, b) => render_infix(
                a.print_latex(),
                " \\rightarrow ",
                b.print_latex(),
            ),
            LogicExp::Iff(a, b) => render_infix(a.print_latex(), " \\iff ", b.print_latex()),
        }
    }

    /// The truth value of the formula under `a`, which binds each of its
    /// variables.
    pub fn solve(&self, a: &Assignment) -> (r: bool)
        requires
            vars(self@).subset_of(a@.dom()),
        ensures
            r == eval(self@, a@),
        decreases self,
    {
        match self {
            LogicExp::Variable(s) => match a.get(s) {
                Some(v) => v,
                None => false,
            },
            LogicExp::Not(e) => !e.solve(a),
            LogicExp::And(e0, e1) => {
                let (x, y) = (e0.solve(a), e1.solve(a));
                x && y
            },
            LogicExp::Or(e0, e1) => {
                let (x, y) = (e0.solve(a), e1.solve(a));
                x || y
            },
            LogicExp::Implies(e0, e1) => {
                let (x, y) = (e0.solve(a), e1.solve(a));
                !x || y
            },
            LogicExp::Iff(e0, e1) => {
                let (x, y) = (e0.solve(a), e1.solve(a));
                (!x || y) && (!y || x)
            },
        }
    }

    /// The distinct variable names of the formula, in ascending name order.
    pub fn find_vars(&self) -> (r: Vec<String>)
        ensures
            names_of(r@) == var_list(self@),
            names_of(r@).to_set() == vars(self@),
            sorted_names(names_of(r@)),
        decreases self,
    {
        proof {
            lemma_var_list(self@);
        }
        match self {
            LogicExp::Variable(s) => {
                let r = vec![s.clone()];
                assert(names_of(r@) =~= seq![s@]);
                r
            },
            LogicExp::Not(a) => a.find_vars(),
            LogicExp::And(a, b) | LogicExp::Or(a, b) | LogicExp::Implies(a, b) | LogicExp::Iff(
                a,
                b,
            ) => union_names(a.find_vars(), b.find_vars()),
        }
    }

    /// Structural equality: same variant, same names, equal operands.
    pub fn same(&self, o: &LogicExp) -> (r: bool)
        ensures
            r == (self@ == o@),
        decreases self,
    {
        match (self, o) {
            (LogicExp::Variable(x), LogicExp::Variable(y)) => *x == *y,
            (LogicExp::Not(a), LogicExp::Not(b)) => a.same(b),
            (LogicExp::And(a1, b1), LogicExp::And(a2, b2)) => a1.same(a2) && b1.same(b2),
            (LogicExp::Or(a1, b1), LogicExp::Or(a2, b2)) => a1.same(a2) && b1.same(b2),
            (LogicExp::Implies(a1, b1), LogicExp::Implies(a2, b2)) => a1.same(a2) && b1.same(
                b2,
            ),
            (LogicExp::Iff(a1, b1), LogicExp::Iff(a2, b2)) => a1.same(a2) && b1.same(b2),
            _ => false,
        }
    }
}

impl Clone for LogicExp {
    fn clone(&self) -> (r: LogicExp)
        ensures
            r@ == self@,
        decreases self,
    {
        match self {
            LogicExp::Variable(s) => LogicExp::Variable(s.clone()),
            LogicExp::Not(a) => LogicExp::Not(Box::new((**a).clone())),
            LogicExp::And(a, b) => LogicExp::And(Box::new((**a).clone()), Box::new((**b).clone())),
            LogicExp::Or(a, b) => LogicExp::Or(Box::new((**a).clone()), Box::new((**b).clone())),
            LogicExp::Implies(a, b) => LogicExp::Implies(
                Box::new((**a).clone()),
                Box::new((**b).clone()),
            ),
            LogicExp::Iff(a, b) => LogicExp::Iff(Box::new((**a).clone()), Box::new((**b).clone())),
        }
    }
}

impl PartialEq for LogicExp {
    fn eq(&self, o: &LogicExp) -> (r: bool) {
        self.same(o)
    }
}

impl vstd::std_specs::cmp::PartialEqSpecImpl for LogicExp {
    open spec fn obeys_eq_spec() -> bool {
        true
    }

    open spec fn eq_spec(&self, o: &LogicExp) -> bool {
        self@ == o@
    }
}

} // verus!
