use vstd::prelude::*;
use crate::expr::{LogicExp, Prop, vars};

verus! {

/// Models of a vector of formulas.
pub open spec fn views(v: Seq<LogicExp>) -> Seq<Prop> {
    v.map_values(|e: LogicExp| e@)
}

/// `s` followed by the elements of `t` that are not already present, in order.
pub open spec fn add_new(s: Seq<Prop>, t: Seq<Prop>) -> Seq<Prop>
    decreases t.len(),
{
    if t.len() == 0 {
        s
    } else {
        let r = add_new(s, t.drop_last());
        if r.contains(t.last()) {
            r
        } else {
            r.push(t.last())
        }
    }
}

/// The compound subformulas of `p`, operands before the formulas that use
/// them, each once, `p` itself last; a variable contributes nothing.
pub open spec fn trace(p: Prop) -> Seq<Prop>
    decreases p,
{
    match p {
        Prop::Var(_) => Seq::empty(),
        Prop::Not(a) => trace(*a).push(p),
        Prop::And(a, b) | Prop::Or(a, b) | Prop::Implies(a, b) | Prop::Iff(a, b) => add_new(
            trace(*a),
            trace(*b),
        ).push(p),
    }
}

/// The step sequence of a formula: its trace, or the variable itself when
/// the formula is a bare variable.
pub open spec fn steps(p: Prop) -> Seq<Prop> {
    if p is Var {
        seq![p]
    } else {
        trace(p)
    }
}

/// Number of nodes of a formula.
pub open spec fn size(p: Prop) -> nat
    decreases p,
{
    match p {
        Prop::Var(_) => 1,
        Prop::Not(a) => 1 + size(*a),
        Prop::And(a, b) | Prop::Or(a, b) | Prop::Implies(a, b) | Prop::Iff(a, b) => 1 + size(*a)
            + size(*b),
    }
}

pub proof fn lemma_add_new(s: Seq<Prop>, t: Seq<Prop>)
    ensures
        s.no_duplicates() ==> add_new(s, t).no_duplicates(),
        forall|x: Prop| #[trigger] add_new(s, t).contains(x) ==> s.contains(x) || t.contains(x),
    decreases t.len(),
{
    if t.len() > 0 {
        let u = t.drop_last();
        lemma_add_new(s, u);
        let r = add_new(s, u);
        assert forall|x: Prop| #[trigger] add_new(s, t).contains(x) implies s.contains(x)
            || t.contains(x) by {
            if r.contains(x) {
                if u.contains(x) {
                    let k = choose|k: int| 0 <= k < u.len() && u[k] == x;
                    assert(t[k] == x);
                }
            } else {
                let k = choose|k: int| 0 <= k < r.push(t.last()).len() && r.push(t.last())[k] == x;
                assert(x == t.last());
                assert(t[t.len() - 1] == x);
            }
        };
    }
}

pub proof fn lemma_trace(p: Prop)
    ensures
        trace(p).no_duplicates(),
        forall|q: Prop| #[trigger] trace(p).contains(q) ==> size(q) <= size(p),
        forall|q: Prop| #[trigger] trace(p).contains(q) ==> vars(q).subset_of(vars(p)),
        !(p is Var) ==> trace(p).len() > 0 && trace(p).last() == p,
    decreases p,
{
    match p {
        Prop::Var(_) => {},
        Prop::Not(a) => {
            lemma_trace(*a);
            let s = trace(*a);
            assert(!s.contains(p)) by {
                if s.contains(p) {
                    assert(size(p) <= size(*a));
                }
            };
            assert forall|q: Prop| #[trigger] trace(p).contains(q) implies size(q) <= size(p) by {
                let k = choose|k: int| 0 <= k < s.push(p).len() && s.push(p)[k] == q;
                if k < s.len() {
                    assert(s.contains(q));
                }
            };
            assert forall|q: Prop| #[trigger] trace(p).contains(q) implies vars(q).subset_of(
                vars(p),
            ) by {
                let k = choose|k: int| 0 <= k < s.push(p).len() && s.push(p)[k] == q;
                if k < s.len() {
                    assert(s.contains(q));
                }
            };
        },
        Prop::And(a, b) | Prop::Or(a, b) | Prop::Implies(a, b) | Prop::Iff(a, b) => {
            lemma_trace(*a);
            lemma_trace(*b);
            lemma_add_new(trace(*a), trace(*b));
            let s = add_new(trace(*a), trace(*b));
            assert(!s.contains(p)) by {
                if s.contains(p) {
                    if trace(*a).contains(p) {
                        assert(size(p) <= size(*a));
                    } else {
                        assert(size(p) <= size(*b));
                    }
                }
            };
            assert forall|q: Prop| #[trigger] trace(p).contains(q) implies size(q) <= size(p) by {
                let k = choose|k: int| 0 <= k < s.push(p).len() && s.push(p)[k] == q;
                if k < s.len() {
                    assert(s.contains(q));
                }
            };
            assert forall|q: Prop| #[trigger] trace(p).contains(q) implies vars(q).subset_of(
                vars(p),
            ) by {
                let k = choose|k: int| 0 <= k < s.push(p).len() && s.push(p)[k] == q;
                if k < s.len() {
                    assert(s.contains(q));
                }
            };
        },
    }
}

/// Whether `v` holds a formula structurally equal to `x`.
fn holds(v: &Vec<LogicExp>, x: &LogicExp) -> (r: bool)
    ensures
        r == views(v@).contains(x@),
{
    let mut i: usize = 0;
    while i < v.len()
        invariant
            i <= v.len(),
            forall|k: int| 0 <= k < i ==> v@[k]@ != x@,
        decreases v.len() - i,
    {
        if v[i] == *x {
            assert(views(v@)[i as int] == x@);
            return true;
        }
        i = i + 1;
    }
    assert(!views(v@).contains(x@)) by {
        if views(v@).contains(x@) {
            let k = choose|k: int| 0 <= k < views(v@).len() && views(v@)[k] == x@;
            assert(v@[k]@ == x@);
        }
    };
    false
}

/// Appends to `acc` each formula of `t` that it does not hold yet.
fn append_new(acc: Vec<LogicExp>, t: Vec<LogicExp>) -> (r: Vec<LogicExp>)
    ensures
        views(r@) == add_new(views(acc@), views(t@)),
{
    let ghost s0 = views(acc@);
    let ghost tv = views(t@);
    let mut acc = acc;
    let mut i: usize = 0;
    assert(tv.subrange(0, 0) =~= Seq::<Prop>::empty());
    while i < t.len()
        invariant
            i <= t.len(),
            tv == views(t@),
            views(acc@) == add_new(s0, tv.subrange(0, i as int)),
        decreases t.len() - i,
    {
        assert(tv.subrange(0, i as int + 1).drop_last() =~= tv.subrange(0, i as int));
        if !holds(&acc, &t[i]) {
            acc.push(t[i].clone());
            assert(views(acc@) =~= add_new(s0, tv.subrange(0, i as int)).push(tv[i as int]));
        }
        i = i + 1;
    }
    assert(tv.subrange(0, i as int) =~= tv);
    acc
}

fn trace_of(e: &LogicExp) -> (r: Vec<LogicExp>)
    ensures
        views(r@) == trace(e@),
    decreases e,
{
    let mut r = match e {
        LogicExp::Variable(_) => {
            let r = Vec::new();
            assert(views(r@) =~= trace(e@));
            return r;
        },
        LogicExp::Not(a) => trace_of(a),
        LogicExp::And(a, b) | LogicExp::Or(a, b) | LogicExp::Implies(a, b) | LogicExp::Iff(
            a,
            b,
        ) => append_new(trace_of(a), trace_of(b)),
    };
    let ghost before = views(r@);
    r.push(e.clone());
    assert(views(r@) =~= before.push(e@));
    r
}

impl LogicExp {
    /// The step sequence: the distinct compound subformulas, operands before
    /// the formulas that use them, ending with the formula itself.
    /// A bare variable's sequence is the variable alone.
    pub fn get_steps(&self) -> (r: Vec<LogicExp>)
        ensures
            views(r@) == steps(self@),
    {
        match self {
            LogicExp::Variable(_) => {
                let r = vec![self.clone()];
                assert(views(r@) =~= steps(self@));
                r
            },
            _ => trace_of(self),
        }
    }
}

} // verus!
