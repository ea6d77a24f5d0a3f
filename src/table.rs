use vstd::prelude::*;
use vstd::arithmetic::power2::{pow2, lemma_pow2_unfold, lemma_pow2_strictly_increases};
use vstd::arithmetic::div_mod::lemma_div_denominator;
use vstd::arithmetic::power::lemma_pow0;
use crate::assignment::{Assignment, bind_all, lemma_bind_all_dom};
use crate::expr::{LogicExp, Prop, eval, latex, names_of, var_list, vars, lemma_var_list};
use crate::steps::{steps, views, lemma_trace};

verus! {

/// Concatenation of the parts, in order.
pub open spec fn join(parts: Seq<Seq<char>>) -> Seq<char>
    decreases parts.len(),
{
    if parts.len() == 0 {
        Seq::empty()
    } else {
        join(parts.drop_last()) + parts.last()
    }
}

/// Truth value of the variable at position `k` in row `i`: bit `k` of `i`,
/// with a clear bit meaning true.
pub open spec fn bit(i: nat, k: nat) -> bool {
    (i / pow2(k)) % 2 == 0
}

/// Truth values of the first `n` variables in row `i`.
pub open spec fn row_values(i: nat, n: nat) -> Seq<bool> {
    Seq::new(n, |k: int| bit(i, k as nat))
}

/// The assignment of row `i` over the ordered variables `vs`.
pub open spec fn row_env(vs: Seq<Seq<char>>, i: nat) -> Map<Seq<char>, bool> {
    bind_all(vs, row_values(i, vs.len()))
}

/// `" T"` or `" F"` followed by `tail`.
pub open spec fn mark(b: bool, tail: Seq<char>) -> Seq<char> {
    if b {
        " T"@ + tail
    } else {
        " F"@ + tail
    }
}

/// Number of rows of a table over the variables of `p`.
pub open spec fn row_total(p: Prop) -> nat {
    pow2(var_list(p).len())
}

pub open spec fn simple_format(n: nat) -> Seq<char> {
    "|L|"@ + join(Seq::new(n, |k: int| "L|"@))
}

pub open spec fn simple_header(p: Prop) -> Seq<char> {
    let vs = var_list(p);
    join(Seq::new(vs.len(), |k: int| " "@ + vs[k] + " &"@)) + latex(p) + " \\\\\n\\hline\n"@
}

/// Row `i` of the final-column table: one mark per variable, then the result.
pub open spec fn simple_row(p: Prop, i: nat) -> Seq<char> {
    let vs = var_list(p);
    join(Seq::new(vs.len(), |k: int| mark(bit(i, k as nat), " &"@))) + mark(
        eval(p, row_env(vs, i)),
        " \\\\\n"@,
    )
}

/// The rows of the final-column table.
pub open spec fn simple_rows(p: Prop) -> Seq<Seq<char>> {
    Seq::new(row_total(p), |i: int| simple_row(p, i as nat))
}

/// The final-column truth table of `p` as a LaTeX `tabular` block.
pub open spec fn simple_table_text(p: Prop) -> Seq<char> {
    "\\begin{tabular}{"@ + simple_format(var_list(p).len()) + "}\n"@ + simple_header(p) + join(
        simple_rows(p),
    ) + "\\end{tabular}"@
}

/// Separator after column `j` of `m`: a row end after the last one.
pub open spec fn column_end(j: int, m: int) -> Seq<char> {
    if j == m - 1 {
        "\\\\\n\\hline\n"@
    } else {
        "&"@
    }
}

pub open spec fn steps_format(m: nat) -> Seq<char> {
    "|"@ + join(Seq::new(m, |j: int| "c|"@))
}

pub open spec fn steps_header(p: Prop) -> Seq<char> {
    let st = steps(p);
    "\\hline\n"@ + join(Seq::new(st.len(), |j: int| latex(st[j]) + column_end(j, st.len() as int)))
}

/// Row `i` of the all-steps table: the value of each step.
pub open spec fn steps_row(p: Prop, i: nat) -> Seq<char> {
    let st = steps(p);
    join(
        Seq::new(
            st.len(),
            |j: int|
                mark(eval(st[j], row_env(var_list(p), i)), " "@) + column_end(j, st.len() as int),
        ),
    )
}

/// The rows of the all-steps table.
pub open spec fn steps_rows(p: Prop) -> Seq<Seq<char>> {
    Seq::new(row_total(p), |i: int| steps_row(p, i as nat))
}

/// The all-steps truth table of `p` as a LaTeX `tabular` block.
pub open spec fn steps_table_text(p: Prop) -> Seq<char> {
    "\\begin{tabular}{"@ + steps_format(steps(p).len()) + "}\n"@ + steps_header(p) + join(
        steps_rows(p),
    ) + "\\end{tabular}"@
}

pub proof fn lemma_join_prefix(parts: Seq<Seq<char>>, k: int)
    requires
        0 <= k < parts.len(),
    ensures
        join(parts.subrange(0, k + 1)) == join(parts.subrange(0, k)) + parts[k],
{
    assert(parts.subrange(0, k + 1).drop_last() =~= parts.subrange(0, k));
}

/// `pow2(n)`, which must fit in a `usize`.
fn row_count(n: usize) -> (r: usize)
    requires
        pow2(n as nat) <= usize::MAX,
    ensures
        r == pow2(n as nat),
{
    let mut r: usize = 1;
    let mut k: usize = 0;
    proof {
        lemma_pow0(2);
    }
    while k < n
        invariant
            k <= n,
            r == pow2(k as nat),
            pow2(n as nat) <= usize::MAX,
        decreases n - k,
    {
        proof {
            lemma_pow2_unfold((k + 1) as nat);
            if k + 1 < n {
                lemma_pow2_strictly_increases((k + 1) as nat, n as nat);
            }
        }
        r = r * 2;
        k = k + 1;
    }
    r
}

/// The assignment of row `i` over `vars`, and its values in variable order.
fn row_assignment(vars: &Vec<String>, i: usize) -> (r: (Assignment, Vec<bool>))
    ensures
        r.0@ == row_env(names_of(vars@), i as nat),
        r.1@ == row_values(i as nat, vars@.len()),
{
    let ghost vs = names_of(vars@);
    let ghost target = row_values(i as nat, vars@.len());
    let mut a = Assignment::new();
    let mut vals: Vec<bool> = Vec::new();
    let mut num: usize = i;
    let mut k: usize = 0;
    proof {
        lemma_pow0(2);
        assert(pow2(0) == 1);
        assert(i as nat / 1 == i as nat);
    }
    while k < vars.len()
        invariant
            k <= vars.len(),
            vs == names_of(vars@),
            target == row_values(i as nat, vars@.len()),
            num == i as nat / pow2(k as nat),
            vals@ == target.subrange(0, k as int),
            a@ == bind_all(vs.subrange(0, k as int), target.subrange(0, k as int)),
        decreases vars.len() - k,
    {
        let cond = num % 2 == 0;
        a.insert(vars[k].clone(), cond);
        vals.push(cond);
        proof {
            lemma_pow2_unfold((k + 1) as nat);
            vstd::arithmetic::power2::lemma_pow2_pos(k as nat);
            lemma_div_denominator(i as int, pow2(k as nat) as int, 2);
            assert(vs.subrange(0, k + 1).drop_last() =~= vs.subrange(0, k as int));
            assert(target.subrange(0, k + 1).drop_last() =~= target.subrange(0, k as int));
            assert(vals@ =~= target.subrange(0, k + 1));
        }
        num = num / 2;
        k = k + 1;
    }
    assert(vs.subrange(0, k as int) =~= vs);
    assert(target.subrange(0, k as int) =~= target);
    (a, vals)
}

impl LogicExp {
    /// The final-column truth table: a column per variable, in ascending
    /// name order, and one for the formula, over every assignment.
    pub fn simple_table(&self) -> (r: String)
        requires
            row_total(self@) <= usize::MAX,
        ensures
            r@ == simple_table_text(self@),
    {
        let names = self.find_vars();
        let ghost p = self@;
        let ghost vs = var_list(p);
        proof {
            lemma_var_list(p);
            lemma_bind_all_dom(vs, row_values(0, vs.len()));
        }
        let n = names.len();
        let rows = row_count(n);

        let mut fmt_s = String::from_str("|L|");
        let mut header_s = String::new();
        let ghost fmt_parts = Seq::new(n as nat, |k: int| "L|"@);
        let ghost head_parts = Seq::new(n as nat, |k: int| " "@ + vs[k] + " &"@);
        let mut k: usize = 0;
        assert(fmt_parts.subrange(0, 0) =~= Seq::<Seq<char>>::empty());
        assert(head_parts.subrange(0, 0) =~= Seq::<Seq<char>>::empty());
        while k < n
            invariant
                k <= n,
                n == names@.len(),
                names_of(names@) == vs,
                fmt_parts == Seq::new(n as nat, |k: int| "L|"@),
                head_parts == Seq::new(n as nat, |k: int| " "@ + vs[k] + " &"@),
                fmt_s@ == "|L|"@ + join(fmt_parts.subrange(0, k as int)),
                header_s@ == join(head_parts.subrange(0, k as int)),
            decreases n - k,
        {
            proof {
                lemma_join_prefix(fmt_parts, k as int);
                lemma_join_prefix(head_parts, k as int);
            }
            fmt_s.append("L|");
            header_s.append(" ");
            header_s.append(names[k].as_str());
            header_s.append(" &");
            k = k + 1;
        }
        assert(fmt_parts.subrange(0, n as int) =~= fmt_parts);
        assert(head_parts.subrange(0, n as int) =~= head_parts);
        let latex_s = self.print_latex();
        header_s.append(latex_s.as_str());
        header_s.append(" \\\\\n\\hline\n");

        let mut s = String::new();
        let ghost all_rows = simple_rows(p);
        let mut i: usize = 0;
        assert(all_rows.subrange(0, 0) =~= Seq::<Seq<char>>::empty());
        while i < rows
            invariant
                i <= rows,
                rows == row_total(p),
                n == names@.len(),
                names_of(names@) == vs,
                vs == var_list(p),
                p == self@,
                vs.to_set() == vars(p),
                all_rows == simple_rows(p),
                s@ == join(all_rows.subrange(0, i as int)),
            decreases rows - i,
        {
            let (a, vals) = row_assignment(&names, i);
            let ghost cells = Seq::new(n as nat, |k: int| mark(bit(i as nat, k as nat), " &"@));
            let mut row = String::new();
            let mut k: usize = 0;
            assert(cells.subrange(0, 0) =~= Seq::<Seq<char>>::empty());
            while k < n
                invariant
                    k <= n,
                    vals@ == row_values(i as nat, n as nat),
                    cells == Seq::new(n as nat, |k: int| mark(bit(i as nat, k as nat), " &"@)),
                    row@ == join(cells.subrange(0, k as int)),
                decreases n - k,
            {
                proof {
                    lemma_join_prefix(cells, k as int);
                    reveal_strlit(" T &");
                    reveal_strlit(" F &");
                    reveal_strlit(" T");
                    reveal_strlit(" F");
                    reveal_strlit(" &");
                }
                if vals[k] {
                    row.append(" T &");
                } else {
                    row.append(" F &");
                }
                assert(row@ =~= join(cells.subrange(0, k as int + 1)));
                k = k + 1;
            }
            assert(cells.subrange(0, n as int) =~= cells);
            proof {
                lemma_bind_all_dom(vs, row_values(i as nat, vs.len()));
            }
            let solved = self.solve(&a);
            proof {
                reveal_strlit(" T \\\\\n");
                reveal_strlit(" F \\\\\n");
                reveal_strlit(" T");
                reveal_strlit(" F");
                reveal_strlit(" \\\\\n");
            }
            if solved {
                row.append(" T \\\\\n");
            } else {
                row.append(" F \\\\\n");
            }
            proof {
                lemma_join_prefix(all_rows, i as int);
                assert(row@ =~= all_rows[i as int]);
            }
            s.append(row.as_str());
            i = i + 1;
        }
        assert(all_rows.subrange(0, rows as int) =~= all_rows);

        let mut out = String::from_str("\\begin{tabular}{");
        out.append(fmt_s.as_str());
        out.append("}\n");
        out.append(header_s.as_str());
        out.append(s.as_str());
        out.append("\\end{tabular}");
        out
    }

    /// The all-steps truth table: a column per element of the step sequence,
    /// over every assignment of the variables in ascending name order.
    pub fn steps_table(&self) -> (r: String)
        requires
            row_total(self@) <= usize::MAX,
        ensures
            r@ == steps_table_text(self@),
    {
        let steps_v = self.get_steps();
        let names = self.find_vars();
        let ghost p = self@;
        let ghost vs = var_list(p);
        let ghost st = steps(p);
        proof {
            lemma_var_list(p);
            lemma_trace(p);
            assert forall|j: int| 0 <= j < st.len() implies vars(#[trigger] st[j]).subset_of(
                vars(p),
            ) by {
                if !(p is Var) {
                    assert(st.contains(st[j]));
                } else {
                    assert(st[j] == p);
                }
            };
        }
        let m = steps_v.len();
        let n = names.len();
        let rows = row_count(n);

        let mut fmt_s = String::from_str("|");
        let mut header_s = String::from_str("\\hline\n");
        let ghost fmt_parts = Seq::new(m as nat, |j: int| "c|"@);
        let ghost head_parts = Seq::new(m as nat, |j: int| latex(st[j]) + column_end(j, m as int));
        let mut j: usize = 0;
        assert(fmt_parts.subrange(0, 0) =~= Seq::<Seq<char>>::empty());
        assert(head_parts.subrange(0, 0) =~= Seq::<Seq<char>>::empty());
        while j < m
            invariant
                j <= m,
                m == steps_v@.len(),
                views(steps_v@) == st,
                fmt_parts == Seq::new(m as nat, |j: int| "c|"@),
                head_parts == Seq::new(m as nat, |j: int| latex(st[j]) + column_end(j, m as int)),
                fmt_s@ == "|"@ + join(fmt_parts.subrange(0, j as int)),
                header_s@ == "\\hline\n"@ + join(head_parts.subrange(0, j as int)),
            decreases m - j,
        {
            proof {
                lemma_join_prefix(fmt_parts, j as int);
                lemma_join_prefix(head_parts, j as int);
            }
            fmt_s.append("c|");
            let cell = steps_v[j].print_latex();
            header_s.append(cell.as_str());
            if j == m - 1 {
                header_s.append("\\\\\n\\hline\n");
            } else {
                header_s.append("&");
            }
            assert(views(steps_v@)[j as int] == steps_v@[j as int]@);
            j = j + 1;
        }
        assert(fmt_parts.subrange(0, m as int) =~= fmt_parts);
        assert(head_parts.subrange(0, m as int) =~= head_parts);

        let mut s = String::new();
        let ghost all_rows = steps_rows(p);
        let mut i: usize = 0;
        assert(all_rows.subrange(0, 0) =~= Seq::<Seq<char>>::empty());
        while i < rows
            invariant
                i <= rows,
                rows == row_total(p),
                n == names@.len(),
                m == steps_v@.len(),
                views(steps_v@) == st,
                st == steps(p),
                names_of(names@) == vs,
                vs == var_list(p),
                p == self@,
                vs.to_set() == vars(p),
                forall|j: int| 0 <= j < st.len() ==> vars(#[trigger] st[j]).subset_of(vars(p)),
                all_rows == steps_rows(p),
                s@ == join(all_rows.subrange(0, i as int)),
            decreases rows - i,
        {
            let (a, _vals) = row_assignment(&names, i);
            proof {
                lemma_bind_all_dom(vs, row_values(i as nat, vs.len()));
            }
            let ghost cells = Seq::new(
                m as nat,
                |j: int| mark(eval(st[j], row_env(vs, i as nat)), " "@) + column_end(j, m as int),
            );
            let mut row = String::new();
            let mut j: usize = 0;
            assert(cells.subrange(0, 0) =~= Seq::<Seq<char>>::empty());
            while j < m
                invariant
                    j <= m,
                    m == steps_v@.len(),
                    views(steps_v@) == st,
                    a@ == row_env(vs, i as nat),
                    a@.dom() == vars(p),
                    forall|j: int| 0 <= j < st.len() ==> vars(#[trigger] st[j]).subset_of(vars(p)),
                    cells == Seq::new(
                        m as nat,
                        |j: int|
                            mark(eval(st[j], row_env(vs, i as nat)), " "@) + column_end(
                                j,
                                m as int,
                            ),
                    ),
                    row@ == join(cells.subrange(0, j as int)),
                decreases m - j,
            {
                proof {
                    lemma_join_prefix(cells, j as int);
                    reveal_strlit(" T ");
                    reveal_strlit(" F ");
                    reveal_strlit(" T");
                    reveal_strlit(" F");
                    reveal_strlit(" ");
                }
                assert(views(steps_v@)[j as int] == steps_v@[j as int]@);
                let solved = steps_v[j].solve(&a);
                if solved {
                    row.append(" T ");
                } else {
                    row.append(" F ");
                }
                if j == m - 1 {
                    row.append("\\\\\n\\hline\n");
                } else {
                    row.append("&");
                }
                assert(row@ =~= join(cells.subrange(0, j as int + 1)));
                j = j + 1;
            }
            assert(cells.subrange(0, m as int) =~= cells);
            proof {
                lemma_join_prefix(all_rows, i as int);
                assert(row@ =~= all_rows[i as int]);
            }
            s.append(row.as_str());
            i = i + 1;
        }
        assert(all_rows.subrange(0, rows as int) =~= all_rows);

        let mut out = String::from_str("\\begin{tabular}{");
        out.append(fmt_s.as_str());
        out.append("}\n");
        out.append(header_s.as_str());
        out.append(s.as_str());
        out.append("\\end{tabular}");
        out
    }
}

} // verus!
