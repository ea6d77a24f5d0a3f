use vstd::prelude::*;

verus! {

/// Strict lexicographic order on names, comparing characters by code point
/// (the order of `String`'s `Ord`, since UTF-8 keeps code point order).
pub open spec fn name_lt(a: Seq<char>, b: Seq<char>) -> bool
    decreases a.len(),
{
    if a.len() == 0 {
        b.len() > 0
    } else if b.len() == 0 {
        false
    } else if a[0] != b[0] {
        (a[0] as int) < (b[0] as int)
    } else {
        name_lt(a.drop_first(), b.drop_first())
    }
}

/// Every name is strictly below every later one.
pub open spec fn sorted_names(s: Seq<Seq<char>>) -> bool {
    forall|i: int, j: int| 0 <= i < j < s.len() ==> name_lt(#[trigger] s[i], #[trigger] s[j])
}

/// `s` with `x` added at its place in ascending order, unless already there.
pub open spec fn insert_name(s: Seq<Seq<char>>, x: Seq<char>) -> Seq<Seq<char>>
    decreases s.len(),
{
    if s.len() == 0 {
        seq![x]
    } else if s[0] == x {
        s
    } else if name_lt(x, s[0]) {
        seq![x] + s
    } else {
        seq![s[0]] + insert_name(s.drop_first(), x)
    }
}

/// Inserts the names of `t`, first to last, into `s`.
pub open spec fn merge_names(s: Seq<Seq<char>>, t: Seq<Seq<char>>) -> Seq<Seq<char>>
    decreases t.len(),
{
    if t.len() == 0 {
        s
    } else {
        insert_name(merge_names(s, t.drop_last()), t.last())
    }
}

pub proof fn lemma_lt_irreflexive(a: Seq<char>)
    ensures
        !name_lt(a, a),
    decreases a.len(),
{
    if a.len() > 0 {
        lemma_lt_irreflexive(a.drop_first());
    }
}

pub proof fn lemma_lt_total(a: Seq<char>, b: Seq<char>)
    requires
        a != b,
    ensures
        name_lt(a, b) || name_lt(b, a),
    decreases a.len(),
{
    if a.len() > 0 && b.len() > 0 && a[0] == b[0] {
        if a.drop_first() == b.drop_first() {
            assert(a =~= seq![a[0]] + a.drop_first());
            assert(b =~= seq![b[0]] + b.drop_first());
        }
        lemma_lt_total(a.drop_first(), b.drop_first());
    } else if a.len() > 0 && b.len() > 0 {
        assert(a[0] as int != b[0] as int);
    } else if a.len() == 0 && b.len() == 0 {
        assert(a =~= b);
    }
}

pub proof fn lemma_lt_transitive(a: Seq<char>, b: Seq<char>, c: Seq<char>)
    requires
        name_lt(a, b),
        name_lt(b, c),
    ensures
        name_lt(a, c),
    decreases a.len(),
{
    if a.len() > 0 && b.len() > 0 && c.len() > 0 && a[0] == b[0] && b[0] == c[0] {
        lemma_lt_transitive(a.drop_first(), b.drop_first(), c.drop_first());
    }
}

pub proof fn lemma_insert_name(s: Seq<Seq<char>>, x: Seq<char>)
    ensures
        insert_name(s, x).to_set() == s.to_set().insert(x),
        sorted_names(s) ==> sorted_names(insert_name(s, x)),
    decreases s.len(),
{
    if s.len() == 0 {
        assert(seq![x].to_set() =~= set![x]) by {
            assert(seq![x][0] == x);
        };
        assert(s.to_set() =~= Set::empty());
    } else {
        let r = insert_name(s, x);
        assert(s =~= seq![s[0]] + s.drop_first());
        if s[0] == x {
            assert(s.contains(x));
            assert(s.to_set().insert(x) =~= s.to_set());
        } else if name_lt(x, s[0]) {
            assert(r.to_set() =~= s.to_set().insert(x)) by {
                assert forall|y| r.to_set().contains(y) <==> s.to_set().insert(x).contains(y) by {
                    if r.contains(y) {
                        let k = choose|k: int| 0 <= k < r.len() && r[k] == y;
                        if k > 0 {
                            assert(s[k - 1] == y);
                        }
                    }
                    if s.contains(y) {
                        let k = choose|k: int| 0 <= k < s.len() && s[k] == y;
                        assert(r[k + 1] == y);
                    }
                    if y == x {
                        assert(r[0] == y);
                    }
                };
            };
            if sorted_names(s) {
                assert forall|i: int, j: int| 0 <= i < j < r.len() implies name_lt(
                    #[trigger] r[i],
                    #[trigger] r[j],
                ) by {
                    if i == 0 {
                        assert(r[j] == s[j - 1]);
                        if j > 1 {
                            assert(name_lt(s[0], s[j - 1]));
                            lemma_lt_transitive(x, s[0], s[j - 1]);
                        }
                    } else {
                        assert(r[i] == s[i - 1] && r[j] == s[j - 1]);
                    }
                };
            }
        } else {
            let rest = s.drop_first();
            lemma_insert_name(rest, x);
            let t = insert_name(rest, x);
            assert(r == seq![s[0]] + t);
            assert(r.to_set() =~= s.to_set().insert(x)) by {
                assert forall|y| r.to_set().contains(y) <==> s.to_set().insert(x).contains(y) by {
                    if r.contains(y) {
                        let k = choose|k: int| 0 <= k < r.len() && r[k] == y;
                        if k > 0 {
                            assert(t[k - 1] == y);
                            assert(t.to_set().contains(y));
                            if y != x {
                                assert(rest.to_set().contains(y));
                                let m = choose|m: int| 0 <= m < rest.len() && rest[m] == y;
                                assert(s[m + 1] == y);
                            }
                        } else {
                            assert(s[0] == y);
                        }
                    }
                    if s.contains(y) {
                        let k = choose|k: int| 0 <= k < s.len() && s[k] == y;
                        if k == 0 {
                            assert(r[0] == y);
                        } else {
                            assert(rest[k - 1] == y);
                            assert(rest.to_set().contains(y));
                            assert(t.to_set().contains(y));
                            let m = choose|m: int| 0 <= m < t.len() && t[m] == y;
                            assert(r[m + 1] == y);
                        }
                    }
                    if y == x {
                        assert(t.to_set().contains(x));
                        let m = choose|m: int| 0 <= m < t.len() && t[m] == x;
                        assert(r[m + 1] == x);
                    }
                };
            };
            if sorted_names(s) {
                lemma_lt_total(x, s[0]);
                assert(sorted_names(rest)) by {
                    assert forall|i: int, j: int| 0 <= i < j < rest.len() implies name_lt(
                        #[trigger] rest[i],
                        #[trigger] rest[j],
                    ) by {
                        assert(rest[i] == s[i + 1] && rest[j] == s[j + 1]);
                    };
                };
                assert forall|i: int, j: int| 0 <= i < j < r.len() implies name_lt(
                    #[trigger] r[i],
                    #[trigger] r[j],
                ) by {
                    if i == 0 {
                        assert(r[j] == t[j - 1]);
                        assert(t.to_set().contains(t[j - 1]));
                        if t[j - 1] != x {
                            assert(rest.to_set().contains(t[j - 1]));
                            let m = choose|m: int| 0 <= m < rest.len() && rest[m] == t[j - 1];
                            assert(s[m + 1] == rest[m]);
                        }
                    } else {
                        assert(r[i] == t[i - 1] && r[j] == t[j - 1]);
                    }
                };
            }
        }
    }
}

pub proof fn lemma_merge_names(s: Seq<Seq<char>>, t: Seq<Seq<char>>)
    ensures
        merge_names(s, t).to_set() == s.to_set().union(t.to_set()),
        sorted_names(s) ==> sorted_names(merge_names(s, t)),
    decreases t.len(),
{
    if t.len() == 0 {
        assert(t.to_set() =~= Set::empty());
        assert(s.to_set().union(t.to_set()) =~= s.to_set());
    } else {
        let u = t.drop_last();
        lemma_merge_names(s, u);
        lemma_insert_name(merge_names(s, u), t.last());
        assert(t =~= u.push(t.last()));
        u.lemma_push_to_set_commute(t.last());
        assert(s.to_set().union(t.to_set()) =~= s.to_set().union(u.to_set()).insert(t.last()));
    }
}

/// Character-wise equality of two names.
pub fn same_name(a: &String, b: &String) -> (r: bool)
    ensures
        r == (a@ == b@),
{
    *a == *b
}

/// Whether `a` comes strictly before `b` in name order.
pub fn name_less(a: &String, b: &String) -> (r: bool)
    ensures
        r == name_lt(a@, b@),
{
    let la = a.as_str().unicode_len();
    let lb = b.as_str().unicode_len();
    let mut i: usize = 0;
    assert(a@.skip(0) =~= a@ && b@.skip(0) =~= b@);
    while i < la && i < lb
        invariant
            la == a@.len(),
            lb == b@.len(),
            i <= la,
            i <= lb,
            name_lt(a@, b@) == name_lt(a@.skip(i as int), b@.skip(i as int)),
        decreases la - i,
    {
        let ca = a.as_str().get_char(i);
        let cb = b.as_str().get_char(i);
        if ca != cb {
            return (ca as u32) < (cb as u32);
        }
        assert(a@.skip(i as int).drop_first() =~= a@.skip(i as int + 1));
        assert(b@.skip(i as int).drop_first() =~= b@.skip(i as int + 1));
        i = i + 1;
    }
    i < lb && i == la
}

/// Adds `x` to `names` at its place in ascending order, unless present.
pub fn insert_sorted(names: &mut Vec<String>, x: String)
    ensures
        final(names)@.map_values(|s: String| s@) == insert_name(
            old(names)@.map_values(|s: String| s@),
            x@,
        ),
{
    let ghost s0 = old(names)@.map_values(|s: String| s@);
    let mut i: usize = 0;
    assert(s0.skip(0) =~= s0 && s0.subrange(0, 0) + s0 =~= s0);
    while i < names.len() && !same_name(&names[i], &x) && !name_less(&x, &names[i])
        invariant
            *names == *old(names),
            s0 == names@.map_values(|s: String| s@),
            i <= names.len(),
            insert_name(s0, x@) == s0.subrange(0, i as int) + insert_name(s0.skip(i as int), x@),
        decreases names.len() - i,
    {
        let ghost k = i as int;
        assert(s0.skip(k).drop_first() =~= s0.skip(k + 1));
        assert(s0.subrange(0, k + 1) =~= s0.subrange(0, k) + seq![s0[k]]);
        assert(s0.subrange(0, k) + insert_name(s0.skip(k), x@) =~= s0.subrange(0, k + 1)
            + insert_name(s0.skip(k + 1), x@));
        i = i + 1;
    }
    let ghost k = i as int;
    if i == names.len() {
        assert(s0.subrange(0, k) =~= s0);
        names.push(x);
        assert(names@.map_values(|s: String| s@) =~= s0 + seq![x@]);
    } else if same_name(&names[i], &x) {
        assert(s0.skip(k)[0] == x@);
        assert(s0.subrange(0, k) + s0.skip(k) =~= s0);
    } else {
        assert(name_lt(x@, s0.skip(k)[0]));
        names.insert(i, x);
        assert(names@.map_values(|s: String| s@) =~= s0.subrange(0, k) + (seq![x@] + s0.skip(k)));
    }
}

} // verus!
