use vstd::prelude::*;

verus! {

/// The map that a list of bindings denotes: a later binding of a name
/// replaces an earlier one.
pub open spec fn env_of(entries: Seq<(String, bool)>) -> Map<Seq<char>, bool>
    decreases entries.len(),
{
    if entries.len() == 0 {
        Map::empty()
    } else {
        env_of(entries.drop_last()).insert(entries.last().0@, entries.last().1)
    }
}

/// The map binding `names[k]` to `vals[k]`; a later binding of a name
/// replaces an earlier one.
pub open spec fn bind_all(names: Seq<Seq<char>>, vals: Seq<bool>) -> Map<Seq<char>, bool>
    decreases names.len(),
{
    if names.len() == 0 || vals.len() == 0 {
        Map::empty()
    } else {
        bind_all(names.drop_last(), vals.drop_last()).insert(names.last(), vals.last())
    }
}

pub proof fn lemma_bind_all_dom(names: Seq<Seq<char>>, vals: Seq<bool>)
    requires
        names.len() == vals.len(),
    ensures
        bind_all(names, vals).dom() == names.to_set(),
    decreases names.len(),
{
    if names.len() == 0 {
        assert(names.to_set() =~= Set::empty());
    } else {
        let u = names.drop_last();
        lemma_bind_all_dom(u, vals.drop_last());
        assert(names =~= u.push(names.last()));
        u.lemma_push_to_set_commute(names.last());
    }
}

/// A mapping from variable names to truth values.
pub struct Assignment {
    entries: Vec<(String, bool)>,
}

impl View for Assignment {
    type V = Map<Seq<char>, bool>;

    closed spec fn view(&self) -> Map<Seq<char>, bool> {
        env_of(self.entries@)
    }
}

impl Assignment {
    /// The assignment that binds no name.
    pub fn new() -> (r: Assignment)
        ensures
            r@ == Map::<Seq<char>, bool>::empty(),
    {
        Assignment { entries: Vec::new() }
    }

    /// Binds `name` to `value`, replacing any earlier binding of it.
    pub fn insert(&mut self, name: String, value: bool)
        ensures
            final(self)@ == old(self)@.insert(name@, value),
    {
        self.entries.push((name, value));
        assert(self.entries@.drop_last() =~= old(self).entries@);
    }

    /// The value bound to `name`, if any.
    pub fn get(&self, name: &String) -> (r: Option<bool>)
        ensures
            r == (if self@.dom().contains(name@) {
                Some(self@[name@])
            } else {
                None::<bool>
            }),
    {
        let ghost e = self.entries@;
        let mut i: usize = self.entries.len();
        assert(e.subrange(0, i as int) =~= e);
        while i > 0
            invariant
                i <= e.len(),
                e == self.entries@,
                env_of(e).dom().contains(name@) == env_of(e.subrange(0, i as int)).dom().contains(
                    name@,
                ),
                env_of(e).dom().contains(name@) ==> env_of(e)[name@] == env_of(
                    e.subrange(0, i as int),
                )[name@],
            decreases i,
        {
            assert(e.subrange(0, i as int).drop_last() =~= e.subrange(0, i as int - 1));
            i = i - 1;
            if self.entries[i].0 == *name {
                return Some(self.entries[i].1);
            }
        }
        None
    }
}

} // verus!
