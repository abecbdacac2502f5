//! The variable environment: a flat mapping from variable name to the value
//! it was last assigned, living for one session.
use vstd::prelude::*;

verus! {

/// The session environment.  Values are IEEE 754 binary64 bit patterns.
/// Entries are kept in assignment order; a later entry for the same name
/// shadows an earlier one, so the view is always "last write wins".
pub struct Context {
    pub var_tbl: Vec<(String, u64)>,
}

/// The map that an entry sequence denotes: later entries shadow earlier
/// ones.
pub open spec fn map_of(entries: Seq<(String, u64)>) -> Map<Seq<char>, u64>
    decreases entries.len(),
{
    if entries.len() == 0 {
        Map::empty()
    } else {
        map_of(entries.drop_last()).insert(entries.last().0@, entries.last().1)
    }
}

impl View for Context {
    type V = Map<Seq<char>, u64>;

    open spec fn view(&self) -> Map<Seq<char>, u64> {
        map_of(self.var_tbl@)
    }
}

/// On a name that no entry from position `i` on mentions, the denoted map
/// agrees with the one denoted by the first `i` entries.
proof fn lemma_map_of_take(s: Seq<(String, u64)>, i: int, k: Seq<char>)
    requires
        0 <= i <= s.len(),
        forall|j: int| i <= j < s.len() ==> s[j].0@ != k,
    ensures
        map_of(s).contains_key(k) == map_of(s.take(i)).contains_key(k),
        map_of(s).contains_key(k) ==> map_of(s)[k] == map_of(s.take(i))[k],
    decreases s.len() - i,
{
    if i < s.len() {
        let s2 = s.drop_last();
        assert(s2.take(i) =~= s.take(i));
        lemma_map_of_take(s2, i, k);
    } else {
        assert(s.take(i) =~= s);
    }
}

/// Overwriting the last entry for a name denotes the same map as inserting
/// the new binding.
proof fn lemma_map_of_update_last(s: Seq<(String, u64)>, i: int, p: (String, u64))
    requires
        0 <= i < s.len(),
        s[i].0@ == p.0@,
        forall|j: int| i < j < s.len() ==> s[j].0@ != p.0@,
    ensures
        map_of(s.update(i, p)) == map_of(s).insert(p.0@, p.1),
    decreases s.len(),
{
    let u = s.update(i, p);
    if i == s.len() - 1 {
        assert(u.drop_last() =~= s.drop_last());
        assert(u.last() == p);
        assert(map_of(s.drop_last()).insert(s.last().0@, s.last().1).insert(p.0@, p.1)
            =~= map_of(s.drop_last()).insert(p.0@, p.1));
    } else {
        lemma_map_of_update_last(s.drop_last(), i, p);
        assert(u.drop_last() =~= s.drop_last().update(i, p));
        assert(u.last() == s.last());
        assert(map_of(s.drop_last()).insert(p.0@, p.1).insert(s.last().0@, s.last().1)
            =~= map_of(s.drop_last()).insert(s.last().0@, s.last().1).insert(p.0@, p.1));
    }
}

impl Context {
    /// A fresh environment with no bindings.
    pub fn new() -> (r: Context)
        ensures
            r@ == Map::<Seq<char>, u64>::empty(),
    {
        Context { var_tbl: Vec::new() }
    }

    /// The value bound to `name`, or `None` when `name` was never assigned.
    pub fn get(&self, name: &String) -> (r: Option<u64>)
        ensures
            r == if self@.contains_key(name@) {
                Some(self@[name@])
            } else {
                None::<u64>
            },
    {
        let n = self.var_tbl.len();
        let mut i: usize = n;
        while i > 0
            invariant
                i <= n,
                n == self.var_tbl@.len(),
                forall|j: int| i <= j < n ==> self.var_tbl@[j].0@ != name@,
            decreases i,
        {
            let p = &self.var_tbl[i - 1];
            if p.0 == *name {
                proof {
                    let s = self.var_tbl@;
                    lemma_map_of_take(s, i as int, name@);
                    assert(s.take(i as int).drop_last() =~= s.take(i - 1));
                    assert(s.take(i as int).last() == s[i - 1]);
                }
                return Some(p.1);
            }
            i = i - 1;
        }
        proof {
            lemma_map_of_take(self.var_tbl@, 0, name@);
            assert(self.var_tbl@.take(0) =~= Seq::<(String, u64)>::empty());
        }
        None
    }

    /// Binds `name` to `value`: the previous binding, if any, is
    /// overwritten, and no error case exists.
    pub fn set(&mut self, name: String, value: u64)
        ensures
            final(self)@ == old(self)@.insert(name@, value),
    {
        let ghost nv = name@;
        let n = self.var_tbl.len();
        let mut i: usize = n;
        while i > 0
            invariant
                i <= n,
                n == self.var_tbl@.len(),
                *self == *old(self),
                forall|j: int| i <= j < n ==> self.var_tbl@[j].0@ != nv,
                nv == name@,
            decreases i,
        {
            let matched = self.var_tbl[i - 1].0 == name;
            if matched {
                let ghost s = self.var_tbl@;
                self.var_tbl[i - 1] = (name, value);
                proof {
                    lemma_map_of_update_last(s, i - 1, self.var_tbl@[i - 1]);
                    assert(self.var_tbl@ =~= s.update(i - 1, self.var_tbl@[i - 1]));
                }
                return ;
            }
            i = i - 1;
        }
        self.var_tbl.push((name, value));
        proof {
            assert(self.var_tbl@.drop_last() =~= old(self).var_tbl@);
        }
    }
}

} // verus!
