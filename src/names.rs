use vstd::prelude::*;

verus! {

/// The map that a list of bindings makes, a later binding of a name
/// replacing an earlier one.
pub open spec fn bindings<T>(s: Seq<(String, T)>) -> Map<Seq<char>, T>
    decreases s.len(),
{
    if s.len() == 0 {
        Map::empty()
    } else {
        bindings(s.drop_last()).insert(s.last().0@, s.last().1)
    }
}

/// A map from names to values.
#[derive(Debug)]
pub struct NameMap<T> {
    entries: Vec<(String, T)>,
}

impl<T> View for NameMap<T> {
    type V = Map<Seq<char>, T>;

    closed spec fn view(&self) -> Map<Seq<char>, T> {
        bindings(self.entries@)
    }
}

impl<T: Copy> NameMap<T> {
    pub fn new() -> (r: Self)
        ensures
            r@ == Map::<Seq<char>, T>::empty(),
    {
        NameMap { entries: Vec::new() }
    }

    pub fn insert(&mut self, key: String, value: T)
        ensures
            final(self)@ == old(self)@.insert(key@, value),
    {
        self.entries.push((key, value));
        proof {
            assert(final(self).entries@.drop_last() =~= old(self).entries@);
        }
    }

    pub fn get(&self, key: &String) -> (r: Option<T>)
        ensures
            r == if self@.contains_key(key@) {
                Some(self@[key@])
            } else {
                None::<T>
            },
    {
        let mut j = self.entries.len();
        assert(self.entries@.subrange(0, j as int) =~= self.entries@);
        while j > 0
            invariant
                j <= self.entries.len(),
                self@.contains_key(key@) == bindings(self.entries@.subrange(0, j as int)).contains_key(key@),
                self@.contains_key(key@) ==> self@[key@] == bindings(self.entries@.subrange(0, j as int))[key@],
            decreases j,
        {
            j -= 1;
            let ghost upto = self.entries@.subrange(0, j + 1);
            assert(upto.drop_last() =~= self.entries@.subrange(0, j as int));
            if self.entries[j].0 == *key {
                return Some(self.entries[j].1);
            }
        }
        None
    }

    pub fn contains_key(&self, key: &String) -> (r: bool)
        ensures
            r == self@.contains_key(key@),
    {
        self.get(key).is_some()
    }
}

} // verus!
