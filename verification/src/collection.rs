use vstd::prelude::*;

verus! {

/// The last position in `names` that holds `name`: the position a map from
/// names to positions, filled in order, gives for `name`.
pub open spec fn last_index_of(names: Seq<Seq<char>>, name: Seq<char>) -> Option<int>
    decreases names.len(),
{
    if names.len() == 0 {
        None
    } else if names.last() == name {
        Some(names.len() - 1)
    } else {
        last_index_of(names.drop_last(), name)
    }
}

/// The names of a list of named items.
pub open spec fn item_names<T>(items: Seq<(&str, T)>) -> Seq<Seq<char>> {
    items.map_values(|p: (&str, T)| p.0@)
}

/// The items of a list of named items.
pub open spec fn item_values<T>(items: Seq<(&str, T)>) -> Seq<T> {
    items.map_values(|p: (&str, T)| p.1)
}

/// Game objects in a list, each also found by its name.
pub struct GameObjCollection<T> {
    names: Vec<String>,
    pub objects: Vec<T>,
}

impl<T> GameObjCollection<T> {
    /// The name given to each object, by position.
    pub closed spec fn name_list(&self) -> Seq<Seq<char>> {
        self.names@.map_values(|s: String| s@)
    }

    /// The objects, in order.
    pub closed spec fn object_list(&self) -> Seq<T> {
        self.objects@
    }

    /// There is one name for each object.
    pub closed spec fn wf(&self) -> bool {
        self.names@.len() == self.objects@.len()
    }

    /// Collects the named objects in order. A name given twice finds the later
    /// object; both objects stay in the list.
    pub fn from_iter(items: Vec<(&str, T)>) -> (res: Self)
        ensures
            res.wf(),
            res.object_list() == item_values(items@),
            res.name_list() == item_names(items@),
    {
        let ghost all = items@;
        let mut names: Vec<String> = Vec::new();
        let mut objects: Vec<T> = Vec::new();
        let mut rest = items;
        assert(all.skip(0) =~= all);
        while rest.len() > 0
            invariant
                names@.len() == objects@.len(),
                names@.len() <= all.len(),
                rest@ == all.skip(names@.len() as int),
                objects@ == item_values(all.take(names@.len() as int)),
                names@.map_values(|s: String| s@) == item_names(all.take(names@.len() as int)),
            decreases rest@.len(),
        {
            let ghost i = names@.len() as int;
            let (name, obj) = rest.remove(0);
            assert(all[i] == (name, obj));
            assert(rest@ =~= all.skip(i + 1));
            let ghost old_names = names@;
            let ghost old_objects = objects@;
            names.push(name.to_owned());
            objects.push(obj);
            proof {
                assert(all.take(i + 1).drop_last() =~= all.take(i));
                assert(objects@ =~= item_values(all.take(i + 1)));
                assert(names@.map_values(|s: String| s@) =~= old_names.map_values(|s: String| s@).push(name@));
                assert(names@.map_values(|s: String| s@) =~= item_names(all.take(i + 1)));
            }
        }
        assert(all.take(all.len() as int) =~= all);
        GameObjCollection { names, objects }
    }

    /// The position of the object named `name` (the later one, when two have
    /// that name); `None` when no object has it.
    pub fn index_of(&self, name: &str) -> (res: Option<usize>)
        requires
            self.wf(),
        ensures
            match last_index_of(self.name_list(), name@) {
                Some(i) => res == Some(i as usize),
                None => res is None,
            },
    {
        let key = name.to_owned();
        let mut i = self.names.len();
        let ghost names = self.name_list();
        proof {
            assert(names.take(i as int) =~= names);
        }
        while i > 0
            invariant
                i <= self.names@.len(),
                names == self.name_list(),
                key@ == name@,
                last_index_of(names, name@) == last_index_of(names.take(i as int), name@),
            decreases i,
        {
            assert(names.take(i as int).drop_last() =~= names.take(i - 1));
            assert(names.take(i as int).last() == self.names@[i - 1]@);
            if self.names[i - 1] == key {
                return Some(i - 1);
            }
            i = i - 1;
        }
        None
    }

    /// The object named `name` (the later one, when two have that name).
    pub fn get_unknown(&self, name: &str) -> (res: &T)
        requires
            self.wf(),
            last_index_of(self.name_list(), name@) is Some,
        ensures
            *res == self.object_list()[last_index_of(self.name_list(), name@).unwrap()],
    {
        proof {
            lemma_last_index_of(self.name_list(), name@);
        }
        let ghost li = last_index_of(self.name_list(), name@).unwrap();
        let n = self.names.len();
        assert(0 <= li < n);
        let i = self.index_of(name).unwrap();
        assert(i as int == li);
        &self.objects[i]
    }

    /// The object named `name`, to change in place; the names and the other
    /// objects stay as they are.
    pub fn get_mut_unknown(&mut self, name: &str) -> (res: &mut T)
        requires
            old(self).wf(),
            last_index_of(old(self).name_list(), name@) is Some,
        ensures
            *res == old(self).object_list()[last_index_of(old(self).name_list(), name@).unwrap()],
            final(self).wf(),
            final(self).name_list() == old(self).name_list(),
            final(self).object_list() == old(self).object_list().update(
                last_index_of(old(self).name_list(), name@).unwrap(),
                *final(res),
            ),
    {
        proof {
            lemma_last_index_of(self.name_list(), name@);
        }
        let ghost li = last_index_of(self.name_list(), name@).unwrap();
        let n = self.names.len();
        assert(0 <= li < n);
        let i = self.index_of(name).unwrap();
        assert(i as int == li);
        &mut self.objects[i]
    }
}

/// A collection made from a list of named objects finds, for a name in the
/// list, the object given with that name last in the list; and nothing for a
/// name not in the list.
pub proof fn lemma_lookup_after_collect<T>(items: Seq<(&str, T)>, name: Seq<char>)
    ensures
        last_index_of(item_names(items), name) matches Some(i) ==> {
            &&& 0 <= i < items.len()
            &&& items[i].0@ == name
            &&& item_values(items)[i] == items[i].1
            &&& forall|j: int| i < j < items.len() ==> items[j].0@ != name
        },
        last_index_of(item_names(items), name) is None <==> forall|j: int|
            0 <= j < items.len() ==> items[j].0@ != name,
{
    let names = item_names(items);
    lemma_last_index_of(names, name);
    if let Some(i) = last_index_of(names, name) {
        assert forall|j: int| i < j < items.len() implies items[j].0@ != name by {
            assert(names[j] == items[j].0@);
        }
    }
    if last_index_of(names, name) is None {
        assert forall|j: int| 0 <= j < items.len() implies items[j].0@ != name by {
            assert(names[j] == items[j].0@);
        }
    } else {
        let i = last_index_of(names, name).unwrap();
        assert(names[i] == items[i].0@);
    }
}

/// What a lookup by name finds: a position that holds the name, after which
/// no position holds it; and it finds something exactly when the name is given.
pub proof fn lemma_last_index_of(names: Seq<Seq<char>>, name: Seq<char>)
    ensures
        last_index_of(names, name) matches Some(i) ==> {
            &&& 0 <= i < names.len()
            &&& names[i] == name
            &&& forall|j: int| i < j < names.len() ==> names[j] != name
        },
        last_index_of(names, name) is None <==> !names.contains(name),
    decreases names.len(),
{
    if names.len() > 0 {
        lemma_last_index_of(names.drop_last(), name);
        if names.last() != name {
            let p = names.drop_last();
            if let Some(i) = last_index_of(names, name) {
                assert forall|j: int| i < j < names.len() implies names[j] != name by {
                    if j < names.len() - 1 {
                        assert(p[j] == names[j]);
                    }
                }
            }
            if names.contains(name) {
                let k = choose|k: int| 0 <= k < names.len() && names[k] == name;
                assert(names.drop_last()[k] == name);
            }
            if names.drop_last().contains(name) {
                let k = choose|k: int| 0 <= k < names.drop_last().len() && names.drop_last()[k] == name;
                assert(names[k] == name);
            }
        } else {
            assert(names[names.len() - 1] == name);
        }
    }
}

} // verus!
