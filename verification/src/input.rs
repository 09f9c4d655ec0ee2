//! The list of sources that lintcheck checks, as far as its logic reads it.
use vstd::prelude::*;
use crate::text::views;

verus! {

/// Options of the recursive mode, read from the sources list: the names of
/// the packages that are never checked.
#[derive(Debug)]
pub struct RecursiveOptions {
    ignore: Vec<String>,
}

impl View for RecursiveOptions {
    type V = Set<Seq<char>>;

    /// The set of ignored package names.
    closed spec fn view(&self) -> Set<Seq<char>> {
        views(self.ignore@).to_set()
    }
}

impl RecursiveOptions {
    /// No name occurs twice in the list.
    #[verifier::type_invariant]
    closed spec fn no_duplicate_names(self) -> bool {
        views(self.ignore@).no_duplicates()
    }

    /// Options that ignore no package.
    pub fn new() -> (options: Self)
        ensures
            options@ == Set::<Seq<char>>::empty(),
    {
        let options = RecursiveOptions { ignore: Vec::new() };
        assert(views(options.ignore@).to_set() =~= Set::<Seq<char>>::empty());
        options
    }

    /// Whether packages named `name` are ignored.
    pub fn contains(&self, name: &str) -> (ignored: bool)
        ensures
            ignored == self@.contains(name@),
    {
        let target = String::from_str(name);
        let mut i: usize = 0;
        while i < self.ignore.len()
            invariant
                0 <= i <= self.ignore@.len(),
                target@ == name@,
                forall|k: int| 0 <= k < i ==> views(self.ignore@)[k] != name@,
            decreases self.ignore.len() - i,
        {
            if self.ignore[i] == target {
                assert(views(self.ignore@)[i as int] == name@);
                return true;
            }
            i = i + 1;
        }
        assert(!views(self.ignore@).contains(name@));
        false
    }

    /// Ignores packages named `name` too; `true` when they were not ignored
    /// before.
    pub fn insert(&mut self, name: String) -> (added: bool)
        ensures
            final(self)@ == old(self)@.insert(name@),
            added == !old(self)@.contains(name@),
    {
        proof {
            use_type_invariant(&*self);
        }
        if self.contains(name.as_str()) {
            assert(old(self)@.insert(name@) =~= old(self)@);
            false
        } else {
            let ghost before = views(self.ignore@);
            let mut ignore = Vec::new();
            std::mem::swap(&mut ignore, &mut self.ignore);
            proof {
                crate::text::lemma_views_push(ignore@, name);
            }
            ignore.push(name);
            assert(views(ignore@) == before.push(name@));
            proof {
                crate::text::lemma_to_set_push(before, name@);
            }
            assert(views(ignore@).no_duplicates()) by {
                assert forall|a: int, b: int| 0 <= a < b < views(ignore@).len()
                    implies views(ignore@)[a] != views(ignore@)[b] by {
                    if b == before.len() {
                        assert(before.contains(before[a]));
                    }
                }
            }
            self.ignore = ignore;
            true
        }
    }

    /// The ignored names, each once, in no particular order.
    pub fn names(&self) -> (names: Vec<String>)
        ensures
            views(names@).to_set() == self@,
            views(names@).no_duplicates(),
    {
        proof {
            use_type_invariant(self);
        }
        let names = crate::text::clone_strings_from(&self.ignore, 0);
        assert(views(self.ignore@).skip(0) == views(self.ignore@));
        names
    }

    /// Options that ignore the packages named in `names`; a name may occur
    /// more than once.
    pub fn from_names(names: Vec<String>) -> (options: Self)
        ensures
            options@ == views(names@).to_set(),
    {
        let mut options = RecursiveOptions::new();
        let ghost all = views(names@);
        let mut names = names;
        let n = names.len();
        while names.len() > 0
            invariant
                names@.len() <= n,
                all.len() == n,
                views(names@) == all.take(names@.len() as int),
                options@ == all.skip(names@.len() as int).to_set(),
            decreases names.len(),
        {
            let ghost len = names@.len();
            let ghost old_names = names@;
            let name = names.pop().unwrap();
            assert(views(old_names)[len - 1] == old_names[len - 1]@);
            assert(name@ == all[len - 1]);
            assert(views(names@) =~= all.take(len - 1));
            options.insert(name);
            assert(all.skip(len - 1) =~= seq![all[len - 1]] + all.skip(len as int));
            proof {
                let s1 = all.skip(len - 1);
                let s2 = all.skip(len as int);
                assert forall|x: Seq<char>| s1.contains(x) <==> (s2.contains(x) || x == all[len - 1]) by {
                    if s1.contains(x) {
                        let k = choose|k: int| 0 <= k < s1.len() && #[trigger] s1[k] == x;
                        if k > 0 {
                            assert(s2[k - 1] == x);
                        }
                    }
                    if s2.contains(x) {
                        let k = choose|k: int| 0 <= k < s2.len() && #[trigger] s2[k] == x;
                        assert(s1[k + 1] == x);
                    }
                    if x == all[len - 1] {
                        assert(s1[0] == x);
                    }
                }
                assert(s1.to_set() =~= s2.to_set().insert(all[len - 1]));
            }
        }
        assert(all.skip(0) == all);
        options
    }
}

impl Default for RecursiveOptions {
    /// Options that ignore no package.
    fn default() -> (options: Self)
        ensures
            options@ == Set::<Seq<char>>::empty(),
    {
        RecursiveOptions::new()
    }
}

/// The index of the first crate of the sources list whose entry has keys
/// that cargo does not use, given the unused keys of each entry in order.
pub fn first_with_unused_keys(unused_keys: &Vec<Vec<String>>) -> (found: Option<usize>)
    ensures
        match found {
            Some(i) => i < unused_keys@.len() && unused_keys@[i as int]@.len() > 0
                && forall|k: int| 0 <= k < i ==> #[trigger] unused_keys@[k]@.len() == 0,
            None => forall|k: int| 0 <= k < unused_keys@.len() ==> #[trigger] unused_keys@[k]@.len() == 0,
        },
{
    let mut i: usize = 0;
    while i < unused_keys.len()
        invariant
            0 <= i <= unused_keys@.len(),
            forall|k: int| 0 <= k < i ==> #[trigger] unused_keys@[k]@.len() == 0,
        decreases unused_keys.len() - i,
    {
        if unused_keys[i].len() > 0 {
            return Some(i);
        }
        i = i + 1;
    }
    None
}

} // verus!
