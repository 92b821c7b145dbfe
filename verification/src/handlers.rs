//! The resource handlers, each registered under the path of its resource.
use vstd::prelude::*;

verus! {

/// The resource handlers of a server, by the segments of the paths of their
/// resources.
pub struct Handlers<H> {
    entries: Vec<(Vec<Vec<u8>>, H)>,
}

/// Whether the entry at the given place is for the given path.
spec fn is_entry<H>(entries: Seq<(Vec<Vec<u8>>, H)>, path: Seq<Seq<u8>>, i: int) -> bool {
    0 <= i < entries.len() && entries[i].0.deep_view() == path
}

/// The handlers in a list of entries.
spec fn entry_map<H>(entries: Seq<(Vec<Vec<u8>>, H)>) -> Map<Seq<Seq<u8>>, H> {
    Map::new(
        |path: Seq<Seq<u8>>| exists|i: int| is_entry(entries, path, i),
        |path: Seq<Seq<u8>>| entries[choose|i: int| is_entry(entries, path, i)].1,
    )
}

/// Whether no two entries are for the same path.
spec fn are_distinct<H>(entries: Seq<(Vec<Vec<u8>>, H)>) -> bool {
    forall|i: int, j: int|
        0 <= i < j < entries.len() ==> #[trigger] entries[i].0.deep_view()
            != #[trigger] entries[j].0.deep_view()
}

impl<H> View for Handlers<H> {
    type V = Map<Seq<Seq<u8>>, H>;

    closed spec fn view(&self) -> Map<Seq<Seq<u8>>, H> {
        entry_map(self.entries@)
    }
}

/// Tells whether two segments are the same.
fn same_segment(a: &Vec<u8>, b: &Vec<u8>) -> (same: bool)
    ensures
        same == (a@ == b@),
{
    if a.len() != b.len() {
        return false;
    }
    let mut i: usize = 0;
    while i < a.len()
        invariant
            i <= a.len(),
            a.len() == b.len(),
            forall|j: int| 0 <= j < i ==> a[j] == b[j],
        decreases a.len() - i,
    {
        if a[i] != b[i] {
            return false;
        }
        i = i + 1;
    }
    assert(a@ =~= b@);
    true
}

/// Tells whether two paths are the same.
fn same_path(a: &Vec<Vec<u8>>, b: &Vec<Vec<u8>>) -> (same: bool)
    ensures
        same == (a.deep_view() == b.deep_view()),
{
    if a.len() != b.len() {
        assert(a.deep_view().len() != b.deep_view().len());
        return false;
    }
    let mut i: usize = 0;
    while i < a.len()
        invariant
            i <= a.len(),
            a.len() == b.len(),
            forall|j: int| 0 <= j < i ==> a.deep_view()[j] == b.deep_view()[j],
        decreases a.len() - i,
    {
        assert(a[i as int].deep_view() =~= a[i as int]@);
        assert(b[i as int].deep_view() =~= b[i as int]@);
        if !same_segment(&a[i], &b[i]) {
            assert(a.deep_view()[i as int] != b.deep_view()[i as int]);
            return false;
        }
        i = i + 1;
    }
    assert(a.deep_view() =~= b.deep_view());
    true
}

impl<H> Handlers<H> {
    #[verifier::type_invariant]
    closed spec fn wf(&self) -> bool {
        are_distinct(self.entries@)
    }

    /// Makes a collection without any handlers.
    pub fn new() -> (handlers: Self)
        ensures
            handlers@ == Map::<Seq<Seq<u8>>, H>::empty(),
    {
        let handlers = Handlers { entries: Vec::new() };
        assert(handlers@ =~= Map::<Seq<Seq<u8>>, H>::empty());
        handlers
    }

    /// Finds the entry for a path.
    fn find(&self, path: &Vec<Vec<u8>>) -> (found: Option<usize>)
        ensures
            match found {
                Some(i) => is_entry(self.entries@, path.deep_view(), i as int),
                None => forall|i: int| !is_entry(self.entries@, path.deep_view(), i),
            },
    {
        let mut i: usize = 0;
        while i < self.entries.len()
            invariant
                i <= self.entries.len(),
                forall|j: int| 0 <= j < i ==> !is_entry(self.entries@, path.deep_view(), j),
            decreases self.entries.len() - i,
        {
            if same_path(&self.entries[i].0, path) {
                return Some(i);
            }
            i = i + 1;
        }
        None
    }

    /// Looks up the handler for a path.
    pub fn get(&self, path: &Vec<Vec<u8>>) -> (handler: Option<&H>)
        ensures
            match handler {
                Some(handler) => self@.contains_key(path.deep_view()) && *handler
                    == self@[path.deep_view()],
                None => !self@.contains_key(path.deep_view()),
            },
    {
        proof {
            use_type_invariant(self);
        }
        match self.find(path) {
            Some(i) => Some(&self.entries[i].1),
            None => None,
        }
    }

    /// Registers the handler for a path, in place of the one which was
    /// registered for it before, if any.
    pub fn insert(&mut self, path: Vec<Vec<u8>>, handler: H)
        ensures
            final(self)@ == old(self)@.insert(path.deep_view(), handler),
    {
        proof {
            use_type_invariant(&*self);
        }
        let found = self.find(&path);
        let mut entries: Vec<(Vec<Vec<u8>>, H)> = Vec::new();
        std::mem::swap(&mut entries, &mut self.entries);
        let ghost before = entries@;
        let ghost added = (path, handler);
        let ghost key = path.deep_view();
        match found {
            Some(i) => {
                entries.set(i, (path, handler));
                assert(is_entry(entries@, key, i as int));
                assert(entries@ == before.update(i as int, added));
            },
            None => {
                entries.push((path, handler));
                assert(is_entry(entries@, key, before.len() as int));
                assert(entries@ == before.push(added));
            },
        }
        assert forall|i: int, j: int| 0 <= i < j < entries.len() implies #[trigger] entries@[i].0.deep_view()
            != #[trigger] entries@[j].0.deep_view() by {
            match found {
                Some(k) => {
                    assert(before[k as int].0.deep_view() == key);
                    assert(before[i].0.deep_view() != before[j].0.deep_view());
                },
                None => {
                    assert(!is_entry(before, key, i));
                    assert(j < before.len() ==> before[i].0.deep_view() != before[j].0.deep_view());
                },
            }
        }
        proof {
            let old_map = entry_map(before).insert(key, handler);
            let new_map = entry_map(entries@);
            assert forall|p: Seq<Seq<u8>>| new_map.contains_key(p) == old_map.contains_key(p) by {
                if p != key {
                    if old_map.contains_key(p) {
                        let i = choose|i: int| is_entry(before, p, i);
                        assert(is_entry(entries@, p, i));
                    }
                    if new_map.contains_key(p) {
                        let i = choose|i: int| is_entry(entries@, p, i);
                        assert(is_entry(before, p, i));
                    }
                }
            }
            assert forall|p: Seq<Seq<u8>>| new_map.contains_key(p) implies new_map[p]
                == old_map[p] by {
                let i = choose|i: int| is_entry(entries@, p, i);
                if p == key {
                    assert(entries@[i].0.deep_view() == key);
                    assert(entries@[i] == added);
                } else {
                    assert(is_entry(before, p, i));
                    let k = choose|k: int| is_entry(before, p, k);
                    assert(before[i].0.deep_view() == before[k].0.deep_view());
                    assert(i == k);
                }
            }
            assert(new_map =~= old_map);
        }
        self.entries = entries;
    }
}

} // verus!
