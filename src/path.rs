use vstd::prelude::*;
use vstd::hash_map::StringHashMap;

use crate::text::{chars_of, split_chars, split_by, views};

verus! {

/// What one directory of the search path holds: `(basename, absolute path)` for each
/// entry, in the order the directory listed them.
pub struct DirListing {
    pub dir: String,
    pub entries: Vec<(String, String)>,
}

pub open spec fn entries_view(es: Seq<(String, String)>) -> Seq<(Seq<char>, Seq<char>)> {
    es.map_values(|e: (String, String)| (e.0@, e.1@))
}

pub open spec fn listings_view(ls: Seq<DirListing>) -> Seq<Seq<(Seq<char>, Seq<char>)>> {
    ls.map_values(|l: DirListing| entries_view(l.entries@))
}

/// The path that one directory gives for `cmd`: its last entry of that name.
pub open spec fn entry_lookup(es: Seq<(Seq<char>, Seq<char>)>, cmd: Seq<char>) -> Option<Seq<char>>
    decreases es.len(),
{
    if es.len() == 0 {
        None
    } else if es.last().0 == cmd {
        Some(es.last().1)
    } else {
        entry_lookup(es.drop_last(), cmd)
    }
}

/// The path that the search path gives for `cmd`: that of the leftmost directory holding
/// an entry of that name.
pub open spec fn path_lookup(ls: Seq<Seq<(Seq<char>, Seq<char>)>>, cmd: Seq<char>) -> Option<Seq<char>>
    decreases ls.len(),
{
    if ls.len() == 0 {
        None
    } else {
        match entry_lookup(ls[0], cmd) {
            Some(q) => Some(q),
            None => path_lookup(ls.drop_first(), cmd),
        }
    }
}

/// The search path gives `q` for `cmd` exactly when some directory gives `q` for it and
/// no directory before it holds `cmd` at all: the leftmost directory holding a command wins.
pub proof fn lemma_path_lookup_leftmost(ls: Seq<Seq<(Seq<char>, Seq<char>)>>, cmd: Seq<char>, q: Seq<char>)
    ensures
        path_lookup(ls, cmd) == Some(q) <==> exists|i: int|
            0 <= i < ls.len() && entry_lookup(#[trigger] ls[i], cmd) == Some(q) && forall|j: int|
                0 <= j < i ==> entry_lookup(#[trigger] ls[j], cmd) is None,
    decreases ls.len(),
{
    if ls.len() > 0 {
        let rest = ls.drop_first();
        lemma_path_lookup_leftmost(rest, cmd, q);
        if path_lookup(ls, cmd) == Some(q) {
            if entry_lookup(ls[0], cmd) == Some(q) {
                assert(forall|j: int| 0 <= j < 0 ==> entry_lookup(#[trigger] ls[j], cmd) is None);
            } else {
                let i = choose|i: int|
                    0 <= i < rest.len() && entry_lookup(#[trigger] rest[i], cmd) == Some(q) && forall|j: int|
                        0 <= j < i ==> entry_lookup(#[trigger] rest[j], cmd) is None;
                assert(ls[i + 1] == rest[i]);
                assert forall|j: int| 0 <= j < i + 1 implies entry_lookup(#[trigger] ls[j], cmd) is None by {
                    if j > 0 {
                        assert(ls[j] == rest[j - 1]);
                    }
                }
            }
        }
        if exists|i: int|
            0 <= i < ls.len() && entry_lookup(#[trigger] ls[i], cmd) == Some(q) && forall|j: int|
                0 <= j < i ==> entry_lookup(#[trigger] ls[j], cmd) is None {
            let i = choose|i: int|
                0 <= i < ls.len() && entry_lookup(#[trigger] ls[i], cmd) == Some(q) && forall|j: int|
                    0 <= j < i ==> entry_lookup(#[trigger] ls[j], cmd) is None;
            if i > 0 {
                assert(entry_lookup(ls[0], cmd) is None);
                assert(rest[i - 1] == ls[i]);
                assert forall|j: int| 0 <= j < i - 1 implies entry_lookup(#[trigger] rest[j], cmd) is None by {
                    assert(rest[j] == ls[j + 1]);
                }
            }
        }
    }
}

pub open spec fn map_get(m: Map<Seq<char>, String>, k: Seq<char>) -> Option<Seq<char>> {
    if m.contains_key(k) {
        Some(m[k]@)
    } else {
        None
    }
}

/// Maps command names to the absolute paths of the executables found in `$PATH`.
pub struct PathTable {
    /// `$PATH`
    path: String,
    /// Key is command name and value is absolute path to the executable.
    table: StringHashMap<String>,
    /// The keys of `table`.
    names: Vec<String>,
}

impl PathTable {
    pub closed spec fn spec_path(&self) -> Seq<char> {
        self.path@
    }

    /// The path the table gives for `cmd`.
    pub closed spec fn spec_lookup(&self, cmd: Seq<char>) -> Option<Seq<char>> {
        map_get(self.table@, cmd)
    }

    pub closed spec fn wf(&self) -> bool {
        &&& forall|k: Seq<char>| self.table@.contains_key(k) <==> views(self.names@).contains(k)
        &&& views(self.names@).no_duplicates()
    }

    pub fn new() -> (r: PathTable)
        ensures
            r.wf(),
            r.spec_path() == Seq::<char>::empty(),
            forall|cmd: Seq<char>| r.spec_lookup(cmd) is None,
    {
        PathTable { path: String::new(), table: StringHashMap::new(), names: Vec::new() }
    }

    /// The directories of a search path, in order.
    pub fn dirs(path: &str) -> (r: Vec<String>)
        ensures
            views(r@) == split_by(path@, seq![':']),
    {
        let s = chars_of(path);
        let seps = vec![':'];
        assert(seps@ =~= seq![':']);
        split_chars(&s, &seps)
    }

    /// Sets the search path to `path` and fills the table from `listings`, the contents of
    /// `PathTable::dirs(path)` in order (a directory that could not be read lists nothing).
    pub fn scan(&mut self, path: &str, listings: &Vec<DirListing>)
        ensures
            final(self).wf(),
            final(self).spec_path() == path@,
            forall|cmd: Seq<char>|
                #[trigger] final(self).spec_lookup(cmd) == path_lookup(listings_view(listings@), cmd),
    {
        self.path = path.to_owned();
        self.rehash(listings);
    }

    pub fn to_vec(&self) -> (r: Vec<String>)
        requires
            self.wf(),
        ensures
            forall|k: Seq<char>| views(r@).contains(k) <==> self.spec_lookup(k) is Some,
            views(r@).no_duplicates(),
    {
        let mut r: Vec<String> = Vec::new();
        let mut i: usize = 0;
        while i < self.names.len()
            invariant
                i <= self.names@.len(),
                views(r@) == views(self.names@).subrange(0, i as int),
            decreases self.names@.len() - i,
        {
            let c = self.names[i].clone();
            let ghost prev = r@;
            r.push(c);
            assert(views(r@) =~= views(prev).push(self.names@[i as int]@));
            i += 1;
            assert(views(r@) =~= views(self.names@).subrange(0, i as int));
        }
        assert(views(self.names@).subrange(0, i as int) =~= views(self.names@));
        assert(views(r@) == views(self.names@));
        r
    }

    /// Refills the table from `listings`, the contents of the search path's directories in
    /// order. Earlier directories take precedence.
    pub fn rehash(&mut self, listings: &Vec<DirListing>)
        ensures
            final(self).wf(),
            final(self).spec_path() == old(self).spec_path(),
            forall|cmd: Seq<char>|
                #[trigger] final(self).spec_lookup(cmd) == path_lookup(listings_view(listings@), cmd),
    {
        self.table.clear();
        self.names.clear();
        assert(views(self.names@) =~= Seq::<Seq<char>>::empty());
        let ghost lv = listings_view(listings@);
        let mut i = listings.len();
        while i > 0
            invariant
                i <= listings@.len(),
                lv == listings_view(listings@),
                self.path@ == old(self).path@,
                forall|k: Seq<char>| self.table@.contains_key(k) <==> views(self.names@).contains(k),
                views(self.names@).no_duplicates(),
                forall|cmd: Seq<char>|
                    #[trigger] map_get(self.table@, cmd) == path_lookup(lv.subrange(i as int, lv.len() as int), cmd),
            decreases i,
        {
            i -= 1;
            let es = &listings[i].entries;
            let ghost ev = entries_view(es@);
            let ghost rest = lv.subrange(i + 1, lv.len() as int);
            let mut j: usize = 0;
            while j < es.len()
                invariant
                    i < listings@.len(),
                    es == &listings@[i as int].entries,
                    ev == entries_view(es@),
                    self.path@ == old(self).path@,
                    j <= es@.len(),
                    forall|k: Seq<char>| self.table@.contains_key(k) <==> views(self.names@).contains(k),
                    views(self.names@).no_duplicates(),
                    forall|cmd: Seq<char>|
                        #[trigger] map_get(self.table@, cmd) == match entry_lookup(ev.subrange(0, j as int), cmd) {
                            Some(q) => Some(q),
                            None => path_lookup(rest, cmd),
                        },
                decreases es@.len() - j,
            {
                let name = es[j].0.clone();
                let full = es[j].1.clone();
                let ghost before = self.table@;
                let ghost names_before = views(self.names@);
                assert(ev[j as int] == (name@, full@));
                if !self.table.contains_key(name.as_str()) {
                    let n2 = name.clone();
                    self.names.push(n2);
                    assert(views(self.names@) =~= names_before.push(name@));
                    assert(!names_before.contains(name@));
                    assert forall|x: int, y: int| 0 <= x < y < views(self.names@).len()
                        implies views(self.names@)[x] != views(self.names@)[y] by {
                        if y == names_before.len() {
                            assert(names_before[x] == views(self.names@)[x]);
                        } else {
                            assert(names_before[x] == views(self.names@)[x]);
                            assert(names_before[y] == views(self.names@)[y]);
                        }
                    }
                } else {
                    assert(views(self.names@) =~= names_before);
                }
                self.table.insert(name, full);
                j += 1;
                assert forall|cmd: Seq<char>|
                    #[trigger] map_get(self.table@, cmd) == match entry_lookup(ev.subrange(0, j as int), cmd) {
                        Some(q) => Some(q),
                        None => path_lookup(rest, cmd),
                    } by {
                    assert(ev.subrange(0, j as int).drop_last() =~= ev.subrange(0, j - 1));
                    assert(ev.subrange(0, j as int).last() == ev[j - 1]);
                    if cmd != ev[j - 1].0 {
                        assert(map_get(before, cmd) == match entry_lookup(ev.subrange(0, j - 1), cmd) {
                            Some(q) => Some(q),
                            None => path_lookup(rest, cmd),
                        });
                    }
                }
                assert forall|k: Seq<char>| self.table@.contains_key(k) <==> views(self.names@).contains(k) by {
                    if k != ev[j - 1].0 {
                        assert(before.contains_key(k) <==> names_before.contains(k));
                        if views(self.names@).contains(k) {
                            let x = choose|x: int| 0 <= x < views(self.names@).len() && views(self.names@)[x] == k;
                            assert(x < names_before.len() && names_before[x] == k);
                        }
                        if names_before.contains(k) {
                            let x = choose|x: int| 0 <= x < names_before.len() && names_before[x] == k;
                            assert(views(self.names@)[x] == k);
                        }
                    } else {
                        assert(self.table@.contains_key(k));
                        if !before.contains_key(k) {
                            assert(views(self.names@)[views(self.names@).len() - 1] == k);
                        } else {
                            assert(names_before.contains(k));
                            let x = choose|x: int| 0 <= x < names_before.len() && names_before[x] == k;
                            assert(views(self.names@)[x] == k);
                        }
                    }
                }
            }
            assert(ev.subrange(0, j as int) =~= ev);
            assert forall|cmd: Seq<char>|
                #[trigger] map_get(self.table@, cmd) == path_lookup(lv.subrange(i as int, lv.len() as int), cmd) by {
                assert(lv.subrange(i as int, lv.len() as int).drop_first() =~= rest);
                assert(lv.subrange(i as int, lv.len() as int)[0] == ev);
            }
        }
        assert(lv.subrange(0, lv.len() as int) =~= lv);
    }

    pub fn lookup(&self, cmd: &str) -> (r: Option<&str>)
        ensures
            match r {
                Some(q) => self.spec_lookup(cmd@) == Some(q@),
                None => self.spec_lookup(cmd@) is None,
            },
    {
        match self.table.get(cmd) {
            Some(s) => Some(s.as_str()),
            None => None,
        }
    }
}

} // verus!
