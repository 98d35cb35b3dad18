use vstd::prelude::*;

verus! {

/// One entry met while walking a directory tree: its path, whether it is a
/// directory, and its file extension (without the dot) if it has one.
pub struct Entry {
    pub path: String,
    pub is_dir: bool,
    pub extension: Option<String>,
}

/// Whether an entry belongs in the File List for the extension filter
/// `filter`: it is not a directory, it has an extension, and the filter is
/// empty or names that extension.
pub open spec fn included(e: Entry, filter: Seq<Seq<char>>) -> bool {
    &&& !e.is_dir
    &&& e.extension is Some
    &&& (filter.len() == 0 || filter.contains(e.extension->0@))
}

/// The paths of the entries of `entries` that belong in the File List, in
/// the order in which they were met.
pub open spec fn selected(entries: Seq<Entry>, filter: Seq<Seq<char>>) -> Seq<Seq<char>>
    decreases entries.len(),
{
    if entries.len() == 0 {
        Seq::empty()
    } else {
        let rest = selected(entries.drop_last(), filter);
        if included(entries.last(), filter) {
            rest.push(entries.last().path@)
        } else {
            rest
        }
    }
}

/// Whether `ext` is one of `filter`.
fn contains_ext(filter: &Vec<String>, ext: &String) -> (r: bool)
    ensures
        r == filter.deep_view().contains(ext@),
{
    let mut i: usize = 0;
    while i < filter.len()
        invariant
            i <= filter.len(),
            forall|j: int| 0 <= j < i ==> filter.deep_view()[j] != ext@,
        decreases filter.len() - i,
    {
        if filter[i] == *ext {
            proof {
                assert(filter.deep_view()[i as int] == ext@);
            }
            return true;
        }
        i = i + 1;
    }
    false
}

/// Whether `entry` belongs in the File List for the extension filter `file_ext`.
pub fn is_included(entry: &Entry, file_ext: &Vec<String>) -> (r: bool)
    ensures
        r == included(*entry, file_ext.deep_view()),
{
    if entry.is_dir {
        return false;
    }
    match &entry.extension {
        None => false,
        Some(ext) => file_ext.len() == 0 || contains_ext(file_ext, ext),
    }
}

/// Builds the File List from the entries of a walk, given in the order in
/// which the walk met them: the paths of the regular files whose extension
/// the filter admits, in that order.
pub fn get_files(entries: &Vec<Entry>, file_ext: &Vec<String>) -> (files: Vec<String>)
    ensures
        files.deep_view() == selected(entries@, file_ext.deep_view()),
{
    let mut files: Vec<String> = Vec::new();
    let mut i: usize = 0;
    while i < entries.len()
        invariant
            i <= entries.len(),
            files.deep_view() == selected(entries@.subrange(0, i as int), file_ext.deep_view()),
        decreases entries.len() - i,
    {
        proof {
            assert(entries@.subrange(0, i + 1).drop_last() == entries@.subrange(0, i as int));
        }
        if is_included(&entries[i], file_ext) {
            files.push(entries[i].path.clone());
            proof {
                assert(files.deep_view() == selected(entries@.subrange(0, i as int), file_ext.deep_view()).push(entries@[i as int].path@));
            }
        }
        i = i + 1;
    }
    proof {
        assert(entries@.subrange(0, entries.len() as int) == entries@);
    }
    files
}

} // verus!

verus! {

/// The File List holds a path exactly when some entry of the walk with that
/// path is a regular file whose extension the filter admits (any extension
/// when the filter is empty); no directory is ever in it.
pub proof fn lemma_file_list_exact(entries: Seq<Entry>, filter: Seq<Seq<char>>)
    ensures
        forall|p: Seq<char>|
            selected(entries, filter).contains(p) <==> exists|i: int|
                0 <= i < entries.len() && included(#[trigger] entries[i], filter)
                    && entries[i].path@ == p,
    decreases entries.len(),
{
    if entries.len() > 0 {
        let init = entries.drop_last();
        lemma_file_list_exact(init, filter);
        let last = entries.last();
        let k = entries.len() - 1;
        assert(entries[k] == last);
        assert forall|i: int| 0 <= i < init.len() implies init[i] == entries[i] by {}
        assert forall|p: Seq<char>|
            selected(entries, filter).contains(p) <==> exists|i: int|
                0 <= i < entries.len() && included(#[trigger] entries[i], filter)
                    && entries[i].path@ == p by {
            if selected(entries, filter).contains(p) {
                if selected(init, filter).contains(p) {
                    let i = choose|i: int|
                        0 <= i < init.len() && included(#[trigger] init[i], filter) && init[i].path@ == p;
                    assert(included(entries[i], filter) && entries[i].path@ == p);
                } else {
                    assert(included(last, filter));
                    let s = selected(init, filter).push(last.path@);
                    let j = choose|j: int| 0 <= j < s.len() && s[j] == p;
                    if j < s.len() - 1 {
                        assert(selected(init, filter).contains(p));
                    }
                    assert(included(entries[k], filter) && entries[k].path@ == p);
                }
            }
            if exists|i: int|
                0 <= i < entries.len() && included(#[trigger] entries[i], filter)
                    && entries[i].path@ == p {
                let i = choose|i: int|
                    0 <= i < entries.len() && included(#[trigger] entries[i], filter)
                        && entries[i].path@ == p;
                if i < k {
                    assert(included(init[i], filter) && init[i].path@ == p);
                    assert(selected(init, filter).contains(p));
                    let j = choose|j: int| 0 <= j < selected(init, filter).len() && selected(init, filter)[j] == p;
                    if included(last, filter) {
                        assert(selected(entries, filter)[j] == p);
                    }
                } else {
                    let s = selected(init, filter).push(last.path@);
                    assert(s[s.len() - 1] == p);
                }
            }
        }
    }
}

} // verus!

verus! {

/// The File List does not hang on the order of a directory listing: two
/// walks that meet the same entries, in any order, list the same set of
/// files under the same filter.
pub proof fn lemma_file_set_order_free(entries1: Seq<Entry>, entries2: Seq<Entry>, filter: Seq<Seq<char>>)
    requires
        entries1.to_set() == entries2.to_set(),
    ensures
        selected(entries1, filter).to_set() == selected(entries2, filter).to_set(),
{
    lemma_file_list_exact(entries1, filter);
    lemma_file_list_exact(entries2, filter);
    assert forall|p: Seq<char>| selected(entries1, filter).to_set().contains(p) implies selected(
        entries2,
        filter,
    ).to_set().contains(p) by {
        let i = choose|i: int|
            0 <= i < entries1.len() && included(#[trigger] entries1[i], filter) && entries1[i].path@ == p;
        assert(entries1.to_set().contains(entries1[i]));
        assert(entries2.contains(entries1[i]));
        let j = choose|j: int| 0 <= j < entries2.len() && entries2[j] == entries1[i];
        assert(included(entries2[j], filter) && entries2[j].path@ == p);
    }
    assert forall|p: Seq<char>| selected(entries2, filter).to_set().contains(p) implies selected(
        entries1,
        filter,
    ).to_set().contains(p) by {
        let i = choose|i: int|
            0 <= i < entries2.len() && included(#[trigger] entries2[i], filter) && entries2[i].path@ == p;
        assert(entries2.to_set().contains(entries2[i]));
        assert(entries1.contains(entries2[i]));
        let j = choose|j: int| 0 <= j < entries1.len() && entries1[j] == entries2[i];
        assert(included(entries1[j], filter) && entries1[j].path@ == p);
    }
    assert(selected(entries1, filter).to_set() =~= selected(entries2, filter).to_set());
}

/// A depth-first walk of a directory tree, driven from outside: the walk
/// names the next directory to list, and is handed its listing. Entries are
/// met in pre-order, each directory's entries in the order of its listing.
pub struct Walk {
    /// The entries still to be met, the next one last.
    pending: Vec<Entry>,
    /// The entries met so far, in order.
    met: Vec<Entry>,
}

impl Walk {
    /// The entries still to be met, the next one first.
    pub closed spec fn pending(&self) -> Seq<Entry> {
        self.pending@.reverse()
    }

    /// The entries met so far, in order.
    pub closed spec fn met(&self) -> Seq<Entry> {
        self.met@
    }

    /// Starts a walk of `root`, given whether it exists and whether it is a
    /// directory. A root that does not exist is an error: there is no walk.
    /// The walk of a root that exists and is not a directory meets nothing.
    pub fn start(root: String, exists: bool, is_dir: bool) -> (r: Option<Walk>)
        ensures
            r is None <==> !exists,
            r is Some ==> r->0.met() == Seq::<Entry>::empty(),
            exists && is_dir ==> r->0.pending() == seq![Entry { path: root, is_dir: true, extension: None }],
            exists && !is_dir ==> r->0.pending() == Seq::<Entry>::empty(),
    {
        if !exists {
            return None;
        }
        let mut pending: Vec<Entry> = Vec::new();
        if is_dir {
            pending.push(Entry { path: root, is_dir: true, extension: None });
        }
        proof {
            assert(pending@.reverse() =~= pending@);
        }
        Some(Walk { pending, met: Vec::new() })
    }

    /// Meets entries up to and including the next directory, and returns that
    /// directory's path; `None` once every entry has been met.
    pub fn next_dir(&mut self) -> (r: Option<String>)
        ensures
            r is None ==> {
                &&& final(self).pending() == Seq::<Entry>::empty()
                &&& final(self).met() == old(self).met() + old(self).pending()
                &&& forall|i: int| 0 <= i < old(self).pending().len() ==> !(#[trigger] old(self).pending()[i]).is_dir
            },
            r is Some ==> exists|k: int| {
                &&& 0 <= k < old(self).pending().len()
                &&& (#[trigger] old(self).pending()[k]).is_dir
                &&& old(self).pending()[k].path@ == r->0@
                &&& forall|i: int| 0 <= i < k ==> !(#[trigger] old(self).pending()[i]).is_dir
                &&& final(self).met() == old(self).met() + old(self).pending().subrange(0, k + 1)
                &&& final(self).pending() == old(self).pending().subrange(k + 1, old(self).pending().len() as int)
            },
    {
        let ghost start = self.pending@.reverse();
        let ghost met0 = self.met@;
        while self.pending.len() > 0
            invariant
                start == old(self).pending@.reverse(),
                met0 == old(self).met@,
                start.len() >= self.pending@.len(),
                self.pending@.reverse() == start.subrange(start.len() - self.pending@.len(), start.len() as int),
                self.met@ == met0 + start.subrange(0, start.len() - self.pending@.len()),
                forall|i: int| 0 <= i < start.len() - self.pending@.len() ==> !(#[trigger] start[i]).is_dir,
            decreases self.pending.len(),
        {
            let ghost before = self.pending@;
            let e = self.pending.pop().unwrap();
            let ghost j = start.len() - before.len();
            proof {
                assert(self.pending@ == before.drop_last());
                assert(e == before.last());
                assert(start[j] == before.reverse()[0]);
                assert forall|i: int| 0 <= i < self.pending@.len() implies #[trigger] self.pending@.reverse()[i]
                    == start[j + 1 + i] by {
                    assert(before.reverse()[i + 1] == start[j + 1 + i]);
                }
                assert(self.pending@.reverse() =~= start.subrange(j + 1, start.len() as int));
                assert(start.subrange(0, j + 1) =~= start.subrange(0, j).push(e));
            }
            if e.is_dir {
                let path = e.path.clone();
                self.met.push(e);
                proof {
                    assert(self.met@ =~= met0 + start.subrange(0, j + 1));
                    assert(start[j].is_dir && start[j].path@ == path@);
                    assert(forall|i: int| 0 <= i < j ==> !(#[trigger] start[i]).is_dir);
                }
                return Some(path);
            }
            self.met.push(e);
            proof {
                assert(self.met@ =~= met0 + start.subrange(0, j + 1));
            }
        }
        proof {
            assert(start.subrange(0, start.len() as int) =~= start);
            assert(self.pending@.reverse() =~= Seq::<Entry>::empty());
        }
        None
    }

    /// Hands the walk the listing of the directory it named last: those
    /// entries are met next, in listing order, before the rest.
    pub fn enter(&mut self, listing: Vec<Entry>)
        ensures
            final(self).met() == old(self).met(),
            final(self).pending() == listing@ + old(self).pending(),
    {
        let ghost old_pending = self.pending@;
        let mut i: usize = listing.len();
        let mut listing = listing;
        let ghost full = listing@;
        while i > 0
            invariant
                i == listing@.len(),
                i <= full.len(),
                listing@ == full.subrange(0, i as int),
                self.met@ == old(self).met@,
                self.pending@.reverse() == full.subrange(i as int, full.len() as int) + old_pending.reverse(),
            decreases i,
        {
            let e = listing.pop().unwrap();
            i = i - 1;
            proof {
                assert(e == full[i as int]);
            }
            let ghost before = self.pending@;
            self.pending.push(e);
            proof {
                assert(self.pending@.reverse() =~= seq![e] + before.reverse());
                assert(full.subrange(i as int, full.len() as int) =~= seq![e] + full.subrange(i + 1, full.len() as int));
                assert(self.pending@.reverse() =~= full.subrange(i as int, full.len() as int) + old_pending.reverse());
            }
        }
        proof {
            assert(full.subrange(0, full.len() as int) =~= full);
        }
    }

    /// The entries met so far, in order.
    pub fn entries(&self) -> (r: &Vec<Entry>)
        ensures
            r@ == self.met(),
    {
        &self.met
    }
}

} // verus!
