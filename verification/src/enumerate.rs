//! The directory enumerator: an explicit-stack, depth-first traversal that
//! collects root-relative file paths, capped at a hard maximum.  The
//! filesystem itself stays outside: the I/O layer pops the next directory to
//! read, lists it, and hands the entries back; unreadable directories are
//! simply never handed in, which realizes the skip-on-error policy.

use vstd::prelude::*;
use crate::path_model::rel_of;
use crate::path_guard::relativize;

verus! {

/// The hard cap on collected entries: enumeration halts and returns what it
/// has once this many files were collected.
pub const MAX_FILES: usize = 10000;

/// The view of a list of owned strings.
pub open spec fn strings_view(ss: Seq<String>) -> Seq<Seq<char>> {
    ss.map_values(|s: String| s@)
}

/// The view of a directory listing: each entry is a full path and whether it
/// is a directory.
pub open spec fn entries_view(es: Seq<(String, bool)>) -> Seq<(Seq<char>, bool)> {
    es.map_values(|e: (String, bool)| (e.0@, e.1))
}

/// What recording one directory's entries does: in order, a directory is
/// pushed for later traversal and a file is collected root-relative, until
/// the cap is reached, at which point the rest is discarded.
pub open spec fn walk_entries(
    root: Seq<char>,
    files: Seq<Seq<char>>,
    dirs: Seq<Seq<char>>,
    entries: Seq<(Seq<char>, bool)>,
) -> (Seq<Seq<char>>, Seq<Seq<char>>)
    decreases entries.len(),
{
    if entries.len() == 0 || files.len() >= MAX_FILES {
        (files, dirs)
    } else {
        let e = entries[0];
        if e.1 {
            walk_entries(root, files, dirs.push(e.0), entries.drop_first())
        } else {
            walk_entries(root, files.push(rel_of(root, e.0)), dirs, entries.drop_first())
        }
    }
}

/// The traversal state: the root, the stack of directories still to read,
/// and the files collected so far.
pub struct Enumerator {
    pub root: String,
    pub dirs: Vec<String>,
    pub files: Vec<String>,
}

impl Enumerator {
    /// The collected files never exceed the cap.
    pub open spec fn wf(&self) -> bool {
        self.files@.len() <= MAX_FILES
    }

    pub open spec fn files_view(&self) -> Seq<Seq<char>> {
        strings_view(self.files@)
    }

    pub open spec fn dirs_view(&self) -> Seq<Seq<char>> {
        strings_view(self.dirs@)
    }

    /// A fresh traversal: the root itself is the one directory to read.
    pub fn begin(root: String) -> (e: Enumerator)
        ensures
            e.wf(),
            e.root == root,
            e.files_view() == Seq::<Seq<char>>::empty(),
            e.dirs_view() == seq![root@],
    {
        let mut dirs: Vec<String> = Vec::new();
        dirs.push(root.clone());
        let e = Enumerator { root, dirs, files: Vec::new() };
        proof {
            assert(e.files_view() =~~= Seq::<Seq<char>>::empty());
            assert(e.dirs_view() =~~= seq![e.root@]);
        }
        e
    }

    /// The next directory to read, in depth-first order, or `None` when the
    /// traversal is exhausted.
    pub fn next_dir(&mut self) -> (r: Option<String>)
        ensures
            final(self).root == old(self).root,
            final(self).files@ == old(self).files@,
            old(self).dirs@.len() == 0 ==> r is None && final(self).dirs@ == old(self).dirs@,
            old(self).dirs@.len() > 0 ==> r == Some(old(self).dirs@.last()) && final(self).dirs@
                == old(self).dirs@.drop_last(),
    {
        self.dirs.pop()
    }

    /// Has the cap been reached?  Once it is, the remainder of the traversal
    /// queue is to be discarded.
    pub fn at_capacity(&self) -> (b: bool)
        ensures
            b == (self.files@.len() >= MAX_FILES),
    {
        self.files.len() >= MAX_FILES
    }

    /// Record the entries of one directory, as `walk_entries` says: files are
    /// collected root-relative, directories queued, the rest discarded once
    /// the cap is reached.
    pub fn record_entries(&mut self, entries: &Vec<(String, bool)>)
        requires
            old(self).wf(),
        ensures
            final(self).wf(),
            final(self).root == old(self).root,
            (final(self).files_view(), final(self).dirs_view()) == walk_entries(
                old(self).root@,
                old(self).files_view(),
                old(self).dirs_view(),
                entries_view(entries@),
            ),
    {
        let ghost full = entries_view(entries@);
        let ghost target = walk_entries(old(self).root@, old(self).files_view(), old(self).dirs_view(), full);
        let mut i: usize = 0;
        proof {
            assert(full.skip(0) =~~= full);
        }
        loop
            invariant
                i <= entries@.len(),
                full == entries_view(entries@),
                self.wf(),
                self.root == old(self).root,
                target == walk_entries(old(self).root@, old(self).files_view(), old(self).dirs_view(), full),
                walk_entries(self.root@, self.files_view(), self.dirs_view(), full.skip(i as int)) == target,
            ensures
                self.wf(),
                self.root == old(self).root,
                (self.files_view(), self.dirs_view()) == target,
            decreases entries@.len() - i,
        {
            if i >= entries.len() {
                proof {
                    assert(full.skip(i as int).len() == 0);
                    assert(walk_entries(self.root@, self.files_view(), self.dirs_view(), full.skip(i as int)) == (self.files_view(), self.dirs_view()));
                }
                break;
            }
            if self.files.len() >= MAX_FILES {
                proof {
                    assert(walk_entries(self.root@, self.files_view(), self.dirs_view(), full.skip(i as int)) == (self.files_view(), self.dirs_view()));
                }
                break;
            }
            let ghost files0 = self.files_view();
            let ghost dirs0 = self.dirs_view();
            proof {
                assert(full.skip(i as int).len() > 0);
                assert(full.skip(i as int)[0] == full[i as int]);
                assert(full.skip(i as int).drop_first() =~~= full.skip(i as int + 1));
            }
            if entries[i].1 {
                self.dirs.push(entries[i].0.clone());
                proof {
                    assert(self.dirs_view() =~~= dirs0.push(full[i as int].0));
                }
            } else {
                let r = relativize(self.root.as_str(), entries[i].0.as_str());
                self.files.push(r);
                proof {
                    assert(self.files_view() =~~= files0.push(
                        rel_of(self.root@, full[i as int].0),
                    ));
                }
            }
            i += 1;
        }
    }

    /// Hand out what was collected.
    pub fn into_files(self) -> (r: Vec<String>)
        requires
            self.wf(),
        ensures
            strings_view(r@) == self.files_view(),
            r@.len() <= MAX_FILES,
    {
        self.files
    }
}

/// The collected files never exceed the cap, whatever entries are recorded.
pub proof fn lemma_walk_entries_cap(
    root: Seq<char>,
    files: Seq<Seq<char>>,
    dirs: Seq<Seq<char>>,
    entries: Seq<(Seq<char>, bool)>,
)
    requires
        files.len() <= MAX_FILES,
    ensures
        walk_entries(root, files, dirs, entries).0.len() <= MAX_FILES,
    decreases entries.len(),
{
    if entries.len() == 0 || files.len() >= MAX_FILES {
    } else {
        let e = entries[0];
        if e.1 {
            lemma_walk_entries_cap(root, files, dirs.push(e.0), entries.drop_first());
        } else {
            lemma_walk_entries_cap(root, files.push(rel_of(root, e.0)), dirs, entries.drop_first());
        }
    }
}

/// Every file that recording adds comes from an entry that was listed as a
/// file, made root-relative; the files already collected stay in place.
pub proof fn lemma_walk_entries_files_from_entries(
    root: Seq<char>,
    files: Seq<Seq<char>>,
    dirs: Seq<Seq<char>>,
    entries: Seq<(Seq<char>, bool)>,
)
    ensures
        files.is_prefix_of(walk_entries(root, files, dirs, entries).0),
        forall|k: int|
            files.len() <= k < walk_entries(root, files, dirs, entries).0.len() ==> exists|j: int|
                0 <= j < entries.len() && !(#[trigger] entries[j]).1 && #[trigger] walk_entries(
                    root,
                    files,
                    dirs,
                    entries,
                ).0[k] == rel_of(root, entries[j].0),
    decreases entries.len(),
{
    if entries.len() == 0 || files.len() >= MAX_FILES {
    } else {
        let e = entries[0];
        if e.1 {
            lemma_walk_entries_files_from_entries(root, files, dirs.push(e.0), entries.drop_first());
            assert forall|k: int|
                files.len() <= k < walk_entries(root, files, dirs, entries).0.len() implies exists|j: int|
                    0 <= j < entries.len() && !(#[trigger] entries[j]).1 && #[trigger] walk_entries(
                        root,
                        files,
                        dirs,
                        entries,
                    ).0[k] == rel_of(root, entries[j].0) by {
                let sub = entries.drop_first();
                let j0 = choose|j: int|
                    0 <= j < sub.len() && !sub[j].1 && walk_entries(
                        root,
                        files,
                        dirs.push(e.0),
                        sub,
                    ).0[k] == rel_of(root, sub[j].0);
                assert(entries[j0 + 1] == sub[j0]);
            }
        } else {
            let files1 = files.push(rel_of(root, e.0));
            lemma_walk_entries_files_from_entries(root, files1, dirs, entries.drop_first());
            assert(files.is_prefix_of(files1));
            assert forall|k: int|
                files.len() <= k < walk_entries(root, files, dirs, entries).0.len() implies exists|j: int|
                    0 <= j < entries.len() && !(#[trigger] entries[j]).1 && #[trigger] walk_entries(
                        root,
                        files,
                        dirs,
                        entries,
                    ).0[k] == rel_of(root, entries[j].0) by {
                let sub = entries.drop_first();
                if k == files.len() {
                    let res = walk_entries(root, files, dirs, entries).0;
                    assert(res == walk_entries(root, files1, dirs, sub).0);
                    assert(files1.is_prefix_of(res));
                    assert(res.subrange(0, files1.len() as int) == files1);
                    assert(res[k] == res.subrange(0, files1.len() as int)[k]);
                    assert(res[k] == rel_of(root, entries[0].0));
                    assert(0 <= 0 < entries.len() && !(entries[0]).1 && walk_entries(
                        root,
                        files,
                        dirs,
                        entries,
                    ).0[k] == rel_of(root, entries[0].0));
                } else {
                    let j0 = choose|j: int|
                        0 <= j < sub.len() && !sub[j].1 && walk_entries(
                            root,
                            files1,
                            dirs,
                            sub,
                        ).0[k] == rel_of(root, sub[j].0);
                    assert(entries[j0 + 1] == sub[j0]);
                }
            }
        }
    }
}

} // verus!
