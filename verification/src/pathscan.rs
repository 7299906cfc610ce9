//! The search-path scanner: splitting a PATH value into directories and
//! streaming the executable entries found across them.
//!
//! The PATH value and the outcome of opening each directory are explicit
//! inputs: the caller reads the environment and the filesystem and hands
//! the scanner plain values, so the scan logic itself is verified for
//! every PATH value and every listing outcome.

use vstd::prelude::*;
use vstd::string::StrSliceExecFns;

verus! {

/// The directory substrings of a PATH value from position `i` on, with
/// `cur` the partial segment read so far.  Splitting is strictly on `:`;
/// a final segment with no `:` after it is never yielded.
pub open spec fn segs_from(s: Seq<char>, i: int, cur: Seq<char>) -> Seq<Seq<char>>
    decreases s.len() - i,
{
    if i < 0 || i >= s.len() {
        Seq::empty()
    } else if s[i] == ':' {
        seq![cur] + segs_from(s, i + 1, Seq::empty())
    } else {
        segs_from(s, i + 1, cur.push(s[i]))
    }
}

/// The directory substrings of a PATH value, in left-to-right order.
pub open spec fn path_segments(s: Seq<char>) -> Seq<Seq<char>> {
    segs_from(s, 0, Seq::empty())
}

/// A lazy splitter of a PATH value on `:`, in left-to-right order.
pub struct PathDirIterator {
    paths: String,
    idx: usize,
}

impl PathDirIterator {
    /// The segments not yet yielded.
    pub closed spec fn remaining(self) -> Seq<Seq<char>> {
        segs_from(self.paths@, self.idx as int, Seq::empty())
    }

    /// Wraps a PATH value, ready to yield its first segment.
    pub fn new(paths: String) -> (r: PathDirIterator)
        ensures
            r.remaining() == path_segments(paths@),
    {
        PathDirIterator { paths, idx: 0 }
    }

    /// Yields the next directory substring, or `None` once no `:` is left.
    pub fn next(&mut self) -> (r: Option<String>)
        ensures
            old(self).remaining().len() == 0 ==> r is None && *final(self) == *old(self),
            old(self).remaining().len() > 0 ==> {
                &&& r matches Some(seg) && seg@ == old(self).remaining()[0]
                &&& final(self).remaining() == old(self).remaining().drop_first()
            },
    {
        let len = self.paths.as_str().unicode_len();
        let start = self.idx;
        if start >= len {
            return None;
        }
        let mut k: usize = start;
        proof {
            assert(self.paths@.subrange(start as int, start as int) =~= Seq::<char>::empty());
        }
        while k < len && self.paths.as_str().get_char(k) != ':'
            invariant
                len == self.paths@.len(),
                start <= k <= len,
                *self == *old(self),
                self.idx == start,
                segs_from(self.paths@, start as int, Seq::empty()) == segs_from(
                    self.paths@,
                    k as int,
                    self.paths@.subrange(start as int, k as int),
                ),
            decreases len - k,
        {
            proof {
                assert(self.paths@.subrange(start as int, k as int).push(self.paths@[k as int])
                    =~= self.paths@.subrange(start as int, k + 1));
            }
            k += 1;
        }
        if k >= len {
            proof {
                assert(segs_from(
                    self.paths@,
                    k as int,
                    self.paths@.subrange(start as int, k as int),
                ) =~= Seq::<Seq<char>>::empty());
            }
            return None;
        }
        let seg = self.paths.as_str().substring_char(start, k).to_owned();
        proof {
            let cur = self.paths@.subrange(start as int, k as int);
            assert(segs_from(self.paths@, k as int, cur) == seq![cur] + segs_from(
                self.paths@,
                k + 1,
                Seq::empty(),
            ));
            assert(old(self).remaining()[0] == cur);
            assert(old(self).remaining().drop_first() =~= segs_from(
                self.paths@,
                k + 1,
                Seq::empty(),
            ));
        }
        self.idx = k + 1;
        Some(seg)
    }
}

/// All directory substrings of a PATH value, collected in order.
pub fn path_dirs(paths: &str) -> (r: Vec<String>)
    ensures
        r.deep_view() == path_segments(paths@),
{
    let mut it = PathDirIterator::new(paths.to_owned());
    let mut out: Vec<String> = Vec::new();
    loop
        invariant
            out.deep_view() + it.remaining() =~= path_segments(paths@),
        decreases it.remaining().len(),
    {
        let ghost out0 = out.deep_view();
        match it.next() {
            None => {
                proof {
                    assert(out.deep_view() =~= path_segments(paths@));
                }
                return out;
            },
            Some(seg) => {
                let ghost sv = seg@;
                out.push(seg);
                proof {
                    assert(out.deep_view() =~= out0.push(sv));
                    assert(out.deep_view() + it.remaining() =~= path_segments(paths@));
                }
            },
        }
    }
}

/// One entry of a directory listing: a base name and whether the entry is
/// a regular file with the executable permission bit set.
pub struct FileEntry {
    pub name: String,
    pub executable: bool,
}

/// The outcome of opening one search-path directory: `None` when the
/// directory could not be opened (it is skipped without error), otherwise
/// its entries in listing order.
pub struct DirListing {
    pub entries: Option<Vec<FileEntry>>,
}

/// The executable names of one listing from entry `j` on, in listing
/// order.
pub open spec fn execs_in_dir_from(es: Seq<FileEntry>, j: int) -> Seq<Seq<char>>
    decreases es.len() - j,
{
    if j < 0 || j >= es.len() {
        Seq::empty()
    } else if es[j].executable {
        seq![es[j].name@] + execs_in_dir_from(es, j + 1)
    } else {
        execs_in_dir_from(es, j + 1)
    }
}

/// The executable names contributed by one directory outcome: nothing for
/// a directory that failed to open.
pub open spec fn dir_execs(d: DirListing) -> Seq<Seq<char>> {
    match d.entries {
        Some(es) => execs_in_dir_from(es@, 0),
        None => Seq::empty(),
    }
}

/// The executable names of the directory outcomes from index `i` on, in
/// directory order, then listing order within each directory.
pub open spec fn execs_from(dirs: Seq<DirListing>, i: int) -> Seq<Seq<char>>
    decreases dirs.len() - i,
{
    if i < 0 || i >= dirs.len() {
        Seq::empty()
    } else {
        dir_execs(dirs[i]) + execs_from(dirs, i + 1)
    }
}

/// The lazy executable scanner over the directory outcomes of a search
/// path, one entry materialized per pull.  Names are not deduplicated
/// across directories.
pub struct PathCompletion {
    dirs: Vec<DirListing>,
    dir_idx: usize,
    entry_idx: usize,
}

/// Appending one directory outcome extends the executable-name sequence
/// by that directory's contribution.
proof fn lemma_execs_from_push(dirs: Seq<DirListing>, d: DirListing, i: int)
    requires
        0 <= i <= dirs.len(),
    ensures
        execs_from(dirs.push(d), i) == execs_from(dirs, i) + dir_execs(d),
    decreases dirs.len() - i,
{
    if i == dirs.len() {
        assert(dirs.push(d)[i] == d);
        assert(execs_from(dirs.push(d), i + 1) =~= Seq::<Seq<char>>::empty());
        assert(execs_from(dirs, i) =~= Seq::<Seq<char>>::empty());
        assert(execs_from(dirs.push(d), i) == dir_execs(d) + execs_from(dirs.push(d), i + 1));
        assert(execs_from(dirs.push(d), i) =~= execs_from(dirs, i) + dir_execs(d));
    } else {
        lemma_execs_from_push(dirs, d, i + 1);
        assert(dirs.push(d)[i] == dirs[i]);
        assert(execs_from(dirs.push(d), i) =~= execs_from(dirs, i) + dir_execs(d));
    }
}

impl PathCompletion {
    /// The directory outcomes the scanner was built over.
    pub closed spec fn dirs_spec(self) -> Seq<DirListing> {
        self.dirs@
    }

    /// The cursor sits inside the directory sequence, at the start of
    /// any directory not yet begun.
    pub closed spec fn wf(self) -> bool {
        &&& self.dir_idx <= self.dirs@.len()
        &&& self.dir_idx == self.dirs@.len() ==> self.entry_idx == 0
    }

    /// The executable names not yet yielded.
    pub closed spec fn remaining(self) -> Seq<Seq<char>> {
        if self.dir_idx >= self.dirs@.len() {
            Seq::empty()
        } else {
            (match self.dirs@[self.dir_idx as int].entries {
                Some(es) => execs_in_dir_from(es@, self.entry_idx as int),
                None => Seq::empty(),
            }) + execs_from(self.dirs@, self.dir_idx + 1)
        }
    }

    /// Hands the scanner the outcome of one more search-path directory.
    /// Feeding directories one at a time keeps the scan lazy: a caller
    /// that stops pulling early never has to open the rest of the path.
    pub fn push_dir(&mut self, d: DirListing)
        requires
            old(self).wf(),
        ensures
            final(self).wf(),
            final(self).remaining() == old(self).remaining() + dir_execs(d),
    {
        let ghost dirs0 = self.dirs@;
        proof {
            if self.dir_idx < dirs0.len() {
                lemma_execs_from_push(dirs0, d, self.dir_idx + 1);
            }
        }
        self.dirs.push(d);
        proof {
            if old(self).dir_idx < dirs0.len() {
                assert(self.dirs@[self.dir_idx as int] == dirs0[self.dir_idx as int]);
                assert(self.remaining() =~= old(self).remaining() + dir_execs(d));
            } else {
                assert(self.dirs@[self.dir_idx as int] == d);
                assert(execs_from(self.dirs@, self.dir_idx + 1) =~= Seq::<Seq<char>>::empty());
                assert(old(self).remaining() =~= Seq::<Seq<char>>::empty());
                assert(self.remaining() =~= dir_execs(d));
                assert(self.remaining() =~= old(self).remaining() + dir_execs(d));
            }
        }
    }

    /// Wraps the directory outcomes of a search path, in path order.
    pub fn new(dirs: Vec<DirListing>) -> (r: PathCompletion)
        ensures
            r.wf(),
            r.remaining() == execs_from(dirs@, 0),
    {
        let r = PathCompletion { dirs, dir_idx: 0, entry_idx: 0 };
        proof {
            if r.dirs@.len() > 0 {
                assert(r.remaining() =~= execs_from(r.dirs@, 0));
            }
        }
        r
    }

    /// Yields the next executable name, skipping unopenable directories
    /// and non-executable entries, or `None` once every directory is
    /// exhausted.
    pub fn next(&mut self) -> (r: Option<String>)
        ensures
            final(self).dirs_spec() == old(self).dirs_spec(),
            old(self).wf() ==> final(self).wf(),
            old(self).remaining().len() == 0 ==> r is None && final(self).remaining().len() == 0,
            old(self).remaining().len() > 0 ==> {
                &&& r matches Some(name) && name@ == old(self).remaining()[0]
                &&& final(self).remaining() == old(self).remaining().drop_first()
            },
    {
        loop
            invariant
                self.dirs == old(self).dirs,
                self.remaining() == old(self).remaining(),
                old(self).wf() ==> self.wf(),
            decreases
                    self.dirs@.len() - self.dir_idx,
                    (if self.dir_idx < self.dirs@.len() {
                        match self.dirs@[self.dir_idx as int].entries {
                            Some(es) => es@.len() + 1 - self.entry_idx,
                            None => 0,
                        }
                    } else {
                        0
                    }),
        {
            if self.dir_idx >= self.dirs.len() {
                return None;
            }
            let ghost rem0 = self.remaining();
            let has_entries = self.dirs[self.dir_idx].entries.is_some();
            if !has_entries {
                proof {
                    assert(rem0 =~= Seq::<Seq<char>>::empty() + execs_from(
                        self.dirs@,
                        self.dir_idx + 1,
                    ));
                }
                self.dir_idx += 1;
                self.entry_idx = 0;
                proof {
                    if self.dir_idx < self.dirs@.len() {
                        assert(self.remaining() =~= execs_from(self.dirs@, self.dir_idx as int));
                    }
                    assert(self.remaining() =~= rem0);
                }
                continue ;
            }
            let n = match &self.dirs[self.dir_idx].entries {
                Some(es) => es.len(),
                None => 0,
            };
            if self.entry_idx >= n {
                proof {
                    let es = self.dirs@[self.dir_idx as int].entries.unwrap()@;
                    assert(execs_in_dir_from(es, self.entry_idx as int) =~= Seq::<
                        Seq<char>,
                    >::empty());
                }
                self.dir_idx += 1;
                self.entry_idx = 0;
                proof {
                    if self.dir_idx < self.dirs@.len() {
                        assert(self.remaining() =~= execs_from(self.dirs@, self.dir_idx as int));
                    }
                    assert(self.remaining() =~= rem0);
                }
                continue ;
            }
            let (name, is_exec): (String, bool) = match &self.dirs[self.dir_idx].entries {
                Some(es) => (es[self.entry_idx].name.clone(), es[self.entry_idx].executable),
                None => (String::new(), false),
            };
            let ghost j = self.entry_idx as int;
            let ghost es = self.dirs@[self.dir_idx as int].entries.unwrap()@;
            self.entry_idx += 1;
            if is_exec {
                proof {
                    assert(execs_in_dir_from(es, j) == seq![es[j].name@] + execs_in_dir_from(
                        es,
                        j + 1,
                    ));
                    assert(rem0[0] == es[j].name@);
                    assert(self.remaining() =~= rem0.drop_first());
                }
                return Some(name);
            }
            proof {
                assert(execs_in_dir_from(es, j) == execs_in_dir_from(es, j + 1));
                assert(self.remaining() =~= rem0);
            }
        }
    }
}

/// The number of times `name` occurs in a sequence of names.
pub open spec fn count_name(names: Seq<Seq<char>>, name: Seq<char>) -> nat
    decreases names.len(),
{
    if names.len() == 0 {
        0
    } else {
        (if names[0] == name {
            1nat
        } else {
            0nat
        }) + count_name(names.drop_first(), name)
    }
}

/// The number of executable entries called `name` in one listing, from
/// entry `j` on.
pub open spec fn count_exec_in_dir(es: Seq<FileEntry>, j: int, name: Seq<char>) -> nat
    decreases es.len() - j,
{
    if j < 0 || j >= es.len() {
        0
    } else {
        (if es[j].executable && es[j].name@ == name {
            1nat
        } else {
            0nat
        }) + count_exec_in_dir(es, j + 1, name)
    }
}

/// The number of executable entries called `name` across the directory
/// outcomes from index `i` on; an unopenable directory contributes none.
pub open spec fn count_exec_dirs(dirs: Seq<DirListing>, i: int, name: Seq<char>) -> nat
    decreases dirs.len() - i,
{
    if i < 0 || i >= dirs.len() {
        0
    } else {
        (match dirs[i].entries {
            Some(es) => count_exec_in_dir(es@, 0, name),
            None => 0nat,
        }) + count_exec_dirs(dirs, i + 1, name)
    }
}

/// Counting a name distributes over concatenation of name sequences.
proof fn lemma_count_name_add(a: Seq<Seq<char>>, b: Seq<Seq<char>>, name: Seq<char>)
    ensures
        count_name(a + b, name) == count_name(a, name) + count_name(b, name),
    decreases a.len(),
{
    if a.len() == 0 {
        assert(a + b =~= b);
    } else {
        assert((a + b).drop_first() =~= a.drop_first() + b);
        lemma_count_name_add(a.drop_first(), b, name);
    }
}

/// In one listing, a name occurs in the executable-name sequence exactly
/// as often as the listing has executable entries of that name.
proof fn lemma_count_in_dir(es: Seq<FileEntry>, j: int, name: Seq<char>)
    ensures
        count_name(execs_in_dir_from(es, j), name) == count_exec_in_dir(es, j, name),
    decreases es.len() - j,
{
    if 0 <= j < es.len() {
        lemma_count_in_dir(es, j + 1, name);
        if es[j].executable {
            let one = seq![es[j].name@];
            lemma_count_name_add(one, execs_in_dir_from(es, j + 1), name);
            assert(one.drop_first() =~= Seq::<Seq<char>>::empty());
            assert(count_name(one.drop_first(), name) == 0);
            assert(count_name(one, name) == (if es[j].name@ == name {
                1nat
            } else {
                0nat
            }));
        }
    }
}

/// The scan sequence of a search path yields every executable entry of
/// every openable directory exactly once per occurrence, and an
/// unopenable directory contributes no entry.
pub proof fn lemma_scan_counts(dirs: Seq<DirListing>, name: Seq<char>)
    ensures
        count_name(execs_from(dirs, 0), name) == count_exec_dirs(dirs, 0, name),
{
    lemma_scan_counts_from(dirs, 0, name);
}

/// The counting law above, for every suffix of the directory sequence.
proof fn lemma_scan_counts_from(dirs: Seq<DirListing>, i: int, name: Seq<char>)
    ensures
        count_name(execs_from(dirs, i), name) == count_exec_dirs(dirs, i, name),
    decreases dirs.len() - i,
{
    if 0 <= i < dirs.len() {
        lemma_scan_counts_from(dirs, i + 1, name);
        lemma_count_name_add(dir_execs(dirs[i]), execs_from(dirs, i + 1), name);
        match dirs[i].entries {
            Some(es) => {
                lemma_count_in_dir(es@, 0, name);
            },
            None => {},
        }
    }
}

} // verus!
