//! The directory-entry scanner: resolving which directory a partial word
//! refers to, and streaming that directory's entries of the requested
//! kind, joined with the resolved parent path.
//!
//! The directory listing is an explicit input: the caller opens the
//! resolved directory and hands the scanner its entries as plain values
//! (or `None` when the directory could not be opened, which constructs to
//! an absent scanner, not an error).  The path separator is `/`.

use vstd::prelude::*;
use vstd::string::StrSliceExecFns;
use vstd::string::StringExecFns;
use crate::strutil::str_eq;
use crate::strutil::str_starts_with;

verus! {

/// The index of the last `/` of a path, if any.
pub open spec fn last_slash(s: Seq<char>) -> Option<int>
    decreases s.len(),
{
    if s.len() == 0 {
        None
    } else if s.last() == '/' {
        Some(s.len() - 1)
    } else {
        last_slash(s.drop_last())
    }
}

/// The parent directory of a path that does not end in `/`: the text up
/// to its last `/`, the root for a last `/` in front position, and `.`
/// for a path with no `/` at all.
pub open spec fn spec_parent(s: Seq<char>) -> Seq<char> {
    match last_slash(s) {
        None => "."@,
        Some(j) => if j == 0 {
            "/"@
        } else {
            s.subrange(0, j)
        },
    }
}

/// The directory that a partial word asks to scan: `.` for an empty
/// word, the word itself when it ends in `/`, its parent otherwise.
pub open spec fn spec_resolve_dir(input: Seq<char>) -> Seq<char> {
    if input.len() == 0 {
        "."@
    } else if input.last() == '/' {
        input
    } else {
        spec_parent(input)
    }
}

/// The parent text joined onto each yielded name: the input itself when
/// it ends in `/`; `..` for the input `..`; otherwise the parent
/// directory when it is a literal prefix of the input, and empty (bare
/// names) when it is not.
pub open spec fn spec_resolve_parent(input: Seq<char>) -> Seq<char> {
    if input.len() == 0 {
        Seq::empty()
    } else if input.last() == '/' {
        input
    } else if input == ".."@ {
        ".."@
    } else if spec_parent(input).is_prefix_of(input) {
        spec_parent(input)
    } else {
        Seq::empty()
    }
}

/// A name joined onto the resolved parent: bare for an empty or a
/// `.`/`..` sentinel parent, with a single `/` in between otherwise.
pub open spec fn join_parent(parent: Seq<char>, name: Seq<char>) -> Seq<char> {
    if parent.len() == 0 || parent == "."@ || parent == ".."@ {
        name
    } else if parent.last() == '/' {
        parent + name
    } else {
        parent + "/"@ + name
    }
}

/// The directory to scan and the parent text for joining, resolved from
/// one partial word.
pub struct ScanTarget {
    /// The directory whose entries are to be listed.
    pub dir: String,
    /// The text joined onto each yielded name.
    pub parent: String,
}

/// The parent directory of a path that does not end in `/`.
fn parent_of(input: &str) -> (r: String)
    ensures
        r@ == spec_parent(input@),
{
    let len = input.unicode_len();
    let mut k: usize = len;
    proof {
        assert(input@.take(len as int) =~= input@);
    }
    while k > 0 && input.get_char(k - 1) != '/'
        invariant
            len == input@.len(),
            k <= len,
            last_slash(input@) == last_slash(input@.take(k as int)),
        decreases k,
    {
        proof {
            let t = input@.take(k as int);
            assert(t.last() == input@[k - 1]);
            assert(t.drop_last() =~= input@.take(k - 1));
        }
        k -= 1;
    }
    if k == 0 {
        proof {
            assert(input@.take(0) =~= Seq::<char>::empty());
        }
        String::from_str(".")
    } else {
        proof {
            let t = input@.take(k as int);
            assert(t.last() == input@[k - 1]);
            assert(last_slash(input@) == Some(k - 1));
        }
        if k == 1 {
            String::from_str("/")
        } else {
            let p = input.substring_char(0, k - 1).to_owned();
            proof {
                assert(p@ == input@.subrange(0, k - 1));
            }
            p
        }
    }
}

/// Resolves the directory to scan and the parent text for joining from
/// one partial word.  The caller opens the returned directory; whether
/// that succeeds decides whether a scanner is constructed at all.
pub fn resolve_scan_dir(input: &str) -> (r: ScanTarget)
    ensures
        r.dir@ == spec_resolve_dir(input@),
        r.parent@ == spec_resolve_parent(input@),
{
    let len = input.unicode_len();
    if len == 0 {
        return ScanTarget { dir: String::from_str("."), parent: String::new() };
    }
    if input.get_char(len - 1) == '/' {
        return ScanTarget { dir: input.to_owned(), parent: input.to_owned() };
    }
    let par = parent_of(input);
    let parent = if str_eq(input, "..") {
        String::from_str("..")
    } else if str_starts_with(input, par.as_str()) {
        par.clone()
    } else {
        String::new()
    };
    ScanTarget { dir: par, parent }
}

/// One entry of the scanned directory: a base name and whether a
/// metadata lookup said it is a directory (a failed lookup counts as not
/// a directory).
pub struct DirEntryInfo {
    pub name: String,
    pub is_dir: bool,
}

/// The names yielded from the listing entries from index `j` on:
/// entries of the requested kind only, joined with the parent text.
pub open spec fn dir_entries_from(
    es: Seq<DirEntryInfo>,
    j: int,
    search_files: bool,
    search_dirs: bool,
    parent: Seq<char>,
) -> Seq<Seq<char>>
    decreases es.len() - j,
{
    if j < 0 || j >= es.len() {
        Seq::empty()
    } else {
        let keep = (search_dirs && es[j].is_dir) || (search_files && !es[j].is_dir);
        let rest = dir_entries_from(es, j + 1, search_files, search_dirs, parent);
        if keep {
            seq![join_parent(parent, es[j].name@)] + rest
        } else {
            rest
        }
    }
}

/// The `.` and `..` entries synthesized ahead of the real entries when
/// directories are searched and the parent is the bare `.`/`..`
/// sentinel.
pub open spec fn synth_entries(parent: Seq<char>, search_dirs: bool) -> Seq<Seq<char>> {
    if (parent == "."@ || parent == ".."@) && search_dirs {
        seq!["."@, ".."@]
    } else {
        Seq::empty()
    }
}

/// Everything a directory scan over listing `es` yields for the partial
/// word `input`, in order.
pub open spec fn dir_scan_seq(
    input: Seq<char>,
    search_files: bool,
    search_dirs: bool,
    es: Seq<DirEntryInfo>,
) -> Seq<Seq<char>> {
    let parent = spec_resolve_parent(input);
    synth_entries(parent, search_dirs) + dir_entries_from(es, 0, search_files, search_dirs, parent)
}

/// The lazy scanner over one directory's entries, one entry materialized
/// per pull.
pub struct DirCompletion {
    parent: String,
    entries: Vec<DirEntryInfo>,
    idx: usize,
    search_files: bool,
    search_dirs: bool,
    displayed_curr: bool,
    displayed_parent: bool,
}

/// A name joined onto the resolved parent text.
fn join_entry(parent: &str, name: &str) -> (r: String)
    ensures
        r@ == join_parent(parent@, name@),
{
    let plen = parent.unicode_len();
    if plen == 0 || str_eq(parent, ".") || str_eq(parent, "..") {
        name.to_owned()
    } else if parent.get_char(plen - 1) == '/' {
        let mut out = parent.to_owned();
        out.append(name);
        out
    } else {
        let mut out = parent.to_owned();
        out.append("/");
        out.append(name);
        out
    }
}

impl DirCompletion {
    /// The names not yet yielded.
    pub closed spec fn remaining(self) -> Seq<Seq<char>> {
        let synth = if (self.parent@ == "."@ || self.parent@ == ".."@) && self.search_dirs {
            (if !self.displayed_curr {
                seq!["."@]
            } else {
                Seq::<Seq<char>>::empty()
            }) + (if !self.displayed_parent {
                seq![".."@]
            } else {
                Seq::<Seq<char>>::empty()
            })
        } else {
            Seq::<Seq<char>>::empty()
        };
        synth + dir_entries_from(
            self.entries@,
            self.idx as int,
            self.search_files,
            self.search_dirs,
            self.parent@,
        )
    }

    /// Builds a scanner for the partial word `input` over the listing of
    /// the resolved directory, or `None` when that directory could not be
    /// opened (construction fails soft, not with an error).
    pub fn new(
        input: &str,
        search_files: bool,
        search_dirs: bool,
        listing: Option<Vec<DirEntryInfo>>,
    ) -> (r: Option<DirCompletion>)
        ensures
            r is Some <==> listing is Some,
            match listing {
                Some(es) => (match r {
                    Some(d) => d.remaining() == dir_scan_seq(
                        input@,
                        search_files,
                        search_dirs,
                        es@,
                    ),
                    None => false,
                }),
                None => true,
            },
    {
        match listing {
            None => None,
            Some(es) => {
                let target = resolve_scan_dir(input);
                let d = DirCompletion {
                    parent: target.parent,
                    entries: es,
                    idx: 0,
                    search_files,
                    search_dirs,
                    displayed_curr: false,
                    displayed_parent: false,
                };
                proof {
                    assert(d.remaining() =~= dir_scan_seq(
                        input@,
                        search_files,
                        search_dirs,
                        d.entries@,
                    ));
                }
                Some(d)
            },
        }
    }

    /// Yields the next name of the requested kind (after the synthesized
    /// `.` and `..`, each exactly once, where they apply), or `None` once
    /// the listing is exhausted.
    pub fn next(&mut self) -> (r: Option<String>)
        ensures
            old(self).remaining().len() == 0 ==> r is None && final(self).remaining().len() == 0,
            old(self).remaining().len() > 0 ==> {
                &&& r matches Some(name) && name@ == old(self).remaining()[0]
                &&& final(self).remaining() == old(self).remaining().drop_first()
            },
    {
        let sentinel = str_eq(self.parent.as_str(), ".") || str_eq(self.parent.as_str(), "..");
        if sentinel && self.search_dirs {
            if !self.displayed_curr {
                self.displayed_curr = true;
                proof {
                    assert(self.remaining() =~= old(self).remaining().drop_first());
                }
                return Some(String::from_str("."));
            }
            if !self.displayed_parent {
                self.displayed_parent = true;
                proof {
                    assert(self.remaining() =~= old(self).remaining().drop_first());
                }
                return Some(String::from_str(".."));
            }
        }
        loop
            invariant
                self.remaining() == old(self).remaining(),
                self.parent == old(self).parent,
                self.entries == old(self).entries,
                self.search_files == old(self).search_files,
                self.search_dirs == old(self).search_dirs,
                ((self.parent@ == "."@ || self.parent@ == ".."@) && self.search_dirs) ==> (
                self.displayed_curr && self.displayed_parent),
            decreases self.entries@.len() - self.idx,
        {
            let ghost rem0 = self.remaining();
            let ghost j = self.idx as int;
            let ghost es = self.entries@;
            proof {
                assert(rem0 =~= dir_entries_from(
                    es,
                    j,
                    self.search_files,
                    self.search_dirs,
                    self.parent@,
                ));
            }
            if self.idx >= self.entries.len() {
                return None;
            }
            let keep = (self.search_dirs && self.entries[self.idx].is_dir) || (self.search_files
                && !self.entries[self.idx].is_dir);
            if keep {
                let name = join_entry(self.parent.as_str(), self.entries[self.idx].name.as_str());
                self.idx += 1;
                proof {
                    assert(rem0[0] == join_parent(self.parent@, es[j].name@));
                    assert(self.remaining() =~= rem0.drop_first());
                }
                return Some(name);
            }
            self.idx += 1;
            proof {
                assert(self.remaining() =~= rem0);
            }
        }
    }
}

} // verus!
