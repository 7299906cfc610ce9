//! The flat-list candidate sources: environment variable names and
//! pre-parsed group, host, service and user records, each yielded as its
//! string projection in list order.  Host and service records fold their
//! multi-name entries into a deduplicated list before yielding.
//!
//! The record lists are explicit inputs: the caller parses the system
//! databases and hands the sources plain values.

use vstd::prelude::*;
use vstd::string::StringExecFns;
use crate::strutil::str_eq;

verus! {

/// The string projection of one record.
pub trait Stringify {
    /// The projected text, at the specification level.
    spec fn str_view(&self) -> Seq<char>;

    /// The projected text.
    fn get_string(&self) -> (r: String)
        ensures
            r@ == self.str_view(),
    ;
}

impl Stringify for String {
    open spec fn str_view(&self) -> Seq<char> {
        self@
    }

    fn get_string(&self) -> (r: String) {
        self.clone()
    }
}

/// A lazy source over a list of records, yielding each record's string
/// projection in list order.
pub struct VecCompletion<T: Stringify> {
    elements: Vec<T>,
    idx: usize,
}

impl<T: Stringify> VecCompletion<T> {
    /// The projections not yet yielded.
    pub closed spec fn remaining(self) -> Seq<Seq<char>> {
        if self.idx > self.elements@.len() {
            Seq::empty()
        } else {
            self.elements@.map_values(|e: T| e.str_view()).subrange(
                self.idx as int,
                self.elements@.len() as int,
            )
        }
    }

    /// Wraps a record list, ready to yield every projection in order.
    pub fn from_elements(elements: Vec<T>) -> (r: VecCompletion<T>)
        ensures
            r.remaining() == elements@.map_values(|e: T| e.str_view()),
    {
        let r = VecCompletion { elements, idx: 0 };
        proof {
            assert(r.remaining() =~= r.elements@.map_values(|e: T| e.str_view()));
        }
        r
    }

    /// Yields the next record's projection, or `None` once the list is
    /// exhausted.
    pub fn next(&mut self) -> (r: Option<String>)
        ensures
            old(self).remaining().len() == 0 ==> r is None && final(self).remaining().len() == 0,
            old(self).remaining().len() > 0 ==> {
                &&& r matches Some(s) && s@ == old(self).remaining()[0]
                &&& final(self).remaining() == old(self).remaining().drop_first()
            },
    {
        if self.idx >= self.elements.len() {
            return None;
        }
        let s = self.elements[self.idx].get_string();
        self.idx += 1;
        proof {
            assert(self.remaining() =~= old(self).remaining().drop_first());
        }
        Some(s)
    }
}

/// A lazy source over environment (name, value) pairs, yielding the
/// names in list order.
pub struct EnvCompletion {
    vars: Vec<(String, String)>,
    idx: usize,
}

impl EnvCompletion {
    /// The names not yet yielded.
    pub closed spec fn remaining(self) -> Seq<Seq<char>> {
        if self.idx > self.vars@.len() {
            Seq::empty()
        } else {
            self.vars@.map_values(|p: (String, String)| p.0@).subrange(
                self.idx as int,
                self.vars@.len() as int,
            )
        }
    }

    /// Wraps an environment snapshot, ready to yield every variable name
    /// in order.
    pub fn new(vars: Vec<(String, String)>) -> (r: EnvCompletion)
        ensures
            r.remaining() == vars@.map_values(|p: (String, String)| p.0@),
    {
        let r = EnvCompletion { vars, idx: 0 };
        proof {
            assert(r.remaining() =~= r.vars@.map_values(|p: (String, String)| p.0@));
        }
        r
    }

    /// Yields the next variable name, or `None` once the snapshot is
    /// exhausted.
    pub fn next(&mut self) -> (r: Option<String>)
        ensures
            old(self).remaining().len() == 0 ==> r is None && final(self).remaining().len() == 0,
            old(self).remaining().len() > 0 ==> {
                &&& r matches Some(s) && s@ == old(self).remaining()[0]
                &&& final(self).remaining() == old(self).remaining().drop_first()
            },
    {
        if self.idx >= self.vars.len() {
            return None;
        }
        let s = self.vars[self.idx].0.clone();
        self.idx += 1;
        proof {
            assert(self.remaining() =~= old(self).remaining().drop_first());
        }
        Some(s)
    }
}

/// One pre-parsed group record; the scan reads its name.
pub struct GroupRecord {
    pub name: String,
}

impl Stringify for GroupRecord {
    open spec fn str_view(&self) -> Seq<char> {
        self.name@
    }

    fn get_string(&self) -> (r: String) {
        self.name.clone()
    }
}

/// One pre-parsed user record; the scan reads its name.
pub struct UserRecord {
    pub name: String,
}

impl Stringify for UserRecord {
    open spec fn str_view(&self) -> Seq<char> {
        self.name@
    }

    fn get_string(&self) -> (r: String) {
        self.name.clone()
    }
}

/// One pre-parsed host record: every name and alias of one line.
pub struct HostRecord {
    pub names: Vec<String>,
}

/// One pre-parsed service record: a primary name and its aliases.
pub struct ServiceRecord {
    pub name: String,
    pub aliases: Vec<String>,
}

/// The group-name source.
pub type GroupCompletion = VecCompletion<GroupRecord>;

/// The host-name source.
pub type HostCompletion = VecCompletion<String>;

/// The user-name source.
pub type UserCompletion = VecCompletion<UserRecord>;

impl GroupCompletion {
    /// Wraps pre-parsed group records, yielding each group's name in
    /// list order.
    pub fn new(groups: Vec<GroupRecord>) -> (r: GroupCompletion)
        ensures
            r.remaining() == groups@.map_values(|g: GroupRecord| g.name@),
    {
        VecCompletion::from_elements(groups)
    }
}

impl UserCompletion {
    /// Wraps pre-parsed user records, yielding each user's name in list
    /// order.
    pub fn new(users: Vec<UserRecord>) -> (r: UserCompletion)
        ensures
            r.remaining() == users@.map_values(|u: UserRecord| u.name@),
    {
        VecCompletion::from_elements(users)
    }
}

/// Membership in a concatenation is membership in either part.
proof fn lemma_contains_add<A>(a: Seq<A>, b: Seq<A>, x: A)
    ensures
        (a + b).contains(x) <==> a.contains(x) || b.contains(x),
{
    if a.contains(x) {
        let i = choose|i: int| 0 <= i < a.len() && a[i] == x;
        assert((a + b)[i] == x);
    }
    if b.contains(x) {
        let i = choose|i: int| 0 <= i < b.len() && b[i] == x;
        assert((a + b)[a.len() + i] == x);
    }
    if (a + b).contains(x) {
        let i = choose|i: int| 0 <= i < (a + b).len() && (a + b)[i] == x;
        if i < a.len() {
            assert(a[i] == x);
        } else {
            assert(b[i - a.len()] == x);
        }
    }
}

/// Membership after a push is membership before, or the pushed element.
proof fn lemma_contains_push<A>(s: Seq<A>, e: A, x: A)
    ensures
        s.push(e).contains(x) <==> s.contains(x) || x == e,
{
    if s.contains(x) {
        let i = choose|i: int| 0 <= i < s.len() && s[i] == x;
        assert(s.push(e)[i] == x);
    }
    assert(s.push(e)[s.len() as int] == e);
    if s.push(e).contains(x) {
        let i = choose|i: int| 0 <= i < s.push(e).len() && s.push(e)[i] == x;
        if i < s.len() {
            assert(s[i] == x);
        }
    }
}

/// Whether some element of `v` has the text `s`.
fn contains_str(v: &Vec<String>, s: &str) -> (r: bool)
    ensures
        r == v.deep_view().contains(s@),
{
    let mut i: usize = 0;
    while i < v.len()
        invariant
            i <= v@.len(),
            forall|k: int| 0 <= k < i ==> v@[k]@ != s@,
        decreases v@.len() - i,
    {
        if str_eq(v[i].as_str(), s) {
            proof {
                assert(v.deep_view()[i as int] == s@);
            }
            return true;
        }
        i += 1;
    }
    proof {
        assert forall|k: int| 0 <= k < v.deep_view().len() implies v.deep_view()[k] != s@ by {
            assert(v@[k]@ != s@);
        }
    }
    false
}

/// Appends `s` unless an element with the same text is already present,
/// keeping the list free of duplicates.
fn insert_unique(v: &mut Vec<String>, s: &str)
    requires
        old(v).deep_view().no_duplicates(),
    ensures
        final(v).deep_view().no_duplicates(),
        forall|x: Seq<char>|
            final(v).deep_view().contains(x) <==> (old(v).deep_view().contains(x) || x == s@),
{
    let present = contains_str(v, s);
    if !present {
        let ghost dv0 = v.deep_view();
        v.push(s.to_owned());
        proof {
            assert(v.deep_view() =~= dv0.push(s@));
            assert forall|x: Seq<char>|
                v.deep_view().contains(x) <==> (dv0.contains(x) || x == s@) by {
                lemma_contains_push(dv0, s@, x);
            }
            assert forall|i: int, j: int|
                0 <= i < v.deep_view().len() && 0 <= j < v.deep_view().len() && i != j implies v.deep_view()[i]
                != v.deep_view()[j] by {
                if i < dv0.len() && j < dv0.len() {
                    assert(dv0[i] != dv0[j]);
                } else if i == dv0.len() {
                    assert(dv0.contains(dv0[j]));
                } else if j == dv0.len() {
                    assert(dv0.contains(dv0[i]));
                }
            }
        }
    }
}

/// Every name of every host record up to the end of `rs`, in record
/// order.
pub open spec fn host_names(rs: Seq<HostRecord>) -> Seq<Seq<char>>
    decreases rs.len(),
{
    if rs.len() == 0 {
        Seq::empty()
    } else {
        host_names(rs.drop_last()) + rs.last().names@.map_values(|n: String| n@)
    }
}

/// The primary name and every alias of every service record, in record
/// order.
pub open spec fn service_names(rs: Seq<ServiceRecord>) -> Seq<Seq<char>>
    decreases rs.len(),
{
    if rs.len() == 0 {
        Seq::empty()
    } else {
        service_names(rs.drop_last()) + (seq![rs.last().name@] + rs.last().aliases@.map_values(
            |a: String| a@,
        ))
    }
}

impl HostCompletion {
    /// Folds the names and aliases of the host records into a
    /// deduplicated list of host names: every name of every record
    /// appears exactly once, whatever records it occurs in.
    pub fn new(records: Vec<HostRecord>) -> (r: HostCompletion)
        ensures
            r.remaining().no_duplicates(),
            forall|x: Seq<char>|
                r.remaining().contains(x) <==> host_names(records@).contains(x),
    {
        let mut elements: Vec<String> = Vec::new();
        let mut i: usize = 0;
        while i < records.len()
            invariant
                i <= records@.len(),
                elements.deep_view().no_duplicates(),
                forall|x: Seq<char>|
                    elements.deep_view().contains(x) <==> host_names(
                        records@.take(i as int),
                    ).contains(x),
            decreases records@.len() - i,
        {
            let ghost base = host_names(records@.take(i as int));
            let ghost names = records@[i as int].names@.map_values(|n: String| n@);
            let n = records[i].names.len();
            let mut j: usize = 0;
            while j < n
                invariant
                    i < records@.len(),
                    n == records@[i as int].names@.len(),
                    j <= n,
                    base == host_names(records@.take(i as int)),
                    names == records@[i as int].names@.map_values(|n: String| n@),
                    elements.deep_view().no_duplicates(),
                    forall|x: Seq<char>|
                        elements.deep_view().contains(x) <==> (base + names.take(
                            j as int,
                        )).contains(x),
                decreases n - j,
            {
                insert_unique(&mut elements, records[i].names[j].as_str());
                proof {
                    assert(names.take(j + 1) =~= names.take(j as int).push(names[j as int]));
                    assert(names[j as int] == records@[i as int].names@[j as int]@);
                    assert forall|x: Seq<char>|
                        elements.deep_view().contains(x) <==> (base + names.take(
                            j + 1,
                        )).contains(x) by {
                        lemma_contains_add(base, names.take(j as int), x);
                        lemma_contains_add(base, names.take(j + 1), x);
                        lemma_contains_push(names.take(j as int), names[j as int], x);
                    }
                }
                j += 1;
            }
            proof {
                assert(records@.take(i + 1).drop_last() =~= records@.take(i as int));
                assert(records@.take(i + 1).last() == records@[i as int]);
                assert(names.take(n as int) =~= names);
                assert(host_names(records@.take(i + 1)) == base + names);
            }
            i += 1;
        }
        proof {
            assert(records@.take(records@.len() as int) =~= records@);
        }
        let r = VecCompletion::from_elements(elements);
        proof {
            assert(r.remaining() =~= elements.deep_view());
        }
        r
    }
}

/// The service-name source.
pub struct ServiceCompletion {
    _inner: VecCompletion<String>,
}

impl ServiceCompletion {
    /// The names not yet yielded.
    pub closed spec fn remaining(self) -> Seq<Seq<char>> {
        self._inner.remaining()
    }

    /// Folds the names and aliases of the service records into a
    /// deduplicated list of service names: every primary name and every
    /// alias appears exactly once, whatever records it occurs in.
    pub fn new(records: Vec<ServiceRecord>) -> (r: ServiceCompletion)
        ensures
            r.remaining().no_duplicates(),
            forall|x: Seq<char>|
                r.remaining().contains(x) <==> service_names(records@).contains(x),
    {
        let mut elements: Vec<String> = Vec::new();
        let mut i: usize = 0;
        while i < records.len()
            invariant
                i <= records@.len(),
                elements.deep_view().no_duplicates(),
                forall|x: Seq<char>|
                    elements.deep_view().contains(x) <==> service_names(
                        records@.take(i as int),
                    ).contains(x),
            decreases records@.len() - i,
        {
            let ghost base = service_names(records@.take(i as int));
            let ghost pname = records@[i as int].name@;
            let ghost aliases = records@[i as int].aliases@.map_values(|a: String| a@);
            insert_unique(&mut elements, records[i].name.as_str());
            proof {
                assert forall|x: Seq<char>|
                    elements.deep_view().contains(x) <==> (base + seq![pname].add(aliases.take(
                        0,
                    ))).contains(x) by {
                    lemma_contains_add(base, seq![pname] + aliases.take(0), x);
                    lemma_contains_add(seq![pname], aliases.take(0), x);
                    lemma_contains_add(base, Seq::empty(), x);
                    assert(seq![pname].contains(x) <==> x == pname) by {
                        assert(seq![pname][0] == pname);
                    }
                    assert(aliases.take(0) =~= Seq::<Seq<char>>::empty());
                }
            }
            let n = records[i].aliases.len();
            let mut j: usize = 0;
            while j < n
                invariant
                    i < records@.len(),
                    n == records@[i as int].aliases@.len(),
                    j <= n,
                    base == service_names(records@.take(i as int)),
                    pname == records@[i as int].name@,
                    aliases == records@[i as int].aliases@.map_values(|a: String| a@),
                    elements.deep_view().no_duplicates(),
                    forall|x: Seq<char>|
                        elements.deep_view().contains(x) <==> (base + seq![pname].add(
                            aliases.take(j as int),
                        )).contains(x),
                decreases n - j,
            {
                insert_unique(&mut elements, records[i].aliases[j].as_str());
                proof {
                    assert(aliases.take(j + 1) =~= aliases.take(j as int).push(aliases[j as int]));
                    assert(aliases[j as int] == records@[i as int].aliases@[j as int]@);
                    assert forall|x: Seq<char>|
                        elements.deep_view().contains(x) <==> (base + seq![pname].add(
                            aliases.take(j + 1),
                        )).contains(x) by {
                        lemma_contains_add(base, seq![pname] + aliases.take(j as int), x);
                        lemma_contains_add(base, seq![pname] + aliases.take(j + 1), x);
                        lemma_contains_add(seq![pname], aliases.take(j as int), x);
                        lemma_contains_add(seq![pname], aliases.take(j + 1), x);
                        lemma_contains_push(aliases.take(j as int), aliases[j as int], x);
                    }
                }
                j += 1;
            }
            proof {
                assert(records@.take(i + 1).drop_last() =~= records@.take(i as int));
                assert(records@.take(i + 1).last() == records@[i as int]);
                assert(aliases.take(n as int) =~= aliases);
                assert(service_names(records@.take(i + 1)) == base + (seq![pname] + aliases));
            }
            i += 1;
        }
        proof {
            assert(records@.take(records@.len() as int) =~= records@);
        }
        let inner = VecCompletion::from_elements(elements);
        proof {
            assert(inner.remaining() =~= elements.deep_view());
        }
        ServiceCompletion { _inner: inner }
    }

    /// Yields the next service name, or `None` once the list is
    /// exhausted.
    pub fn next(&mut self) -> (r: Option<String>)
        ensures
            old(self).remaining().len() == 0 ==> r is None && final(self).remaining().len() == 0,
            old(self).remaining().len() > 0 ==> {
                &&& r matches Some(s) && s@ == old(self).remaining()[0]
                &&& final(self).remaining() == old(self).remaining().drop_first()
            },
    {
        self._inner.next()
    }
}

} // verus!
