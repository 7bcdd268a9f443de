//! Full-path resolution: walking the parent references of FILE_NAME
//! attributes up to the volume root, with a cycle guard, a depth bound and a
//! cache keyed by file reference.
use vstd::prelude::*;
use crate::attribute::{
    attr_offsets, attribute_error, attribute_outcome, length_ok, value_end, value_start,
    AttributeBody, AttributeError, MftAttribute, FILE_NAME, NAMESPACE_WIN32,
    NAMESPACE_WIN32_AND_DOS,
};
use crate::entry::{reference_of, FileReference, MftEntry, ROOT_ENTRY_INDEX};
use crate::le::{u32_at, u64_at};
use crate::usn::utf16le_text;

verus! {

/// Where an entry comes from when the resolver steps to a parent: given an
/// entry index, the decoded entry, or none where the source lacks it.
pub trait EntryLookup {
    fn lookup(&mut self, index: u64) -> Option<MftEntry>;
}

/// Entries held in memory, found by their own index.
pub struct EntryTable {
    pub entries: Vec<MftEntry>,
}

impl EntryLookup for EntryTable {
    fn lookup(&mut self, index: u64) -> Option<MftEntry> {
        let mut i: usize = 0;
        while i < self.entries.len()
            decreases self.entries@.len() - i,
        {
            if self.entries[i].header.record_number == index {
                return Some(self.entries[i].clone());
            }
            i = i + 1;
        }
        None
    }
}

/// How far resolution got.
#[derive(Clone, Copy, Debug, PartialEq, Eq, Structural)]
pub enum PathStatus {
    /// The chain reached the volume root.
    Complete,
    /// A parent's slot was reused: its sequence number differs from the
    /// reference.
    StaleParent,
    /// The chain came back to an entry it had already visited.
    CyclePath,
    /// The lookup did not have a parent.
    MissingParent,
    /// An entry on the chain has no FILE_NAME attribute.
    NoFileName,
    /// The chain is longer than the resolver's depth bound.
    TooDeep,
}

/// Names from the volume root down to an entry, and how far resolution got;
/// the names are a partial path where the status is not `Complete`.
#[derive(Clone, Debug)]
pub struct ResolvedPath {
    pub components: Vec<String>,
    pub status: PathStatus,
}

/// The texts of a sequence of strings.
pub open spec fn texts(v: Seq<String>) -> Seq<Seq<char>> {
    v.map_values(|s: String| s@)
}

/// What a resolved path says: its names and its status.
pub open spec fn path_view(p: ResolvedPath) -> (Seq<Seq<char>>, PathStatus) {
    (texts(p.components@), p.status)
}

/// The result for the root entry: no names, complete.
pub open spec fn root_view() -> (Seq<Seq<char>>, PathStatus) {
    (Seq::empty(), PathStatus::Complete)
}

/// The reference that names `e`: its index and current sequence number.
pub open spec fn reference_of_entry(e: MftEntry) -> FileReference {
    FileReference { entry: e.header.record_number, sequence: e.header.sequence }
}

/// The path cached for `key` among `cache`, the first one stored.
pub open spec fn cached_in(cache: Seq<(FileReference, ResolvedPath)>, key: FileReference) -> Option<
    (Seq<Seq<char>>, PathStatus),
>
    decreases cache.len(),
{
    if cache.len() == 0 {
        None
    } else if cache[0].0 == key {
        Some(path_view(cache[0].1))
    } else {
        cached_in(cache.drop_first(), key)
    }
}

/// Whether attribute `a` is a FILE_NAME attribute.
pub open spec fn is_file_name(a: Result<MftAttribute, AttributeError>) -> bool {
    a is Ok && a->Ok_0.body is FileName
}

/// Whether attribute `a` is a FILE_NAME in the Win32 or Win32-and-DOS
/// namespace, which resolution prefers over DOS-only aliases.
pub open spec fn is_preferred_name(a: Result<MftAttribute, AttributeError>) -> bool {
    is_file_name(a) && {
        let ns = a->Ok_0.body->FileName_0.namespace;
        ns == NAMESPACE_WIN32 || ns == NAMESPACE_WIN32_AND_DOS
    }
}

/// Whether `i` is the first index of `attrs` holding a FILE_NAME, in a
/// preferred namespace where `preferred` asks for one.
pub open spec fn is_first_name(
    attrs: Seq<Result<MftAttribute, AttributeError>>,
    i: int,
    preferred: bool,
) -> bool {
    &&& 0 <= i < attrs.len()
    &&& if preferred {
        is_preferred_name(attrs[i])
    } else {
        is_file_name(attrs[i])
    }
    &&& forall|j: int|
        0 <= j < i ==> !(if preferred {
            is_preferred_name(#[trigger] attrs[j])
        } else {
            is_file_name(attrs[j])
        })
}

/// Whether `attrs` holds a FILE_NAME in a preferred namespace.
pub open spec fn has_preferred(attrs: Seq<Result<MftAttribute, AttributeError>>) -> bool {
    exists|i: int| 0 <= i < attrs.len() && is_preferred_name(#[trigger] attrs[i])
}

/// The FILE_NAME attribute that names an entry: the first in a preferred
/// namespace if there is one, else the first of any namespace.
pub fn pick_file_name(attrs: &Vec<Result<MftAttribute, AttributeError>>) -> (r: Option<usize>)
    ensures
        r is None <==> forall|i: int| 0 <= i < attrs@.len() ==> !is_file_name(#[trigger] attrs@[i]),
        r is Some ==> is_first_name(attrs@, r->0 as int, has_preferred(attrs@)),
{
    let mut first: Option<usize> = None;
    let mut i: usize = 0;
    while i < attrs.len()
        invariant
            i <= attrs@.len(),
            forall|j: int| 0 <= j < i ==> !is_preferred_name(#[trigger] attrs@[j]),
            first is None <==> forall|j: int| 0 <= j < i ==> !is_file_name(#[trigger] attrs@[j]),
            first is Some ==> is_first_name(attrs@, first->0 as int, false),
        decreases attrs@.len() - i,
    {
        match &attrs[i] {
            Ok(a) => match &a.body {
                AttributeBody::FileName(f) => {
                    if f.namespace == NAMESPACE_WIN32 || f.namespace == NAMESPACE_WIN32_AND_DOS {
                        assert(is_preferred_name(attrs@[i as int]));
                        assert(has_preferred(attrs@));
                        return Some(i);
                    }
                    if first.is_none() {
                        first = Some(i);
                    }
                },
                _ => {},
            },
            Err(_) => {},
        }
        i = i + 1;
    }
    assert(!has_preferred(attrs@));
    first
}

/// The value of the attribute at `off` of `b`, where it decodes as a
/// FILE_NAME.
pub open spec fn file_name_value(b: Seq<u8>, off: int) -> Option<Seq<u8>> {
    if length_ok(b, off) && attribute_error(b, off) is None && b[off + 8] == 0 && u32_at(b, off)
        == FILE_NAME {
        Some(b.subrange(value_start(b, off), value_end(b, off)))
    } else {
        None
    }
}

/// Whether the attribute at `off` is a FILE_NAME, in a preferred namespace
/// where `preferred` asks for one.
pub open spec fn name_at(b: Seq<u8>, off: int, preferred: bool) -> bool {
    match file_name_value(b, off) {
        Some(v) => !preferred || v[65] == NAMESPACE_WIN32 || v[65] == NAMESPACE_WIN32_AND_DOS,
        None => false,
    }
}

/// The offsets of an entry's attributes.
pub open spec fn entry_offsets(e: MftEntry) -> Seq<int> {
    attr_offsets(e.data@, e.header.first_attribute_offset as int)
}

/// Whether `e` has a FILE_NAME attribute, in a preferred namespace where
/// `preferred` asks for one.
pub open spec fn entry_has_name(e: MftEntry, preferred: bool) -> bool {
    exists|i: int| 0 <= i < entry_offsets(e).len() && name_at(e.data@, #[trigger] entry_offsets(e)[i], preferred)
}

/// Whether the `i`-th attribute of `e` is the one that names it: the first
/// FILE_NAME in a preferred namespace if there is one, else the first.
pub open spec fn is_naming_attribute(e: MftEntry, i: int) -> bool {
    let offs = entry_offsets(e);
    let p = entry_has_name(e, true);
    &&& 0 <= i < offs.len()
    &&& name_at(e.data@, offs[i], p)
    &&& forall|j: int| 0 <= j < i ==> !name_at(e.data@, #[trigger] offs[j], p)
}

/// The parent reference and name that the naming attribute of `e` gives;
/// none where `e` has no FILE_NAME attribute.
pub open spec fn link_spec(e: MftEntry) -> Option<(FileReference, Seq<char>)> {
    if exists|i: int| is_naming_attribute(e, i) {
        let i = choose|i: int| is_naming_attribute(e, i);
        let v = file_name_value(e.data@, entry_offsets(e)[i])->0;
        Some((reference_of(u64_at(v, 0) as u64), utf16le_text(v.subrange(66, 66 + 2 * v[64]))))
    } else {
        None
    }
}

/// The parent that the naming attribute of `e` gives.
pub open spec fn link_parent(e: MftEntry) -> FileReference {
    match link_spec(e) {
        Some(link) => link.0,
        None => reference_of_entry(e),
    }
}

/// The name that the naming attribute of `e` gives.
pub open spec fn link_name(e: MftEntry) -> Seq<char> {
    match link_spec(e) {
        Some(link) => link.1,
        None => Seq::empty(),
    }
}

proof fn lemma_naming_unique(e: MftEntry, i: int, j: int)
    requires
        is_naming_attribute(e, i),
        is_naming_attribute(e, j),
    ensures
        i == j,
{
    let offs = entry_offsets(e);
    let p = entry_has_name(e, true);
    if i < j {
        assert(!name_at(e.data@, offs[i], p));
    } else if j < i {
        assert(!name_at(e.data@, offs[j], p));
    }
}

proof fn lemma_outcome_names(b: Seq<u8>, off: int, r: Result<MftAttribute, AttributeError>)
    requires
        attribute_outcome(b, off, r),
    ensures
        is_file_name(r) <==> name_at(b, off, false),
        is_preferred_name(r) <==> name_at(b, off, true),
        is_file_name(r) ==> {
            let f = r->Ok_0.body->FileName_0;
            let v = file_name_value(b, off)->0;
            f.parent == reference_of(u64_at(v, 0) as u64) && f.name@ == utf16le_text(
                v.subrange(66, 66 + 2 * v[64]),
            )
        },
{
}

/// The parent reference and name that an entry's naming attribute gives.
fn file_name_link(e: &MftEntry) -> (r: Option<(FileReference, String)>)
    ensures
        r is None <==> !entry_has_name(*e, false),
        r is None ==> link_spec(*e) is None,
        r matches Some((parent, name)) ==> link_spec(*e) == Some((parent, name@)),
{
    let attrs = e.attributes();
    let ghost offs = entry_offsets(*e);
    let ghost b = e.data@;
    proof {
        assert forall|i: int| 0 <= i < attrs@.len() implies (is_file_name(#[trigger] attrs@[i])
            <==> name_at(b, offs[i], false)) && (is_preferred_name(attrs@[i]) <==> name_at(
            b,
            offs[i],
            true,
        )) by {
            lemma_outcome_names(b, offs[i], attrs@[i]);
        }
        if has_preferred(attrs@) {
            let w = choose|i: int| 0 <= i < attrs@.len() && is_preferred_name(#[trigger] attrs@[i]);
            assert(name_at(b, offs[w], true));
        }
        if entry_has_name(*e, true) {
            let w = choose|i: int| 0 <= i < offs.len() && name_at(b, #[trigger] offs[i], true);
            assert(is_preferred_name(attrs@[w]));
        }
        assert(has_preferred(attrs@) == entry_has_name(*e, true));
        if entry_has_name(*e, false) {
            let w = choose|i: int| 0 <= i < offs.len() && name_at(b, #[trigger] offs[i], false);
            assert(is_file_name(attrs@[w]));
        }
    }
    match pick_file_name(&attrs) {
        Some(i) => match &attrs[i] {
            Ok(a) => match &a.body {
                AttributeBody::FileName(f) => {
                    proof {
                        lemma_outcome_names(b, offs[i as int], attrs@[i as int]);
                        let p = has_preferred(attrs@);
                        assert forall|j: int| 0 <= j < i implies !name_at(b, #[trigger] offs[j], p) by {
                            assert(!(if p {
                                is_preferred_name(attrs@[j])
                            } else {
                                is_file_name(attrs@[j])
                            }));
                        }
                        assert(is_naming_attribute(*e, i as int));
                        let c = choose|c: int| is_naming_attribute(*e, c);
                        lemma_naming_unique(*e, c, i as int);
                    }
                    Some((f.parent, f.name.clone()))
                },
                _ => None,
            },
            Err(_) => None,
        },
        None => {
            proof {
                if exists|i: int| is_naming_attribute(*e, i) {
                    let c = choose|c: int| is_naming_attribute(*e, c);
                    assert(name_at(b, offs[c], false));
                }
            }
            None
        },
    }
}

/// A copy of the first `n` strings, text for text.
fn copy_prefix(v: &Vec<String>, n: usize) -> (r: Vec<String>)
    requires
        n <= v@.len(),
    ensures
        texts(r@) == texts(v@.take(n as int)),
{
    let mut r: Vec<String> = Vec::new();
    let mut i: usize = 0;
    while i < n
        invariant
            i <= n <= v@.len(),
            r@.len() == i,
            texts(r@) == texts(v@.take(i as int)),
        decreases n - i,
    {
        let ghost before = r@;
        r.push(v[i].clone());
        assert(texts(r@) =~= texts(v@.take(i + 1))) by {
            assert forall|j: int| 0 <= j < i + 1 implies #[trigger] texts(r@)[j] == texts(v@.take(i + 1))[j] by {
                if j < i {
                    assert(texts(before)[j] == texts(v@.take(i as int))[j]);
                }
            }
        }
        i = i + 1;
    }
    r
}

proof fn lemma_cached_kept(
    cache: Seq<(FileReference, ResolvedPath)>,
    key: FileReference,
    x: (FileReference, ResolvedPath),
)
    requires
        cached_in(cache, key) is Some,
    ensures
        cached_in(cache.push(x), key) == cached_in(cache, key),
    decreases cache.len(),
{
    if cache[0].0 != key {
        assert(cache.push(x).drop_first() =~= cache.drop_first().push(x));
        lemma_cached_kept(cache.drop_first(), key, x);
    }
}

/// A copy of the strings, text for text.
fn copy_strings(v: &Vec<String>) -> (r: Vec<String>)
    ensures
        texts(r@) == texts(v@),
{
    let mut r: Vec<String> = Vec::new();
    let mut i: usize = 0;
    while i < v.len()
        invariant
            i <= v@.len(),
            r@.len() == i,
            texts(r@) == texts(v@.take(i as int)),
        decreases v@.len() - i,
    {
        let ghost before = r@;
        let s = v[i].clone();
        r.push(s);
        assert(r@ == before.push(v@[i as int]));
        assert forall|j: int| 0 <= j < i + 1 implies #[trigger] texts(r@)[j] == texts(
            v@.take(i + 1),
        )[j] by {
            if j < i {
                assert(texts(before)[j] == texts(v@.take(i as int))[j]);
            }
        }
        assert(texts(r@) =~= texts(v@.take(i + 1)));
        i = i + 1;
    }
    assert(v@.take(i as int) =~= v@);
    r
}

/// The names in reverse order: from the root down when `names` goes from an
/// entry up.
pub open spec fn rev_texts(names: Seq<Seq<char>>) -> Seq<Seq<char>> {
    Seq::new(names.len(), |i: int| names[names.len() - 1 - i])
}

/// What a walk from `parent` yields: the names from the root down, the
/// status, and the indices it asks the lookup for, in order. `visited` holds
/// the indices already on the chain, `names` the names gathered so far from
/// the entry up, `answers` what the lookup gives to each request in turn, and
/// `fuel` how many more lookups the depth bound allows. A step stops at the
/// root, at an index already visited, or at a parent whose path is cached
/// (whose names then come first); otherwise it looks the parent up and stops
/// as `parent_status_spec` says, or at a parent with no FILE_NAME, or goes on
/// with the parent's name and the parent its naming attribute gives.
#[verifier::opaque]
pub open spec fn walk_model(
    parent: FileReference,
    visited: Seq<u64>,
    names: Seq<Seq<char>>,
    answers: Seq<Option<MftEntry>>,
    cache: Seq<(FileReference, ResolvedPath)>,
    fuel: nat,
) -> (Seq<Seq<char>>, PathStatus, Seq<u64>)
    decreases fuel,
{
    if parent.entry == ROOT_ENTRY_INDEX {
        (rev_texts(names), PathStatus::Complete, Seq::empty())
    } else if visited.contains(parent.entry) {
        (rev_texts(names), PathStatus::CyclePath, Seq::empty())
    } else if cached_in(cache, parent) is Some {
        let c = cached_in(cache, parent)->0;
        (c.0 + rev_texts(names), c.1, Seq::empty())
    } else if fuel == 0 {
        (rev_texts(names), PathStatus::TooDeep, Seq::empty())
    } else {
        let found = answers[0];
        match parent_status_spec(parent, visited, found) {
            Some(st) => (rev_texts(names), st, seq![parent.entry]),
            None => match link_spec(found->0) {
                None => (rev_texts(names), PathStatus::NoFileName, seq![parent.entry]),
                Some(link) => {
                    let rest = walk_model(
                        link.0,
                        visited.push(parent.entry),
                        names.push(link.1),
                        answers.drop_first(),
                        cache,
                        (fuel - 1) as nat,
                    );
                    (rest.0, rest.1, seq![parent.entry] + rest.2)
                },
            },
        }
    }
}

/// Where a walk goes after the lookup answered for `parent`.
pub enum StepOutcome {
    /// The walk stops with this status.
    Stop(PathStatus),
    /// The walk goes on to this parent, with this name in front.
    Next(FileReference, String),
}

/// The step after the lookup answered `found` for `parent`: stop as
/// `parent_status_spec` says, stop at a found entry without FILE_NAME, or go
/// on with the found entry's name and the parent its naming attribute gives.
pub fn step_after_lookup(parent: FileReference, visited: &Vec<u64>, found: &Option<MftEntry>) -> (r:
    StepOutcome)
    ensures
        parent_status_spec(parent, visited@, *found) matches Some(st) ==> r matches StepOutcome::Stop(
            s,
        ) && s == st,
        parent_status_spec(parent, visited@, *found) is None ==> found is Some,
        parent_status_spec(parent, visited@, *found) is None ==> match link_spec(found->0) {
            None => (r matches StepOutcome::Stop(s) && s == PathStatus::NoFileName),
            Some(link) => (r matches StepOutcome::Next(p, n) && p == link.0 && n@ == link.1),
        },
{
    match parent_status(parent, visited, found) {
        Some(st) => StepOutcome::Stop(st),
        None => match found {
            Some(e) => match file_name_link(e) {
                Some((p, n)) => StepOutcome::Next(p, n),
                None => StepOutcome::Stop(PathStatus::NoFileName),
            },
            None => StepOutcome::Stop(PathStatus::MissingParent),
        },
    }
}

/// A resolution session: its cache, and the lookups it has made.
pub struct PathResolver {
    /// Paths resolved so far, under the reference of the entry they name.
    pub cache: Vec<(FileReference, ResolvedPath)>,
    /// Most lookups that one resolution makes.
    pub max_depth: usize,
    /// The indices asked of the lookup so far, in order.
    pub requested: Vec<u64>,
    /// What the lookup answered to each request, in order.
    pub answers: Ghost<Seq<Option<MftEntry>>>,
}

impl PathResolver {
    /// The cached paths, in the order they were stored.
    pub open spec fn cache(&self) -> Seq<(FileReference, ResolvedPath)> {
        self.cache@
    }

    /// A session with an empty cache.
    pub fn new(max_depth: usize) -> (r: Self)
        ensures
            r.cache().len() == 0,
            r.max_depth == max_depth,
            r.requested@.len() == 0,
            r.answers@.len() == 0,
    {
        PathResolver { cache: Vec::new(), max_depth, requested: Vec::new(), answers: Ghost(Seq::empty()) }
    }

    fn find_cached(&self, key: FileReference) -> (r: Option<ResolvedPath>)
        ensures
            r is None <==> cached_in(self.cache(), key) is None,
            r is Some ==> cached_in(self.cache(), key) == Some(path_view(r->0)),
    {
        let mut i: usize = 0;
        assert(self.cache@.skip(0) =~= self.cache@);
        while i < self.cache.len()
            invariant
                i <= self.cache@.len(),
                cached_in(self.cache@, key) == cached_in(self.cache@.skip(i as int), key),
            decreases self.cache@.len() - i,
        {
            assert(self.cache@.skip(i as int).drop_first() =~= self.cache@.skip(i + 1));
            if self.cache[i].0 == key {
                let p = &self.cache[i].1;
                return Some(ResolvedPath { components: copy_strings(&p.components), status: p.status });
            }
            i = i + 1;
        }
        None
    }

    /// The full path of `entry`. The root entry resolves to no names,
    /// complete, with no lookup. A reference already resolved in this
    /// session gives its cached path back with no lookup. An entry without
    /// FILE_NAME gives no names. Otherwise the walk that `walk_model`
    /// describes runs from the parent of the entry's naming attribute, each
    /// lookup answer being logged in `answers`, and the result is cached
    /// under the entry's reference; where the walk reached the root, each
    /// ancestor's path (the result less the names below it) is cached under
    /// the ancestor's reference too.
    pub fn resolve<L: EntryLookup>(&mut self, entry: &MftEntry, lookup: &mut L) -> (r: ResolvedPath)
        ensures
            final(self).max_depth == old(self).max_depth,
            entry.header.record_number == ROOT_ENTRY_INDEX ==> path_view(r) == root_view()
                && final(self).requested == old(self).requested && final(self).cache() == old(
                self,
            ).cache(),
            entry.header.record_number != ROOT_ENTRY_INDEX && cached_in(
                old(self).cache(),
                reference_of_entry(*entry),
            ) is Some ==> Some(path_view(r)) == cached_in(
                old(self).cache(),
                reference_of_entry(*entry),
            ) && final(self).requested == old(self).requested && final(self).cache() == old(
                self,
            ).cache(),
            entry.header.record_number != ROOT_ENTRY_INDEX ==> cached_in(
                final(self).cache(),
                reference_of_entry(*entry),
            ) == Some(path_view(r)),
            entry.header.record_number != ROOT_ENTRY_INDEX && cached_in(
                old(self).cache(),
                reference_of_entry(*entry),
            ) is None ==> fresh_result(*entry, *old(self), *final(self), r),
            entry.header.record_number != ROOT_ENTRY_INDEX && cached_in(old(self).cache(), reference_of_entry(*entry)) is None ==> fresh_cases(*entry, *old(self), *final(self), r),
    {
        if entry.header.record_number == ROOT_ENTRY_INDEX {
            let r = ResolvedPath { components: Vec::new(), status: PathStatus::Complete };
            assert(texts(r.components@) =~= Seq::<Seq<char>>::empty());
            return r;
        }
        let key = FileReference { entry: entry.header.record_number, sequence: entry.header.sequence };
        match self.find_cached(key) {
            Some(p) => {
                return p;
            },
            None => {},
        }
        let (r, ancestors) = self.walk(entry, lookup);
        proof {
            lemma_fresh_cases(*entry, *old(self), *self, r);
        }
        let stored = ResolvedPath { components: copy_strings(&r.components), status: r.status };
        let ghost before = self.cache@;
        self.cache.push((key, stored));
        proof {
            lemma_cached_after_push(before, key, stored);
        }
        self.cache_ancestors(&r, &ancestors, key);
        r
    }

    /// Where `r` reached the root, caches under each ancestor's reference the
    /// part of `r` down to that ancestor.
    fn cache_ancestors(&mut self, r: &ResolvedPath, ancestors: &Vec<FileReference>, key: FileReference)
        requires
            cached_in(old(self).cache@, key) is Some,
        ensures
            final(self).max_depth == old(self).max_depth,
            final(self).requested == old(self).requested,
            final(self).answers == old(self).answers,
            cached_in(final(self).cache@, key) == cached_in(old(self).cache@, key),
    {
        if r.status != PathStatus::Complete {
            return;
        }
        let n = r.components.len();
        let mut j: usize = 0;
        while j < ancestors.len() && j < n
            invariant
                n == r.components@.len(),
                cached_in(self.cache@, key) == cached_in(old(self).cache@, key),
                cached_in(self.cache@, key) is Some,
                self.max_depth == old(self).max_depth,
                self.requested == old(self).requested,
                self.answers == old(self).answers,
            decreases ancestors@.len() - j,
        {
            let path = ResolvedPath {
                components: copy_prefix(&r.components, n - 1 - j),
                status: PathStatus::Complete,
            };
            let ghost c = self.cache@;
            self.cache.push((ancestors[j], path));
            proof {
                lemma_cached_kept(c, key, (ancestors[j as int], path));
            }
            j = j + 1;
        }
    }

    #[verifier::rlimit(100)]
    fn walk<L: EntryLookup>(&mut self, entry: &MftEntry, lookup: &mut L) -> (out: (ResolvedPath, Vec<FileReference>))
        ensures
            final(self).max_depth == old(self).max_depth,
            final(self).cache() == old(self).cache(),
            fresh_result(*entry, *old(self), *final(self), out.0),
    {
        let mut ancestors: Vec<FileReference> = Vec::new();
        let (mut parent, first) = match file_name_link(entry) {
            Some(link) => link,
            None => {
                let r = ResolvedPath { components: Vec::new(), status: PathStatus::NoFileName };
                assert(texts(r.components@) =~= Seq::<Seq<char>>::empty());
                return (r, ancestors);
            },
        };
        let ghost p0 = parent;
        let ghost v0 = seq![entry.header.record_number];
        let ghost n0 = seq![first@];
        assert(link_spec(*entry) == Some((p0, first@)));
        let ghost fuel0 = self.max_depth as nat;
        let ghost cache = self.cache@;
        let ghost req0 = self.requested@;
        let ghost ans0 = self.answers@;
        let mut names: Vec<String> = Vec::new();
        names.push(first);
        let mut visited: Vec<u64> = Vec::new();
        visited.push(entry.header.record_number);
        assert(visited@ =~= v0);
        assert(texts(names@) =~= n0);
        let mut prefix: Vec<String> = Vec::new();
        let mut status = PathStatus::TooDeep;
        let mut steps: usize = 0;
        let ghost mut done: Seq<Option<MftEntry>> = Seq::empty();
        let ghost mut asked: Seq<u64> = Seq::empty();
        assert forall|a: Seq<Option<MftEntry>>| #[trigger] walk_model(p0, v0, n0, done + a, cache, fuel0)
            == {
            let m = walk_model(parent, visited@, texts(names@), a, cache, fuel0);
            (m.0, m.1, asked + m.2)
        } by {
            assert(done + a =~= a);
            assert(asked + walk_model(parent, visited@, texts(names@), a, cache, fuel0).2 =~= walk_model(parent, visited@, texts(names@), a, cache, fuel0).2);
        }
        loop
            invariant_except_break
                steps <= self.max_depth,
                self.max_depth == old(self).max_depth,
                self.cache@ == cache,
                cache == old(self).cache@,
                fuel0 == self.max_depth,
                self.requested@ == req0 + asked,
                self.answers@ == ans0 + done,
                req0 == old(self).requested@,
                ans0 == old(self).answers@,
                prefix@.len() == 0,
                forall|a: Seq<Option<MftEntry>>| #[trigger] walk_model(p0, v0, n0, done + a, cache, fuel0)
                    == {
                    let m = walk_model(parent, visited@, texts(names@), a, cache, (fuel0 - steps) as nat);
                    (m.0, m.1, asked + m.2)
                },
            ensures
                self.max_depth == old(self).max_depth,
                self.cache@ == old(self).cache@,
                self.requested@ == old(self).requested@ + asked,
                self.answers@ == old(self).answers@ + done,
                walk_model(p0, v0, n0, done, cache, fuel0) == (texts(prefix@) + rev_texts(texts(names@)), status, asked),
            decreases self.max_depth - steps,
        {
            let ghost m_here = walk_model(parent, visited@, texts(names@), Seq::empty(), cache, (fuel0 - steps) as nat);
            proof {
                assert(done + Seq::<Option<MftEntry>>::empty() =~= done);
            }
            match needs_lookup(parent, &visited) {
                Some(st) => {
                    status = st;
                    proof {
                        lemma_model_no_lookup(parent, visited@, texts(names@), Seq::empty(), cache, (fuel0 - steps) as nat, st);
                        assert(texts(prefix@) + rev_texts(texts(names@)) =~= rev_texts(texts(names@)));
                        assert(asked + Seq::<u64>::empty() =~= asked);
                        assert(walk_model(p0, v0, n0, done + Seq::empty(), cache, fuel0) == (m_here.0, m_here.1, asked + m_here.2));
                    }
                    break;
                },
                None => {},
            }
            match self.find_cached(parent) {
                Some(p) => {
                    prefix = p.components;
                    status = p.status;
                    proof {
                        lemma_model_cached(parent, visited@, texts(names@), Seq::empty(), cache, (fuel0 - steps) as nat, path_view(p));
                        assert(asked + Seq::<u64>::empty() =~= asked);
                        assert(walk_model(p0, v0, n0, done + Seq::empty(), cache, fuel0) == (m_here.0, m_here.1, asked + m_here.2));
                    }
                    break;
                },
                None => {},
            }
            if steps == self.max_depth {
                status = PathStatus::TooDeep;
                proof {
                    lemma_model_depth(parent, visited@, texts(names@), Seq::empty(), cache);
                    assert(texts(prefix@) + rev_texts(texts(names@)) =~= rev_texts(texts(names@)));
                    assert(asked + Seq::<u64>::empty() =~= asked);
                    assert(walk_model(p0, v0, n0, done + Seq::empty(), cache, fuel0) == (m_here.0, m_here.1, asked + m_here.2));
                }
                break;
            }
            let found = lookup.lookup(parent.entry);
            let ghost old_done = done;
            let ghost old_asked = asked;
            let ghost old_names = texts(names@);
            let ghost old_visited = visited@;
            let ghost old_parent = parent;
            self.requested.push(parent.entry);
            proof {
                done = done.push(found);
                asked = asked.push(parent.entry);
                self.answers = Ghost(self.answers@.push(found));
                assert(self.answers@ =~= ans0 + done);
                assert(self.requested@ =~= req0 + asked);
                assert forall|a: Seq<Option<MftEntry>>| done + a == old_done + (seq![found] + a) by {
                    assert(done + a =~= old_done + (seq![found] + a));
                }
            }
            match step_after_lookup(parent, &visited, &found) {
                StepOutcome::Stop(st) => {
                    status = st;
                    proof {
                        let a = Seq::<Option<MftEntry>>::empty();
                        lemma_model_looked_up(old_parent, old_visited, old_names, found, a, cache, (fuel0 - steps) as nat);
                        assert(done + a == old_done + (seq![found] + a));
                        assert((seq![found] + a)[0] == found);
                        let m = walk_model(old_parent, old_visited, old_names, seq![found] + a, cache, (fuel0 - steps) as nat);
                        assert(walk_model(p0, v0, n0, old_done + (seq![found] + a), cache, fuel0) == (m.0, m.1, old_asked + m.2));
                        assert(old_asked + m.2 =~= asked);
                        assert(texts(prefix@) + rev_texts(texts(names@)) =~= rev_texts(texts(names@)));
                        assert(done + a =~= done);
                    }
                    break;
                },
                StepOutcome::Next(next, name) => {
                    let ghost nm = name@;
                    names.push(name);
                    visited.push(parent.entry);
                    ancestors.push(parent);
                    parent = next;
                    proof {
                        assert(texts(names@) =~= old_names.push(nm));
                        assert(visited@ =~= old_visited.push(old_parent.entry));
                        assert forall|a: Seq<Option<MftEntry>>| #[trigger] walk_model(p0, v0, n0, done + a, cache, fuel0)
                            == {
                            let m = walk_model(parent, visited@, texts(names@), a, cache, (fuel0 - (steps + 1)) as nat);
                            (m.0, m.1, asked + m.2)
                        } by {
                            assert(done + a == old_done + (seq![found] + a));
                            lemma_model_looked_up(old_parent, old_visited, old_names, found, a, cache, (fuel0 - steps) as nat);
                            let m1 = walk_model(old_parent, old_visited, old_names, seq![found] + a, cache, (fuel0 - steps) as nat);
                            let m2 = walk_model(parent, visited@, texts(names@), a, cache, (fuel0 - (steps + 1)) as nat);
                            assert(m1 == (m2.0, m2.1, seq![old_parent.entry] + m2.2));
                            assert(old_asked + (seq![old_parent.entry] + m2.2) =~= asked + m2.2);
                        }
                    }
                },
            }
            steps = steps + 1;
        }
        let components = join_path(prefix, &names);
        let r = ResolvedPath { components, status };
        proof {
            assert(self.answers@.skip(ans0.len() as int) =~= done);
            assert(link_spec(*entry) == Some((p0, n0[0])));
            assert(seq![n0[0]] =~= n0);
            assert(path_view(r) == (texts(prefix@) + rev_texts(texts(names@)), status));
        }
        (r, ancestors)
    }
}

proof fn lemma_model_no_lookup(
    parent: FileReference,
    visited: Seq<u64>,
    names: Seq<Seq<char>>,
    answers: Seq<Option<MftEntry>>,
    cache: Seq<(FileReference, ResolvedPath)>,
    fuel: nat,
    st: PathStatus,
)
    requires
        parent.entry == ROOT_ENTRY_INDEX || visited.contains(parent.entry),
        parent_status_spec(parent, visited, None) == Some(st),
    ensures
        walk_model(parent, visited, names, answers, cache, fuel) == (rev_texts(names), st, Seq::<u64>::empty()),
{
    reveal(walk_model);
}

proof fn lemma_model_cached(
    parent: FileReference,
    visited: Seq<u64>,
    names: Seq<Seq<char>>,
    answers: Seq<Option<MftEntry>>,
    cache: Seq<(FileReference, ResolvedPath)>,
    fuel: nat,
    c: (Seq<Seq<char>>, PathStatus),
)
    requires
        parent.entry != ROOT_ENTRY_INDEX,
        !visited.contains(parent.entry),
        cached_in(cache, parent) == Some(c),
    ensures
        walk_model(parent, visited, names, answers, cache, fuel) == (c.0 + rev_texts(names), c.1, Seq::<u64>::empty()),
{
    reveal(walk_model);
}

proof fn lemma_model_depth(
    parent: FileReference,
    visited: Seq<u64>,
    names: Seq<Seq<char>>,
    answers: Seq<Option<MftEntry>>,
    cache: Seq<(FileReference, ResolvedPath)>,
)
    requires
        parent.entry != ROOT_ENTRY_INDEX,
        !visited.contains(parent.entry),
        cached_in(cache, parent) is None,
    ensures
        walk_model(parent, visited, names, answers, cache, 0) == (rev_texts(names), PathStatus::TooDeep, Seq::<u64>::empty()),
{
    reveal(walk_model);
}

proof fn lemma_model_looked_up(
    parent: FileReference,
    visited: Seq<u64>,
    names: Seq<Seq<char>>,
    found: Option<MftEntry>,
    a: Seq<Option<MftEntry>>,
    cache: Seq<(FileReference, ResolvedPath)>,
    fuel: nat,
)
    requires
        parent.entry != ROOT_ENTRY_INDEX,
        !visited.contains(parent.entry),
        cached_in(cache, parent) is None,
        fuel > 0,
    ensures
        walk_model(parent, visited, names, seq![found] + a, cache, fuel) == match parent_status_spec(parent, visited, found) {
            Some(st) => (rev_texts(names), st, seq![parent.entry]),
            None => match link_spec(found->0) {
                None => (rev_texts(names), PathStatus::NoFileName, seq![parent.entry]),
                Some(link) => {
                    let rest = walk_model(link.0, visited.push(parent.entry), names.push(link.1), a, cache, (fuel - 1) as nat);
                    (rest.0, rest.1, seq![parent.entry] + rest.2)
                },
            },
        },
{
    reveal(walk_model);
    assert((seq![found] + a)[0] == found);
    assert((seq![found] + a).drop_first() =~= a);
}

proof fn lemma_model_asks_each_once(
    parent: FileReference,
    visited: Seq<u64>,
    names: Seq<Seq<char>>,
    answers: Seq<Option<MftEntry>>,
    cache: Seq<(FileReference, ResolvedPath)>,
    fuel: nat,
)
    ensures
        ({
            let asked = walk_model(parent, visited, names, answers, cache, fuel).2;
            &&& asked.len() <= fuel
            &&& forall|i: int| 0 <= i < asked.len() ==> !visited.contains(#[trigger] asked[i])
            &&& forall|i: int, j: int| 0 <= i < j < asked.len() ==> asked[i] != asked[j]
        }),
    decreases fuel,
{
    reveal(walk_model);
    if parent.entry != ROOT_ENTRY_INDEX && !visited.contains(parent.entry) && cached_in(cache, parent)
        is None && fuel > 0 {
        let found = answers[0];
        if parent_status_spec(parent, visited, found) is None {
            if let Some(link) = link_spec(found->0) {
                let v2 = visited.push(parent.entry);
                lemma_model_asks_each_once(link.0, v2, names.push(link.1), answers.drop_first(), cache, (fuel - 1) as nat);
                let rest = walk_model(link.0, v2, names.push(link.1), answers.drop_first(), cache, (fuel - 1) as nat).2;
                let asked = seq![parent.entry] + rest;
                assert(v2[visited.len() as int] == parent.entry);
                assert(v2.contains(parent.entry));
                assert forall|i: int| 0 <= i < asked.len() implies !visited.contains(#[trigger] asked[i]) by {
                    if i > 0 {
                        assert(asked[i] == rest[i - 1]);
                        if visited.contains(asked[i]) {
                            let w = choose|w: int| 0 <= w < visited.len() && visited[w] == asked[i];
                            assert(v2[w] == asked[i]);
                        }
                    }
                }
                assert forall|i: int, j: int| 0 <= i < j < asked.len() implies asked[i] != asked[j] by {
                    if i == 0 {
                        assert(asked[j] == rest[j - 1]);
                        assert(!v2.contains(rest[j - 1]));
                    } else {
                        assert(asked[i] == rest[i - 1] && asked[j] == rest[j - 1]);
                    }
                }
            }
        }
    }
}

/// The consequences of `fresh_result` that callers most often need. The
/// requests are at most the depth bound in number, each for a different
/// index, none for the entry's own. Where the naming parent is the root, the
/// path is the entry's own name, complete. Where it is the entry itself, that
/// name with `CyclePath`. Where its path is cached, that path and then the
/// entry's name. All three make no lookup. Otherwise the first request is for
/// the naming parent's index.
pub open spec fn fresh_cases(e: MftEntry, before: PathResolver, after: PathResolver, r: ResolvedPath) -> bool {
    match link_spec(e) {
        None => true,
        Some(link) => {
            let asked = after.requested@.skip(before.requested@.len() as int);
            let p = link.0;
            &&& asked.len() <= before.max_depth
            &&& forall|i: int| 0 <= i < asked.len() ==> #[trigger] asked[i] != e.header.record_number
            &&& forall|i: int, j: int| 0 <= i < j < asked.len() ==> asked[i] != asked[j]
            &&& if p.entry == ROOT_ENTRY_INDEX {
                path_view(r) == (seq![link.1], PathStatus::Complete) && after.requested@ == before.requested@
            } else if p.entry == e.header.record_number {
                path_view(r) == (seq![link.1], PathStatus::CyclePath) && after.requested@ == before.requested@
            } else {
                match cached_in(before.cache(), p) {
                    Some(c) => path_view(r) == (c.0.push(link.1), c.1) && after.requested@ == before.requested@,
                    None => before.max_depth > 0 ==> asked.len() > 0 && asked[0] == p.entry,
                }
            }
        },
    }
}

/// What the walk model gives in the cases where the lookup does not decide:
/// the parent is the root, the entry itself, or already cached.
proof fn lemma_fresh_cases(e: MftEntry, before: PathResolver, after: PathResolver, r: ResolvedPath)
    requires
        fresh_result(e, before, after, r),
    ensures
        fresh_cases(e, before, after, r),
{
    if let Some(link) = link_spec(e) {
        let answers = after.answers@.skip(before.answers@.len() as int);
        let v = seq![e.header.record_number];
        let n = seq![link.1];
        let fuel = before.max_depth as nat;
        let m = walk_model(link.0, v, n, answers, before.cache(), fuel);
        assert(rev_texts(n) =~= n);
        assert(after.requested@.skip(before.requested@.len() as int) =~= m.2);
        lemma_model_asks_each_once(link.0, v, n, answers, before.cache(), fuel);
        assert forall|i: int| 0 <= i < m.2.len() implies #[trigger] m.2[i] != e.header.record_number by {
            if m.2[i] == e.header.record_number {
                assert(v[0] == m.2[i]);
            }
        }
        if link.0.entry == ROOT_ENTRY_INDEX {
            lemma_model_no_lookup(link.0, v, n, answers, before.cache(), fuel, PathStatus::Complete);
            assert(after.requested@ =~= before.requested@);
        } else if link.0.entry == e.header.record_number {
            assert(v[0] == link.0.entry);
            lemma_model_no_lookup(link.0, v, n, answers, before.cache(), fuel, PathStatus::CyclePath);
            assert(after.requested@ =~= before.requested@);
        } else {
            assert(!v.contains(link.0.entry)) by {
                if v.contains(link.0.entry) {
                    let w = choose|w: int| 0 <= w < v.len() && v[w] == link.0.entry;
                    assert(w == 0);
                }
            }
            if let Some(c) = cached_in(before.cache(), link.0) {
                lemma_model_cached(link.0, v, n, answers, before.cache(), fuel, c);
                assert(c.0 + rev_texts(n) =~= c.0.push(link.1));
                assert(after.requested@ =~= before.requested@);
            } else if fuel > 0 {
                reveal(walk_model);
                assert(m.2.len() >= 1 && m.2[0] == link.0.entry);
            }
        }
    }
}

/// A chain that comes back on itself, A to B to A, ends in `CyclePath` with
/// both names, B's above A's, after one lookup (for B), whatever the depth
/// bound beyond one.
#[verifier::rlimit(50)]
pub proof fn lemma_two_cycle(
    a: MftEntry,
    b: MftEntry,
    answers: Seq<Option<MftEntry>>,
    cache: Seq<(FileReference, ResolvedPath)>,
    fuel: nat,
)
    requires
        link_spec(a) is Some,
        link_spec(b) is Some,
        link_parent(a) == reference_of_entry(b),
        link_parent(b).entry == a.header.record_number,
        a.header.record_number != ROOT_ENTRY_INDEX,
        b.header.record_number != ROOT_ENTRY_INDEX,
        a.header.record_number != b.header.record_number,
        cached_in(cache, reference_of_entry(b)) is None,
        fuel >= 1,
        answers.len() >= 1,
        answers[0] == Some(b),
    ensures
        walk_model(
            reference_of_entry(b),
            seq![a.header.record_number],
            seq![link_name(a)],
            answers,
            cache,
            fuel,
        ) == (seq![link_name(b), link_name(a)], PathStatus::CyclePath, seq![b.header.record_number]),
{
    let rb = reference_of_entry(b);
    let v = seq![a.header.record_number];
    let n = seq![link_name(a)];
    assert(!v.contains(rb.entry)) by {
        if v.contains(rb.entry) {
            let w = choose|w: int| 0 <= w < v.len() && v[w] == rb.entry;
            assert(w == 0);
        }
    }
    assert(answers =~= seq![Some(b)] + answers.drop_first());
    assert(parent_status_spec(rb, v, Some(b)) is None);
    assert(link_spec(b) == Some((link_parent(b), link_name(b))));
    lemma_model_looked_up(rb, v, n, Some(b), answers.drop_first(), cache, fuel);
    let lb = (link_parent(b), link_name(b));
    let v2 = v.push(rb.entry);
    let n2 = n.push(lb.1);
    assert(v2[0] == lb.0.entry);
    assert(v2.contains(lb.0.entry));
    assert(parent_status_spec(lb.0, v2, None) == Some(PathStatus::CyclePath));
    lemma_model_no_lookup(lb.0, v2, n2, answers.drop_first(), cache, (fuel - 1) as nat, PathStatus::CyclePath);
    assert(rev_texts(n2) =~= seq![lb.1, link_name(a)]);
    assert(seq![rb.entry] + Seq::<u64>::empty() =~= seq![b.header.record_number]);
}

/// `prefix` followed by `names` in reverse order.
fn join_path(prefix: Vec<String>, names: &Vec<String>) -> (r: Vec<String>)
    ensures
        texts(r@) == texts(prefix@) + rev_texts(texts(names@)),
{
    let mut components = prefix;
    let ghost pre = texts(components@);
    let ghost rn = rev_texts(texts(names@));
    let n = names.len();
    let mut k: usize = n;
    assert(pre + rn.take(0) =~= pre);
    while k > 0
        invariant
            k <= n == names@.len(),
            rn == rev_texts(texts(names@)),
            texts(components@) == pre + rn.take(n - k),
        decreases k,
    {
        k = k - 1;
        let ghost before = components@;
        let s = names[k].clone();
        components.push(s);
        proof {
            assert(components@ == before.push(names@[k as int]));
            assert(texts(components@) =~= texts(before).push(names@[k as int]@));
            assert(rn[n - 1 - k] == names@[k as int]@);
            assert(rn.take(n - k) =~= rn.take(n - k - 1).push(rn[n - 1 - k]));
            assert(texts(components@) =~= pre + rn.take(n - k));
        }
    }
    assert(rn.take(n as int) =~= rn);
    components
}

/// What a resolution that found nothing cached gives: no names where the
/// entry has no FILE_NAME, with no lookup; otherwise what `walk_model` says
/// of the walk from the parent of the entry's naming attribute, over the
/// answers this resolution logged, and the requests it logged are the ones
/// the model asks for.
pub open spec fn fresh_result(e: MftEntry, before: PathResolver, after: PathResolver, r: ResolvedPath) -> bool {
    match link_spec(e) {
        None => path_view(r) == (Seq::<Seq<char>>::empty(), PathStatus::NoFileName)
            && after.requested@ == before.requested@ && after.answers@ == before.answers@,
        Some(link) => {
            let answers = after.answers@.skip(before.answers@.len() as int);
            let m = walk_model(
                link.0,
                seq![e.header.record_number],
                seq![link.1],
                answers,
                before.cache(),
                before.max_depth as nat,
            );
            &&& after.answers@.len() >= before.answers@.len()
            &&& path_view(r) == (m.0, m.1)
            &&& after.requested@ == before.requested@ + m.2
        },
    }
}

/// Where a step to `parent` stops, if it does: at the root, at an index the
/// walk has already visited, where the lookup had no entry, or where the
/// entry found has another sequence number. `found` is what the lookup gave,
/// or none where the step stopped before looking.
pub open spec fn parent_status_spec(
    parent: FileReference,
    visited: Seq<u64>,
    found: Option<MftEntry>,
) -> Option<PathStatus> {
    if parent.entry == ROOT_ENTRY_INDEX {
        Some(PathStatus::Complete)
    } else if visited.contains(parent.entry) {
        Some(PathStatus::CyclePath)
    } else {
        match found {
            None => Some(PathStatus::MissingParent),
            Some(e) => if e.header.sequence != parent.sequence {
                Some(PathStatus::StaleParent)
            } else {
                None
            },
        }
    }
}

/// Whether a step to `parent` needs the lookup: it is neither the root nor
/// an index already visited.
pub fn needs_lookup(parent: FileReference, visited: &Vec<u64>) -> (r: Option<PathStatus>)
    ensures
        r is None <==> parent.entry != ROOT_ENTRY_INDEX && !visited@.contains(parent.entry),
        r is Some ==> Some(r->0) == parent_status_spec(parent, visited@, None),
{
    if parent.entry == ROOT_ENTRY_INDEX {
        Some(PathStatus::Complete)
    } else if contains_index(visited, parent.entry) {
        Some(PathStatus::CyclePath)
    } else {
        None
    }
}

/// Where a step to `parent` stops once the lookup has answered with
/// `found`; none where the walk goes on to the parent's own name.
pub fn parent_status(parent: FileReference, visited: &Vec<u64>, found: &Option<MftEntry>) -> (r:
    Option<PathStatus>)
    ensures
        r == parent_status_spec(parent, visited@, *found),
{
    match needs_lookup(parent, visited) {
        Some(st) => Some(st),
        None => match found {
            None => Some(PathStatus::MissingParent),
            Some(e) => if e.header.sequence != parent.sequence {
                Some(PathStatus::StaleParent)
            } else {
                None
            },
        },
    }
}

fn contains_index(v: &Vec<u64>, x: u64) -> (r: bool)
    ensures
        r == v@.contains(x),
{
    let mut i: usize = 0;
    while i < v.len()
        invariant
            i <= v@.len(),
            forall|j: int| 0 <= j < i ==> v@[j] != x,
        decreases v@.len() - i,
    {
        if v[i] == x {
            assert(v@[i as int] == x);
            return true;
        }
        i = i + 1;
    }
    false
}

proof fn lemma_cached_after_push(
    cache: Seq<(FileReference, ResolvedPath)>,
    key: FileReference,
    p: ResolvedPath,
)
    requires
        cached_in(cache, key) is None,
    ensures
        cached_in(cache.push((key, p)), key) == Some(path_view(p)),
    decreases cache.len(),
{
    if cache.len() > 0 {
        assert(cache.push((key, p)).drop_first() =~= cache.drop_first().push((key, p)));
        lemma_cached_after_push(cache.drop_first(), key, p);
    }
}

} // verus!
