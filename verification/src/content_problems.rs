//! Problems with authored content, keyed by the file they are in: per file, and replaced
//! wholesale each time the file is recompiled.

use vstd::prelude::*;
use crate::text::chars_of;

verus! {

/// How bad a content problem is.
#[derive(Clone, Copy, PartialEq, Eq, Debug, Structural)]
pub enum ProblemSeverity {
    Warning,
    Error,
}

/// One problem with one file.
pub struct ContentProblem {
    pub severity: ProblemSeverity,
    /// What went wrong, in the compiler's own words.
    pub message: String,
    /// Line in the generated shader, where the producer can place one.
    pub line: Option<usize>,
}

/// The order of two strings by code point, which is the byte order of their UTF-8 encodings:
/// `a` comes strictly before `b`.
pub open spec fn str_lt(a: Seq<char>, b: Seq<char>) -> bool
    decreases a.len(),
{
    if a.len() == 0 {
        b.len() > 0
    } else if b.len() == 0 {
        false
    } else if a[0] != b[0] {
        a[0] < b[0]
    } else {
        str_lt(a.drop_first(), b.drop_first())
    }
}

/// `str_lt` is irreflexive.
pub proof fn lemma_str_lt_irreflexive(a: Seq<char>)
    ensures
        !str_lt(a, a),
    decreases a.len(),
{
    if a.len() > 0 {
        lemma_str_lt_irreflexive(a.drop_first());
    }
}

/// `str_lt` is asymmetric, and total on distinct strings.
pub proof fn lemma_str_lt_strict_total(a: Seq<char>, b: Seq<char>)
    ensures
        !str_lt(a, a),
        str_lt(a, b) ==> !str_lt(b, a),
        a != b ==> str_lt(a, b) || str_lt(b, a),
    decreases a.len() + b.len(),
{
    lemma_str_lt_irreflexive(a);
    if a.len() > 0 && b.len() > 0 {
        lemma_str_lt_strict_total(a.drop_first(), b.drop_first());
        if a[0] == b[0] && a.drop_first() == b.drop_first() {
            assert(a =~= seq![a[0]] + a.drop_first());
            assert(b =~= seq![b[0]] + b.drop_first());
        }
    } else if a.len() == 0 && b.len() == 0 {
        assert(a =~= b);
    }
}

/// `str_lt` is transitive.
pub proof fn lemma_str_lt_transitive(a: Seq<char>, b: Seq<char>, c: Seq<char>)
    requires
        str_lt(a, b),
        str_lt(b, c),
    ensures
        str_lt(a, c),
    decreases a.len(),
{
    if a.len() > 0 && b.len() > 0 && c.len() > 0 && a[0] == b[0] && b[0] == c[0] {
        lemma_str_lt_transitive(a.drop_first(), b.drop_first(), c.drop_first());
    }
}

/// How one string compares with another.
pub enum TextOrder {
    Less,
    Equal,
    Greater,
}

/// Compares `a` with `b` in `str_lt` order.
pub fn compare_chars(a: &[char], b: &[char]) -> (o: TextOrder)
    ensures
        o is Less <==> str_lt(a@, b@),
        o is Equal <==> a@ == b@,
        o is Greater <==> str_lt(b@, a@),
{
    proof {
        lemma_str_lt_strict_total(a@, b@);
        lemma_str_lt_irreflexive(b@);
    }
    let mut i: usize = 0;
    assert(a@.skip(0) =~= a@);
    assert(b@.skip(0) =~= b@);
    while i < a.len() && i < b.len() && a[i] == b[i]
        invariant
            i <= a@.len(),
            i <= b@.len(),
            a@.take(i as int) == b@.take(i as int),
            str_lt(a@, b@) == str_lt(a@.skip(i as int), b@.skip(i as int)),
            str_lt(b@, a@) == str_lt(b@.skip(i as int), a@.skip(i as int)),
        decreases a@.len() - i,
    {
        assert(a@.skip(i as int).drop_first() =~= a@.skip(i + 1));
        assert(b@.skip(i as int).drop_first() =~= b@.skip(i + 1));
        assert(a@.take(i + 1) =~= a@.take(i as int).push(a@[i as int]));
        assert(b@.take(i + 1) =~= b@.take(i as int).push(b@[i as int]));
        i = i + 1;
    }
    if i == a.len() && i == b.len() {
        assert(a@ =~= a@.take(i as int));
        assert(b@ =~= b@.take(i as int));
        TextOrder::Equal
    } else if i == a.len() {
        assert(a@.skip(i as int).len() == 0);
        assert(a@.len() != b@.len());
        TextOrder::Less
    } else if i == b.len() {
        assert(b@.skip(i as int).len() == 0);
        assert(a@.len() != b@.len());
        TextOrder::Greater
    } else {
        assert(a@.skip(i as int)[0] == a@[i as int]);
        assert(b@.skip(i as int)[0] == b@[i as int]);
        assert(a@[i as int] != b@[i as int]);
        if a[i] < b[i] {
            TextOrder::Less
        } else {
            TextOrder::Greater
        }
    }
}


/// What a list of entries knows: `(path, problems)` pairs.
pub type Listing = Seq<(Seq<char>, Seq<ContentProblem>)>;

/// Paths strictly ascending, every list non-empty.
pub open spec fn well_formed(entries: Listing) -> bool {
    &&& forall|i: int, j: int|
        #![trigger entries[i], entries[j]]
        0 <= i < j < entries.len() ==> str_lt(entries[i].0, entries[j].0)
    &&& forall|i: int| 0 <= i < entries.len() ==> #[trigger] entries[i].1.len() > 0
}

/// The problems known for each path.
pub open spec fn as_map(entries: Listing) -> Map<Seq<char>, Seq<ContentProblem>>
    decreases entries.len(),
{
    if entries.len() == 0 {
        Map::empty()
    } else {
        as_map(entries.drop_last()).insert(entries.last().0, entries.last().1)
    }
}

/// The problems of `list` with severity `sev`, in order.
pub open spec fn only(list: Seq<ContentProblem>, sev: ProblemSeverity) -> Seq<ContentProblem>
    decreases list.len(),
{
    if list.len() == 0 {
        seq![]
    } else {
        let rest = only(list.drop_last(), sev);
        if list.last().severity == sev {
            rest.push(list.last())
        } else {
            rest
        }
    }
}

/// `list` with each problem tagged by `path`.
pub open spec fn tagged(path: Seq<char>, list: Seq<ContentProblem>) -> Seq<(Seq<char>, ContentProblem)> {
    list.map_values(|p: ContentProblem| (path, p))
}

/// Every `(path, problem)` pair in path order, errors before warnings within a path.
pub open spec fn listing(entries: Listing) -> Seq<(Seq<char>, ContentProblem)>
    decreases entries.len(),
{
    if entries.len() == 0 {
        seq![]
    } else {
        let (path, list) = entries.last();
        listing(entries.drop_last()) + tagged(path, only(list, ProblemSeverity::Error)) + tagged(
            path,
            only(list, ProblemSeverity::Warning),
        )
    }
}

/// The number of problems of severity `sev` in `items`.
pub open spec fn count_of(items: Seq<(Seq<char>, ContentProblem)>, sev: ProblemSeverity) -> nat
    decreases items.len(),
{
    if items.len() == 0 {
        0
    } else {
        count_of(items.drop_last(), sev) + if items.last().1.severity == sev {
            1nat
        } else {
            0nat
        }
    }
}

/// Problems by source path, project-relative, kept in path order so a panel listing them is the
/// same every frame.
///
/// The entries are a vector sorted by path, with no path twice, rather than a `BTreeMap`: vstd
/// specifies `BTreeMap` only for keys whose ordering it specifies, and it specifies none for
/// `String`, so nothing about such a map could be proved here.
pub struct ContentProblems {
    entries: Vec<(String, Vec<ContentProblem>)>,
}

impl View for ContentProblems {
    type V = Listing;

    closed spec fn view(&self) -> Listing {
        self.entries@.map_values(|e: (String, Vec<ContentProblem>)| (e.0@, e.1@))
    }
}

/// Where `path` is, or would go, among the entries.
pub open spec fn slot(entries: Listing, path: Seq<char>, i: int) -> bool {
    &&& 0 <= i <= entries.len()
    &&& forall|j: int| 0 <= j < i ==> str_lt(#[trigger] entries[j].0, path)
    &&& i < entries.len() ==> !str_lt(entries[i].0, path)
}

/// In a well-formed listing, the path at `i` is `path` exactly when `path` is known, and the
/// map's entry there is the list.
pub proof fn lemma_slot(entries: Listing, path: Seq<char>, i: int)
    requires
        well_formed(entries),
        slot(entries, path, i),
    ensures
        as_map(entries).contains_key(path) <==> (i < entries.len() && entries[i].0 == path),
        i < entries.len() && entries[i].0 == path ==> as_map(entries)[path] == entries[i].1,
    decreases entries.len(),
{
    lemma_as_map_key(entries, path);
    if i < entries.len() && entries[i].0 == path {
        lemma_as_map_at(entries, i);
    } else if as_map(entries).contains_key(path) {
        let k = choose|k: int| 0 <= k < entries.len() && entries[k].0 == path;
        lemma_str_lt_irreflexive(path);
        if k < i {
            assert(str_lt(entries[k].0, path));
        } else {
            assert(k > i);
            assert(str_lt(entries[i].0, entries[k].0));
            lemma_str_lt_strict_total(entries[i].0, path);
        }
    }
}

/// The keys of `as_map` are the paths of the listing.
pub proof fn lemma_as_map_key(entries: Listing, p: Seq<char>)
    ensures
        as_map(entries).contains_key(p) <==> exists|k: int|
            0 <= k < entries.len() && (#[trigger] entries[k]).0 == p,
    decreases entries.len(),
{
    if entries.len() > 0 {
        let d = entries.drop_last();
        lemma_as_map_key(d, p);
        if as_map(entries).contains_key(p) && p != entries.last().0 {
            let k = choose|k: int| 0 <= k < d.len() && (#[trigger] d[k]).0 == p;
            assert(entries[k] == d[k]);
        }
        if exists|k: int| 0 <= k < entries.len() && (#[trigger] entries[k]).0 == p {
            let k = choose|k: int| 0 <= k < entries.len() && (#[trigger] entries[k]).0 == p;
            if k < entries.len() - 1 {
                assert(d[k] == entries[k]);
            }
        }
    }
}

/// In a well-formed listing, the map's entry for the path at `i` is the list at `i`.
pub proof fn lemma_as_map_at(entries: Listing, i: int)
    requires
        well_formed(entries),
        0 <= i < entries.len(),
    ensures
        as_map(entries).contains_key(entries[i].0),
        as_map(entries)[entries[i].0] == entries[i].1,
    decreases entries.len(),
{
    if i < entries.len() - 1 {
        let d = entries.drop_last();
        assert(well_formed(d)) by {
            assert forall|a: int, b: int| 0 <= a < b < d.len() implies str_lt(
                #[trigger] d[a].0,
                #[trigger] d[b].0,
            ) by {
                assert(d[a] == entries[a] && d[b] == entries[b]);
            }
            assert forall|a: int| 0 <= a < d.len() implies #[trigger] d[a].1.len() > 0 by {
                assert(d[a] == entries[a]);
            }
        }
        assert(d[i] == entries[i]);
        lemma_as_map_at(d, i);
        assert(str_lt(entries[i].0, entries.last().0));
        lemma_str_lt_irreflexive(entries[i].0);
    }
}

/// A well-formed listing's map is the one that holds exactly its pairs.
pub proof fn lemma_as_map_is(e: Listing, m: Map<Seq<char>, Seq<ContentProblem>>)
    requires
        well_formed(e),
        forall|k: int|
            0 <= k < e.len() ==> m.contains_key((#[trigger] e[k]).0) && m[e[k].0] == e[k].1,
        forall|q: Seq<char>|
            m.contains_key(q) ==> exists|k: int| 0 <= k < e.len() && (#[trigger] e[k]).0 == q,
    ensures
        as_map(e) == m,
{
    assert forall|q: Seq<char>| as_map(e).contains_key(q) <==> m.contains_key(q) by {
        lemma_as_map_key(e, q);
    }
    assert forall|q: Seq<char>| #[trigger] as_map(e).contains_key(q) implies as_map(e)[q] == m[q] by {
        lemma_as_map_key(e, q);
        let k = choose|k: int| 0 <= k < e.len() && (#[trigger] e[k]).0 == q;
        lemma_as_map_at(e, k);
    }
    assert(as_map(e) =~= m);
}

/// Facts of a well-formed listing's map, for every position.
pub proof fn lemma_as_map_all(e: Listing)
    requires
        well_formed(e),
    ensures
        forall|k: int|
            0 <= k < e.len() ==> as_map(e).contains_key((#[trigger] e[k]).0) && as_map(e)[e[k].0]
                == e[k].1,
        forall|q: Seq<char>|
            as_map(e).contains_key(q) ==> exists|k: int| 0 <= k < e.len() && (#[trigger] e[k]).0 == q,
{
    assert forall|k: int| 0 <= k < e.len() implies as_map(e).contains_key((#[trigger] e[k]).0)
        && as_map(e)[e[k].0] == e[k].1 by {
        lemma_as_map_at(e, k);
    }
    assert forall|q: Seq<char>| as_map(e).contains_key(q) implies exists|k: int|
        0 <= k < e.len() && (#[trigger] e[k]).0 == q by {
        lemma_as_map_key(e, q);
    }
}

/// Inserting a new path at its slot keeps the listing well formed and adds it to the map.
pub proof fn lemma_insert_at(e: Listing, i: int, path: Seq<char>, l: Seq<ContentProblem>)
    requires
        well_formed(e),
        slot(e, path, i),
        !(i < e.len() && e[i].0 == path),
        l.len() > 0,
    ensures
        well_formed(e.insert(i, (path, l))),
        as_map(e.insert(i, (path, l))) == as_map(e).insert(path, l),
{
    let n = e.insert(i, (path, l));
    if i < e.len() {
        lemma_str_lt_strict_total(e[i].0, path);
    }
    assert forall|a: int, b: int| 0 <= a < b < n.len() implies str_lt(
        #[trigger] n[a].0,
        #[trigger] n[b].0,
    ) by {
        if a < i && b < i {
            assert(n[a] == e[a] && n[b] == e[b]);
        } else if a < i && b == i {
            assert(n[a] == e[a]);
        } else if a < i {
            assert(n[a] == e[a] && n[b] == e[b - 1]);
            assert(str_lt(e[a].0, path));
            lemma_str_lt_transitive(e[a].0, path, e[i].0);
            if b - 1 > i {
                lemma_str_lt_transitive(e[a].0, e[i].0, e[b - 1].0);
            }
        } else if a == i {
            assert(n[b] == e[b - 1]);
            if b - 1 > i {
                lemma_str_lt_transitive(path, e[i].0, e[b - 1].0);
            }
        } else {
            assert(n[a] == e[a - 1] && n[b] == e[b - 1]);
        }
    }
    assert forall|a: int| 0 <= a < n.len() implies #[trigger] n[a].1.len() > 0 by {
        if a < i {
            assert(n[a] == e[a]);
        } else if a > i {
            assert(n[a] == e[a - 1]);
        }
    }
    lemma_as_map_all(e);
    lemma_slot(e, path, i);
    let m = as_map(e).insert(path, l);
    assert forall|k: int| 0 <= k < n.len() implies m.contains_key((#[trigger] n[k]).0) && m[n[k].0]
        == n[k].1 by {
        if k < i {
            assert(n[k] == e[k]);
            lemma_str_lt_irreflexive(path);
        } else if k > i {
            assert(n[k] == e[k - 1]);
            lemma_str_lt_irreflexive(path);
            if k - 1 > i {
                lemma_str_lt_transitive(path, e[i].0, e[k - 1].0);
            }
        }
    }
    assert forall|q: Seq<char>| m.contains_key(q) implies exists|k: int|
        0 <= k < n.len() && (#[trigger] n[k]).0 == q by {
        if q == path {
            assert(n[i].0 == q);
        } else {
            let k = choose|k: int| 0 <= k < e.len() && (#[trigger] e[k]).0 == q;
            if k < i {
                assert(n[k] == e[k]);
            } else {
                assert(n[k + 1] == e[k]);
            }
        }
    }
    lemma_as_map_is(n, m);
}

/// Replacing the list of a known path keeps the listing well formed and replaces it in the map.
pub proof fn lemma_update_at(e: Listing, i: int, l: Seq<ContentProblem>)
    requires
        well_formed(e),
        0 <= i < e.len(),
        l.len() > 0,
    ensures
        well_formed(e.update(i, (e[i].0, l))),
        as_map(e.update(i, (e[i].0, l))) == as_map(e).insert(e[i].0, l),
{
    let path = e[i].0;
    let n = e.update(i, (path, l));
    assert forall|a: int, b: int| 0 <= a < b < n.len() implies str_lt(
        #[trigger] n[a].0,
        #[trigger] n[b].0,
    ) by {
        assert(n[a].0 == e[a].0 && n[b].0 == e[b].0);
    }
    assert forall|a: int| 0 <= a < n.len() implies #[trigger] n[a].1.len() > 0 by {
        if a != i {
            assert(n[a] == e[a]);
        }
    }
    lemma_as_map_all(e);
    let m = as_map(e).insert(path, l);
    assert forall|k: int| 0 <= k < n.len() implies m.contains_key((#[trigger] n[k]).0) && m[n[k].0]
        == n[k].1 by {
        if k != i {
            assert(n[k] == e[k]);
            assert(str_lt(e[k].0, path) || str_lt(path, e[k].0));
            lemma_str_lt_irreflexive(path);
        }
    }
    assert forall|q: Seq<char>| m.contains_key(q) implies exists|k: int|
        0 <= k < n.len() && (#[trigger] n[k]).0 == q by {
        if q == path {
            assert(n[i].0 == q);
        } else {
            let k = choose|k: int| 0 <= k < e.len() && (#[trigger] e[k]).0 == q;
            assert(n[k].0 == e[k].0);
        }
    }
    lemma_as_map_is(n, m);
}

/// Removing the entry at `i` keeps the listing well formed and drops its path from the map.
pub proof fn lemma_remove_at(e: Listing, i: int)
    requires
        well_formed(e),
        0 <= i < e.len(),
    ensures
        well_formed(e.remove(i)),
        as_map(e.remove(i)) == as_map(e).remove(e[i].0),
{
    let path = e[i].0;
    let n = e.remove(i);
    assert forall|a: int, b: int| 0 <= a < b < n.len() implies str_lt(
        #[trigger] n[a].0,
        #[trigger] n[b].0,
    ) by {
        if b < i {
            assert(n[a] == e[a] && n[b] == e[b]);
        } else if a < i {
            assert(n[a] == e[a] && n[b] == e[b + 1]);
        } else {
            assert(n[a] == e[a + 1] && n[b] == e[b + 1]);
        }
    }
    assert forall|a: int| 0 <= a < n.len() implies #[trigger] n[a].1.len() > 0 by {
        if a < i {
            assert(n[a] == e[a]);
        } else {
            assert(n[a] == e[a + 1]);
        }
    }
    lemma_as_map_all(e);
    lemma_str_lt_irreflexive(path);
    let m = as_map(e).remove(path);
    assert forall|k: int| 0 <= k < n.len() implies m.contains_key((#[trigger] n[k]).0) && m[n[k].0]
        == n[k].1 by {
        if k < i {
            assert(n[k] == e[k]);
            assert(str_lt(e[k].0, path));
        } else {
            assert(n[k] == e[k + 1]);
            assert(str_lt(path, e[k + 1].0));
        }
    }
    assert forall|q: Seq<char>| m.contains_key(q) implies exists|k: int|
        0 <= k < n.len() && (#[trigger] n[k]).0 == q by {
        let k = choose|k: int| 0 <= k < e.len() && (#[trigger] e[k]).0 == q;
        assert(k != i);
        if k < i {
            assert(n[k] == e[k]);
        } else {
            assert(n[k - 1] == e[k]);
        }
    }
    lemma_as_map_is(n, m);
}

impl ContentProblems {
    #[verifier::type_invariant]
    closed spec fn inv(self) -> bool {
        well_formed(self@)
    }

    /// The problems known for each path.
    pub open spec fn problems(self) -> Map<Seq<char>, Seq<ContentProblem>> {
        as_map(self@)
    }

    /// No problems for any path.
    pub fn new() -> (r: Self)
        ensures
            r@.len() == 0,
            r.problems() == Map::<Seq<char>, Seq<ContentProblem>>::empty(),
    {
        let r = ContentProblems { entries: Vec::new() };
        assert(r@ =~= Seq::<(Seq<char>, Seq<ContentProblem>)>::empty());
        r
    }
}

impl ContentProblems {
    /// Where `path` is, or would go.
    fn locate(&self, path: &[char]) -> (i: usize)
        ensures
            slot(self@, path@, i as int),
    {
        let mut i: usize = 0;
        while i < self.entries.len()
            invariant
                i <= self.entries@.len(),
                forall|j: int| 0 <= j < i ==> str_lt(#[trigger] self@[j].0, path@),
            decreases self.entries@.len() - i,
        {
            let key = chars_of(self.entries[i].0.as_str());
            assert(key@ == self@[i as int].0);
            match compare_chars(&key, path) {
                TextOrder::Less => {
                    i = i + 1;
                },
                _ => {
                    return i;
                },
            }
        }
        i
    }

    /// Whether the entry at `i` is for `path`.
    fn is_at(&self, i: usize, path: &[char]) -> (b: bool)
        ensures
            b == (i < self@.len() && self@[i as int].0 == path@),
    {
        if i < self.entries.len() {
            let key = chars_of(self.entries[i].0.as_str());
            crate::preprocess::chars_eq(&key, path)
        } else {
            false
        }
    }

    /// Replaces everything known about `path`. An empty `problems` clears it, so a producer can
    /// call this unconditionally after every compile.
    pub fn set(&mut self, path: &str, problems: Vec<ContentProblem>)
        ensures
            well_formed(final(self)@),
            final(self).problems() == if problems@.len() == 0 {
                old(self).problems().remove(path@)
            } else {
                old(self).problems().insert(path@, problems@)
            },
    {
        proof {
            use_type_invariant(&*self);
        }
        let p = chars_of(path);
        let i = self.locate(&p);
        let found = self.is_at(i, &p);
        let ghost e = self@;
        proof {
            lemma_slot(e, path@, i as int);
        }
        let mut entries: Vec<(String, Vec<ContentProblem>)> = Vec::new();
        std::mem::swap(&mut entries, &mut self.entries);
        let ghost old_entries = entries@;
        assert(e == old_entries.map_values(|x: (String, Vec<ContentProblem>)| (x.0@, x.1@)));
        if problems.len() == 0 {
            if found {
                entries.remove(i);
                proof {
                    lemma_remove_at(e, i as int);
                    assert(entries@.map_values(|x: (String, Vec<ContentProblem>)| (x.0@, x.1@))
                        =~= e.remove(i as int));
                }
            } else {
                assert(as_map(e).remove(path@) =~= as_map(e));
            }
        } else if found {
            let ghost l = problems@;
            entries.set(i, (String::from_str(path), problems));
            proof {
                lemma_update_at(e, i as int, l);
                assert(entries@.map_values(|x: (String, Vec<ContentProblem>)| (x.0@, x.1@))
                    =~= e.update(i as int, (e[i as int].0, l)));
            }
        } else {
            let ghost l = problems@;
            entries.insert(i, (String::from_str(path), problems));
            proof {
                lemma_insert_at(e, i as int, path@, l);
                assert(entries@.map_values(|x: (String, Vec<ContentProblem>)| (x.0@, x.1@))
                    =~= e.insert(i as int, (path@, l)));
            }
        }
        self.entries = entries;
    }

    /// Forgets everything known about `path`.
    pub fn clear_path(&mut self, path: &str)
        ensures
            well_formed(final(self)@),
            final(self).problems() == old(self).problems().remove(path@),
    {
        self.set(path, Vec::new());
    }

    /// The problems known for `path`; none when it has none.
    pub fn get(&self, path: &str) -> (r: &[ContentProblem])
        ensures
            r@ == if self.problems().contains_key(path@) {
                self.problems()[path@]
            } else {
                Seq::<ContentProblem>::empty()
            },
    {
        proof {
            use_type_invariant(self);
        }
        let p = chars_of(path);
        let i = self.locate(&p);
        proof {
            lemma_slot(self@, path@, i as int);
        }
        if self.is_at(i, &p) {
            self.entries[i].1.as_slice()
        } else {
            &[]
        }
    }

    /// Whether no path has a problem.
    pub fn is_empty(&self) -> (b: bool)
        ensures
            b == (self@.len() == 0),
            b == (self.problems() == Map::<Seq<char>, Seq<ContentProblem>>::empty()),
    {
        proof {
            use_type_invariant(self);
            if self@.len() > 0 {
                lemma_as_map_at(self@, 0);
                assert(!Map::<Seq<char>, Seq<ContentProblem>>::empty().contains_key(self@[0].0));
            } else {
                assert(as_map(self@) =~= Map::<Seq<char>, Seq<ContentProblem>>::empty());
            }
        }
        self.entries.len() == 0
    }
}

/// The `(path, problem)` pairs of a list of references, as values.
pub open spec fn pairs_view(v: Seq<(&str, &ContentProblem)>) -> Seq<(Seq<char>, ContentProblem)> {
    v.map_values(|x: (&str, &ContentProblem)| (x.0@, *x.1))
}

/// Appends the problems of `list` with severity `sev`, tagged by `path`.
fn push_severity<'a>(
    out: &mut Vec<(&'a str, &'a ContentProblem)>,
    path: &'a str,
    list: &'a Vec<ContentProblem>,
    sev: ProblemSeverity,
)
    ensures
        pairs_view(final(out)@) == pairs_view(old(out)@) + tagged(path@, only(list@, sev)),
{
    let mut j: usize = 0;
    while j < list.len()
        invariant
            j <= list@.len(),
            pairs_view(out@) == pairs_view(old(out)@) + tagged(path@, only(list@.take(j as int), sev)),
        decreases list@.len() - j,
    {
        let ghost before = out@;
        let keep = match (list[j].severity, sev) {
            (ProblemSeverity::Error, ProblemSeverity::Error) => true,
            (ProblemSeverity::Warning, ProblemSeverity::Warning) => true,
            _ => false,
        };
        assert(keep == (list@[j as int].severity == sev));
        let ghost prev = only(list@.take(j as int), sev);
        if keep {
            out.push((path, &list[j]));
        }
        j = j + 1;
        assert(list@.take(j as int).drop_last() =~= list@.take(j - 1));
        assert(list@.take(j as int).last() == list@[j - 1]);
        if keep {
            assert(pairs_view(out@) =~= pairs_view(before).push((path@, list@[j - 1])));
            assert(only(list@.take(j as int), sev) == prev.push(list@[j - 1]));
            assert(tagged(path@, prev.push(list@[j - 1])) =~= tagged(path@, prev).push(
                (path@, list@[j - 1]),
            ));
        } else {
            assert(only(list@.take(j as int), sev) == prev);
        }
        assert(pairs_view(out@) =~= pairs_view(old(out)@) + tagged(
            path@,
            only(list@.take(j as int), sev),
        ));
    }
    assert(list@.take(j as int) =~= list@);
}

impl ContentProblems {
    /// `(path, problem)` pairs in path order, errors before warnings within a path.
    pub fn iter(&self) -> (r: Vec<(&str, &ContentProblem)>)
        ensures
            pairs_view(r@) == listing(self@),
            well_formed(self@),
    {
        proof {
            use_type_invariant(self);
        }
        let mut out: Vec<(&str, &ContentProblem)> = Vec::new();
        let mut i: usize = 0;
        while i < self.entries.len()
            invariant
                i <= self.entries@.len(),
                pairs_view(out@) == listing(self@.take(i as int)),
            decreases self.entries@.len() - i,
        {
            let path = self.entries[i].0.as_str();
            let list = &self.entries[i].1;
            assert(self@[i as int] == (path@, list@));
            push_severity(&mut out, path, list, ProblemSeverity::Error);
            push_severity(&mut out, path, list, ProblemSeverity::Warning);
            i = i + 1;
            assert(self@.take(i as int).drop_last() =~= self@.take(i - 1));
        }
        assert(self@.take(i as int) =~= self@);
        out
    }

    /// The number of problems of severity `sev`.
    fn count(&self, sev: ProblemSeverity) -> (n: usize)
        ensures
            n == count_of(listing(self@), sev),
    {
        let all = self.iter();
        let mut n: usize = 0;
        let mut i: usize = 0;
        while i < all.len()
            invariant
                i <= all@.len(),
                n <= i,
                n == count_of(pairs_view(all@).take(i as int), sev),
            decreases all@.len() - i,
        {
            let hit = match (all[i].1.severity, sev) {
                (ProblemSeverity::Error, ProblemSeverity::Error) => true,
                (ProblemSeverity::Warning, ProblemSeverity::Warning) => true,
                _ => false,
            };
            if hit {
                n = n + 1;
            }
            i = i + 1;
            assert(pairs_view(all@).take(i as int).drop_last() =~= pairs_view(all@).take(i - 1));
        }
        assert(pairs_view(all@).take(i as int) =~= pairs_view(all@));
        n
    }

    /// The number of errors over all paths.
    pub fn error_count(&self) -> (n: usize)
        ensures
            n == count_of(listing(self@), ProblemSeverity::Error),
    {
        self.count(ProblemSeverity::Error)
    }

    /// The number of warnings over all paths.
    pub fn warning_count(&self) -> (n: usize)
        ensures
            n == count_of(listing(self@), ProblemSeverity::Warning),
    {
        self.count(ProblemSeverity::Warning)
    }
}

impl Default for ContentProblems {
    fn default() -> (r: Self)
        ensures
            r@.len() == 0,
            r.problems() == Map::<Seq<char>, Seq<ContentProblem>>::empty(),
    {
        ContentProblems::new()
    }
}


/// The number of problems over all paths.
pub open spec fn problem_total(entries: Listing) -> nat
    decreases entries.len(),
{
    if entries.len() == 0 {
        0
    } else {
        problem_total(entries.drop_last()) + entries.last().1.len()
    }
}

proof fn lemma_count_concat(
    a: Seq<(Seq<char>, ContentProblem)>,
    b: Seq<(Seq<char>, ContentProblem)>,
    sev: ProblemSeverity,
)
    ensures
        count_of(a + b, sev) == count_of(a, sev) + count_of(b, sev),
    decreases b.len(),
{
    if b.len() > 0 {
        lemma_count_concat(a, b.drop_last(), sev);
        assert((a + b).drop_last() =~= a + b.drop_last());
    }
}

proof fn lemma_count_only(path: Seq<char>, l: Seq<ContentProblem>, sev: ProblemSeverity, other: ProblemSeverity)
    ensures
        count_of(tagged(path, only(l, sev)), sev) == only(l, sev).len(),
        sev != other ==> count_of(tagged(path, only(l, sev)), other) == 0,
        sev != other ==> only(l, sev).len() + only(l, other).len() == l.len(),
    decreases l.len(),
{
    if l.len() > 0 {
        lemma_count_only(path, l.drop_last(), sev, other);
        let prev = only(l.drop_last(), sev);
        if l.last().severity == sev {
            assert(tagged(path, prev.push(l.last())).drop_last() =~= tagged(path, prev));
        }
    }
}

/// Every problem is counted once, as an error or as a warning: the two counts add up to the
/// number of problems known.
pub proof fn law_counts_cover_every_problem(entries: Listing)
    ensures
        count_of(listing(entries), ProblemSeverity::Error) + count_of(
            listing(entries),
            ProblemSeverity::Warning,
        ) == problem_total(entries),
        listing(entries).len() == problem_total(entries),
    decreases entries.len(),
{
    if entries.len() > 0 {
        law_counts_cover_every_problem(entries.drop_last());
        let (path, l) = entries.last();
        let errs = tagged(path, only(l, ProblemSeverity::Error));
        let warns = tagged(path, only(l, ProblemSeverity::Warning));
        let rest = listing(entries.drop_last());
        lemma_count_concat(rest + errs, warns, ProblemSeverity::Error);
        lemma_count_concat(rest + errs, warns, ProblemSeverity::Warning);
        lemma_count_concat(rest, errs, ProblemSeverity::Error);
        lemma_count_concat(rest, errs, ProblemSeverity::Warning);
        lemma_count_only(path, l, ProblemSeverity::Error, ProblemSeverity::Warning);
        lemma_count_only(path, l, ProblemSeverity::Warning, ProblemSeverity::Error);
    }
}

/// The listing, and so the order `iter` gives, is a function of the problems known: two
/// collections that know the same problems for the same paths list them identically.
pub proof fn law_listing_follows_problems(e1: Listing, e2: Listing)
    requires
        well_formed(e1),
        well_formed(e2),
        as_map(e1) == as_map(e2),
    ensures
        e1 == e2,
    decreases e1.len(),
{
    lemma_as_map_all(e1);
    lemma_as_map_all(e2);
    if e1.len() == 0 {
        if e2.len() > 0 {
            assert(as_map(e2).contains_key(e2[0].0));
        }
        assert(e1 =~= e2);
    } else {
        assert(e2.len() > 0) by {
            assert(as_map(e1).contains_key(e1[0].0));
        }
        let n1 = e1.len() - 1;
        let n2 = e2.len() - 1;
        let k2 = choose|k: int| 0 <= k < e2.len() && (#[trigger] e2[k]).0 == e1[n1].0;
        let k1 = choose|k: int| 0 <= k < e1.len() && (#[trigger] e1[k]).0 == e2[n2].0;
        if k2 < n2 {
            assert(str_lt(e2[k2].0, e2[n2].0));
            if k1 < n1 {
                assert(str_lt(e1[k1].0, e1[n1].0));
                lemma_str_lt_strict_total(e1[n1].0, e2[n2].0);
            } else {
                lemma_str_lt_irreflexive(e1[n1].0);
            }
        }
        assert(e1.last() == e2.last());
        lemma_remove_at(e1, n1);
        lemma_remove_at(e2, n2);
        assert(e1.remove(n1) =~= e1.drop_last());
        assert(e2.remove(n2) =~= e2.drop_last());
        law_listing_follows_problems(e1.drop_last(), e2.drop_last());
        assert(e1 =~= e2.drop_last().push(e2.last()));
        assert(e2 =~= e2.drop_last().push(e2.last()));
    }
}

} // verus!
