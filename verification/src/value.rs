//! The merged configuration document and its merge rules.
//!
//! A document is a sequence of entries, each a dot-delimited path with a
//! scalar leaf.  On equal paths the later entry wins.  Setting a path
//! removes every entry whose path is the same, lies below it, or lies
//! above it, so a scalar can replace a whole table and the other way
//! round, and merging one layer over another applies the upper layer's
//! entries in order.

use vstd::prelude::*;

verus! {

use vstd::string::StrSliceExecFns;

/// A scalar configuration value, one leaf of a resolved document.
///
/// A non-integer number is carried as the canonical decimal rendering of
/// the parsed value, so that every contract stays over plain text and
/// integers.  An empty table or array contributes a single
/// `EmptyContainer` leaf, so that its presence survives the flattening.
#[derive(Debug, PartialEq, Eq)]
pub enum Leaf {
    Null,
    Bool(bool),
    Int(i64),
    Float(String),
    Str(String),
    EmptyContainer,
}

/// The mathematical shape of a [`Leaf`].
pub enum LeafS {
    Null,
    Bool(bool),
    Int(i64),
    Float(Seq<char>),
    Str(Seq<char>),
    EmptyContainer,
}

impl View for Leaf {
    type V = LeafS;

    open spec fn view(&self) -> LeafS {
        match self {
            Leaf::Null => LeafS::Null,
            Leaf::Bool(b) => LeafS::Bool(*b),
            Leaf::Int(i) => LeafS::Int(*i),
            Leaf::Float(t) => LeafS::Float(t@),
            Leaf::Str(s) => LeafS::Str(s@),
            Leaf::EmptyContainer => LeafS::EmptyContainer,
        }
    }
}

/// One dot-delimited path with its value.
#[derive(Debug, PartialEq, Eq)]
pub struct Entry {
    pub path: String,
    pub value: Leaf,
}

impl View for Entry {
    type V = (Seq<char>, LeafS);

    open spec fn view(&self) -> (Seq<char>, LeafS) {
        (self.path@, self.value@)
    }
}

/// An intermediate merged configuration document: paths to leaves.
#[derive(Debug, PartialEq, Eq)]
pub struct ResolvedConfig {
    pub entries: Vec<Entry>,
}

pub open spec fn entries_view(s: Seq<Entry>) -> Seq<(Seq<char>, LeafS)> {
    s.map_values(|e: Entry| e@)
}

impl View for ResolvedConfig {
    type V = Seq<(Seq<char>, LeafS)>;

    open spec fn view(&self) -> Seq<(Seq<char>, LeafS)> {
        entries_view(self.entries@)
    }
}

/// `p` names a table above `q`: `q` starts with `p` followed by a dot.
pub open spec fn dot_prefix(p: Seq<char>, q: Seq<char>) -> bool {
    p.len() < q.len() && q.subrange(0, p.len() as int) == p && q[p.len() as int] == '.'
}

/// Two paths denote the same node or one lies inside the other.
pub open spec fn conflicts(p: Seq<char>, q: Seq<char>) -> bool {
    p == q || dot_prefix(p, q) || dot_prefix(q, p)
}

/// The value at `p`, where the latest entry on a path wins.
pub open spec fn lookup(d: Seq<(Seq<char>, LeafS)>, p: Seq<char>) -> Option<LeafS>
    decreases d.len(),
{
    if d.len() == 0 {
        None
    } else if d.last().0 == p {
        Some(d.last().1)
    } else {
        lookup(d.drop_last(), p)
    }
}

/// The document without every entry whose path conflicts with `p`.
pub open spec fn remove_conflicting(d: Seq<(Seq<char>, LeafS)>, p: Seq<char>) -> Seq<
    (Seq<char>, LeafS),
>
    decreases d.len(),
{
    if d.len() == 0 {
        Seq::empty()
    } else if conflicts(d.last().0, p) {
        remove_conflicting(d.drop_last(), p)
    } else {
        remove_conflicting(d.drop_last(), p).push(d.last())
    }
}

/// Setting a path: clear the node and everything under or above it,
/// then append the new leaf.
pub open spec fn set_path_spec(
    d: Seq<(Seq<char>, LeafS)>,
    p: Seq<char>,
    v: LeafS,
) -> Seq<(Seq<char>, LeafS)> {
    remove_conflicting(d, p).push((p, v))
}

/// Layering `upper` over `lower`: the upper entries are set in order.
pub open spec fn merge_spec(
    lower: Seq<(Seq<char>, LeafS)>,
    upper: Seq<(Seq<char>, LeafS)>,
) -> Seq<(Seq<char>, LeafS)>
    decreases upper.len(),
{
    if upper.len() == 0 {
        lower
    } else {
        set_path_spec(merge_spec(lower, upper.drop_last()), upper.last().0, upper.last().1)
    }
}

/// The sub-document rooted at `pre`: an entry exactly at `pre` keeps an
/// empty path, an entry below it keeps the path after the dot.
pub open spec fn subdoc_spec(d: Seq<(Seq<char>, LeafS)>, pre: Seq<char>) -> Seq<
    (Seq<char>, LeafS),
>
    decreases d.len(),
{
    if d.len() == 0 {
        Seq::empty()
    } else {
        let rest = subdoc_spec(d.drop_last(), pre);
        let e = d.last();
        if e.0 == pre {
            rest.push((Seq::empty(), e.1))
        } else if dot_prefix(pre, e.0) {
            rest.push((e.0.subrange(pre.len() as int + 1, e.0.len() as int), e.1))
        } else {
            rest
        }
    }
}

/// A layer is well formed when no two of its paths conflict.
pub open spec fn wf_doc(d: Seq<(Seq<char>, LeafS)>) -> bool {
    forall|i: int, j: int| 0 <= i < j < d.len() ==> !conflicts(d[i].0, d[j].0)
}

proof fn lemma_conflicts_symmetric(p: Seq<char>, q: Seq<char>)
    ensures
        conflicts(p, q) == conflicts(q, p),
{
}

proof fn lemma_remove_preserves_lookup(
    d: Seq<(Seq<char>, LeafS)>,
    q: Seq<char>,
    p: Seq<char>,
)
    requires
        !conflicts(q, p),
    ensures
        lookup(remove_conflicting(d, q), p) == lookup(d, p),
    decreases d.len(),
{
    if d.len() == 0 {
    } else {
        lemma_remove_preserves_lookup(d.drop_last(), q, p);
        let e = d.last();
        if conflicts(e.0, q) {
            lemma_conflicts_symmetric(e.0, q);
            lemma_conflicts_symmetric(q, p);
            assert(e.0 != p);
        } else {
            let rest = remove_conflicting(d.drop_last(), q);
            assert(remove_conflicting(d, q) == rest.push(e));
            assert(rest.push(e).drop_last() =~= rest);
        }
    }
}

proof fn lemma_set_lookup_same(d: Seq<(Seq<char>, LeafS)>, p: Seq<char>, v: LeafS)
    ensures
        lookup(set_path_spec(d, p, v), p) == Some(v),
{
    let s = set_path_spec(d, p, v);
    assert(s.last() == (p, v));
}

pub(crate) proof fn lemma_set_lookup_other(
    d: Seq<(Seq<char>, LeafS)>,
    q: Seq<char>,
    v: LeafS,
    p: Seq<char>,
)
    requires
        !conflicts(q, p),
    ensures
        lookup(set_path_spec(d, q, v), p) == lookup(d, p),
{
    let s = set_path_spec(d, q, v);
    assert(s.drop_last() =~= remove_conflicting(d, q));
    assert(s.last() == (q, v));
    assert(q != p);
    lemma_remove_preserves_lookup(d, q, p);
}

proof fn lemma_lookup_key_exists(d: Seq<(Seq<char>, LeafS)>, p: Seq<char>)
    requires
        lookup(d, p) is Some,
    ensures
        exists|i: int| 0 <= i < d.len() && d[i].0 == p,
    decreases d.len(),
{
    if d.last().0 == p {
        assert(d[d.len() - 1].0 == p);
    } else {
        lemma_lookup_key_exists(d.drop_last(), p);
        let i = choose|i: int| 0 <= i < d.drop_last().len() && d.drop_last()[i].0 == p;
        assert(d[i].0 == p);
    }
}

/// Precedence: a path present in an upper layer keeps that layer's value
/// after the layer is merged over any lower layer.
pub proof fn lemma_layer_precedence(
    lower: Seq<(Seq<char>, LeafS)>,
    upper: Seq<(Seq<char>, LeafS)>,
    p: Seq<char>,
)
    requires
        wf_doc(upper),
        lookup(upper, p) is Some,
    ensures
        lookup(merge_spec(lower, upper), p) == lookup(upper, p),
    decreases upper.len(),
{
    let e = upper.last();
    let prev = merge_spec(lower, upper.drop_last());
    if e.0 == p {
        lemma_set_lookup_same(prev, p, e.1);
    } else {
        assert forall|i: int, j: int|
            0 <= i < j < upper.drop_last().len() implies !conflicts(
            upper.drop_last()[i].0,
            upper.drop_last()[j].0,
        ) by {
            assert(upper.drop_last()[i] == upper[i]);
            assert(upper.drop_last()[j] == upper[j]);
        }
        lemma_layer_precedence(lower, upper.drop_last(), p);
        lemma_lookup_key_exists(upper.drop_last(), p);
        let i = choose|i: int|
            0 <= i < upper.drop_last().len() && upper.drop_last()[i].0 == p;
        assert(upper[i].0 == p);
        assert(!conflicts(upper[i].0, upper[upper.len() - 1].0));
        lemma_conflicts_symmetric(p, e.0);
        lemma_set_lookup_other(prev, e.0, e.1, p);
    }
}

/// A path that no entry of the upper layer touches keeps the lower
/// layer's value after the merge.
pub proof fn lemma_untouched_path_survives(
    lower: Seq<(Seq<char>, LeafS)>,
    upper: Seq<(Seq<char>, LeafS)>,
    p: Seq<char>,
)
    requires
        forall|i: int| 0 <= i < upper.len() ==> !conflicts(upper[i].0, p),
    ensures
        lookup(merge_spec(lower, upper), p) == lookup(lower, p),
    decreases upper.len(),
{
    if upper.len() > 0 {
        assert forall|i: int|
            0 <= i < upper.drop_last().len() implies !conflicts(
            upper.drop_last()[i].0,
            p,
        ) by {
            assert(upper.drop_last()[i] == upper[i]);
        }
        lemma_untouched_path_survives(lower, upper.drop_last(), p);
        assert(!conflicts(upper[upper.len() - 1].0, p));
        lemma_set_lookup_other(
            merge_spec(lower, upper.drop_last()),
            upper.last().0,
            upper.last().1,
            p,
        );
    }
}

/// An override on a path wins over whatever any earlier layer set there,
/// wherever that layer stood.
pub proof fn lemma_override_wins(d: Seq<(Seq<char>, LeafS)>, p: Seq<char>, v: LeafS)
    ensures
        lookup(set_path_spec(d, p, v), p) == Some(v),
{
    lemma_set_lookup_same(d, p, v);
}

/// Character-for-character string equality.
pub fn str_eq(a: &str, b: &str) -> (r: bool)
    ensures
        r == (a@ == b@),
{
    let la = a.unicode_len();
    let lb = b.unicode_len();
    if la != lb {
        return false;
    }
    let mut i: usize = 0;
    while i < la
        invariant
            i <= la,
            la == a@.len(),
            la == b@.len(),
            forall|j: int| 0 <= j < i ==> a@[j] == b@[j],
        decreases la - i,
    {
        if a.get_char(i) != b.get_char(i) {
            return false;
        }
        i += 1;
    }
    proof {
        assert(a@ =~= b@);
    }
    true
}

/// Does `q` start with `p` followed by a dot?
pub fn dot_prefix_of(p: &str, q: &str) -> (r: bool)
    ensures
        r == dot_prefix(p@, q@),
{
    let lp = p.unicode_len();
    let lq = q.unicode_len();
    if lp >= lq {
        return false;
    }
    if q.get_char(lp) != '.' {
        return false;
    }
    let mut i: usize = 0;
    while i < lp
        invariant
            i <= lp,
            lp == p@.len(),
            lq == q@.len(),
            lp < lq,
            forall|j: int| 0 <= j < i ==> p@[j] == q@[j],
        decreases lp - i,
    {
        if p.get_char(i) != q.get_char(i) {
            proof {
                assert(q@.subrange(0, lp as int)[i as int] == q@[i as int]);
            }
            return false;
        }
        i += 1;
    }
    proof {
        assert(q@.subrange(0, lp as int) =~= p@);
    }
    true
}

/// Do the two paths denote the same node, or one a node inside the other?
pub fn paths_conflict(p: &str, q: &str) -> (r: bool)
    ensures
        r == conflicts(p@, q@),
{
    str_eq(p, q) || dot_prefix_of(p, q) || dot_prefix_of(q, p)
}

/// A copy of a leaf with the same view.
pub fn clone_leaf(l: &Leaf) -> (r: Leaf)
    ensures
        r@ == l@,
{
    match l {
        Leaf::Null => Leaf::Null,
        Leaf::Bool(b) => Leaf::Bool(*b),
        Leaf::Int(i) => Leaf::Int(*i),
        Leaf::Float(t) => Leaf::Float(t.clone()),
        Leaf::Str(s) => Leaf::Str(s.clone()),
        Leaf::EmptyContainer => Leaf::EmptyContainer,
    }
}

/// A copy of an entry with the same view.
pub fn clone_entry(e: &Entry) -> (r: Entry)
    ensures
        r@ == e@,
{
    Entry { path: e.path.clone(), value: clone_leaf(&e.value) }
}

proof fn lemma_entries_view_push(s: Seq<Entry>, e: Entry)
    ensures
        entries_view(s.push(e)) == entries_view(s).push(e@),
{
    assert(entries_view(s.push(e)) =~= entries_view(s).push(e@));
}

impl ResolvedConfig {
    /// The document with no entries.
    pub fn empty() -> (r: ResolvedConfig)
        ensures
            r@ == Seq::<(Seq<char>, LeafS)>::empty(),
    {
        let r = ResolvedConfig { entries: Vec::new() };
        proof {
            assert(r@ =~= Seq::<(Seq<char>, LeafS)>::empty());
        }
        r
    }

    /// The value at `path`, where the latest entry on a path wins.
    pub fn get(&self, path: &str) -> (r: Option<Leaf>)
        ensures
            match r {
                Some(l) => lookup(self@, path@) == Some(l@),
                None => lookup(self@, path@) is None,
            },
    {
        let n = self.entries.len();
        let mut i: usize = n;
        proof {
            assert(entries_view(self.entries@.take(n as int)) =~= self@);
        }
        while i > 0
            invariant
                i <= n,
                n == self.entries.len(),
                lookup(self@, path@) == lookup(entries_view(self.entries@.take(i as int)), path@),
            decreases i,
        {
            let e = &self.entries[i - 1];
            proof {
                lemma_entries_view_push(self.entries@.take(i as int - 1), self.entries@[i as int - 1]);
                assert(self.entries@.take(i as int - 1).push(self.entries@[i as int - 1]) =~= self
                    .entries@.take(i as int));
                assert(entries_view(self.entries@.take(i as int)) == entries_view(
                    self.entries@.take(i as int - 1),
                ).push(e@));
            }
            if str_eq(e.path.as_str(), path) {
                proof {
                    assert(entries_view(self.entries@.take(i as int)).last() == e@);
                }
                return Some(clone_leaf(&e.value));
            }
            proof {
                let d = entries_view(self.entries@.take(i as int));
                assert(d.last() == e@);
                assert(d.drop_last() =~= entries_view(self.entries@.take(i as int - 1)));
                assert(lookup(d, path@) == lookup(entries_view(self.entries@.take(i as int - 1)), path@));
            }
            i -= 1;
        }
        proof {
            assert(entries_view(self.entries@.take(0)) =~= Seq::<(Seq<char>, LeafS)>::empty());
        }
        None
    }

    /// The document with `path` set to `value`, every conflicting entry gone.
    pub fn set_path(self, path: &str, value: Leaf) -> (r: ResolvedConfig)
        ensures
            r@ == set_path_spec(self@, path@, value@),
    {
        let mut out: Vec<Entry> = Vec::new();
        let n = self.entries.len();
        let mut i: usize = 0;
        while i < n
            invariant
                i <= n,
                n == self.entries.len(),
                entries_view(out@) == remove_conflicting(
                    entries_view(self.entries@.take(i as int)),
                    path@,
                ),
            decreases n - i,
        {
            let e = &self.entries[i];
            proof {
                lemma_entries_view_push(self.entries@.take(i as int), self.entries@[i as int]);
                assert(self.entries@.take(i as int).push(self.entries@[i as int]) =~= self.entries@
                    .take(i as int + 1));
                assert(entries_view(self.entries@.take(i as int + 1)).drop_last()
                    =~= entries_view(self.entries@.take(i as int)));
            }
            if !paths_conflict(e.path.as_str(), path) {
                let ghost prev = out@;
                out.push(clone_entry(e));
                proof {
                    lemma_entries_view_push(prev, out@.last());
                    assert(prev.push(out@.last()) =~= out@);
                }
            }
            i += 1;
        }
        proof {
            assert(entries_view(self.entries@.take(n as int)) =~= self@);
        }
        let ghost kept = out@;
        out.push(Entry { path: path.to_owned(), value });
        proof {
            lemma_entries_view_push(kept, out@.last());
            assert(kept.push(out@.last()) =~= out@);
        }
        ResolvedConfig { entries: out }
    }

    /// The document with `upper` layered over `self`, entry by entry.
    pub fn merge(self, upper: &ResolvedConfig) -> (r: ResolvedConfig)
        ensures
            r@ == merge_spec(self@, upper@),
    {
        let ghost lower0 = self@;
        let mut cur = self;
        let n = upper.entries.len();
        let mut i: usize = 0;
        while i < n
            invariant
                i <= n,
                n == upper.entries.len(),
                cur@ == merge_spec(lower0, entries_view(upper.entries@.take(i as int))),
            decreases n - i,
        {
            let e = &upper.entries[i];
            let leaf = clone_leaf(&e.value);
            proof {
                lemma_entries_view_push(upper.entries@.take(i as int), upper.entries@[i as int]);
                assert(upper.entries@.take(i as int).push(upper.entries@[i as int]) =~= upper
                    .entries@.take(i as int + 1));
                assert(entries_view(upper.entries@.take(i as int + 1)).drop_last()
                    =~= entries_view(upper.entries@.take(i as int)));
            }
            cur = cur.set_path(e.path.as_str(), leaf);
            i += 1;
        }
        proof {
            assert(entries_view(upper.entries@.take(n as int)) =~= upper@);
        }
        cur
    }

    /// The sub-document rooted at `prefix`.
    pub fn subdoc(&self, prefix: &str) -> (r: ResolvedConfig)
        ensures
            r@ == subdoc_spec(self@, prefix@),
    {
        let mut out: Vec<Entry> = Vec::new();
        let n = self.entries.len();
        let lp = prefix.unicode_len();
        let mut i: usize = 0;
        while i < n
            invariant
                i <= n,
                n == self.entries.len(),
                lp == prefix@.len(),
                entries_view(out@) == subdoc_spec(
                    entries_view(self.entries@.take(i as int)),
                    prefix@,
                ),
            decreases n - i,
        {
            let e = &self.entries[i];
            proof {
                lemma_entries_view_push(self.entries@.take(i as int), self.entries@[i as int]);
                assert(self.entries@.take(i as int).push(self.entries@[i as int]) =~= self.entries@
                    .take(i as int + 1));
                assert(entries_view(self.entries@.take(i as int + 1)).drop_last()
                    =~= entries_view(self.entries@.take(i as int)));
            }
            if str_eq(e.path.as_str(), prefix) {
                let ghost prev = out@;
                out.push(Entry { path: String::new(), value: clone_leaf(&e.value) });
                proof {
                    lemma_entries_view_push(prev, out@.last());
                    assert(prev.push(out@.last()) =~= out@);
                }
            } else if dot_prefix_of(prefix, e.path.as_str()) {
                let le = e.path.as_str().unicode_len();
                let tail = e.path.as_str().substring_char(lp + 1, le);
                let ghost prev = out@;
                out.push(Entry { path: tail.to_owned(), value: clone_leaf(&e.value) });
                proof {
                    lemma_entries_view_push(prev, out@.last());
                    assert(prev.push(out@.last()) =~= out@);
                }
            }
            i += 1;
        }
        proof {
            assert(entries_view(self.entries@.take(n as int)) =~= self@);
        }
        ResolvedConfig { entries: out }
    }
}

} // verus!
