//! The parsed configuration tree and its verified flattening.
//!
//! An outside parser hands the library a [`JTree`]; `flatten` rewrites it
//! into the flat document of dot-delimited paths: a scalar becomes one
//! entry at its path, a table child goes under `prefix.key`, an array
//! element under its decimal index, and an empty table or array leaves a
//! single `EmptyContainer` entry, so that its presence survives.

use vstd::prelude::*;

verus! {

use vstd::string::{StrSliceExecFns, StringExecFns};
use crate::value::{Entry, Leaf, LeafS, ResolvedConfig, clone_leaf, entries_view};

broadcast use vstd::seq::axiom_seq_index_decreases, vstd::std_specs::vec::group_vec_axioms;

/// A parsed configuration value: a scalar, an array, or a table whose
/// fields keep their order.
#[derive(Debug, PartialEq, Eq)]
pub enum JTree {
    Scalar(Leaf),
    Arr(Vec<JTree>),
    Obj(Vec<(String, JTree)>),
}

/// The mathematical shape of a [`JTree`].
#[verifier::ext_equal]
pub enum JTreeS {
    Scalar(LeafS),
    Arr(Seq<JTreeS>),
    Obj(Seq<(Seq<char>, JTreeS)>),
}

pub open spec fn tree_view(t: JTree) -> JTreeS
    decreases t, 1nat,
{
    match t {
        JTree::Scalar(l) => JTreeS::Scalar(l@),
        JTree::Arr(a) => JTreeS::Arr(arr_view(a@)),
        JTree::Obj(m) => JTreeS::Obj(obj_view(m@)),
    }
}

pub open spec fn arr_view(a: Seq<JTree>) -> Seq<JTreeS>
    decreases a, 0nat,
{
    Seq::new(
        a.len(),
        |i: int|
            if 0 <= i < a.len() {
                tree_view(a[i])
            } else {
                JTreeS::Scalar(LeafS::Null)
            },
    )
}

pub open spec fn obj_view(m: Seq<(String, JTree)>) -> Seq<(Seq<char>, JTreeS)>
    decreases m, 0nat,
{
    Seq::new(
        m.len(),
        |i: int|
            if 0 <= i < m.len() {
                (m[i].0@, tree_view(m[i].1))
            } else {
                (Seq::empty(), JTreeS::Scalar(LeafS::Null))
            },
    )
}

impl View for JTree {
    type V = JTreeS;

    open spec fn view(&self) -> JTreeS {
        tree_view(*self)
    }
}

/// The decimal digit `n`, for `n` under ten.
pub open spec fn dec_digit(n: nat) -> char {
    if n == 0 {
        '0'
    } else if n == 1 {
        '1'
    } else if n == 2 {
        '2'
    } else if n == 3 {
        '3'
    } else if n == 4 {
        '4'
    } else if n == 5 {
        '5'
    } else if n == 6 {
        '6'
    } else if n == 7 {
        '7'
    } else if n == 8 {
        '8'
    } else {
        '9'
    }
}

/// The decimal rendering of `n`, without sign or leading zeros.
pub open spec fn dec_str(n: nat) -> Seq<char>
    decreases n,
{
    if n < 10 {
        seq![dec_digit(n)]
    } else {
        dec_str(n / 10).push(dec_digit(n % 10))
    }
}

fn digit_str(d: u64) -> (r: &'static str)
    requires
        d < 10,
    ensures
        r@ == seq![dec_digit(d as nat)],
{
    let s = "0123456789";
    proof {
        reveal_strlit("0123456789");
    }
    let r = s.substring_char(d as usize, d as usize + 1);
    proof {
        assert(r@ =~= seq![dec_digit(d as nat)]);
    }
    r
}

fn push_dec(n: u64, s: &mut String)
    ensures
        final(s)@ == old(s)@ + dec_str(n as nat),
    decreases n,
{
    if n >= 10 {
        push_dec(n / 10, s);
    }
    let ghost mid = s@;
    s.append(digit_str(n % 10));
    proof {
        if n >= 10 {
            assert(dec_str(n as nat) == dec_str((n / 10) as nat).push(dec_digit((n % 10) as nat)));
        }
        assert(old(s)@ + dec_str(n as nat) =~= mid + seq![dec_digit((n % 10) as nat)]);
    }
}

/// The decimal rendering of `n`.
pub fn dec_string(n: u64) -> (r: String)
    ensures
        r@ == dec_str(n as nat),
{
    let mut s = String::new();
    push_dec(n, &mut s);
    proof {
        assert(s@ =~= dec_str(n as nat));
    }
    s
}

/// The path of a child named `k` under `prefix`: the two joined by a dot,
/// or `k` alone at the root.
pub open spec fn join_path_spec(prefix: Seq<char>, k: Seq<char>) -> Seq<char> {
    if prefix.len() == 0 {
        k
    } else {
        prefix + "."@ + k
    }
}

pub fn join_path(prefix: &str, k: &str) -> (r: String)
    ensures
        r@ == join_path_spec(prefix@, k@),
{
    if prefix.is_empty() {
        k.to_owned()
    } else {
        let mut s = prefix.to_owned();
        s.append(".");
        s.append(k);
        s
    }
}

/// The flat document of a tree at `prefix`: the dot-path, decimal-index
/// and empty-container rules.
pub open spec fn flatten_spec(prefix: Seq<char>, t: JTreeS) -> Seq<(Seq<char>, LeafS)>
    decreases t, 0nat,
{
    match t {
        JTreeS::Scalar(l) => seq![(prefix, l)],
        JTreeS::Arr(a) => if a.len() == 0 {
            seq![(prefix, LeafS::EmptyContainer)]
        } else {
            flatten_arr_spec(prefix, a, 0)
        },
        JTreeS::Obj(m) => if m.len() == 0 {
            seq![(prefix, LeafS::EmptyContainer)]
        } else {
            flatten_obj_spec(prefix, m, 0)
        },
    }
}

/// The entries of the array elements from index `i` on.
pub open spec fn flatten_arr_spec(prefix: Seq<char>, a: Seq<JTreeS>, i: int) -> Seq<
    (Seq<char>, LeafS),
>
    decreases a, a.len() - i,
{
    if 0 <= i < a.len() {
        flatten_spec(join_path_spec(prefix, dec_str(i as nat)), a[i]) + flatten_arr_spec(
            prefix,
            a,
            i + 1,
        )
    } else {
        Seq::empty()
    }
}

/// The entries of the table fields from index `i` on.
pub open spec fn flatten_obj_spec(
    prefix: Seq<char>,
    m: Seq<(Seq<char>, JTreeS)>,
    i: int,
) -> Seq<(Seq<char>, LeafS)>
    decreases m, m.len() - i,
{
    if 0 <= i < m.len() {
        flatten_spec(join_path_spec(prefix, m[i].0), m[i].1) + flatten_obj_spec(prefix, m, i + 1)
    } else {
        Seq::empty()
    }
}

#[verifier::loop_isolation(false)]
fn flatten_into(prefix: &str, t: &JTree, out: &mut Vec<Entry>)
    ensures
        entries_view(final(out)@) == entries_view(old(out)@) + flatten_spec(prefix@, t@),
    decreases t,
{
    match t {
        JTree::Scalar(l) => {
            let ghost base = out@;
            out.push(Entry { path: prefix.to_owned(), value: clone_leaf(l) });
            proof {
                assert(entries_view(out@) =~= entries_view(base) + flatten_spec(prefix@, t@));
            }
        },
        JTree::Arr(a) => {
            let ghost av = arr_view(a@);
            proof {
                assert(t@ == JTreeS::Arr(av));
            }
            if a.len() == 0 {
                let ghost base = out@;
                out.push(Entry { path: prefix.to_owned(), value: Leaf::EmptyContainer });
                proof {
                    assert(entries_view(out@) =~= entries_view(base) + flatten_spec(prefix@, t@));
                }
            } else {
                let ghost base = out@;
                let mut i: usize = 0;
                while i < a.len()
                    invariant
                        i <= a.len(),
                        av == arr_view(a@),
                        entries_view(base) + flatten_arr_spec(prefix@, av, 0) == entries_view(out@)
                            + flatten_arr_spec(prefix@, av, i as int),
                    decreases a.len() - i,
                {
                    let idx = dec_string(i as u64);
                    let child_path = join_path(prefix, idx.as_str());
                    proof {
                        assert(av[i as int] == tree_view(a@[i as int]));
                    }
                    proof {
                        assert(*t == JTree::Arr(*a));
                        assert(decreases_to!(*t => *a));
                        assert(decreases_to!(*a => a@[i as int]));
                        assert(decreases_to!(*t => a@[i as int]));
                    }
                    flatten_into(child_path.as_str(), &a[i], out);
                    proof {
                        assert(flatten_arr_spec(prefix@, av, i as int) == flatten_spec(
                            join_path_spec(prefix@, dec_str(i as nat)),
                            av[i as int],
                        ) + flatten_arr_spec(prefix@, av, i as int + 1));
                        assert(entries_view(base) + flatten_arr_spec(prefix@, av, 0)
                            =~= entries_view(out@) + flatten_arr_spec(prefix@, av, i as int + 1));
                    }
                    i += 1;
                }
                proof {
                    assert(flatten_arr_spec(prefix@, av, a.len() as int) == Seq::<
                        (Seq<char>, LeafS),
                    >::empty());
                    assert(entries_view(out@) + flatten_arr_spec(prefix@, av, a.len() as int)
                        =~= entries_view(out@));
                    assert(entries_view(out@) =~= entries_view(base) + flatten_spec(prefix@, t@));
                }
            }
        },
        JTree::Obj(m) => {
            let ghost mv = obj_view(m@);
            proof {
                assert(t@ == JTreeS::Obj(mv));
            }
            if m.len() == 0 {
                let ghost base = out@;
                out.push(Entry { path: prefix.to_owned(), value: Leaf::EmptyContainer });
                proof {
                    assert(entries_view(out@) =~= entries_view(base) + flatten_spec(prefix@, t@));
                }
            } else {
                let ghost base = out@;
                let mut i: usize = 0;
                while i < m.len()
                    invariant
                        i <= m.len(),
                        mv == obj_view(m@),
                        entries_view(base) + flatten_obj_spec(prefix@, mv, 0) == entries_view(out@)
                            + flatten_obj_spec(prefix@, mv, i as int),
                    decreases m.len() - i,
                {
                    let pair = &m[i];
                    let child_path = join_path(prefix, pair.0.as_str());
                    proof {
                        assert(mv[i as int] == (m@[i as int].0@, tree_view(m@[i as int].1)));
                    }
                    proof {
                        assert(*t == JTree::Obj(*m));
                        assert(decreases_to!(*t => *m));
                        assert(decreases_to!(*m => m@[i as int]));
                        assert(decreases_to!(m@[i as int] => m@[i as int].1));
                        assert(decreases_to!(*t => m@[i as int].1));
                    }
                    flatten_into(child_path.as_str(), &pair.1, out);
                    proof {
                        assert(flatten_obj_spec(prefix@, mv, i as int) == flatten_spec(
                            join_path_spec(prefix@, mv[i as int].0),
                            mv[i as int].1,
                        ) + flatten_obj_spec(prefix@, mv, i as int + 1));
                        assert(entries_view(base) + flatten_obj_spec(prefix@, mv, 0)
                            =~= entries_view(out@) + flatten_obj_spec(prefix@, mv, i as int + 1));
                    }
                    i += 1;
                }
                proof {
                    assert(flatten_obj_spec(prefix@, mv, m.len() as int) == Seq::<
                        (Seq<char>, LeafS),
                    >::empty());
                    assert(entries_view(out@) + flatten_obj_spec(prefix@, mv, m.len() as int)
                        =~= entries_view(out@));
                    assert(entries_view(out@) =~= entries_view(base) + flatten_spec(prefix@, t@));
                }
            }
        },
    }
}

/// The flat document of a whole tree.
pub fn flatten(t: &JTree) -> (r: ResolvedConfig)
    ensures
        r@ == flatten_spec(Seq::empty(), t@),
{
    let mut out: Vec<Entry> = Vec::new();
    proof {
        reveal_strlit("");
        assert(""@ =~= Seq::<char>::empty());
    }
    flatten_into("", t, &mut out);
    proof {
        assert(entries_view(out@) =~= flatten_spec(Seq::empty(), tree_view(*t)));
    }
    ResolvedConfig { entries: out }
}

} // verus!
