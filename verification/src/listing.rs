use vstd::prelude::*;
use crate::fs_path::hidden_name;
use crate::fs_path::is_hidden_name;

verus! {

/// The names a raw directory listing shows: all of them when `show_hidden`
/// is set, otherwise only those not marked hidden.
pub open spec fn visible_names(entries: Seq<Seq<char>>, show_hidden: bool) -> Seq<Seq<char>> {
    entries.filter(|n: Seq<char>| show_hidden || !hidden_name(n))
}

/// A filtered sequence holds exactly the members of the original that the
/// predicate lets through.
pub proof fn lemma_filter_membership<A>(s: Seq<A>, pred: spec_fn(A) -> bool, x: A)
    ensures
        s.filter(pred).contains(x) <==> s.contains(x) && pred(x),
    decreases s.len(),
{
    reveal(Seq::filter);
    if s.len() > 0 {
        lemma_filter_membership(s.drop_last(), pred, x);
        assert(s.contains(x) <==> s.drop_last().contains(x) || s.last() == x) by {
            if s.contains(x) {
                let i = choose|i: int| 0 <= i < s.len() && s[i] == x;
                if i < s.len() - 1 {
                    assert(s.drop_last()[i] == x);
                }
            }
            if s.drop_last().contains(x) {
                let i = choose|i: int| 0 <= i < s.drop_last().len() && s.drop_last()[i] == x;
                assert(s[i] == x);
            }
        }
        if pred(s.last()) {
            let f = s.drop_last().filter(pred);
            assert(s.filter(pred) == f.push(s.last()));
            assert(s.filter(pred).contains(x) <==> f.contains(x) || s.last() == x) by {
                if f.contains(x) {
                    let i = choose|i: int| 0 <= i < f.len() && f[i] == x;
                    assert(f.push(s.last())[i] == x);
                }
                if s.last() == x {
                    assert(f.push(s.last())[f.len() as int] == x);
                }
                if f.push(s.last()).contains(x) {
                    let i = choose|i: int| 0 <= i < f.len() + 1 && f.push(s.last())[i] == x;
                    if i < f.len() {
                        assert(f[i] == x);
                    }
                }
            }
        }
    }
}

/// Filtering keeps a duplicate-free sequence duplicate-free.
pub proof fn lemma_filter_no_duplicates<A>(s: Seq<A>, pred: spec_fn(A) -> bool)
    requires
        s.no_duplicates(),
    ensures
        s.filter(pred).no_duplicates(),
    decreases s.len(),
{
    reveal(Seq::filter);
    if s.len() > 0 {
        assert(s.drop_last().no_duplicates());
        lemma_filter_no_duplicates(s.drop_last(), pred);
        if pred(s.last()) {
            let f = s.drop_last().filter(pred);
            assert(!s.drop_last().contains(s.last())) by {
                if s.drop_last().contains(s.last()) {
                    let i = choose|i: int|
                        0 <= i < s.drop_last().len() && s.drop_last()[i] == s.last();
                    assert(s[i] == s[s.len() - 1]);
                }
            }
            lemma_filter_membership(s.drop_last(), pred, s.last());
            assert(!f.contains(s.last()));
            assert(f.push(s.last()).no_duplicates()) by {
                assert(forall|i: int, j: int|
                    0 <= i < j < f.len() + 1 ==> f.push(s.last())[i] != f.push(s.last())[j]) by {
                    assert(forall|i: int| 0 <= i < f.len() ==> f.push(s.last())[i] == f[i]);
                    assert(forall|i: int| 0 <= i < f.len() ==> f.contains(f[i]));
                }
            }
        }
    }
}

/// The Lister's pure half: keeps, in order, the entries of a raw directory
/// listing that the hidden-entry setting lets through.
pub fn visible_children(entries: &Vec<String>, show_hidden: bool) -> (r: Vec<String>)
    ensures
        r.deep_view() == visible_names(entries.deep_view(), show_hidden),
{
    let ghost s = entries.deep_view();
    let ghost pred = |n: Seq<char>| show_hidden || !hidden_name(n);
    let mut out: Vec<String> = Vec::new();
    let n = entries.len();
    let mut i: usize = 0;
    while i < n
        invariant
            0 <= i <= n,
            n == entries.len(),
            s == entries.deep_view(),
            pred == (|n: Seq<char>| show_hidden || !hidden_name(n)),
            out.deep_view() == s.take(i as int).filter(pred),
        decreases n - i,
    {
        let keep = show_hidden || !is_hidden_name(&entries[i]);
        proof {
            reveal(Seq::filter);
            assert(s.take(i + 1).drop_last() =~= s.take(i as int));
            assert(s.take(i + 1).last() == s[i as int]);
            assert(s[i as int] == entries@[i as int]@);
        }
        if keep {
            out.push(entries[i].clone());
            proof {
                assert(out.deep_view() =~= s.take(i as int).filter(pred).push(s[i as int]));
                assert(s.take(i + 1).filter(pred) == s.take(i as int).filter(pred).push(
                    s[i as int],
                ));
            }
        } else {
            proof {
                assert(s.take(i + 1).filter(pred) == s.take(i as int).filter(pred));
            }
        }
        i += 1;
    }
    proof {
        assert(s.take(n as int) =~= s);
    }
    out
}

/// The visible part of a listing holds exactly the members of the raw
/// listing that the hidden-entry setting lets through.
pub proof fn lemma_visible_membership(s: Seq<Seq<char>>, show_hidden: bool, x: Seq<char>)
    ensures
        visible_names(s, show_hidden).contains(x) <==> s.contains(x) && (show_hidden
            || !hidden_name(x)),
{
    lemma_filter_membership(s, |n: Seq<char>| show_hidden || !hidden_name(n), x);
}

/// Filtering to the visible part keeps a duplicate-free listing
/// duplicate-free.
pub proof fn lemma_visible_no_duplicates(s: Seq<Seq<char>>, show_hidden: bool)
    requires
        s.no_duplicates(),
    ensures
        visible_names(s, show_hidden).no_duplicates(),
{
    lemma_filter_no_duplicates(s, |n: Seq<char>| show_hidden || !hidden_name(n));
}

/// With hidden entries off, the listing shows no entry whose name is marked
/// hidden, and shows every other entry of the raw listing exactly once: it
/// stays free of duplicates and keeps exactly the unhidden members.
pub proof fn lemma_visible_names_exact(entries: Seq<Seq<char>>, name: Seq<char>)
    requires
        entries.no_duplicates(),
    ensures
        visible_names(entries, false).no_duplicates(),
        hidden_name(name) ==> !visible_names(entries, false).contains(name),
        !hidden_name(name) ==> (visible_names(entries, false).contains(name) <==> entries.contains(
            name,
        )),
{
    lemma_visible_no_duplicates(entries, false);
    lemma_visible_membership(entries, false, name);
}

} // verus!
