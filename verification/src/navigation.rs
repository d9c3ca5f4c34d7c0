use vstd::prelude::*;
use crate::app_state::AppState;
use crate::app_state::StateModel;
use crate::app_state::clamp_cursor;
use crate::app_state::model_inv;
use crate::app_state::model_refresh;
use crate::app_state::sel_wf;
use crate::app_state::clone_paths;
use crate::fs_path::FsPath;
use crate::fs_path::str_eq;
use crate::listing::visible_children;
use crate::listing::visible_names;

verus! {

/// The four navigation keys.
#[derive(Clone, Copy)]
pub enum Direction {
    Up,
    Down,
    In,
    Out,
}

/// Leaving a directory can fail: the directory just exited may no longer
/// appear in the parent's listing.
#[derive(Debug, PartialEq, Eq, Structural)]
pub enum NavError {
    EntryVanished,
}

/// Moving down: one step toward the end of the listing, staying at the last
/// entry, and doing nothing in an empty directory.
pub open spec fn model_down(m: StateModel) -> StateModel {
    if m.child_files.len() == 0 {
        m
    } else if m.cursor as int == m.child_files.len() - 1 {
        m
    } else {
        StateModel { cursor: (m.cursor + 1) as usize, ..m }
    }
}

/// Moving up: one step toward the top of the listing, staying at the first
/// entry.
pub open spec fn model_up(m: StateModel) -> StateModel {
    if m.cursor == 0 {
        m
    } else {
        StateModel { cursor: (m.cursor - 1) as usize, ..m }
    }
}

/// Entering the directory under the cursor, whose raw listing is `entries`:
/// the position left behind is remembered, and the view moves into the
/// entry.
pub open spec fn model_enter(m: StateModel, entries: Seq<Seq<char>>) -> StateModel {
    let dir = m.current_path.push(m.child_files[m.cursor as int]);
    let saved = StateModel {
        cursor_mem: m.cursor_mem.insert(m.current_path, m.cursor),
        current_path: dir,
        ..m
    };
    model_refresh(saved, entries)
}

/// Leaving for the parent directory, whose raw listing is `entries`: the
/// position left behind is remembered, and the cursor lands on the first
/// occurrence of the directory just exited.
pub open spec fn model_exit(m: StateModel, entries: Seq<Seq<char>>) -> StateModel {
    let name = m.current_path.last();
    let saved = StateModel {
        cursor_mem: m.cursor_mem.insert(m.current_path, m.cursor),
        current_path: m.current_path.drop_last(),
        ..m
    };
    let refreshed = model_refresh(saved, entries);
    let landing = match refreshed.child_files.index_of_first(name) {
        Some(i) => i as usize,
        None => 0usize,
    };
    StateModel { cursor: landing, ..refreshed }
}

/// Turning hidden entries on or off re-filters the same raw listing; the
/// cursor is clamped into the listing that results.
pub open spec fn model_toggle_hidden(m: StateModel, entries: Seq<Seq<char>>) -> StateModel {
    let files = visible_names(entries, !m.show_hidden);
    StateModel {
        show_hidden: !m.show_hidden,
        child_files: files,
        cursor: clamp_cursor(m.cursor, files.len()),
        ..m
    }
}

/// Moves the cursor one entry down, saturating at the last entry.
pub fn cursor_down(st: &mut AppState)
    requires
        old(st).wf(),
    ensures
        final(st).wf(),
        final(st)@ == model_down(old(st)@),
        final(st).screen == old(st).screen,
{
    if st.child_files.len() > 0 && st.cursor < st.child_files.len() - 1 {
        st.cursor = st.cursor + 1;
    }
    proof {
        assert(st@ =~= model_down(old(st)@));
    }
}

/// Moves the cursor one entry up, saturating at the first entry.
pub fn cursor_up(st: &mut AppState)
    requires
        old(st).wf(),
    ensures
        final(st).wf(),
        final(st)@ == model_up(old(st)@),
        final(st).screen == old(st).screen,
{
    if st.cursor > 0 {
        st.cursor = st.cursor - 1;
    }
    proof {
        assert(st@ =~= model_up(old(st)@));
    }
}

/// Enters the directory under the cursor; `entries` is that directory's raw
/// listing. The caller decides beforehand that the entry is a directory;
/// opening a plain file is not a state change.
pub fn enter_directory(st: &mut AppState, entries: Vec<String>)
    requires
        old(st).wf(),
        old(st)@.child_files.len() > 0,
    ensures
        final(st).wf(),
        final(st)@ == model_enter(old(st)@, entries.deep_view()),
        final(st).screen == old(st).screen,
{
    let dir = st.cursor_path();
    let from = st.current_path.duplicate();
    let at = st.cursor;
    st.cursor_map.set(from, at);
    st.current_path = dir;
    proof {
        assert(st@.selected == old(st)@.selected);
        assert(st@.clipboard == old(st)@.clipboard);
        assert(st@.child_files == old(st)@.child_files && st@.cursor == old(st)@.cursor);
        assert(model_inv(st@));
    }
    st.refresh(entries);
    proof {
        assert(st@ =~= model_enter(old(st)@, entries.deep_view()));
    }
}

/// Leaves for the parent directory; `entries` is the parent's raw listing.
/// Fails, changing nothing, when the directory just exited no longer shows
/// in that listing.
pub fn exit_directory(st: &mut AppState, entries: Vec<String>) -> (r: Result<(), NavError>)
    requires
        old(st).wf(),
        old(st)@.current_path.len() > 0,
    ensures
        final(st).wf(),
        final(st).screen == old(st).screen,
        r is Ok <==> visible_names(entries.deep_view(), old(st)@.show_hidden).contains(
            old(st)@.current_path.last(),
        ),
        r is Ok ==> final(st)@ == model_exit(old(st)@, entries.deep_view()),
        r is Err ==> *final(st) == *old(st),
{
    let name = match st.current_path.file_name() {
        Some(n) => n,
        None => {
            proof {
                assert(false);
            }
            return Err(NavError::EntryVanished);
        },
    };
    let files = visible_children(&entries, st.show_hidden);
    let ghost fv = files.deep_view();

    let n = files.len();
    let mut landing: usize = 0;
    let mut found = false;
    let mut i: usize = 0;
    while i < n
        invariant
            0 <= i <= n,
            n == files.len(),
            name@ == old(st)@.current_path.last(),
            !found ==> forall|j: int| 0 <= j < i ==> fv[j] != name@,
            found ==> (landing < n && fv[landing as int] == name@ && forall|j: int|
                0 <= j < landing ==> fv[j] != name@),
            fv == files.deep_view(),
        decreases n - i,
    {
        if !found && str_eq(&files[i], &name) {
            found = true;
            landing = i;
            proof {
                assert(fv[i as int] == files@[i as int]@);
            }
        }
        i += 1;
    }

    if !found {
        proof {
            if fv.contains(name@) {
                let j = choose|j: int| 0 <= j < fv.len() && fv[j] == name@;
                assert(fv[j] != name@);
            }
        }
        return Err(NavError::EntryVanished);
    }

    let from = st.current_path.duplicate();
    let at = st.cursor;
    st.cursor_map.set(from, at);
    let parent = match st.current_path.parent() {
        Some(p) => p,
        None => {
            proof {
                assert(false);
            }
            return Err(NavError::EntryVanished);
        },
    };
    st.current_path = parent;
    st.child_files = files;
    st.cursor = landing;
    proof {
        assert(fv.contains(name@)) by {
            assert(fv[landing as int] == name@);
        }
        fv.index_of_first_ensures(name@);
        let idx = fv.index_of_first(name@).unwrap();
        assert(idx == landing as int) by {
            if idx < landing as int {
                assert(fv[idx] != name@);
            }
            if (landing as int) < idx {
                assert(fv[landing as int] != name@);
            }
        }
        assert(st@ =~= model_exit(old(st)@, entries.deep_view()));
    }
    Ok(())
}

/// A selection set with every occurrence of `p` dropped, in order.
pub open spec fn sel_without(s: Seq<Seq<Seq<char>>>, p: Seq<Seq<char>>) -> Seq<Seq<Seq<char>>> {
    s.filter(|q: Seq<Seq<char>>| q != p)
}

/// Dropping `p` from a selection set keeps exactly the other members.
pub proof fn lemma_sel_without_membership(
    s: Seq<Seq<Seq<char>>>,
    p: Seq<Seq<char>>,
    x: Seq<Seq<char>>,
)
    ensures
        sel_without(s, p).contains(x) <==> s.contains(x) && x != p,
    decreases s.len(),
{
    reveal(Seq::filter);
    if s.len() > 0 {
        lemma_sel_without_membership(s.drop_last(), p, x);
        assert(s.contains(x) <==> s.drop_last().contains(x) || s.last() == x) by {
            if s.contains(x) {
                let i = choose|i: int| 0 <= i < s.len() && s[i] == x;
                if i < s.len() - 1 {
                    assert(s.drop_last()[i] == x);
                }
            }
            if s.drop_last().contains(x) {
                let i = choose|i: int| 0 <= i < s.drop_last().len() && s.drop_last()[i] == x;
                assert(s[i] == x);
            }
        }
        if s.last() != p {
            let f = sel_without(s.drop_last(), p);
            assert(sel_without(s, p) == f.push(s.last()));
            assert(f.push(s.last()).contains(x) <==> f.contains(x) || s.last() == x) by {
                if f.contains(x) {
                    let i = choose|i: int| 0 <= i < f.len() && f[i] == x;
                    assert(f.push(s.last())[i] == x);
                }
                if s.last() == x {
                    assert(f.push(s.last())[f.len() as int] == x);
                }
                if f.push(s.last()).contains(x) {
                    let i = choose|i: int| 0 <= i < f.len() + 1 && f.push(s.last())[i] == x;
                    if i < f.len() {
                        assert(f[i] == x);
                    }
                }
            }
        } else {
            assert(sel_without(s, p) == sel_without(s.drop_last(), p));
        }
    }
}

/// Dropping a member keeps a duplicate-free selection set duplicate-free.
pub proof fn lemma_sel_without_no_duplicates(s: Seq<Seq<Seq<char>>>, p: Seq<Seq<char>>)
    requires
        s.no_duplicates(),
    ensures
        sel_without(s, p).no_duplicates(),
    decreases s.len(),
{
    reveal(Seq::filter);
    if s.len() > 0 {
        assert(s.drop_last().no_duplicates());
        lemma_sel_without_no_duplicates(s.drop_last(), p);
        if s.last() != p {
            let f = sel_without(s.drop_last(), p);
            assert(sel_without(s, p) == f.push(s.last()));
            assert(!s.drop_last().contains(s.last())) by {
                if s.drop_last().contains(s.last()) {
                    let i = choose|i: int|
                        0 <= i < s.drop_last().len() && s.drop_last()[i] == s.last();
                    assert(s[i] == s[s.len() - 1]);
                }
            }
            lemma_sel_without_membership(s.drop_last(), p, s.last());
            assert(!f.contains(s.last()));
            assert(f.push(s.last()).no_duplicates()) by {
                assert(forall|i: int, j: int|
                    0 <= i < j < f.len() + 1 ==> f.push(s.last())[i] != f.push(s.last())[j]) by {
                    assert(forall|i: int| 0 <= i < f.len() ==> f.push(s.last())[i] == f[i]);
                    assert(forall|i: int| 0 <= i < f.len() ==> f.contains(f[i]));
                }
            }
        }
    }
}

/// Dropping a path that a selection set does not hold changes nothing.
pub proof fn lemma_sel_without_absent(s: Seq<Seq<Seq<char>>>, p: Seq<Seq<char>>)
    requires
        !s.contains(p),
    ensures
        sel_without(s, p) == s,
    decreases s.len(),
{
    reveal(Seq::filter);
    if s.len() > 0 {
        assert(!s.drop_last().contains(p)) by {
            if s.drop_last().contains(p) {
                let i = choose|i: int| 0 <= i < s.drop_last().len() && s.drop_last()[i] == p;
                assert(s[i] == p);
            }
        }
        lemma_sel_without_absent(s.drop_last(), p);
        assert(s.last() != p) by {
            if s.last() == p {
                assert(s[s.len() - 1] == p);
            }
        }
        assert(s.drop_last().push(s.last()) =~= s);
    }
}

/// Toggling `p` in the selection sets of directory `d`: a first toggle
/// selects, a second deselects, and a selection set that empties is dropped
/// from the map altogether.
pub open spec fn sel_toggle(
    sel: Map<Seq<Seq<char>>, Seq<Seq<Seq<char>>>>,
    d: Seq<Seq<char>>,
    p: Seq<Seq<char>>,
) -> Map<Seq<Seq<char>>, Seq<Seq<Seq<char>>>> {
    if !sel.dom().contains(d) {
        sel.insert(d, seq![p])
    } else if sel[d].contains(p) {
        if sel_without(sel[d], p).len() == 0 {
            sel.remove(d)
        } else {
            sel.insert(d, sel_without(sel[d], p))
        }
    } else {
        sel.insert(d, sel[d].push(p))
    }
}

/// Toggling selection acts on the entry under the cursor and then advances
/// the cursor as one Down keypress would.
pub open spec fn model_toggle_select(m: StateModel) -> StateModel {
    let p = m.current_path.push(m.child_files[m.cursor as int]);
    model_down(StateModel { selected: sel_toggle(m.selected, m.current_path, p), ..m })
}

/// Whether some path in `v` has the components of `p`.
fn paths_contain(v: &Vec<FsPath>, p: &FsPath) -> (r: bool)
    ensures
        r == v.deep_view().contains(p@),
{
    let n = v.len();
    let mut i: usize = 0;
    while i < n
        invariant
            0 <= i <= n,
            n == v.len(),
            forall|j: int| 0 <= j < i ==> v.deep_view()[j] != p@,
        decreases n - i,
    {
        if v[i].eq_path(p) {
            proof {
                assert(v.deep_view()[i as int] == p@);
            }
            return true;
        }
        i += 1;
    }
    proof {
        if v.deep_view().contains(p@) {
            let j = choose|j: int| 0 <= j < v.deep_view().len() && v.deep_view()[j] == p@;
            assert(v.deep_view()[j] != p@);
        }
    }
    false
}

/// The paths of `v` that do not have the components of `p`, in order.
fn paths_without(v: &Vec<FsPath>, p: &FsPath) -> (r: Vec<FsPath>)
    ensures
        r.deep_view() == sel_without(v.deep_view(), p@),
{
    let ghost s = v.deep_view();
    let mut out: Vec<FsPath> = Vec::new();
    let n = v.len();
    let mut i: usize = 0;
    while i < n
        invariant
            0 <= i <= n,
            n == v.len(),
            s == v.deep_view(),
            out.deep_view() == sel_without(s.take(i as int), p@),
        decreases n - i,
    {
        let keep = !v[i].eq_path(p);
        proof {
            reveal(Seq::filter);
            assert(s.take(i + 1).drop_last() =~= s.take(i as int));
            assert(s.take(i + 1).last() == s[i as int]);
            assert(s[i as int] == v@[i as int]@);
        }
        if keep {
            out.push(v[i].duplicate());
            proof {
                assert(out.deep_view() =~= sel_without(s.take(i as int), p@).push(s[i as int]));
                assert(sel_without(s.take(i + 1), p@) == sel_without(s.take(i as int), p@).push(
                    s[i as int],
                ));
            }
        } else {
            proof {
                assert(sel_without(s.take(i + 1), p@) == sel_without(s.take(i as int), p@));
            }
        }
        i += 1;
    }
    proof {
        assert(s.take(n as int) =~= s);
    }
    out
}

/// Toggles selection of the entry under the cursor in the directory being
/// viewed, then advances the cursor one entry, saturating at the last.
pub fn toggle_select(st: &mut AppState)
    requires
        old(st).wf(),
        old(st)@.child_files.len() > 0,
    ensures
        final(st).wf(),
        final(st)@ == model_toggle_select(old(st)@),
        final(st).screen == old(st).screen,
{
    let p = st.cursor_path();
    let ghost pv = p@;
    let ghost d = st.current_path@;
    let existing: Option<Vec<FsPath>> = match st.selected_map.get(&st.current_path) {
        Some(v) => Some(clone_paths(v)),
        None => None,
    };
    match existing {
        None => {
            let mut v: Vec<FsPath> = Vec::new();
            v.push(p);
            proof {
                assert(v.deep_view() =~= seq![pv]);
            }
            st.selected_map.set(st.current_path.duplicate(), v);
        },
        Some(sel) => {
            let ghost sv = sel.deep_view();
            proof {
                assert(old(st)@.selected.dom().contains(d));
                assert(sv == old(st)@.selected[d]);
                assert(sel_wf(sv));
            }
            if paths_contain(&sel, &p) {
                let remaining = paths_without(&sel, &p);
                if remaining.len() == 0 {
                    st.selected_map.remove_key(&st.current_path);
                } else {
                    proof {
                        lemma_sel_without_no_duplicates(sv, pv);
                        assert forall|i: int|
                            0 <= i < remaining.deep_view().len() implies (
                        #[trigger] remaining.deep_view()[i]).len() > 0 by {
                            let x = remaining.deep_view()[i];
                            assert(sel_without(sv, pv).contains(x));
                            lemma_sel_without_membership(sv, pv, x);
                            let j = choose|j: int| 0 <= j < sv.len() && sv[j] == x;
                            assert(sv[j].len() > 0);
                        }
                        assert(sel_wf(remaining.deep_view()));
                    }
                    st.selected_map.set(st.current_path.duplicate(), remaining);
                }
            } else {
                let mut grown = sel;
                grown.push(p);
                proof {
                    assert(grown.deep_view() =~= sv.push(pv));
                    assert(sel_wf(sv.push(pv))) by {
                        assert(forall|i: int| 0 <= i < sv.len() ==> sv.push(pv)[i] == sv[i]);
                        assert(sv.push(pv)[sv.len() as int] == pv);
                        assert(forall|i: int| 0 <= i < sv.len() ==> sv.contains(#[trigger] sv[i]));
                    }
                }
                st.selected_map.set(st.current_path.duplicate(), grown);
            }
        },
    }
    if st.cursor < st.child_files.len() - 1 {
        st.cursor = st.cursor + 1;
    }
    proof {
        assert(st@ =~= model_toggle_select(old(st)@));
    }
}

/// Flips whether hidden entries are shown and re-filters the raw listing
/// `entries` of the directory being viewed.
pub fn toggle_hidden(st: &mut AppState, entries: Vec<String>)
    requires
        old(st).wf(),
    ensures
        final(st).wf(),
        final(st)@ == model_toggle_hidden(old(st)@, entries.deep_view()),
        final(st).screen == old(st).screen,
{
    st.show_hidden = !st.show_hidden;
    st.child_files = visible_children(&entries, st.show_hidden);
    let n = st.child_files.len();
    if n == 0 {
        st.cursor = 0;
    } else if st.cursor >= n {
        st.cursor = n - 1;
    }
    proof {
        assert(st@ =~= model_toggle_hidden(old(st)@, entries.deep_view()));
    }
}

/// One keypress, as the state model sees cursor movement; In and Out are
/// not cursor moves and are read as doing nothing here.
pub open spec fn model_move(m: StateModel, d: Direction) -> StateModel {
    match d {
        Direction::Down => model_down(m),
        Direction::Up => model_up(m),
        _ => m,
    }
}

/// A whole sequence of keypresses, applied in order.
pub open spec fn apply_moves(m: StateModel, ds: Seq<Direction>) -> StateModel
    decreases ds.len(),
{
    if ds.len() == 0 {
        m
    } else {
        apply_moves(model_move(m, ds[0]), ds.drop_first())
    }
}

/// However many Down and Up keypresses follow one another, the cursor never
/// leaves `[0, len - 1]` while the listing is non-empty, stays at zero in
/// an empty one, and the listing itself is untouched.
pub proof fn lemma_moves_keep_cursor_bounded(m: StateModel, ds: Seq<Direction>)
    requires
        model_inv(m),
    ensures
        model_inv(apply_moves(m, ds)),
        apply_moves(m, ds).child_files == m.child_files,
        m.child_files.len() > 0 ==> (apply_moves(m, ds).cursor as int) < m.child_files.len(),
        m.child_files.len() == 0 ==> apply_moves(m, ds).cursor == 0,
    decreases ds.len(),
{
    if ds.len() > 0 {
        let m1 = model_move(m, ds[0]);
        assert(model_inv(m1) && m1.child_files == m.child_files);
        lemma_moves_keep_cursor_bounded(m1, ds.drop_first());
    }
}

/// At the boundaries the cursor is monotonically clamped: Down at the last
/// entry and Up at the first change nothing at all.
pub proof fn lemma_moves_clamp(m: StateModel)
    requires
        model_inv(m),
        m.child_files.len() > 0,
    ensures
        m.cursor as int == m.child_files.len() - 1 ==> model_down(m) == m,
        m.cursor == 0 ==> model_up(m) == m,
{
}

/// Entering the directory under the cursor and leaving it again, while the
/// parent still shows the same duplicate-free entries, restores the view to
/// that parent with the cursor exactly where it was.
pub proof fn lemma_enter_exit_round_trip(
    m: StateModel,
    inner: Seq<Seq<char>>,
    back: Seq<Seq<char>>,
)
    requires
        model_inv(m),
        m.child_files.len() > 0,
        m.child_files.no_duplicates(),
        visible_names(back, m.show_hidden) == m.child_files,
    ensures
        model_exit(model_enter(m, inner), back).current_path == m.current_path,
        model_exit(model_enter(m, inner), back).cursor == m.cursor,
{
    let name = m.child_files[m.cursor as int];
    let inside = model_enter(m, inner);
    assert(inside.current_path == m.current_path.push(name));
    assert(inside.current_path.last() == name);
    assert(inside.current_path.drop_last() =~= m.current_path);
    let out = model_exit(inside, back);
    assert(out.child_files == m.child_files);
    assert(m.child_files.contains(name)) by {
        assert(m.child_files[m.cursor as int] == name);
    }
    m.child_files.index_of_first_ensures(name);
    let idx = m.child_files.index_of_first(name).unwrap();
    assert(idx == m.cursor as int) by {
        if idx < m.cursor as int {
            assert(m.child_files[idx] == m.child_files[m.cursor as int]);
        }
        if (m.cursor as int) < idx {
            assert(m.child_files[m.cursor as int] != name);
        }
    }
}

/// A pushed element joins the members, and nothing else changes.
proof fn lemma_push_contains<A>(s: Seq<A>, y: A, x: A)
    ensures
        s.push(y).contains(x) <==> s.contains(x) || x == y,
{
    if s.contains(x) {
        let i = choose|i: int| 0 <= i < s.len() && s[i] == x;
        assert(s.push(y)[i] == x);
    }
    if x == y {
        assert(s.push(y)[s.len() as int] == x);
    }
    if s.push(y).contains(x) {
        let i = choose|i: int| 0 <= i < s.len() + 1 && s.push(y)[i] == x;
        if i < s.len() {
            assert(s[i] == x);
        }
    }
}

/// Toggling selection of the same entry twice, in the same directory,
/// returns the selection sets to where they stood: the same directories
/// hold a selection, and each holds the same set of paths. In particular a
/// selection set that was absent is absent again, not left behind empty.
pub proof fn lemma_toggle_select_twice(
    sel: Map<Seq<Seq<char>>, Seq<Seq<Seq<char>>>>,
    d: Seq<Seq<char>>,
    p: Seq<Seq<char>>,
)
    requires
        forall|e: Seq<Seq<char>>| #[trigger] sel.dom().contains(e) ==> sel_wf(sel[e]),
    ensures
        sel_toggle(sel_toggle(sel, d, p), d, p).dom() == sel.dom(),
        forall|e: Seq<Seq<char>>| #[trigger] sel.dom().contains(e) ==> sel_toggle(
            sel_toggle(sel, d, p),
            d,
            p,
        )[e].to_set() == sel[e].to_set(),
{
    let t1 = sel_toggle(sel, d, p);
    let t2 = sel_toggle(t1, d, p);
    if !sel.dom().contains(d) {
        assert(t1 == sel.insert(d, seq![p]));
        assert(t1[d].contains(p)) by {
            assert(seq![p][0] == p);
        }
        assert(sel_without(seq![p], p).len() == 0) by {
            let r0 = sel_without(seq![p], p);
            if r0.len() > 0 {
                assert(r0.contains(r0[0]));
                lemma_sel_without_membership(seq![p], p, r0[0]);
                let i = choose|i: int| 0 <= i < 1 && seq![p][i] == r0[0];
                assert(r0[0] == p);
            }
        }
        assert(t2 == t1.remove(d));
        assert(t2.dom() =~= sel.dom());
        assert(forall|e: Seq<Seq<char>>| #[trigger] sel.dom().contains(e) ==> t2[e] == sel[e]);
    } else if sel[d].contains(p) {
        let r = sel_without(sel[d], p);
        if r.len() == 0 {
            assert(t1 == sel.remove(d));
            assert(!t1.dom().contains(d));
            assert(t2 == t1.insert(d, seq![p]));
            assert(t2.dom() =~= sel.dom());
            assert(t2[d].to_set() == sel[d].to_set()) by {
                assert forall|x: Seq<Seq<char>>| sel[d].contains(x) implies x == p by {
                    lemma_sel_without_membership(sel[d], p, x);
                    if x != p {
                        assert(r.contains(x));
                    }
                }
                assert(seq![p].contains(p)) by {
                    assert(seq![p][0] == p);
                }
                assert forall|x: Seq<Seq<char>>| seq![p].contains(x) implies x == p by {
                    let i = choose|i: int| 0 <= i < 1 && seq![p][i] == x;
                }
                assert(t2[d].to_set() =~= sel[d].to_set());
            }
        } else {
            assert(t1 == sel.insert(d, r));
            assert(!t1[d].contains(p)) by {
                lemma_sel_without_membership(sel[d], p, p);
            }
            assert(t2 == t1.insert(d, r.push(p)));
            assert(t2.dom() =~= sel.dom());
            assert(t2[d].to_set() == sel[d].to_set()) by {
                assert forall|x: Seq<Seq<char>>|
                    r.push(p).contains(x) <==> sel[d].contains(x) by {
                    lemma_push_contains(r, p, x);
                    lemma_sel_without_membership(sel[d], p, x);
                }
                assert(t2[d].to_set() =~= sel[d].to_set());
            }
        }
    } else {
        let grown = sel[d].push(p);
        assert(t1 == sel.insert(d, grown));
        assert(t1[d].contains(p)) by {
            assert(grown[sel[d].len() as int] == p);
        }
        assert(sel_without(grown, p) == sel[d]) by {
            reveal(Seq::filter);
            assert(grown.drop_last() =~= sel[d]);
            assert(grown.last() == p);
            lemma_sel_without_absent(sel[d], p);
        }
        assert(sel[d].len() > 0);
        assert(t2 == t1.insert(d, sel[d]));
        assert(t2.dom() =~= sel.dom());
        assert(t2[d].to_set() == sel[d].to_set());
    }
    assert(forall|e: Seq<Seq<char>>|
        #[trigger] sel.dom().contains(e) && e != d ==> t2[e] == sel[e]);
}

} // verus!
