use vstd::prelude::*;
use crate::app_state::AppState;
use crate::app_state::StateModel;
use crate::app_state::spec_selected;
use crate::fs_path::FsPath;
use crate::fs_path::prefix_underscore;
use crate::fs_path::str_eq;

verus! {

/// One planned file operation of a paste batch: copy `src` to `dest`
/// recursively, and, for an entry that was cut, remove `src` afterwards.
pub struct PasteOp {
    pub src: FsPath,
    pub dest: FsPath,
    pub remove_source: bool,
}

impl DeepView for PasteOp {
    type V = (Seq<Seq<char>>, Seq<Seq<char>>, bool);

    open spec fn deep_view(&self) -> (Seq<Seq<char>>, Seq<Seq<char>>, bool) {
        (self.src@, self.dest@, self.remove_source)
    }
}

/// Paths tagged with one cut flag, in order: the clipboard a yank builds.
pub open spec fn tag_cut(ps: Seq<Seq<Seq<char>>>, cut: bool) -> Seq<(Seq<Seq<char>>, bool)> {
    ps.map_values(|q: Seq<Seq<char>>| (q, cut))
}

/// Yank replaces the clipboard with the selected paths of the directory
/// being viewed, or with the entry under the cursor when nothing is
/// selected, each tagged with the cut flag; in an empty directory with no
/// selection there is nothing to yank and the state is unchanged.
pub open spec fn model_yank(m: StateModel, cut: bool) -> StateModel {
    if spec_selected(m).len() > 0 {
        StateModel { clipboard: tag_cut(spec_selected(m), cut), ..m }
    } else if m.child_files.len() > 0 {
        StateModel {
            clipboard: seq![(m.current_path.push(m.child_files[m.cursor as int]), cut)],
            ..m
        }
    } else {
        m
    }
}

/// Replaces the clipboard as `model_yank` describes.
pub fn yank(st: &mut AppState, cut: bool)
    requires
        old(st).wf(),
    ensures
        final(st).wf(),
        final(st)@ == model_yank(old(st)@, cut),
        final(st).screen == old(st).screen,
{
    let sel = st.selected_paths();
    if sel.len() > 0 {
        let ghost sv = sel.deep_view();
        let mut clip: Vec<crate::app_state::ClipEntry> = Vec::new();
        let n = sel.len();
        let mut i: usize = 0;
        while i < n
            invariant
                0 <= i <= n,
                n == sel.len(),
                sv == sel.deep_view(),
                clip.len() == i,
                forall|j: int| 0 <= j < i ==> clip.deep_view()[j] == (sv[j], cut),
            decreases n - i,
        {
            let ghost c0 = clip.deep_view();
            clip.push(crate::app_state::ClipEntry { path: sel[i].duplicate(), cut });
            proof {
                assert(clip.deep_view() =~= c0.push((sv[i as int], cut)));
            }
            i += 1;
        }
        st.clipboard = clip;
        proof {
            assert(st.clipboard.deep_view() =~= tag_cut(sv, cut));
            assert(st@ =~= model_yank(old(st)@, cut));
        }
    } else if st.child_files.len() > 0 {
        let p = st.cursor_path();
        let mut clip: Vec<crate::app_state::ClipEntry> = Vec::new();
        clip.push(crate::app_state::ClipEntry { path: p, cut });
        st.clipboard = clip;
        proof {
            assert(st.clipboard.deep_view() =~= seq![
                (old(st)@.current_path.push(old(st)@.child_files[old(st)@.cursor as int]), cut),
            ]);
            assert(st@ =~= model_yank(old(st)@, cut));
        }
    } else {
        proof {
            assert(st@ =~= model_yank(old(st)@, cut));
        }
    }
}

/// The longest name in a listing; zero when the listing is empty.
pub open spec fn max_name_len(names: Seq<Seq<char>>) -> nat
    decreases names.len(),
{
    if names.len() == 0 {
        0
    } else {
        let rest = max_name_len(names.drop_first());
        if names[0].len() > rest {
            names[0].len()
        } else {
            rest
        }
    }
}

/// A listed name is never longer than the longest listed name.
pub proof fn lemma_contained_name_len(names: Seq<Seq<char>>, x: Seq<char>)
    requires
        names.contains(x),
    ensures
        x.len() <= max_name_len(names),
    decreases names.len(),
{
    let i = choose|i: int| 0 <= i < names.len() && names[i] == x;
    if i == 0 {
    } else {
        assert(names.drop_first().contains(x)) by {
            assert(names.drop_first()[i - 1] == x);
        }
        lemma_contained_name_len(names.drop_first(), x);
    }
}

/// The name a clipboard entry gets in the destination: underscores are
/// prepended until the name collides with nothing in the listing.
pub open spec fn deconflicted(name: Seq<char>, existing: Seq<Seq<char>>) -> Seq<char>
    decreases max_name_len(existing) + 1 - name.len(),
    via deconflicted_decreases
{
    if existing.contains(name) {
        deconflicted(seq!['_'] + name, existing)
    } else {
        name
    }
}

#[via_fn]
proof fn deconflicted_decreases(name: Seq<char>, existing: Seq<Seq<char>>) {
    if existing.contains(name) {
        lemma_contained_name_len(existing, name);
    }
}

/// Whether some name of `v` reads `x`.
fn names_contain(v: &Vec<String>, x: &String) -> (r: bool)
    ensures
        r == v.deep_view().contains(x@),
{
    let n = v.len();
    let mut i: usize = 0;
    while i < n
        invariant
            0 <= i <= n,
            n == v.len(),
            forall|j: int| 0 <= j < i ==> v.deep_view()[j] != x@,
        decreases n - i,
    {
        if str_eq(&v[i], x) {
            proof {
                assert(v.deep_view()[i as int] == x@);
            }
            return true;
        }
        i += 1;
    }
    proof {
        if v.deep_view().contains(x@) {
            let j = choose|j: int| 0 <= j < v.deep_view().len() && v.deep_view()[j] == x@;
            assert(v.deep_view()[j] != x@);
        }
    }
    false
}

/// Prepends underscores to `name` until it collides with nothing in
/// `existing`.
pub fn deconflict_name(name: &String, existing: &Vec<String>) -> (r: String)
    ensures
        r@ == deconflicted(name@, existing.deep_view()),
{
    let ghost ev = existing.deep_view();
    let mut cur = name.clone();
    while names_contain(existing, &cur)
        invariant
            ev == existing.deep_view(),
            deconflicted(cur@, ev) == deconflicted(name@, ev),
        decreases max_name_len(ev) + 1 - cur@.len(),
    {
        proof {
            lemma_contained_name_len(ev, cur@);
        }
        cur = prefix_underscore(&cur);
    }
    cur
}

/// The operations one paste performs, in clipboard order: each entry is
/// copied into the destination directory under its deconflicted name, and a
/// cut entry's source is removed afterwards. Collisions are judged against
/// the one listing taken when the paste began.
pub open spec fn paste_ops(
    clip: Seq<(Seq<Seq<char>>, bool)>,
    dest_dir: Seq<Seq<char>>,
    existing: Seq<Seq<char>>,
) -> Seq<(Seq<Seq<char>>, Seq<Seq<char>>, bool)> {
    clip.map_values(
        |e: (Seq<Seq<char>>, bool)| (e.0, dest_dir.push(deconflicted(e.0.last(), existing)), e.1),
    )
}

/// Remembering the cursor of the directory being viewed, as paste does just
/// before the batch runs and the listing is re-read.
pub open spec fn model_remember_cursor(m: StateModel) -> StateModel {
    StateModel { cursor_mem: m.cursor_mem.insert(m.current_path, m.cursor), ..m }
}

/// Plans the paste of the clipboard into the directory being viewed, whose
/// hidden-inclusive raw listing is `existing`, and remembers the cursor so
/// that the refresh after the batch restores it. The caller runs the
/// returned operations in order, then refreshes.
pub fn paste(st: &mut AppState, existing: &Vec<String>) -> (ops: Vec<PasteOp>)
    requires
        old(st).wf(),
    ensures
        final(st).wf(),
        final(st)@ == model_remember_cursor(old(st)@),
        final(st).screen == old(st).screen,
        ops.deep_view() == paste_ops(
            old(st)@.clipboard,
            old(st)@.current_path,
            existing.deep_view(),
        ),
{
    let ghost ev = existing.deep_view();
    let ghost clipv = st.clipboard.deep_view();
    let mut ops: Vec<PasteOp> = Vec::new();
    let n = st.clipboard.len();
    let mut i: usize = 0;
    while i < n
        invariant
            0 <= i <= n,
            n == st.clipboard.len(),
            st == old(st),
            st.wf(),
            ev == existing.deep_view(),
            clipv == st.clipboard.deep_view(),
            ops.len() == i,
            forall|j: int|
                0 <= j < i ==> ops.deep_view()[j] == (
                    clipv[j].0,
                    st@.current_path.push(deconflicted(clipv[j].0.last(), ev)),
                    clipv[j].1,
                ),
        decreases n - i,
    {
        proof {
            assert(st@.clipboard == clipv);
            assert((st@.clipboard[i as int].0).len() > 0);
            assert(clipv[i as int].0 == st.clipboard[i as int].path@);
        }
        let name = match st.clipboard[i].path.file_name() {
            Some(nm) => nm,
            None => {
                proof {
                    assert(false);
                }
                return ops;
            },
        };
        let fresh = deconflict_name(&name, existing);
        let dest = st.current_path.join(&fresh);
        let ghost o0 = ops.deep_view();
        ops.push(
            PasteOp {
                src: st.clipboard[i].path.duplicate(),
                dest,
                remove_source: st.clipboard[i].cut,
            },
        );
        proof {
            assert(name@ == clipv[i as int].0.last());
            assert(ops.deep_view() =~= o0.push((
                clipv[i as int].0,
                st@.current_path.push(deconflicted(clipv[i as int].0.last(), ev)),
                clipv[i as int].1,
            )));
        }
        i += 1;
    }
    let from = st.current_path.duplicate();
    let at = st.cursor;
    st.cursor_map.set(from, at);
    proof {
        assert(st@ =~= model_remember_cursor(old(st)@));
        assert(ops.deep_view() =~= paste_ops(clipv, old(st)@.current_path, ev));
    }
    ops
}

/// What one delete removes: the selected paths of the directory being
/// viewed, or the entry under the cursor when nothing is selected; nothing
/// at all in an empty directory with no selection.
pub open spec fn delete_targets(m: StateModel) -> Seq<Seq<Seq<char>>> {
    if spec_selected(m).len() > 0 {
        spec_selected(m)
    } else if m.child_files.len() > 0 {
        seq![m.current_path.push(m.child_files[m.cursor as int])]
    } else {
        Seq::empty()
    }
}

/// Plans a delete: the paths to remove recursively, in order. The caller
/// runs the removals, then refreshes.
pub fn delete_cursor(st: &AppState) -> (r: Vec<FsPath>)
    requires
        st.wf(),
    ensures
        r.deep_view() == delete_targets(st@),
{
    let sel = st.selected_paths();
    if sel.len() > 0 {
        sel
    } else if st.child_files.len() > 0 {
        let mut r: Vec<FsPath> = Vec::new();
        r.push(st.cursor_path());
        proof {
            assert(r.deep_view() =~= delete_targets(st@));
        }
        r
    } else {
        let r: Vec<FsPath> = Vec::new();
        proof {
            assert(r.deep_view() =~= delete_targets(st@));
        }
        r
    }
}

/// A pasted entry never clobbers anything: its destination name is absent
/// from the listing the collision check ran against.
pub proof fn lemma_deconflicted_free(name: Seq<char>, existing: Seq<Seq<char>>)
    ensures
        !existing.contains(deconflicted(name, existing)),
    decreases max_name_len(existing) + 1 - name.len(),
{
    if existing.contains(name) {
        lemma_contained_name_len(existing, name);
        lemma_deconflicted_free(seq!['_'] + name, existing);
    }
}

/// A name that collides once, and whose underscored form is free, gets
/// exactly one leading underscore.
pub proof fn lemma_one_collision_one_underscore(name: Seq<char>, existing: Seq<Seq<char>>)
    requires
        existing.contains(name),
        !existing.contains(seq!['_'] + name),
    ensures
        deconflicted(name, existing) == seq!['_'] + name,
{
    assert(deconflicted(name, existing) == deconflicted(seq!['_'] + name, existing));
}

/// Every planned operation keeps its clipboard entry's source path and
/// carries its cut flag as the order to remove the source after copying:
/// pasting a cut clipboard moves each entry.
pub proof fn lemma_paste_moves_cut_entries(
    clip: Seq<(Seq<Seq<char>>, bool)>,
    dest_dir: Seq<Seq<char>>,
    existing: Seq<Seq<char>>,
    i: int,
)
    requires
        0 <= i < clip.len(),
    ensures
        paste_ops(clip, dest_dir, existing).len() == clip.len(),
        paste_ops(clip, dest_dir, existing)[i].0 == clip[i].0,
        paste_ops(clip, dest_dir, existing)[i].2 == clip[i].1,
        paste_ops(clip, dest_dir, existing)[i].1 == dest_dir.push(
            deconflicted(clip[i].0.last(), existing),
        ),
{
}

} // verus!
