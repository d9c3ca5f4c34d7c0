use vstd::prelude::*;
use crate::assoc::PathMap;
use crate::fs_path::FsPath;
use crate::listing::visible_children;
use crate::listing::visible_names;

verus! {

/// Viewport dimensions, set once at startup from the terminal size.
pub struct Screen {
    pub width: i32,
    pub height: i32,
}

/// One clipboard slot: a path, and whether it was cut rather than copied.
pub struct ClipEntry {
    pub path: FsPath,
    pub cut: bool,
}

impl DeepView for ClipEntry {
    type V = (Seq<Seq<char>>, bool);

    open spec fn deep_view(&self) -> (Seq<Seq<char>>, bool) {
        (self.path@, self.cut)
    }
}

/// The mathematical reading of the browser's state, which every transition
/// contract is written over.
#[verifier::ext_equal]
pub struct StateModel {
    /// Absolute path of the directory being viewed.
    pub current_path: Seq<Seq<char>>,
    /// Names of the entries shown in that directory, in listing order.
    pub child_files: Seq<Seq<char>>,
    /// Index of the highlighted entry.
    pub cursor: usize,
    /// Whether hidden entries are shown.
    pub show_hidden: bool,
    /// Remembered cursor position for each directory left earlier.
    pub cursor_mem: Map<Seq<Seq<char>>, usize>,
    /// Selected entry paths for each directory that has any.
    pub selected: Map<Seq<Seq<char>>, Seq<Seq<Seq<char>>>>,
    /// The most recently yanked paths, each tagged with its cut flag.
    pub clipboard: Seq<(Seq<Seq<char>>, bool)>,
}

/// A stored selection set: never empty, free of duplicates, and holding
/// only non-root paths.
pub open spec fn sel_wf(s: Seq<Seq<Seq<char>>>) -> bool {
    &&& s.len() > 0
    &&& s.no_duplicates()
    &&& forall|i: int| 0 <= i < s.len() ==> s[i].len() > 0
}

/// What every reachable state satisfies: the cursor stays inside the
/// listing (and sits at zero in an empty directory), stored selection sets
/// are well formed, and clipboard paths are never the root.
pub open spec fn model_inv(m: StateModel) -> bool {
    &&& if m.child_files.len() == 0 {
        m.cursor == 0
    } else {
        (m.cursor as int) < m.child_files.len()
    }
    &&& forall|d: Seq<Seq<char>>| #[trigger] m.selected.dom().contains(d) ==> sel_wf(m.selected[d])
    &&& forall|i: int| 0 <= i < m.clipboard.len() ==> (#[trigger] m.clipboard[i].0).len() > 0
}

/// The cursor index a listing of `len` entries allows for a wish of `c`:
/// `c` itself when in range, else the last entry, or zero when empty.
pub open spec fn clamp_cursor(c: usize, len: nat) -> usize {
    if len == 0 {
        0usize
    } else if (c as int) < len {
        c
    } else {
        (len - 1) as usize
    }
}

/// The selection set of the directory being viewed; absent means empty.
pub open spec fn spec_selected(m: StateModel) -> Seq<Seq<Seq<char>>> {
    if m.selected.dom().contains(m.current_path) {
        m.selected[m.current_path]
    } else {
        Seq::empty()
    }
}

/// Re-reading the listing: the shown entries become the visible part of the
/// raw listing, and the cursor returns to the position remembered for this
/// directory, or to the top, clamped into the new listing.
pub open spec fn model_refresh(m: StateModel, entries: Seq<Seq<char>>) -> StateModel {
    let files = visible_names(entries, m.show_hidden);
    let wish = if m.cursor_mem.dom().contains(m.current_path) {
        m.cursor_mem[m.current_path]
    } else {
        0usize
    };
    StateModel { child_files: files, cursor: clamp_cursor(wish, files.len()), ..m }
}

/// The whole state of the browser.
pub struct AppState {
    pub screen: Screen,
    pub cursor_map: PathMap<usize>,
    pub cursor: usize,
    pub show_hidden: bool,
    pub current_path: FsPath,
    pub child_files: Vec<String>,
    pub selected_map: PathMap<Vec<FsPath>>,
    pub clipboard: Vec<ClipEntry>,
}

impl View for AppState {
    type V = StateModel;

    open spec fn view(&self) -> StateModel {
        StateModel {
            current_path: self.current_path@,
            child_files: self.child_files.deep_view(),
            cursor: self.cursor,
            show_hidden: self.show_hidden,
            cursor_mem: self.cursor_map@,
            selected: self.selected_map@,
            clipboard: self.clipboard.deep_view(),
        }
    }
}

/// A copy of a vector of paths, component for component.
pub fn clone_paths(v: &Vec<FsPath>) -> (r: Vec<FsPath>)
    ensures
        r.deep_view() == v.deep_view(),
{
    let mut out: Vec<FsPath> = Vec::new();
    let n = v.len();
    let mut i: usize = 0;
    while i < n
        invariant
            0 <= i <= n,
            n == v.len(),
            out.len() == i,
            forall|j: int| 0 <= j < i ==> out@[j]@ == v@[j]@,
        decreases n - i,
    {
        out.push(v[i].duplicate());
        i += 1;
    }
    proof {
        assert(out.deep_view() =~= v.deep_view());
    }
    out
}

impl AppState {
    /// The representation keeps its side conditions and the model its
    /// invariant.
    pub open spec fn wf(&self) -> bool {
        &&& self.cursor_map.distinct_keys()
        &&& self.selected_map.distinct_keys()
        &&& model_inv(self@)
    }

    /// A fresh state viewing `start_dir`, whose raw listing is `entries`:
    /// hidden entries are off, nothing is remembered, selected or yanked,
    /// and the cursor sits at the top.
    pub fn new(start_dir: FsPath, entries: Vec<String>) -> (r: AppState)
        ensures
            r.wf(),
            r@.current_path == start_dir@,
            r@.child_files == visible_names(entries.deep_view(), false),
            r@.cursor == 0,
            r@.show_hidden == false,
            r@.cursor_mem == Map::<Seq<Seq<char>>, usize>::empty(),
            r@.selected == Map::<Seq<Seq<char>>, Seq<Seq<Seq<char>>>>::empty(),
            r@.clipboard == Seq::<(Seq<Seq<char>>, bool)>::empty(),
            r.screen.width == 0 && r.screen.height == 0,
    {
        let child_files = visible_children(&entries, false);
        let r = AppState {
            screen: Screen { height: 0, width: 0 },
            cursor_map: PathMap::empty(),
            cursor: 0,
            show_hidden: false,
            current_path: start_dir,
            child_files,
            selected_map: PathMap::empty(),
            clipboard: Vec::new(),
        };
        proof {
            assert(r.clipboard.deep_view() =~= Seq::<(Seq<Seq<char>>, bool)>::empty());
        }
        r
    }

    /// The full path of the entry the cursor is on.
    pub fn cursor_path(&self) -> (r: FsPath)
        requires
            self.wf(),
            self@.child_files.len() > 0,
        ensures
            r@ == self@.current_path.push(self@.child_files[self@.cursor as int]),
            r@.len() > 0,
    {
        let r = self.current_path.join(&self.child_files[self.cursor]);
        proof {
            assert(self.child_files@[self.cursor as int]@ == self@.child_files[self@.cursor as int]);
        }
        r
    }

    /// The selection set of the directory being viewed, empty when none is
    /// stored.
    pub fn selected_paths(&self) -> (r: Vec<FsPath>)
        requires
            self.wf(),
        ensures
            r.deep_view() == spec_selected(self@),
    {
        match self.selected_map.get(&self.current_path) {
            Some(v) => clone_paths(v),
            None => {
                let r: Vec<FsPath> = Vec::new();
                proof {
                    assert(r.deep_view() =~= spec_selected(self@));
                }
                r
            },
        }
    }

    /// Re-reads the directory from its raw listing `entries`, restoring the
    /// remembered cursor position.
    pub fn refresh(&mut self, entries: Vec<String>)
        requires
            old(self).wf(),
        ensures
            final(self).wf(),
            final(self)@ == model_refresh(old(self)@, entries.deep_view()),
            final(self).screen == old(self).screen,
    {
        self.child_files = visible_children(&entries, self.show_hidden);
        let wish: usize = match self.cursor_map.get(&self.current_path) {
            Some(c) => *c,
            None => 0,
        };
        let n = self.child_files.len();
        self.cursor = if n == 0 {
            0
        } else if wish < n {
            wish
        } else {
            n - 1
        };
        proof {
            assert(self@ =~= model_refresh(old(self)@, entries.deep_view()));
        }
    }

    /// The directory above the one being viewed, or `None` at the root.
    pub fn parent_directory(&self) -> (r: Option<FsPath>)
        ensures
            self.current_path.is_root() ==> r is None,
            !self.current_path.is_root() ==> (r matches Some(p) && p@
                == self@.current_path.drop_last()),
    {
        self.current_path.parent()
    }
}

} // verus!
