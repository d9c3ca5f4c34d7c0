use vstd::prelude::*;
use vstd::string::StrSliceExecFns;
use vstd::string::StringExecFns;

verus! {

/// An absolute filesystem path, held as the sequence of its component
/// names from the root downward. The root itself has no components.
pub struct FsPath {
    pub parts: Vec<String>,
}

impl View for FsPath {
    type V = Seq<Seq<char>>;

    open spec fn view(&self) -> Seq<Seq<char>> {
        self.parts.deep_view()
    }
}

impl DeepView for FsPath {
    type V = Seq<Seq<char>>;

    open spec fn deep_view(&self) -> Seq<Seq<char>> {
        self.view()
    }
}

/// A name marks its entry as hidden when it starts with a dot.
pub open spec fn hidden_name(name: Seq<char>) -> bool {
    name.len() > 0 && name[0] == '.'
}

/// Whether `name` marks its entry as hidden.
pub fn is_hidden_name(name: &String) -> (r: bool)
    ensures
        r == hidden_name(name@),
{
    let n = name.as_str().unicode_len();
    n > 0 && name.as_str().get_char(0) == '.'
}

/// The given name with one underscore prepended.
pub fn prefix_underscore(name: &String) -> (r: String)
    ensures
        r@ == seq!['_'] + name@,
{
    proof {
        reveal_strlit("_");
    }
    let r = String::from_str("_").concat(name.as_str());
    proof {
        assert(r@ =~= seq!['_'] + name@);
    }
    r
}

/// Equality of two strings, stated over their character sequences.
pub fn str_eq(a: &String, b: &String) -> (r: bool)
    ensures
        r == (a@ == b@),
{
    *a == *b
}

impl FsPath {
    /// The root path, with no components.
    pub fn root() -> (r: FsPath)
        ensures
            r@ == Seq::<Seq<char>>::empty(),
    {
        let r = FsPath { parts: Vec::new() };
        proof {
            assert(r@ =~= Seq::<Seq<char>>::empty());
        }
        r
    }

    /// The root path is the only path with no components.
    pub open spec fn is_root(&self) -> bool {
        self@.len() == 0
    }

    /// Whether two paths have the same components.
    pub fn eq_path(&self, other: &FsPath) -> (r: bool)
        ensures
            r == (self@ == other@),
    {
        if self.parts.len() != other.parts.len() {
            assert(self@.len() != other@.len());
            return false;
        }
        let n = self.parts.len();
        let mut i: usize = 0;
        while i < n
            invariant
                0 <= i <= n,
                n == self.parts.len() == other.parts.len(),
                forall|j: int| 0 <= j < i ==> self@[j] == other@[j],
            decreases n - i,
        {
            if !(self.parts[i] == other.parts[i]) {
                assert(self@[i as int] != other@[i as int]);
                return false;
            }
            assert(self@[i as int] == other@[i as int]);
            i += 1;
        }
        proof {
            assert(self@ =~= other@);
        }
        true
    }

    /// A copy of this path with the same components.
    pub fn duplicate(&self) -> (r: FsPath)
        ensures
            r@ == self@,
    {
        let mut parts: Vec<String> = Vec::new();
        let n = self.parts.len();
        let mut i: usize = 0;
        while i < n
            invariant
                0 <= i <= n,
                n == self.parts.len(),
                parts.len() == i,
                forall|j: int| 0 <= j < i ==> parts@[j]@ == self@[j],
            decreases n - i,
        {
            parts.push(self.parts[i].clone());
            i += 1;
        }
        let r = FsPath { parts };
        proof {
            assert(r@ =~= self@);
        }
        r
    }

    /// The path of the entry called `name` inside this directory.
    pub fn join(&self, name: &String) -> (r: FsPath)
        ensures
            r@ == self@.push(name@),
    {
        let mut joined = self.duplicate();
        joined.parts.push(name.clone());
        proof {
            assert(joined@ =~= self@.push(name@));
        }
        joined
    }

    /// The directory this path lies in, or `None` for the root.
    pub fn parent(&self) -> (r: Option<FsPath>)
        ensures
            self.is_root() ==> r is None,
            !self.is_root() ==> (r matches Some(p) && p@ == self@.drop_last()),
    {
        if self.parts.len() == 0 {
            None
        } else {
            let mut p = self.duplicate();
            let popped = p.parts.pop();
            proof {
                assert(p@ =~= self@.drop_last());
            }
            Some(p)
        }
    }

    /// The last component of this path, or `None` for the root.
    pub fn file_name(&self) -> (r: Option<String>)
        ensures
            self.is_root() ==> r is None,
            !self.is_root() ==> (r matches Some(n) && n@ == self@.last()),
    {
        if self.parts.len() == 0 {
            None
        } else {
            Some(self.parts[self.parts.len() - 1].clone())
        }
    }
}

} // verus!
