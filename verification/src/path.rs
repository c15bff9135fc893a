//! Filesystem paths as sequences of components, the form in which
//! `std::path::Path::components` presents them.

use vstd::prelude::*;

verus! {

/// The path rules in force: which paths count as absolute.
#[derive(Debug, Clone, Copy, PartialEq, Eq)]
pub enum Platform {
    /// A path is absolute when it starts at the root directory.
    Unix,
    /// A path is absolute when it has a prefix and a root.
    Windows,
}

/// One component of a path (`std::path::Component`), its text held as UTF-8.
#[derive(Debug)]
pub enum PathPart {
    /// A Windows drive prefix such as `C:`, which needs a root directory
    /// after it to start at a root.
    Prefix(String),
    /// Any other Windows prefix (`\\server\share`, `\\?\...`, `\\.\...`),
    /// which starts at a root by itself.
    RootedPrefix(String),
    /// The root directory.
    RootDir,
    /// `.` at the start of a relative path.
    CurDir,
    /// `..`.
    ParentDir,
    /// An ordinary name.
    Normal(String),
}

/// The mathematical value of a [`PathPart`].
pub enum PartView {
    Prefix(Seq<char>),
    RootedPrefix(Seq<char>),
    RootDir,
    CurDir,
    ParentDir,
    Normal(Seq<char>),
}

impl View for PathPart {
    type V = PartView;

    open spec fn view(&self) -> PartView {
        match self {
            PathPart::Prefix(s) => PartView::Prefix(s@),
            PathPart::RootedPrefix(s) => PartView::RootedPrefix(s@),
            PathPart::RootDir => PartView::RootDir,
            PathPart::CurDir => PartView::CurDir,
            PathPart::ParentDir => PartView::ParentDir,
            PathPart::Normal(s) => PartView::Normal(s@),
        }
    }
}

/// A path, as the list of its components.
#[derive(Debug)]
pub struct FsPath {
    pub parts: Vec<PathPart>,
}

impl View for FsPath {
    type V = Seq<PartView>;

    open spec fn view(&self) -> Seq<PartView> {
        self.parts@.map_values(|p: PathPart| p@)
    }
}

/// The path `base` with the plain name `name` appended (`Path::join` with a
/// single-component relative name).
pub open spec fn join_name(base: Seq<PartView>, name: Seq<char>) -> Seq<PartView> {
    base.push(PartView::Normal(name))
}

/// The last component, when it is an ordinary name (`Path::file_name`).
pub open spec fn file_name_of(p: Seq<PartView>) -> Option<Seq<char>> {
    if p.len() > 0 {
        match p.last() {
            PartView::Normal(s) => Some(s),
            _ => None,
        }
    } else {
        None
    }
}

/// The path without its last component, when that component is a name, `.`
/// or `..` (`Path::parent`).
pub open spec fn parent_of(p: Seq<PartView>) -> Option<Seq<PartView>> {
    if p.len() > 0 {
        match p.last() {
            PartView::Normal(_) | PartView::CurDir | PartView::ParentDir => Some(p.drop_last()),
            _ => None,
        }
    } else {
        None
    }
}

/// The path starts at a root: a root directory first, a prefix that is a
/// root by itself, or a drive prefix followed by a root directory
/// (`Path::has_root`).
pub open spec fn has_root(p: Seq<PartView>) -> bool {
    ||| (p.len() > 0 && p[0] == PartView::RootDir)
    ||| (p.len() > 0 && p[0] is RootedPrefix)
    ||| (p.len() > 1 && p[0] is Prefix && p[1] == PartView::RootDir)
}

/// The path has a prefix (`Path::prefix` is some).
pub open spec fn has_prefix_part(p: Seq<PartView>) -> bool {
    p.len() > 0 && (p[0] is Prefix || p[0] is RootedPrefix)
}

/// `Path::is_absolute` under `platform`: the path has a root, and on
/// Windows a prefix too.
pub open spec fn is_absolute(p: Seq<PartView>, platform: Platform) -> bool {
    has_root(p) && (platform == Platform::Unix || has_prefix_part(p))
}

/// `base` is a component-wise prefix of `p` (`Path::starts_with`).
pub open spec fn is_prefix_path(p: Seq<PartView>, base: Seq<PartView>) -> bool {
    base.len() <= p.len() && p.take(base.len() as int) == base
}

/// A path starts with `base` exactly when `base` is no longer and each
/// component of `base` equals the component of the path at the same place.
pub proof fn law_prefix_path_componentwise(p: Seq<PartView>, base: Seq<PartView>)
    ensures
        is_prefix_path(p, base) <==> (base.len() <= p.len() && forall|i: int| 0 <= i < base.len() ==> p[i] == base[i]),
{
    if base.len() <= p.len() && forall|i: int| 0 <= i < base.len() ==> p[i] == base[i] {
        assert(p.take(base.len() as int) =~= base);
    }
    if is_prefix_path(p, base) {
        assert forall|i: int| 0 <= i < base.len() implies p[i] == base[i] by {
            assert(p.take(base.len() as int)[i] == p[i]);
        }
    }
}

impl PathPart {
    pub fn duplicate(&self) -> (r: PathPart)
        ensures
            r@ == self@,
    {
        match self {
            PathPart::Prefix(s) => PathPart::Prefix(s.clone()),
            PathPart::RootedPrefix(s) => PathPart::RootedPrefix(s.clone()),
            PathPart::RootDir => PathPart::RootDir,
            PathPart::CurDir => PathPart::CurDir,
            PathPart::ParentDir => PathPart::ParentDir,
            PathPart::Normal(s) => PathPart::Normal(s.clone()),
        }
    }

    /// Two components are the same.
    pub fn same(&self, other: &PathPart) -> (r: bool)
        ensures
            r == (self@ == other@),
    {
        match self {
            PathPart::Prefix(a) => match other {
                PathPart::Prefix(b) => a.eq(b),
                _ => false,
            },
            PathPart::RootedPrefix(a) => match other {
                PathPart::RootedPrefix(b) => a.eq(b),
                _ => false,
            },
            PathPart::RootDir => match other {
                PathPart::RootDir => true,
                _ => false,
            },
            PathPart::CurDir => match other {
                PathPart::CurDir => true,
                _ => false,
            },
            PathPart::ParentDir => match other {
                PathPart::ParentDir => true,
                _ => false,
            },
            PathPart::Normal(a) => match other {
                PathPart::Normal(b) => a.eq(b),
                _ => false,
            },
        }
    }
}

impl FsPath {
    /// The empty path.
    pub fn empty() -> (r: FsPath)
        ensures
            r@ == Seq::<PartView>::empty(),
    {
        let r = FsPath { parts: Vec::new() };
        assert(r@ =~= Seq::<PartView>::empty());
        r
    }

    /// The first `n` components.
    pub fn prefix(&self, n: usize) -> (r: FsPath)
        requires
            n <= self@.len(),
        ensures
            r@ == self@.take(n as int),
    {
        let mut parts: Vec<PathPart> = Vec::new();
        let mut i: usize = 0;
        while i < n
            invariant
                i <= n <= self.parts@.len(),
                parts@.len() == i,
                forall|k: int| 0 <= k < i ==> #[trigger] parts@[k]@ == self.parts@[k]@,
            decreases n - i,
        {
            let part = self.parts[i].duplicate();
            parts.push(part);
            i = i + 1;
        }
        let r = FsPath { parts };
        assert(r@ =~= self@.take(n as int));
        r
    }

    pub fn duplicate(&self) -> (r: FsPath)
        ensures
            r@ == self@,
    {
        let r = self.prefix(self.parts.len());
        assert(self@.take(self@.len() as int) =~= self@);
        r
    }

    /// `self` with the components of `other` appended.
    pub fn concat(&self, other: &FsPath) -> (r: FsPath)
        ensures
            r@ == self@ + other@,
    {
        let mut r = self.duplicate();
        let ghost n0 = self.parts@.len();
        proof {
            assert(r@.len() == r.parts@.len());
            assert forall|k: int| 0 <= k < n0 implies #[trigger] r.parts@[k]@ == self.parts@[k]@ by {
                assert(r@[k] == r.parts@[k]@);
                assert(self@[k] == self.parts@[k]@);
            }
        }
        let mut i: usize = 0;
        while i < other.parts.len()
            invariant
                i <= other.parts@.len(),
                n0 == self.parts@.len(),
                r.parts@.len() == n0 + i,
                forall|k: int| 0 <= k < n0 ==> #[trigger] r.parts@[k]@ == self.parts@[k]@,
                forall|k: int| 0 <= k < i ==> #[trigger] r.parts@[n0 + k]@ == other.parts@[k]@,
            decreases other@.len() - i,
        {
            let part = other.parts[i].duplicate();
            r.parts.push(part);
            i = i + 1;
        }
        proof {
            assert forall|k: int| 0 <= k < r@.len() implies #[trigger] r@[k] == (self@ + other@)[k] by {
                if k >= n0 {
                    assert(r.parts@[n0 + (k - n0)]@ == other.parts@[k - n0]@);
                }
            }
        }
        assert(r@ =~= self@ + other@);
        r
    }

    /// `self` joined with the plain name `name`.
    pub fn join_name(&self, name: &str) -> (r: FsPath)
        ensures
            r@ == join_name(self@, name@),
    {
        let mut r = self.duplicate();
        r.parts.push(PathPart::Normal(String::from_str(name)));
        assert(r@ =~= join_name(self@, name@));
        r
    }

    pub fn file_name(&self) -> (r: Option<String>)
        ensures
            r matches Some(s) ==> file_name_of(self@) == Some(s@),
            r is None ==> file_name_of(self@) is None,
    {
        let n = self.parts.len();
        if n == 0 {
            return None;
        }
        match &self.parts[n - 1] {
            PathPart::Normal(s) => Some(s.clone()),
            _ => None,
        }
    }

    pub fn parent(&self) -> (r: Option<FsPath>)
        ensures
            r matches Some(p) ==> parent_of(self@) == Some(p@),
            r is None ==> parent_of(self@) is None,
    {
        let n = self.parts.len();
        if n == 0 {
            return None;
        }
        match &self.parts[n - 1] {
            PathPart::Normal(_) | PathPart::CurDir | PathPart::ParentDir => {
                let p = self.prefix(n - 1);
                assert(self@.drop_last() =~= self@.take(n - 1));
                Some(p)
            },
            _ => None,
        }
    }

    pub fn is_absolute(&self, platform: Platform) -> (r: bool)
        ensures
            r == is_absolute(self@, platform),
    {
        let n = self.parts.len();
        if n == 0 {
            return false;
        }
        match &self.parts[0] {
            PathPart::RootDir => match platform {
                Platform::Unix => true,
                Platform::Windows => false,
            },
            PathPart::RootedPrefix(_) => true,
            PathPart::Prefix(_) => n > 1 && match &self.parts[1] {
                PathPart::RootDir => true,
                _ => false,
            },
            _ => false,
        }
    }

    pub fn starts_with(&self, base: &FsPath) -> (r: bool)
        ensures
            r == is_prefix_path(self@, base@),
    {
        let n = base.parts.len();
        if n > self.parts.len() {
            return false;
        }
        let mut i: usize = 0;
        while i < n
            invariant
                n == base@.len() <= self@.len(),
                i <= n,
                forall|k: int| 0 <= k < i ==> self@[k] == base@[k],
            decreases n - i,
        {
            if !self.parts[i].same(&base.parts[i]) {
                assert(self@.take(n as int)[i as int] != base@[i as int]);
                return false;
            }
            i = i + 1;
        }
        assert(self@.take(n as int) =~= base@);
        true
    }
}

} // verus!
