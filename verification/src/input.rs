//! Pointer buttons and the drop zone for files dragged onto the window.

use vstd::prelude::*;

verus! {

/// A pointer button.
#[derive(Debug, Clone, Copy, PartialEq, Eq, Structural)]
pub enum MouseButton {
    Left,
    Right,
    Middle,
}

/// `n` could be a file name part of `path`: a non-empty run of its
/// characters without a `'/'`.
pub open spec fn name_in_path(n: Seq<char>, path: Seq<char>) -> bool {
    &&& n.len() > 0
    &&& !n.contains('/')
    &&& exists|i: int| 0 <= i && i + n.len() <= path.len() && #[trigger] path.subrange(i, i + n.len()) == n
}

/// The characters of `path` after its last `'/'` (all of it where it has
/// none).
pub open spec fn after_last_slash(path: Seq<char>) -> Seq<char>
    decreases path.len(),
{
    if path.len() == 0 {
        path
    } else if path.last() == '/' {
        Seq::empty()
    } else {
        after_last_slash(path.drop_last()).push(path.last())
    }
}

/// A path whose file name every platform reads alike: no backslash, no
/// `':'`, no leading `"//"`, and a last `'/'`-separated part that is
/// neither empty nor `"."` nor `".."`.
pub open spec fn plain_path(path: Seq<char>) -> bool {
    let last = after_last_slash(path);
    &&& !path.contains('\\')
    &&& !path.contains(':')
    &&& !(path.len() >= 2 && path[0] == '/' && path[1] == '/')
    &&& last.len() > 0
    &&& last != seq!['.']
    &&& last != seq!['.', '.']
}

/// The file name part of `path`, as `std::path::Path::file_name` gives
/// it (the last component, unless that is `..` or a root), when it is
/// valid UTF-8.  Which component that is depends on the platform's
/// separators, so what is claimed is what holds everywhere: a found name
/// is a non-empty piece of the path without a `'/'` (a separator on
/// every platform), and for a plain path, which every platform splits
/// alike, it is the part after the last `'/'`.
#[verifier::external_body]
fn path_file_name(path: &str) -> (r: Option<String>)
    ensures
        r matches Some(n) ==> name_in_path(n@, path@),
        plain_path(path@) ==> r is Some && r.unwrap()@ == after_last_slash(path@),
{
    std::path::Path::new(path).file_name().and_then(|n| n.to_str()).map(|s| s.to_owned())
}

/// Remembers the last file dropped onto the window.
#[derive(Debug, Clone)]
pub struct DropZone {
    pub last_dropped: Option<String>,
}

impl DropZone {
    pub fn new() -> (z: DropZone)
        ensures
            z.last_dropped.is_none(),
    {
        DropZone { last_dropped: None }
    }

    /// Records a drop of `path` whose file name part is `name` (the whole
    /// path where it has none) and returns the name recorded.
    pub fn record(&mut self, path: &str, name: Option<String>) -> (r: String)
        ensures
            r@ == match name {
                Some(n) => n@,
                None => path@,
            },
            final(self).last_dropped.is_some() && final(self).last_dropped.unwrap()@ == r@,
    {
        let filename = match name {
            Some(n) => n,
            None => crate::text::owned(path),
        };
        self.last_dropped = Some(filename.clone());
        filename
    }

    /// Looks at the paths of this frame's dropped files: the first one is
    /// recorded by its file name (the whole path where it has none) and
    /// that name returned; later ones are ignored; with none, nothing
    /// changes.
    pub fn update(&mut self, dropped: &Vec<String>) -> (r: Option<String>)
        ensures
            dropped@.len() == 0 ==> r.is_none() && final(self).last_dropped == old(self).last_dropped,
            dropped@.len() > 0 ==> r.is_some() && final(self).last_dropped.is_some()
                && final(self).last_dropped.unwrap()@ == r.unwrap()@,
            dropped@.len() > 0 ==> r.unwrap()@ == dropped@[0]@ || name_in_path(r.unwrap()@, dropped@[0]@),
            dropped@.len() > 0 && plain_path(dropped@[0]@) ==> r.unwrap()@ == after_last_slash(dropped@[0]@),
    {
        if dropped.len() == 0 {
            return None;
        }
        let path = dropped[0].as_str();
        let name = path_file_name(path);
        Some(self.record(path, name))
    }

    /// Name of the last dropped file.
    pub fn last_file(&self) -> (r: Option<&str>)
        ensures
            match r {
                Some(s) => self.last_dropped.is_some() && s@ == self.last_dropped.unwrap()@,
                None => self.last_dropped.is_none(),
            },
    {
        match &self.last_dropped {
            Some(s) => Some(s.as_str()),
            None => None,
        }
    }

    /// Forgets the last dropped file.
    pub fn clear(&mut self)
        ensures
            final(self).last_dropped.is_none(),
    {
        self.last_dropped = None;
    }
}

} // verus!
