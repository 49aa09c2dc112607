//! Reading the files of a resource pack: the trait that a pack's storage
//! (a directory, an archive) implements, and the clean-up of what is read.

use vstd::prelude::*;
use crate::text::{str_chars, string_from_chars};

verus! {

#[verifier::external_type_specification]
#[verifier::external_body]
pub struct ExAnyhowError(anyhow::Error);

/// Where the files of a resource pack are read from.
pub trait ResourceProvider {
    /// The bytes of the file at `path`, relative to the pack.
    fn read_bytes(&mut self, path: &str) -> Result<Vec<u8>, anyhow::Error>;

    /// The text of the file at `path`, relative to the pack, without a
    /// leading byte order mark.
    fn read_string(&mut self, path: &str) -> Result<String, anyhow::Error>;
}

/// The byte order mark that editors put in front of text files.
pub open spec fn bom() -> char {
    '\u{FEFF}'
}

/// `s` without one leading byte order mark.
pub open spec fn without_bom(s: Seq<char>) -> Seq<char> {
    if s.len() > 0 && s[0] == bom() {
        s.drop_first()
    } else {
        s
    }
}

/// Removes one leading byte order mark from a file's text.
pub fn strip_bom(text: &str) -> (r: String)
    ensures
        r@ == without_bom(text@),
{
    let cs = str_chars(text);
    if cs.len() > 0 && cs[0] == '\u{FEFF}' {
        let mut rest: Vec<char> = Vec::new();
        let mut i: usize = 1;
        while i < cs.len()
            invariant
                1 <= i <= cs@.len(),
                rest@ == cs@.subrange(1, i as int),
            decreases cs@.len() - i,
        {
            rest.push(cs[i]);
            i += 1;
            assert(rest@ =~= cs@.subrange(1, i as int));
        }
        assert(rest@ =~= cs@.drop_first());
        string_from_chars(rest.as_slice())
    } else {
        string_from_chars(cs.as_slice())
    }
}

/// `path` with every backslash turned into a slash, as archive entries
/// are named.
pub open spec fn archive_path(path: Seq<char>) -> Seq<char> {
    path.map_values(|c: char| if c == '\\' { '/' } else { c })
}

pub fn normalize_archive_path(path: &str) -> (r: String)
    ensures
        r@ == archive_path(path@),
{
    let cs = str_chars(path);
    let mut out: Vec<char> = Vec::new();
    let mut i: usize = 0;
    while i < cs.len()
        invariant
            i <= cs@.len(),
            out@ == archive_path(cs@.take(i as int)),
        decreases cs@.len() - i,
    {
        let c = cs[i];
        if c == '\\' {
            out.push('/');
        } else {
            out.push(c);
        }
        i += 1;
        assert(out@ =~= archive_path(cs@.take(i as int)));
    }
    assert(cs@.take(cs@.len() as int) =~= cs@);
    string_from_chars(out.as_slice())
}

} // verus!
