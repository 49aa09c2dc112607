//! The virtual tree: mount paths of atlas descriptors, and resolution of
//! query paths such as `"/fonts/crt/:inverted"` to descriptor nodes.

use vstd::prelude::*;
use vstd::string::StrSliceExecFns;
use crate::atlas::{is_variant_key, AtlasDescriptor, AtlasLayer, AtlasNode};
use crate::strmap::StrMap;
use crate::text::{owned, str_chars, string_from_chars};

verus! {

broadcast use vstd::string::group_string_axioms;

/// `s` without its trailing `'/'` characters.
pub open spec fn trim_slashes(s: Seq<char>) -> Seq<char>
    decreases s.len(),
{
    if s.len() > 0 && s.last() == '/' {
        trim_slashes(s.drop_last())
    } else {
        s
    }
}

/// Position of the last `'/'` before `end`, or -1.
pub open spec fn last_slash(s: Seq<char>, end: int) -> int
    decreases end,
{
    if end <= 0 {
        -1
    } else if s[end - 1] == '/' {
        end - 1
    } else {
        last_slash(s, end - 1)
    }
}

/// Name of the variant a node key denotes (`"/:bold"` -> `"bold"`).
pub open spec fn variant_of(key: Seq<char>) -> Option<Seq<char>> {
    if is_variant_key(key) {
        Some(key.subrange(2, key.len() as int))
    } else {
        None
    }
}

/// Whether descriptor `d` has node `key`.  A descriptor without nodes
/// counts as a single root node `"/"`; it names no sprite sheet, so that
/// node has no layers and maps no byte.
pub open spec fn has_node(d: AtlasDescriptor, key: Seq<char>) -> bool {
    d.nodes@.contains_key(key) || (key == seq!['/'] && d.nodes@.dom().is_empty())
}

/// The layers of node `key` of descriptor `name` (none for the implicit
/// root of a descriptor without nodes).
pub open spec fn node_layers(descs: Map<Seq<char>, AtlasDescriptor>, name: Seq<char>, key: Seq<char>) -> Seq<AtlasLayer> {
    if descs[name].nodes@.contains_key(key) {
        descs[name].nodes@[key].layers@
    } else {
        Seq::empty()
    }
}

/// Node `key` of the descriptor mounted at `mount`, if both exist.
pub open spec fn mounted_node(
    mounts: Map<Seq<char>, Seq<char>>,
    descs: Map<Seq<char>, AtlasDescriptor>,
    mount: Seq<char>,
    key: Seq<char>,
) -> bool {
    &&& mounts.contains_key(mount)
    &&& descs.contains_key(mounts[mount])
    &&& has_node(descs[mounts[mount]], key)
}

/// Search of `clean`'s prefixes cut at the slashes before `end`, longest
/// first: the first prefix mounted with a descriptor that has the rest
/// of the path as a node. An empty prefix stops the search.
pub open spec fn prefix_search(
    mounts: Map<Seq<char>, Seq<char>>,
    descs: Map<Seq<char>, AtlasDescriptor>,
    clean: Seq<char>,
    end: int,
) -> Option<(Seq<char>, Seq<char>)>
    decreases end,
{
    let p = last_slash(clean, end);
    if p <= 0 || p >= end || end > clean.len() {
        None
    } else {
        let prefix = clean.subrange(0, p);
        let rest = clean.subrange(p, clean.len() as int);
        if mounted_node(mounts, descs, prefix, rest) {
            Some((mounts[prefix], rest))
        } else {
            prefix_search(mounts, descs, clean, p)
        }
    }
}

/// Descriptor name and node key a query path resolves to: the root node
/// of a descriptor mounted exactly there, else the prefix search.
pub open spec fn resolve_spec(
    mounts: Map<Seq<char>, Seq<char>>,
    descs: Map<Seq<char>, AtlasDescriptor>,
    path: Seq<char>,
) -> Option<(Seq<char>, Seq<char>)> {
    let clean = trim_slashes(path);
    if mounted_node(mounts, descs, clean, seq!['/']) {
        Some((mounts[clean], seq!['/']))
    } else {
        prefix_search(mounts, descs, clean, clean.len() as int)
    }
}

/// With nothing mounted, no prefix is found.
proof fn lemma_prefix_search_unmounted(descs: Map<Seq<char>, AtlasDescriptor>, clean: Seq<char>, end: int)
    ensures
        prefix_search(Map::empty(), descs, clean, end) is None,
    decreases end,
{
    let p = last_slash(clean, end);
    if !(p <= 0 || p >= end || end > clean.len()) {
        lemma_prefix_search_unmounted(descs, clean, p);
    }
}

/// A tree with nothing mounted resolves no path, whatever descriptors
/// are known.
pub proof fn law_empty_tree_resolves_nothing(descs: Map<Seq<char>, AtlasDescriptor>, path: Seq<char>)
    ensures
        resolve_spec(Map::empty(), descs, path) is None,
        resolve_all_spec(Map::empty(), descs, path).len() == 0,
{
    lemma_prefix_search_unmounted(descs, trim_slashes(path), trim_slashes(path).len() as int);
    lemma_trim_idempotent(path);
}

/// Whether `s` holds `"/:"` somewhere.
pub open spec fn has_variant_marker(s: Seq<char>) -> bool {
    exists|i: int| 0 <= i < s.len() - 1 && #[trigger] s[i] == '/' && s[i + 1] == ':'
}

/// The root and variant keys of `ks`, in order.
pub open spec fn root_and_variant_keys(ks: Seq<Seq<char>>) -> Seq<Seq<char>>
    decreases ks.len(),
{
    if ks.len() == 0 {
        Seq::empty()
    } else {
        let prev = root_and_variant_keys(ks.drop_last());
        if ks.last() == seq!['/'] || is_variant_key(ks.last()) {
            prev.push(ks.last())
        } else {
            prev
        }
    }
}

/// Descriptor name and node key of each node a mount path denotes: for a
/// path naming a variant (holding `"/:"`) or a path that is not a mount,
/// what `resolve_spec` finds; otherwise the root and variant nodes of
/// the mounted descriptor, in its key order.
pub open spec fn resolve_all_spec(
    mounts: Map<Seq<char>, Seq<char>>,
    descs: Map<Seq<char>, AtlasDescriptor>,
    path: Seq<char>,
) -> Seq<(Seq<char>, Seq<char>)> {
    let clean = trim_slashes(path);
    if has_variant_marker(clean) || !mounts.contains_key(clean) {
        match resolve_spec(mounts, descs, clean) {
            Some((name, key)) => seq![(name, key)],
            None => Seq::empty(),
        }
    } else if !descs.contains_key(mounts[clean]) {
        Seq::empty()
    } else if descs[mounts[clean]].nodes@.dom().is_empty() {
        seq![(mounts[clean], seq!['/'])]
    } else {
        let name = mounts[clean];
        root_and_variant_keys(descs[name].nodes.key_seq()).map_values(|k: Seq<char>| (name, k))
    }
}

/// A node found in the tree, with the descriptor it belongs to.
pub struct ResolvedNode<'a> {
    pub descriptor_name: &'a str,
    pub descriptor: &'a AtlasDescriptor,
    pub node: &'a AtlasNode,
    /// The variant name for a variant node (`"inverted"` for `"/:inverted"`).
    pub variant_name: Option<&'a str>,
}

/// The characters of an optional string.
pub open spec fn opt_str(s: Option<&str>) -> Option<Seq<char>> {
    match s {
        Some(t) => Some(t@),
        None => None,
    }
}

/// `rn` is node `key` of descriptor `name` of `descs`.
pub open spec fn resolved_as(
    rn: ResolvedNode,
    descs: Map<Seq<char>, AtlasDescriptor>,
    name: Seq<char>,
    key: Seq<char>,
) -> bool {
    &&& rn.descriptor_name@ == name
    &&& descs.contains_key(name)
    &&& *rn.descriptor == descs[name]
    &&& has_node(descs[name], key)
    &&& (if descs[name].nodes@.contains_key(key) {
        *rn.node == descs[name].nodes@[key]
    } else {
        rn.node.layers@.len() == 0
    })
    &&& rn.node.layers@ == node_layers(descs, name, key)
    &&& opt_str(rn.variant_name) == variant_of(key)
}

/// Mount paths of descriptors.
pub struct VirtualTree {
    mounts: StrMap<String>,
    /// The root node of descriptors without nodes.
    implicit_root: AtlasNode,
}

impl VirtualTree {
    /// Mount path -> descriptor name.
    pub closed spec fn mount_map(&self) -> Map<Seq<char>, Seq<char>> {
        self.mounts@.map_values(|s: String| s@)
    }

    pub closed spec fn wf(&self) -> bool {
        &&& self.mounts.wf()
        &&& self.implicit_root.layers@.len() == 0
    }

    pub fn new() -> (t: VirtualTree)
        ensures
            t.wf(),
            t.mount_map() == Map::<Seq<char>, Seq<char>>::empty(),
    {
        let t = VirtualTree { mounts: StrMap::new(), implicit_root: AtlasNode { layers: Vec::new() } };
        assert(t.mount_map() =~= Map::<Seq<char>, Seq<char>>::empty());
        t
    }

    /// Mounts descriptor `descriptor_name` at `path` (trailing slashes
    /// removed), replacing what was mounted there.
    pub fn mount(&mut self, path: &str, descriptor_name: &str)
        requires
            old(self).wf(),
        ensures
            final(self).wf(),
            final(self).mount_map() == old(self).mount_map().insert(trim_slashes(path@), descriptor_name@),
    {
        let clean = trim_end_slashes(path);
        let key = string_from_chars(clean.as_slice());
        self.mounts.insert(key, owned(descriptor_name));
        assert(self.mount_map() =~= old(self).mount_map().insert(trim_slashes(path@), descriptor_name@));
    }

    /// The node a query path denotes (see `resolve_spec`).
    pub fn resolve<'a>(&'a self, path: &str, descriptors: &'a StrMap<AtlasDescriptor>) -> (r: Option<ResolvedNode<'a>>)
        requires
            self.wf(),
            descriptors.wf(),
            forall|n: Seq<char>| #[trigger] descriptors@.contains_key(n) ==> descriptors@[n].nodes.wf(),
        ensures
            match (r, resolve_spec(self.mount_map(), descriptors@, path@)) {
                (None, None) => true,
                (Some(rn), Some((name, key))) => resolved_as(rn, descriptors@, name, key),
                _ => false,
            },
    {
        let clean = trim_end_slashes(path);
        self.resolve_clean(&clean, descriptors)
    }

    /// Node `key` of the descriptor mounted at `mount`, if any.
    fn lookup<'a>(&'a self, mount: &str, key: &str, descriptors: &'a StrMap<AtlasDescriptor>) -> (r: Option<ResolvedNode<'a>>)
        requires
            self.wf(),
            descriptors.wf(),
            forall|n: Seq<char>| #[trigger] descriptors@.contains_key(n) ==> descriptors@[n].nodes.wf(),
        ensures
            match r {
                Some(rn) => mounted_node(self.mount_map(), descriptors@, mount@, key@)
                    && resolved_as(rn, descriptors@, self.mount_map()[mount@], key@),
                None => !mounted_node(self.mount_map(), descriptors@, mount@, key@),
            },
    {
        let name = match self.mounts.get(mount) {
            Some(n) => n,
            None => return None,
        };
        let desc = match descriptors.get(name.as_str()) {
            Some(d) => d,
            None => return None,
        };
        if desc.nodes.len() == 0 {
            let kc = str_chars(key);
            if kc.len() == 1 && kc[0] == '/' {
                proof {
                    assert(kc@ =~= seq!['/']);
                    desc.nodes.lemma_keys();
                    assert(desc.nodes@.dom() =~= Set::<Seq<char>>::empty());
                }
                let rn = ResolvedNode { descriptor_name: name.as_str(), descriptor: desc, node: &self.implicit_root, variant_name: None };
                proof {
                    assert(key@ == seq!['/']);
                    assert(self.mount_map()[mount@] == name@);
                    assert(has_node(descriptors@[name@], key@));
                    assert(variant_of(key@) is None);
                    assert(self.implicit_root.layers@ =~= Seq::<AtlasLayer>::empty());
                    assert(mounted_node(self.mount_map(), descriptors@, mount@, key@));
                }
                return Some(rn);
            }
            proof {
                if key@ == seq!['/'] {
                    assert(kc@[0] == '/');
                }
                desc.nodes.lemma_keys();
            }
            return None;
        }
        proof {
            desc.nodes.lemma_keys();
            assert(!desc.nodes@.dom().is_empty()) by {
                assert(desc.nodes@.contains_key(desc.nodes.key_seq()[0]));
            }
        }
        match desc.nodes.get_key_value(key) {
            Some((k, node)) => {
                let kc = str_chars(k.as_str());
                let variant_name = if kc.len() >= 2 && kc[0] == '/' && kc[1] == ':' {
                    let n = k.as_str().unicode_len();
                    Some(k.as_str().substring_char(2, n))
                } else {
                    None
                };
                Some(ResolvedNode { descriptor_name: name.as_str(), descriptor: desc, node, variant_name })
            },
            None => None,
        }
    }

    fn resolve_clean<'a>(&'a self, clean: &Vec<char>, descriptors: &'a StrMap<AtlasDescriptor>) -> (r: Option<ResolvedNode<'a>>)
        requires
            self.wf(),
            descriptors.wf(),
            forall|n: Seq<char>| #[trigger] descriptors@.contains_key(n) ==> descriptors@[n].nodes.wf(),
            trim_slashes(clean@) == clean@,
        ensures
            match (r, resolve_spec(self.mount_map(), descriptors@, clean@)) {
                (None, None) => true,
                (Some(rn), Some((name, key))) => resolved_as(rn, descriptors@, name, key),
                _ => false,
            },
    {
        let clean_s = string_from_chars(clean.as_slice());
        proof {
            reveal_strlit("/");
            assert("/"@ =~= seq!['/']);
        }
        if let Some(rn) = self.lookup(clean_s.as_str(), "/", descriptors) {
            return Some(rn);
        }
        let n = clean.len();
        let mut end: usize = n;
        loop
            invariant
                end <= n,
                n == clean@.len(),
                self.wf(),
                descriptors.wf(),
                forall|nm: Seq<char>| #[trigger] descriptors@.contains_key(nm) ==> descriptors@[nm].nodes.wf(),
                !mounted_node(self.mount_map(), descriptors@, clean@, seq!['/']),
                trim_slashes(clean@) == clean@,
                resolve_spec(self.mount_map(), descriptors@, clean@) == prefix_search(self.mount_map(), descriptors@, clean@, end as int),
            decreases end,
        {
            let mut p: usize = end;
            while p > 0 && clean[p - 1] != '/'
                invariant
                    p <= end <= n,
                    n == clean@.len(),
                    last_slash(clean@, end as int) == last_slash(clean@, p as int),
                decreases p,
            {
                p -= 1;
            }
            if p <= 1 {
                return None;
            }
            let slash = p - 1;
            assert(last_slash(clean@, end as int) == slash);
            proof {
                lemma_last_slash(clean@, end as int);
            }
            let mut prefix: Vec<char> = Vec::new();
            let mut i: usize = 0;
            while i < slash
                invariant
                    i <= slash < n,
                    n == clean@.len(),
                    prefix@ == clean@.subrange(0, i as int),
                decreases slash - i,
            {
                prefix.push(clean[i]);
                i += 1;
                assert(prefix@ =~= clean@.subrange(0, i as int));
            }
            let mut rest: Vec<char> = Vec::new();
            let mut i: usize = slash;
            while i < n
                invariant
                    slash <= i <= n,
                    n == clean@.len(),
                    rest@ == clean@.subrange(slash as int, i as int),
                decreases n - i,
            {
                rest.push(clean[i]);
                i += 1;
                assert(rest@ =~= clean@.subrange(slash as int, i as int));
            }
            let prefix_s = string_from_chars(prefix.as_slice());
            let rest_s = string_from_chars(rest.as_slice());
            if let Some(rn) = self.lookup(prefix_s.as_str(), rest_s.as_str(), descriptors) {
                return Some(rn);
            }
            end = slash;
        }
    }

    /// The nodes of a mount path: for a path naming a variant (holding
    /// `"/:"`) or a path that is not a mount, what `resolve` finds;
    /// otherwise the root and variant nodes of the mounted descriptor,
    /// in its key order.
    pub fn resolve_with_variants<'a>(&'a self, path: &str, descriptors: &'a StrMap<AtlasDescriptor>) -> (r: Vec<ResolvedNode<'a>>)
        requires
            self.wf(),
            descriptors.wf(),
            forall|n: Seq<char>| #[trigger] descriptors@.contains_key(n) ==> descriptors@[n].nodes.wf(),
        ensures
            ({
                let t = resolve_all_spec(self.mount_map(), descriptors@, path@);
                &&& r@.len() == t.len()
                &&& forall|i: int| 0 <= i < r@.len() ==> resolved_as(#[trigger] r@[i], descriptors@, t[i].0, t[i].1)
            }),
    {
        let clean = trim_end_slashes(path);
        let mut results: Vec<ResolvedNode<'a>> = Vec::new();
        let mut marker = false;
        let mut i: usize = 0;
        while clean.len() > 0 && i < clean.len() - 1
            invariant
                i <= clean@.len(),
                marker == exists|t: int| 0 <= t < i && t < clean@.len() - 1 && #[trigger] clean@[t] == '/' && clean@[t + 1] == ':',
            decreases clean@.len() - i,
        {
            if clean[i] == '/' && clean[i + 1] == ':' {
                marker = true;
            }
            i += 1;
        }
        proof {
            assert(marker == has_variant_marker(clean@));
            lemma_trim_idempotent(path@);
        }
        if marker {
            if let Some(rn) = self.resolve_clean(&clean, descriptors) {
                results.push(rn);
            }
            return results;
        }
        let clean_s = string_from_chars(clean.as_slice());
        let name = match self.mounts.get(clean_s.as_str()) {
            Some(n) => n,
            None => {
                if let Some(rn) = self.resolve_clean(&clean, descriptors) {
                    results.push(rn);
                }
                return results;
            },
        };
        let desc = match descriptors.get(name.as_str()) {
            Some(d) => d,
            None => return results,
        };
        let ghost ks = desc.nodes.key_seq();
        proof {
            desc.nodes.lemma_keys();
        }
        if desc.nodes.len() == 0 {
            proof {
                assert(desc.nodes@.dom() =~= Set::<Seq<char>>::empty());
            }
            results.push(ResolvedNode { descriptor_name: name.as_str(), descriptor: desc, node: &self.implicit_root, variant_name: None });
            proof {
                assert(clean_s@ == clean@);
                assert(self.mount_map().contains_key(clean@));
                assert(self.mount_map()[clean@] == name@);
                let t = resolve_all_spec(self.mount_map(), descriptors@, path@);
                assert(trim_slashes(path@) == clean@);
                assert(t == seq![(name@, seq!['/'])]);
                assert(variant_of(seq!['/']) is None);
                assert(self.implicit_root.layers@ =~= Seq::<AtlasLayer>::empty());
                assert(resolved_as(results@[0], descriptors@, t[0].0, t[0].1));
            }
            return results;
        }
        proof {
            assert(!desc.nodes@.dom().is_empty()) by {
                assert(desc.nodes@.contains_key(ks[0]));
            }
        }
        let n = desc.nodes.len();
        let mut j: usize = 0;
        while j < n
            invariant
                j <= n,
                n == ks.len(),
                ks == desc.nodes.key_seq(),
                desc.nodes.wf(),
                descriptors@.contains_key(name@),
                *desc == descriptors@[name@],
                forall|t: int| 0 <= t < ks.len() ==> desc.nodes@.contains_key(#[trigger] ks[t]) && desc.nodes@[ks[t]] == desc.nodes.value_seq()[t],
                results@.len() == root_and_variant_keys(ks.take(j as int)).len(),
                forall|t: int| 0 <= t < results@.len() ==> resolved_as(#[trigger] results@[t], descriptors@, name@,
                    root_and_variant_keys(ks.take(j as int))[t]),
            decreases n - j,
        {
            let (k, node) = desc.nodes.entry_at(j);
            let kc = str_chars(k.as_str());
            let is_root = kc.len() == 1 && kc[0] == '/';
            let is_var = kc.len() >= 2 && kc[0] == '/' && kc[1] == ':';
            proof {
                assert(ks.take(j + 1).drop_last() =~= ks.take(j as int));
                assert(ks.take(j + 1).last() == ks[j as int]);
                if kc@.len() == 1 && kc@[0] == '/' {
                    assert(kc@ =~= seq!['/']);
                }
            }
            if is_root {
                results.push(ResolvedNode { descriptor_name: name.as_str(), descriptor: desc, node, variant_name: None });
            } else if is_var {
                let len = k.as_str().unicode_len();
                let v = k.as_str().substring_char(2, len);
                results.push(ResolvedNode { descriptor_name: name.as_str(), descriptor: desc, node, variant_name: Some(v) });
            }
            j += 1;
        }
        assert(ks.take(n as int) =~= ks);
        results
    }

    /// The mounts.
    pub fn mounts(&self) -> (m: &StrMap<String>)
        ensures
            m@.map_values(|s: String| s@) == self.mount_map(),
    {
        &self.mounts
    }
}

proof fn lemma_trim_idempotent(s: Seq<char>)
    ensures
        trim_slashes(trim_slashes(s)) == trim_slashes(s),
        trim_slashes(s).len() > 0 ==> trim_slashes(s).last() != '/',
    decreases s.len(),
{
    if s.len() > 0 && s.last() == '/' {
        lemma_trim_idempotent(s.drop_last());
    }
}

proof fn lemma_last_slash(s: Seq<char>, end: int)
    requires
        end >= 0,
    ensures
        last_slash(s, end) < end,
        last_slash(s, end) >= 0 ==> s[last_slash(s, end)] == '/',
    decreases end,
{
    if end > 0 && s[end - 1] != '/' {
        lemma_last_slash(s, end - 1);
    }
}

/// The characters of `path` without trailing slashes.
fn trim_end_slashes(path: &str) -> (r: Vec<char>)
    ensures
        r@ == trim_slashes(path@),
        trim_slashes(r@) == r@,
{
    let cs = str_chars(path);
    let mut n = cs.len();
    assert(cs@.subrange(0, n as int) =~= cs@);
    while n > 0 && cs[n - 1] == '/'
        invariant
            n <= cs@.len(),
            trim_slashes(cs@) == trim_slashes(cs@.subrange(0, n as int)),
        decreases n,
    {
        assert(cs@.subrange(0, n as int).drop_last() =~= cs@.subrange(0, n - 1));
        n -= 1;
    }
    let mut r: Vec<char> = Vec::new();
    let mut i: usize = 0;
    while i < n
        invariant
            i <= n <= cs@.len(),
            r@ == cs@.subrange(0, i as int),
        decreases n - i,
    {
        r.push(cs[i]);
        i += 1;
        assert(r@ =~= cs@.subrange(0, i as int));
    }
    proof {
        assert(cs@.subrange(0, cs@.len() as int) =~= cs@);
        lemma_trim_idempotent(path@);
    }
    r
}

} // verus!
