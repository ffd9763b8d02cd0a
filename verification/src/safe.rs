//! The paths that may be served.
//!
//! A [`SafePath`] can be made by the functions here alone, each of which makes the
//! whole test. What the filesystem says of a path is handed in as a [`Probe`].

use vstd::prelude::*;
use vstd::utf8::{encode_utf8, encode_utf8_decode_utf8, encode_utf8_valid_utf8};

use crate::bytes::copy_bytes;
use crate::conditional::Meta;
use crate::path::{
    climbs, components, file_name, file_name_of, has_hidden, hidden, is_below, is_entry_name,
    is_filesystem_root, is_hidden, joined, joined_all, law_file_names,
    law_hidden_in_listing_and_on_request, law_joined_paths, law_resolved_path_is_below,
    lemma_entry_file_name, lemma_entry_path, path_has_hidden, path_segments, path_starts_with,
    push_component, resolve_within, slashed,
};
use crate::text::{lossy_string, lossy_text};

verus! {

/// What the filesystem says of one path.
pub struct Probe {
    /// What is there, with symbolic links followed, if anything is.
    pub meta: Option<Meta>,
    /// The path with every symbolic link resolved, where that was asked for and
    /// could be done.
    pub resolved: Option<Vec<u8>>,
    /// Whether this process may read it.
    pub readable: bool,
}

/// One entry of a directory.
pub struct Entry {
    pub name: Vec<u8>,
    /// Whether it is a symbolic link, or may be one.
    pub maybe_symlink: bool,
    /// What the filesystem says of its path.
    pub probe: Probe,
}

/// Whether the path `resolved` lies in the served root. Nothing lies outside the root
/// of the filesystem.
pub open spec fn inside(root: Seq<u8>, resolved: Option<Vec<u8>>) -> bool {
    components(root) == seq![seq![0x2fu8]] || match resolved {
        Some(p) => is_below(root, p@),
        None => false,
    }
}

/// Whether a request path may be served: it does not climb, no segment of it is
/// hidden, and what it names exists, lies in the root and is readable.
pub open spec fn acceptable(
    root: Seq<u8>,
    exposes: Seq<String>,
    request: Seq<char>,
    probe: Probe,
) -> bool {
    &&& !climbs(request)
    &&& !has_hidden(request, exposes)
    &&& probe.meta is Some
    &&& inside(root, probe.resolved)
    &&& probe.readable
}

/// Whether an entry of a directory that may be served may be served too: its name
/// is not hidden, it exists and is readable, and if it may be a symbolic link, it
/// leads to a place in the root.
pub open spec fn acceptable_entry(root: Seq<u8>, exposes: Seq<String>, entry: Entry) -> bool {
    &&& !hidden(lossy_text(entry.name@), exposes)
    &&& entry.maybe_symlink ==> inside(root, entry.probe.resolved)
    &&& entry.probe.meta is Some
    &&& entry.probe.readable
}

/// The entries of the directory `dir` that may be served, in order.
pub open spec fn acceptable_entries(
    root: Seq<u8>,
    exposes: Seq<String>,
    dir: Seq<u8>,
    entries: Seq<Entry>,
) -> Seq<(Seq<u8>, Meta)>
    decreases entries.len(),
{
    if entries.len() == 0 {
        seq![]
    } else {
        let before = acceptable_entries(root, exposes, dir, entries.drop_last());
        let entry = entries.last();
        if acceptable_entry(root, exposes, entry) {
            before.push((joined(dir, entry.name@), entry.probe.meta->0))
        } else {
            before
        }
    }
}

/// The name at the end of a path, for display.
pub open spec fn display_name(path: Seq<u8>) -> Seq<char> {
    match file_name(path) {
        Some(n) => lossy_text(n),
        None => "/"@,
    }
}

/// What the paths in `v` are, and what is there.
pub open spec fn resources(v: Seq<SafePath>) -> Seq<(Seq<u8>, Meta)> {
    v.map_values(|p: SafePath| p@)
}

/// Whether the path `resolved` lies in the served root.
pub fn within_root(root: &[u8], resolved: &Option<Vec<u8>>) -> (r: bool)
    ensures
        r == inside(root@, *resolved),
{
    is_filesystem_root(root) || match resolved {
        Some(p) => path_starts_with(p.as_slice(), root),
        None => false,
    }
}

/// The root that is served, and the patterns that expose hidden names.
pub struct Served<'a> {
    root: SafePath,
    exposes: &'a [String],
}

/// A path that may be served, and what is there.
pub struct SafePath {
    path: Vec<u8>,
    meta: Meta,
}

impl<'a> Served<'a> {
    /// The path of the root.
    pub closed spec fn root_path(&self) -> Seq<u8> {
        self.root.path@
    }

    /// The patterns that expose hidden names.
    pub closed spec fn exposed(&self) -> Seq<String> {
        self.exposes@
    }

    /// What is served below `root`, if that is a directory that can be read.
    pub fn new(root: &[u8], probe: &Probe, exposes: &'a [String]) -> (r: Option<Served<'a>>)
        ensures
            r is Some <==> (probe.meta matches Some(m) && m.is_dir && probe.readable),
            r matches Some(s) ==> s.root_path() == root@ && s.exposed() == exposes@,
    {
        match SafePath::root(root, probe) {
            Some(root) => Some(Served { root, exposes }),
            None => None,
        }
    }

    /// The filesystem path that a request path names, unless it is refused for
    /// what it says alone: because it climbs or has a hidden segment.
    pub fn wanted(&self, request_path: &str) -> (r: Option<Vec<u8>>)
        ensures
            r is None <==> climbs(request_path@) || has_hidden(request_path@, self.exposed()),
            r matches Some(p) ==> p@ == joined_all(
                self.root_path(),
                path_segments(request_path@),
            ),
    {
        let path = resolve_within(self.root.path.as_slice(), request_path);
        if path.is_some() && path_has_hidden(request_path, self.exposes) {
            return None;
        }
        path
    }

    /// Whether the symbolic links in a path have to be resolved to tell whether it
    /// may be served.
    pub fn must_resolve(&self, maybe_symlink: bool) -> (r: bool)
        ensures
            r == (maybe_symlink && components(self.root_path()) != seq![seq![0x2fu8]]),
    {
        maybe_symlink && !is_filesystem_root(self.root.path.as_slice())
    }

    /// Whether the name of a directory entry is hidden.
    pub fn hides(&self, name: &[u8]) -> (r: bool)
        ensures
            r == hidden(lossy_text(name@), self.exposed()),
    {
        is_hidden(lossy_string(name).as_str(), self.exposes)
    }
}

impl View for SafePath {
    type V = (Seq<u8>, Meta);

    /// The path, and what is there.
    closed spec fn view(&self) -> (Seq<u8>, Meta) {
        (self.path@, self.meta)
    }
}

impl SafePath {
    pub fn path(&self) -> (r: &[u8])
        ensures
            r@ == self@.0,
    {
        self.path.as_slice()
    }

    pub fn meta(&self) -> (r: &Meta)
        ensures
            *r == self@.1,
    {
        &self.meta
    }

    pub fn is_dir(&self) -> (r: bool)
        ensures
            r == self@.1.is_dir,
    {
        self.meta.is_dir
    }

    /// The name at the end of the path, for links and display.
    pub fn name(&self) -> (r: String)
        ensures
            r@ == display_name(self@.0),
    {
        match file_name_of(self.path.as_slice()) {
            Some(n) => lossy_string(n.as_slice()),
            None => "/".to_string(),
        }
    }

    /// The served root, if it is a directory that can be read.
    pub fn root(dir: &[u8], probe: &Probe) -> (r: Option<SafePath>)
        ensures
            r is Some <==> (probe.meta matches Some(m) && m.is_dir && probe.readable),
            r matches Some(p) ==> p@ == (dir@, probe.meta->0),
    {
        match probe.meta {
            Some(meta) => if meta.is_dir && probe.readable {
                Some(SafePath { path: copy_bytes(dir), meta })
            } else {
                None
            },
            None => None,
        }
    }

    /// The path that a decoded request path names, if it may be served; `probe` is
    /// what the filesystem says of it.
    pub fn accept(served: &Served, request_path: &str, probe: &Probe) -> (r: Option<SafePath>)
        ensures
            r is Some <==> acceptable(
                served.root_path(),
                served.exposed(),
                request_path@,
                *probe,
            ),
            r matches Some(p) ==> p@ == (
                joined_all(served.root_path(), path_segments(request_path@)),
                probe.meta->0,
            ),
    {
        let path = match served.wanted(request_path) {
            Some(p) => p,
            None => {
                return None;
            },
        };
        match probe.meta {
            Some(meta) => if within_root(served.root.path.as_slice(), &probe.resolved)
                && probe.readable {
                Some(SafePath { path, meta })
            } else {
                None
            },
            None => None,
        }
    }

    /// The entries of this directory that may be served.
    pub fn children(&self, served: &Served, entries: &[Entry]) -> (r: Vec<SafePath>)
        ensures
            resources(r@) == acceptable_entries(
                served.root_path(),
                served.exposed(),
                self@.0,
                entries@,
            ),
    {
        let mut out: Vec<SafePath> = Vec::new();
        let mut i: usize = 0;
        assert(entries@.take(0) =~= seq![]);
        assert(resources(out@) =~= seq![]);
        while i < entries.len()
            invariant
                i <= entries.len(),
                resources(out@) == acceptable_entries(
                    served.root_path(),
                    served.exposed(),
                    self@.0,
                    entries@.take(i as int),
                ),
            decreases entries.len() - i,
        {
            let ghost front = entries@.take(i + 1);
            assert(front.drop_last() =~= entries@.take(i as int));
            let ghost before = resources(out@);
            if let Some(child) = self.accept_child(served, &entries[i]) {
                let ghost resource = child@;
                out.push(child);
                assert(resources(out@) =~= before.push(resource));
            }
            i += 1;
        }
        assert(entries@.take(i as int) =~= entries@);
        out
    }

    /// An entry of this directory, if it may be served. It is judged on its own: an
    /// entry that is no symbolic link lies in the root, since the directory does.
    pub fn accept_child(&self, served: &Served, entry: &Entry) -> (r: Option<SafePath>)
        ensures
            r is Some <==> acceptable_entry(served.root_path(), served.exposed(), *entry),
            r matches Some(p) ==> p@ == (joined(self@.0, entry.name@), entry.probe.meta->0),
    {
        if served.hides(entry.name.as_slice()) {
            return None;
        }
        if entry.maybe_symlink && !within_root(served.root.path.as_slice(), &entry.probe.resolved) {
            return None;
        }
        match entry.probe.meta {
            Some(meta) => if entry.probe.readable {
                let mut path = copy_bytes(self.path.as_slice());
                push_component(&mut path, entry.name.as_slice());
                Some(SafePath { path, meta })
            } else {
                None
            },
            None => None,
        }
    }
}

// ---------------------------------------------------------------------------
// Laws
// ---------------------------------------------------------------------------
/// What is served lies in the root: the path has the components of the root and
/// then none that climbs, and with its symbolic links resolved it is below the root
/// still.
pub proof fn law_served_paths_are_confined(
    root: Seq<u8>,
    exposes: Seq<String>,
    request: Seq<char>,
    probe: Probe,
)
    requires
        acceptable(root, exposes, request, probe),
    ensures
        is_below(root, joined_all(root, path_segments(request))),
        inside(root, probe.resolved),
{
    law_resolved_path_is_below(root, request);
}

/// A listing and a request agree: an entry that a directory lists is served to a
/// request for its path, as the same thing, and an entry that it leaves out for its
/// name, because it cannot be read or because it leads out of the root is refused.
/// The listing shows it by its own name. The name of the entry is UTF-8, and an
/// entry that is no symbolic link lies in the root.
pub proof fn law_listed_is_served(
    root: Seq<u8>,
    exposes: Seq<String>,
    dir: Seq<char>,
    name: Seq<char>,
    entry: Entry,
)
    requires
        !climbs(dir),
        !has_hidden(dir, exposes),
        is_entry_name(name),
        entry.name@ == encode_utf8(name),
        !entry.maybe_symlink ==> inside(root, entry.probe.resolved),
    ensures
        acceptable_entry(root, exposes, entry) <==> acceptable(
            root,
            exposes,
            slashed(dir) + name,
            entry.probe,
        ),
        joined(joined_all(root, path_segments(dir)), entry.name@) == joined_all(
            root,
            path_segments(slashed(dir) + name),
        ),
        display_name(joined(joined_all(root, path_segments(dir)), entry.name@)) == name,
{
    encode_utf8_valid_utf8(name);
    encode_utf8_decode_utf8(name);
    law_hidden_in_listing_and_on_request(dir, name, exposes);
    lemma_entry_path(dir, name);
    lemma_entry_file_name(joined_all(root, path_segments(dir)), name);
    let all = path_segments(slashed(dir) + name);
    assert(all.drop_last() =~= path_segments(dir));
    assert(all.last() == name);
}

/// A listing holds exactly the entries that may be served.
pub proof fn law_listing_is_exact(
    root: Seq<u8>,
    exposes: Seq<String>,
    dir: Seq<u8>,
    entries: Seq<Entry>,
    path: Seq<u8>,
    meta: Meta,
)
    ensures
        acceptable_entries(root, exposes, dir, entries).contains((path, meta)) <==> exists|i: int|
            0 <= i < entries.len() && acceptable_entry(root, exposes, #[trigger] entries[i])
                && path == joined(dir, entries[i].name@) && entries[i].probe.meta == Some(meta),
    decreases entries.len(),
{
    if entries.len() > 0 {
        let n = entries.len() - 1;
        let front = entries.drop_last();
        let before = acceptable_entries(root, exposes, dir, front);
        let all = acceptable_entries(root, exposes, dir, entries);
        law_listing_is_exact(root, exposes, dir, front, path, meta);
        if all.contains((path, meta)) {
            let k = choose|k: int| 0 <= k < all.len() && all[k] == (path, meta);
            if k < before.len() {
                assert(before[k] == (path, meta));
                let i = choose|i: int|
                    0 <= i < front.len() && acceptable_entry(root, exposes, #[trigger] front[i])
                        && path == joined(dir, front[i].name@) && front[i].probe.meta == Some(
                        meta,
                    );
                assert(entries[i] == front[i]);
            } else {
                assert(entries[n] == entries.last());
            }
        }
        if exists|i: int|
            0 <= i < entries.len() && acceptable_entry(root, exposes, #[trigger] entries[i])
                && path == joined(dir, entries[i].name@) && entries[i].probe.meta == Some(meta) {
            let i = choose|i: int|
                0 <= i < entries.len() && acceptable_entry(root, exposes, #[trigger] entries[i])
                    && path == joined(dir, entries[i].name@) && entries[i].probe.meta == Some(meta);
            if i < n {
                assert(front[i] == entries[i]);
                let k = choose|k: int| 0 <= k < before.len() && before[k] == (path, meta);
                assert(all[k] == (path, meta));
            } else {
                assert(all.last() == (path, meta));
            }
        }
    }
}

/// What may be served: a path that neither climbs nor holds a hidden segment, of which
/// the filesystem says that it exists, can be read, and lies, with its links resolved,
/// at or below the root, which everything does where that is the root of the filesystem.
pub proof fn law_what_may_be_served(
    root: Seq<u8>,
    exposes: Seq<String>,
    request: Seq<char>,
    probe: Probe,
    resolved: Vec<u8>,
)
    ensures
        probe.resolved == Some(resolved) ==> (acceptable(root, exposes, request, probe)
            <==> !climbs(request) && !has_hidden(request, exposes) && probe.meta is Some
            && probe.readable && (components(root) == seq![seq![0x2fu8]] || components(
            root,
        ).is_prefix_of(components(resolved@)))),
        probe.resolved is None ==> (acceptable(root, exposes, request, probe) <==> !climbs(request)
            && !has_hidden(request, exposes) && probe.meta is Some && probe.readable && components(
            root,
        ) == seq![seq![0x2fu8]]),
{
    law_joined_paths(resolved@, seq![], seq![], seq![], root);
}

/// Which entries of a directory are listed: in the order in which they come, each that
/// has no hidden name, exists, can be read, and is either no link or resolves to a path
/// in the root. Each stands with its path below the directory and what it is.
pub proof fn law_listed_entries(
    root: Seq<u8>,
    exposes: Seq<String>,
    dir: Seq<u8>,
    entries: Seq<Entry>,
    entry: Entry,
)
    ensures
        acceptable_entries(root, exposes, dir, seq![]) == Seq::<(Seq<u8>, Meta)>::empty(),
        ({
            let within = components(root) == seq![seq![0x2fu8]] || (
            entry.probe.resolved matches Some(p) && components(root).is_prefix_of(
                components(p@),
            ));
            let listed = !hidden(lossy_text(entry.name@), exposes) && entry.probe.meta is Some
                && entry.probe.readable && (!entry.maybe_symlink || within);
            let before = acceptable_entries(root, exposes, dir, entries);
            acceptable_entries(root, exposes, dir, entries.push(entry)) == (if listed {
                before.push((joined(dir, entry.name@), entry.probe.meta->0))
            } else {
                before
            })
        }),
{
    assert(entries.push(entry).drop_last() =~= entries);
    if let Some(p) = entry.probe.resolved {
        law_joined_paths(p@, seq![], seq![], seq![], root);
    }
}

/// A resource is shown by the last piece of its path, and the root of the filesystem
/// as `/`.
pub proof fn law_shown_names(dir: Seq<u8>, name: Seq<u8>)
    requires
        name.len() > 0,
        !name.contains(0x2fu8),
        name != seq![0x2eu8],
        name != seq![0x2eu8, 0x2eu8],
    ensures
        display_name(joined(dir, name)) == lossy_text(name),
        display_name(seq![0x2fu8]) == "/"@,
{
    law_file_names(dir, name);
}

/// What can be the root that is served: a directory that can be read, and nothing else.
pub proof fn law_served_roots(
    root: &[u8],
    probe: &Probe,
    exposes: &[String],
    served: Option<Served>,
    path: Option<SafePath>,
)
    requires
        call_ensures(Served::new, (root, probe, exposes), served),
        call_ensures(SafePath::root, (root, probe), path),
    ensures
        served is Some <==> probe.readable && (probe.meta matches Some(m) && m.is_dir),
        path is Some <==> probe.readable && (probe.meta matches Some(m) && m.is_dir),
        served matches Some(s) ==> s.root_path() == root@ && s.exposed() == exposes@,
        path matches Some(p) ==> p@ == (root@, probe.meta->0),
{
}

/// Links have to be resolved only where something may be one, and never below the root
/// of the filesystem, which they cannot leave.
pub proof fn law_when_links_are_resolved(served: &Served, maybe_symlink: bool, r: bool)
    requires
        call_ensures(Served::must_resolve, (served, maybe_symlink), r),
    ensures
        !maybe_symlink ==> !r,
        components(served.root_path()) == seq![seq![0x2fu8]] ==> !r,
        maybe_symlink && components(served.root_path()) != seq![seq![0x2fu8]] ==> r,
{
}

} // verus!
