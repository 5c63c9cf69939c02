//! Network-namespace naming: the name of a namespace, the path of its
//! bind mount, and the filtering rule behind namespace enumeration.
//!
//! The mounts, unshares and directory walks themselves are kernel work
//! that the surrounding process performs; this module owns the naming
//! and filtering rules, plus the one probe for a path's existence.

use vstd::prelude::*;

verus! {

/// A network namespace: the host's own, or a named bind mount under the
/// runtime directory.
pub enum Netns {
    Default,
    Named(String),
}

/// Mathematical image of a [`Netns`].
pub enum NetnsV {
    Default,
    Named(Seq<char>),
}

impl View for Netns {
    type V = NetnsV;

    open spec fn view(&self) -> NetnsV {
        match self {
            Netns::Default => NetnsV::Default,
            Netns::Named(name) => NetnsV::Named(name@),
        }
    }
}

impl DeepView for Netns {
    type V = NetnsV;

    open spec fn deep_view(&self) -> NetnsV {
        self.view()
    }
}

/// The filesystem path a namespace lives at.
pub open spec fn spec_path(n: NetnsV) -> Seq<char> {
    match n {
        NetnsV::Default => "/proc/1/ns/net"@,
        NetnsV::Named(name) => "/run/netns/"@ + name,
    }
}

/// The display name of a namespace.
pub open spec fn spec_label(n: NetnsV) -> Seq<char> {
    match n {
        NetnsV::Default => "default"@,
        NetnsV::Named(name) => name,
    }
}

/// Relies on `String::push_str`: it appends the characters of the slice.
#[verifier::external_body]
fn push_str(r: &mut String, s: &str)
    ensures
        final(r)@ == old(r)@ + s@,
{
    r.push_str(s)
}

/// Relies on `nix::sys::stat::stat`: it returns `Ok` exactly when the
/// path can be stat-ed.  The outcome depends on the state of the
/// filesystem, so nothing more is promised.
#[verifier::external_body]
fn path_can_be_stated(p: &str) -> bool {
    nix::sys::stat::stat(p).is_ok()
}

impl Netns {
    /// The namespace of this name.
    pub fn named(netns_name: &str) -> (r: Netns)
        ensures
            r@ == NetnsV::Named(netns_name@),
    {
        Netns::Named(netns_name.to_owned())
    }

    /// The path of this namespace's mount (the host namespace is read
    /// through the init process).
    pub fn path(&self) -> (r: String)
        ensures
            r@ == spec_path(self@),
    {
        match self {
            Netns::Default => "/proc/1/ns/net".to_owned(),
            Netns::Named(name) => {
                let mut r = "/run/netns/".to_owned();
                push_str(&mut r, name.as_str());
                r
            },
        }
    }

    /// Whether this namespace's path is present right now.  The answer is
    /// a probe of the filesystem; nothing is promised of it.
    pub fn present(&self) -> bool {
        let p = self.path();
        path_can_be_stated(p.as_str())
    }

    /// The namespace's display name.
    pub fn label(&self) -> (r: String)
        ensures
            r@ == spec_label(self@),
    {
        match self {
            Netns::Default => "default".to_owned(),
            Netns::Named(name) => crate::types::clone_string(name),
        }
    }
}

// ---------------------------------------------------------------------------
// Enumeration filtering
// ---------------------------------------------------------------------------

/// What a directory walk reports of one entry.
pub struct DirEntryInfo {
    pub name: String,
    pub ino: u64,
    pub is_dir: bool,
}

/// Mathematical image of a [`DirEntryInfo`].
pub struct DirEntryInfoV {
    pub name: Seq<char>,
    pub ino: u64,
    pub is_dir: bool,
}

impl View for DirEntryInfo {
    type V = DirEntryInfoV;

    open spec fn view(&self) -> DirEntryInfoV {
        DirEntryInfoV { name: self.name@, ino: self.ino, is_dir: self.is_dir }
    }
}

impl DeepView for DirEntryInfo {
    type V = DirEntryInfoV;

    open spec fn deep_view(&self) -> DirEntryInfoV {
        self.view()
    }
}

/// Whether one directory entry names a namespace: not the dot entries,
/// not a directory, and not the host namespace itself.
pub open spec fn entry_kept(e: DirEntryInfoV, default_ino: u64) -> bool {
    &&& e.name != "."@
    &&& e.name != ".."@
    &&& !e.is_dir
    &&& e.ino != default_ino
}

/// The named namespaces among the entries, in directory order.
pub open spec fn spec_list_named(entries: Seq<DirEntryInfoV>, default_ino: u64) -> Seq<NetnsV>
    decreases entries.len(),
{
    if entries.len() == 0 {
        Seq::empty()
    } else if entry_kept(entries[0], default_ino) {
        seq![NetnsV::Named(entries[0].name)] + spec_list_named(entries.drop_first(), default_ino)
    } else {
        spec_list_named(entries.drop_first(), default_ino)
    }
}

proof fn lemma_list_named_push(entries: Seq<DirEntryInfoV>, default_ino: u64, e: DirEntryInfoV)
    ensures
        spec_list_named(entries.push(e), default_ino) == if entry_kept(e, default_ino) {
            spec_list_named(entries, default_ino).push(NetnsV::Named(e.name))
        } else {
            spec_list_named(entries, default_ino)
        },
    decreases entries.len(),
{
    if entries.len() == 0 {
        assert(entries.push(e)[0] == e);
        assert(entries.push(e).drop_first() =~= Seq::<DirEntryInfoV>::empty());
        assert(spec_list_named(Seq::<DirEntryInfoV>::empty(), default_ino)
            == Seq::<NetnsV>::empty());
        if entry_kept(e, default_ino) {
            assert(spec_list_named(entries.push(e), default_ino) =~= spec_list_named(
                entries,
                default_ino,
            ).push(NetnsV::Named(e.name)));
        } else {
            assert(spec_list_named(entries.push(e), default_ino) =~= spec_list_named(
                entries,
                default_ino,
            ));
        }
    } else {
        assert(entries.push(e)[0] == entries[0]);
        assert(entries.push(e).drop_first() =~= entries.drop_first().push(e));
        lemma_list_named_push(entries.drop_first(), default_ino, e);
        assert(spec_list_named(entries.drop_first().push(e), default_ino) == if entry_kept(
            e,
            default_ino,
        ) {
            spec_list_named(entries.drop_first(), default_ino).push(NetnsV::Named(e.name))
        } else {
            spec_list_named(entries.drop_first(), default_ino)
        });
        if entry_kept(e, default_ino) {
            assert(spec_list_named(entries.push(e), default_ino) =~= spec_list_named(
                entries,
                default_ino,
            ).push(NetnsV::Named(e.name)));
        } else {
            assert(spec_list_named(entries.push(e), default_ino) =~= spec_list_named(
                entries,
                default_ino,
            ));
        }
    }
}

/// The namespaces a directory walk yields: the host namespace first, then
/// one per entry that names a bind mount — the dot entries, directories,
/// and the host namespace's own inode are skipped.
pub fn list_from_entries(entries: Vec<DirEntryInfo>, default_ino: u64) -> (r: Vec<Netns>)
    ensures
        r.deep_view() == seq![NetnsV::Default] + spec_list_named(
            entries.deep_view(),
            default_ino,
        ),
{
    let ghost dv = entries.deep_view();
    let dot = ".".to_owned();
    let dotdot = "..".to_owned();
    let mut r: Vec<Netns> = Vec::new();
    r.push(Netns::Default);
    let mut i: usize = 0;
    proof {
        assert(dv.take(0) =~= Seq::<DirEntryInfoV>::empty());
        assert(r.deep_view() =~= seq![NetnsV::Default] + spec_list_named(dv.take(0), default_ino));
    }
    while i < entries.len()
        invariant
            i <= entries@.len(),
            dv == entries.deep_view(),
            dv.len() == entries@.len(),
            dot@ == "."@,
            dotdot@ == ".."@,
            r.deep_view() =~= seq![NetnsV::Default] + spec_list_named(
                dv.take(i as int),
                default_ino,
            ),
        decreases entries@.len() - i,
    {
        proof {
            lemma_list_named_push(dv.take(i as int), default_ino, dv[i as int]);
            assert(dv.take(i + 1) =~= dv.take(i as int).push(dv[i as int]));
        }
        let e = &entries[i];
        let keep = !e.name.eq(&dot) && !e.name.eq(&dotdot) && !e.is_dir && e.ino != default_ino;
        if keep {
            let ghost before = r.deep_view();
            r.push(Netns::Named(crate::types::clone_string(&e.name)));
            proof {
                assert(r.deep_view() =~= before.push(NetnsV::Named(dv[i as int].name)));
            }
        }
        i = i + 1;
    }
    proof {
        assert(dv.take(dv.len() as int) =~= dv);
    }
    r
}

} // verus!
