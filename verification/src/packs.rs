//! An asset pack is a single root folder that contains assets and subfolders.
use vstd::prelude::*;
use crate::hashing::{content_id, spec_content_id};
use crate::keyed::KeyedList;
use crate::paths::{file_name, join, spec_file_name, spec_join};
use crate::text::utf8_lossy;

verus! {

/// Describes the current state of an [`AssetPack`].
#[derive(Debug)]
pub enum AssetPackState {
    /// Freshly created, nothing has been done with it yet.
    Created,
    /// The pack's assets are being indexed.
    Indexing,
    /// The pack cannot be used; the text says why.
    Invalid(String),
    /// The pack is indexed and usable.
    Ready,
}

impl Default for AssetPackState {
    fn default() -> (state: Self)
        ensures
            state is Created,
    {
        AssetPackState::Created
    }
}

/// The errors that can occur while opening an [`AssetPack`]. There are none
/// yet: no function of this crate makes one, and its field keeps other crates
/// from making one.
#[derive(Debug)]
pub struct AssetPackError {
    unconstructible: (),
}

/// An [`AssetPack`] is a single root folder that contains assets and subfolders.
///
/// The asset pack handles the indexing, categorising and loading of the assets.
pub struct AssetPack {
    /// The state the pack is currently in.
    pub state: AssetPackState,
    /// The identifier of this pack: the BLAKE3 digest of its root path, in
    /// lowercase hexadecimal.
    pub id: String,
    /// The human-readable name of this pack; not guaranteed to be unique.
    pub name: String,
    /// The "root" directory under which the assets of this pack live.
    pub(crate) root: Vec<u8>,
    /// The directory in which (ephemeral) metadata about the pack is kept.
    pub(crate) meta_dir: Vec<u8>,
    /// Mapping from asset identifiers to their paths, relative to `root`.
    pub(crate) index: KeyedList<Vec<u8>>,
    /// A script used while indexing to categorise the assets in the pack.
    pub(crate) script: Option<String>,
}

/// The name a new pack gets: the one given, else the file name of its root
/// (read by the Windows rules when `windows`, as text, lossily), else its identifier.
pub open spec fn spec_pack_name(given: Option<Seq<char>>, root: Seq<u8>, id: Seq<char>, windows: bool) -> Seq<char> {
    match given {
        Some(n) => n,
        None => match spec_file_name(root, windows) {
            Some(f) => utf8_lossy(f),
            None => id,
        },
    }
}

/// The identifier of the pack rooted at `root`: the digest of the root's bytes.
pub open spec fn spec_pack_id(root: Seq<u8>) -> Seq<char> {
    spec_content_id(root)
}

/// The metadata directory a pack gets by default: `.metadata` inside its root.
pub open spec fn spec_default_meta_dir(root: Seq<u8>, windows: bool) -> Seq<u8> {
    spec_join(root, metadata_dir_name(), windows)
}

/// The bytes of `.metadata`.
pub open spec fn metadata_dir_name() -> Seq<u8> {
    seq![0x2eu8, 0x6du8, 0x65u8, 0x74u8, 0x61u8, 0x64u8, 0x61u8, 0x74u8, 0x61u8]
}

/// The text held by an optional `String`.
pub open spec fn opt_view(s: Option<String>) -> Option<Seq<char>> {
    match s {
        Some(t) => Some(t@),
        None => None,
    }
}

impl AssetPack {
    /// The state of the pack.
    pub closed spec fn spec_state(&self) -> AssetPackState {
        self.state
    }

    /// The identifier of the pack.
    pub closed spec fn spec_id(&self) -> Seq<char> {
        self.id@
    }

    /// The name of the pack.
    pub closed spec fn spec_name(&self) -> Seq<char> {
        self.name@
    }

    /// What the accessors above stand for, for the rest of the crate.
    pub(crate) proof fn lemma_fields(&self)
        ensures
            self.spec_state() == self.state,
            self.spec_id() == self.id@,
            self.spec_name() == self.name@,
            self.spec_root() == self.root@,
            self.spec_meta_dir() == self.meta_dir@,
    {
    }

    /// The root directory of the pack.
    pub closed spec fn spec_root(&self) -> Seq<u8> {
        self.root@
    }

    /// The metadata directory of the pack.
    pub closed spec fn spec_meta_dir(&self) -> Seq<u8> {
        self.meta_dir@
    }

    /// The asset index of the pack, from asset identifier to relative path.
    pub closed spec fn spec_index(&self) -> Map<Seq<char>, Vec<u8>> {
        self.index.as_map()
    }

    /// The indexing script of the pack.
    pub closed spec fn spec_script(&self) -> Option<String> {
        self.script
    }

    /// Whether `pack` is what [`AssetPack::new`] makes of these arguments.
    pub open spec fn is_new_pack(pack: AssetPack, root: Seq<u8>, meta_dir: Seq<u8>, name: Option<Seq<char>>, windows: bool) -> bool {
        &&& pack.spec_state() is Created
        &&& pack.spec_id() == spec_pack_id(root)
        &&& pack.spec_name() == spec_pack_name(name, root, spec_pack_id(root), windows)
        &&& pack.spec_root() == root
        &&& pack.spec_meta_dir() == meta_dir
        &&& pack.spec_index() == Map::<Seq<char>, Vec<u8>>::empty()
        &&& pack.spec_script() is None
    }

    /// A pack's identifier depends on its root alone: packs created for the same
    /// root have the same identifier, whatever their names and metadata directories.
    pub proof fn law_pack_id_depends_only_on_root(
        p: AssetPack,
        q: AssetPack,
        root: Seq<u8>,
        meta_p: Seq<u8>,
        meta_q: Seq<u8>,
        name_p: Option<Seq<char>>,
        name_q: Option<Seq<char>>,
        windows: bool,
    )
        requires
            Self::is_new_pack(p, root, meta_p, name_p, windows),
            Self::is_new_pack(q, root, meta_q, name_q, windows),
        ensures
            p.spec_id() == q.spec_id(),
            name_p is None && name_q is None ==> p.spec_name() == q.spec_name(),
    {
    }

    /// With no name given, a pack whose root ends in a normal name is named
    /// exactly that name, as text: the whole name, dots and all, decoded as
    /// `String::from_utf8_lossy` does. The root is `base` joined with `n`, when the join
    /// leaves the prefix of the path as it was.
    pub proof fn law_pack_named_after_root(pack: AssetPack, base: Seq<u8>, n: Seq<u8>, meta_dir: Seq<u8>, windows: bool)
        requires
            crate::paths::is_normal_name(n, windows),
            crate::paths::prefix_len(spec_join(base, n, windows), windows) == crate::paths::prefix_len(base, windows),
            crate::paths::is_verbatim(spec_join(base, n, windows), windows) == crate::paths::is_verbatim(base, windows),
            Self::is_new_pack(pack, spec_join(base, n, windows), meta_dir, None, windows),
        ensures
            pack.spec_name() == utf8_lossy(n),
    {
        crate::paths::law_file_name_of_join(base, n, windows);
    }

    /// Generates a new [`AssetPack`] in the [`AssetPackState::Created`] state,
    /// rooted at `root`, keeping its metadata in `meta_dir`. Paths are read by
    /// the Windows rules when `windows` is set, by the Unix rules otherwise.
    pub fn new(root: &[u8], meta_dir: &[u8], name: Option<String>, windows: bool) -> (pack: Result<Self, AssetPackError>)
        ensures
            pack matches Ok(p) && Self::is_new_pack(p, root@, meta_dir@, opt_view(name), windows),
    {
        let id = content_id(root);
        let name = match name {
            Some(n) => n,
            None => match file_name(root, windows) {
                Some(f) => f,
                None => id.clone(),
            },
        };
        Ok(AssetPack {
            state: AssetPackState::default(),
            id,
            name,
            root: crate::text::copy_bytes(root),
            meta_dir: crate::text::copy_bytes(meta_dir),
            index: KeyedList::new(),
            script: None,
        })
    }

    /// Generates a new [`AssetPack`] in the [`AssetPackState::Created`] state,
    /// rooted at `root`, keeping its metadata in the default place: the
    /// `.metadata` directory inside `root`.
    pub fn new_in_root(root: &[u8], name: Option<String>, windows: bool) -> (pack: Result<Self, AssetPackError>)
        ensures
            pack matches Ok(p) && Self::is_new_pack(p, root@, spec_default_meta_dir(root@, windows), opt_view(name), windows),
    {
        let dir_name: [u8; 9] = [0x2eu8, 0x6du8, 0x65u8, 0x74u8, 0x61u8, 0x64u8, 0x61u8, 0x74u8, 0x61u8];
        assert(dir_name@ =~= metadata_dir_name());
        let meta_dir = join(root, &dir_name, windows);
        Self::new(root, meta_dir.as_slice(), name, windows)
    }
}

} // verus!
