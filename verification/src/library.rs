//! A library serves as a device-wide registry of asset packs.
use vstd::prelude::*;
use crate::keyed::KeyedList;
use crate::packs::{AssetPack, AssetPackError, opt_view, spec_pack_id};
use crate::paths::{join, spec_join};
use crate::text::copy_bytes;

verus! {

/// The bytes of the name of the library configuration file, `library.toml`.
pub open spec fn library_file_name() -> Seq<u8> {
    seq![0x6cu8, 0x69u8, 0x62u8, 0x72u8, 0x61u8, 0x72u8, 0x79u8, 0x2eu8, 0x74u8, 0x6fu8, 0x6du8, 0x6cu8]
}

/// The version of the software that creates new libraries.
pub const EDITOR_VERSION: &'static str = "0.1.0";

/// An entry in the library: where an asset pack lives on disk.
struct AssetLibraryEntry {
    /// Location of the asset pack on disk.
    root: Vec<u8>,
    /// The location of the asset pack's index, which may differ from the pack itself.
    index: Vec<u8>,
}

/// The errors that can occur when loading or saving the [`AssetLibrary`], or
/// when opening one of its packs.
#[derive(Debug)]
pub enum AssetLibraryError {
    /// The library configuration folder could not be located.
    LocateConfigFolder(String),
    /// The configuration file could not be read or written.
    ReadFile(String),
    /// The library configuration could not be (de)serialised.
    Serialisation(String),
    /// An asset pack could not be opened.
    OpenAssetPack(AssetPackError),
    /// The requested asset pack was not loaded or registered, depending on the operation.
    NotFound(String),
}

/// A device-wide registry of asset packs that save files can refer to: the
/// bridge between the identifiers of packs and where they live on a device.
pub struct AssetLibrary {
    /// The version of the software that last touched the library.
    version: String,
    /// The registered packs, keyed by their identifiers.
    registered_packs: KeyedList<AssetLibraryEntry>,
    /// The packs loaded in this run, keyed by their identifiers; never persisted,
    /// so a pack can be registered without being loaded.
    loaded_packs: KeyedList<AssetPack>,
}

/// The views of an exported registration: identifier, root and index.
pub open spec fn registration_view(r: (String, Vec<u8>, Vec<u8>)) -> (Seq<char>, Seq<u8>, Seq<u8>) {
    (r.0@, r.1@, r.2@)
}

/// The registrations that a sequence of (identifier, root, index) records
/// makes, a later record for an identifier replacing an earlier one.
pub open spec fn registrations(records: Seq<(Seq<char>, Seq<u8>, Seq<u8>)>) -> Map<Seq<char>, (Seq<u8>, Seq<u8>)>
    decreases records.len(),
{
    if records.len() == 0 {
        Map::empty()
    } else {
        let last = records.last();
        registrations(records.drop_last()).insert(last.0, (last.1, last.2))
    }
}

/// The identifiers of a sequence of records.
pub open spec fn record_ids(records: Seq<(Seq<char>, Seq<u8>, Seq<u8>)>) -> Seq<Seq<char>> {
    records.map_values(|r: (Seq<char>, Seq<u8>, Seq<u8>)| r.0)
}

/// The registrations of records with distinct identifiers map each record's
/// identifier to its root and index.
pub proof fn lemma_registrations_of_distinct(records: Seq<(Seq<char>, Seq<u8>, Seq<u8>)>)
    requires
        record_ids(records).no_duplicates(),
    ensures
        forall|id: Seq<char>| #[trigger] registrations(records).contains_key(id) <==> record_ids(records).contains(id),
        forall|i: int| 0 <= i < records.len() ==> #[trigger] registrations(records)[records[i].0] == (records[i].1, records[i].2),
    decreases records.len(),
{
    if records.len() > 0 {
        let init = records.drop_last();
        assert(record_ids(init) =~= record_ids(records).drop_last());
        lemma_registrations_of_distinct(init);
        let n: int = records.len() - 1;
        let last = records[n];
        assert(records.last() == last);
        assert(registrations(records) == registrations(init).insert(last.0, (last.1, last.2)));
        assert forall|id: Seq<char>| #[trigger] registrations(records).contains_key(id) <==> record_ids(records).contains(id) by {
            if record_ids(init).contains(id) {
                let j: int = record_ids(init).index_of(id);
                assert(record_ids(records)[j] == id);
            }
            if record_ids(records).contains(id) && id != records[n].0 {
                let j: int = record_ids(records).index_of(id);
                assert(j != n);
                assert(record_ids(init)[j] == id);
            }
            if id == records[n].0 {
                assert(record_ids(records)[n] == id);
            }
        }
        assert forall|i: int| 0 <= i < records.len() implies #[trigger] registrations(records)[records[i].0] == (records[i].1, records[i].2) by {
            if i < n {
                assert(record_ids(records)[i] != record_ids(records)[n]);
                assert(init[i] == records[i]);
                assert(registrations(init)[init[i].0] == (init[i].1, init[i].2));
            }
        }
    }
}

impl Default for AssetLibrary {
    /// An empty library for [`EDITOR_VERSION`].
    fn default() -> (library: Self)
        ensures
            library.is_empty_library(EDITOR_VERSION@),
    {
        AssetLibrary::new(EDITOR_VERSION.to_owned())
    }
}

impl AssetLibrary {
    /// Both registries are well formed.
    pub closed spec fn wf(&self) -> bool {
        &&& self.registered_packs.wf()
        &&& self.loaded_packs.wf()
        &&& forall|k: Seq<char>| #[trigger] self.loaded_packs.as_map().contains_key(k)
            ==> self.registered_packs.as_map().contains_key(k)
    }

    /// `after` is `before` with the pack rooted at `root` registered (its index
    /// kept in `meta_dir`) and loaded as a new pack named after `name`.
    pub open spec fn added_pack(
        before: AssetLibrary,
        after: AssetLibrary,
        root: Seq<u8>,
        meta_dir: Seq<u8>,
        name: Option<Seq<char>>,
        windows: bool,
    ) -> bool {
        let id = spec_pack_id(root);
        &&& after.spec_version() == before.spec_version()
        &&& after.registered() == before.registered().insert(id, (root, meta_dir))
        &&& after.registration_order() == if before.registered().contains_key(id) {
            before.registration_order()
        } else {
            before.registration_order().push(id)
        }
        &&& after.loaded().contains_key(id)
        &&& after.loaded() == before.loaded().insert(id, after.loaded()[id])
        &&& AssetPack::is_new_pack(after.loaded()[id], root, meta_dir, name, windows)
    }

    /// The version recorded in the library.
    pub closed spec fn spec_version(&self) -> Seq<char> {
        self.version@
    }

    /// The registered packs: identifier to (root, index).
    pub closed spec fn registered(&self) -> Map<Seq<char>, (Seq<u8>, Seq<u8>)> {
        self.registered_packs.as_map().map_values(|e: AssetLibraryEntry| (e.root@, e.index@))
    }

    /// The identifiers of the registered packs, in the order they were first registered.
    pub closed spec fn registration_order(&self) -> Seq<Seq<char>> {
        self.registered_packs.keys()
    }

    /// The loaded packs, by identifier.
    pub closed spec fn loaded(&self) -> Map<Seq<char>, AssetPack> {
        self.loaded_packs.as_map()
    }

    /// The registrations in order, as (identifier, root, index) records.
    pub open spec fn exported(&self) -> Seq<(Seq<char>, Seq<u8>, Seq<u8>)> {
        Seq::new(
            self.registration_order().len(),
            |i: int|
                {
                    let id = self.registration_order()[i];
                    (id, self.registered()[id].0, self.registered()[id].1)
                },
        )
    }

    /// Iterating over the registered packs lists each of them exactly once:
    /// the registration order holds every registered identifier, and nothing else,
    /// without repetition.
    pub proof fn law_registration_order(&self)
        requires
            self.wf(),
        ensures
            self.registration_order().no_duplicates(),
            self.registration_order().to_set() == self.registered().dom(),
            self.registration_order().len() == self.registered().len(),
            self.registered().dom().finite(),
    {
        self.registered_packs.lemma_len();
        assert(self.registered().dom() =~= self.registered_packs.as_map().dom());
    }

    /// Every loaded pack is registered: no operation loads a pack that the
    /// library does not know.
    pub proof fn law_loaded_packs_are_registered(&self)
        requires
            self.wf(),
        ensures
            forall|id: Seq<char>| #[trigger] self.loaded().contains_key(id) ==> self.registered().contains_key(id),
    {
        assert forall|id: Seq<char>| #[trigger] self.loaded().contains_key(id) implies self.registered().contains_key(id) by {
            assert(self.loaded_packs.as_map().contains_key(id));
        }
    }

    /// Adding a pack registers it under its identifier (the digest of its root)
    /// with its root and index, loads it, and grows the registry by one unless
    /// a pack with that root was registered already.
    pub proof fn law_add_pack_registers(
        before: AssetLibrary,
        after: AssetLibrary,
        root: Seq<u8>,
        meta_dir: Seq<u8>,
        name: Option<Seq<char>>,
        windows: bool,
    )
        requires
            before.wf(),
            Self::added_pack(before, after, root, meta_dir, name, windows),
        ensures
            after.registered().contains_key(spec_pack_id(root)),
            after.registered()[spec_pack_id(root)] == (root, meta_dir),
            after.registration_order().contains(spec_pack_id(root)),
            after.loaded().contains_key(spec_pack_id(root)),
            after.loaded()[spec_pack_id(root)].spec_id() == spec_pack_id(root),
            after.registered().len() == before.registered().len() + if before.registered().contains_key(
                spec_pack_id(root),
            ) {
                0int
            } else {
                1int
            },
    {
        let id = spec_pack_id(root);
        before.law_registration_order();
        if before.registered().contains_key(id) {
            assert(before.registration_order().to_set().contains(id));
            assert(after.registration_order().contains(id));
            assert(after.registered().dom() =~= before.registered().dom());
        } else {
            assert(after.registration_order()[before.registration_order().len() as int] == id);
            assert(after.registered().dom() =~= before.registered().dom().insert(id));
        }
    }

    /// Exporting a library and rebuilding it from the records gives back its
    /// registrations, in the same order: saving and loading keeps the registry.
    pub proof fn law_parts_roundtrip(&self)
        requires
            self.wf(),
        ensures
            record_ids(self.exported()) == self.registration_order(),
            record_ids(self.exported()).no_duplicates(),
            registrations(self.exported()) == self.registered(),
    {
        self.law_registration_order();
        let order = self.registration_order();
        assert(record_ids(self.exported()) =~= order);
        lemma_registrations_of_distinct(self.exported());
        assert forall|id: Seq<char>| #[trigger] self.registered().contains_key(id) implies
            registrations(self.exported()).contains_key(id) && registrations(self.exported())[id] == self.registered()[id] by {
            assert(order.to_set().contains(id));
            let i: int = order.index_of(id);
            assert(self.exported()[i].0 == id);
        }
        assert forall|id: Seq<char>| #[trigger] registrations(self.exported()).contains_key(id) implies
            self.registered().contains_key(id) by {
            let i: int = record_ids(self.exported()).index_of(id);
            assert(order[i] == id);
            assert(order.to_set().contains(id));
        }
        assert(registrations(self.exported()) =~= self.registered());
    }

    /// An empty library, recording `version`.
    pub open spec fn is_empty_library(&self, version: Seq<char>) -> bool {
        &&& self.wf()
        &&& self.spec_version() == version
        &&& self.registered() == Map::<Seq<char>, (Seq<u8>, Seq<u8>)>::empty()
        &&& self.registration_order() == Seq::<Seq<char>>::empty()
        &&& self.loaded() == Map::<Seq<char>, AssetPack>::empty()
    }

    /// A library with no packs, recording `version`.
    pub fn new(version: String) -> (library: Self)
        ensures
            library.is_empty_library(version@),
    {
        let library = AssetLibrary {
            version,
            registered_packs: KeyedList::new(),
            loaded_packs: KeyedList::new(),
        };
        assert(library.registered() =~= Map::<Seq<char>, (Seq<u8>, Seq<u8>)>::empty());
        library
    }

    /// Rebuilds a library from its persisted parts: the version and the
    /// (identifier, root, index) records of its packs. No pack is loaded.
    pub fn from_parts(version: String, records: Vec<(String, Vec<u8>, Vec<u8>)>) -> (library: Self)
        ensures
            library.wf(),
            library.spec_version() == version@,
            library.registered() == registrations(records@.map_values(|r: (String, Vec<u8>, Vec<u8>)| registration_view(r))),
            library.loaded() == Map::<Seq<char>, AssetPack>::empty(),
            record_ids(records@.map_values(|r: (String, Vec<u8>, Vec<u8>)| registration_view(r))).no_duplicates()
                ==> library.registration_order() == record_ids(records@.map_values(|r: (String, Vec<u8>, Vec<u8>)| registration_view(r))),
    {
        let mut library = AssetLibrary::new(version);
        let ghost views = records@.map_values(|r: (String, Vec<u8>, Vec<u8>)| registration_view(r));
        let mut i: usize = 0;
        while i < records.len()
            invariant
                i <= records@.len(),
                views == records@.map_values(|r: (String, Vec<u8>, Vec<u8>)| registration_view(r)),
                library.wf(),
                library.spec_version() == version@,
                library.registered() == registrations(views.subrange(0, i as int)),
                library.loaded() == Map::<Seq<char>, AssetPack>::empty(),
                record_ids(views).no_duplicates() ==> library.registration_order() == record_ids(views.subrange(0, i as int)),
            decreases records@.len() - i,
        {
            let id = records[i].0.clone();
            let root = copy_bytes(records[i].1.as_slice());
            let index = copy_bytes(records[i].2.as_slice());
            library.registered_packs.insert(id, AssetLibraryEntry { root, index });
            proof {
                let prefix = views.subrange(0, i + 1);
                assert(prefix.drop_last() =~= views.subrange(0, i as int));
                assert(prefix.last() == views[i as int]);
                assert(library.registered() =~= registrations(prefix));
                assert(record_ids(prefix) =~= record_ids(views.subrange(0, i as int)).push(views[i as int].0));
                if record_ids(views).no_duplicates() {
                    assert(!record_ids(views.subrange(0, i as int)).contains(views[i as int].0)) by {
                        if record_ids(views.subrange(0, i as int)).contains(views[i as int].0) {
                            let j: int = record_ids(views.subrange(0, i as int)).index_of(views[i as int].0);
                            assert(record_ids(views)[j] == record_ids(views)[i as int]);
                        }
                    }
                }
            }
            i = i + 1;
        }
        assert(views.subrange(0, records@.len() as int) =~= views);
        library
    }

    /// The persisted parts of the library: its version and the (identifier,
    /// root, index) records of its packs, in registration order.
    pub fn to_parts(&self) -> (parts: (String, Vec<(String, Vec<u8>, Vec<u8>)>))
        requires
            self.wf(),
        ensures
            parts.0@ == self.spec_version(),
            parts.1@.map_values(|r: (String, Vec<u8>, Vec<u8>)| registration_view(r)) == self.exported(),
    {
        let mut records: Vec<(String, Vec<u8>, Vec<u8>)> = Vec::new();
        let n: usize = self.registered_packs.len();
        let mut i: usize = 0;
        while i < n
            invariant
                self.wf(),
                n == self.registration_order().len(),
                i <= n,
                records@.len() == i,
                forall|j: int| 0 <= j < i ==> #[trigger] registration_view(records@[j]) == self.exported()[j],
            decreases n - i,
        {
            let id = self.registered_packs.key_at(i);
            let entry = self.registered_packs.value_at(i);
            proof {
                self.registered_packs.lemma_position(i as int);
            }
            records.push((
                id.clone(),
                copy_bytes(entry.root.as_slice()),
                copy_bytes(entry.index.as_slice()),
            ));
            i = i + 1;
        }
        let ghost v = records@.map_values(|r: (String, Vec<u8>, Vec<u8>)| registration_view(r));
        assert(v =~= self.exported());
        (self.version.clone(), records)
    }

    /// Keeps a library that could be loaded, and replaces the failure to read
    /// its file (typically: there is none yet) by an empty library for
    /// [`EDITOR_VERSION`]; any other error is handed back.
    pub fn load_or_default(loaded: Result<Self, AssetLibraryError>) -> (result: Result<Self, AssetLibraryError>)
        requires
            loaded matches Ok(l) ==> l.wf(),
        ensures
            match loaded {
                Err(AssetLibraryError::ReadFile(_)) => result matches Ok(l) && l.is_empty_library(EDITOR_VERSION@),
                _ => result == loaded,
            },
            result matches Ok(l) ==> l.wf(),
    {
        match loaded {
            Err(AssetLibraryError::ReadFile(_)) => Ok(Self::default()),
            result => result,
        }
    }

    /// Registers a new [`AssetPack`] rooted at `root` and returns its identifier;
    /// the pack is loaded too. `cache_dir` is the result of looking up the
    /// directory where pack metadata is kept; when that failed the library is
    /// left as it was.
    ///
    /// Use this to create a *new* pack, not to load an existing one. Paths are
    /// read by the Windows rules when `windows` is set, by the Unix rules otherwise.
    pub fn add_pack(&mut self, root: &[u8], cache_dir: Result<Vec<u8>, String>, name: Option<String>, windows: bool) -> (result: Result<String, AssetLibraryError>)
        requires
            old(self).wf(),
        ensures
            final(self).wf(),
            final(self).spec_version() == old(self).spec_version(),
            match cache_dir {
                Err(e) => {
                    &&& result matches Err(AssetLibraryError::LocateConfigFolder(m)) && m == e
                    &&& final(self).registered() == old(self).registered()
                    &&& final(self).registration_order() == old(self).registration_order()
                    &&& final(self).loaded() == old(self).loaded()
                },
                Ok(meta_dir) => {
                    &&& result matches Ok(id) && id@ == spec_pack_id(root@)
                    &&& Self::added_pack(*old(self), *final(self), root@, meta_dir@, opt_view(name), windows)
                },
            },
    {
        let meta_dir = match cache_dir {
            Ok(dir) => dir,
            Err(e) => return Err(AssetLibraryError::LocateConfigFolder(e)),
        };
        let pack = match AssetPack::new(root, meta_dir.as_slice(), name, windows) {
            Ok(p) => p,
            Err(e) => return Err(AssetLibraryError::OpenAssetPack(e)),
        };
        proof {
            pack.lemma_fields();
        }
        let pack_id = pack.id.clone();
        let entry = AssetLibraryEntry {
            root: copy_bytes(root),
            index: copy_bytes(meta_dir.as_slice()),
        };
        self.registered_packs.insert(pack_id.clone(), entry);
        assert(self.registered() =~= old(self).registered().insert(spec_pack_id(root@), (root@, meta_dir@)));
        self.loaded_packs.insert(pack_id.clone(), pack);
        Ok(pack_id)
    }

    /// Loads a previously registered pack with `open`, which is handed the
    /// pack's root and index directories, and keeps it as the loaded pack for
    /// `id` (replacing one loaded before).
    ///
    /// An unregistered `id` gives [`AssetLibraryError::NotFound`], a failure of
    /// `open` gives [`AssetLibraryError::OpenAssetPack`]; either way the library
    /// is left as it was.
    pub fn load_pack<F>(&mut self, id: &String, open: F) -> (result: Result<&mut AssetPack, AssetLibraryError>)
        where F: FnOnce(&[u8], &[u8]) -> Result<AssetPack, AssetPackError>,
        requires
            old(self).wf(),
            forall|root: &[u8], index: &[u8]| #[trigger] open.requires((root, index)),
        ensures
            final(self).wf(),
            final(self).spec_version() == old(self).spec_version(),
            final(self).registered() == old(self).registered(),
            final(self).registration_order() == old(self).registration_order(),
            !old(self).registered().contains_key(id@) ==> {
                &&& result matches Err(AssetLibraryError::NotFound(n)) && n@ == id@
                &&& final(self).loaded() == old(self).loaded()
            },
            old(self).registered().contains_key(id@) ==> match result {
                Ok(pack) => {
                    &&& exists|root: &[u8], index: &[u8], opened: AssetPack|
                        root@ == old(self).registered()[id@].0 && index@ == old(self).registered()[id@].1
                        && #[trigger] open.ensures((root, index), Ok(opened)) && *pack == opened
                    &&& final(self).loaded() == old(self).loaded().insert(id@, *final(pack))
                },
                Err(e) => {
                    &&& e is OpenAssetPack
                    &&& exists|root: &[u8], index: &[u8], failure: AssetPackError|
                        root@ == old(self).registered()[id@].0 && index@ == old(self).registered()[id@].1
                        && #[trigger] open.ensures((root, index), Err(failure)) && e == AssetLibraryError::OpenAssetPack(failure)
                    &&& final(self).loaded() == old(self).loaded()
                },
            },
    {
        let (root, index) = match self.registered_packs.get(id) {
            None => return Err(AssetLibraryError::NotFound(id.clone())),
            Some(entry) => (
                copy_bytes(entry.root.as_slice()),
                copy_bytes(entry.index.as_slice()),
            ),
        };
        let pack = match open(root.as_slice(), index.as_slice()) {
            Ok(p) => p,
            Err(e) => return Err(AssetLibraryError::OpenAssetPack(e)),
        };
        self.loaded_packs.insert(id.clone(), pack);
        match self.loaded_packs.get_mut(id) {
            Some(p) => Ok(p),
            None => Err(AssetLibraryError::NotFound(id.clone())),
        }
    }

    /// Whether the pack `id` is loaded in this library.
    pub fn is_pack_loaded(&self, id: &String) -> (loaded: bool)
        requires
            self.wf(),
        ensures
            loaded == self.loaded().contains_key(id@),
    {
        self.loaded_packs.contains_key(id)
    }

    /// Whether the pack `id` is known (registered) in this library.
    pub fn is_pack_registered(&self, id: &String) -> (registered: bool)
        requires
            self.wf(),
        ensures
            registered == self.registered().contains_key(id@),
    {
        self.registered_packs.contains_key(id)
    }

    /// A mutable borrow of the loaded pack `id`; `None` when the pack is not
    /// loaded (unknown, or registered but not loaded yet).
    pub fn get_pack_mut(&mut self, id: &String) -> (pack: Option<&mut AssetPack>)
        requires
            old(self).wf(),
        ensures
            final(self).wf(),
            final(self).spec_version() == old(self).spec_version(),
            final(self).registered() == old(self).registered(),
            final(self).registration_order() == old(self).registration_order(),
            match pack {
                Some(p) => {
                    &&& old(self).loaded().contains_key(id@)
                    &&& *p == old(self).loaded()[id@]
                    &&& final(self).loaded() == old(self).loaded().insert(id@, *final(p))
                },
                None => {
                    &&& !old(self).loaded().contains_key(id@)
                    &&& final(self).loaded() == old(self).loaded()
                },
            },
    {
        self.loaded_packs.get_mut(id)
    }

    /// All registered packs as (identifier, root) pairs, in registration order.
    pub fn iter(&self) -> (packs: Vec<(String, Vec<u8>)>)
        requires
            self.wf(),
        ensures
            packs@.len() == self.registration_order().len(),
            forall|i: int| 0 <= i < packs@.len() ==> {
                &&& (#[trigger] packs@[i]).0@ == self.registration_order()[i]
                &&& packs@[i].1@ == self.registered()[self.registration_order()[i]].0
            },
    {
        let mut packs: Vec<(String, Vec<u8>)> = Vec::new();
        let n: usize = self.registered_packs.len();
        let mut i: usize = 0;
        while i < n
            invariant
                self.wf(),
                n == self.registration_order().len(),
                i <= n,
                packs@.len() == i,
                forall|j: int| 0 <= j < i ==> {
                    &&& (#[trigger] packs@[j]).0@ == self.registration_order()[j]
                    &&& packs@[j].1@ == self.registered()[self.registration_order()[j]].0
                },
            decreases n - i,
        {
            let id = self.registered_packs.key_at(i);
            let entry = self.registered_packs.value_at(i);
            proof {
                self.registered_packs.lemma_position(i as int);
            }
            packs.push((id.clone(), copy_bytes(entry.root.as_slice())));
            i = i + 1;
        }
        packs
    }

    /// The path of the library configuration file inside the configuration directory `dir`.
    pub fn library_file(dir: &[u8], windows: bool) -> (path: Vec<u8>)
        ensures
            path@ == spec_join(dir@, library_file_name(), windows),
    {
        let file_name: [u8; 12] = [0x6cu8, 0x69u8, 0x62u8, 0x72u8, 0x61u8, 0x72u8, 0x79u8, 0x2eu8, 0x74u8, 0x6fu8, 0x6du8, 0x6cu8];
        assert(file_name@ =~= library_file_name());
        join(dir, &file_name, windows)
    }
}

} // verus!
