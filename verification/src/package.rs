//! The content-addressed package store: packages kept by the SHA-256 digest
//! of their bytes, the files unpacked from each, and the names registered
//! for them.
use vstd::prelude::*;
use sha2::Digest;
use std::io::Read;
use crate::assoc::{AssocMap, KeyEq};
use crate::store::{HashKey, package_name_from_fields, registered_name, tar_format};
use crate::text::{copy_bytes, str_eq, string_of};
use crate::version::{newer, parse_version, version_newer, version_of};

verus! {

/// The SHA-256 digest of some bytes.
pub uninterp spec fn sha256_of(data: Seq<u8>) -> Seq<u8>;

/// What reading a tar archive gives, entry by entry: each entry's path and
/// contents, or the error met reading it.
pub uninterp spec fn tar_items(data: Seq<u8>) -> Seq<Result<(Seq<char>, Seq<u8>), Seq<char>>>;

/// What reading a gzip-compressed tar archive gives, entry by entry.
pub uninterp spec fn tar_gz_items(data: Seq<u8>) -> Seq<Result<(Seq<char>, Seq<u8>), Seq<char>>>;

/// The model of a list of archive entries.
pub open spec fn items_view(v: Seq<Result<(String, Vec<u8>), String>>) -> Seq<Result<(Seq<char>, Seq<u8>), Seq<char>>> {
    Seq::new(v.len(), |i: int| match v[i] {
        Ok(p) => Ok((p.0@, p.1@)),
        Err(e) => Err(e@),
    })
}

/// Calls `Sha256::digest` (sha2); claims the result is the digest of the
/// input, a function of the input alone.
#[verifier::external_body]
fn sha256(data: &Vec<u8>) -> (r: HashKey)
    ensures
        r@ == sha256_of(data@),
{
    sha2::Sha256::digest(data).into()
}

/// Reads a tar archive with `tar::Archive::entries` (which cannot fail on a
/// new archive), each entry's path with `Entry::path_bytes` (the raw header
/// bytes, turned into text by `String::from_utf8_lossy` the same way on every
/// machine) and contents with `Read::read_to_end`; claims the entries read
/// (path and contents, or the error) are a function of the bytes alone.
#[verifier::external_body]
fn read_tar(data: &Vec<u8>) -> (r: Vec<Result<(String, Vec<u8>), String>>)
    ensures
        items_view(r@) == tar_items(data@),
{
    let mut archive = tar::Archive::new(std::io::Cursor::new(&data[..]));
    let mut out = Vec::new();
    for entry in archive.entries().into_iter().flatten() {
        let mut contents = Vec::new();
        out.push(match entry {
            Ok(mut e) => match (String::from_utf8_lossy(&e.path_bytes()).into_owned(), e.read_to_end(&mut contents)) {
                (path, Ok(_)) => Ok((path, contents)),
                (_, Err(x)) => Err(x.to_string()),
            },
            Err(x) => Err(x.to_string()),
        });
    }
    out
}

/// Reads a gzip-compressed tar archive as [`read_tar`] does, through
/// `flate2::read::GzDecoder`; claims the entries read are a function of the
/// bytes alone.
#[verifier::external_body]
fn read_tar_gz(data: &Vec<u8>) -> (r: Vec<Result<(String, Vec<u8>), String>>)
    ensures
        items_view(r@) == tar_gz_items(data@),
{
    let mut archive = tar::Archive::new(flate2::read::GzDecoder::new(&data[..]));
    let mut out = Vec::new();
    for entry in archive.entries().into_iter().flatten() {
        let mut contents = Vec::new();
        out.push(match entry {
            Ok(mut e) => match (String::from_utf8_lossy(&e.path_bytes()).into_owned(), e.read_to_end(&mut contents)) {
                (path, Ok(_)) => Ok((path, contents)),
                (_, Err(x)) => Err(x.to_string()),
            },
            Err(x) => Err(x.to_string()),
        });
    }
    out
}

proof fn key_view(k: HashKey)
    ensures
        k.deep_view() == k@,
{
    assert(k.deep_view() =~= k@);
}

impl KeyEq for HashKey {
    fn key_eq(&self, other: &Self) -> (r: bool) {
        proof {
            key_view(*self);
            key_view(*other);
        }
        let mut i: usize = 0;
        while i < 32
            invariant
                i <= 32,
                self.deep_view() == self@,
                other.deep_view() == other@,
                self@.len() == 32,
                other@.len() == 32,
                forall|j: int| 0 <= j < i ==> self@[j] == other@[j],
            decreases 32 - i,
        {
            if self[i] != other[i] {
                assert(self@[i as int] != other@[i as int]);
                assert(self@ != other@);
                return false;
            }
            i = i + 1;
        }
        assert(self@ =~= other@);
        true
    }

    fn key_clone(&self) -> (r: Self) {
        *self
    }
}

/// The lower-case hexadecimal digit for `d < 16`.
pub open spec fn hex_digit(d: nat) -> char {
    if d < 10 {
        ((48 + d) as u8) as char
    } else {
        ((87 + d) as u8) as char
    }
}

/// Bytes written as lower-case hexadecimal, two digits each.
pub open spec fn hex_of(b: Seq<u8>) -> Seq<char>
    decreases b.len(),
{
    if b.len() == 0 {
        Seq::empty()
    } else {
        hex_of(b.drop_last()) + seq![hex_digit((b.last() / 16) as nat), hex_digit((b.last() % 16) as nat)]
    }
}

/// The file a package is kept in on disk: its digest in hexadecimal, then
/// `.tar.gz` for gzip data and `.tar` otherwise.
pub open spec fn package_file(key: Seq<u8>, data: Seq<u8>) -> Seq<char> {
    hex_of(key) + if data.len() >= 2 && data[0] == 0x1f && data[1] == 0x8b {
        ".tar.gz"@
    } else {
        ".tar"@
    }
}

fn hex_char(d: u8) -> (r: char)
    requires
        d < 16,
    ensures
        r == hex_digit(d as nat),
{
    if d < 10 {
        (48 + d) as char
    } else {
        (87 + d) as char
    }
}

/// The name of the file a package is kept in (see [`package_file`]).
pub fn package_file_name(key: &HashKey, data: &Vec<u8>) -> (r: String)
    ensures
        r@ == package_file(key@, data@),
{
    let mut out: Vec<char> = Vec::new();
    let mut i: usize = 0;
    assert(key@.take(0) =~= Seq::<u8>::empty());
    while i < 32
        invariant
            i <= 32,
            key@.len() == 32,
            out@ == hex_of(key@.take(i as int)),
        decreases 32 - i,
    {
        let b = key[i];
        assert(key@.take(i + 1).drop_last() =~= key@.take(i as int));
        assert(key@.take(i + 1).last() == b);
        out.push(hex_char(b / 16));
        out.push(hex_char(b % 16));
        assert(out@ =~= hex_of(key@.take(i + 1)));
        i = i + 1;
    }
    assert(key@.take(32) =~= key@);
    let ext = if data.len() >= 2 && data[0] == 0x1f && data[1] == 0x8b { ".tar.gz" } else { ".tar" };
    let mut name = string_of(&out);
    name.append(ext);
    name
}

/// Why the store refused a package.
pub enum StoreError {
    /// The bytes are neither a tar archive nor a gzip stream.
    InvalidTarball,
    /// A package with the same digest is already stored.
    AlreadyExists,
    /// Reading the archive failed, with the reader's message.
    Archive(String),
}

/// The model of a [`StoreError`].
pub enum StoreErrorModel {
    InvalidTarball,
    AlreadyExists,
    Archive(Seq<char>),
}

impl View for StoreError {
    type V = StoreErrorModel;

    open spec fn view(&self) -> StoreErrorModel {
        match self {
            StoreError::InvalidTarball => StoreErrorModel::InvalidTarball,
            StoreError::AlreadyExists => StoreErrorModel::AlreadyExists,
            StoreError::Archive(m) => StoreErrorModel::Archive(m@),
        }
    }
}

impl StoreError {
    /// The human-readable message for this error.
    pub fn message(&self) -> (r: String)
        ensures
            r@ == match self@ {
                StoreErrorModel::InvalidTarball => "Invalid tarball"@,
                StoreErrorModel::AlreadyExists => "Package already exists"@,
                StoreErrorModel::Archive(m) => m,
            },
    {
        match self {
            StoreError::InvalidTarball => String::from_str("Invalid tarball"),
            StoreError::AlreadyExists => String::from_str("Package already exists"),
            StoreError::Archive(m) => m.clone(),
        }
    }
}

/// The model of a [`InMemoryPackageStore`].
pub struct PackageStoreModel {
    /// The digest each name is registered to.
    pub names: Map<Seq<char>, Seq<u8>>,
    /// The bytes of each package, by digest.
    pub packages: Map<Seq<u8>, Seq<u8>>,
    /// The files unpacked from each package, by digest and then by path.
    pub files: Map<Seq<u8>, Map<Seq<char>, Seq<u8>>>,
    /// The version recorded for each name registered from a package (none
    /// when the package gave no readable version).
    pub versions: Map<Seq<char>, Option<Seq<u64>>>,
}

/// The version a package's `version` field gives, if any.
pub open spec fn version_field(v: Option<Seq<char>>) -> Option<Seq<u64>> {
    match v {
        Some(s) => version_of(s),
        None => None,
    }
}

/// The version recorded for `name`, if any.
pub open spec fn recorded_version(m: PackageStoreModel, name: Seq<char>) -> Option<Seq<u64>> {
    if m.versions.contains_key(name) {
        m.versions[name]
    } else {
        None
    }
}

/// Whether a package newly found with `version` takes over `name`: when the
/// name is not registered yet, or the package has a version and the name has
/// none recorded or an older one.
pub open spec fn takes_name(m: PackageStoreModel, name: Seq<char>, version: Option<Seq<u64>>) -> bool {
    ||| !m.names.contains_key(name)
    ||| (version is Some && (recorded_version(m, name) is None || newer(version->0, recorded_version(m, name)->0)))
}

/// The files unpacked from the package `key` (none if it has no entry).
pub open spec fn files_of(m: PackageStoreModel, key: Seq<u8>) -> Map<Seq<char>, Seq<u8>> {
    if m.files.contains_key(key) {
        m.files[key]
    } else {
        Map::empty()
    }
}

/// The entries of a package, read as gzip-compressed tar or as plain tar
/// according to its format.
pub open spec fn archive_items(data: Seq<u8>) -> Seq<Result<(Seq<char>, Seq<u8>), Seq<char>>> {
    if tar_format(data) == Some(".tar.gz"@) {
        tar_gz_items(data)
    } else {
        tar_items(data)
    }
}

/// `m` with `items` stored in it: each readable entry under its path, a later
/// one replacing an earlier one. When `strict`, storing stops at the first
/// error, which is returned; otherwise errors are passed over.
pub open spec fn cache_items(m: Map<Seq<char>, Seq<u8>>, items: Seq<Result<(Seq<char>, Seq<u8>), Seq<char>>>, strict: bool) -> (Map<Seq<char>, Seq<u8>>, Option<Seq<char>>)
    decreases items.len(),
{
    if items.len() == 0 {
        (m, None)
    } else {
        let prev = cache_items(m, items.drop_last(), strict);
        if strict && prev.1 is Some {
            prev
        } else {
            match items.last() {
                Ok(f) => (prev.0.insert(f.0, f.1), prev.1),
                Err(e) => if strict {
                    (prev.0, Some(e))
                } else {
                    prev
                },
            }
        }
    }
}

/// Why a new package would be refused: not an archive, or already stored.
pub open spec fn admission_error(m: PackageStoreModel, data: Seq<u8>) -> Option<StoreErrorModel> {
    if tar_format(data) is None {
        Some(StoreErrorModel::InvalidTarball)
    } else if m.packages.contains_key(sha256_of(data)) {
        Some(StoreErrorModel::AlreadyExists)
    } else {
        None
    }
}

/// The store after an admitted package is added, and the archive error met
/// unpacking it, if any (the files read before it stay).
pub open spec fn added(m: PackageStoreModel, data: Seq<u8>) -> (PackageStoreModel, Option<Seq<char>>) {
    let key = sha256_of(data);
    let c = cache_items(files_of(m, key), archive_items(data), true);
    (PackageStoreModel { packages: m.packages.insert(key, data), files: m.files.insert(key, c.0), ..m }, c.1)
}

/// The store after a package found on disk is loaded: nothing changes for a
/// digest already stored; otherwise the package is kept and, if it is an
/// archive, every readable entry is unpacked.
pub open spec fn loaded(m: PackageStoreModel, data: Seq<u8>) -> PackageStoreModel {
    let key = sha256_of(data);
    if m.packages.contains_key(key) {
        m
    } else if tar_format(data) is Some {
        PackageStoreModel {
            packages: m.packages.insert(key, data),
            files: m.files.insert(key, cache_items(files_of(m, key), archive_items(data), false).0),
            ..m
        }
    } else {
        PackageStoreModel { packages: m.packages.insert(key, data), ..m }
    }
}

/// An optional string's model.
pub open spec fn opt_str(s: Option<String>) -> Option<Seq<char>> {
    match s {
        Some(x) => Some(x@),
        None => None,
    }
}

/// Packages in memory, keyed by the digest of their bytes.
pub struct InMemoryPackageStore {
    names: AssocMap<String, HashKey>,
    packages: AssocMap<HashKey, Vec<u8>>,
    files: AssocMap<HashKey, AssocMap<String, Vec<u8>>>,
    versions: AssocMap<String, Option<Vec<u64>>>,
}

impl View for InMemoryPackageStore {
    type V = PackageStoreModel;

    closed spec fn view(&self) -> PackageStoreModel {
        PackageStoreModel {
            names: self.names.model(),
            packages: self.packages.model(),
            files: self.files.model(),
            versions: self.versions.model(),
        }
    }
}

fn cache_into(inner: &mut AssocMap<String, Vec<u8>>, items: &Vec<Result<(String, Vec<u8>), String>>, strict: bool) -> (r: Option<String>)
    requires
        old(inner).wf(),
    ensures
        final(inner).wf(),
        (final(inner).model(), opt_str(r)) == cache_items(old(inner).model(), items_view(items@), strict),
{
    let ghost m0 = inner.model();
    let ghost iv = items_view(items@);
    let mut err: Option<String> = None;
    let mut i: usize = 0;
    assert(iv.take(0) =~= Seq::<Result<(Seq<char>, Seq<u8>), Seq<char>>>::empty());
    while i < items.len()
        invariant
            inner.wf(),
            i <= items.len(),
            iv == items_view(items@),
            (inner.model(), opt_str(err)) == cache_items(m0, iv.take(i as int), strict),
        decreases items.len() - i,
    {
        assert(iv.take(i + 1).drop_last() =~= iv.take(i as int));
        assert(iv.take(i + 1).last() == iv[i as int]);
        if strict && err.is_some() {
            i = i + 1;
        } else {
            match &items[i] {
                Ok(f) => {
                    let c = copy_bytes(&f.1);
                    assert(c.deep_view() =~= f.1@);
                    inner.insert(f.0.clone(), c);
                },
                Err(e) => {
                    if strict {
                        err = Some(e.clone());
                    }
                },
            }
            i = i + 1;
        }
    }
    assert(iv.take(items.len() as int) =~= iv);
    err
}

impl InMemoryPackageStore {
    /// The three maps, and the file map of every package, are well formed.
    pub closed spec fn wf(&self) -> bool {
        &&& self.names.wf()
        &&& self.packages.wf()
        &&& self.files.wf()
        &&& self.versions.wf()
        &&& forall|k: Seq<u8>| #[trigger] self.files.entries().contains_key(k) ==> self.files.entries()[k].wf()
    }

    /// An empty store.
    pub fn new() -> (r: InMemoryPackageStore)
        ensures
            r.wf(),
            r@.names == Map::<Seq<char>, Seq<u8>>::empty(),
            r@.packages == Map::<Seq<u8>, Seq<u8>>::empty(),
            r@.files == Map::<Seq<u8>, Map<Seq<char>, Seq<u8>>>::empty(),
            r@.versions == Map::<Seq<char>, Option<Seq<u64>>>::empty(),
    {
        InMemoryPackageStore {
            names: AssocMap::new(),
            packages: AssocMap::new(),
            files: AssocMap::new(),
            versions: AssocMap::new(),
        }
    }

    /// The digest `name` is registered to.
    pub fn resolve_name(&self, name: &str) -> (r: Option<HashKey>)
        requires
            self.wf(),
        ensures
            match r {
                Some(k) => self@.names.contains_key(name@) && k@ == self@.names[name@],
                None => !self@.names.contains_key(name@),
            },
    {
        let n = String::from_str(name);
        match self.names.get(&n) {
            Some(k) => {
                proof {
                    key_view(*k);
                }
                Some(*k)
            },
            None => None,
        }
    }

    /// Registers `name` to the package `key`, replacing any earlier one.
    pub fn set_name(&mut self, name: &str, key: HashKey)
        requires
            old(self).wf(),
        ensures
            final(self).wf(),
            final(self)@ == (PackageStoreModel { names: old(self)@.names.insert(name@, key@), ..old(self)@ }),
    {
        proof {
            key_view(key);
        }
        self.names.insert(String::from_str(name), key);
    }

    /// The bytes of the package `key`.
    pub fn get_package(&self, key: &HashKey) -> (r: Option<Vec<u8>>)
        requires
            self.wf(),
        ensures
            match r {
                Some(v) => self@.packages.contains_key(key@) && v@ == self@.packages[key@],
                None => !self@.packages.contains_key(key@),
            },
    {
        proof {
            key_view(*key);
        }
        match self.packages.get(key) {
            Some(v) => Some(copy_bytes(v)),
            None => None,
        }
    }

    /// The file `asset` of the package `key`.
    pub fn get_asset(&self, key: &HashKey, asset: &str) -> (r: Option<Vec<u8>>)
        requires
            self.wf(),
        ensures
            match r {
                Some(v) => files_of(self@, key@).contains_key(asset@) && v@ == files_of(self@, key@)[asset@],
                None => !files_of(self@, key@).contains_key(asset@),
            },
    {
        proof {
            key_view(*key);
        }
        match self.files.get(key) {
            Some(inner) => {
                let a = String::from_str(asset);
                match inner.get(&a) {
                    Some(v) => Some(copy_bytes(v)),
                    None => None,
                }
            },
            None => None,
        }
    }

    /// The file `asset` of the package registered as `name`.
    pub fn get_asset_by_name(&self, name: &str, asset: &str) -> (r: Option<Vec<u8>>)
        requires
            self.wf(),
        ensures
            match r {
                Some(v) => self@.names.contains_key(name@)
                    && files_of(self@, self@.names[name@]).contains_key(asset@)
                    && v@ == files_of(self@, self@.names[name@])[asset@],
                None => !self@.names.contains_key(name@)
                    || !files_of(self@, self@.names[name@]).contains_key(asset@),
            },
    {
        match self.resolve_name(name) {
            Some(k) => self.get_asset(&k, asset),
            None => None,
        }
    }

    /// The registered names, each once.
    pub fn list_names(&self) -> (r: Vec<String>)
        requires
            self.wf(),
        ensures
            r@.map_values(|s: String| s@).no_duplicates(),
            r@.map_values(|s: String| s@).to_set() == self@.names.dom(),
    {
        let mut out: Vec<String> = Vec::new();
        let mut i: usize = 0;
        let n = self.names.len();
        while i < n
            invariant
                self.wf(),
                n == self.names.size(),
                i <= n,
                out@.len() == i,
                forall|j: int| 0 <= j < i ==> #[trigger] out@[j]@ == self.names.key_at(j),
            decreases n - i,
        {
            out.push(self.names.key_ref(i).clone());
            i = i + 1;
        }
        proof {
            self.names.lemma_keys(out@.map_values(|s: String| s@));
        }
        out
    }

    fn record_version(&mut self, name: &String, version: &Option<String>) -> (r: Option<Vec<u64>>)
        requires
            old(self).wf(),
        ensures
            final(self).wf(),
            r.deep_view() == version_field(version.deep_view()),
            final(self)@ == (PackageStoreModel {
                versions: old(self)@.versions.insert(name@, version_field(version.deep_view())),
                ..old(self)@
            }),
    {
        let v = match version {
            Some(t) => parse_version(t.as_str()),
            None => None,
        };
        let ghost vm = v.deep_view();
        assert(vm == version_field(version.deep_view()));
        let kept = match &v {
            Some(x) => {
                let mut c: Vec<u64> = Vec::new();
                let mut i: usize = 0;
                while i < x.len()
                    invariant
                        i <= x.len(),
                        c@ == x@.take(i as int),
                    decreases x.len() - i,
                {
                    c.push(x[i]);
                    assert(c@ =~= x@.take(i + 1));
                    i = i + 1;
                }
                assert(x@.take(x.len() as int) =~= x@);
                Some(c)
            },
            None => None,
        };
        assert(kept.deep_view() =~= vm);
        self.versions.insert(name.clone(), kept);
        assert(self@.versions =~= old(self)@.versions.insert(name@, version_field(version.deep_view())));
        v
    }

    /// Registers the package `key` under the name that the `name` and
    /// `package.name` fields of its `arcanum.toml` give (see
    /// [`registered_name`]), recording the version its `version` field gives;
    /// returns that name.
    pub fn register_package_name(&mut self, key: HashKey, name: Option<String>, package_name: Option<String>, version: Option<String>) -> (r: Option<String>)
        requires
            old(self).wf(),
        ensures
            final(self).wf(),
            match registered_name(name.deep_view(), package_name.deep_view()) {
                Some(n) => final(self)@ == (PackageStoreModel {
                    names: old(self)@.names.insert(n, key@),
                    versions: old(self)@.versions.insert(n, version_field(version.deep_view())),
                    ..old(self)@
                }) && (r matches Some(x) && x@ == n),
                None => final(self)@ == old(self)@ && r is None,
            },
    {
        match package_name_from_fields(name, package_name) {
            Some(n) => {
                self.set_name(n.as_str(), key);
                let _ = self.record_version(&n, &version);
                Some(n)
            },
            None => None,
        }
    }

    /// Offers the name a newly found package gives (see
    /// [`register_package_name`]): the package takes the name as
    /// [`takes_name`] says, and the store is otherwise unchanged. Returns the
    /// name when the package took it.
    pub fn offer_package_name(&mut self, key: HashKey, name: Option<String>, package_name: Option<String>, version: Option<String>) -> (r: Option<String>)
        requires
            old(self).wf(),
        ensures
            final(self).wf(),
            match registered_name(name.deep_view(), package_name.deep_view()) {
                Some(n) => if takes_name(old(self)@, n, version_field(version.deep_view())) {
                    &&& final(self)@ == (PackageStoreModel {
                        names: old(self)@.names.insert(n, key@),
                        versions: old(self)@.versions.insert(n, version_field(version.deep_view())),
                        ..old(self)@
                    })
                    &&& r matches Some(x) && x@ == n
                } else {
                    final(self)@ == old(self)@ && r is None
                },
                None => final(self)@ == old(self)@ && r is None,
            },
    {
        let n = match package_name_from_fields(name, package_name) {
            Some(n) => n,
            None => {
                return None;
            },
        };
        let offered = match &version {
            Some(t) => parse_version(t.as_str()),
            None => None,
        };
        let known = self.names.contains(&n);
        let takes = if !known {
            true
        } else {
            match &offered {
                None => false,
                Some(v) => match self.versions.get(&n) {
                    Some(Some(current)) => {
                        proof {
                            assert(current.deep_view() =~= current@);
                        }
                        version_newer(v, current)
                    },
                    _ => true,
                },
            }
        };
        if !takes {
            return None;
        }
        self.set_name(n.as_str(), key);
        let _ = self.record_version(&n, &version);
        Some(n)
    }

    /// Registers `name` to a digest read back from disk; a digest of any
    /// length but 32 bytes is passed over. Returns whether it was registered.
    pub fn restore_name(&mut self, name: &str, digest: &Vec<u8>) -> (r: bool)
        requires
            old(self).wf(),
        ensures
            final(self).wf(),
            r == (digest.len() == 32),
            r ==> final(self)@ == (PackageStoreModel { names: old(self)@.names.insert(name@, digest@), ..old(self)@ }),
            !r ==> final(self)@ == old(self)@,
    {
        if digest.len() != 32 {
            return false;
        }
        let mut key: HashKey = [0u8; 32];
        let mut i: usize = 0;
        while i < 32
            invariant
                i <= 32,
                digest@.len() == 32,
                key@.len() == 32,
                forall|j: int| 0 <= j < i ==> key@[j] == digest@[j],
            decreases 32 - i,
        {
            key[i] = digest[i];
            i = i + 1;
        }
        assert(key@ =~= digest@);
        self.set_name(name, key);
        true
    }

    /// Every registered name with its digest, each name once.
    pub fn saved_names(&self) -> (r: Vec<(String, Vec<u8>)>)
        requires
            self.wf(),
        ensures
            r@.map_values(|e: (String, Vec<u8>)| e.0@).no_duplicates(),
            r@.map_values(|e: (String, Vec<u8>)| e.0@).to_set() == self@.names.dom(),
            forall|i: int| 0 <= i < r@.len() ==> self@.names[#[trigger] r@[i].0@] == r@[i].1@,
    {
        let mut out: Vec<(String, Vec<u8>)> = Vec::new();
        let mut i: usize = 0;
        let n = self.names.len();
        while i < n
            invariant
                self.wf(),
                n == self.names.size(),
                i <= n,
                out@.len() == i,
                forall|j: int| 0 <= j < i ==> #[trigger] out@[j].0@ == self.names.key_at(j),
                forall|j: int| 0 <= j < i ==> self@.names[#[trigger] out@[j].0@] == out@[j].1@,
            decreases n - i,
        {
            proof {
                self.names.lemma_at(i as int);
            }
            let k = self.names.value_at(i);
            proof {
                key_view(*k);
            }
            let mut bytes: Vec<u8> = Vec::new();
            let mut j: usize = 0;
            while j < 32
                invariant
                    j <= 32,
                    k@.len() == 32,
                    bytes@ == k@.take(j as int),
                decreases 32 - j,
            {
                bytes.push(k[j]);
                assert(bytes@ =~= k@.take(j + 1));
                j = j + 1;
            }
            assert(k@.take(32) =~= k@);
            out.push((self.names.key_ref(i).clone(), bytes));
            i = i + 1;
        }
        proof {
            self.names.lemma_keys(out@.map_values(|e: (String, Vec<u8>)| e.0@));
        }
        out
    }

    /// Why `data` would be refused as a new package, or its digest.
    pub fn admission(&self, data: &Vec<u8>) -> (r: Result<HashKey, StoreError>)
        requires
            self.wf(),
        ensures
            match admission_error(self@, data@) {
                Some(e) => r matches Err(x) && x@ == e,
                None => r matches Ok(k) && k@ == sha256_of(data@),
            },
    {
        let key = sha256(data);
        if crate::store::detect_tar(data).is_none() {
            return Err(StoreError::InvalidTarball);
        }
        proof {
            key_view(key);
        }
        if self.packages.contains(&key) {
            return Err(StoreError::AlreadyExists);
        }
        Ok(key)
    }

    /// Caches the entries read from the archive of package `key` (see
    /// [`cache_items`]): each file is kept under its path; an entry that could
    /// not be read is skipped, or, when `strict`, ends the caching and its
    /// error is returned.
    pub fn store_files(&mut self, key: &HashKey, items: &Vec<Result<(String, Vec<u8>), String>>, strict: bool) -> (r: Option<String>)
        requires
            old(self).wf(),
        ensures
            final(self).wf(),
            ({
                let c = cache_items(files_of(old(self)@, key@), items_view(items@), strict);
                &&& final(self)@ == (PackageStoreModel { files: old(self)@.files.insert(key@, c.0), ..old(self)@ })
                &&& opt_str(r) == c.1
            }),
    {
        proof {
            key_view(*key);
        }
        let ghost pre = self@;
        let i = self.files.entry(key, AssocMap::new());
        proof {
            self.files.lemma_at(i as int);
        }
        let mut inner: AssocMap<String, Vec<u8>> = AssocMap::new();
        self.files.swap_at(i, &mut inner);
        assert(inner.model() == files_of(pre, key@));
        let r = cache_into(&mut inner, items, strict);
        self.files.swap_at(i, &mut inner);
        assert forall|k: Seq<u8>| #[trigger] self.files.entries().contains_key(k) implies self.files.entries()[k].wf() by {
            if k != key@ {
                assert(old(self).files.entries().contains_key(k));
            }
        }
        assert(self@.files =~= pre.files.insert(key@, cache_items(files_of(pre, key@), items_view(items@), strict).0));
        r
    }

    /// Adds a package: refused as [`admission_error`] says (the store is then
    /// unchanged); otherwise stored and unpacked as [`added`] says, failing
    /// with the archive's error if unpacking meets one.
    pub fn add_package(&mut self, value: Vec<u8>) -> (r: Result<HashKey, StoreError>)
        requires
            old(self).wf(),
        ensures
            final(self).wf(),
            match admission_error(old(self)@, value@) {
                Some(e) => final(self)@ == old(self)@ && (r matches Err(x) && x@ == e),
                None => {
                    &&& final(self)@ == added(old(self)@, value@).0
                    &&& match added(old(self)@, value@).1 {
                        Some(m) => r matches Err(x) && x@ == StoreErrorModel::Archive(m),
                        None => r matches Ok(k) && k@ == sha256_of(value@),
                    }
                },
            },
    {
        let key = match self.admission(&value) {
            Ok(k) => k,
            Err(e) => {
                return Err(e);
            },
        };
        proof {
            key_view(key);
        }
        let gz = match crate::store::detect_tar(&value) {
            Some(f) => str_eq(f, ".tar.gz"),
            None => false,
        };
        let items = if gz {
            read_tar_gz(&value)
        } else {
            read_tar(&value)
        };
        assert(items_view(items@) == archive_items(value@));
        let data = copy_bytes(&value);
        assert(data.deep_view() =~= value@);
        self.packages.insert(key, data);
        let err = self.store_files(&key, &items, true);
        match err {
            Some(m) => Err(StoreError::Archive(m)),
            None => Ok(key),
        }
    }

    /// Loads a package found on disk (see [`loaded`]); returns its digest if
    /// it was new.
    pub fn load_package(&mut self, value: Vec<u8>) -> (r: Option<HashKey>)
        requires
            old(self).wf(),
        ensures
            final(self).wf(),
            final(self)@ == loaded(old(self)@, value@),
            match r {
                Some(k) => !old(self)@.packages.contains_key(sha256_of(value@)) && k@ == sha256_of(value@),
                None => old(self)@.packages.contains_key(sha256_of(value@)),
            },
    {
        let key = sha256(&value);
        proof {
            key_view(key);
        }
        if self.packages.contains(&key) {
            return None;
        }
        let format = crate::store::detect_tar(&value);
        let data = copy_bytes(&value);
        assert(data.deep_view() =~= value@);
        self.packages.insert(key, data);
        match format {
            Some(f) => {
                let items = if str_eq(f, ".tar.gz") {
                    read_tar_gz(&value)
                } else {
                    read_tar(&value)
                };
                assert(items_view(items@) == archive_items(value@));
                let _ = self.store_files(&key, &items, false);
            },
            None => {},
        }
        Some(key)
    }
}

} // verus!
