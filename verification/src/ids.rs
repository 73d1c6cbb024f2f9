//! Strongly typed, deterministic identifiers built with a 64-bit FNV-1a hash.

use vstd::prelude::*;
use vstd::string::*;
use vstd::utf8::encode_utf8;

use crate::path::RelativePath;
use crate::text::push_char;

verus! {

/// FNV-1a 64-bit offset basis, the seed of every stable hash.
pub const FNV_OFFSET_BASIS: u64 = 0xcbf29ce484222325;

/// FNV-1a 64-bit prime, applied after each mixed-in byte.
pub const FNV_PRIME: u64 = 0x100000001b3;

/// Byte that separates consecutive parts of a stable hash input.
pub const PART_SEPARATOR: u8 = 0x1f;

/// FNV-1a over `bytes`, starting from `hash`.
pub open spec fn fnv_bytes(hash: u64, bytes: Seq<u8>) -> u64
    decreases bytes.len(),
{
    if bytes.len() == 0 {
        hash
    } else {
        fnv_bytes(
            vstd::wrapping::u64_specs::wrapping_mul(hash ^ (bytes[0] as u64), FNV_PRIME),
            bytes.drop_first(),
        )
    }
}

/// The stable hash of the parts taken before `n`: FNV-1a over the parts in order,
/// with the separator byte mixed in between consecutive parts.
pub open spec fn hash_prefix(parts: Seq<Seq<u8>>, n: int) -> u64
    decreases n,
{
    if n <= 0 {
        FNV_OFFSET_BASIS
    } else if n == 1 {
        fnv_bytes(FNV_OFFSET_BASIS, parts[0])
    } else {
        fnv_bytes(fnv_bytes(hash_prefix(parts, n - 1), seq![PART_SEPARATOR]), parts[n - 1])
    }
}

/// The stable hash of a list of byte strings.
pub open spec fn stable_hash_spec(parts: Seq<Seq<u8>>) -> u64 {
    hash_prefix(parts, parts.len() as int)
}

/// The UTF-8 bytes of each text part.
pub open spec fn utf8_parts(parts: Seq<Seq<char>>) -> Seq<Seq<u8>> {
    parts.map_values(|p: Seq<char>| encode_utf8(p))
}

/// Lower-case hex digit for a value below sixteen.
pub open spec fn hex_char(d: u64) -> char {
    match d {
        0 => '0',
        1 => '1',
        2 => '2',
        3 => '3',
        4 => '4',
        5 => '5',
        6 => '6',
        7 => '7',
        8 => '8',
        9 => '9',
        10 => 'a',
        11 => 'b',
        12 => 'c',
        13 => 'd',
        14 => 'e',
        15 => 'f',
        _ => 'f',
    }
}

/// The low `n` hex digits of `v`, most significant first.
pub open spec fn hex_digits(v: u64, n: nat) -> Seq<char>
    decreases n,
{
    if n == 0 {
        Seq::<char>::empty()
    } else {
        hex_digits(v / 16, (n - 1) as nat).push(hex_char(v % 16))
    }
}

/// `label:` followed by the sixteen-digit hex rendering of `v` (the `{:016x}` format).
pub open spec fn id_text(label: Seq<char>, v: u64) -> Seq<char> {
    label + seq![':'] + hex_digits(v, 16)
}

fn hex_char_exec(d: u64) -> (c: char)
    requires
        d < 16,
    ensures
        c == hex_char(d),
{
    match d {
        0 => '0',
        1 => '1',
        2 => '2',
        3 => '3',
        4 => '4',
        5 => '5',
        6 => '6',
        7 => '7',
        8 => '8',
        9 => '9',
        10 => 'a',
        11 => 'b',
        12 => 'c',
        13 => 'd',
        14 => 'e',
        15 => 'f',
        _ => 'f',
    }
}

fn push_hex_digits(s: &mut String, v: u64, n: usize)
    ensures
        final(s)@ == old(s)@ + hex_digits(v, n as nat),
    decreases n,
{
    if n > 0 {
        push_hex_digits(s, v / 16, n - 1);
        push_char(s, hex_char_exec(v % 16));
        assert(final(s)@ =~= old(s)@ + hex_digits(v, n as nat));
    } else {
        assert(final(s)@ =~= old(s)@ + hex_digits(v, n as nat));
    }
}

/// Renders `label:` and the sixteen-digit lower-case hex form of `v`.
pub fn id_string(label: &str, v: u64) -> (s: String)
    ensures
        s@ == id_text(label@, v),
{
    let mut s = label.to_owned();
    push_char(&mut s, ':');
    push_hex_digits(&mut s, v, 16);
    assert(s@ =~= id_text(label@, v));
    s
}

/// FNV-1a over `bytes`, starting from `hash`.
pub fn update_fnv(hash: u64, bytes: &[u8]) -> (h: u64)
    ensures
        h == fnv_bytes(hash, bytes@),
{
    let mut h = hash;
    let mut i: usize = 0;
    assert(bytes@.skip(0) =~= bytes@);
    while i < bytes.len()
        invariant
            i <= bytes@.len(),
            fnv_bytes(h, bytes@.skip(i as int)) == fnv_bytes(hash, bytes@),
        decreases bytes@.len() - i,
    {
        assert(bytes@.skip(i as int).drop_first() =~= bytes@.skip(i + 1));
        h = (h ^ (bytes[i] as u64)).wrapping_mul(FNV_PRIME);
        i += 1;
    }
    assert(bytes@.skip(i as int) =~= Seq::<u8>::empty());
    h
}

/// Stable hash of text parts: FNV-1a over their UTF-8 bytes, separated by `0x1f`.
pub fn stable_hash(parts: &[&str]) -> (h: u64)
    ensures
        h == stable_hash_spec(utf8_parts(parts@.map_values(|p: &str| p@))),
{
    let ghost texts = parts@.map_values(|p: &str| p@);
    let ghost bytes = utf8_parts(texts);
    let mut hash = FNV_OFFSET_BASIS;
    let mut i: usize = 0;
    while i < parts.len()
        invariant
            i <= parts@.len(),
            texts == parts@.map_values(|p: &str| p@),
            bytes == utf8_parts(texts),
            hash == hash_prefix(bytes, i as int),
        decreases parts@.len() - i,
    {
        let ghost before = hash;
        if i > 0 {
            let sep = [PART_SEPARATOR];
            assert(sep@ =~= seq![PART_SEPARATOR]);
            hash = update_fnv(hash, &sep);
        }
        assert(bytes[i as int] == encode_utf8(parts@[i as int]@));
        hash = update_fnv(hash, parts[i].as_bytes());
        i += 1;
    }
    hash
}

/// Identifier of a repository, hashed from its stable key.
#[derive(Clone, Copy, Debug, PartialEq, Eq, PartialOrd, Ord, Hash)]
pub struct RepositoryId(u64);

impl View for RepositoryId {
    type V = u64;

    closed spec fn view(&self) -> u64 {
        self.0
    }
}

impl RepositoryId {
    /// Returns the raw hashed value.
    pub fn as_u64(self) -> (v: u64)
        ensures
            v == self@,
    {
        self.0
    }

    /// Returns the text `repo:` followed by the value as sixteen lower-case hex digits.
    pub fn to_string(self) -> (s: String)
        ensures
            s@ == id_text("repo"@, self@),
    {
        id_string("repo", self.0)
    }
}

/// Identifier of a directory, hashed from its repository and relative path.
#[derive(Clone, Copy, Debug, PartialEq, Eq, PartialOrd, Ord, Hash)]
pub struct DirectoryId(u64);

impl View for DirectoryId {
    type V = u64;

    closed spec fn view(&self) -> u64 {
        self.0
    }
}

impl DirectoryId {
    /// Returns the raw hashed value.
    pub fn as_u64(self) -> (v: u64)
        ensures
            v == self@,
    {
        self.0
    }

    /// Returns the text `dir:` followed by the value as sixteen lower-case hex digits.
    pub fn to_string(self) -> (s: String)
        ensures
            s@ == id_text("dir"@, self@),
    {
        id_string("dir", self.0)
    }
}

/// Identifier of a file, hashed from its repository and relative path.
#[derive(Clone, Copy, Debug, PartialEq, Eq, PartialOrd, Ord, Hash)]
pub struct FileId(u64);

impl View for FileId {
    type V = u64;

    closed spec fn view(&self) -> u64 {
        self.0
    }
}

impl FileId {
    /// Returns the raw hashed value.
    pub fn as_u64(self) -> (v: u64)
        ensures
            v == self@,
    {
        self.0
    }

    /// Returns the text `file:` followed by the value as sixteen lower-case hex digits.
    pub fn to_string(self) -> (s: String)
        ensures
            s@ == id_text("file"@, self@),
    {
        id_string("file", self.0)
    }
}

/// Identifier of a symbol, hashed from its defining file and stable key.
#[derive(Clone, Copy, Debug, PartialEq, Eq, PartialOrd, Ord, Hash)]
pub struct SymbolId(u64);

impl View for SymbolId {
    type V = u64;

    closed spec fn view(&self) -> u64 {
        self.0
    }
}

impl SymbolId {
    /// Returns the raw hashed value.
    pub fn as_u64(self) -> (v: u64)
        ensures
            v == self@,
    {
        self.0
    }

    /// Returns the text `symbol:` followed by the value as sixteen lower-case hex digits.
    pub fn to_string(self) -> (s: String)
        ensures
            s@ == id_text("symbol"@, self@),
    {
        id_string("symbol", self.0)
    }
}

/// Stable hash value of a repository with the given stable key.
pub open spec fn repository_hash(stable_key: Seq<char>) -> u64 {
    stable_hash_spec(utf8_parts(seq!["repository"@, stable_key]))
}

/// Stable hash value of a path entry of kind `kind` (`directory` or `file`).
pub open spec fn path_entry_hash(kind: Seq<char>, repository: u64, path: Seq<char>) -> u64 {
    stable_hash_spec(utf8_parts(seq![kind, id_text("repo"@, repository), path]))
}

/// Stable hash value of a symbol defined in the given file with the given key.
pub open spec fn symbol_hash(file: u64, stable_key: Seq<char>) -> u64 {
    stable_hash_spec(utf8_parts(seq!["symbol"@, id_text("file"@, file), stable_key]))
}

impl RepositoryId {
    /// Builds a deterministic repository identifier from a stable key.
    pub fn new(stable_key: &str) -> (id: Self)
        ensures
            id@ == repository_hash(stable_key@),
    {
        let parts = ["repository", stable_key];
        assert(parts@.map_values(|p: &str| p@) =~= seq!["repository"@, stable_key@]);
        RepositoryId(stable_hash(&parts))
    }
}

impl DirectoryId {
    /// Builds a deterministic directory identifier from the repository and relative path.
    pub fn new(repository_id: RepositoryId, relative_path: &RelativePath) -> (id: Self)
        ensures
            id@ == path_entry_hash("directory"@, repository_id@, relative_path@),
    {
        let component = repository_id.to_string();
        let parts = ["directory", component.as_str(), relative_path.as_str()];
        assert(parts@.map_values(|p: &str| p@) =~= seq![
            "directory"@,
            id_text("repo"@, repository_id@),
            relative_path@,
        ]);
        DirectoryId(stable_hash(&parts))
    }
}

impl FileId {
    /// Builds a deterministic file identifier from the repository and relative path.
    pub fn new(repository_id: RepositoryId, relative_path: &RelativePath) -> (id: Self)
        ensures
            id@ == path_entry_hash("file"@, repository_id@, relative_path@),
    {
        let component = repository_id.to_string();
        let parts = ["file", component.as_str(), relative_path.as_str()];
        assert(parts@.map_values(|p: &str| p@) =~= seq![
            "file"@,
            id_text("repo"@, repository_id@),
            relative_path@,
        ]);
        FileId(stable_hash(&parts))
    }
}

impl SymbolId {
    /// Builds a deterministic symbol identifier from its defining file and stable key.
    pub fn new(file_id: FileId, stable_key: &str) -> (id: Self)
        ensures
            id@ == symbol_hash(file_id@, stable_key@),
    {
        let component = file_id.to_string();
        let parts = ["symbol", component.as_str(), stable_key];
        assert(parts@.map_values(|p: &str| p@) =~= seq![
            "symbol"@,
            id_text("file"@, file_id@),
            stable_key@,
        ]);
        SymbolId(stable_hash(&parts))
    }
}

} // verus!
