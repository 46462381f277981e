//! Metadata records describing one file-system entry.
use vstd::prelude::*;

verus! {

/// A snapshot of one file-system entry, as shown in the file list.
pub struct FileInfo {
    pub id: String,
    pub name: String,
    pub path: String,
    pub original_name: String,
    pub new_name: Option<String>,
    pub is_directory: bool,
    pub size: u64,
    pub last_modified: u64,
    pub file_type: String,
}

/// What the file system reported for one entry: its path, the last component
/// of that path (absent when the path has none), and its metadata.
pub struct EntryMeta {
    pub path: String,
    pub name: Option<String>,
    pub is_directory: bool,
    pub size: u64,
    pub last_modified: u64,
}

/// Why no record could be made for an entry.
#[derive(Debug, PartialEq, Eq, Structural)]
pub enum InfoError {
    /// The path ends in no file name (a root, or `..`).
    NoFileName,
}

pub open spec fn is_lower_hex_digit(c: char) -> bool {
    ('0' <= c && c <= '9') || ('a' <= c && c <= 'f')
}

/// The hyphenated lowercase text of a version-4 UUID: 8-4-4-4-12 hex digits,
/// version digit `4`, variant digit one of `8`, `9`, `a`, `b`.
pub open spec fn is_uuid_v4_text(s: Seq<char>) -> bool {
    &&& s.len() == 36
    &&& forall|i: int|
        0 <= i < 36 ==> if i == 8 || i == 13 || i == 18 || i == 23 {
            s[i] == '-'
        } else {
            is_lower_hex_digit(#[trigger] s[i])
        }
    &&& s[14] == '4'
    &&& (s[19] == '8' || s[19] == '9' || s[19] == 'a' || s[19] == 'b')
}

/// Relies on `uuid::Uuid::new_v4` and the `Display` impl of `uuid::Uuid`: a fresh
/// random version-4 identifier, written in its hyphenated lowercase form.
/// (`new_v4` panics only when the operating system has no randomness to give.)
#[verifier::external_body]
fn new_id() -> (r: String)
    ensures
        is_uuid_v4_text(r@),
{
    uuid::Uuid::new_v4().to_string()
}

/// Index of the last `.` in `s`, if any.
pub open spec fn last_dot(s: Seq<char>) -> Option<int>
    decreases s.len(),
{
    if s.len() == 0 {
        None
    } else if s.last() == '.' {
        Some(s.len() - 1)
    } else {
        last_dot(s.drop_last())
    }
}

/// The extension of a file name, as `Path::extension` defines it: the text after
/// the final `.`, empty when the name has no `.` past its first character, and
/// empty for `..`.
pub open spec fn extension_of(name: Seq<char>) -> Seq<char> {
    if name == seq!['.', '.'] {
        Seq::empty()
    } else {
        match last_dot(name) {
            Some(i) => if i > 0 {
                name.subrange(i + 1, name.len() as int)
            } else {
                Seq::empty()
            },
            None => Seq::empty(),
        }
    }
}

proof fn lemma_last_dot_found(s: Seq<char>, i: int)
    requires
        0 <= i < s.len(),
        s[i] == '.',
        forall|k: int| i < k < s.len() ==> s[k] != '.',
    ensures
        last_dot(s) == Some(i),
    decreases s.len(),
{
    if i < s.len() - 1 {
        lemma_last_dot_found(s.drop_last(), i);
    }
}

proof fn lemma_last_dot_none(s: Seq<char>)
    requires
        forall|k: int| 0 <= k < s.len() ==> s[k] != '.',
    ensures
        last_dot(s) is None,
    decreases s.len(),
{
    if s.len() > 0 {
        lemma_last_dot_none(s.drop_last());
    }
}

/// The extension of the file name `name` (see `extension_of`).
pub fn extension(name: &str) -> (r: String)
    ensures
        r@ == extension_of(name@),
{
    let n = name.unicode_len();
    if n == 2 && name.get_char(0) == '.' && name.get_char(1) == '.' {
        assert(name@ =~= seq!['.', '.']);
        return String::new();
    }
    let mut i: usize = n;
    while i > 0
        invariant
            i <= n == name@.len(),
            forall|k: int| i <= k < n ==> name@[k] != '.',
        decreases i,
    {
        if name.get_char(i - 1) == '.' {
            proof {
                lemma_last_dot_found(name@, i - 1);
            }
            if i - 1 > 0 {
                return name.substring_char(i, n).to_owned();
            } else {
                return String::new();
            }
        }
        i = i - 1;
    }
    proof {
        lemma_last_dot_none(name@);
    }
    String::new()
}

/// `f` is the record of entry `e` (whose name is present), under a well-formed
/// identifier, with no new name chosen yet.
pub open spec fn records_entry(f: FileInfo, e: EntryMeta) -> bool {
    &&& e.name is Some
    &&& f.name@ == e.name->0@
    &&& f.original_name@ == f.name@
    &&& f.path@ == e.path@
    &&& f.new_name is None
    &&& f.is_directory == e.is_directory
    &&& f.size == e.size
    &&& f.last_modified == e.last_modified
    &&& f.file_type@ == extension_of(f.name@)
    &&& is_uuid_v4_text(f.id@)
}

impl FileInfo {
    /// A record under identifier `id`: its original name is `name`, no new name
    /// is chosen, and its type is the extension of `name`.
    pub fn new(
        id: String,
        name: String,
        path: String,
        is_directory: bool,
        size: u64,
        last_modified: u64,
    ) -> (r: FileInfo)
        ensures
            r.id@ == id@,
            r.name@ == name@,
            r.original_name@ == name@,
            r.path@ == path@,
            r.new_name is None,
            r.is_directory == is_directory,
            r.size == size,
            r.last_modified == last_modified,
            r.file_type@ == extension_of(name@),
    {
        let file_type = extension(name.as_str());
        let original_name = name.clone();
        FileInfo {
            id,
            name,
            path,
            original_name,
            new_name: None,
            is_directory,
            size,
            last_modified,
            file_type,
        }
    }

    /// The record of `entry` under a fresh random identifier; an error when the
    /// entry's path has no file name.
    pub fn from_entry(entry: &EntryMeta) -> (r: Result<FileInfo, InfoError>)
        ensures
            entry.name is None <==> r is Err,
            r matches Ok(f) ==> records_entry(f, *entry),
    {
        match &entry.name {
            None => Err(InfoError::NoFileName),
            Some(name) => {
                let id = new_id();
                Ok(FileInfo::new(
                    id,
                    name.clone(),
                    entry.path.clone(),
                    entry.is_directory,
                    entry.size,
                    entry.last_modified,
                ))
            },
        }
    }
}

} // verus!
