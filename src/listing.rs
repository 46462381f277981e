//! Which directory entries are listed, and in what order.
use vstd::prelude::*;
use crate::record::{FileInfo, EntryMeta, records_entry};

verus! {

/// What `str::to_lowercase` makes of a text.
pub uninterp spec fn lower_of(s: Seq<char>) -> Seq<char>;

/// Relies on `str::to_lowercase`: the lowercase form of a text, which depends on
/// its characters alone.
#[verifier::external_body]
fn lowercase(s: &str) -> (r: String)
    ensures
        r@ == lower_of(s@),
{
    s.to_lowercase()
}

pub open spec fn desktop_ini() -> Seq<char> {
    "desktop.ini"@
}

/// Whether an entry named `name` (lowercased: `lowered`) is listed. Directories
/// are left out when only files are asked for; names starting with `.` are
/// hidden except on Windows; on Windows `desktop.ini`, in any case, is hidden.
pub open spec fn listed(
    name: Seq<char>,
    lowered: Seq<char>,
    is_directory: bool,
    files_only: Option<bool>,
    windows: bool,
) -> bool {
    &&& !(files_only == Some(true) && is_directory)
    &&& !(!windows && name.len() > 0 && name[0] == '.')
    &&& !(windows && lowered == desktop_ini())
}

/// `is_listed`, given the lowercase form of the name.
pub fn is_listed_folded(
    name: &str,
    lowered: &str,
    is_directory: bool,
    files_only: Option<bool>,
    windows: bool,
) -> (r: bool)
    ensures
        r == listed(name@, lowered@, is_directory, files_only, windows),
{
    let dirs_hidden = match files_only {
        Some(b) => b,
        None => false,
    };
    if dirs_hidden && is_directory {
        return false;
    }
    if !windows && name.unicode_len() > 0 && name.get_char(0) == '.' {
        return false;
    }
    if windows {
        let marker = "desktop.ini".to_owned();
        let folded = lowered.to_owned();
        if folded == marker {
            return false;
        }
    }
    true
}

/// Whether an entry named `name` is listed (see `listed`).
pub fn is_listed(name: &str, is_directory: bool, files_only: Option<bool>, windows: bool) -> (r:
    bool)
    ensures
        r == listed(name@, lower_of(name@), is_directory, files_only, windows),
{
    let lowered = lowercase(name);
    is_listed_folded(name, lowered.as_str(), is_directory, files_only, windows)
}

/// Strict lexicographic order on texts, character by character (the order of
/// `String`'s `Ord`, since UTF-8 keeps the order of code points).
pub open spec fn text_lt(a: Seq<char>, b: Seq<char>) -> bool
    decreases a.len(),
{
    if a.len() == 0 {
        b.len() > 0
    } else if b.len() == 0 {
        false
    } else if a[0] != b[0] {
        a[0] < b[0]
    } else {
        text_lt(a.drop_first(), b.drop_first())
    }
}

proof fn lemma_text_lt_irreflexive(a: Seq<char>)
    ensures
        !text_lt(a, a),
    decreases a.len(),
{
    if a.len() > 0 {
        lemma_text_lt_irreflexive(a.drop_first());
    }
}

proof fn lemma_text_lt_transitive(a: Seq<char>, b: Seq<char>, c: Seq<char>)
    requires
        text_lt(a, b),
        text_lt(b, c),
    ensures
        text_lt(a, c),
    decreases a.len(),
{
    if a.len() > 0 && b.len() > 0 && c.len() > 0 && a[0] == b[0] && b[0] == c[0] {
        lemma_text_lt_transitive(a.drop_first(), b.drop_first(), c.drop_first());
    }
}

proof fn lemma_text_lt_total(a: Seq<char>, b: Seq<char>)
    requires
        a != b,
    ensures
        text_lt(a, b) || text_lt(b, a),
    decreases a.len(),
{
    if a.len() > 0 && b.len() > 0 && a[0] == b[0] {
        if a.drop_first() == b.drop_first() {
            assert(a =~= seq![a[0]] + a.drop_first());
            assert(b =~= seq![b[0]] + b.drop_first());
        }
        lemma_text_lt_total(a.drop_first(), b.drop_first());
    } else if a.len() > 0 && b.len() > 0 {
    } else if a.len() == 0 && b.len() == 0 {
        assert(a =~= b);
    }
}

/// Listing order on (directory flag, key) pairs: directories before files, then
/// by key.
pub open spec fn key_lt(a_dir: bool, a_key: Seq<char>, b_dir: bool, b_key: Seq<char>) -> bool {
    (a_dir && !b_dir) || (a_dir == b_dir && text_lt(a_key, b_key))
}

proof fn lemma_key_lt_asymmetric(a_dir: bool, a_key: Seq<char>, b_dir: bool, b_key: Seq<char>)
    requires
        key_lt(a_dir, a_key, b_dir, b_key),
    ensures
        !key_lt(b_dir, b_key, a_dir, a_key),
{
    if a_dir == b_dir && text_lt(b_key, a_key) {
        lemma_text_lt_transitive(a_key, b_key, a_key);
        lemma_text_lt_irreflexive(a_key);
    }
}

proof fn lemma_key_not_lt_transitive(
    a_dir: bool,
    a_key: Seq<char>,
    b_dir: bool,
    b_key: Seq<char>,
    c_dir: bool,
    c_key: Seq<char>,
)
    requires
        !key_lt(a_dir, a_key, b_dir, b_key),
        !key_lt(b_dir, b_key, c_dir, c_key),
    ensures
        !key_lt(a_dir, a_key, c_dir, c_key),
{
    if a_dir == b_dir && b_dir == c_dir {
        if a_key != b_key {
            lemma_text_lt_total(a_key, b_key);
        }
        if b_key != c_key {
            lemma_text_lt_total(b_key, c_key);
        }
        if text_lt(b_key, a_key) && text_lt(c_key, b_key) {
            lemma_text_lt_transitive(c_key, b_key, a_key);
        }
        if text_lt(a_key, c_key) {
            if text_lt(c_key, a_key) {
                lemma_text_lt_transitive(a_key, c_key, a_key);
            }
            lemma_text_lt_irreflexive(a_key);
        }
    }
}

/// Whether text `a` comes strictly before text `b` (see `text_lt`).
pub fn text_less(a: &str, b: &str) -> (r: bool)
    ensures
        r == text_lt(a@, b@),
{
    let n = a.unicode_len();
    let m = b.unicode_len();
    let mut i: usize = 0;
    assert(a@.skip(0) =~= a@);
    assert(b@.skip(0) =~= b@);
    while i < n && i < m
        invariant
            n == a@.len(),
            m == b@.len(),
            i <= n,
            i <= m,
            text_lt(a@, b@) == text_lt(a@.skip(i as int), b@.skip(i as int)),
        decreases n - i,
    {
        let x = a.get_char(i);
        let y = b.get_char(i);
        if x != y {
            return x < y;
        }
        assert(a@.skip(i as int).drop_first() =~= a@.skip(i + 1));
        assert(b@.skip(i as int).drop_first() =~= b@.skip(i + 1));
        i = i + 1;
    }
    i == n && i < m
}

/// Whether the pair (`a_dir`, `a_key`) comes strictly before (`b_dir`, `b_key`)
/// (see `key_lt`).
pub fn key_less(a_dir: bool, a_key: &str, b_dir: bool, b_key: &str) -> (r: bool)
    ensures
        r == key_lt(a_dir, a_key@, b_dir, b_key@),
{
    if a_dir != b_dir {
        a_dir
    } else {
        text_less(a_key, b_key)
    }
}

/// `p` lists each index below `n` exactly once.
pub open spec fn is_permutation(p: Seq<int>, n: int) -> bool {
    &&& p.len() == n
    &&& forall|k: int| 0 <= k < n ==> 0 <= #[trigger] p[k] < n
    &&& forall|k: int, l: int| 0 <= k < l < n ==> #[trigger] p[k] != #[trigger] p[l]
}

/// Entry `a` of `files`, keyed by `keys`, ranks strictly before entry `b`.
pub open spec fn rank_lt(files: Seq<FileInfo>, keys: Seq<Seq<char>>, a: int, b: int) -> bool {
    key_lt(files[a].is_directory, keys[a], files[b].is_directory, keys[b])
}

/// `r` is `files` taken in the order `p`: sorted by directory flag (directories
/// first) and then by `keys`, entries of equal rank keeping their order.
pub open spec fn arranged(
    r: Seq<FileInfo>,
    files: Seq<FileInfo>,
    keys: Seq<Seq<char>>,
    p: Seq<int>,
) -> bool {
    &&& is_permutation(p, files.len() as int)
    &&& r.len() == files.len()
    &&& forall|k: int| 0 <= k < r.len() ==> r[k] == files[#[trigger] p[k]]
    &&& forall|k: int, l: int|
        0 <= k < l < r.len() ==> !rank_lt(files, keys, #[trigger] p[l], #[trigger] p[k])
    &&& forall|k: int, l: int|
        0 <= k < l < r.len() && !rank_lt(files, keys, #[trigger] p[k], #[trigger] p[l]) ==> p[k]
            < p[l]
}

/// The views of a list of texts.
pub open spec fn texts(keys: Seq<String>) -> Seq<Seq<char>> {
    keys.map_values(|k: String| k@)
}

/// `files` in listing order under `keys` (`keys[i]` belongs to `files[i]`):
/// directories first, then by key, a stable sort.
#[verifier::loop_isolation(false)]
pub fn order_by_keys(files: Vec<FileInfo>, keys: Vec<String>) -> (r: Vec<FileInfo>)
    requires
        files.len() == keys.len(),
    ensures
        exists|p: Seq<int>| arranged(r@, files@, texts(keys@), p),
{
    let ghost fs = files@;
    let ghost ks = texts(keys@);
    let n = files.len();
    let mut files = files;
    let mut keys = keys;
    let mut out: Vec<FileInfo> = Vec::new();
    let mut out_keys: Vec<String> = Vec::new();
    let ghost mut p: Seq<int> = Seq::empty();
    while files.len() > 0
        invariant
            fs.len() == n,
            ks.len() == n,
            files.len() == keys.len(),
            files.len() <= n,
            files@ == fs.subrange(0, files.len() as int),
            forall|k: int| 0 <= k < keys.len() ==> (#[trigger] keys@[k])@ == ks[k],
            out.len() == out_keys.len(),
            p.len() == out.len(),
            out.len() + files.len() == n,
            forall|k: int| 0 <= k < p.len() ==> files.len() <= #[trigger] p[k] < n,
            forall|k: int, l: int| 0 <= k < l < p.len() ==> #[trigger] p[k] != #[trigger] p[l],
            forall|k: int|
                0 <= k < out.len() ==> out@[k] == fs[#[trigger] p[k]] && out_keys@[k]@ == ks[p[k]],
            forall|k: int, l: int|
                0 <= k < l < p.len() ==> !rank_lt(fs, ks, #[trigger] p[l], #[trigger] p[k]),
            forall|k: int, l: int|
                0 <= k < l < p.len() && !rank_lt(fs, ks, #[trigger] p[k], #[trigger] p[l]) ==> p[k]
                    < p[l],
        decreases files.len(),
    {
        let ghost i = files.len() - 1;
        assert(keys@[i]@ == ks[i]);
        let item = match files.pop() {
            Some(f) => f,
            None => {
                return out;
            },
        };
        let key = match keys.pop() {
            Some(k) => k,
            None => {
                return out;
            },
        };
        assert(item == fs[i]);
        assert(files@ =~= fs.subrange(0, i));
        let mut pos: usize = 0;
        while pos < out.len() && key_less(
            out[pos].is_directory,
            out_keys[pos].as_str(),
            item.is_directory,
            key.as_str(),
        )
            invariant
                pos <= out.len(),
                forall|k: int| 0 <= k < pos ==> rank_lt(fs, ks, #[trigger] p[k], i),
            decreases out.len() - pos,
        {
            pos = pos + 1;
        }
        proof {
            assert forall|k: int| 0 <= k < pos implies !rank_lt(fs, ks, i, #[trigger] p[k]) by {
                lemma_key_lt_asymmetric(
                    fs[p[k]].is_directory,
                    ks[p[k]],
                    fs[i].is_directory,
                    ks[i],
                );
            }
            assert forall|l: int| pos <= l < p.len() implies !rank_lt(fs, ks, #[trigger] p[l], i) by {
                if l > pos {
                    assert(!rank_lt(fs, ks, p[l], p[pos as int]));
                    lemma_key_not_lt_transitive(
                        fs[p[l]].is_directory,
                        ks[p[l]],
                        fs[p[pos as int]].is_directory,
                        ks[p[pos as int]],
                        fs[i].is_directory,
                        ks[i],
                    );
                }
            }
        }
        out.insert(pos, item);
        out_keys.insert(pos, key);
        proof {
            let q = p;
            p = p.insert(pos as int, i);
            assert forall|k: int, l: int| 0 <= k < l < p.len() implies !rank_lt(
                fs,
                ks,
                #[trigger] p[l],
                #[trigger] p[k],
            ) by {
                if k < pos && l > pos {
                    assert(!rank_lt(fs, ks, q[l - 1], q[k]));
                }
                if k > pos {
                    assert(!rank_lt(fs, ks, q[l - 1], q[k - 1]));
                }
                if l < pos {
                    assert(!rank_lt(fs, ks, q[l], q[k]));
                }
            }
            assert forall|k: int, l: int|
                0 <= k < l < p.len() && !rank_lt(
                    fs,
                    ks,
                    #[trigger] p[k],
                    #[trigger] p[l],
                ) implies p[k] < p[l] by {
                if k < pos && l > pos {
                    assert(q[k] < q[l - 1]);
                }
                if k > pos {
                    assert(q[k - 1] < q[l - 1]);
                }
                if l < pos {
                    assert(q[k] < q[l]);
                }
            }
            assert forall|k: int, l: int| 0 <= k < l < p.len() implies #[trigger] p[k]
                != #[trigger] p[l] by {
                if k < pos && l > pos {
                    assert(q[k] != q[l - 1]);
                }
                if k > pos {
                    assert(q[k - 1] != q[l - 1]);
                }
                if l < pos {
                    assert(q[k] != q[l]);
                }
            }
        }
    }
    proof {
        assert(arranged(out@, fs, ks, p));
    }
    out
}

/// The lowercase names of `files`: the keys of the listing order.
pub open spec fn name_keys(files: Seq<FileInfo>) -> Seq<Seq<char>> {
    Seq::new(files.len(), |i: int| lower_of(files[i].name@))
}

/// `r` holds `files` in listing order: directories first, then by lowercase
/// name, entries of equal rank in their order in `files`.
pub open spec fn in_listing_order(r: Seq<FileInfo>, files: Seq<FileInfo>) -> bool {
    exists|p: Seq<int>| arranged(r, files, name_keys(files), p)
}

/// `files` in listing order (see `in_listing_order`).
pub fn sort_listing(files: Vec<FileInfo>) -> (r: Vec<FileInfo>)
    ensures
        in_listing_order(r@, files@),
{
    let mut keys: Vec<String> = Vec::new();
    let mut i: usize = 0;
    while i < files.len()
        invariant
            keys.len() == i,
            i <= files.len(),
            forall|k: int| 0 <= k < i ==> (#[trigger] keys@[k])@ == lower_of(files@[k].name@),
        decreases files.len() - i,
    {
        keys.push(lowercase(files[i].name.as_str()));
        i = i + 1;
    }
    assert(texts(keys@) =~= name_keys(files@));
    order_by_keys(files, keys)
}

/// Entry `e` is listed: it has a file name, which `listed` accepts.
pub open spec fn entry_listed(e: EntryMeta, files_only: Option<bool>, windows: bool) -> bool {
    &&& e.name is Some
    &&& listed(e.name->0@, lower_of(e.name->0@), e.is_directory, files_only, windows)
}

/// The listed entries among `entries`, in their order.
pub open spec fn listed_entries(
    entries: Seq<EntryMeta>,
    files_only: Option<bool>,
    windows: bool,
) -> Seq<EntryMeta> {
    entries.filter(|e: EntryMeta| entry_listed(e, files_only, windows))
}

/// `q` holds one record of each of `entries`, in the same order.
pub open spec fn records_of(q: Seq<FileInfo>, entries: Seq<EntryMeta>) -> bool {
    &&& q.len() == entries.len()
    &&& forall|k: int| 0 <= k < q.len() ==> records_entry(#[trigger] q[k], entries[k])
}

/// The records of the listed entries of a directory, in listing order. The
/// entries are those the directory holds, in the order the file system gave
/// them; `files_only` leaves directories out; `windows` says which platform's
/// hidden-file rules apply.
pub fn list_directory_files(entries: &Vec<EntryMeta>, files_only: Option<bool>, windows: bool) -> (r:
    Vec<FileInfo>)
    ensures
        exists|q: Seq<FileInfo>|
            #[trigger] records_of(q, listed_entries(entries@, files_only, windows))
                && in_listing_order(r@, q),
{
    let mut collected: Vec<FileInfo> = Vec::new();
    let mut i: usize = 0;
    while i < entries.len()
        invariant
            i <= entries.len(),
            collected.len() == listed_entries(entries@.take(i as int), files_only, windows).len(),
            forall|k: int|
                0 <= k < collected.len() ==> records_entry(
                    #[trigger] collected@[k],
                    listed_entries(entries@.take(i as int), files_only, windows)[k],
                ),
        decreases entries.len() - i,
    {
        let entry = &entries[i];
        let ghost before = listed_entries(entries@.take(i as int), files_only, windows);
        assert(entries@.take(i + 1).drop_last() =~= entries@.take(i as int));
        let keep = match &entry.name {
            None => false,
            Some(name) => is_listed(name.as_str(), entry.is_directory, files_only, windows),
        };
        if keep {
            match FileInfo::from_entry(entry) {
                Ok(f) => {
                    collected.push(f);
                },
                Err(_) => {},
            }
        }
        proof {
            reveal(Seq::filter);
        }
        assert(listed_entries(entries@.take(i + 1), files_only, windows) == if keep {
            before.push(*entry)
        } else {
            before
        });
        i = i + 1;
    }
    assert(entries@.take(entries.len() as int) =~= entries@);
    let ghost q = collected@;
    let r = sort_listing(collected);
    assert(records_of(q, listed_entries(entries@, files_only, windows)));
    assert(in_listing_order(r@, q));
    r
}

/// Why a path cannot be used as a directory.
#[derive(Debug, PartialEq, Eq, Structural)]
pub enum DirectoryError {
    /// Nothing exists at the path.
    Missing,
    /// The path names something other than a directory.
    NotDirectory,
}

/// Whether a path that does (`exists`) or does not exist, and is or is not a
/// directory, can be used as a directory.
pub fn check_directory(exists: bool, is_directory: bool) -> (r: Result<(), DirectoryError>)
    ensures
        r == Err::<(), DirectoryError>(DirectoryError::Missing) <==> !exists,
        r == Err::<(), DirectoryError>(DirectoryError::NotDirectory) <==> exists && !is_directory,
        r is Ok <==> exists && is_directory,
{
    if !exists {
        Err(DirectoryError::Missing)
    } else if !is_directory {
        Err(DirectoryError::NotDirectory)
    } else {
        Ok(())
    }
}

} // verus!
