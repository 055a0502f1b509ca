//! The decisions around zip archives: which compression a suffix selects,
//! under which name a walked entry enters an archive, where an archive entry
//! is extracted to, and what packing a folder reports.
use vstd::prelude::*;
use crate::text::{chars_of, push_char};
use crate::scan::texts;

verus! {

/// The compression methods an archive can be written with.
#[derive(Debug, Clone, Copy, PartialEq, Eq)]
pub enum CompressMethod {
    Deflated,
    Bzip2,
    Zstd,
}

/// The method an archive suffix selects: `.bz2` Bzip2, `.zst` Zstandard,
/// `.zip` and every other suffix Deflate.
pub open spec fn compression_spec(suffix: Seq<char>) -> CompressMethod {
    if suffix == seq!['.', 'b', 'z', '2'] {
        CompressMethod::Bzip2
    } else if suffix == seq!['.', 'z', 's', 't'] {
        CompressMethod::Zstd
    } else {
        CompressMethod::Deflated
    }
}

fn chars_equal(a: &Vec<char>, b: &Vec<char>) -> (res: bool)
    ensures
        res == (a@ == b@),
{
    if a.len() != b.len() {
        return false;
    }
    let mut k: usize = 0;
    while k < a.len()
        invariant
            a.len() == b.len(),
            k <= a.len(),
            forall|m: int| 0 <= m < k ==> a@[m] == b@[m],
        decreases a.len() - k,
    {
        if a[k] != b[k] {
            return false;
        }
        k = k + 1;
    }
    assert(a@ =~= b@);
    true
}

/// The compression method selected by the archive suffix `suffix`.
pub fn compression_for(suffix: &str) -> (res: CompressMethod)
    ensures
        res == compression_spec(suffix@),
{
    let s = chars_of(suffix);
    let bz2: Vec<char> = vec!['.', 'b', 'z', '2'];
    let zst: Vec<char> = vec!['.', 'z', 's', 't'];
    if chars_equal(&s, &bz2) {
        CompressMethod::Bzip2
    } else if chars_equal(&s, &zst) {
        CompressMethod::Zstd
    } else {
        CompressMethod::Deflated
    }
}

/// How a walked file-system entry enters an archive.
pub enum ZipEntry {
    /// As a file of this name.
    File(String),
    /// As a directory of this name.
    Directory(String),
    /// Not at all: it is the root of the walk.
    Skip,
}

/// `prefix` is a leading part of `path`, component by component.
pub open spec fn is_component_prefix(prefix: Seq<Seq<char>>, path: Seq<Seq<char>>) -> bool {
    prefix.len() <= path.len() && path.subrange(0, prefix.len() as int) == prefix
}

/// The components `parts` joined by `sep`.
pub open spec fn join_parts(parts: Seq<Seq<char>>, sep: char) -> Seq<char>
    decreases parts.len(),
{
    if parts.len() == 0 {
        Seq::empty()
    } else if parts.len() == 1 {
        parts[0]
    } else {
        join_parts(parts.drop_last(), sep).push(sep) + parts.last()
    }
}

/// Joins the components `parts` with `sep` between them.
pub fn join_components(parts: &Vec<String>, sep: char) -> (res: String)
    ensures
        res@ == join_parts(texts(parts@), sep),
{
    let mut res = String::new();
    let mut k: usize = 0;
    while k < parts.len()
        invariant
            k <= parts.len(),
            res@ == join_parts(texts(parts@.subrange(0, k as int)), sep),
        decreases parts.len() - k,
    {
        proof {
            let t = texts(parts@.subrange(0, k + 1));
            assert(t.drop_last() =~= texts(parts@.subrange(0, k as int)));
            assert(t.last() == parts@[k as int]@);
        }
        if k > 0 {
            push_char(&mut res, sep);
        }
        res.append(parts[k].as_str());
        k = k + 1;
        assert(res@ =~= join_parts(texts(parts@.subrange(0, k as int)), sep));
    }
    assert(parts@.subrange(0, parts.len() as int) =~= parts@);
    res
}

/// The archive entry for a walked path, given the components of the path
/// and of the walk's root, and whether the path is a file. The entry's
/// name is the path relative to the root, its components joined by `sep`.
pub open spec fn zip_entry_matches(res: ZipEntry, path: Seq<Seq<char>>, prefix: Seq<Seq<char>>, is_file: bool, sep: char) -> bool {
    let rest = path.skip(prefix.len() as int);
    match res {
        ZipEntry::File(name) => is_file && name@ == join_parts(rest, sep),
        ZipEntry::Directory(name) => !is_file && rest.len() > 0 && name@ == join_parts(rest, sep),
        ZipEntry::Skip => !is_file && rest.len() == 0,
    }
}

/// How the walked path with components `path` enters the archive of the
/// walk rooted at `prefix`: files under their relative name, other entries
/// as directories, except the root itself.
pub fn zip_entry_for(path: &Vec<String>, prefix: &Vec<String>, is_file: bool, sep: char) -> (res: ZipEntry)
    requires
        is_component_prefix(texts(prefix@), texts(path@)),
    ensures
        zip_entry_matches(res, texts(path@), texts(prefix@), is_file, sep),
{
    let mut rest: Vec<String> = Vec::new();
    let mut k: usize = prefix.len();
    assert(texts(path@).len() == path.len());
    while k < path.len()
        invariant
            prefix.len() <= k <= path.len(),
            rest@.len() == k - prefix.len(),
            forall|m: int| 0 <= m < rest.len() ==> rest@[m] == path@[prefix.len() + m],
        decreases path.len() - k,
    {
        rest.push(path[k].clone());
        k = k + 1;
    }
    assert(texts(rest@) =~= texts(path@).skip(prefix.len() as int));
    if is_file {
        ZipEntry::File(join_components(&rest, sep))
    } else if rest.len() != 0 {
        ZipEntry::Directory(join_components(&rest, sep))
    } else {
        ZipEntry::Skip
    }
}

/// The root a single file is archived relative to: the file's parent, or
/// `/` when it has none.
pub fn archive_prefix_for_file(parent: Option<String>) -> (res: String)
    ensures
        res@ == match parent {
            Some(p) => p@,
            None => seq!['/'],
        },
{
    match parent {
        Some(p) => p,
        None => {
            let mut s = String::new();
            push_char(&mut s, '/');
            s
        },
    }
}

/// `s` without any backslash.
pub open spec fn without_backslashes(s: Seq<char>) -> Seq<char> {
    s.filter(|c: char| c != '\\')
}

/// The relative path an archive entry is extracted to: a directory's name
/// loses its backslashes, a file keeps its name.
pub fn extract_entry_path(name: &str, is_dir: bool) -> (res: String)
    ensures
        res@ == if is_dir {
            without_backslashes(name@)
        } else {
            name@
        },
{
    if !is_dir {
        return String::from_str(name);
    }
    let cs = chars_of(name);
    let mut res = String::new();
    let mut k: usize = 0;
    while k < cs.len()
        invariant
            k <= cs.len(),
            res@ == without_backslashes(cs@.subrange(0, k as int)),
        decreases cs.len() - k,
    {
        proof {
            let t = cs@.subrange(0, k + 1);
            assert(t.drop_last() =~= cs@.subrange(0, k as int));
            reveal_with_fuel(Seq::filter, 1);
        }
        if cs[k] != '\\' {
            push_char(&mut res, cs[k]);
        }
        k = k + 1;
    }
    assert(cs@.subrange(0, cs.len() as int) =~= cs@);
    res
}

/// Whether a filled folder is packed: packing is on and its archive does
/// not exist yet.
pub fn should_compress(is_compress: bool, dst_exists: bool) -> (res: bool)
    ensures
        res == (is_compress && !dst_exists),
{
    is_compress && !dst_exists
}

/// What packing a folder reports, and whether the folder is removed.
pub struct CompressReport {
    pub message: String,
    pub remove_source: bool,
}

/// The report after packing into `dst`: success or failure with the
/// archive's path, and removal of the folder only after a success when the
/// folder is not to be kept.
pub fn compress_outcome(succeeded: bool, src_keep: bool, dst: &str) -> (res: CompressReport)
    ensures
        succeeded ==> res.message@ == "Successful compress zip -> "@ + dst@,
        !succeeded ==> res.message@ == "Error compress zip -> "@ + dst@,
        res.remove_source == (succeeded && !src_keep),
{
    let mut message = if succeeded {
        String::from_str("Successful compress zip -> ")
    } else {
        String::from_str("Error compress zip -> ")
    };
    message.append(dst);
    CompressReport { message, remove_source: succeeded && !src_keep }
}

} // verus!
