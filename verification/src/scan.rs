//! Sorting the entries of the workspace directory into files of the wanted
//! types, sub-directories and everything else.
use vstd::prelude::*;
use crate::text::{chars_of, contains_chars, contains_seq};
use crate::random::{shuffle, is_shuffle_of};

verus! {

/// One entry of a directory listing, as the file system reported it.
#[derive(Debug)]
pub struct EntryInfo {
    /// The full path of the entry, as text.
    pub path: String,
    /// The last component of the path, when it is valid UTF-8.
    pub name: Option<String>,
    /// Whether the entry is a directory.
    pub is_dir: bool,
}

/// An entry whose name carries one of the wanted file types.
#[derive(Debug)]
pub struct FileItem {
    /// The position, in the list of wanted types, of the first type found
    /// in the name.
    pub type_index: usize,
    /// The entry itself.
    pub entry: EntryInfo,
}

/// What a scan of the workspace found.
pub struct ScanResult {
    /// How many entries carry the folder mark in their name.
    pub flag_dir_count: usize,
    /// The entries of the wanted types.
    pub files: Vec<FileItem>,
    /// The directories that are not of a wanted type.
    pub dirs: Vec<EntryInfo>,
}

/// The mark that the names of generated folders carry: `_#_`.
pub open spec fn folder_mark() -> Seq<char> {
    seq!['_', '#', '_']
}

/// The text a type must appear as in a name: a dot, then the type.
pub open spec fn type_pattern(t: Seq<char>) -> Seq<char> {
    seq!['.'] + t
}

/// The name of an entry, or the empty text when it has none.
pub open spec fn entry_name(e: EntryInfo) -> Seq<char> {
    match e.name {
        Some(n) => n@,
        None => Seq::empty(),
    }
}

/// The first position at or after `k` of a type that occurs (after a dot)
/// in `name`.
pub open spec fn first_type_from(name: Seq<char>, types: Seq<Seq<char>>, k: int) -> Option<int>
    decreases types.len() - k,
{
    if k < 0 || k >= types.len() {
        None
    } else if contains_seq(name, type_pattern(types[k])) {
        Some(k)
    } else {
        first_type_from(name, types, k + 1)
    }
}

/// The first wanted type that occurs (after a dot) in `name`.
pub open spec fn first_type(name: Seq<char>, types: Seq<Seq<char>>) -> Option<int> {
    first_type_from(name, types, 0)
}

/// The texts of a list of strings.
pub open spec fn texts(v: Seq<String>) -> Seq<Seq<char>> {
    v.map_values(|s: String| s@)
}

/// The number of entries whose name carries the folder mark.
pub open spec fn marked_count(entries: Seq<EntryInfo>) -> nat
    decreases entries.len(),
{
    if entries.len() == 0 {
        0
    } else {
        marked_count(entries.drop_last()) + if contains_seq(
            entry_name(entries.last()),
            folder_mark(),
        ) {
            1nat
        } else {
            0nat
        }
    }
}

/// The entries of a wanted type, in listing order, each with its type.
pub open spec fn typed_files(entries: Seq<EntryInfo>, types: Seq<Seq<char>>) -> Seq<FileItem>
    decreases entries.len(),
{
    if entries.len() == 0 {
        Seq::empty()
    } else {
        let before = typed_files(entries.drop_last(), types);
        let e = entries.last();
        match first_type(entry_name(e), types) {
            Some(k) => before.push(FileItem { type_index: k as usize, entry: e }),
            None => before,
        }
    }
}

/// The directories of no wanted type, in listing order.
pub open spec fn other_dirs(entries: Seq<EntryInfo>, types: Seq<Seq<char>>) -> Seq<EntryInfo>
    decreases entries.len(),
{
    if entries.len() == 0 {
        Seq::empty()
    } else {
        let before = other_dirs(entries.drop_last(), types);
        let e = entries.last();
        if first_type(entry_name(e), types) is None && e.is_dir {
            before.push(e)
        } else {
            before
        }
    }
}

/// Every entry listed as a file carries its type: the type's position is
/// valid, `.` followed by that type occurs in the entry's name, and no type
/// listed before it does; every entry listed as a directory is a directory
/// in whose name no wanted type occurs.
pub proof fn law_classified_by_first_type(entries: Seq<EntryInfo>, types: Seq<Seq<char>>)
    requires
        types.len() <= usize::MAX,
    ensures
        forall|k: int|
            0 <= k < typed_files(entries, types).len() ==> {
                let f = #[trigger] typed_files(entries, types)[k];
                &&& 0 <= f.type_index < types.len()
                &&& contains_seq(entry_name(f.entry), type_pattern(types[f.type_index as int]))
                &&& forall|t: int|
                    0 <= t < f.type_index ==> !contains_seq(
                        entry_name(f.entry),
                        type_pattern(#[trigger] types[t]),
                    )
            },
        forall|k: int|
            0 <= k < other_dirs(entries, types).len() ==> {
                let d = #[trigger] other_dirs(entries, types)[k];
                &&& d.is_dir
                &&& forall|t: int|
                    0 <= t < types.len() ==> !contains_seq(
                        entry_name(d),
                        type_pattern(#[trigger] types[t]),
                    )
            },
    decreases entries.len(),
{
    if entries.len() > 0 {
        law_classified_by_first_type(entries.drop_last(), types);
        let e = entries.last();
        lemma_first_type_facts(entry_name(e), types, 0);
        let before = typed_files(entries.drop_last(), types);
        let after = typed_files(entries, types);
        assert(forall|k: int| 0 <= k < before.len() ==> after[k] == before[k]);
        let dbefore = other_dirs(entries.drop_last(), types);
        let dafter = other_dirs(entries, types);
        assert(forall|k: int| 0 <= k < dbefore.len() ==> dafter[k] == dbefore[k]);
    }
}

/// At position `i` of `name` stands the character `.`, and right after it
/// the characters of `t`, one by one.
pub open spec fn dot_type_at(name: Seq<char>, t: Seq<char>, i: int) -> bool {
    &&& 0 <= i
    &&& i + 1 + t.len() <= name.len()
    &&& name[i] == '.'
    &&& forall|m: int| 0 <= m < t.len() ==> name[i + 1 + m] == t[m]
}

/// `name` shows the type `t`: somewhere in it a `.` is directly followed by
/// the characters of `t`.
pub open spec fn shows_type(name: Seq<char>, t: Seq<char>) -> bool {
    exists|i: int| dot_type_at(name, t, i)
}

/// Finding the type pattern in a name is seeing a `.` followed by the type.
pub proof fn lemma_pattern_is_dot_type(name: Seq<char>, t: Seq<char>)
    ensures
        contains_seq(name, type_pattern(t)) <==> shows_type(name, t),
{
    let p = type_pattern(t);
    if contains_seq(name, p) {
        let i = choose|i: int| crate::text::occurs_at(name, p, i);
        assert(name.subrange(i, i + p.len()) == p);
        assert(name[i] == name.subrange(i, i + p.len())[0]);
        assert forall|m: int| 0 <= m < t.len() implies name[i + 1 + m] == t[m] by {
            assert(name[i + 1 + m] == name.subrange(i, i + p.len())[1 + m]);
            assert(p[1 + m] == t[m]);
        }
        assert(dot_type_at(name, t, i));
    }
    if shows_type(name, t) {
        let i = choose|i: int| dot_type_at(name, t, i);
        assert(name.subrange(i, i + p.len()) =~= p);
        assert(crate::text::occurs_at(name, p, i));
    }
}

/// Every entry listed as a file shows its type in its name, read character
/// by character: a `.` directly followed by the type at its position, and
/// no type listed before it shows that way; no entry listed as a directory
/// shows any wanted type.
pub proof fn law_files_show_dot_type(entries: Seq<EntryInfo>, types: Seq<Seq<char>>)
    requires
        types.len() <= usize::MAX,
    ensures
        forall|k: int|
            0 <= k < typed_files(entries, types).len() ==> {
                let f = #[trigger] typed_files(entries, types)[k];
                &&& 0 <= f.type_index < types.len()
                &&& shows_type(entry_name(f.entry), types[f.type_index as int])
                &&& forall|t: int|
                    0 <= t < f.type_index ==> !shows_type(entry_name(f.entry), #[trigger] types[t])
            },
        forall|k: int|
            0 <= k < other_dirs(entries, types).len() ==> {
                let d = #[trigger] other_dirs(entries, types)[k];
                &&& d.is_dir
                &&& forall|t: int| 0 <= t < types.len() ==> !shows_type(entry_name(d), #[trigger] types[t])
            },
{
    law_classified_by_first_type(entries, types);
    assert forall|name: Seq<char>, t: Seq<char>|
        contains_seq(name, type_pattern(t)) <==> #[trigger] shows_type(name, t) by {
        lemma_pattern_is_dot_type(name, t);
    }
}

pub(crate) proof fn lemma_first_type_facts(name: Seq<char>, types: Seq<Seq<char>>, k: int)
    requires
        0 <= k,
    ensures
        match first_type_from(name, types, k) {
            Some(j) => k <= j < types.len() && contains_seq(name, type_pattern(types[j]))
                && forall|t: int| k <= t < j ==> !contains_seq(name, type_pattern(#[trigger] types[t])),
            None => forall|t: int| k <= t < types.len() ==> !contains_seq(name, type_pattern(#[trigger] types[t])),
        },
    decreases types.len() - k,
{
    if k < types.len() {
        lemma_first_type_facts(name, types, k + 1);
    }
}

/// A copy of an entry.
pub fn copy_entry(e: &EntryInfo) -> (res: EntryInfo)
    ensures
        res == *e,
{
    EntryInfo {
        path: e.path.clone(),
        name: match &e.name {
            Some(n) => Some(n.clone()),
            None => None,
        },
        is_dir: e.is_dir,
    }
}

/// The characters of the name of `e`, or none when it has no name.
fn name_chars(e: &EntryInfo) -> (res: Vec<char>)
    ensures
        res@ == entry_name(*e),
{
    match &e.name {
        Some(n) => chars_of(n.as_str()),
        None => Vec::new(),
    }
}

/// The patterns `.type` for each wanted type, as characters.
fn type_patterns(file_type: &Vec<String>) -> (res: Vec<Vec<char>>)
    ensures
        res.len() == file_type.len(),
        forall|k: int| 0 <= k < res.len() ==> res[k]@ == type_pattern(file_type[k]@),
{
    let mut res: Vec<Vec<char>> = Vec::new();
    let mut k: usize = 0;
    while k < file_type.len()
        invariant
            k <= file_type.len(),
            res.len() == k,
            forall|m: int| 0 <= m < k ==> res[m]@ == type_pattern(file_type[m]@),
        decreases file_type.len() - k,
    {
        let mut p: Vec<char> = Vec::new();
        p.push('.');
        let mut t = chars_of(file_type[k].as_str());
        p.append(&mut t);
        assert(p@ =~= type_pattern(file_type[k as int]@));
        res.push(p);
        k = k + 1;
    }
    res
}

/// The position of the first wanted type that occurs, after a dot, in the
/// name `name`; `patterns` are the dotted types.
pub(crate) fn find_type(name: &Vec<char>, patterns: &Vec<Vec<char>>, Ghost(types): Ghost<Seq<Seq<char>>>) -> (res: Option<usize>)
    requires
        patterns.len() == types.len(),
        forall|k: int| 0 <= k < patterns.len() ==> patterns[k]@ == type_pattern(types[k]),
    ensures
        match first_type(name@, types) {
            Some(k) => res == Some(k as usize),
            None => res is None,
        },
{
    let mut k: usize = patterns.len();
    let mut found: Option<usize> = None;
    assert(first_type_from(name@, types, k as int) is None);
    while k > 0
        invariant
            k <= patterns.len(),
            patterns.len() == types.len(),
            forall|m: int| 0 <= m < patterns.len() ==> patterns[m]@ == type_pattern(types[m]),
            match first_type_from(name@, types, k as int) {
                Some(j) => found == Some(j as usize),
                None => found is None,
            },
        decreases k,
    {
        k = k - 1;
        if contains_chars(name, &patterns[k]) {
            found = Some(k);
        }
    }
    found
}

/// Sorts a directory listing: counts the entries whose name carries the
/// folder mark `_#_`, gives each entry whose name holds `.` followed by a
/// wanted type the position of the first such type, and keeps the other
/// entries that are directories.
pub fn classify_entries(entries: &Vec<EntryInfo>, file_type: &Vec<String>) -> (res: ScanResult)
    ensures
        res.flag_dir_count == marked_count(entries@),
        res.files@ == typed_files(entries@, texts(file_type@)),
        res.dirs@ == other_dirs(entries@, texts(file_type@)),
        forall|k: int| 0 <= k < res.files.len() ==> res.files[k].type_index < file_type.len(),
{
    let ghost types = texts(file_type@);
    let patterns = type_patterns(file_type);
    let mark: Vec<char> = vec!['_', '#', '_'];
    assert(mark@ =~= folder_mark());
    let mut count: usize = 0;
    let mut files: Vec<FileItem> = Vec::new();
    let mut dirs: Vec<EntryInfo> = Vec::new();
    let mut i: usize = 0;
    while i < entries.len()
        invariant
            i <= entries.len(),
            patterns.len() == types.len(),
            types.len() == file_type.len(),
            types == texts(file_type@),
            mark@ == folder_mark(),
            forall|m: int| 0 <= m < patterns.len() ==> patterns[m]@ == type_pattern(types[m]),
            count == marked_count(entries@.subrange(0, i as int)),
            count <= i,
            files@ == typed_files(entries@.subrange(0, i as int), types),
            dirs@ == other_dirs(entries@.subrange(0, i as int), types),
            forall|k: int| 0 <= k < files.len() ==> files[k].type_index < file_type.len(),
        decreases entries.len() - i,
    {
        let ghost prefix = entries@.subrange(0, i + 1);
        assert(prefix.drop_last() =~= entries@.subrange(0, i as int));
        assert(prefix.last() == entries@[i as int]);
        let name = name_chars(&entries[i]);
        if contains_chars(&name, &mark) {
            count = count + 1;
        }
        proof {
            lemma_first_type_facts(name@, types, 0);
        }
        match find_type(&name, &patterns, Ghost(types)) {
            Some(k) => {
                files.push(FileItem { type_index: k, entry: copy_entry(&entries[i]) });
            },
            None => {
                if entries[i].is_dir {
                    dirs.push(copy_entry(&entries[i]));
                }
            },
        }
        i = i + 1;
    }
    assert(entries@.subrange(0, entries.len() as int) =~= entries@);
    ScanResult { flag_dir_count: count, files, dirs }
}

/// Scans a directory listing as `classify_entries` does and, when
/// `is_random` holds, shuffles the files and the directories found.
pub fn get_dir_file(entries: &Vec<EntryInfo>, file_type: &Vec<String>, is_random: bool) -> (res: ScanResult)
    ensures
        res.flag_dir_count == marked_count(entries@),
        forall|k: int| 0 <= k < res.files.len() ==> res.files[k].type_index < file_type.len(),
        !is_random ==> res.files@ == typed_files(entries@, texts(file_type@)),
        !is_random ==> res.dirs@ == other_dirs(entries@, texts(file_type@)),
        is_random ==> is_shuffle_of(res.files@, typed_files(entries@, texts(file_type@))),
        is_random ==> is_shuffle_of(res.dirs@, other_dirs(entries@, texts(file_type@))),
        res.files@.to_multiset() == typed_files(entries@, texts(file_type@)).to_multiset(),
        res.dirs@.to_multiset() == other_dirs(entries@, texts(file_type@)).to_multiset(),
{
    let mut res = classify_entries(entries, file_type);
    if is_random {
        let ghost before = res.files@;
        shuffle(&mut res.files);
        assert forall|k: int| 0 <= k < res.files.len() implies #[trigger] res.files[k].type_index
            < file_type.len() by {
            let x = res.files[k];
            assert(res.files@.contains(x));
            assert(res.files@.to_multiset().count(x) > 0) by {
                broadcast use vstd::seq_lib::group_to_multiset_ensures;
            }
            assert(before.to_multiset().count(x) > 0);
            assert(before.contains(x)) by {
                broadcast use vstd::seq_lib::group_to_multiset_ensures;
            }
        }
        shuffle(&mut res.dirs);
    }
    res
}

} // verus!
