//! The run's data and the planning of numbered folders: which files go into
//! which folder, under which names, and where each folder's archive goes.
use vstd::prelude::*;
use crate::text::{push_char, push_decimal, decimal};
use crate::scan::{
    EntryInfo, FileItem, ScanResult, get_dir_file, folder_mark, marked_count, typed_files,
    other_dirs, texts,
};
use crate::random::{is_shuffle_of, random_id, is_id_symbol, id_from_values, is_random_id};
use crate::settings::Settings;

verus! {

#[verifier::external_type_specification]
#[verifier::external_body]
pub struct ExJsonError(serde_json::Error);

/// What `serde_json` makes of `text` when asked for an array of strings:
/// the texts of the strings, or `None` when `text` is not such an array.
pub uninterp spec fn json_string_array(text: Seq<char>) -> Option<Seq<Seq<char>>>;

/// `serde_json::from_str::<Vec<String>>`. Which texts JSON's grammar accepts
/// and which strings they hold is not written out: the contract ties both to
/// `json_string_array` applied to the text.
#[verifier::external_body]
fn parse_string_array(text: &str) -> (res: Result<Vec<String>, serde_json::Error>)
    ensures
        res is Ok <==> json_string_array(text@) is Some,
        res matches Ok(v) ==> texts(v@) == json_string_array(text@)->0,
{
    serde_json::from_str::<Vec<String>>(text)
}

/// `std::path::MAIN_SEPARATOR`: `/` on Unix-like systems, `\` on Windows.
#[verifier::external_body]
fn path_separator() -> (c: char)
    ensures
        c == '/' || c == '\\',
{
    std::path::MAIN_SEPARATOR
}

/// Whether chrono succeeds in writing a date and time (with its offset) in
/// the `strftime` pattern `pattern`. It fails on an item it cannot parse and
/// on a parsed item it cannot format (such as `%#z`); with date, time and
/// offset all present, only the pattern decides.
pub uninterp spec fn strftime_accepts(pattern: Seq<char>) -> bool;

/// What chrono writes for the instant `timestamp` seconds and `nanos`
/// nanoseconds after 1970-01-01 00:00:00 UTC, seen at the offset `offset`
/// seconds east of UTC, in the `strftime` pattern `pattern`; `None` when
/// writing fails.
pub uninterp spec fn strftime_text(pattern: Seq<char>, timestamp: i64, nanos: u32, offset: i32) -> Option<Seq<char>>;

/// An instant as chrono's clock gives it: from 1970 on (chrono panics on a
/// clock set earlier) up to the last second of chrono's last year, with a
/// nanosecond part below one second and an offset of less than a day.
pub open spec fn clock_instant(timestamp: i64, nanos: u32, offset: i32) -> bool {
    &&& 0 <= timestamp <= 8_210_266_876_799
    &&& nanos < 1_000_000_000
    &&& -86_400 < offset < 86_400
}

/// `chrono::Local::now()`, taken apart into its timestamp, the nanoseconds
/// past that second and the local offset in seconds. Which instant comes
/// back depends on the clock and the time zone; every one is a
/// `clock_instant`: `Utc::now` panics before 1970 and unwraps
/// `DateTime::from_timestamp` (so the instant lies in chrono's range), the
/// nanoseconds come from `Duration::subsec_nanos`, and a `FixedOffset` is
/// less than a day.
#[verifier::external_body]
fn local_now() -> (res: (i64, u32, i32))
    ensures
        clock_instant(res.0, res.1, res.2),
{
    let now = chrono::Local::now();
    (now.timestamp(), now.timestamp_subsec_nanos(), now.offset().local_minus_utc())
}

/// The instant `(timestamp, nanos, offset)` as a
/// `DateTime<FixedOffset>` (`DateTime::from_timestamp`, `with_timezone`),
/// written in `pattern` with `format(..).write_to`; `None` when writing
/// fails. The text is named `strftime_text`. Writing succeeds exactly when
/// `strftime_accepts` holds, and a pattern without `%` holds literal text
/// only, which is written out unchanged. Both conversions succeed on a
/// `clock_instant`, hence the `requires`.
#[verifier::external_body]
fn format_instant(pattern: &str, timestamp: i64, nanos: u32, offset: i32) -> (res: Option<String>)
    requires
        clock_instant(timestamp, nanos, offset),
    ensures
        match res {
            Some(t) => strftime_text(pattern@, timestamp, nanos, offset) == Some(t@),
            None => strftime_text(pattern@, timestamp, nanos, offset) is None,
        },
        res is Some <==> strftime_accepts(pattern@),
        !pattern@.contains('%') ==> res is Some && res->0@ == pattern@,
{
    let offset = chrono::FixedOffset::east_opt(offset).unwrap();
    let instant = chrono::DateTime::from_timestamp(timestamp, nanos).unwrap().with_timezone(&offset);
    let mut out = String::new();
    match instant.format(pattern).write_to(&mut out) {
        Ok(()) => Some(out),
        Err(_) => None,
    }
}

/// `(timestamp, nanos, offset)` is an instant the clock handed out: a
/// result of `local_now`. Nothing else is known to be one, so an instant the
/// code makes up (such as the start of 1970) is not.
pub closed spec fn clock_reading(timestamp: i64, nanos: u32, offset: i32) -> bool {
    call_ensures(local_now, (), (timestamp, nanos, offset))
}

/// `d` is a date text for `pattern`: what chrono writes in `pattern` for an
/// instant the clock reported, and `pattern` itself when it holds no `%`.
pub open spec fn is_date_text(d: Seq<char>, pattern: Seq<char>) -> bool {
    &&& !pattern.contains('%') ==> d == pattern
    &&& exists|ts: i64, ns: u32, off: i32|
        clock_instant(ts, ns, off) && clock_reading(ts, ns, off) && #[trigger] strftime_text(
            pattern,
            ts,
            ns,
            off,
        ) == Some(d)
}

/// Why the run's data could not be built.
#[derive(Debug, Clone, Copy, PartialEq, Eq)]
pub enum DataError {
    /// chrono fails to write the current time in the date pattern of the
    /// settings.
    DateFormat,
    /// The file types of the settings are not a JSON array of strings.
    FileTypes,
}

/// The wanted file types, parsed from the JSON array of strings `text`.
pub fn parse_file_types(text: &str) -> (res: Result<Vec<String>, DataError>)
    ensures
        match json_string_array(text@) {
            Some(v) => res matches Ok(types) && texts(types@) == v,
            None => res == Err::<Vec<String>, DataError>(DataError::FileTypes),
        },
{
    match parse_string_array(text) {
        Ok(v) => Ok(v),
        Err(_) => Err(DataError::FileTypes),
    }
}

/// The instant `(timestamp, nanos, offset)` written in the `strftime`
/// pattern `pattern`; `DateFormat` exactly when chrono fails to write it.
pub fn date_text_at(pattern: &str, timestamp: i64, nanos: u32, offset: i32) -> (res: Result<
    String,
    DataError,
>)
    requires
        clock_instant(timestamp, nanos, offset),
    ensures
        match strftime_text(pattern@, timestamp, nanos, offset) {
            Some(t) => res matches Ok(r) && r@ == t,
            None => res == Err::<String, DataError>(DataError::DateFormat),
        },
        res is Ok <==> strftime_accepts(pattern@),
        !pattern@.contains('%') ==> (res matches Ok(t) && t@ == pattern@),
{
    match format_instant(pattern, timestamp, nanos, offset) {
        Some(d) => Ok(d),
        None => Err(DataError::DateFormat),
    }
}

/// The current local date and time in the `strftime` pattern `pattern`;
/// `DateFormat` exactly when chrono fails to write it in that pattern
/// (`strftime_accepts`). The text is the pattern written at the instant the
/// clock gave (`is_date_text`); a pattern without `%` comes back as it is.
pub fn date_text(pattern: &str) -> (res: Result<String, DataError>)
    ensures
        res matches Err(e) ==> e == DataError::DateFormat,
        res is Ok <==> strftime_accepts(pattern@),
        res matches Ok(t) ==> is_date_text(t@, pattern@),
        !pattern@.contains('%') ==> (res matches Ok(t) && t@ == pattern@),
{
    let (timestamp, nanos, offset) = local_now();
    date_text_at(pattern, timestamp, nanos, offset)
}

/// The common beginning of the names of generated folders: the workspace,
/// a separator, the date, the folder name and the folder mark.
pub open spec fn dir_prefix_spec(workspace: Seq<char>, sep: char, date: Seq<char>, name: Seq<char>) -> Seq<char> {
    workspace.push(sep) + date + name + folder_mark()
}

/// Builds the common beginning of generated folder names.
pub fn make_dir_prefix(workspace: &str, sep: char, date: &str, name: &str) -> (res: String)
    ensures
        res@ == dir_prefix_spec(workspace@, sep, date@, name@),
{
    let mut res = String::from_str(workspace);
    push_char(&mut res, sep);
    res.append(date);
    res.append(name);
    push_char(&mut res, '_');
    push_char(&mut res, '#');
    push_char(&mut res, '_');
    assert(res@ =~= dir_prefix_spec(workspace@, sep, date@, name@));
    res
}

/// Everything a run works from.
pub struct Data {
    /// The beginning of the names of generated folders.
    pub dir_prefix: String,
    /// The path separator of the system, which folder names and the paths
    /// of moved files are built with.
    pub path_sep: char,
    /// The wanted file types.
    pub file_type: Vec<String>,
    /// How many entries of the workspace already carry the folder mark.
    pub suffix_flag_dir_count: usize,
    /// The files of wanted types, in the order in which they are moved.
    pub file_list: Vec<FileItem>,
    /// The number of files of wanted types.
    pub file_count: usize,
    /// The directories of the workspace of no wanted type.
    pub dir_list: Vec<EntryInfo>,
    /// The number of those directories.
    pub dir_count: usize,
}

/// `d` is the data of a run for `settings` and the listing `entries`: the
/// folder-name beginning is the workspace, the system's separator, a date
/// text for the settings' pattern, the folder name and the mark; the file
/// types are the settings' JSON array; the mark count is that of the
/// listing; and both lists are shuffles of what the listing holds.
pub open spec fn built_from(d: Data, settings: Settings, entries: Seq<EntryInfo>) -> bool {
    &&& d.wf()
    &&& d.path_sep == '/' || d.path_sep == '\\'
    &&& exists|date: Seq<char>|
        is_date_text(date, settings.dir.date@) && d.dir_prefix@ == #[trigger] dir_prefix_spec(
            settings.dir.workspace@,
            d.path_sep,
            date,
            settings.dir.name@,
        )
    &&& json_string_array(settings.file.filetypes@) == Some(texts(d.file_type@))
    &&& d.suffix_flag_dir_count == marked_count(entries)
    &&& is_shuffle_of(d.file_list@, typed_files(entries, texts(d.file_type@)))
    &&& is_shuffle_of(d.dir_list@, other_dirs(entries, texts(d.file_type@)))
}

/// The data's folder names carry the clock: the folder-name beginning is
/// the workspace, the separator and a text that chrono writes in the date
/// pattern at an instant the clock reported, character for character.
pub proof fn law_prefix_named_after_clock(d: Data, settings: Settings, entries: Seq<EntryInfo>)
    requires
        built_from(d, settings, entries),
    ensures
        exists|ts: i64, ns: u32, off: i32|
            {
                &&& clock_reading(ts, ns, off)
                &&& #[trigger] strftime_text(settings.dir.date@, ts, ns, off) is Some
                &&& d.dir_prefix@.subrange(0, settings.dir.workspace@.len() as int)
                    == settings.dir.workspace@
                &&& d.dir_prefix@[settings.dir.workspace@.len() as int] == d.path_sep
                &&& d.dir_prefix@.subrange(
                    settings.dir.workspace@.len() + 1int,
                    settings.dir.workspace@.len() + 1int + strftime_text(
                        settings.dir.date@,
                        ts,
                        ns,
                        off,
                    )->0.len(),
                ) == strftime_text(settings.dir.date@, ts, ns, off)->0
            },
{
    let ws = settings.dir.workspace@;
    let date = choose|date: Seq<char>|
        is_date_text(date, settings.dir.date@) && d.dir_prefix@ == #[trigger] dir_prefix_spec(
            ws,
            d.path_sep,
            date,
            settings.dir.name@,
        );
    let p = d.dir_prefix@;
    assert(p.subrange(0, ws.len() as int) =~= ws);
    assert(p.subrange(ws.len() + 1int, ws.len() + 1int + date.len()) =~= date);
    let (ts, ns, off) = choose|ts: i64, ns: u32, off: i32|
        clock_instant(ts, ns, off) && clock_reading(ts, ns, off) && #[trigger] strftime_text(
            settings.dir.date@,
            ts,
            ns,
            off,
        ) == Some(date);
    assert(strftime_text(settings.dir.date@, ts, ns, off) == Some(date));
}

impl Data {
    /// The counts match the lists and every file names a wanted type.
    pub open spec fn wf(&self) -> bool {
        &&& self.file_count == self.file_list.len()
        &&& self.dir_count == self.dir_list.len()
        &&& forall|k: int|
            0 <= k < self.file_list.len() ==> #[trigger] self.file_list[k].type_index
                < self.file_type.len()
    }

    /// The data for a folder-name beginning, the path separator, the wanted
    /// types and a scan of the workspace.
    pub fn from_parts(dir_prefix: String, path_sep: char, file_type: Vec<String>, scan: ScanResult) -> (res: Data)
        requires
            forall|k: int|
                0 <= k < scan.files.len() ==> #[trigger] scan.files[k].type_index < file_type.len(),
        ensures
            res.wf(),
            res.dir_prefix == dir_prefix,
            res.path_sep == path_sep,
            res.file_type == file_type,
            res.suffix_flag_dir_count == scan.flag_dir_count,
            res.file_list == scan.files,
            res.dir_list == scan.dirs,
    {
        let file_count = scan.files.len();
        let dir_count = scan.dirs.len();
        Data {
            dir_prefix,
            path_sep,
            file_type,
            suffix_flag_dir_count: scan.flag_dir_count,
            file_list: scan.files,
            file_count,
            dir_list: scan.dirs,
            dir_count,
        }
    }

    /// Builds the data of a run from the settings and the listing of the
    /// workspace: the folder-name beginning with the current date, the
    /// wanted types parsed from JSON, and the scan of the listing with both
    /// lists shuffled. The date pattern must be one chrono can write and the
    /// file types a JSON array of strings (`try_new` tests both).
    pub fn new(settings: &Settings, entries: &Vec<EntryInfo>) -> (d: Data)
        requires
            strftime_accepts(settings.dir.date@),
            json_string_array(settings.file.filetypes@) is Some,
        ensures
            built_from(d, *settings, entries@),
    {
        let sep = path_separator();
        let date = match date_text(settings.dir.date.as_str()) {
            Ok(d) => d,
            Err(_) => {
                proof {
                    assert(false);
                }
                String::new()
            },
        };
        let dir_prefix = make_dir_prefix(
            settings.dir.workspace.as_str(),
            sep,
            date.as_str(),
            settings.dir.name.as_str(),
        );
        let file_type = match parse_file_types(settings.file.filetypes.as_str()) {
            Ok(v) => v,
            Err(_) => {
                proof {
                    assert(false);
                }
                Vec::new()
            },
        };
        let scan = get_dir_file(entries, &file_type, true);
        Data::from_parts(dir_prefix, sep, file_type, scan)
    }

    /// `new` where the settings allow it; otherwise the first problem found:
    /// `DateFormat` when chrono cannot write the date pattern, else
    /// `FileTypes` when the file types are not a JSON array of strings.
    pub fn try_new(settings: &Settings, entries: &Vec<EntryInfo>) -> (res: Result<Data, DataError>)
        ensures
            res is Ok <==> strftime_accepts(settings.dir.date@) && json_string_array(
                settings.file.filetypes@,
            ) is Some,
            res matches Err(e) ==> e == (if strftime_accepts(settings.dir.date@) {
                DataError::FileTypes
            } else {
                DataError::DateFormat
            }),
            res matches Ok(d) ==> built_from(d, *settings, entries@),
    {
        if let Err(e) = date_text(settings.dir.date.as_str()) {
            return Err(e);
        }
        if let Err(e) = parse_file_types(settings.file.filetypes.as_str()) {
            return Err(e);
        }
        Ok(Data::new(settings, entries))
    }
}

/// `a / b` rounded up.
pub open spec fn ceil_div(a: int, b: int) -> int {
    if a % b == 0 {
        a / b
    } else {
        a / b + 1
    }
}

/// The number of folders needed for `file_count` files, `pick_count` to a
/// folder.
pub fn batch_count(file_count: usize, pick_count: usize) -> (n: usize)
    requires
        pick_count > 0,
    ensures
        n == ceil_div(file_count as int, pick_count as int),
{
    if file_count % pick_count == 0 {
        file_count / pick_count
    } else {
        assert(file_count / pick_count < usize::MAX) by (nonlinear_arith)
            requires pick_count > 0, file_count % pick_count != 0, file_count <= usize::MAX;
        file_count / pick_count + 1
    }
}

/// The position in the file list of the first file of folder `i`.
pub open spec fn batch_start(i: int, pick: int) -> int {
    i * pick
}

/// The position in the file list just after the last file of folder `i`.
pub open spec fn batch_end(i: int, pick: int, count: int) -> int {
    if i * pick + pick < count {
        i * pick + pick
    } else {
        count
    }
}

proof fn lemma_batch_bounds(i: int, pick: int, count: int)
    requires
        pick > 0,
        count >= 0,
        0 <= i < ceil_div(count, pick),
    ensures
        0 <= i * pick < count,
{
    assert(0 <= i * pick) by (nonlinear_arith)
        requires 0 <= i, pick > 0;
    assert(i * pick < count) by (nonlinear_arith)
        requires pick > 0, count >= 0, 0 <= i, i < ceil_div(count, pick),
            ceil_div(count, pick) == (if count % pick == 0 { count / pick } else { count / pick + 1 });
}

/// The first and the past-the-end positions of the files of folder `i`.
pub fn batch_range(i: usize, pick_count: usize, file_count: usize) -> (r: (usize, usize))
    requires
        pick_count > 0,
        i < ceil_div(file_count as int, pick_count as int),
    ensures
        r.0 == batch_start(i as int, pick_count as int),
        r.1 == batch_end(i as int, pick_count as int, file_count as int),
{
    proof {
        lemma_batch_bounds(i as int, pick_count as int, file_count as int);
    }
    let start = i * pick_count;
    let end = if file_count - start > pick_count {
        start + pick_count
    } else {
        file_count
    };
    (start, end)
}

/// The folders split the file list into consecutive runs: the first starts
/// at the beginning, each ends where the next starts, the last ends at the
/// end, none is empty and none holds more than `pick` files; so every file
/// lands in exactly one folder, folder `j / pick` for the file at `j`.
pub proof fn law_batches_partition(count: int, pick: int)
    requires
        count >= 0,
        pick > 0,
    ensures
        ceil_div(count, pick) >= 0,
        count > 0 ==> batch_start(0, pick) == 0,
        count > 0 ==> batch_end(ceil_div(count, pick) - 1, pick, count) == count,
        forall|i: int|
            0 <= i < ceil_div(count, pick) ==> batch_start(i, pick) < #[trigger] batch_end(
                i,
                pick,
                count,
            ) && batch_end(i, pick, count) - batch_start(i, pick) <= pick,
        forall|i: int|
            0 <= i && i + 1 < ceil_div(count, pick) ==> #[trigger] batch_end(i, pick, count)
                == batch_start(i + 1, pick),
        forall|j: int|
            0 <= j < count ==> 0 <= #[trigger] (j / pick) < ceil_div(count, pick) && batch_start(
                j / pick,
                pick,
            ) <= j < batch_end(j / pick, pick, count),
{
    let n = ceil_div(count, pick);
    assert(n >= 0) by (nonlinear_arith)
        requires count >= 0, pick > 0, n == (if count % pick == 0 { count / pick } else { count / pick + 1 });
    assert forall|i: int| 0 <= i < n implies batch_start(i, pick) < #[trigger] batch_end(i, pick, count)
        && batch_end(i, pick, count) - batch_start(i, pick) <= pick by {
        lemma_batch_bounds(i, pick, count);
    }
    assert forall|i: int| 0 <= i && i + 1 < n implies #[trigger] batch_end(i, pick, count)
        == batch_start(i + 1, pick) by {
        lemma_batch_bounds(i + 1, pick, count);
        assert((i + 1) * pick == i * pick + pick) by (nonlinear_arith);
    }
    if count > 0 {
        assert(n >= 1) by (nonlinear_arith)
            requires count > 0, pick > 0, n == (if count % pick == 0 { count / pick } else { count / pick + 1 });
        assert((n - 1) * pick + pick >= count) by (nonlinear_arith)
            requires count > 0, pick > 0, n == (if count % pick == 0 { count / pick } else { count / pick + 1 });
    }
    assert forall|j: int| 0 <= j < count implies 0 <= #[trigger] (j / pick) < n && batch_start(
        j / pick,
        pick,
    ) <= j < batch_end(j / pick, pick, count) by {
        assert(0 <= j / pick < n) by (nonlinear_arith)
            requires 0 <= j < count, pick > 0, n == (if count % pick == 0 { count / pick } else { count / pick + 1 });
        assert((j / pick) * pick <= j < (j / pick) * pick + pick) by (nonlinear_arith)
            requires 0 <= j, pick > 0;
    }
}

/// One file to move: from where, to where.
pub struct FileMove {
    pub from: String,
    pub to: String,
}

/// The work on folder `index`: the files moved into `src_dir`, and the
/// archive `dst_dir` the folder is packed into.
pub struct BatchPlan {
    /// The number of the folder, counted from zero.
    pub index: usize,
    /// The folder the files are moved into.
    pub src_dir: String,
    /// The archive the folder is packed into.
    pub dst_dir: String,
    /// The moves, in file-list order.
    pub moves: Vec<FileMove>,
    /// Whether a finished folder must be waited for before this one starts.
    pub wait_before: bool,
    /// Whether this folder reports that it is finished.
    pub signal_after: bool,
}

/// The folder that folder `i` collects its files in: the prefix followed
/// by `i + 1`.
pub open spec fn src_dir_spec(prefix: Seq<char>, i: int) -> Seq<char> {
    prefix + decimal((i + 1) as nat)
}

/// The archive of folder `i`: the prefix, then `i + 1` counted on from the
/// folders that already carry the mark, then the archive suffix.
pub open spec fn dst_dir_spec(prefix: Seq<char>, marked: int, i: int, suffix: Seq<char>) -> Seq<char> {
    prefix + decimal((marked + i + 1) as nat) + suffix
}

/// The name a file gets in its folder: with renaming, or when the file has
/// no UTF-8 name, the random text followed by the file's type (no dot in
/// between); otherwise the file's own name.
pub open spec fn target_name(item: FileItem, types: Seq<Seq<char>>, is_rename: bool, rnd: Seq<char>) -> Seq<char> {
    let random_name = rnd + types[item.type_index as int];
    if is_rename {
        random_name
    } else {
        match item.entry.name {
            Some(n) => n@,
            None => random_name,
        }
    }
}

/// `p` is the plan of folder `i` for `data` and `settings`, with random
/// texts `names` for the folder's files.
pub open spec fn plan_matches(
    p: BatchPlan,
    data: Data,
    settings: Settings,
    i: int,
    names: Seq<Seq<char>>,
) -> bool {
    let pick = settings.dir.pick_count as int;
    let count = data.file_count as int;
    let start = batch_start(i, pick);
    let end = batch_end(i, pick, count);
    &&& p.index == i
    &&& p.src_dir@ == src_dir_spec(data.dir_prefix@, i)
    &&& p.dst_dir@ == dst_dir_spec(
        data.dir_prefix@,
        data.suffix_flag_dir_count as int,
        i,
        settings.dir.compress_method@,
    )
    &&& p.moves.len() == end - start
    &&& forall|k: int|
        0 <= k < p.moves.len() ==> {
            &&& (#[trigger] p.moves[k]).from@ == data.file_list[start + k].entry.path@
            &&& p.moves[k].to@ == p.src_dir@.push(data.path_sep) + target_name(
                data.file_list[start + k],
                texts(data.file_type@),
                settings.file.is_rename,
                names[k],
            )
        }
    &&& p.wait_before == (i > settings.main.thread)
    &&& p.signal_after == (settings.main.thread < ceil_div(count, pick))
}

/// The name a file gets, given its random text.
fn file_target_name(item: &FileItem, file_type: &Vec<String>, is_rename: bool, rnd: &String) -> (res: String)
    requires
        item.type_index < file_type.len(),
    ensures
        res@ == target_name(*item, texts(file_type@), is_rename, rnd@),
{
    let mut random_name = rnd.clone();
    random_name.append(file_type[item.type_index].as_str());
    if is_rename {
        random_name
    } else {
        match &item.entry.name {
            Some(n) => n.clone(),
            None => random_name,
        }
    }
}

/// Plans folder `i`, with `names[k]` the random text of its `k`-th file.
pub fn plan_batch(data: &Data, settings: &Settings, i: usize, names: &Vec<String>) -> (res: BatchPlan)
    requires
        data.wf(),
        settings.dir.pick_count > 0,
        i < ceil_div(data.file_count as int, settings.dir.pick_count as int),
        names.len() == batch_end(i as int, settings.dir.pick_count as int, data.file_count as int)
            - batch_start(i as int, settings.dir.pick_count as int),
        data.suffix_flag_dir_count + i + 1 <= usize::MAX,
    ensures
        plan_matches(res, *data, *settings, i as int, texts(names@)),
{
    let pick = settings.dir.pick_count;
    let (start, end) = batch_range(i, pick, data.file_count);
    let mut src_dir = data.dir_prefix.clone();
    push_decimal(&mut src_dir, i + 1);
    let mut dst_dir = data.dir_prefix.clone();
    push_decimal(&mut dst_dir, data.suffix_flag_dir_count + i + 1);
    dst_dir.append(settings.dir.compress_method.as_str());
    let mut moves: Vec<FileMove> = Vec::new();
    let mut j: usize = start;
    while j < end
        invariant
            data.wf(),
            start <= j <= end,
            end <= data.file_count,
            names.len() == end - start,
            moves.len() == j - start,
            forall|k: int|
                0 <= k < moves.len() ==> {
                    &&& (#[trigger] moves[k]).from@ == data.file_list[start + k].entry.path@
                    &&& moves[k].to@ == src_dir@.push(data.path_sep) + target_name(
                        data.file_list[start + k],
                        texts(data.file_type@),
                        settings.file.is_rename,
                        names[k]@,
                    )
                },
        decreases end - j,
    {
        let item = &data.file_list[j];
        let name = file_target_name(item, &data.file_type, settings.file.is_rename, &names[j - start]);
        let mut to = src_dir.clone();
        push_char(&mut to, data.path_sep);
        to.append(name.as_str());
        moves.push(FileMove { from: item.entry.path.clone(), to });
        j = j + 1;
    }
    proof {
        lemma_batch_bounds(i as int, pick as int, data.file_count as int);
    }
    BatchPlan {
        index: i,
        src_dir,
        dst_dir,
        moves,
        wait_before: i > settings.main.thread,
        signal_after: settings.main.thread < batch_count(data.file_count, pick),
    }
}

/// The length of the random text each moved file gets.
pub open spec fn random_name_len() -> nat {
    12
}

/// Plans folder `i` with fresh random texts of twelve identifier
/// characters for its files.
pub fn plan_batch_random(data: &Data, settings: &Settings, i: usize) -> (res: BatchPlan)
    requires
        data.wf(),
        settings.dir.pick_count > 0,
        i < ceil_div(data.file_count as int, settings.dir.pick_count as int),
        data.suffix_flag_dir_count + i + 1 <= usize::MAX,
    ensures
        exists|names: Seq<Seq<char>>|
            {
                &&& names.len() == res.moves.len()
                &&& forall|k: int|
                    0 <= k < names.len() ==> (#[trigger] names[k]).len() == random_name_len()
                        && forall|m: int| 0 <= m < names[k].len() ==> is_id_symbol(names[k][m])
                &&& plan_matches(res, *data, *settings, i as int, names)
            },
        exists|names: Seq<Seq<char>>|
            {
                &&& names.len() == res.moves.len()
                &&& forall|k: int|
                    0 <= k < names.len() ==> is_random_id(#[trigger] names[k], random_name_len())
                &&& plan_matches(res, *data, *settings, i as int, names)
            },
{
    let (start, end) = batch_range(i, settings.dir.pick_count, data.file_count);
    proof {
        lemma_batch_bounds(i as int, settings.dir.pick_count as int, data.file_count as int);
    }
    let mut names: Vec<String> = Vec::new();
    let mut j: usize = start;
    while j < end
        invariant
            start <= j <= end,
            names.len() == j - start,
            forall|k: int|
                0 <= k < names.len() ==> (#[trigger] names[k])@.len() == random_name_len()
                    && forall|m: int| 0 <= m < names[k]@.len() ==> is_id_symbol(names[k]@[m]),
            forall|k: int| 0 <= k < names.len() ==> is_random_id((#[trigger] names[k])@, random_name_len()),
        decreases end - j,
    {
        let rnd = random_id(12);
        proof {
            let picks = choose|picks: Seq<usize>|
                picks.len() == 12 && (forall|k: int| 0 <= k < 12 ==> picks[k] < 64) && rnd@
                    == id_from_values(picks);
            assert forall|m: int| 0 <= m < rnd@.len() implies is_id_symbol(rnd@[m]) by {
                assert(picks[m] < 64);
                assert(rnd@[m] == crate::random::id_symbol(picks[m] as int));
            }
        }
        names.push(rnd);
        j = j + 1;
    }
    let res = plan_batch(data, settings, i, &names);
    assert(texts(names@).len() == res.moves.len());
    res
}

/// Every file is moved by exactly one folder: given the plans of all
/// folders of a run, each move of folder `i` takes the file at position
/// `i * pick + k` of the file list (so no two moves take the same file), and
/// the file at position `j` is taken by folder `j / pick` as its move
/// `j - (j / pick) * pick`.
pub proof fn law_each_file_moved_once(
    plans: Seq<BatchPlan>,
    data: Data,
    settings: Settings,
    names: Seq<Seq<Seq<char>>>,
)
    requires
        data.wf(),
        settings.dir.pick_count > 0,
        plans.len() == ceil_div(data.file_count as int, settings.dir.pick_count as int),
        names.len() == plans.len(),
        forall|i: int|
            0 <= i < plans.len() ==> plan_matches(
                #[trigger] plans[i],
                data,
                settings,
                i,
                names[i],
            ),
    ensures
        forall|i: int, k: int|
            0 <= i < plans.len() && 0 <= k < plans[i].moves.len() ==> {
                &&& 0 <= k < settings.dir.pick_count
                &&& i * settings.dir.pick_count + k < data.file_count
                &&& (#[trigger] plans[i].moves[k]).from@ == data.file_list[i
                    * settings.dir.pick_count + k].entry.path@
            },
        forall|j: int|
            0 <= j < data.file_count ==> {
                let i = j / (settings.dir.pick_count as int);
                let k = j - i * settings.dir.pick_count;
                &&& 0 <= i < plans.len()
                &&& 0 <= k < plans[i].moves.len()
                &&& plans[i].moves[k].from@ == (#[trigger] data.file_list[j]).entry.path@
            },
{
    let pick = settings.dir.pick_count as int;
    let count = data.file_count as int;
    law_batches_partition(count, pick);
    assert forall|i: int, k: int|
        0 <= i < plans.len() && 0 <= k < plans[i].moves.len() implies {
        &&& 0 <= k < settings.dir.pick_count
        &&& i * settings.dir.pick_count + k < data.file_count
        &&& (#[trigger] plans[i].moves[k]).from@ == data.file_list[i * settings.dir.pick_count + k].entry.path@
    } by {
        assert(plan_matches(plans[i], data, settings, i, names[i]));
        assert(batch_start(i, pick) < batch_end(i, pick, count));
        assert(plans[i].moves[k].from@ == data.file_list[batch_start(i, pick) + k].entry.path@);
    }
    assert forall|j: int| 0 <= j < data.file_count implies {
        let i = j / (settings.dir.pick_count as int);
        let k = j - i * settings.dir.pick_count;
        &&& 0 <= i < plans.len()
        &&& 0 <= k < plans[i].moves.len()
        &&& plans[i].moves[k].from@ == (#[trigger] data.file_list[j]).entry.path@
    } by {
        let i = j / pick;
        assert(0 <= i < plans.len() && batch_start(i, pick) <= j < batch_end(i, pick, count));
        assert(plan_matches(plans[i], data, settings, i, names[i]));
        let k = j - i * pick;
        assert(batch_start(i, pick) + k == j);
    }
}

/// Packing one existing directory of the workspace into an archive.
pub struct DirJob {
    /// The position of the directory in the directory list.
    pub index: usize,
    /// The directory to pack.
    pub src_dir: String,
    /// The archive: the directory's path followed by the archive suffix.
    pub dst_dir: String,
    /// Whether a finished job must be waited for before this one starts.
    pub wait_before: bool,
    /// Whether this job reports that it is finished.
    pub signal_after: bool,
}

/// What a run does.
pub enum RunPlan {
    /// Fill this many numbered folders with the files found.
    Batches(usize),
    /// No file was found: pack the directories of the workspace.
    CompressDirs(Vec<DirJob>),
    /// No file was found, packing is on, but there is no directory to pack.
    NoDirs,
    /// No file was found and packing is off.
    Nothing,
}

/// `j` is the job for directory `k` of `data`.
pub open spec fn dir_job_matches(j: DirJob, data: Data, settings: Settings, k: int) -> bool {
    &&& j.index == k
    &&& j.src_dir@ == data.dir_list[k].path@
    &&& j.dst_dir@ == data.dir_list[k].path@ + settings.dir.compress_method@
    &&& j.wait_before == (k > settings.main.thread)
    &&& j.signal_after == (data.dir_count > settings.main.thread)
}

/// Decides what a run does: fill folders when files of the wanted types
/// were found; otherwise, when packing is on, pack each directory of the
/// workspace.
pub fn plan_run(data: &Data, settings: &Settings) -> (res: RunPlan)
    requires
        data.wf(),
        data.file_count > 0 ==> settings.dir.pick_count > 0,
    ensures
        match res {
            RunPlan::Batches(n) => data.file_count > 0 && n == ceil_div(
                data.file_count as int,
                settings.dir.pick_count as int,
            ),
            RunPlan::CompressDirs(jobs) => {
                &&& data.file_count == 0
                &&& settings.dir.is_compress
                &&& data.dir_count > 0
                &&& jobs.len() == data.dir_count
                &&& forall|k: int|
                    0 <= k < jobs.len() ==> dir_job_matches(#[trigger] jobs[k], *data, *settings, k)
            },
            RunPlan::NoDirs => data.file_count == 0 && settings.dir.is_compress && data.dir_count
                == 0,
            RunPlan::Nothing => data.file_count == 0 && !settings.dir.is_compress,
        },
{
    if data.file_list.len() > 0 {
        return RunPlan::Batches(batch_count(data.file_count, settings.dir.pick_count));
    }
    if !settings.dir.is_compress {
        return RunPlan::Nothing;
    }
    if data.dir_count == 0 {
        return RunPlan::NoDirs;
    }
    let mut jobs: Vec<DirJob> = Vec::new();
    let mut k: usize = 0;
    while k < data.dir_count
        invariant
            data.wf(),
            k <= data.dir_count,
            jobs.len() == k,
            forall|m: int| 0 <= m < k ==> dir_job_matches(#[trigger] jobs[m], *data, *settings, m),
        decreases data.dir_count - k,
    {
        let src_dir = data.dir_list[k].path.clone();
        let mut dst_dir = data.dir_list[k].path.clone();
        dst_dir.append(settings.dir.compress_method.as_str());
        jobs.push(
            DirJob {
                index: k,
                src_dir,
                dst_dir,
                wait_before: k > settings.main.thread,
                signal_after: data.dir_count > settings.main.thread,
            },
        );
        k = k + 1;
    }
    RunPlan::CompressDirs(jobs)
}

} // verus!
