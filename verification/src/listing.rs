//! Directory listings and file previews.

use vstd::prelude::*;
use vstd::utf8::*;

use crate::bytes::{lossy, lossy_text};
use crate::errors::{ExecError, FileError, Limit};
use crate::numbers::{
    decimal, decimal_reads_back, lemma_decimal, parse_u64, parse_unsigned, to_decimal,
};
use crate::order::{
    arranged, arranged_follows_the_keys, arranged_is_a_permutation, arranged_is_in_order,
    key_before, key_views, lemma_arranged_maps, sort_by_key, sorted_keys, Key,
};
use crate::paths::{confined, join_path, joined_path, opened, safe_path, to_open, Refusal};
use crate::shell::{
    failure_text, quote, quoted, quoting_keeps_the_value, ssh_output, word_value, Finished,
};
use crate::text::{
    a_tidy_text_is_kept, ascii_lower, concat3, cut_last, lines, rsplit_once, same, split_lines,
    split_n, split_up_to, the_first_separators_cut, the_last_separator_cuts, trim, trim_end_of,
    trim_end_set, trimmed, views,
};

verus! {

/// How many entries a listing shows.
pub const MAX_ENTRIES: usize = 500;

/// An entry of a directory, as the file browser shows it.
#[derive(Debug, Clone)]
pub struct FileEntry {
    /// The last part of the path: what the row shows.
    pub name: String,
    /// The whole path: what the browser asks for next.
    pub path: String,
    pub is_dir: bool,
    pub size: u64,
    pub modified: String,
    /// The permissions, such as `-rwxr-xr-x`.
    pub mode: String,
}

/// The meaning of a [`FileEntry`].
pub struct EntryView {
    pub name: Seq<char>,
    pub path: Seq<char>,
    pub is_dir: bool,
    pub size: u64,
    pub modified: Seq<char>,
    pub mode: Seq<char>,
}

impl View for FileEntry {
    type V = EntryView;

    open spec fn view(&self) -> EntryView {
        EntryView {
            name: self.name@,
            path: self.path@,
            is_dir: self.is_dir,
            size: self.size,
            modified: self.modified@,
            mode: self.mode@,
        }
    }
}

/// The views of a list of entries.
pub open spec fn entry_views(v: Seq<FileEntry>) -> Seq<EntryView> {
    v.map_values(|e: FileEntry| e@)
}

// ---------------------------------------------------------------------------
// The order of a listing
// ---------------------------------------------------------------------------

/// What `str::to_lowercase` makes of the text.
pub uninterp spec fn lower_text(s: Seq<char>) -> Seq<char>;

/// Lower case with `str::to_lowercase`. The contract names the result, which
/// depends on the text alone, and says that ASCII text is changed letter by
/// letter.
#[verifier::external_body]
fn to_lower(s: &str) -> (r: String)
    ensures
        r@ == lower_text(s@),
        (forall|i: int| 0 <= i < s@.len() ==> (#[trigger] s@[i]) as u32 <= 0x7f) ==> r@
            == ascii_lower(s@),
{
    s.to_lowercase()
}

/// The first `n` items, or all where there are fewer.
pub open spec fn first<T>(s: Seq<T>, n: int) -> Seq<T> {
    if s.len() <= n {
        s
    } else {
        s.take(n)
    }
}

/// The keys that entries are ordered by, given their names in lower case:
/// directories come first, then the names decide.
pub open spec fn keys_with(entries: Seq<EntryView>, lowered: Seq<Seq<char>>) -> Seq<Key> {
    Seq::new(entries.len(), |i: int| (!entries[i].is_dir, lowered[i]))
}

/// The entries as they are shown, given their names in lower case.
pub open spec fn shown_with(entries: Seq<EntryView>, lowered: Seq<Seq<char>>) -> Seq<EntryView> {
    first(arranged(entries, keys_with(entries, lowered)), MAX_ENTRIES as int)
}

/// The names of entries in lower case.
pub open spec fn lowered_names(entries: Seq<EntryView>) -> Seq<Seq<char>> {
    entries.map_values(|e: EntryView| lower_text(e.name))
}

/// The entries as they are shown: directories first, then by name regardless of
/// case, and no more than a listing shows.
pub open spec fn shown(entries: Seq<EntryView>) -> Seq<EntryView> {
    shown_with(entries, lowered_names(entries))
}

/// The key that an entry is ordered by.
pub open spec fn entry_key(e: EntryView) -> Key {
    (!e.is_dir, lower_text(e.name))
}

/// A listing is in order: directories come first, names go up, and it is no
/// longer than a listing may be.
pub proof fn shown_is_in_order(entries: Seq<EntryView>, i: int, j: int)
    requires
        0 <= i < j < shown(entries).len(),
    ensures
        shown(entries).len() <= MAX_ENTRIES,
        !key_before(entry_key(shown(entries)[j]), entry_key(shown(entries)[i])),
        !shown(entries)[i].is_dir ==> !shown(entries)[j].is_dir,
{
    let keys = keys_with(entries, lowered_names(entries));
    let key = |e: EntryView| entry_key(e);
    assert forall|k: int| 0 <= k < entries.len() implies keys[k] == key(#[trigger] entries[k]) by {
        assert(lowered_names(entries)[k] == lower_text(entries[k].name));
    }
    arranged_follows_the_keys(entries, keys, key);
    arranged_is_in_order(keys);
    let all = arranged(entries, keys);
    let sorted = sorted_keys(keys);
    assert(sorted == all.map_values(key));
    assert(sorted[i] == entry_key(all[i]));
    assert(sorted[j] == entry_key(all[j]));
    assert(!key_before(sorted[j], sorted[i]));
}

/// A listing that is short enough shows every entry once.
pub proof fn a_short_listing_is_complete(entries: Seq<EntryView>)
    requires
        entries.len() <= MAX_ENTRIES,
    ensures
        shown(entries).len() == entries.len(),
        shown(entries).to_multiset() == entries.to_multiset(),
{
    arranged_is_a_permutation(entries, keys_with(entries, lowered_names(entries)));
}

/// Orders entries by their names in lower case, and cuts the list.
pub fn ordered(entries: Vec<FileEntry>, lowered: Vec<String>) -> (r: Vec<FileEntry>)
    requires
        entries@.len() == lowered@.len(),
    ensures
        entry_views(r@) == shown_with(entry_views(entries@), views(lowered@)),
{
    let ghost ev = entry_views(entries@);
    let ghost lv = views(lowered@);
    let mut keys: Vec<(bool, String)> = Vec::new();
    let mut i: usize = 0;
    while i < entries.len()
        invariant
            i <= entries@.len(),
            entries@.len() == lowered@.len(),
            ev == entry_views(entries@),
            lv == views(lowered@),
            key_views(keys@) == keys_with(ev, lv).take(i as int),
        decreases entries.len() - i,
    {
        let ghost before = key_views(keys@);
        keys.push((!entries[i].is_dir, lowered[i].clone()));
        i = i + 1;
        assert(key_views(keys@) =~= before.push((!entries@[i - 1].is_dir, lowered@[i - 1]@)));
        assert(keys_with(ev, lv)[i - 1] == (!entries@[i - 1].is_dir, lowered@[i - 1]@));
        assert(keys_with(ev, lv).take(i as int) =~= before.push(keys_with(ev, lv)[i - 1]));
    }
    assert(keys_with(ev, lv).take(i as int) =~= keys_with(ev, lv));
    proof {
        lemma_arranged_maps(entries@, keys_with(ev, lv), |e: FileEntry| e@);
        arranged_is_a_permutation(entries@, keys_with(ev, lv));
    }
    let mut out = sort_by_key(entries, keys);
    let ghost all = out@;
    out.truncate(MAX_ENTRIES);
    assert(entry_views(out@) =~= first(entry_views(all), MAX_ENTRIES as int));
    out
}

/// Puts entries into the order in which they are shown, and cuts the list.
fn arrange(entries: Vec<FileEntry>) -> (r: Vec<FileEntry>)
    ensures
        entry_views(r@) == shown(entry_views(entries@)),
{
    let ghost ev = entry_views(entries@);
    let mut lowered: Vec<String> = Vec::new();
    let mut i: usize = 0;
    while i < entries.len()
        invariant
            i <= entries@.len(),
            ev == entry_views(entries@),
            views(lowered@) == lowered_names(ev).take(i as int),
        decreases entries.len() - i,
    {
        let ghost before = views(lowered@);
        lowered.push(to_lower(entries[i].name.as_str()));
        i = i + 1;
        assert(views(lowered@) =~= before.push(lower_text(entries@[i - 1].name@)));
        assert(lowered_names(ev).take(i as int) =~= before.push(lowered_names(ev)[i - 1]));
    }
    assert(lowered_names(ev).take(i as int) =~= lowered_names(ev));
    assert(views(lowered@).len() == ev.len());
    ordered(entries, lowered)
}

// ---------------------------------------------------------------------------
// Local directories
// ---------------------------------------------------------------------------

/// What the filesystem says of an entry of a local directory.
#[derive(Debug, Clone)]
pub struct LocalRow {
    pub name: String,
    pub is_dir: bool,
    pub len: u64,
    /// The time of the last change in seconds since 1970, where there is one.
    pub modified: Option<u64>,
    pub mode: String,
}

/// Does the name stand for no entry of its own?
pub open spec fn is_nameless(name: Seq<char>) -> bool {
    name.len() == 0 || name == "."@ || name == ".."@
}

/// Does the name stand for no entry of its own?
fn nameless(name: &str) -> (r: bool)
    ensures
        r == is_nameless(name@),
{
    name.is_empty() || same(name, ".") || same(name, "..")
}

/// The entry for a row of a local directory.
pub open spec fn local_entry(dir: Seq<char>, row: LocalRow) -> EntryView {
    EntryView {
        name: row.name@,
        path: joined_path(dir, row.name@),
        is_dir: row.is_dir,
        size: if row.is_dir {
            0
        } else {
            row.len
        },
        modified: match row.modified {
            Some(t) => decimal(t as nat),
            None => seq![],
        },
        mode: row.mode@,
    }
}

/// The entries of a local directory, in the order in which it gave them.
pub open spec fn local_entries(dir: Seq<char>, rows: Seq<LocalRow>) -> Seq<EntryView>
    decreases rows.len(),
{
    if rows.len() == 0 {
        seq![]
    } else {
        let before = local_entries(dir, rows.drop_last());
        if is_nameless(rows.last().name@) {
            before
        } else {
            before.push(local_entry(dir, rows.last()))
        }
    }
}

/// The listing of a local directory from what the filesystem says of it.
pub fn list_dir_local(dir: &str, rows: &Vec<LocalRow>) -> (r: Vec<FileEntry>)
    ensures
        entry_views(r@) == shown(local_entries(opened(dir@), rows@)),
{
    let dir = to_open(dir);
    let mut out: Vec<FileEntry> = Vec::new();
    let mut i: usize = 0;
    assert(entry_views(out@) =~= local_entries(dir@, rows@.take(0)));
    while i < rows.len()
        invariant
            i <= rows@.len(),
            entry_views(out@) == local_entries(dir@, rows@.take(i as int)),
        decreases rows.len() - i,
    {
        let row = &rows[i];
        let ghost before = entry_views(out@);
        proof {
            assert(rows@.take(i + 1).drop_last() =~= rows@.take(i as int));
            assert(rows@.take(i + 1).last() == *row);
        }
        if !nameless(row.name.as_str()) {
            let modified = match row.modified {
                Some(t) => to_decimal(t as u128),
                None => String::new(),
            };
            let e = FileEntry {
                path: join_path(dir.as_str(), row.name.as_str()),
                name: row.name.clone(),
                is_dir: row.is_dir,
                size: if row.is_dir {
                    0
                } else {
                    row.len
                },
                modified,
                mode: row.mode.clone(),
            };
            assert(e@ == local_entry(dir@, *row));
            out.push(e);
            assert(entry_views(out@) =~= before.push(e@));
        }
        i = i + 1;
    }
    assert(rows@.take(i as int) =~= rows@);
    arrange(out)
}

/// Is the bit of that weight set?
pub open spec fn has_bit(bits: u32, weight: int) -> bool {
    (bits as int / weight) % 2 == 1
}

/// A permission letter, or a dash where the bit is not set.
pub open spec fn letter(bits: u32, weight: int, c: char) -> char {
    if has_bit(bits, weight) {
        c
    } else {
        '-'
    }
}

/// The mode of a file as it is usually written: a letter for the kind and three
/// groups of permissions, from the nine lowest bits.
pub open spec fn mode_text(is_dir: bool, bits: u32) -> Seq<char> {
    seq![
        if is_dir {
            'd'
        } else {
            '-'
        },
        letter(bits, 256, 'r'),
        letter(bits, 128, 'w'),
        letter(bits, 64, 'x'),
        letter(bits, 32, 'r'),
        letter(bits, 16, 'w'),
        letter(bits, 8, 'x'),
        letter(bits, 4, 'r'),
        letter(bits, 2, 'w'),
        letter(bits, 1, 'x'),
    ]
}

/// The mode of a local file.
pub fn local_mode(is_dir: bool, bits: u32) -> (r: String)
    ensures
        r@ == mode_text(is_dir, bits),
{
    let mut out = String::new();
    out.push(if is_dir { 'd' } else { '-' });
    out.push(if (bits / 256) % 2 == 1 { 'r' } else { '-' });
    out.push(if (bits / 128) % 2 == 1 { 'w' } else { '-' });
    out.push(if (bits / 64) % 2 == 1 { 'x' } else { '-' });
    out.push(if (bits / 32) % 2 == 1 { 'r' } else { '-' });
    out.push(if (bits / 16) % 2 == 1 { 'w' } else { '-' });
    out.push(if (bits / 8) % 2 == 1 { 'x' } else { '-' });
    out.push(if (bits / 4) % 2 == 1 { 'r' } else { '-' });
    out.push(if (bits / 2) % 2 == 1 { 'w' } else { '-' });
    out.push(if bits % 2 == 1 { 'x' } else { '-' });
    assert(out@ =~= mode_text(is_dir, bits));
    out
}

/// The mode of a file on a system that knows no more than whether the file is
/// read-only.
pub fn plain_mode(is_dir: bool, readonly: bool) -> (r: String)
    ensures
        r@ == seq![if is_dir { 'd' } else { '-' }, 'r', if readonly { '-' } else { 'w' }]
            + "-------"@,
{
    let mut out = String::new();
    out.push(if is_dir { 'd' } else { '-' });
    out.push('r');
    out.push(if readonly { '-' } else { 'w' });
    assert(out@ =~= seq![if is_dir { 'd' } else { '-' }, 'r', if readonly { '-' } else { 'w' }]);
    out.append("-------");
    out
}

/// The kinds of I/O error that are told apart.
#[derive(Debug, Clone, Copy, PartialEq, Eq, Structural)]
pub enum IoKind {
    NotFound,
    PermissionDenied,
    Other,
}

/// The error for a failed operation on a local file.
pub fn local_io(kind: IoKind, message: &str) -> (r: FileError)
    ensures
        r matches FileError::Other(m) && m@ == match kind {
            IoKind::NotFound => "no such file or directory"@,
            IoKind::PermissionDenied => "permission denied"@,
            IoKind::Other => message@,
        },
{
    FileError::Other(
        match kind {
            IoKind::NotFound => String::from_str("no such file or directory"),
            IoKind::PermissionDenied => String::from_str("permission denied"),
            IoKind::Other => String::from_str(message),
        },
    )
}

// ---------------------------------------------------------------------------
// Remote directories
// ---------------------------------------------------------------------------

/// The script that lists a directory: a row for every entry, dotfiles included,
/// with the name last because it may hold anything, a tab too. A row that is no
/// entry closes the listing, so that trimming the output cuts nothing off a name.
pub open spec fn listing_script(dir: Seq<char>) -> Seq<char> {
    let q = quoted(dir);
    "for f in "@ + q + "/* "@ + q + "/.[!.]* "@ + q
        + "/..?*; do\n[ -e \"$f\" ] || continue\nstat -c $'%F\\t%s\\t%Y\\t%A\\t%n' \"$f\" 2>/dev/null\ndone\nprintf 'DIR\\t%s\\n' "@
        + q + "\n"@
}

/// The directory to list and the script that lists it, for a request below a
/// root.
pub fn list_dir(path: &str, root: &str) -> (r: Result<(String, String), FileError>)
    ensures
        match (r, confined(path@, root@)) {
            (Ok((dir, script)), Ok(place)) => dir@ == place && script@ == listing_script(
                opened(place),
            ),
            (Err(FileError::Other(m)), Err(Refusal::Control)) => m@
                == "path contains control characters"@,
            (Err(FileError::Escape), Err(Refusal::Escape)) => true,
            _ => false,
        },
{
    let dir = match safe_path(path, root) {
        Ok(dir) => dir,
        Err(e) => {
            return Err(e);
        },
    };
    let target = to_open(dir.as_str());
    let q = quote(target.as_str());
    let mut s = String::from_str("for f in ");
    s.append(q.as_str());
    s.append("/* ");
    s.append(q.as_str());
    s.append("/.[!.]* ");
    s.append(q.as_str());
    s.append(
        "/..?*; do\n[ -e \"$f\" ] || continue\nstat -c $'%F\\t%s\\t%Y\\t%A\\t%n' \"$f\" 2>/dev/null\ndone\nprintf 'DIR\\t%s\\n' ",
    );
    s.append(q.as_str());
    s.append("\n");
    Ok((dir, s))
}

/// The last part of a path, or the whole path where it has one part only.
pub open spec fn base_name(path: Seq<char>) -> Seq<char> {
    match cut_last(trim_end_of(path, seq!['/']), '/') {
        Some((_, n)) => n,
        None => path,
    }
}

/// The entry that a row of the script's output names, if it names one. Such a row
/// is five fields with tabs between them; further tabs belong to the name.
pub open spec fn row_of(line: Seq<char>) -> Option<EntryView> {
    let f = split_n(line, '\t', 5);
    if f.len() < 5 || is_nameless(base_name(f[4])) {
        None
    } else {
        Some(
            EntryView {
                name: base_name(f[4]),
                path: f[4],
                is_dir: trimmed(f[0]) == "directory"@,
                size: match parse_unsigned(trimmed(f[1]), u64::MAX as nat) {
                    Some(n) => n as u64,
                    None => 0,
                },
                modified: trimmed(f[2]),
                mode: trimmed(f[3]),
            },
        )
    }
}

/// The entries that rows of the script's output name.
pub open spec fn rows_entries(rows: Seq<Seq<char>>) -> Seq<EntryView>
    decreases rows.len(),
{
    if rows.len() == 0 {
        seq![]
    } else {
        let before = rows_entries(rows.drop_last());
        match row_of(rows.last()) {
            Some(e) => before.push(e),
            None => before,
        }
    }
}

/// Reads the output of the listing script: the directory's entries as they are
/// shown.
pub fn read_listing(raw: &str) -> (r: Vec<FileEntry>)
    ensures
        entry_views(r@) == shown(rows_entries(lines(raw@))),
{
    let rows = split_lines(raw);
    let ghost rv = views(rows@);
    let mut out: Vec<FileEntry> = Vec::new();
    let mut i: usize = 0;
    assert(entry_views(out@) =~= rows_entries(rv.take(0)));
    while i < rows.len()
        invariant
            i <= rows@.len(),
            rv == views(rows@),
            entry_views(out@) == rows_entries(rv.take(i as int)),
        decreases rows.len() - i,
    {
        let ghost before = entry_views(out@);
        let f = split_up_to(rows[i].as_str(), '\t', 5);
        let ghost fv = views(f@);
        proof {
            assert(rv.take(i + 1).drop_last() =~= rv.take(i as int));
            assert(rv.take(i + 1).last() == rows@[i as int]@);
            assert(fv == split_n(rows@[i as int]@, '\t', 5));
        }
        if f.len() >= 5 {
            assert(fv[0] == f@[0]@ && fv[1] == f@[1]@ && fv[2] == f@[2]@ && fv[3] == f@[3]@ && fv[4]
                == f@[4]@);
            proof {
                reveal_strlit("/");
                assert("/"@ =~= seq!['/']);
            }
            let stem = trim_end_set(f[4].as_str(), "/");
            let base = match rsplit_once(stem.as_str(), '/') {
                Some((_, n)) => n,
                None => f[4].clone(),
            };
            if !nameless(base.as_str()) {
                let kind = trim(f[0].as_str());
                let size_text = trim(f[1].as_str());
                let size: u64 = match parse_u64(size_text.as_str()) {
                    Some(n) => n,
                    None => 0,
                };
                let e = FileEntry {
                    path: f[4].clone(),
                    name: base,
                    is_dir: same(kind.as_str(), "directory"),
                    size,
                    modified: trim(f[2].as_str()),
                    mode: trim(f[3].as_str()),
                };
                assert(row_of(rows@[i as int]@) == Some(e@));
                out.push(e);
                assert(entry_views(out@) =~= before.push(e@));
            }
        }
        i = i + 1;
    }
    assert(rv.take(i as int) =~= rv);
    arrange(out)
}

// ---------------------------------------------------------------------------
// Previews
// ---------------------------------------------------------------------------

/// What is said of a file that is too large to show.
pub open spec fn too_large(max_bytes: u64) -> Seq<char> {
    "file is larger than the "@ + decimal((max_bytes / 1024) as nat) + " KB preview limit"@
}

/// The error for a file that is too large to show.
fn over_limit(max_bytes: u64) -> (r: FileError)
    ensures
        r matches FileError::Other(m) && m@ == too_large(max_bytes),
{
    let kb = to_decimal((max_bytes / 1024) as u128);
    FileError::Other(concat3("file is larger than the ", kb.as_str(), " KB preview limit"))
}

/// May a local file be read, given what the filesystem says of it?
pub fn read_file_local(is_dir: bool, len: u64, max_bytes: u64) -> (r: Result<(), FileError>)
    ensures
        match r {
            Ok(()) => !is_dir && len <= max_bytes,
            Err(FileError::Other(m)) => {
                ||| is_dir && m@ == "that is a directory"@
                ||| !is_dir && len > max_bytes && m@ == too_large(max_bytes)
            },
            Err(_) => false,
        },
{
    if is_dir {
        return Err(FileError::Other(String::from_str("that is a directory")));
    }
    if len > max_bytes {
        return Err(over_limit(max_bytes));
    }
    Ok(())
}

/// The script that reads a file: no more than one byte beyond the limit, which
/// is enough to tell that there is more.
pub open spec fn reading_script(file: Seq<char>, max_bytes: u64) -> Seq<char> {
    "head -c "@ + decimal((max_bytes + 1) as nat) + " "@ + quoted(file)
}

/// The script that reads a file, for a request below a root.
pub fn read_file(path: &str, root: &str, max_bytes: u64) -> (r: Result<String, FileError>)
    requires
        max_bytes < u64::MAX,
    ensures
        match (r, confined(path@, root@)) {
            (Ok(script), Ok(place)) => script@ == reading_script(opened(place), max_bytes),
            (Err(FileError::Other(m)), Err(Refusal::Control)) => m@
                == "path contains control characters"@,
            (Err(FileError::Escape), Err(Refusal::Escape)) => true,
            _ => false,
        },
{
    let file = match safe_path(path, root) {
        Ok(file) => file,
        Err(e) => {
            return Err(e);
        },
    };
    let count = to_decimal((max_bytes + 1) as u128);
    let target = to_open(file.as_str());
    let q = quote(target.as_str());
    let mut s = concat3("head -c ", count.as_str(), " ");
    s.append(q.as_str());
    Ok(s)
}

/// What came of reading a file: its text, unless there is more of it than the
/// limit allows. Bytes that are no text are replaced; text is kept as it is.
pub open spec fn is_preview(
    r: Result<String, FileError>,
    bytes: Seq<u8>,
    max_bytes: u64,
) -> bool {
    match r {
        Ok(s) => {
            &&& bytes.len() <= max_bytes
            &&& s@ == lossy_text(bytes)
            &&& forall|text: Seq<char>| #[trigger] encode_utf8(text) == bytes ==> s@ == text
        },
        Err(FileError::Other(m)) => bytes.len() > max_bytes && m@ == too_large(max_bytes),
        Err(_) => false,
    }
}

/// What was read of a file, unless it is over the limit.
pub fn preview(bytes: &Vec<u8>, max_bytes: u64) -> (r: Result<String, FileError>)
    ensures
        is_preview(r, bytes@, max_bytes),
{
    if bytes.len() as u64 > max_bytes {
        Err(over_limit(max_bytes))
    } else {
        let s = lossy(bytes);
        proof {
            assert forall|text: Seq<char>| #[trigger] encode_utf8(text) == bytes@ implies s@
                == text by {
                encode_utf8_valid_utf8(text);
                encode_utf8_decode_utf8(text);
                encode_utf8_decode_utf8(s@);
            }
        }
        Ok(s)
    }
}

/// What came of the `ssh` call that reads a file with [`read_file`]'s script.
pub fn read_outcome(
    done: Option<Result<Finished, String>>,
    limit: Limit,
    max_bytes: u64,
) -> (r: Result<String, FileError>)
    ensures
        match (done, r) {
            (Some(Ok(d)), r) => if d.success {
                is_preview(r, d.stdout@, max_bytes)
            } else {
                r matches Err(FileError::Exec(ExecError::Failed(m))) && m@ == failure_text(
                    d.status@,
                    lossy_text(d.stderr@),
                    "ssh exited with "@,
                    300,
                )
            },
            (Some(Err(e)), r) => r == Err::<String, FileError>(
                FileError::Exec(ExecError::Io(e)),
            ),
            (None, r) => r == Err::<String, FileError>(FileError::Exec(ExecError::Timeout(limit))),
        },
{
    match ssh_output(done, limit) {
        Ok(bytes) => preview(&bytes, max_bytes),
        Err(e) => Err(FileError::Exec(e)),
    }
}

/// The bytes that the reading script prints of a file tell whether the file is
/// within the limit, and are all of it where it is.
pub proof fn a_preview_is_the_whole_file(file: Seq<u8>, max_bytes: u64)
    ensures
        first(file, max_bytes + 1).len() > max_bytes <==> file.len() > max_bytes,
        file.len() <= max_bytes ==> first(file, max_bytes + 1) == file,
{
}

// ---------------------------------------------------------------------------
// Laws of the entries
// ---------------------------------------------------------------------------

/// The first items are the beginning of the list, as long as was asked for and as
/// there are items.
pub proof fn the_first_items_are_the_beginning<T>(s: Seq<T>, n: int, i: int)
    requires
        n >= 0,
    ensures
        first(s, n).len() == if s.len() < n {
            s.len() as int
        } else {
            n
        },
        0 <= i < first(s, n).len() ==> first(s, n)[i] == s[i],
{
}

/// A listing of any length shows five hundred entries, or all where there are
/// fewer, and nothing but entries.
pub proof fn a_listing_shows_entries_alone(entries: Seq<EntryView>, i: int)
    requires
        0 <= i < shown(entries).len(),
    ensures
        shown(entries).len() == if entries.len() < 500 {
            entries.len() as int
        } else {
            500
        },
        entries.contains(shown(entries)[i]),
{
    let keys = keys_with(entries, lowered_names(entries));
    let all = arranged(entries, keys);
    arranged_is_a_permutation(entries, keys);
    all.to_multiset_ensures();
    entries.to_multiset_ensures();
    assert(all.contains(all[i]));
    assert(all.to_multiset().count(all[i]) > 0);
    assert(entries.to_multiset().count(all[i]) > 0);
}

/// Entries are ordered by whether they are directories, which come first, and
/// then by the lower-case form of their names that is given.
pub proof fn the_keys_of_entries(entries: Seq<EntryView>, lowered: Seq<Seq<char>>, i: int)
    requires
        0 <= i < entries.len(),
    ensures
        keys_with(entries, lowered).len() == entries.len(),
        entries[i].is_dir ==> keys_with(entries, lowered)[i] == (false, lowered[i]),
        !entries[i].is_dir ==> keys_with(entries, lowered)[i] == (true, lowered[i]),
{
}

/// The empty name, `.` and `..` are no entries; every other name is one.
pub proof fn the_names_that_are_no_entries(name: Seq<char>)
    ensures
        is_nameless(name) <==> name == Seq::<char>::empty() || name == seq!['.'] || name == seq![
            '.',
            '.',
        ],
{
    reveal_strlit(".");
    reveal_strlit("..");
    assert("."@ =~= seq!['.']);
    assert(".."@ =~= seq!['.', '.']);
    assert(name.len() == 0 ==> name =~= Seq::<char>::empty());
}

/// An entry of a local directory is what the filesystem says of it: its name, the
/// path below the directory, whether it is a directory, the length of a file, the
/// time of its last change in seconds, and its mode.
pub proof fn a_local_entry_is_what_the_filesystem_says(dir: Seq<char>, row: LocalRow)
    ensures
        ({
            let e = local_entry(dir, row);
            &&& e.name == row.name@
            &&& e.path == joined_path(dir, row.name@)
            &&& e.is_dir == row.is_dir
            &&& row.is_dir ==> e.size == 0
            &&& !row.is_dir ==> e.size == row.len
            &&& row.modified is None ==> e.modified.len() == 0
            &&& row.modified matches Some(t) ==> parse_unsigned(e.modified, u64::MAX as nat) == Some(
                t as nat,
            )
            &&& e.mode == row.mode@
        }),
{
    if let Some(t) = row.modified {
        decimal_reads_back(t as nat, u64::MAX as nat);
    }
}

/// Every row of a local directory that is an entry is listed, in its order.
pub proof fn every_local_row_is_listed(dir: Seq<char>, rows: Seq<LocalRow>, row: LocalRow)
    ensures
        is_nameless(row.name@) ==> local_entries(dir, rows.push(row)) == local_entries(dir, rows),
        !is_nameless(row.name@) ==> local_entries(dir, rows.push(row)) == local_entries(
            dir,
            rows,
        ).push(local_entry(dir, row)),
        local_entries(dir, seq![]).len() == 0,
{
    assert(rows.push(row).drop_last() =~= rows);
}

/// The bits of the lowest octal digit.
proof fn lemma_octal_digit(c: int)
    requires
        c >= 0,
    ensures
        c % 8 / 4 == c / 4 % 2,
        c % 8 / 2 % 2 == c / 2 % 2,
        c % 8 % 2 == c % 2,
{
    let q = c / 8;
    let d = c % 8;
    assert(c == 8 * q + d);
    assert(c / 4 == 2 * q + d / 4);
    assert(c / 2 == 4 * q + d / 2);
}

/// Bits of the higher octal digits.
proof fn lemma_shifts(b: int)
    requires
        b >= 0,
    ensures
        b / 64 / 4 == b / 256,
        b / 64 / 2 == b / 128,
        b / 8 / 4 == b / 32,
        b / 8 / 2 == b / 16,
        b / 1 == b,
{
}

/// A mode is read like its octal digits: the third lowest is the owner's, the
/// second the group's, the lowest that of all others, and of each digit the four
/// stands for reading, the two for writing and the one for running.
pub proof fn a_mode_reads_like_its_octal_digits(is_dir: bool, bits: u32, who: int)
    requires
        0 <= who < 3,
    ensures
        ({
            let b = bits as int;
            let digit = if who == 0 {
                b / 64 % 8
            } else if who == 1 {
                b / 8 % 8
            } else {
                b % 8
            };
            let m = mode_text(is_dir, bits);
            &&& m.len() == 10
            &&& m[0] == if is_dir {
                'd'
            } else {
                '-'
            }
            &&& m[1 + 3 * who] == if digit / 4 == 1 {
                'r'
            } else {
                '-'
            }
            &&& m[2 + 3 * who] == if digit / 2 % 2 == 1 {
                'w'
            } else {
                '-'
            }
            &&& m[3 + 3 * who] == if digit % 2 == 1 {
                'x'
            } else {
                '-'
            }
        }),
{
    let b = bits as int;
    lemma_octal_digit(b / 64);
    lemma_octal_digit(b / 8);
    lemma_octal_digit(b);
    lemma_shifts(b);
}

/// Entries mean what they hold, in their order.
pub proof fn entries_mean_what_they_hold(v: Seq<FileEntry>, i: int)
    requires
        0 <= i < v.len(),
    ensures
        entry_views(v).len() == v.len(),
        entry_views(v)[i].name == v[i].name@ && entry_views(v)[i].path == v[i].path@,
        entry_views(v)[i].is_dir == v[i].is_dir && entry_views(v)[i].size == v[i].size,
        entry_views(v)[i].modified == v[i].modified@ && entry_views(v)[i].mode == v[i].mode@,
{
}

// ---------------------------------------------------------------------------
// Laws of the scripts and what they print
// ---------------------------------------------------------------------------

/// The listing script names the directory four times, as one word that the shell
/// reads as the directory: for the plain names, for the dotfiles, for names that
/// start with two dots, and in the row that closes the listing. It prints the
/// kind, the size, the time, the mode and the name of every entry, in the order in
/// which a row is read.
pub proof fn the_listing_script_names_the_directory(dir: Seq<char>) -> (word: Seq<char>)
    ensures
        word_value(word, false) == Some(dir),
        listing_script(dir) == "for f in "@ + word + "/* "@ + word + "/.[!.]* "@ + word
            + "/..?*; do\n[ -e \"$f\" ] || continue\nstat -c $'%F\\t%s\\t%Y\\t%A\\t%n' \"$f\" 2>/dev/null\ndone\nprintf 'DIR\\t%s\\n' "@
            + word + "\n"@,
{
    quoting_keeps_the_value(dir);
    quoted(dir)
}

/// The reading script asks for one byte more than may be shown, of the file that
/// the shell reads its last word as.
pub proof fn the_reading_script_names_the_file(file: Seq<char>, max_bytes: u64) -> (r: (
    Seq<char>,
    Seq<char>,
))
    requires
        max_bytes < u64::MAX,
    ensures
        parse_unsigned(r.0, u64::MAX as nat) == Some((max_bytes + 1) as nat),
        word_value(r.1, false) == Some(file),
        reading_script(file, max_bytes) == "head -c "@ + r.0 + " "@ + r.1,
{
    quoting_keeps_the_value(file);
    decimal_reads_back((max_bytes + 1) as nat, u64::MAX as nat);
    (decimal((max_bytes + 1) as nat), quoted(file))
}

/// The last part of a path is its name, and slashes behind it do not count.
pub proof fn the_name_is_the_last_part(dir: Seq<char>, name: Seq<char>)
    requires
        name.len() > 0,
        !name.contains('/'),
    ensures
        base_name(dir + seq!['/'] + name) == name,
        base_name(dir + seq!['/'] + name + seq!['/']) == name,
        base_name(name) == name,
{
    let p = dir + seq!['/'] + name;
    let set = seq!['/'];
    assert(name.contains(name.last()));
    assert(p.last() == name.last());
    assert forall|c: char| set.contains(c) implies c == '/' by {}
    assert(trim_end_of(p, set) == p);
    assert((p + seq!['/']).drop_last() =~= p);
    assert((p + seq!['/']).last() == '/');
    assert(set[0] == '/');
    assert(set.contains('/'));
    assert(trim_end_of(p + seq!['/'], set) == p);
    assert(trim_end_of(name, set) == name);
    the_last_separator_cuts(dir, '/', name);
}

/// A row of the script's output is read field by field: the kind, the size, the
/// time, the mode and the path, which may itself hold tabs. The entry is named by
/// the last part of the path.
pub proof fn a_listing_row_is_read_field_by_field(
    kind: Seq<char>,
    size: u64,
    time: Seq<char>,
    mode: Seq<char>,
    path: Seq<char>,
)
    requires
        !kind.contains('\t') && trimmed(kind) == kind,
        !time.contains('\t') && trimmed(time) == time,
        !mode.contains('\t') && trimmed(mode) == mode,
    ensures
        ({
            let row = kind + seq!['\t'] + (decimal(size as nat) + seq!['\t'] + (time + seq!['\t'] + (
            mode + seq!['\t'] + path)));
            match row_of(row) {
                Some(e) => {
                    &&& !is_nameless(base_name(path))
                    &&& e.name == base_name(path)
                    &&& e.path == path
                    &&& e.is_dir <==> kind == "directory"@
                    &&& e.size == size
                    &&& e.modified == time
                    &&& e.mode == mode
                },
                None => is_nameless(base_name(path)),
            }
        }),
{
    let n = decimal(size as nat);
    lemma_decimal(size as nat);
    assert(crate::text::is_digit(n[0]) && crate::text::is_digit(n.last()));
    a_tidy_text_is_kept(n);
    if n.contains('\t') {
        let i = choose|i: int| 0 <= i < n.len() && n[i] == '\t';
        assert(crate::text::is_digit(n[i]));
    }
    decimal_reads_back(size as nat, u64::MAX as nat);
    let d = mode + seq!['\t'] + path;
    let c = time + seq!['\t'] + d;
    let b = n + seq!['\t'] + c;
    let row = kind + seq!['\t'] + b;
    the_first_separators_cut(kind, '\t', b, 5);
    the_first_separators_cut(n, '\t', c, 4);
    the_first_separators_cut(time, '\t', d, 3);
    the_first_separators_cut(mode, '\t', path, 2);
    let f = split_n(row, '\t', 5);
    assert(f.len() == 5);
    assert(f[0] == kind && f[1] == n && f[2] == time && f[3] == mode && f[4] == path);
}

/// A size that is no number counts as none.
pub proof fn an_unreadable_size_is_none(row: Seq<char>)
    requires
        split_n(row, '\t', 5).len() == 5,
        parse_unsigned(trimmed(split_n(row, '\t', 5)[1]), u64::MAX as nat) is None,
    ensures
        row_of(row) matches Some(e) ==> e.size == 0,
{
}

/// A row with fewer than five fields, such as the one that closes the listing,
/// names no entry. Every row that names one is listed, in its order.
pub proof fn every_listing_row_is_listed(rows: Seq<Seq<char>>, row: Seq<char>)
    ensures
        split_n(row, '\t', 5).len() < 5 ==> row_of(row) is None,
        row_of(row) matches Some(e) ==> rows_entries(rows.push(row)) == rows_entries(rows).push(e),
        row_of(row) is None ==> rows_entries(rows.push(row)) == rows_entries(rows),
        rows_entries(seq![]).len() == 0,
{
    assert(rows.push(row).drop_last() =~= rows);
}

/// A file that is too large is refused with the limit in whole kibibytes.
pub proof fn the_limit_is_told_in_kibibytes(max_bytes: u64) -> (n: Seq<char>)
    ensures
        too_large(max_bytes) == "file is larger than the "@ + n + " KB preview limit"@,
        parse_unsigned(n, u64::MAX as nat) matches Some(k) && k * 1024 <= max_bytes < (k + 1)
            * 1024,
{
    decimal_reads_back((max_bytes / 1024) as nat, u64::MAX as nat);
    decimal((max_bytes / 1024) as nat)
}

/// A file is shown where it is within the limit, and only there.
pub proof fn a_preview_keeps_the_limit(
    r: Result<String, FileError>,
    bytes: Seq<u8>,
    max_bytes: u64,
)
    requires
        is_preview(r, bytes, max_bytes),
    ensures
        r is Ok <==> bytes.len() <= max_bytes,
        r matches Ok(s) ==> s@ == lossy_text(bytes),
        r matches Err(e) ==> e.reads() == too_large(max_bytes),
{
}

} // verus!
