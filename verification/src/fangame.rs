//! Recognising an RPG Maker fangame folder: which files are there, its title
//! from `Game.ini`, and what can be done with it.
use vstd::prelude::*;
use vstd::utf8::{decode_utf8, valid_utf8};

use crate::rgssad::RgssadError;
use crate::text::{
    after_first_line, chars_of, concat, contains_part, decimal, decimal_spec, ends_with,
    first_line, has_part, has_prefix, has_suffix, index_of, lemma_after_first_line_shorter,
    lemma_index_of_at, list_debug, list_debug_string, lowercase_chars, next_line,
    owned, remove_char, remove_char_spec, starts_with, str_lowercase, string_of, strings_view,
    strip_leading, strip_leading_spec, trim, trim_spec, utf16_lossy, utf16_lossy_decode,
    utf8_decode,
};

verus! {

/// What the detection found (sent to the GUI as JSON by the app).
pub struct FangameDetectResult {
    pub root: String,
    pub game_exe: Option<String>,
    pub game_exe_size: u64,
    pub game_title: Option<String>,
    pub has_data_dir: bool,
    pub data_dir: Option<String>,
    pub scripts_rxdata: Option<String>,
    pub game_rgssad: Option<String>,
    pub mode: String,
    pub ok: bool,
    pub message: String,
    pub cancelled: bool,
}

/// The identity of a game: its title and the size of its `Game.exe`.
pub struct FangameFingerprint {
    pub title: String,
    pub exe_size: u64,
}

/// One entry of a directory listing.
pub struct FsEntry {
    /// The file name, when it is valid UTF-8.
    pub name: Option<String>,
    /// The entry's full path, as displayed.
    pub display: String,
    pub is_file: bool,
    pub is_dir: bool,
}

/// What the file system says about the path given for a game.
pub struct InputProbe {
    pub exists: bool,
    pub is_file: bool,
    /// The file name, when there is one and it is valid UTF-8.
    pub file_name: Option<String>,
    /// The path (trimmed), as displayed.
    pub display: String,
    /// The parent directory, as displayed, when the path has one.
    pub parent_display: Option<String>,
}

/// Everything detection reads from the file system: the input, the listing of
/// the game's root folder (empty when it cannot be read), and about the
/// entries chosen in it by this module: the size of `Game.exe` (0 when it
/// cannot be read), the bytes of `Game.ini`, whether the `Data` folder is a
/// folder, and its listing.
pub struct FangameScan {
    pub input: InputProbe,
    pub root_entries: Vec<FsEntry>,
    pub exe_size: u64,
    pub ini_bytes: Option<Vec<u8>>,
    pub data_is_dir: bool,
    pub data_entries: Vec<FsEntry>,
}

pub open spec fn opt_view(o: Option<String>) -> Option<Seq<char>> {
    match o {
        Some(s) => Some(s@),
        None => None,
    }
}

pub fn clone_opt(o: &Option<String>) -> (r: Option<String>)
    ensures
        opt_view(r) == opt_view(*o),
{
    match o {
        Some(s) => Some(s.clone()),
        None => None,
    }
}

// ------------------------------------------------------------------
// Case-insensitive lookup in a listing
// ------------------------------------------------------------------

/// The entry is a file (or a folder) whose name equals `target` once both are
/// lower-cased.
pub open spec fn entry_matches(e: FsEntry, target: Seq<char>, want_dir: bool) -> bool {
    &&& if want_dir {
        e.is_dir
    } else {
        e.is_file
    }
    &&& e.name is Some
    &&& str_lowercase(e.name->0@) == str_lowercase(target)
}

/// The first matching entry of a listing (`find_in_dir_ci`, `find_dir_ci`).
pub open spec fn find_entry(entries: Seq<FsEntry>, target: Seq<char>, want_dir: bool) -> Option<int>
    decreases entries.len(),
{
    if entries.len() == 0 {
        None
    } else if entry_matches(entries[0], target, want_dir) {
        Some(0)
    } else {
        match find_entry(entries.drop_first(), target, want_dir) {
            Some(i) => Some(i + 1),
            None => None,
        }
    }
}

proof fn lemma_find_entry_at(entries: Seq<FsEntry>, target: Seq<char>, want_dir: bool, m: int)
    requires
        0 <= m <= entries.len(),
        forall|j: int| 0 <= j < m ==> !entry_matches(#[trigger] entries[j], target, want_dir),
        m < entries.len() ==> entry_matches(entries[m], target, want_dir),
    ensures
        find_entry(entries, target, want_dir) == if m < entries.len() {
            Some(m)
        } else {
            None::<int>
        },
    decreases entries.len(),
{
    if entries.len() > 0 && m > 0 {
        assert(!entry_matches(entries[0], target, want_dir));
        assert forall|j: int| 0 <= j < m - 1 implies !entry_matches(
            #[trigger] entries.drop_first()[j],
            target,
            want_dir,
        ) by {
            assert(entries.drop_first()[j] == entries[j + 1]);
        }
        lemma_find_entry_at(entries.drop_first(), target, want_dir, m - 1);
    }
}

/// The first entry that is a file (or a folder) named `name`, case ignored.
pub fn find_entry_ci(entries: &Vec<FsEntry>, name: &str, want_dir: bool) -> (r: Option<usize>)
    ensures
        r matches Some(i) ==> find_entry(entries@, name@, want_dir) == Some(i as int) && i
            < entries.len(),
        r is None ==> find_entry(entries@, name@, want_dir) is None,
{
    let target = lowercase_chars(&chars_of(name));
    let mut i: usize = 0;
    while i < entries.len()
        invariant
            i <= entries@.len(),
            target@ == str_lowercase(name@),
            forall|j: int| 0 <= j < i ==> !entry_matches(#[trigger] entries@[j], name@, want_dir),
        decreases entries@.len() - i,
    {
        let e = &entries[i];
        let kind_ok = if want_dir {
            e.is_dir
        } else {
            e.is_file
        };
        if kind_ok {
            match &e.name {
                Some(n) => {
                    let lower = lowercase_chars(&chars_of(n.as_str()));
                    if lower.len() == target.len() && starts_with(&lower, &target) {
                        proof {
                            assert(lower@.take(target@.len() as int) =~= lower@);
                            lemma_find_entry_at(entries@, name@, want_dir, i as int);
                        }
                        return Some(i);
                    }
                    proof {
                        if lower@ == target@ {
                            assert(lower@.take(target@.len() as int) =~= lower@);
                        }
                    }
                },
                None => {},
            }
        }
        i += 1;
    }
    proof {
        lemma_find_entry_at(entries@, name@, want_dir, entries@.len() as int);
    }
    None
}

// ------------------------------------------------------------------
// The title in Game.ini
// ------------------------------------------------------------------

/// What one line of `Game.ini` says about the title.
pub ghost enum TitleLine {
    /// `title=` with a non-empty value.
    Found(Seq<char>),
    /// Not a title line, or an empty title.
    Skip,
    /// A line whose lower-cased form starts with `title=` but that holds no `=`:
    /// the search ends with no title.
    Abort,
}

/// One line: trimmed, leading byte-order marks removed; a line starting with
/// `title=` (case ignored) gives what follows the first `=`, trimmed, with
/// U+FFFD removed.
pub open spec fn title_line(line: Seq<char>) -> TitleLine {
    let l = strip_leading_spec(trim_spec(line), '\u{feff}');
    if has_prefix(str_lowercase(l), "title="@) {
        let i = index_of(l, '=');
        if i < 0 {
            TitleLine::Abort
        } else {
            let t = remove_char_spec(trim_spec(l.skip(i + 1)), '\u{fffd}');
            if t.len() > 0 {
                TitleLine::Found(t)
            } else {
                TitleLine::Skip
            }
        }
    } else {
        TitleLine::Skip
    }
}

/// `parse_title_from_ini_text`: the first title line's value.
pub open spec fn title_in_text(s: Seq<char>) -> Option<Seq<char>>
    decreases s.len(),
{
    if s.len() == 0 {
        None
    } else {
        proof {
            lemma_after_first_line_shorter(s);
        }
        match title_line(first_line(s)) {
            TitleLine::Found(t) => Some(t),
            TitleLine::Abort => None,
            TitleLine::Skip => title_in_text(after_first_line(s)),
        }
    }
}

fn title_of_line(line: &Vec<char>) -> (r: (bool, Option<Vec<char>>))
    ensures
        r.0 <==> title_line(line@) is Abort,
        r.1 matches Some(t) ==> title_line(line@) == TitleLine::Found(t@),
        r.1 is None && !r.0 ==> title_line(line@) is Skip,
        r.0 ==> r.1 is None,
{
    let t = trim(line);
    let l = strip_leading(&t, '\u{feff}');
    let lower = lowercase_chars(&l);
    let key = chars_of("title=");
    if !starts_with(&lower, &key) {
        return (false, None);
    }
    let mut i: usize = 0;
    while i < l.len() && l[i] != '='
        invariant
            i <= l@.len(),
            forall|j: int| 0 <= j < i ==> l@[j] != '=',
        decreases l@.len() - i,
    {
        i += 1;
    }
    proof {
        lemma_index_of_at(l@, '=', i as int);
    }
    if i == l.len() {
        return (true, None);
    }
    let rest = crate::text::copy_range(&l, i + 1, l.len());
    proof {
        assert(rest@ =~= l@.skip(i + 1));
    }
    let v = remove_char(&trim(&rest), '\u{fffd}');
    if v.len() > 0 {
        (false, Some(v))
    } else {
        (false, None)
    }
}

/// `parse_title_from_ini_text`.
pub fn parse_title_from_ini_text(text: &Vec<char>) -> (r: Option<Vec<char>>)
    ensures
        match r {
            Some(t) => title_in_text(text@) == Some(t@),
            None => title_in_text(text@) is None,
        },
{
    let n = text.len();
    let mut pos: usize = 0;
    proof {
        assert(text@.skip(0) =~= text@);
    }
    while pos < n
        invariant
            pos <= n == text.len(),
            title_in_text(text@) == title_in_text(text@.skip(pos as int)),
        decreases n - pos,
    {
        let (line, next) = next_line(text, pos);
        let (abort, found) = title_of_line(&line);
        if abort {
            return None;
        }
        match found {
            Some(t) => {
                return Some(t);
            },
            None => {},
        }
        pos = next;
    }
    proof {
        assert(text@.skip(n as int) =~= Seq::<char>::empty());
    }
    None
}

/// Bytes read as Latin-1: each byte is the character with that code
/// (`char::from(u8)`).
pub open spec fn western(b: Seq<u8>) -> Seq<char> {
    Seq::new(b.len(), |i: int| b[i] as char)
}

pub fn from_western(bytes: &[u8]) -> (r: Vec<char>)
    ensures
        r@ == western(bytes@),
{
    let mut r: Vec<char> = Vec::new();
    let mut i: usize = 0;
    while i < bytes.len()
        invariant
            i <= bytes@.len(),
            r@ == western(bytes@.take(i as int)),
        decreases bytes@.len() - i,
    {
        r.push(bytes[i] as char);
        proof {
            assert(r@ =~= western(bytes@.take(i + 1)));
        }
        i += 1;
    }
    proof {
        assert(bytes@.take(bytes@.len() as int) =~= bytes@);
    }
    r
}

/// UTF-16 code units from byte pairs, little-endian (`u16::from_le_bytes` over
/// `chunks_exact(2)`; an odd last byte is left out).
pub open spec fn le_units(b: Seq<u8>) -> Seq<u16> {
    Seq::new(b.len() / 2, |i: int| (b[2 * i] as nat + b[2 * i + 1] as nat * 256) as u16)
}

/// The same, big-endian.
pub open spec fn be_units(b: Seq<u8>) -> Seq<u16> {
    Seq::new(b.len() / 2, |i: int| (b[2 * i] as nat * 256 + b[2 * i + 1] as nat) as u16)
}

fn units_of(b: &[u8], start: usize, little: bool) -> (r: Vec<u16>)
    requires
        start <= b@.len(),
    ensures
        little ==> r@ == le_units(b@.skip(start as int)),
        !little ==> r@ == be_units(b@.skip(start as int)),
{
    let ghost s = b@.skip(start as int);
    let blen = b.len();
    let count = (blen - start) / 2;
    let mut r: Vec<u16> = Vec::new();
    let mut i: usize = 0;
    while i < count
        invariant
            s == b@.skip(start as int),
            s.len() == b@.len() - start,
            blen == b@.len(),
            count == s.len() / 2,
            start <= b@.len(),
            i <= count,
            little ==> r@ == le_units(s).take(i as int),
            !little ==> r@ == be_units(s).take(i as int),
        decreases count - i,
    {
        proof {
            assert(2 * i + 1 < s.len()) by (nonlinear_arith)
                requires
                    i < count,
                    count == s.len() / 2,
            ;
            assert(start + 2 * i + 1 < b@.len());
        }
        let x = b[start + 2 * i];
        let y = b[start + 2 * i + 1];
        let u: u16 = if little {
            x as u16 + (y as u16) * 256
        } else {
            (x as u16) * 256 + y as u16
        };
        r.push(u);
        proof {
            assert(s[2 * i as int] == x && s[2 * i + 1] == y);
            if little {
                assert(r@ =~= le_units(s).take(i + 1));
            } else {
                assert(r@ =~= be_units(s).take(i + 1));
            }
        }
        i += 1;
    }
    proof {
        assert(le_units(s).take(count as int) =~= le_units(s));
        assert(be_units(s).take(count as int) =~= be_units(s));
    }
    r
}

/// How many bytes are 0.
pub open spec fn zero_count(b: Seq<u8>) -> nat
    decreases b.len(),
{
    if b.len() == 0 {
        0
    } else {
        zero_count(b.drop_last()) + if b.last() == 0 {
            1nat
        } else {
            0nat
        }
    }
}

fn count_zeros(b: &[u8]) -> (r: usize)
    ensures
        r == zero_count(b@),
{
    let mut n: usize = 0;
    let mut i: usize = 0;
    while i < b.len()
        invariant
            i <= b@.len(),
            n == zero_count(b@.take(i as int)),
            n <= i,
        decreases b@.len() - i,
    {
        proof {
            assert(b@.take(i + 1).drop_last() =~= b@.take(i as int));
        }
        if b[i] == 0 {
            n += 1;
        }
        i += 1;
    }
    proof {
        assert(b@.take(b@.len() as int) =~= b@);
    }
    n
}

/// The title `read_game_ini_title` finds in `Game.ini`'s bytes: tried as
/// UTF-16 after a little-endian mark, after a big-endian mark, as little-endian
/// UTF-16 when more than a quarter of the bytes are 0, as UTF-8 (a title with
/// U+FFFD does not count), and finally as Latin-1.
pub open spec fn ini_title(b: Seq<u8>) -> Option<Seq<char>> {
    if b.len() == 0 {
        None
    } else {
        let t1 = if b.len() >= 2 && b[0] == 0xFF && b[1] == 0xFE {
            title_in_text(utf16_lossy(le_units(b.skip(2))))
        } else {
            None
        };
        let t2 = if b.len() >= 2 && b[0] == 0xFE && b[1] == 0xFF {
            title_in_text(utf16_lossy(be_units(b.skip(2))))
        } else {
            None
        };
        let t3 = if zero_count(b) > b.len() / 4 {
            title_in_text(utf16_lossy(le_units(b)))
        } else {
            None
        };
        let t4 = if valid_utf8(b) {
            match title_in_text(decode_utf8(b)) {
                Some(t) => if t.contains('\u{fffd}') {
                    None
                } else {
                    Some(t)
                },
                None => None,
            }
        } else {
            None
        };
        if t1 is Some {
            t1
        } else if t2 is Some {
            t2
        } else if t3 is Some {
            t3
        } else if t4 is Some {
            t4
        } else {
            title_in_text(western(b))
        }
    }
}

/// Law: a `Game.ini` with no UTF-16 byte-order mark and at most a quarter of
/// its bytes 0, that is valid UTF-8 and whose text has a title free of U+FFFD,
/// gets the title read from its UTF-8 text (not from a Latin-1 reading).
pub proof fn lemma_utf8_ini_title(b: Seq<u8>, t: Seq<char>)
    requires
        !(b.len() >= 2 && b[0] == 0xFF && b[1] == 0xFE),
        !(b.len() >= 2 && b[0] == 0xFE && b[1] == 0xFF),
        zero_count(b) * 4 <= b.len(),
        valid_utf8(b),
        title_in_text(decode_utf8(b)) == Some(t),
        !t.contains('\u{fffd}'),
    ensures
        ini_title(b) == Some(t),
{
    if b.len() == 0 {
        assert(decode_utf8(b) == Seq::<char>::empty());
    }
    assert(!(zero_count(b) > b.len() / 4));
}

fn title_of_utf16(units: &Vec<u16>) -> (r: Option<Vec<char>>)
    ensures
        match r {
            Some(t) => title_in_text(utf16_lossy(units@)) == Some(t@),
            None => title_in_text(utf16_lossy(units@)) is None,
        },
{
    let text = utf16_lossy_decode(units.as_slice());
    parse_title_from_ini_text(&chars_of(text.as_str()))
}

fn has_char(s: &Vec<char>, c: char) -> (r: bool)
    ensures
        r == s@.contains(c),
{
    let mut i: usize = 0;
    while i < s.len()
        invariant
            i <= s@.len(),
            forall|j: int| 0 <= j < i ==> s@[j] != c,
        decreases s@.len() - i,
    {
        if s[i] == c {
            proof {
                assert(s@[i as int] == c);
            }
            return true;
        }
        i += 1;
    }
    false
}

/// `read_game_ini_title` once the file's bytes are read.
pub fn ini_title_of(bytes: &[u8]) -> (r: Option<String>)
    ensures
        opt_view(r) == ini_title(bytes@),
{
    if bytes.len() == 0 {
        return None;
    }
    if bytes.len() >= 2 && bytes[0] == 0xFF && bytes[1] == 0xFE {
        match title_of_utf16(&units_of(bytes, 2, true)) {
            Some(t) => {
                return Some(string_of(&t));
            },
            None => {},
        }
    }
    if bytes.len() >= 2 && bytes[0] == 0xFE && bytes[1] == 0xFF {
        match title_of_utf16(&units_of(bytes, 2, false)) {
            Some(t) => {
                return Some(string_of(&t));
            },
            None => {},
        }
    }
    let nulls = count_zeros(bytes);
    if nulls > bytes.len() / 4 {
        proof {
            assert(bytes@.skip(0) =~= bytes@);
        }
        match title_of_utf16(&units_of(bytes, 0, true)) {
            Some(t) => {
                return Some(string_of(&t));
            },
            None => {},
        }
    }
    match utf8_decode(bytes) {
        Some(text) => {
            match parse_title_from_ini_text(&chars_of(text.as_str())) {
                Some(t) => {
                    if !has_char(&t, '\u{fffd}') {
                        return Some(string_of(&t));
                    }
                },
                None => {},
            }
        },
        None => {},
    }
    match parse_title_from_ini_text(&from_western(bytes)) {
        Some(t) => Some(string_of(&t)),
        None => None,
    }
}

// ------------------------------------------------------------------
// Detection
// ------------------------------------------------------------------

/// The path given is unusable: blank, or nothing there.
pub open spec fn invalid_input(path: Seq<char>, scan: FangameScan) -> bool {
    trim_spec(path).len() == 0 || !scan.input.exists
}

/// The game's root folder: the folder given, or the parent of the file given
/// (the file itself when it has no parent).
pub open spec fn root_display(input: InputProbe) -> Seq<char> {
    if input.is_file {
        match input.parent_display {
            Some(p) => p@,
            None => input.display@,
        }
    } else {
        input.display@
    }
}

/// Whether the root folder to list is the parent of the path given.
pub fn root_is_parent(input: &InputProbe) -> (r: bool)
    ensures
        r == (input.is_file && input.parent_display is Some),
{
    input.is_file && input.parent_display.is_some()
}

pub open spec fn name_or_empty(o: Option<String>) -> Seq<char> {
    match o {
        Some(s) => s@,
        None => Seq::empty(),
    }
}

/// The game executable: the file given when its name ends with `.exe` (case
/// ignored), otherwise `Game.exe` in the folder given.
pub open spec fn exe_display(scan: FangameScan) -> Option<Seq<char>> {
    if scan.input.is_file {
        if has_suffix(str_lowercase(name_or_empty(scan.input.file_name)), ".exe"@) {
            Some(scan.input.display@)
        } else {
            None
        }
    } else {
        match find_entry(scan.root_entries@, "Game.exe"@, false) {
            Some(i) => Some(scan.root_entries@[i].display@),
            None => None,
        }
    }
}

/// Index in the root listing of the entry whose size is needed, when
/// `Game.exe` is looked up there.
pub fn exe_entry(scan_input: &InputProbe, root_entries: &Vec<FsEntry>) -> (r: Option<usize>)
    ensures
        scan_input.is_file ==> r is None,
        !scan_input.is_file ==> (match r {
            Some(i) => find_entry(root_entries@, "Game.exe"@, false) == Some(i as int),
            None => find_entry(root_entries@, "Game.exe"@, false) is None,
        }),
{
    if scan_input.is_file {
        None
    } else {
        find_entry_ci(root_entries, "Game.exe", false)
    }
}

/// Whether the file given is itself the executable.
pub fn input_is_exe(input: &InputProbe) -> (r: bool)
    ensures
        r == (input.is_file && has_suffix(str_lowercase(name_or_empty(input.file_name)), ".exe"@)),
{
    if !input.is_file {
        return false;
    }
    let name = match &input.file_name {
        Some(n) => chars_of(n.as_str()),
        None => Vec::new(),
    };
    proof {
        if input.file_name is None {
            assert(name@ =~= Seq::<char>::empty());
        }
    }
    let lower = lowercase_chars(&name);
    ends_with(&lower, &chars_of(".exe"))
}

pub open spec fn ini_of(scan: FangameScan) -> Option<Seq<char>> {
    match find_entry(scan.root_entries@, "Game.ini"@, false) {
        Some(_) => match scan.ini_bytes {
            Some(b) => ini_title(b@),
            None => None,
        },
        None => None,
    }
}

pub open spec fn data_index(scan: FangameScan) -> Option<int> {
    find_entry(scan.root_entries@, "Data"@, true)
}

pub open spec fn scripts_display(scan: FangameScan) -> Option<Seq<char>> {
    match data_index(scan) {
        Some(_) => match find_entry(scan.data_entries@, "Scripts.rxdata"@, false) {
            Some(j) => Some(scan.data_entries@[j].display@),
            None => None,
        },
        None => None,
    }
}

pub open spec fn rgssad_display(scan: FangameScan) -> Option<Seq<char>> {
    match find_entry(scan.root_entries@, "Game.rgssad"@, false) {
        Some(i) => Some(scan.root_entries@[i].display@),
        None => None,
    }
}

pub open spec fn has_data_spec(scan: FangameScan) -> bool {
    data_index(scan) is Some && scan.data_is_dir
}

fn entry_display(entries: &Vec<FsEntry>, found: Option<usize>) -> (r: Option<String>)
    requires
        found matches Some(i) ==> i < entries.len(),
    ensures
        match found {
            Some(i) => opt_view(r) == Some(entries@[i as int].display@),
            None => r is None,
        },
{
    match found {
        Some(i) => Some(entries[i].display.clone()),
        None => None,
    }
}

/// `detect_fangame`: what the folder (or file) at `path` holds, from what the
/// file system says about it. A game is usable (`ok`) when it has
/// `Data/Scripts.rxdata` (mode `scripts_rxdata`) or else `Game.rgssad` (mode
/// `rgssad`).
pub fn detect_fangame(path: &str, scan: &FangameScan) -> (r: FangameDetectResult)
    ensures
        !r.cancelled,
        invalid_input(path@, *scan) ==> {
            &&& r.root@ == Seq::<char>::empty()
            &&& r.game_exe is None
            &&& r.game_exe_size == 0
            &&& r.game_title is None
            &&& !r.has_data_dir
            &&& r.data_dir is None
            &&& r.scripts_rxdata is None
            &&& r.game_rgssad is None
            &&& r.mode@ == "unknown"@
            &&& !r.ok
            &&& r.message@ == "Invalid or missing path."@
        },
        !invalid_input(path@, *scan) ==> {
            &&& r.root@ == root_display(scan.input)
            &&& opt_view(r.game_exe) == exe_display(*scan)
            &&& r.game_exe_size == if exe_display(*scan) is Some {
                scan.exe_size
            } else {
                0
            }
            &&& opt_view(r.game_title) == ini_of(*scan)
            &&& r.has_data_dir == has_data_spec(*scan)
            &&& opt_view(r.data_dir) == match data_index(*scan) {
                Some(i) => Some(scan.root_entries@[i].display@),
                None => None,
            }
            &&& opt_view(r.scripts_rxdata) == scripts_display(*scan)
            &&& opt_view(r.game_rgssad) == rgssad_display(*scan)
            &&& r.ok == (scripts_display(*scan) is Some || rgssad_display(*scan) is Some)
            &&& r.mode@ == if scripts_display(*scan) is Some {
                "scripts_rxdata"@
            } else if rgssad_display(*scan) is Some {
                "rgssad"@
            } else {
                "unknown"@
            }
            &&& r.message@ == if scripts_display(*scan) is Some {
                "Data/Scripts.rxdata found."@
            } else if rgssad_display(*scan) is Some {
                "Game.rgssad found (no Data folder)."@
            } else if has_data_spec(*scan) {
                "Data folder exists but Scripts.rxdata not found."@
            } else {
                "Neither Data/Scripts.rxdata nor Game.rgssad found."@
            }
        },
{
    let t = trim(&chars_of(path));
    if t.len() == 0 || !scan.input.exists {
        return FangameDetectResult {
            root: String::new(),
            game_exe: None,
            game_exe_size: 0,
            game_title: None,
            has_data_dir: false,
            data_dir: None,
            scripts_rxdata: None,
            game_rgssad: None,
            mode: owned("unknown"),
            ok: false,
            message: owned("Invalid or missing path."),
            cancelled: false,
        };
    }
    let root = if scan.input.is_file {
        match &scan.input.parent_display {
            Some(p) => p.clone(),
            None => scan.input.display.clone(),
        }
    } else {
        scan.input.display.clone()
    };
    let game_exe = if scan.input.is_file {
        if input_is_exe(&scan.input) {
            Some(scan.input.display.clone())
        } else {
            None
        }
    } else {
        let found = find_entry_ci(&scan.root_entries, "Game.exe", false);
        entry_display(&scan.root_entries, found)
    };
    let game_exe_size = if game_exe.is_some() {
        scan.exe_size
    } else {
        0
    };
    let game_title = match find_entry_ci(&scan.root_entries, "Game.ini", false) {
        Some(_) => match &scan.ini_bytes {
            Some(b) => ini_title_of(b.as_slice()),
            None => None,
        },
        None => None,
    };
    let data_found = find_entry_ci(&scan.root_entries, "Data", true);
    let data_dir = entry_display(&scan.root_entries, data_found);
    let has_data_dir = data_found.is_some() && scan.data_is_dir;
    let scripts_rxdata = match data_found {
        Some(_) => {
            let s = find_entry_ci(&scan.data_entries, "Scripts.rxdata", false);
            entry_display(&scan.data_entries, s)
        },
        None => None,
    };
    let rg = find_entry_ci(&scan.root_entries, "Game.rgssad", false);
    let game_rgssad = entry_display(&scan.root_entries, rg);
    let (mode, ok, message) = if scripts_rxdata.is_some() {
        (owned("scripts_rxdata"), true, owned("Data/Scripts.rxdata found."))
    } else if game_rgssad.is_some() {
        (owned("rgssad"), true, owned("Game.rgssad found (no Data folder)."))
    } else if has_data_dir {
        (owned("unknown"), false, owned("Data folder exists but Scripts.rxdata not found."))
    } else {
        (owned("unknown"), false, owned("Neither Data/Scripts.rxdata nor Game.rgssad found."))
    };
    FangameDetectResult {
        root,
        game_exe,
        game_exe_size,
        game_title,
        has_data_dir,
        data_dir,
        scripts_rxdata,
        game_rgssad,
        mode,
        ok,
        message,
        cancelled: false,
    }
}

/// What the file dialog reports when the user cancels it.
pub fn cancelled_result() -> (r: FangameDetectResult)
    ensures
        r.root@ == Seq::<char>::empty(),
        r.game_exe is None,
        r.game_exe_size == 0,
        r.game_title is None,
        !r.has_data_dir,
        r.data_dir is None,
        r.scripts_rxdata is None,
        r.game_rgssad is None,
        r.mode@ == "unknown"@,
        !r.ok,
        r.message@ == "Cancelled."@,
        r.cancelled,
{
    FangameDetectResult {
        root: String::new(),
        game_exe: None,
        game_exe_size: 0,
        game_title: None,
        has_data_dir: false,
        data_dir: None,
        scripts_rxdata: None,
        game_rgssad: None,
        mode: owned("unknown"),
        ok: false,
        message: owned("Cancelled."),
        cancelled: true,
    }
}

/// `get_fangame_fingerprint` once the game is detected: its title
/// (`UNKNOWN` when none) and executable size; an unusable game gives its
/// message, a zero-size executable an error.
pub fn fingerprint_of(info: &FangameDetectResult) -> (r: Result<FangameFingerprint, String>)
    ensures
        !info.ok ==> (r matches Err(e) && e@ == info.message@),
        info.ok && info.game_exe_size == 0 ==> (r matches Err(e) && e@ == "Game.exe size is 0"@),
        info.ok && info.game_exe_size != 0 ==> (r matches Ok(f) && f.exe_size == info.game_exe_size
            && f.title@ == match info.game_title {
            Some(t) => t@,
            None => "UNKNOWN"@,
        }),
{
    if !info.ok {
        return Err(info.message.clone());
    }
    let title = match &info.game_title {
        Some(t) => t.clone(),
        None => owned("UNKNOWN"),
    };
    if info.game_exe_size == 0 {
        return Err(owned("Game.exe size is 0"));
    }
    Ok(FangameFingerprint { title, exe_size: info.game_exe_size })
}

/// `launch_fangame` once the game is detected: the executable to start and the
/// folder to start it in.
pub fn launch_target(info: &FangameDetectResult) -> (r: Result<(String, String), String>)
    ensures
        match info.game_exe {
            Some(exe) => r matches Ok(p) && p.0@ == exe@ && p.1@ == info.root@,
            None => r matches Err(e) && e@ == "Game.exe not found"@,
        },
{
    match &info.game_exe {
        Some(exe) => Ok((exe.clone(), info.root.clone())),
        None => Err(owned("Game.exe not found")),
    }
}

/// Where `Scripts.rxdata` comes from.
pub enum ScriptsSource {
    /// The file is there.
    Existing(String),
    /// It must be extracted from the archive, into `_fgl_extract` in the root.
    Extract { rgssad: String, root: String },
}

/// `prepare_scripts_rxdata` once the game is detected.
pub fn scripts_source(info: &FangameDetectResult) -> (r: Result<ScriptsSource, String>)
    ensures
        match (info.scripts_rxdata, info.game_rgssad) {
            (Some(s), _) => r matches Ok(ScriptsSource::Existing(p)) && p@ == s@,
            (None, Some(a)) => r matches Ok(ScriptsSource::Extract { rgssad, root }) && rgssad@ == a@
                && root@ == info.root@,
            (None, None) => r matches Err(e) && e@ == "No Scripts.rxdata and no Game.rgssad"@,
        },
{
    match &info.scripts_rxdata {
        Some(s) => Ok(ScriptsSource::Existing(s.clone())),
        None => match &info.game_rgssad {
            Some(a) => Ok(ScriptsSource::Extract { rgssad: a.clone(), root: info.root.clone() }),
            None => Err(owned("No Scripts.rxdata and no Game.rgssad")),
        },
    }
}

/// The error text of a failed extraction (`extract_scripts_from_rgssad`); for a
/// missing scripts entry it names how many entries were read and up to eight of
/// their names.
pub open spec fn extract_error_spec(e: RgssadError) -> Seq<char> {
    match e {
        RgssadError::Truncated => "failed to fill whole buffer"@,
        RgssadError::NotArchive => "Not a valid RGSSAD archive"@,
        RgssadError::BadVersion(v) => "Unsupported RGSSAD version "@ + decimal_spec(v as nat),
        RgssadError::NotFound(names) => "Scripts.rxdata not found ("@ + decimal_spec(
            names@.len(),
        ) + " entries, e.g. "@ + list_debug(strings_view(names@).take(
            if names@.len() < 8 {
                names@.len() as int
            } else {
                8
            },
        )) + ")"@,
    }
}

pub fn extract_error_message(e: &RgssadError) -> (r: String)
    ensures
        r@ == extract_error_spec(*e),
{
    match e {
        RgssadError::Truncated => owned("failed to fill whole buffer"),
        RgssadError::NotArchive => owned("Not a valid RGSSAD archive"),
        RgssadError::BadVersion(v) => {
            let a = chars_of("Unsupported RGSSAD version ");
            string_of(&concat(&a, &decimal(*v as u64)))
        },
        RgssadError::NotFound(names) => {
            let n = if names.len() < 8 {
                names.len()
            } else {
                8
            };
            let mut sample: Vec<String> = Vec::new();
            let mut i: usize = 0;
            while i < n
                invariant
                    n <= names@.len(),
                    i <= n,
                    sample@.len() == i,
                    forall|j: int| 0 <= j < i ==> #[trigger] sample@[j] == names@[j],
                decreases n - i,
            {
                sample.push(names[i].clone());
                i += 1;
            }
            proof {
                assert(strings_view(sample@) =~= strings_view(names@).take(n as int));
            }
            let a = chars_of("Scripts.rxdata not found (");
            let b = decimal(names.len() as u64);
            let c = chars_of(" entries, e.g. ");
            let d = chars_of(list_debug_string(&sample).as_str());
            let e2 = chars_of(")");
            let x = concat(&concat(&concat(&concat(&a, &b), &c), &d), &e2);
            string_of(&x)
        },
    }
}

/// The output of the plugin check says the plugin is in place.
pub fn says_present(check_output: &str) -> (r: bool)
    ensures
        r == has_part(check_output@, "PRESENT"@),
{
    contains_part(&chars_of(check_output), &chars_of("PRESENT"))
}

/// `prepare_and_patch_fangame`'s report: the scripts file, and what the
/// injection answered (`already` when the plugin was in place).
pub fn patch_ready_message(scripts: &str, injected: Option<&str>) -> (r: String)
    ensures
        r@ == "READY scripts="@ + scripts@ + " plugin="@ + match injected {
            Some(i) => i@,
            None => "already"@,
        },
{
    let a = concat(&chars_of("READY scripts="), &chars_of(scripts));
    let b = concat(&a, &chars_of(" plugin="));
    let c = match injected {
        Some(i) => chars_of(i),
        None => chars_of("already"),
    };
    string_of(&concat(&b, &c))
}

/// `run_fgl_scripts` once the script has run: its output (lossy UTF-8,
/// trimmed) on success, otherwise `ruby: <stderr> <stdout>`.
pub fn script_run_result(success: bool, stdout: &[u8], stderr: &[u8]) -> (r: Result<String, String>)
    ensures
        success ==> (r matches Ok(o) && o@ == trim_spec(crate::text::utf8_lossy(stdout@))),
        !success ==> (r matches Err(e) && e@ == "ruby: "@ + trim_spec(crate::text::utf8_lossy(stderr@))
            + " "@ + trim_spec(crate::text::utf8_lossy(stdout@))),
{
    let out = trim(&chars_of(crate::text::utf8_lossy_decode(stdout).as_str()));
    let err = trim(&chars_of(crate::text::utf8_lossy_decode(stderr).as_str()));
    if !success {
        let a = concat(&concat(&chars_of("ruby: "), &err), &chars_of(" "));
        return Err(string_of(&concat(&a, &out)));
    }
    Ok(string_of(&out))
}

/// `find_ruby_exe`'s reading of what `where` printed: its first line, trimmed;
/// none when it printed nothing.
pub fn where_output_path(stdout: &[u8]) -> (r: Option<String>)
    ensures
        crate::text::utf8_lossy(stdout@).len() == 0 ==> r is None,
        crate::text::utf8_lossy(stdout@).len() > 0 ==> (r matches Some(p) && p@ == trim_spec(
            first_line(crate::text::utf8_lossy(stdout@)),
        )),
{
    let text = chars_of(crate::text::utf8_lossy_decode(stdout).as_str());
    if text.len() == 0 {
        return None;
    }
    let (line, _) = next_line(&text, 0);
    proof {
        assert(text@.skip(0) =~= text@);
    }
    Some(string_of(&trim(&line)))
}

} // verus!
