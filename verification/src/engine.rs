//! The log engine's decisions: which logs exist, how their headers read, what
//! new text a log has, and what to do on a change in the log directories.
//!
//! Files are read by the caller; everything here works on their bytes.
use vstd::prelude::*;
use vstd::utf8::{decode_utf8, valid_utf8};
use vstd::string::StringSliceAdditionalSpecFns;
use crate::text::{texts, chars_of, string_from_chars, trim_chars, split_chars, split_on, trim, trim_end};
use crate::utf16::{encode_utf16, encode_text_utf16, unit_at, read_unit, decode_utf16le_lossy, from_utf16le_lossy};

verus! {

// ---------------------------------------------------------------------------
// Log kinds and directories
// ---------------------------------------------------------------------------

/// The two kinds of log the engine follows.
#[derive(Debug, Clone, Copy, PartialEq, Eq, Structural)]
pub enum LogType {
    /// A character's game log (combat, mining, notifications).
    Game,
    /// A fleet chat channel log.
    Fleet,
}

/// How a log's bytes encode its text.
#[derive(Debug, Clone, Copy, PartialEq, Eq, Structural)]
pub enum Encoding {
    UTF8,
    UTF16,
}

impl LogType {
    /// Fleet logs are UTF-16, game logs UTF-8.
    pub fn encoding(self) -> (r: Encoding)
        ensures
            r == (match self {
                LogType::Fleet => Encoding::UTF16,
                LogType::Game => Encoding::UTF8,
            }),
    {
        match self {
            LogType::Fleet => Encoding::UTF16,
            LogType::Game => Encoding::UTF8,
        }
    }
}

/// Subdirectory of the log directory that holds the game logs.
pub const GAME_LOGS_EXTENTION: &'static str = "Gamelogs/";

/// Subdirectory of the log directory that holds the chat logs.
pub const CHAT_LOGS_EXTENTION: &'static str = "Chatlogs/";

/// `base` with the relative path `sub` appended, a `/` put between them
/// unless `base` is empty or already ends in one.
pub open spec fn join_path(base: Seq<char>, sub: Seq<char>) -> Seq<char> {
    if base.len() == 0 || base.last() == '/' {
        base + sub
    } else {
        base.push('/') + sub
    }
}

fn push_path(base: String, sub: &str) -> (r: String)
    ensures
        r@ == join_path(base@, sub@),
{
    let mut out = base;
    let cs = chars_of(out.as_str());
    if cs.len() > 0 && cs[cs.len() - 1] != '/' {
        crate::text::push_char(&mut out, '/');
    }
    out.append(sub);
    out
}

/// The game log directory under the log directory `log_location`.
pub fn get_game_logs(log_location: String) -> (r: String)
    ensures
        r@ == join_path(log_location@, GAME_LOGS_EXTENTION@),
{
    push_path(log_location, GAME_LOGS_EXTENTION)
}

/// The chat log directory under the log directory `log_location`.
pub fn get_chat_logs(log_location: String) -> (r: String)
    ensures
        r@ == join_path(log_location@, CHAT_LOGS_EXTENTION@),
{
    push_path(log_location, CHAT_LOGS_EXTENTION)
}

/// Where the Windows client keeps its logs, under the documents directory.
pub const WINDOWS_LOG_DIR: &'static str = "EVE/logs";

/// Where the macOS client keeps its logs, under the home directory.
pub const MACOS_LOG_DIR: &'static str = "Library/Application Support/EVE Online/p_drive/User/Documents/EVE/logs";

/// Where older macOS installations keep their logs, under the home directory.
pub const MACOS_OLD_LOG_DIR: &'static str = "Library/Application Support/EVE Online/p_drive/User/My Documents/EVE/logs";

/// The Steam installations looked in on Linux, under the home directory:
/// native, legacy, and Flatpak.
pub const STEAM_ROOTS: [&'static str; 3] = [".local/share/Steam", ".steam/steam", ".var/app/com.valvesoftware.Steam/data/Steam"];

/// Where the client's logs are under a Steam installation on Linux.
pub const STEAM_LOG_DIRS: [&'static str; 2] = [
    "steamapps/compatdata/8500/pfx/drive_c/users/steamuser/Documents/EVE/logs",
    "steamapps/compatdata/8500/pfx/drive_c/users/steamuser/My Documents/EVE/logs",
];

/// The places looked in for the log directory, in order, on the operating
/// system `os` (as `std::env::consts::OS` names it), for the home directory
/// `home` and the documents directory `documents`. Nothing is looked in
/// without a home directory, nor on Windows without a documents directory.
pub open spec fn log_dir_candidates_spec(os: Seq<char>, home: Option<Seq<char>>, documents: Option<Seq<char>>) -> Seq<Seq<char>> {
    match home {
        None => Seq::empty(),
        Some(h) => if os == "windows"@ {
            match documents {
                Some(d) => seq![join_path(d, WINDOWS_LOG_DIR@)],
                None => Seq::empty(),
            }
        } else if os == "macos"@ {
            seq![join_path(h, MACOS_LOG_DIR@), join_path(h, MACOS_OLD_LOG_DIR@)]
        } else if os == "linux"@ {
            Seq::new(6, |i: int| join_path(join_path(h, STEAM_ROOTS@[i / 2]@), STEAM_LOG_DIRS@[i % 2]@))
        } else {
            Seq::empty()
        },
    }
}

/// The text of an optional string.
pub open spec fn text_option(o: Option<String>) -> Option<Seq<char>> {
    match o {
        Some(s) => Some(s@),
        None => None,
    }
}

/// The places to look in for the log directory (see `log_dir_candidates_spec`);
/// the first that exists is the log directory.
pub fn log_dir_candidates(os: &str, home: Option<String>, documents: Option<String>) -> (r: Vec<String>)
    ensures
        texts(r@) == log_dir_candidates_spec(os@, text_option(home), text_option(documents)),
{
    let ghost dv = text_option(documents);
    let mut out: Vec<String> = Vec::new();
    let h = match home {
        None => {
            assert(texts(out@) =~= Seq::<Seq<char>>::empty());
            return out;
        },
        Some(h) => h,
    };
    if crate::text::same_text(os, "windows") {
        if let Some(d) = documents {
            out.push(push_path(d, WINDOWS_LOG_DIR));
        }
    } else if crate::text::same_text(os, "macos") {
        out.push(push_path(h.clone(), MACOS_LOG_DIR));
        out.push(push_path(h, MACOS_OLD_LOG_DIR));
    } else if crate::text::same_text(os, "linux") {
        let ghost hv = h@;
        let mut i: usize = 0;
        while i < 6
            invariant
                i <= 6,
                h@ == hv,
                out@.len() == i,
                forall|k: int| 0 <= k < i ==> (#[trigger] out@[k])@ == join_path(join_path(hv, STEAM_ROOTS@[k / 2]@), STEAM_LOG_DIRS@[k % 2]@),
            decreases 6 - i,
        {
            let root = push_path(h.clone(), STEAM_ROOTS[i / 2]);
            out.push(push_path(root, STEAM_LOG_DIRS[i % 2]));
            i = i + 1;
        }
    }
    proof {
        let spec_r = log_dir_candidates_spec(os@, Some(h@), dv);
        assert(texts(out@) =~= spec_r);
    }
    out
}

// ---------------------------------------------------------------------------
// Reading bytes the way the header readers do
// ---------------------------------------------------------------------------

/// Whether reading `exp.len()` single bytes from `pos` matches `exp`. A read at
/// the end of the data leaves the last byte read in place (`last`, 0 before
/// any), and that is what gets compared.
pub open spec fn expected_bytes(data: Seq<u8>, pos: int, last: u8, exp: Seq<u8>) -> bool
    decreases exp.len(),
{
    if exp.len() == 0 {
        true
    } else {
        let b = if 0 <= pos < data.len() {
            data[pos]
        } else {
            last
        };
        b == exp[0] && expected_bytes(data, pos + 1, b, exp.drop_first())
    }
}

/// Position after reading `n` single bytes from `pos`.
pub open spec fn advance(len: int, pos: int, n: int) -> int {
    if pos + n <= len {
        pos + n
    } else if pos <= len {
        len
    } else {
        pos
    }
}

/// Reads `expected.len()` single bytes from `pos` and compares them with
/// `expected` (see `expected_bytes`); on a match, the position after.
pub fn read_expected(data: &[u8], pos: usize, expected: &[u8]) -> (r: Option<usize>)
    requires
        pos <= data@.len(),
    ensures
        r is Some <==> expected_bytes(data@, pos as int, 0, expected@),
        r matches Some(p) ==> p == advance(data@.len() as int, pos as int, expected@.len() as int),
{
    let mut buf: u8 = 0;
    let mut p: usize = pos;
    let mut i: usize = 0;
    assert(expected@.subrange(0, expected@.len() as int) =~= expected@);
    while i < expected.len()
        invariant
            pos <= p <= data@.len(),
            i <= expected@.len(),
            p == advance(data@.len() as int, pos as int, i as int),
            expected_bytes(data@, pos as int, 0, expected@) == expected_bytes(
                data@,
                pos + i,
                buf,
                expected@.subrange(i as int, expected@.len() as int),
            ),
            p < pos + i ==> p == data@.len(),
        decreases expected.len() - i,
    {
        let ghost rest = expected@.subrange(i as int, expected@.len() as int);
        if p < data.len() {
            buf = data[p];
            p = p + 1;
        }
        assert(rest.drop_first() =~= expected@.subrange(i + 1, expected@.len() as int));
        if expected[i] != buf {
            return None;
        }
        i = i + 1;
    }
    assert(expected@.subrange(i as int, expected@.len() as int) =~= Seq::<u8>::empty());
    Some(p)
}

/// Index of the first `d` at or after `pos`, or the length when there is none.
pub open spec fn find_byte_from(data: Seq<u8>, pos: int, d: u8) -> int
    decreases data.len() - pos,
{
    if pos >= data.len() {
        data.len() as int
    } else if data[pos] == d {
        pos
    } else {
        find_byte_from(data, pos + 1, d)
    }
}

proof fn lemma_find_byte_from(data: Seq<u8>, pos: int, d: u8)
    requires
        0 <= pos <= data.len(),
    ensures
        pos <= find_byte_from(data, pos, d) <= data.len(),
        find_byte_from(data, pos, d) < data.len() ==> data[find_byte_from(data, pos, d)] == d,
        forall|k: int| pos <= k < find_byte_from(data, pos, d) ==> data[k] != d,
    decreases data.len() - pos,
{
    if pos < data.len() && data[pos] != d {
        lemma_find_byte_from(data, pos + 1, d);
    }
}

/// What `BufRead::read_until` reads from `pos`: through the first `d`
/// (included) or to the end.
pub open spec fn until_byte(data: Seq<u8>, pos: int, d: u8) -> Seq<u8> {
    let f = find_byte_from(data, pos, d);
    if f < data.len() {
        data.subrange(pos, f + 1)
    } else {
        data.subrange(pos, data.len() as int)
    }
}

/// `BufRead::read_until`: the bytes through the first `d` (included) or to
/// the end, and the position after them.
pub fn read_until(data: &[u8], pos: usize, d: u8) -> (r: (Vec<u8>, usize))
    requires
        pos <= data@.len(),
    ensures
        r.0@ == until_byte(data@, pos as int, d),
        r.1 == pos + r.0@.len(),
        r.1 <= data@.len(),
{
    proof {
        lemma_find_byte_from(data@, pos as int, d);
    }
    let mut out: Vec<u8> = Vec::new();
    let mut p: usize = pos;
    while p < data.len()
        invariant
            pos <= p <= data@.len(),
            p <= find_byte_from(data@, pos as int, d),
            out@ == data@.subrange(pos as int, p as int),
            pos <= find_byte_from(data@, pos as int, d) <= data@.len(),
            find_byte_from(data@, pos as int, d) < data@.len() ==> data@[find_byte_from(data@, pos as int, d)] == d,
            forall|k: int| pos <= k < find_byte_from(data@, pos as int, d) ==> data@[k] != d,
        decreases data@.len() - p,
    {
        let b = data[p];
        out.push(b);
        p = p + 1;
        assert(out@ =~= data@.subrange(pos as int, p as int));
        if b == d {
            return (out, p);
        }
    }
    (out, p)
}

// ---------------------------------------------------------------------------
// Reading UTF-16 code units the way the fleet header reader does
// ---------------------------------------------------------------------------

/// Compares the code units read from `pos` with `exp`: `None` when the data
/// ends before a whole unit could be read, else whether they all match
/// (reading stops at the first that does not).
pub open spec fn expected_units(data: Seq<u8>, pos: int, exp: Seq<u16>) -> Option<bool>
    decreases exp.len(),
{
    if exp.len() == 0 {
        Some(true)
    } else if pos + 2 > data.len() {
        None
    } else if unit_at(data, pos) != exp[0] {
        Some(false)
    } else {
        expected_units(data, pos + 2, exp.drop_first())
    }
}

/// Reads code units from `pos` and compares them with `expected` (see
/// `expected_units`); on a full match also the position after them.
pub fn read_expected_units(data: &[u8], pos: usize, expected: &[u16]) -> (r: (Option<bool>, usize))
    requires
        pos <= data@.len(),
    ensures
        r.0 == expected_units(data@, pos as int, expected@),
        r.0 == Some(true) ==> r.1 == pos + 2 * expected@.len() && r.1 <= data@.len(),
{
    let mut p: usize = pos;
    let mut i: usize = 0;
    assert(expected@.subrange(0, expected@.len() as int) =~= expected@);
    while i < expected.len()
        invariant
            pos <= p <= data@.len(),
            i <= expected@.len(),
            p == pos + 2 * i,
            expected_units(data@, pos as int, expected@) == expected_units(
                data@,
                p as int,
                expected@.subrange(i as int, expected@.len() as int),
            ),
        decreases expected.len() - i,
    {
        let ghost rest = expected@.subrange(i as int, expected@.len() as int);
        assert(rest.drop_first() =~= expected@.subrange(i + 1, expected@.len() as int));
        if data.len() < 2 || p > data.len() - 2 {
            return (None, p);
        }
        let u = read_unit(data, p);
        if u != expected[i] {
            return (Some(false), p);
        }
        p = p + 2;
        i = i + 1;
    }
    assert(expected@.subrange(i as int, expected@.len() as int) =~= Seq::<u16>::empty());
    (Some(true), p)
}

/// Reads code units from `pos` until one equals `u`: whether it was found
/// before the data ran out, and how many bytes were read (a trailing odd
/// byte is not counted).
pub open spec fn skip_units(data: Seq<u8>, pos: int, u: u16) -> (bool, int)
    decreases data.len() - pos,
{
    if pos + 2 > data.len() {
        (false, 0)
    } else if unit_at(data, pos) == u {
        (true, 2)
    } else {
        let r = skip_units(data, pos + 2, u);
        (r.0, r.1 + 2)
    }
}

proof fn lemma_skip_units_bounds(data: Seq<u8>, pos: int, u: u16)
    requires
        0 <= pos,
    ensures
        0 <= skip_units(data, pos, u).1,
        skip_units(data, pos, u).0 ==> pos + skip_units(data, pos, u).1 <= data.len()
            && skip_units(data, pos, u).1 >= 2,
        !skip_units(data, pos, u).0 ==> pos + skip_units(data, pos, u).1 <= data.len() || skip_units(data, pos, u).1 == 0,
    decreases data.len() - pos,
{
    if pos + 2 <= data.len() && unit_at(data, pos) != u {
        lemma_skip_units_bounds(data, pos + 2, u);
    }
}

/// Skips code units until one equals `u` (see `skip_units`).
pub fn skip_until_unit(data: &[u8], pos: usize, u: u16) -> (r: (bool, u64))
    requires
        pos <= data@.len(),
    ensures
        r.0 == skip_units(data@, pos as int, u).0,
        r.1 == skip_units(data@, pos as int, u).1,
{
    let mut p: usize = pos;
    let mut n: u64 = 0;
    let dlen = data.len();
    while p <= data.len() && data.len() - p >= 2
        invariant
            pos <= p <= data@.len(),
            n == p - pos,
            skip_units(data@, pos as int, u).0 == skip_units(data@, p as int, u).0,
            skip_units(data@, pos as int, u).1 == skip_units(data@, p as int, u).1 + n,
            dlen == data@.len(),
        decreases data@.len() - p,
    {
        let c = read_unit(data, p);
        p = p + 2;
        assert(n + 2 <= data@.len());
        n = n + 2;
        if c == u {
            return (true, n);
        }
    }
    (false, n)
}

/// Reads code units from `pos` until one equals `u`: whether it was found,
/// and the bytes of the units before it. A trailing odd byte is not kept.
pub open spec fn until_unit(data: Seq<u8>, pos: int, u: u16) -> (bool, Seq<u8>)
    decreases data.len() - pos,
{
    if pos + 2 > data.len() {
        (false, Seq::empty())
    } else if unit_at(data, pos) == u {
        (true, Seq::empty())
    } else {
        let r = until_unit(data, pos + 2, u);
        (r.0, data.subrange(pos, pos + 2) + r.1)
    }
}

/// Position after `until_unit` read: past the unit found, or the end.
pub open spec fn after_until_unit(data: Seq<u8>, pos: int, u: u16) -> int {
    let r = until_unit(data, pos, u);
    if r.0 {
        pos + r.1.len() + 2
    } else {
        data.len() as int
    }
}

proof fn lemma_until_unit_len(data: Seq<u8>, pos: int, u: u16)
    requires
        0 <= pos <= data.len(),
    ensures
        until_unit(data, pos, u).1.len() % 2 == 0,
        until_unit(data, pos, u).0 ==> pos + until_unit(data, pos, u).1.len() + 2 <= data.len(),
        pos + until_unit(data, pos, u).1.len() <= data.len(),
    decreases data.len() - pos,
{
    if pos + 2 <= data.len() && unit_at(data, pos) != u {
        lemma_until_unit_len(data, pos + 2, u);
    }
}

/// Reads code units until one equals `u` (see `until_unit`); also the
/// position after.
pub fn read_until_unit(data: &[u8], pos: usize, u: u16) -> (r: (bool, Vec<u8>, usize))
    requires
        pos <= data@.len(),
    ensures
        r.0 == until_unit(data@, pos as int, u).0,
        r.1@ == until_unit(data@, pos as int, u).1,
        r.2 == after_until_unit(data@, pos as int, u),
        r.2 <= data@.len(),
{
    proof {
        lemma_until_unit_len(data@, pos as int, u);
    }
    let mut p: usize = pos;
    let mut out: Vec<u8> = Vec::new();
    while p <= data.len() && data.len() - p >= 2
        invariant
            pos <= p <= data@.len(),
            out@ == data@.subrange(pos as int, p as int),
            until_unit(data@, pos as int, u).0 == until_unit(data@, p as int, u).0,
            until_unit(data@, pos as int, u).1 == out@ + until_unit(data@, p as int, u).1,
        decreases data@.len() - p,
    {
        let c = read_unit(data, p);
        if c == u {
            assert(out@ + Seq::<u8>::empty() =~= out@);
            proof {
                lemma_until_unit_len(data@, pos as int, u);
            }
            return (true, out, p + 2);
        }
        out.push(data[p]);
        out.push(data[p + 1]);
        let ghost old_p = p;
        p = p + 2;
        assert(out@ =~= data@.subrange(pos as int, p as int));
        assert(data@.subrange(old_p as int, old_p + 2) + until_unit(data@, p as int, u).1 =~=
            until_unit(data@, old_p as int, u).1);
        assert(until_unit(data@, pos as int, u).1 =~= out@ + until_unit(data@, p as int, u).1);
    }
    assert(out@ + Seq::<u8>::empty() =~= out@);
    (false, out, data.len())
}


// ---------------------------------------------------------------------------
// Fresh log headers
// ---------------------------------------------------------------------------

/// What a game log starts with, up to the listener's name.
pub const GAME_LOG_HEADER: &'static str = "------------------------------------------------------------\r\n  Gamelog\r\n  Listener: ";

/// What follows the listener's name in a game log, up to the session start.
pub const GAME_LOG_SESSION: &'static str = "\n  Session Started: ";

/// What a fleet chat log starts with after its byte order mark, up to the
/// rest of the channel id.
pub const FLEET_LOG_HEADER: &'static str = "\r\n\r\n\n\n        ---------------------------------------------------------------\n\n          Channel ID:      fleet_";

/// What follows the channel id line in a fleet log, up to the listener.
pub const FLEET_LOG_LISTENER: &'static str = "          Channel Name:    Fleet\n          Listener:        ";

/// What follows the listener line in a fleet log, up to the session start.
pub const FLEET_LOG_SESSION: &'static str = "          Session started: ";

/// The form of a session start time, as `chrono` formats go.
pub const SESSION_START_FORMAT: &'static str = "%Y.%m.%d %H:%M:%S";

/// Why a file that looked like a new log is not one.
#[derive(Debug, Clone, Copy, PartialEq, Eq, Structural)]
pub enum FreshLogParseError {
    /// The file ended where more of the header had to be read.
    UnexpectedEof,
    /// The header is not the one expected.
    UnexpectedData,
}

/// `chrono::NaiveDateTime`, a session start, carried through as it is.
#[verifier::external_type_specification]
#[verifier::external_body]
pub struct ExNaiveDateTime(chrono::NaiveDateTime);

/// What `chrono::NaiveDateTime::parse_from_str` makes of `text` in the
/// format `fmt`.
pub uninterp spec fn parsed_date_time(text: Seq<char>, fmt: Seq<char>) -> Option<chrono::NaiveDateTime>;

/// `chrono::NaiveDateTime::parse_from_str(text, fmt)`, its error dropped.
#[verifier::external_body]
fn parse_date_time(text: &str, fmt: &str) -> (r: Option<chrono::NaiveDateTime>)
    ensures
        r == parsed_date_time(text@, fmt@),
{
    chrono::NaiveDateTime::parse_from_str(text, fmt).ok()
}

/// `std::str::from_utf8`: the text the bytes encode, if they are UTF-8.
#[verifier::external_body]
pub(crate) fn utf8_text(bytes: &[u8]) -> (r: Option<String>)
    ensures
        r is Some <==> valid_utf8(bytes@),
        r matches Some(s) ==> s@ == decode_utf8(bytes@),
{
    match std::str::from_utf8(bytes) {
        Ok(s) => Some(s.to_owned()),
        Err(_) => None,
    }
}

/// A log found on disk: where it is, when its session started, and whose it is.
#[derive(Debug)]
pub struct PotentialLog {
    pub path: String,
    pub date: chrono::NaiveDateTime,
    pub name: String,
}

/// The two raw fields of a game log header: the bytes of the listener line
/// and of the session start line, each through its `\r`.
pub open spec fn game_header_fields(data: Seq<u8>) -> Result<(Seq<u8>, Seq<u8>), FreshLogParseError> {
    let h = GAME_LOG_HEADER.spec_bytes();
    if !expected_bytes(data, 0, 0, h) {
        Err(FreshLogParseError::UnexpectedData)
    } else {
        let p1 = advance(data.len() as int, 0, h.len() as int);
        let name = until_byte(data, p1, 13);
        let p2 = p1 + name.len();
        let s = GAME_LOG_SESSION.spec_bytes();
        if !expected_bytes(data, p2, 0, s) {
            Err(FreshLogParseError::UnexpectedData)
        } else {
            let p3 = advance(data.len() as int, p2, s.len() as int);
            Ok((name, until_byte(data, p3, 13)))
        }
    }
}

/// The listener named on a game log's listener line.
pub open spec fn game_log_name(line: Seq<u8>) -> Seq<char> {
    trim_end(decode_utf8(line))
}

/// The session start text of a game log's session line: the line without its
/// last character (the `\r`).
pub open spec fn game_log_date_text(line: Seq<u8>) -> Seq<char> {
    let t = decode_utf8(line);
    if t.len() > 0 {
        t.drop_last()
    } else {
        t
    }
}

/// Game log headers that can be read without failing: the listener and
/// session lines are UTF-8 and the session start is a date.
pub open spec fn game_header_readable(data: Seq<u8>) -> bool {
    game_header_fields(data) matches Ok((name, date)) ==> {
        &&& valid_utf8(name)
        &&& valid_utf8(date)
        &&& parsed_date_time(game_log_date_text(date), SESSION_START_FORMAT@) is Some
    }
}

/// Reads the two raw fields of a game log header (see `game_header_fields`).
pub fn read_game_header_fields(data: &[u8]) -> (r: Result<(Vec<u8>, Vec<u8>), FreshLogParseError>)
    ensures
        match game_header_fields(data@) {
            Ok((n, d)) => r matches Ok((rn, rd)) && rn@ == n && rd@ == d,
            Err(e) => r == Err::<(Vec<u8>, Vec<u8>), FreshLogParseError>(e),
        },
{
    let p1 = match read_expected(data, 0, GAME_LOG_HEADER.as_bytes()) {
        Some(p) => p,
        None => return Err(FreshLogParseError::UnexpectedData),
    };
    let (name, p2) = read_until(data, p1, 13);
    let p3 = match read_expected(data, p2, GAME_LOG_SESSION.as_bytes()) {
        Some(p) => p,
        None => return Err(FreshLogParseError::UnexpectedData),
    };
    let (date, _p4) = read_until(data, p3, 13);
    Ok((name, date))
}

fn drop_last_char(s: String) -> (r: String)
    ensures
        r@ == if s@.len() > 0 {
            s@.drop_last()
        } else {
            s@
        },
{
    let cs = chars_of(s.as_str());
    if cs.len() == 0 {
        return s;
    }
    let mut out: Vec<char> = Vec::new();
    let mut i: usize = 0;
    while i + 1 < cs.len()
        invariant
            cs@ == s@,
            cs.len() > 0,
            i < cs.len(),
            out@ == cs@.take(i as int),
        decreases cs.len() - i,
    {
        out.push(cs[i]);
        i = i + 1;
        assert(out@ =~= cs@.take(i as int));
    }
    assert(cs@.take(i as int) =~= cs@.drop_last());
    string_from_chars(out.as_slice())
}

fn trim_end_text(s: &str) -> (r: String)
    ensures
        r@ == trim_end(s@),
{
    let cs = chars_of(s);
    let mut j: usize = cs.len();
    assert(cs@.take(cs.len() as int) =~= cs@);
    while j > 0 && crate::text::is_white_space_char(cs[j - 1])
        invariant
            cs@ == s@,
            j <= cs.len(),
            trim_end(s@) == trim_end(cs@.take(j as int)),
        decreases j,
    {
        assert(cs@.take(j as int).drop_last() =~= cs@.take(j - 1));
        j = j - 1;
    }
    let mut out: Vec<char> = Vec::new();
    let mut k: usize = 0;
    while k < j
        invariant
            j <= cs.len(),
            k <= j,
            out@ == cs@.take(k as int),
        decreases j - k,
    {
        out.push(cs[k]);
        k = k + 1;
        assert(out@ =~= cs@.take(k as int));
    }
    string_from_chars(out.as_slice())
}

/// Reads a new game log's header: whose log it is and when its session
/// started. The header must be readable (see `try_parse_fresh_game_logs` for
/// one that tests that).
pub fn parse_fresh_game_logs(path: String, data: &[u8]) -> (r: Result<PotentialLog, FreshLogParseError>)
    requires
        game_header_readable(data@),
    ensures
        match game_header_fields(data@) {
            Ok((n, d)) => r matches Ok(log) && log.path@ == path@ && log.name@ == game_log_name(n)
                && Some(log.date) == parsed_date_time(game_log_date_text(d), SESSION_START_FORMAT@),
            Err(e) => r matches Err(re) && re == e,
        },
{
    let (name_bytes, date_bytes) = match read_game_header_fields(data) {
        Ok(f) => f,
        Err(e) => return Err(e),
    };
    let name_text = utf8_text(name_bytes.as_slice()).unwrap();
    let name = trim_end_text(name_text.as_str());
    let date_raw = drop_last_char(utf8_text(date_bytes.as_slice()).unwrap());
    let date = parse_date_time(date_raw.as_str(), SESSION_START_FORMAT).unwrap();
    Ok(PotentialLog { path, date, name })
}

/// `parse_fresh_game_logs` where the header can be read; `None` where reading
/// it would fail (the listener or session line is not UTF-8, or the session
/// start is not a date).
pub fn try_parse_fresh_game_logs(path: String, data: &[u8]) -> (r: Option<Result<PotentialLog, FreshLogParseError>>)
    ensures
        r is Some <==> game_header_readable(data@),
        r matches Some(res) ==> match game_header_fields(data@) {
            Ok((n, d)) => res matches Ok(log) && log.path@ == path@ && log.name@ == game_log_name(n)
                && Some(log.date) == parsed_date_time(game_log_date_text(d), SESSION_START_FORMAT@),
            Err(e) => res matches Err(re) && re == e,
        },
{
    match read_game_header_fields(data) {
        Err(e) => Some(Err(e)),
        Ok((name_bytes, date_bytes)) => {
            if utf8_text(name_bytes.as_slice()).is_none() {
                return None;
            }
            match utf8_text(date_bytes.as_slice()) {
                None => None,
                Some(date_text) => {
                    let date_raw = drop_last_char(date_text);
                    if parse_date_time(date_raw.as_str(), SESSION_START_FORMAT).is_none() {
                        return None;
                    }
                    Some(parse_fresh_game_logs(path, data))
                },
            }
        },
    }
}

/// The two raw fields of a fleet log header: the bytes of the listener's name
/// and of the session start, each without its line's `\n`.
pub open spec fn fleet_header_fields(data: Seq<u8>) -> Result<(Seq<u8>, Seq<u8>), FreshLogParseError> {
    if data.len() < 2 {
        Err(FreshLogParseError::UnexpectedEof)
    } else {
        let h = encode_utf16(FLEET_LOG_HEADER@);
        match expected_units(data, 2, h) {
            None => Err(FreshLogParseError::UnexpectedEof),
            Some(false) => Err(FreshLogParseError::UnexpectedData),
            Some(true) => {
                let p1 = (2 + 2 * h.len()) as int;
                let sk = skip_units(data, p1, 10);
                let p2 = if sk.0 {
                    p1 + sk.1
                } else {
                    data.len() as int
                };
                let c = encode_utf16(FLEET_LOG_LISTENER@);
                match expected_units(data, p2, c) {
                    None => Err(FreshLogParseError::UnexpectedEof),
                    Some(false) => Err(FreshLogParseError::UnexpectedData),
                    Some(true) => {
                        let p3 = p2 + 2 * c.len();
                        let name = until_unit(data, p3, 10).1;
                        let p4 = after_until_unit(data, p3, 10);
                        let s = encode_utf16(FLEET_LOG_SESSION@);
                        match expected_units(data, p4, s) {
                            None => Err(FreshLogParseError::UnexpectedEof),
                            Some(false) => Err(FreshLogParseError::UnexpectedData),
                            Some(true) => {
                                let p5 = p4 + 2 * s.len();
                                Ok((name, until_unit(data, p5, 10).1))
                            },
                        }
                    },
                }
            },
        }
    }
}

/// Fleet log headers that can be read without failing: the session start is
/// a date.
pub open spec fn fleet_header_readable(data: Seq<u8>) -> bool {
    fleet_header_fields(data) matches Ok((name, date)) ==> parsed_date_time(
        decode_utf16le_lossy(date),
        SESSION_START_FORMAT@,
    ) is Some
}

/// Reads the two raw fields of a fleet log header (see `fleet_header_fields`).
pub fn read_fleet_header_fields(data: &[u8]) -> (r: Result<(Vec<u8>, Vec<u8>), FreshLogParseError>)
    ensures
        match fleet_header_fields(data@) {
            Ok((n, d)) => r matches Ok((rn, rd)) && rn@ == n && rd@ == d,
            Err(e) => r == Err::<(Vec<u8>, Vec<u8>), FreshLogParseError>(e),
        },
{
    if data.len() < 2 {
        return Err(FreshLogParseError::UnexpectedEof);
    }
    let h = encode_text_utf16(chars_of(FLEET_LOG_HEADER).as_slice());
    let (m1, p1) = read_expected_units(data, 2, h.as_slice());
    match m1 {
        None => return Err(FreshLogParseError::UnexpectedEof),
        Some(false) => return Err(FreshLogParseError::UnexpectedData),
        Some(true) => {},
    }
    proof {
        lemma_skip_units_bounds(data@, p1 as int, 10);
    }
    let (found, n) = skip_until_unit(data, p1, 10);
    let p2: usize = if found {
        p1 + n as usize
    } else {
        data.len()
    };
    let c = encode_text_utf16(chars_of(FLEET_LOG_LISTENER).as_slice());
    let (m2, p3) = read_expected_units(data, p2, c.as_slice());
    match m2 {
        None => return Err(FreshLogParseError::UnexpectedEof),
        Some(false) => return Err(FreshLogParseError::UnexpectedData),
        Some(true) => {},
    }
    let (_f, name, p4) = read_until_unit(data, p3, 10);
    let s = encode_text_utf16(chars_of(FLEET_LOG_SESSION).as_slice());
    let (m3, p5) = read_expected_units(data, p4, s.as_slice());
    match m3 {
        None => return Err(FreshLogParseError::UnexpectedEof),
        Some(false) => return Err(FreshLogParseError::UnexpectedData),
        Some(true) => {},
    }
    let (_g, date, _p6) = read_until_unit(data, p5, 10);
    Ok((name, date))
}

/// Reads a new fleet log's header: whose log it is and when its session
/// started. The header must be readable (see `try_parse_fresh_fleet_logs`).
pub fn parse_fresh_fleet_logs(path: String, data: &[u8]) -> (r: Result<PotentialLog, FreshLogParseError>)
    requires
        fleet_header_readable(data@),
    ensures
        match fleet_header_fields(data@) {
            Ok((n, d)) => r matches Ok(log) && log.path@ == path@ && log.name@ == decode_utf16le_lossy(n)
                && Some(log.date) == parsed_date_time(decode_utf16le_lossy(d), SESSION_START_FORMAT@),
            Err(e) => r matches Err(re) && re == e,
        },
{
    let (name_bytes, date_bytes) = match read_fleet_header_fields(data) {
        Ok(f) => f,
        Err(e) => return Err(e),
    };
    let name = string_from_chars(from_utf16le_lossy(name_bytes.as_slice()).as_slice());
    let date_raw = string_from_chars(from_utf16le_lossy(date_bytes.as_slice()).as_slice());
    let date = parse_date_time(date_raw.as_str(), SESSION_START_FORMAT).unwrap();
    Ok(PotentialLog { path, date, name })
}

/// `parse_fresh_fleet_logs` where the header can be read; `None` where the
/// session start is not a date.
pub fn try_parse_fresh_fleet_logs(path: String, data: &[u8]) -> (r: Option<Result<PotentialLog, FreshLogParseError>>)
    ensures
        r is Some <==> fleet_header_readable(data@),
        r matches Some(res) ==> match fleet_header_fields(data@) {
            Ok((n, d)) => res matches Ok(log) && log.path@ == path@ && log.name@ == decode_utf16le_lossy(n)
                && Some(log.date) == parsed_date_time(decode_utf16le_lossy(d), SESSION_START_FORMAT@),
            Err(e) => res matches Err(re) && re == e,
        },
{
    match read_fleet_header_fields(data) {
        Err(e) => Some(Err(e)),
        Ok((_name_bytes, date_bytes)) => {
            let date_raw = string_from_chars(from_utf16le_lossy(date_bytes.as_slice()).as_slice());
            if parse_date_time(date_raw.as_str(), SESSION_START_FORMAT).is_none() {
                return None;
            }
            Some(parse_fresh_fleet_logs(path, data))
        },
    }
}


// ---------------------------------------------------------------------------
// Where reading a new log starts
// ---------------------------------------------------------------------------

/// How many bytes of a new log to skip before its first entry: everything
/// before the first `[`. A fleet log counts in UTF-16 units from its first
/// byte; `None` when it has no `[`. A game log with no `[` skips all but its
/// last byte; `None` when it is empty.
pub open spec fn new_log_seek_amount(data: Seq<u8>, log_type: LogType) -> Option<u64> {
    match log_type {
        LogType::Fleet => {
            let r = skip_units(data, 0, 0x5B);
            if r.0 {
                Some((r.1 - 2) as u64)
            } else {
                None
            }
        },
        LogType::Game => {
            let f = find_byte_from(data, 0, 0x5B);
            let n = if f < data.len() {
                f + 1
            } else {
                data.len() as int
            };
            if n >= 1 {
                Some((n - 1) as u64)
            } else {
                None
            }
        },
    }
}

/// Where reading a new log should start (see `new_log_seek_amount`).
pub fn get_new_log_seek_amount(data: &[u8], log_type: LogType) -> (r: Option<u64>)
    ensures
        r == new_log_seek_amount(data@, log_type),
{
    match log_type {
        LogType::Fleet => {
            proof {
                lemma_skip_units_bounds(data@, 0, 0x5B);
            }
            let (found, n) = skip_until_unit(data, 0, 0x5B);
            if found {
                Some(n - 2)
            } else {
                None
            }
        },
        LogType::Game => {
            let (read, _p) = read_until(data, 0, 0x5B);
            proof {
                lemma_find_byte_from(data@, 0, 0x5B);
            }
            let n = read.len();
            if n >= 1 {
                Some((n - 1) as u64)
            } else {
                None
            }
        },
    }
}

// ---------------------------------------------------------------------------
// New lines of a followed log
// ---------------------------------------------------------------------------

/// A log the engine follows: how far it has been read, its kind, and whose
/// log it is.
#[derive(Debug)]
pub struct Log {
    pub seek_len: u64,
    pub log_type: LogType,
    pub account: String,
}

/// The byte order mark that opens a fleet log's text.
pub const BYTE_ORDER_MARK: char = '\u{FEFF}';

/// The text of bytes newly appended to a log. For a fleet log a byte order
/// mark opening the decoded text is dropped (it starts the file).
pub open spec fn new_log_text(data: Seq<u8>, log_type: LogType) -> Seq<char> {
    match log_type {
        LogType::Game => decode_utf8(data),
        LogType::Fleet => {
            let t = decode_utf16le_lossy(data);
            if t.len() > 0 && t[0] == BYTE_ORDER_MARK {
                t.drop_first()
            } else {
                t
            }
        },
    }
}

/// Appended bytes that can be read: UTF-8 for a game log; any bytes for a
/// fleet log, which is decoded lossily.
pub open spec fn new_log_readable(data: Seq<u8>, log_type: LogType) -> bool {
    match log_type {
        LogType::Game => valid_utf8(data),
        LogType::Fleet => true,
    }
}

/// The entries of appended text: its lines, each trimmed, without the piece
/// after the last line break.
pub open spec fn log_lines(text: Seq<char>) -> Seq<Seq<char>> {
    split_on(text, '\n').map_values(|l: Seq<char>| trim(l)).drop_last()
}

/// Every entry read from a log has no whitespace at either end.
pub proof fn law_entries_are_trimmed(text: Seq<char>)
    ensures
        forall|i: int| 0 <= i < log_lines(text).len() ==> {
            let line = #[trigger] log_lines(text)[i];
            line.len() > 0 ==> !crate::text::is_white_space(line[0]) && !crate::text::is_white_space(line.last())
        },
{
    crate::text::lemma_split_on_nonempty(text, '\n');
    let mapped = split_on(text, '\n').map_values(|l: Seq<char>| trim(l));
    assert forall|i: int| 0 <= i < log_lines(text).len() implies {
        let line = #[trigger] log_lines(text)[i];
        line.len() > 0 ==> !crate::text::is_white_space(line[0]) && !crate::text::is_white_space(line.last())
    } by {
        let piece = split_on(text, '\n')[i];
        assert(mapped[i] == trim(piece));
        assert(log_lines(text)[i] == mapped[i]);
        crate::text::law_trim_leaves_no_white_space_at_ends(piece);
    }
}

/// The entries of `text` (see `log_lines`).
pub fn lines_of(text: &[char]) -> (r: Vec<String>)
    ensures
        r@.len() == log_lines(text@).len(),
        forall|i: int| 0 <= i < r@.len() ==> (#[trigger] r@[i])@ == log_lines(text@)[i],
{
    let pieces = split_chars(text, '\n');
    let mut out: Vec<String> = Vec::new();
    let mut i: usize = 0;
    while i < pieces.len()
        invariant
            i <= pieces@.len(),
            pieces@.len() == split_on(text@, '\n').len(),
            forall|k: int| 0 <= k < pieces@.len() ==> (#[trigger] pieces@[k])@ == split_on(text@, '\n')[k],
            out@.len() == i,
            forall|k: int| 0 <= k < i ==> (#[trigger] out@[k])@ == trim(split_on(text@, '\n')[k]),
        decreases pieces.len() - i,
    {
        let t = trim_chars(pieces[i].as_slice());
        out.push(string_from_chars(t.as_slice()));
        i = i + 1;
    }
    proof {
        crate::text::lemma_split_on_nonempty(text@, '\n');
    }
    let ghost full = out@;
    out.pop();
    proof {
        let ll = log_lines(text@);
        let mapped = split_on(text@, '\n').map_values(|l: Seq<char>| trim(l));
        assert(out@ =~= full.drop_last());
        assert(ll.len() == out@.len());
        assert forall|i: int| 0 <= i < out@.len() implies (#[trigger] out@[i])@ == ll[i] by {
            assert(full[i]@ == trim(split_on(text@, '\n')[i]));
            assert(mapped[i] == trim(split_on(text@, '\n')[i]));
        }
    }
    out
}

impl Log {
    /// Takes in the bytes appended to the log since it was last read: moves
    /// the read position past them and hands back their entries.
    pub fn parse_new_logs(&mut self, data: &[u8]) -> (r: Vec<String>)
        requires
            old(self).seek_len + data@.len() <= u64::MAX,
            new_log_readable(data@, old(self).log_type),
        ensures
            final(self).seek_len == old(self).seek_len + data@.len(),
            final(self).log_type == old(self).log_type,
            final(self).account == old(self).account,
            r@.len() == log_lines(new_log_text(data@, old(self).log_type)).len(),
            forall|i: int| 0 <= i < r@.len() ==> (#[trigger] r@[i])@ == log_lines(
                new_log_text(data@, old(self).log_type),
            )[i],
    {
        self.seek_len = self.seek_len + data.len() as u64;
        let text: Vec<char> = match self.log_type.encoding() {
            Encoding::UTF8 => chars_of(utf8_text(data).unwrap().as_str()),
            Encoding::UTF16 => {
                let all = from_utf16le_lossy(data);
                if all.len() == 0 || all[0] != BYTE_ORDER_MARK {
                    all
                } else {
                    let mut rest: Vec<char> = Vec::new();
                    let mut i: usize = 1;
                    while i < all.len()
                        invariant
                            1 <= i <= all@.len(),
                            rest@ == all@.subrange(1, i as int),
                        decreases all.len() - i,
                    {
                        rest.push(all[i]);
                        i = i + 1;
                        assert(rest@ =~= all@.subrange(1, i as int));
                    }
                    assert(rest@ =~= all@.drop_first());
                    rest
                }
            },
        };
        lines_of(text.as_slice())
    }
}


// ---------------------------------------------------------------------------
// The engine's state: followed logs and new files waiting to be read
// ---------------------------------------------------------------------------

/// How long a newly created file is left alone before its header is read,
/// in milliseconds.
pub const NEW_LOG_WAIT_PERIOD_MS: u64 = 1000;

/// A newly created file, to be read once `wait_until` (milliseconds on the
/// caller's clock) has come.
#[derive(Debug)]
pub struct ToAddLog {
    pub path: String,
    pub wait_until: u64,
}

/// The kinds of file system event the engine tells apart.
#[derive(Debug, Clone, Copy, PartialEq, Eq, Structural)]
pub enum WatchEventKind {
    /// A file's content or metadata changed.
    Modify,
    /// A file was created.
    CreateFile,
    /// Anything else.
    Other,
}

/// A log found when the engine starts: its path, kind, listener and length.
#[derive(Debug)]
pub struct FoundLog {
    pub path: String,
    pub log_type: LogType,
    pub name: String,
    pub len: u64,
}

/// What became of a file offered as a new log.
#[derive(Debug, Clone, Copy, PartialEq, Eq, Structural)]
pub enum NewLogOutcome {
    /// It is now followed.
    Added,
    /// Its header is not a log header.
    NotALog,
    /// It ended inside its header.
    ReadError,
    /// Nothing in it says where its entries start.
    NoSeekPosition,
    /// Its header cannot be read (see `game_header_readable`,
    /// `fleet_header_readable`).
    Unreadable,
}

/// The result of reading a fresh log's header: the listener's name.
pub open spec fn fresh_log_name(data: Seq<u8>, log_type: LogType) -> Result<Seq<char>, FreshLogParseError> {
    match log_type {
        LogType::Game => match game_header_fields(data) {
            Ok((n, _d)) => Ok(game_log_name(n)),
            Err(e) => Err(e),
        },
        LogType::Fleet => match fleet_header_fields(data) {
            Ok((n, _d)) => Ok(decode_utf16le_lossy(n)),
            Err(e) => Err(e),
        },
    }
}

/// A fresh log's header can be read without failing.
pub open spec fn fresh_log_readable(data: Seq<u8>, log_type: LogType) -> bool {
    match log_type {
        LogType::Game => game_header_readable(data),
        LogType::Fleet => fleet_header_readable(data),
    }
}

/// Reads a fresh log's header of either kind; `None` where reading it would
/// fail (see `fresh_log_readable`).
pub fn try_parse_fresh_log(path: String, log_type: LogType, data: &[u8]) -> (r: Option<Result<PotentialLog, FreshLogParseError>>)
    ensures
        r is Some <==> fresh_log_readable(data@, log_type),
        r matches Some(res) ==> match fresh_log_name(data@, log_type) {
            Ok(name) => res matches Ok(log) && log.path@ == path@ && log.name@ == name,
            Err(e) => res matches Err(re) && re == e,
        },
{
    match log_type {
        LogType::Game => try_parse_fresh_game_logs(path, data),
        LogType::Fleet => try_parse_fresh_fleet_logs(path, data),
    }
}

/// The directory part of a file's path: what comes before its last `/`;
/// `None` for a path with no `/`.
pub open spec fn dir_part(p: Seq<char>) -> Option<Seq<char>>
    decreases p.len(),
{
    if p.len() == 0 {
        None
    } else if p.last() == '/' {
        Some(p.drop_last())
    } else {
        dir_part(p.drop_last())
    }
}

/// `p` without the `/`s that end it.
pub open spec fn without_trailing_slashes(p: Seq<char>) -> Seq<char>
    decreases p.len(),
{
    if p.len() > 0 && p.last() == '/' {
        without_trailing_slashes(p.drop_last())
    } else {
        p
    }
}

/// The kind of log a file newly created at `path` would be, for the log
/// directory `location`: a fleet log in the chat log directory, a game log in
/// the game log directory, none elsewhere.
pub open spec fn new_file_log_type(path: Seq<char>, location: Seq<char>) -> Option<LogType> {
    let dir = dir_part(path);
    if dir == Some(without_trailing_slashes(join_path(location, CHAT_LOGS_EXTENTION@))) {
        Some(LogType::Fleet)
    } else if dir == Some(without_trailing_slashes(join_path(location, GAME_LOGS_EXTENTION@))) {
        Some(LogType::Game)
    } else {
        None
    }
}

fn strip_trailing_slashes(p: String) -> (r: String)
    ensures
        r@ == without_trailing_slashes(p@),
{
    let cs = chars_of(p.as_str());
    let mut j: usize = cs.len();
    assert(cs@.take(j as int) =~= cs@);
    while j > 0 && cs[j - 1] == '/'
        invariant
            cs@ == p@,
            j <= cs.len(),
            without_trailing_slashes(p@) == without_trailing_slashes(cs@.take(j as int)),
        decreases j,
    {
        assert(cs@.take(j as int).drop_last() =~= cs@.take(j - 1));
        j = j - 1;
    }
    let out = prefix_chars(cs.as_slice(), j);
    string_from_chars(out.as_slice())
}

fn prefix_chars(cs: &[char], n: usize) -> (r: Vec<char>)
    requires
        n <= cs@.len(),
    ensures
        r@ == cs@.take(n as int),
{
    let mut out: Vec<char> = Vec::new();
    let mut k: usize = 0;
    while k < n
        invariant
            n <= cs@.len(),
            k <= n,
            out@ == cs@.take(k as int),
        decreases n - k,
    {
        out.push(cs[k]);
        k = k + 1;
        assert(out@ =~= cs@.take(k as int));
    }
    out
}

/// The directory part of `path` (see `dir_part`).
fn dir_of(path: &str) -> (r: Option<String>)
    ensures
        match r {
            Some(d) => dir_part(path@) == Some(d@),
            None => dir_part(path@) is None,
        },
{
    let cs = chars_of(path);
    let mut j: usize = cs.len();
    assert(cs@.take(j as int) =~= cs@);
    while j > 0 && cs[j - 1] != '/'
        invariant
            cs@ == path@,
            j <= cs.len(),
            dir_part(path@) == dir_part(cs@.take(j as int)),
        decreases j,
    {
        assert(cs@.take(j as int).drop_last() =~= cs@.take(j - 1));
        j = j - 1;
    }
    if j == 0 {
        return None;
    }
    assert(cs@.take(j as int).drop_last() =~= cs@.take(j - 1));
    let out = prefix_chars(cs.as_slice(), j - 1);
    Some(string_from_chars(out.as_slice()))
}

/// The kind of log a file newly created at `path` would be (see
/// `new_file_log_type`).
pub fn log_type_of_new_file(path: &str, location: &str) -> (r: Option<LogType>)
    ensures
        r == new_file_log_type(path@, location@),
{
    let dir = match dir_of(path) {
        None => return None,
        Some(d) => d,
    };
    let chat = strip_trailing_slashes(get_chat_logs(location.to_owned()));
    if crate::text::same_text(dir.as_str(), chat.as_str()) {
        return Some(LogType::Fleet);
    }
    let game = strip_trailing_slashes(get_game_logs(location.to_owned()));
    if crate::text::same_text(dir.as_str(), game.as_str()) {
        return Some(LogType::Game);
    }
    None
}

/// What the scan of the log directories at start makes of one file.
#[derive(Debug)]
pub enum ScanOutcome {
    /// A log, to be followed from its current end.
    Found(FoundLog),
    /// Not a log of the kind looked for; it is passed over.
    NotALog,
    /// The file ends inside its header; the scan cannot go on.
    EndedInHeader,
    /// Its header cannot be read (see `fresh_log_readable`).
    Unreadable,
}

/// Scans one file of a log directory: `path` holding `data`, `len` bytes long,
/// in the directory of logs of kind `log_type`.
pub fn scan_log_file(path: String, log_type: LogType, data: &[u8], len: u64) -> (r: ScanOutcome)
    ensures
        !fresh_log_readable(data@, log_type) ==> r is Unreadable,
        fresh_log_readable(data@, log_type) ==> match fresh_log_name(data@, log_type) {
            Err(FreshLogParseError::UnexpectedData) => r is NotALog,
            Err(FreshLogParseError::UnexpectedEof) => r is EndedInHeader,
            Ok(name) => r matches ScanOutcome::Found(f) && f.path@ == path@ && f.log_type == log_type
                && f.name@ == name && f.len == len,
        },
{
    match try_parse_fresh_log(path, log_type, data) {
        None => ScanOutcome::Unreadable,
        Some(Err(FreshLogParseError::UnexpectedData)) => ScanOutcome::NotALog,
        Some(Err(FreshLogParseError::UnexpectedEof)) => ScanOutcome::EndedInHeader,
        Some(Ok(log)) => ScanOutcome::Found(FoundLog { path: log.path, log_type, name: log.name, len }),
    }
}

/// The newly created files among `pending` whose wait is over at `now`, in order.
pub open spec fn due_part(pending: Seq<(Seq<char>, u64)>, now: u64) -> Seq<(Seq<char>, u64)>
    decreases pending.len(),
{
    if pending.len() == 0 {
        pending
    } else {
        let prev = due_part(pending.drop_last(), now);
        if now >= pending.last().1 {
            prev.push(pending.last())
        } else {
            prev
        }
    }
}

/// The newly created files among `pending` still waiting at `now`, in order.
pub open spec fn waiting_part(pending: Seq<(Seq<char>, u64)>, now: u64) -> Seq<(Seq<char>, u64)>
    decreases pending.len(),
{
    if pending.len() == 0 {
        pending
    } else {
        let prev = waiting_part(pending.drop_last(), now);
        if now >= pending.last().1 {
            prev
        } else {
            prev.push(pending.last())
        }
    }
}

/// Taking out the due files splits the waiting ones in two: every due file's
/// wait is over, every other's is not, and none is lost or added.
pub proof fn law_due_and_waiting_split_pending(pending: Seq<(Seq<char>, u64)>, now: u64)
    ensures
        due_part(pending, now).len() + waiting_part(pending, now).len() == pending.len(),
        forall|i: int| 0 <= i < due_part(pending, now).len() ==> #[trigger] due_part(pending, now)[i].1 <= now,
        forall|i: int| 0 <= i < waiting_part(pending, now).len() ==> #[trigger] waiting_part(pending, now)[i].1 > now,
    decreases pending.len(),
{
    if pending.len() > 0 {
        law_due_and_waiting_split_pending(pending.drop_last(), now);
    }
}

/// The paths of `paths` that the engine follows.
pub open spec fn followed_paths(paths: Seq<Seq<char>>, logs: Map<Seq<char>, Log>) -> Seq<Seq<char>>
    decreases paths.len(),
{
    if paths.len() == 0 {
        paths
    } else {
        let prev = followed_paths(paths.drop_last(), logs);
        if logs.contains_key(paths.last()) {
            prev.push(paths.last())
        } else {
            prev
        }
    }
}

/// The paths of `paths` that the engine does not follow, as files waiting
/// until `until`.
pub open spec fn unfollowed_paths(paths: Seq<Seq<char>>, logs: Map<Seq<char>, Log>, until: u64) -> Seq<(Seq<char>, u64)>
    decreases paths.len(),
{
    if paths.len() == 0 {
        Seq::empty()
    } else {
        let prev = unfollowed_paths(paths.drop_last(), logs, until);
        if logs.contains_key(paths.last()) {
            prev
        } else {
            prev.push((paths.last(), until))
        }
    }
}

/// The listeners among the logs found.
pub open spec fn found_names(found: Seq<FoundLog>) -> Set<Seq<char>>
    decreases found.len(),
{
    if found.len() == 0 {
        Set::empty()
    } else {
        found_names(found.drop_last()).insert(found.last().name@)
    }
}

/// What the engine records of a followed log: read position, kind, listener.
pub open spec fn log_view(log: Log) -> (u64, LogType, Seq<char>) {
    (log.seek_len, log.log_type, log.account@)
}

/// The logs found at start by path; a later one under the same path
/// replaces an earlier one.
pub open spec fn found_map(found: Seq<FoundLog>) -> Map<Seq<char>, (u64, LogType, Seq<char>)>
    decreases found.len(),
{
    if found.len() == 0 {
        Map::empty()
    } else {
        found_map(found.drop_last()).insert(
            found.last().path@,
            (found.last().len, found.last().log_type, found.last().name@),
        )
    }
}

/// The engine's record of followed logs and new files waiting to be read.
pub struct Engine {
    logs: crate::text_map::TextMap<Log>,
    new_logs_to_add: Vec<ToAddLog>,
}

impl Engine {
    /// The followed logs, by path.
    pub closed spec fn logs_map(self) -> Map<Seq<char>, Log> {
        self.logs.as_map()
    }

    /// The files waiting to be read, in the order they were created.
    pub closed spec fn pending(self) -> Seq<(Seq<char>, u64)> {
        self.new_logs_to_add@.map_values(|t: ToAddLog| (t.path@, t.wait_until))
    }

    /// Follows the logs found at start, each from its current end, and lists
    /// the listeners among them, sorted and each once.
    pub fn new(found: Vec<FoundLog>) -> (r: (Engine, Vec<String>))
        ensures
            r.0.pending() == Seq::<(Seq<char>, u64)>::empty(),
            r.0.logs_map().map_values(|l: Log| log_view(l)) == found_map(found@),
            crate::text_map::strictly_sorted(texts(r.1@)),
            texts(r.1@).to_set() == found_names(found@),
    {
        let mut logs: crate::text_map::TextMap<Log> = crate::text_map::TextMap::new();
        let mut names: crate::text_map::TextMap<()> = crate::text_map::TextMap::new();
        let mut k: usize = 0;
        assert(found@.take(0) =~= Seq::<FoundLog>::empty());
        assert(logs.as_map().map_values(|l: Log| log_view(l)) =~= found_map(found@.take(0)));
        assert(names.as_map().dom() =~= found_names(found@.take(0)));
        while k < found.len()
            invariant
                k <= found@.len(),
                logs.as_map().map_values(|l: Log| log_view(l)) == found_map(found@.take(k as int)),
                names.as_map().dom() == found_names(found@.take(k as int)),
            decreases found.len() - k,
        {
            let f = &found[k];
            let ghost prev_logs = logs.as_map();
            let ghost prev_names = names.as_map();
            names.insert(f.name.clone(), ());
            logs.insert(f.path.clone(), Log { seek_len: f.len, log_type: f.log_type, account: f.name.clone() });
            assert(found@.take(k + 1).drop_last() =~= found@.take(k as int));
            assert(found@.take(k + 1).last() == found@[k as int]);
            assert(logs.as_map().map_values(|l: Log| log_view(l)) =~= prev_logs.map_values(|l: Log| log_view(l)).insert(f.path@, (f.len, f.log_type, f.name@)));
            assert(names.as_map().dom() =~= prev_names.dom().insert(f.name@));
            k = k + 1;
        }
        assert(found@.take(found@.len() as int) =~= found@);
        let characters = names.keys();
        proof {
            let ks = texts(characters@);
            assert(ks =~= names.key_seq());
            assert forall|p: Seq<char>| ks.to_set().contains(p) <==> names.as_map().dom().contains(p) by {
                if ks.to_set().contains(p) {
                    assert(ks.contains(p));
                }
            }
            assert(ks.to_set() =~= found_names(found@));
        }
        let engine = Engine { logs, new_logs_to_add: Vec::new() };
        assert(engine.pending() =~= Seq::<(Seq<char>, u64)>::empty());
        (engine, characters)
    }

    /// Whether the engine follows the log at `path`.
    pub fn follows(&self, path: &str) -> (r: bool)
        ensures
            r == self.logs_map().contains_key(path@),
    {
        self.logs.contains_key(path)
    }

    /// How far the log at `path` has been read, if the engine follows it.
    pub fn seek_len_of(&self, path: &str) -> (r: Option<u64>)
        ensures
            r == if self.logs_map().contains_key(path@) {
                Some(self.logs_map()[path@].seek_len)
            } else {
                None
            },
    {
        match self.logs.get(path) {
            Some(log) => Some(log.seek_len),
            None => None,
        }
    }

    /// The kind of the log at `path`, if the engine follows it.
    pub fn log_type_of(&self, path: &str) -> (r: Option<LogType>)
        ensures
            r == if self.logs_map().contains_key(path@) {
                Some(self.logs_map()[path@].log_type)
            } else {
                None
            },
    {
        match self.logs.get(path) {
            Some(log) => Some(log.log_type),
            None => None,
        }
    }

    /// Takes a file system event on `paths`. On a change, the followed logs
    /// among them are handed back, in order, to be read; on a file's creation
    /// the files not followed are set to be read once the wait period from
    /// `now` is over; any other event is ignored.
    pub fn handle_event(&mut self, kind: WatchEventKind, paths: &[String], now: u64) -> (r: Vec<String>)
        requires
            now + NEW_LOG_WAIT_PERIOD_MS <= u64::MAX,
        ensures
            final(self).logs_map() == old(self).logs_map(),
            texts(r@) == if kind == WatchEventKind::Modify {
                followed_paths(texts(paths@), old(self).logs_map())
            } else {
                Seq::empty()
            },
            final(self).pending() == if kind == WatchEventKind::CreateFile {
                old(self).pending() + unfollowed_paths(texts(paths@), old(self).logs_map(), (now + NEW_LOG_WAIT_PERIOD_MS) as u64)
            } else {
                old(self).pending()
            },
    {
        let ghost old_pending = self.pending();
        let until = now + NEW_LOG_WAIT_PERIOD_MS;
        let mut reads: Vec<String> = Vec::new();
        let mut i: usize = 0;
        assert(texts(paths@).take(0) =~= Seq::<Seq<char>>::empty());
        while i < paths.len()
            invariant
                i <= paths@.len(),
                self.logs_map() == old(self).logs_map(),
                texts(reads@) == if kind == WatchEventKind::Modify {
                    followed_paths(texts(paths@).take(i as int), old(self).logs_map())
                } else {
                    Seq::empty()
                },
                self.pending() == if kind == WatchEventKind::CreateFile {
                    old_pending + unfollowed_paths(texts(paths@).take(i as int), old(self).logs_map(), until)
                } else {
                    old_pending
                },
            decreases paths.len() - i,
        {
            let path = &paths[i];
            let ghost before = texts(paths@).take(i as int);
            let tracked_log = self.logs.contains_key(path.as_str());
            assert(texts(paths@).take(i + 1).drop_last() =~= before);
            assert(texts(paths@).take(i + 1).last() == path@);
            if tracked_log {
                if kind == WatchEventKind::Modify {
                    reads.push(path.clone());
                    assert(texts(reads@) =~= texts(reads@).drop_last().push(path@));
                }
            } else if kind == WatchEventKind::CreateFile {
                let ghost prev_pending = self.pending();
                self.new_logs_to_add.push(ToAddLog { path: path.clone(), wait_until: until });
                assert(self.pending() =~= prev_pending.push((path@, until)));
                assert(old_pending + unfollowed_paths(before, old(self).logs_map(), until).push((path@, until)) =~= (old_pending + unfollowed_paths(before, old(self).logs_map(), until)).push((path@, until)));
            }
            i = i + 1;
        }
        assert(texts(paths@).take(paths@.len() as int) =~= texts(paths@));
        reads
    }

    /// Takes out the waiting files whose wait is over at `now`, in the order
    /// they were created; the others keep waiting, in order.
    pub fn take_due(&mut self, now: u64) -> (r: Vec<ToAddLog>)
        ensures
            final(self).logs_map() == old(self).logs_map(),
            r@.map_values(|t: ToAddLog| (t.path@, t.wait_until)) == due_part(old(self).pending(), now),
            final(self).pending() == waiting_part(old(self).pending(), now),
    {
        let ghost all = self.pending();
        let mut rest: Vec<ToAddLog> = Vec::new();
        std::mem::swap(&mut rest, &mut self.new_logs_to_add);
        let mut rev: Vec<ToAddLog> = Vec::new();
        while rest.len() > 0
            invariant
                self.logs_map() == old(self).logs_map(),
                all.len() == rest@.len() + rev@.len(),
                forall|i: int| 0 <= i < rest@.len() ==> (#[trigger] rest@[i]).path@ == all[i].0 && rest@[i].wait_until == all[i].1,
                forall|i: int| 0 <= i < rev@.len() ==> (#[trigger] rev@[i]).path@ == all[all.len() - 1 - i].0 && rev@[i].wait_until == all[all.len() - 1 - i].1,
            decreases rest.len(),
        {
            let t = rest.pop().unwrap();
            rev.push(t);
        }
        let mut due: Vec<ToAddLog> = Vec::new();
        let mut k: usize = 0;
        let n = rev.len();
        assert(all.take(0) =~= Seq::<(Seq<char>, u64)>::empty());
        while rev.len() > 0
            invariant
                self.logs_map() == old(self).logs_map(),
                n == all.len(),
                k + rev@.len() == n,
                forall|i: int| 0 <= i < rev@.len() ==> (#[trigger] rev@[i]).path@ == all[n - 1 - i].0 && rev@[i].wait_until == all[n - 1 - i].1,
                due@.map_values(|t: ToAddLog| (t.path@, t.wait_until)) == due_part(all.take(k as int), now),
                self.new_logs_to_add@.map_values(|t: ToAddLog| (t.path@, t.wait_until)) == waiting_part(all.take(k as int), now),
            decreases rev.len(),
        {
            let t = rev.pop().unwrap();
            assert(all.take(k + 1).drop_last() =~= all.take(k as int));
            assert(all.take(k + 1).last() == (t.path@, t.wait_until));
            if now >= t.wait_until {
                let ghost prev = due@.map_values(|t: ToAddLog| (t.path@, t.wait_until));
                due.push(t);
                assert(due@.map_values(|t: ToAddLog| (t.path@, t.wait_until)) =~= prev.push(all[k as int]));
            } else {
                let ghost prev = self.new_logs_to_add@.map_values(|t: ToAddLog| (t.path@, t.wait_until));
                self.new_logs_to_add.push(t);
                assert(self.new_logs_to_add@.map_values(|t: ToAddLog| (t.path@, t.wait_until)) =~= prev.push(all[k as int]));
            }
            k = k + 1;
        }
        assert(all.take(n as int) =~= all);
        due
    }

    /// Offers a file as a new log of kind `log_type`, `data` being its bytes.
    /// A readable log header with a place where entries start gets the file
    /// followed from that place, under the listener the header names.
    pub fn try_add_new_log(&mut self, path: String, log_type: LogType, data: &[u8]) -> (r: NewLogOutcome)
        ensures
            !fresh_log_readable(data@, log_type) ==> r == NewLogOutcome::Unreadable && final(self).logs_map() == old(self).logs_map(),
            fresh_log_readable(data@, log_type) ==> match fresh_log_name(data@, log_type) {
                Err(FreshLogParseError::UnexpectedData) => r == NewLogOutcome::NotALog && final(self).logs_map() == old(self).logs_map(),
                Err(FreshLogParseError::UnexpectedEof) => r == NewLogOutcome::ReadError && final(self).logs_map() == old(self).logs_map(),
                Ok(name) => match new_log_seek_amount(data@, log_type) {
                    None => r == NewLogOutcome::NoSeekPosition && final(self).logs_map() == old(self).logs_map(),
                    Some(seek) => r == NewLogOutcome::Added
                        && final(self).logs_map().dom() == old(self).logs_map().dom().insert(path@)
                        && (forall|p: Seq<char>| p != path@ && #[trigger] old(self).logs_map().contains_key(p) ==> final(self).logs_map()[p] == old(self).logs_map()[p])
                        && final(self).logs_map()[path@].seek_len == seek
                        && final(self).logs_map()[path@].log_type == log_type
                        && final(self).logs_map()[path@].account@ == name,
                },
            },
            final(self).pending() == old(self).pending(),
    {
        let ghost p = path@;
        let parsed = match try_parse_fresh_log(path, log_type, data) {
            None => return NewLogOutcome::Unreadable,
            Some(res) => res,
        };
        let log = match parsed {
            Err(FreshLogParseError::UnexpectedData) => return NewLogOutcome::NotALog,
            Err(FreshLogParseError::UnexpectedEof) => return NewLogOutcome::ReadError,
            Ok(log) => log,
        };
        let seek = match get_new_log_seek_amount(data, log_type) {
            None => return NewLogOutcome::NoSeekPosition,
            Some(s) => s,
        };
        let ghost old_map = self.logs.as_map();
        self.logs.insert(log.path, Log { seek_len: seek, log_type, account: log.name });
        proof {
            assert(self.logs.as_map().dom() =~= old_map.dom().insert(p));
        }
        NewLogOutcome::Added
    }

    /// Reads the bytes appended to the followed log at `path` since it was last
    /// read (see `Log::parse_new_logs`): its kind, whose log it is, and its new
    /// entries. `None`, with nothing changed, for a log the engine does not
    /// follow.
    pub fn parse_new_logs(&mut self, path: &str, data: &[u8]) -> (r: Option<(LogType, String, Vec<String>)>)
        requires
            old(self).logs_map().contains_key(path@) ==> old(self).logs_map()[path@].seek_len + data@.len() <= u64::MAX
                && new_log_readable(data@, old(self).logs_map()[path@].log_type),
        ensures
            final(self).pending() == old(self).pending(),
            !old(self).logs_map().contains_key(path@) ==> r is None && final(self).logs_map() == old(self).logs_map(),
            old(self).logs_map().contains_key(path@) ==> {
                let log = old(self).logs_map()[path@];
                &&& r matches Some((t, account, lines)) && t == log.log_type && account@ == log.account@
                    && texts(lines@) == log_lines(new_log_text(data@, log.log_type))
                &&& final(self).logs_map().dom() == old(self).logs_map().dom()
                &&& forall|p: Seq<char>| p != path@ && #[trigger] old(self).logs_map().contains_key(p) ==> final(self).logs_map()[p] == old(self).logs_map()[p]
                &&& final(self).logs_map()[path@].seek_len == log.seek_len + data@.len()
                &&& final(self).logs_map()[path@].log_type == log.log_type
                &&& final(self).logs_map()[path@].account == log.account
            },
    {
        let ghost old_map = self.logs.as_map();
        let mut log = match self.logs.remove(path) {
            None => return None,
            Some(l) => l,
        };
        let lines = log.parse_new_logs(data);
        let log_type = log.log_type;
        let account = log.account.clone();
        let key = crate::text::string_from_chars(chars_of(path).as_slice());
        self.logs.insert(key, log);
        proof {
            assert(self.logs.as_map().dom() =~= old_map.dom());
            assert(texts(lines@) =~= log_lines(new_log_text(data@, log_type)));
        }
        Some((log_type, account, lines))
    }
}

} // verus!
