use chrono::NaiveDate;
use eve_log_scripts::engine::{
    get_chat_logs, get_game_logs, log_dir_candidates, log_type_of_new_file, scan_log_file, ScanOutcome, get_new_log_seek_amount, lines_of, parse_fresh_fleet_logs, parse_fresh_game_logs,
    read_expected, read_expected_units, read_fleet_header_fields, read_game_header_fields, read_until, read_until_unit,
    skip_until_unit, try_parse_fresh_fleet_logs, try_parse_fresh_game_logs, try_parse_fresh_log, Encoding, Engine,
    FoundLog, FreshLogParseError, Log, LogType, NewLogOutcome, WatchEventKind, CHAT_LOGS_EXTENTION, GAME_LOGS_EXTENTION,
    NEW_LOG_WAIT_PERIOD_MS,
};

const GAME_LOG: &str = "------------------------------------------------------------\r\n  Gamelog\r\n  Listener: Alice Miner\r\n  Session Started: 2024.01.02 03:04:05\r\n------------------------------------------------------------\r\n[ 2024.01.02 03:04:06 ] (notify) Hello\r\n";

fn fleet_text(name: &str, date: &str) -> String {
    format!(
        "\r\n\r\n\n\n        ---------------------------------------------------------------\n\n          Channel ID:      fleet_1234567\n          Channel Name:    Fleet\n          Listener:        {name}\n          Session started: {date}\n        ---------------------------------------------------------------\n\n[ 2024.01.02 03:04:06 ] {name} > hello\n"
    )
}

fn utf16le(s: &str) -> Vec<u8> {
    s.encode_utf16().flat_map(|u| u.to_le_bytes()).collect()
}

fn fleet_log(name: &str, date: &str) -> Vec<u8> {
    let mut bytes = vec![0xFF, 0xFE];
    bytes.extend(utf16le(&fleet_text(name, date)));
    bytes
}

fn session_start() -> chrono::NaiveDateTime {
    NaiveDate::from_ymd_opt(2024, 1, 2).unwrap().and_hms_opt(3, 4, 5).unwrap()
}

#[test]
fn log_kinds_and_encodings() {
    assert_eq!(LogType::Game.encoding(), Encoding::UTF8);
    assert_eq!(LogType::Fleet.encoding(), Encoding::UTF16);
}

#[test]
fn log_directories_are_joined() {
    assert_eq!(GAME_LOGS_EXTENTION, "Gamelogs/");
    assert_eq!(CHAT_LOGS_EXTENTION, "Chatlogs/");
    assert_eq!(get_game_logs("/home/me/EVE/logs".to_string()), "/home/me/EVE/logs/Gamelogs/");
    assert_eq!(get_chat_logs("/home/me/EVE/logs/".to_string()), "/home/me/EVE/logs/Chatlogs/");
    assert_eq!(get_chat_logs(String::new()), "Chatlogs/");
}

#[test]
fn read_expected_reuses_last_byte_at_end() {
    assert_eq!(read_expected(b"abc", 0, b"ab"), Some(2));
    assert_eq!(read_expected(b"abc", 1, b"bc"), Some(3));
    assert_eq!(read_expected(b"abc", 0, b"ax"), None);
    // Past the end the last byte read stays in the buffer.
    assert_eq!(read_expected(b"ab", 0, b"abbb"), Some(2));
    assert_eq!(read_expected(b"ab", 0, b"abc"), None);
    // Nothing read yet: the buffer holds 0.
    assert_eq!(read_expected(b"", 0, &[0, 0]), Some(0));
    assert_eq!(read_expected(b"", 0, b"a"), None);
    assert_eq!(read_expected(b"abc", 3, b""), Some(3));
}

#[test]
fn read_until_includes_the_delimiter() {
    assert_eq!(read_until(b"name\rrest", 0, b'\r'), (b"name\r".to_vec(), 5));
    assert_eq!(read_until(b"name\rrest", 5, b'\r'), (b"rest".to_vec(), 9));
    assert_eq!(read_until(b"", 0, b'\r'), (vec![], 0));
}

#[test]
fn unit_readers() {
    let data = utf16le("ab\ncd");
    assert_eq!(read_expected_units(&data, 0, &[0x61, 0x62]), (Some(true), 4));
    assert_eq!(read_expected_units(&data, 0, &[0x61, 0x63]).0, Some(false));
    assert_eq!(read_expected_units(&data, 8, &[0x64, 0x65]).0, None);
    assert_eq!(skip_until_unit(&data, 0, 0x0A), (true, 6));
    assert_eq!(skip_until_unit(&data, 0, 0x5B), (false, 10));
    assert_eq!(read_until_unit(&data, 0, 0x0A), (true, utf16le("ab"), 6));
    assert_eq!(read_until_unit(&data, 6, 0x0A), (false, utf16le("cd"), 10));
    let mut odd = utf16le("ab");
    odd.push(0x20);
    assert_eq!(skip_until_unit(&odd, 0, 0x0A), (false, 4));
    assert_eq!(read_until_unit(&odd, 0, 0x0A), (false, utf16le("ab"), 5));
}

#[test]
fn reads_game_log_header() {
    let data = GAME_LOG.as_bytes();
    let (name, date) = read_game_header_fields(data).unwrap();
    assert_eq!(name, b"Alice Miner\r".to_vec());
    assert_eq!(date, b"2024.01.02 03:04:05\r".to_vec());
    let log = parse_fresh_game_logs("/g/a.txt".to_string(), data).unwrap();
    assert_eq!(log.path, "/g/a.txt");
    assert_eq!(log.name, "Alice Miner");
    assert_eq!(log.date, session_start());
    let again = try_parse_fresh_game_logs("/g/a.txt".to_string(), data).unwrap().unwrap();
    assert_eq!(again.name, "Alice Miner");
    assert_eq!(again.date, session_start());
}

#[test]
fn game_log_header_errors() {
    let not_a_log = b"Hello there";
    assert_eq!(read_game_header_fields(not_a_log), Err(FreshLogParseError::UnexpectedData));
    assert!(matches!(parse_fresh_game_logs("x".to_string(), not_a_log), Err(FreshLogParseError::UnexpectedData)));
    let broken = GAME_LOG.replace("Session Started", "Session Ended");
    assert!(matches!(
        try_parse_fresh_game_logs("x".to_string(), broken.as_bytes()),
        Some(Err(FreshLogParseError::UnexpectedData))
    ));
    // A session start that is no date cannot be read.
    let bad_date = GAME_LOG.replace("2024.01.02 03:04:05", "yesterday");
    assert!(try_parse_fresh_game_logs("x".to_string(), bad_date.as_bytes()).is_none());
    // Neither can a listener line that is not UTF-8.
    let mut bad_name = GAME_LOG.as_bytes().to_vec();
    let at = GAME_LOG.find("Alice").unwrap();
    bad_name[at] = 0xFF;
    assert!(try_parse_fresh_game_logs("x".to_string(), &bad_name).is_none());
}

#[test]
fn reads_fleet_log_header() {
    let data = fleet_log("Bob Pilot", "2024.01.02 03:04:05");
    let (name, date) = read_fleet_header_fields(&data).unwrap();
    assert_eq!(name, utf16le("Bob Pilot"));
    assert_eq!(date, utf16le("2024.01.02 03:04:05"));
    let log = parse_fresh_fleet_logs("/c/f.txt".to_string(), &data).unwrap();
    assert_eq!(log.path, "/c/f.txt");
    assert_eq!(log.name, "Bob Pilot");
    assert_eq!(log.date, session_start());
    let log = try_parse_fresh_fleet_logs("/c/f.txt".to_string(), &data).unwrap().unwrap();
    assert_eq!(log.name, "Bob Pilot");
}

#[test]
fn fleet_log_header_errors() {
    assert_eq!(read_fleet_header_fields(&[0xFF]), Err(FreshLogParseError::UnexpectedEof));
    let data = fleet_log("Bob", "2024.01.02 03:04:05");
    assert_eq!(read_fleet_header_fields(&data[..40]), Err(FreshLogParseError::UnexpectedEof));
    let mut other = vec![0xFF, 0xFE];
    other.extend(utf16le(&fleet_text("Bob", "2024.01.02 03:04:05").replace("fleet_", "local_")));
    assert_eq!(read_fleet_header_fields(&other), Err(FreshLogParseError::UnexpectedData));
    let mut corp = vec![0xFF, 0xFE];
    corp.extend(utf16le(&fleet_text("Bob", "2024.01.02 03:04:05").replace("Name:    Fleet", "Name:    Corp ")));
    assert_eq!(read_fleet_header_fields(&corp), Err(FreshLogParseError::UnexpectedData));
    let bad_date = fleet_log("Bob", "not a date");
    assert!(try_parse_fresh_fleet_logs("x".to_string(), &bad_date).is_none());
    assert!(matches!(
        try_parse_fresh_log("x".to_string(), LogType::Fleet, &other),
        Some(Err(FreshLogParseError::UnexpectedData))
    ));
    assert!(matches!(try_parse_fresh_log("x".to_string(), LogType::Game, &data), Some(Err(FreshLogParseError::UnexpectedData))));
}

#[test]
fn seek_amount_is_where_entries_start() {
    let game = GAME_LOG.as_bytes();
    let bracket = GAME_LOG.find('[').unwrap() as u64;
    assert_eq!(get_new_log_seek_amount(game, LogType::Game), Some(bracket));
    assert_eq!(get_new_log_seek_amount(b"abc", LogType::Game), Some(2));
    assert_eq!(get_new_log_seek_amount(b"", LogType::Game), None);
    assert_eq!(get_new_log_seek_amount(b"[x", LogType::Game), Some(0));
    let fleet = fleet_log("Bob", "2024.01.02 03:04:05");
    let text = fleet_text("Bob", "2024.01.02 03:04:05");
    let units_before: usize = text[..text.find('[').unwrap()].encode_utf16().count();
    assert_eq!(get_new_log_seek_amount(&fleet, LogType::Fleet), Some(2 + 2 * units_before as u64));
    assert_eq!(get_new_log_seek_amount(&utf16le("no bracket"), LogType::Fleet), None);
}

#[test]
fn lines_are_trimmed_and_the_last_piece_dropped() {
    let text: Vec<char> = "[ a ] one\r\n  [ b ] two  \r\npartial".chars().collect();
    assert_eq!(lines_of(&text), vec!["[ a ] one", "[ b ] two"]);
    let text: Vec<char> = "x\n".chars().collect();
    assert_eq!(lines_of(&text), vec!["x"]);
    assert!(lines_of(&[]).is_empty());
}

#[test]
fn log_reads_appended_game_text() {
    let mut log = Log { seek_len: 100, log_type: LogType::Game, account: "Alice".to_string() };
    let data = b"[ 2024.01.02 03:04:07 ] (combat) hit\r\n[ 2024.01.02 03:04:08 ] (notify) hi\r\n";
    let lines = log.parse_new_logs(data);
    assert_eq!(lines, vec!["[ 2024.01.02 03:04:07 ] (combat) hit", "[ 2024.01.02 03:04:08 ] (notify) hi"]);
    assert_eq!(log.seek_len, 100 + data.len() as u64);
    assert_eq!(log.account, "Alice");
}

#[test]
fn log_reads_appended_fleet_text_dropping_byte_order_mark() {
    let mut log = Log { seek_len: 10, log_type: LogType::Fleet, account: "Bob".to_string() };
    let data = utf16le("\u{FEFF}[ 2024.01.02 03:04:07 ] Bob > hello\n");
    let lines = log.parse_new_logs(&data);
    assert_eq!(lines, vec!["[ 2024.01.02 03:04:07 ] Bob > hello"]);
    assert_eq!(log.seek_len, 10 + data.len() as u64);
    // Only a byte order mark is dropped from the start.
    let data = utf16le("X[ t ] Bob > hi\n");
    assert_eq!(log.parse_new_logs(&data), vec!["X[ t ] Bob > hi"]);
    let before = log.seek_len;
    assert!(log.parse_new_logs(&[]).is_empty());
    assert_eq!(log.seek_len, before);
    let data = utf16le("[ t ] Bob > a\n[ t ] Bob > b\n");
    assert_eq!(log.parse_new_logs(&data), vec!["[ t ] Bob > a", "[ t ] Bob > b"]);
    assert_eq!(log.seek_len, before + data.len() as u64);
}

fn found(path: &str, log_type: LogType, name: &str, len: u64) -> FoundLog {
    FoundLog { path: path.to_string(), log_type, name: name.to_string(), len }
}

#[test]
fn engine_starts_with_found_logs() {
    let (engine, characters) = Engine::new(vec![
        found("/g/2.txt", LogType::Game, "Zed", 50),
        found("/g/1.txt", LogType::Game, "Alice", 10),
        found("/c/1.txt", LogType::Fleet, "Alice", 20),
    ]);
    assert_eq!(characters, vec!["Alice", "Zed"]);
    assert!(engine.follows("/g/1.txt"));
    assert!(engine.follows("/c/1.txt"));
    assert!(!engine.follows("/g/3.txt"));
    assert_eq!(engine.seek_len_of("/g/2.txt"), Some(50));
    assert_eq!(engine.seek_len_of("/c/1.txt"), Some(20));
    assert_eq!(engine.seek_len_of("/nope"), None);
    let (_empty, none) = Engine::new(vec![]);
    assert!(none.is_empty());
}

#[test]
fn engine_events() {
    let (mut engine, _) = Engine::new(vec![found("/g/1.txt", LogType::Game, "Alice", 10)]);
    let paths = vec!["/g/1.txt".to_string(), "/g/new.txt".to_string()];
    assert_eq!(engine.handle_event(WatchEventKind::Modify, &paths, 5), vec!["/g/1.txt"]);
    assert!(engine.handle_event(WatchEventKind::Other, &paths, 5).is_empty());
    assert!(engine.take_due(u64::MAX).is_empty());
    assert!(engine.handle_event(WatchEventKind::CreateFile, &paths, 5).is_empty());
    assert!(engine.handle_event(WatchEventKind::CreateFile, &["/g/later.txt".to_string()], 500).is_empty());
    assert!(engine.take_due(5 + NEW_LOG_WAIT_PERIOD_MS - 1).is_empty());
    let due = engine.take_due(5 + NEW_LOG_WAIT_PERIOD_MS);
    assert_eq!(due.len(), 1);
    assert_eq!(due[0].path, "/g/new.txt");
    assert_eq!(due[0].wait_until, 1005);
    let due = engine.take_due(2000);
    assert_eq!(due.len(), 1);
    assert_eq!(due[0].path, "/g/later.txt");
    assert!(engine.take_due(u64::MAX).is_empty());
    assert!(!engine.follows("/g/new.txt"));
}

#[test]
fn engine_adds_new_logs() {
    let (mut engine, _) = Engine::new(vec![]);
    let game = GAME_LOG.as_bytes();
    assert_eq!(engine.try_add_new_log("/g/a.txt".to_string(), LogType::Game, game), NewLogOutcome::Added);
    assert_eq!(engine.seek_len_of("/g/a.txt"), Some(GAME_LOG.find('[').unwrap() as u64));
    let fleet = fleet_log("Bob", "2024.01.02 03:04:05");
    assert_eq!(engine.try_add_new_log("/c/f.txt".to_string(), LogType::Fleet, &fleet), NewLogOutcome::Added);
    assert!(engine.follows("/c/f.txt"));
    assert_eq!(engine.try_add_new_log("/g/x.txt".to_string(), LogType::Game, b"junk"), NewLogOutcome::NotALog);
    assert_eq!(engine.try_add_new_log("/c/x.txt".to_string(), LogType::Fleet, &fleet[..30]), NewLogOutcome::ReadError);
    let no_bracket = fleet_log("Bob", "2024.01.02 03:04:05");
    let text = fleet_text("Bob", "2024.01.02 03:04:05");
    let cut = 2 + 2 * text[..text.find('[').unwrap()].encode_utf16().count();
    assert_eq!(
        engine.try_add_new_log("/c/y.txt".to_string(), LogType::Fleet, &no_bracket[..cut]),
        NewLogOutcome::NoSeekPosition
    );
    let bad_date = GAME_LOG.replace("2024.01.02 03:04:05", "soon");
    assert_eq!(engine.try_add_new_log("/g/y.txt".to_string(), LogType::Game, bad_date.as_bytes()), NewLogOutcome::Unreadable);
    assert!(!engine.follows("/g/x.txt"));
    assert!(!engine.follows("/c/x.txt"));
    assert!(!engine.follows("/c/y.txt"));
    assert!(!engine.follows("/g/y.txt"));
}

#[test]
fn engine_reads_followed_logs() {
    let (mut engine, _) = Engine::new(vec![found("/g/1.txt", LogType::Game, "Alice", 10), found("/c/1.txt", LogType::Fleet, "Bob", 4)]);
    let data = b"[ t ] (notify) one\r\n";
    let (t, who, lines) = engine.parse_new_logs("/g/1.txt", data).unwrap();
    assert_eq!(t, LogType::Game);
    assert_eq!(who, "Alice");
    assert_eq!(lines, vec!["[ t ] (notify) one"]);
    assert_eq!(engine.seek_len_of("/g/1.txt"), Some(10 + data.len() as u64));
    let data = utf16le("\u{FEFF}[ t ] Bob > fa a1\n");
    let (t, who, lines) = engine.parse_new_logs("/c/1.txt", &data).unwrap();
    assert_eq!(t, LogType::Fleet);
    assert_eq!(who, "Bob");
    assert_eq!(lines, vec!["[ t ] Bob > fa a1"]);
    assert_eq!(engine.seek_len_of("/c/1.txt"), Some(4 + data.len() as u64));
    assert!(engine.parse_new_logs("/g/unknown.txt", b"x\n").is_none());
    assert_eq!(engine.seek_len_of("/g/unknown.txt"), None);
}

#[test]
fn log_directory_candidates_by_system() {
    let home = Some("/home/me".to_string());
    let linux = log_dir_candidates("linux", home.clone(), None);
    assert_eq!(
        linux,
        vec![
            "/home/me/.local/share/Steam/steamapps/compatdata/8500/pfx/drive_c/users/steamuser/Documents/EVE/logs",
            "/home/me/.local/share/Steam/steamapps/compatdata/8500/pfx/drive_c/users/steamuser/My Documents/EVE/logs",
            "/home/me/.steam/steam/steamapps/compatdata/8500/pfx/drive_c/users/steamuser/Documents/EVE/logs",
            "/home/me/.steam/steam/steamapps/compatdata/8500/pfx/drive_c/users/steamuser/My Documents/EVE/logs",
            "/home/me/.var/app/com.valvesoftware.Steam/data/Steam/steamapps/compatdata/8500/pfx/drive_c/users/steamuser/Documents/EVE/logs",
            "/home/me/.var/app/com.valvesoftware.Steam/data/Steam/steamapps/compatdata/8500/pfx/drive_c/users/steamuser/My Documents/EVE/logs",
        ]
    );
    assert_eq!(
        log_dir_candidates("macos", Some("/Users/me/".to_string()), None),
        vec![
            "/Users/me/Library/Application Support/EVE Online/p_drive/User/Documents/EVE/logs",
            "/Users/me/Library/Application Support/EVE Online/p_drive/User/My Documents/EVE/logs",
        ]
    );
    assert_eq!(
        log_dir_candidates("windows", home.clone(), Some("C:/Users/me/Documents".to_string())),
        vec!["C:/Users/me/Documents/EVE/logs"]
    );
    assert!(log_dir_candidates("windows", home.clone(), None).is_empty());
    assert!(log_dir_candidates("linux", None, Some("/docs".to_string())).is_empty());
    assert!(log_dir_candidates("freebsd", home, None).is_empty());
}

#[test]
fn scanning_log_directories() {
    match scan_log_file("/g/a.txt".to_string(), LogType::Game, GAME_LOG.as_bytes(), 999) {
        ScanOutcome::Found(f) => {
            assert_eq!(f.path, "/g/a.txt");
            assert_eq!(f.log_type, LogType::Game);
            assert_eq!(f.name, "Alice Miner");
            assert_eq!(f.len, 999);
        }
        other => panic!("unexpected {:?}", other),
    }
    let fleet = fleet_log("Bob", "2024.01.02 03:04:05");
    assert!(matches!(scan_log_file("c".to_string(), LogType::Fleet, &fleet, 1), ScanOutcome::Found(_)));
    assert!(matches!(scan_log_file("c".to_string(), LogType::Fleet, GAME_LOG.as_bytes(), 1), ScanOutcome::NotALog));
    assert!(matches!(scan_log_file("c".to_string(), LogType::Fleet, &fleet[..20], 20), ScanOutcome::EndedInHeader));
    let bad = fleet_log("Bob", "never");
    assert!(matches!(scan_log_file("c".to_string(), LogType::Fleet, &bad, 1), ScanOutcome::Unreadable));
}

#[test]
fn new_files_belong_to_their_directory() {
    assert_eq!(log_type_of_new_file("/logs/Chatlogs/Fleet_1.txt", "/logs"), Some(LogType::Fleet));
    assert_eq!(log_type_of_new_file("/logs/Gamelogs/1.txt", "/logs/"), Some(LogType::Game));
    assert_eq!(log_type_of_new_file("/logs/Other/1.txt", "/logs"), None);
    assert_eq!(log_type_of_new_file("/logs/Gamelogs/sub/1.txt", "/logs"), None);
    assert_eq!(log_type_of_new_file("1.txt", "/logs"), None);
    assert_eq!(log_type_of_new_file("Chatlogs/1.txt", ""), Some(LogType::Fleet));
}
