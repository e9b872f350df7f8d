use yomichan_audio_server::cli::{PortParseError, PortType};
use yomichan_audio_server::config::{validate_media_root, Config, ConfigError};
use yomichan_audio_server::entry::DatabaseEntry;
use yomichan_audio_server::import::split_extension;
use yomichan_audio_server::kana::KanaTable;
use yomichan_audio_server::ordering::{default_order, merge_entries, parse_sort_file};
use yomichan_audio_server::request::{classify_reading, validate_request, ValidationError};
use yomichan_audio_server::source::AudioSource;
use yomichan_audio_server::tree::DirTree;

fn entry(source: AudioSource, display: &str, file: &str) -> DatabaseEntry {
    DatabaseEntry {
        expression: "本".to_string(),
        reading: Some("ほん".to_string()),
        source,
        speaker: None,
        display: display.to_string(),
        file: file.to_string(),
    }
}

#[test]
fn normalize_strips_prefix() {
    let mut e = entry(AudioSource::ForvoJp, "x", "forvo_jp/x/word.mp3");
    e.strip_folder_name_prefix();
    assert_eq!(e.file, "word.mp3");
}

#[test]
fn normalize_is_idempotent() {
    let mut e = entry(AudioSource::ForvoJp, "x", "forvo_jp/x/word.mp3");
    e.strip_folder_name_prefix();
    let once = e.file.clone();
    e.strip_folder_name_prefix();
    assert_eq!(e.file, once);
}

#[test]
fn normalize_handles_backslash() {
    let mut e = entry(AudioSource::Other, "", "folder\\word.mp3");
    e.strip_folder_name_prefix();
    assert_eq!(e.file, "word.mp3");
}

#[test]
fn normalize_keeps_bare_name() {
    let mut e = entry(AudioSource::Daijisen, "", "word.mp3");
    e.strip_folder_name_prefix();
    assert_eq!(e.file, "word.mp3");
}

#[test]
fn classify_hiragana_reading() {
    let table = KanaTable::new();
    assert_eq!(classify_reading(&table, "ほん"), Ok(AudioSource::ForvoJp));
}

#[test]
fn classify_katakana_reading() {
    let table = KanaTable::new();
    assert_eq!(classify_reading(&table, "キャベツ"), Ok(AudioSource::ForvoJp));
}

#[test]
fn classify_other_script_reading() {
    let table = KanaTable::new();
    assert_eq!(classify_reading(&table, "bueno"), Ok(AudioSource::ForvoZh));
    assert_eq!(classify_reading(&table, "你好"), Ok(AudioSource::ForvoZh));
}

#[test]
fn classify_empty_reading_is_rejected() {
    let table = KanaTable::new();
    assert_eq!(classify_reading(&table, ""), Err(ValidationError::EmptyReading));
}

#[test]
fn validate_request_requires_both_parameters() {
    assert_eq!(validate_request("", "ほん"), Err(ValidationError::EmptyExpression));
    assert_eq!(validate_request("本", ""), Err(ValidationError::EmptyReading));
    assert_eq!(validate_request("本", "ほん"), Ok(()));
}

#[test]
fn kana_table_transliterates_both_ways() {
    let table = KanaTable::new();
    assert_eq!(table.to_hiragana("キャ").as_deref(), Some("きゃ"));
    assert_eq!(table.to_hiragana("ホ").as_deref(), Some("ほ"));
    assert_eq!(table.to_katakana("ほ").as_deref(), Some("ホ"));
    assert_eq!(table.to_katakana("ぴょ").as_deref(), Some("ピョ"));
    assert_eq!(table.to_hiragana("x"), None);
    assert_eq!(table.to_katakana("ホ"), None);
}

#[test]
fn sort_file_lines_are_parsed() {
    let order = parse_sort_file("nhk16\ndaijisen\n");
    assert_eq!(order, vec![AudioSource::Nhk16, AudioSource::Daijisen]);
}

#[test]
fn sort_file_ignores_unknown_lines() {
    let order = parse_sort_file("nhk16\nbogus line\n  daijisen \n\n");
    assert_eq!(order, vec![AudioSource::Nhk16, AudioSource::Daijisen]);
}

#[test]
fn sort_file_accepts_forvo_alias() {
    let order = parse_sort_file("forvo\n");
    assert_eq!(order, vec![AudioSource::ForvoJp]);
}

#[test]
fn empty_sort_file_falls_back_to_default() {
    let expected = vec![
        AudioSource::Daijisen,
        AudioSource::Nhk16,
        AudioSource::Shinmeikai8,
        AudioSource::ForvoJp,
        AudioSource::ForvoZh,
        AudioSource::ForvoEs,
        AudioSource::Jpod,
    ];
    assert_eq!(parse_sort_file(""), expected);
    assert_eq!(parse_sort_file("no source here\n???\n"), expected);
    assert_eq!(default_order(), expected);
}

#[test]
fn source_names_round_trip() {
    for s in AudioSource::all_variants() {
        let line = format!("{}\n", s.name());
        assert_eq!(parse_sort_file(&line), vec![s]);
    }
    assert_eq!(AudioSource::ForvoJp.name(), "forvo_jp");
    assert_eq!(AudioSource::Daijisen.name(), "daijisen");
    assert_eq!(AudioSource::all_variants().len(), 8);
}

#[test]
fn unknown_source_names_fall_back_to_other() {
    assert_eq!(AudioSource::from_name("daijisen"), AudioSource::Daijisen);
    assert_eq!(AudioSource::from_name("forvo"), AudioSource::ForvoJp);
    assert_eq!(AudioSource::from_name("something else"), AudioSource::Other);
    assert_eq!(AudioSource::from_name(""), AudioSource::Other);
}

#[test]
fn merge_orders_by_priority_and_keeps_ties_stable() {
    let dict = vec![
        entry(AudioSource::Other, "", "o1.mp3"),
        entry(AudioSource::Nhk16, "", "n1.mp3"),
        entry(AudioSource::Daijisen, "", "d1.mp3"),
        entry(AudioSource::Nhk16, "", "n2.mp3"),
    ];
    let forvo = vec![entry(AudioSource::ForvoJp, "x", "f1.mp3")];
    let order = default_order();
    let merged = merge_entries(dict, forvo, &order);
    let files: Vec<&str> = merged.iter().map(|e| e.file.as_str()).collect();
    // Daijisen first, then both Nhk16 rows in their pre-sort order, then
    // the supplementary row, then the unlisted source last.
    assert_eq!(files, vec!["d1.mp3", "n1.mp3", "n2.mp3", "f1.mp3", "o1.mp3"]);
}

#[test]
fn merge_normalizes_file_references() {
    let dict = vec![entry(AudioSource::ForvoJp, "x", "forvo_jp/x/word.mp3")];
    let order = default_order();
    let merged = merge_entries(dict, Vec::new(), &order);
    assert_eq!(merged.len(), 1);
    assert_eq!(merged[0].file, "word.mp3");
}

#[test]
fn port_accepts_bare_number() {
    let p = PortType::parse("8080").unwrap();
    assert_eq!(p.inner, "localhost:8080");
}

#[test]
fn port_accepts_localhost_prefix_and_whitespace() {
    let p = PortType::parse("localhost:9000").unwrap();
    assert_eq!(p.inner, "localhost:9000");
    let p = PortType::parse(" 9000 ").unwrap();
    assert_eq!(p.inner, "localhost:9000");
}

#[test]
fn port_rejects_bad_values() {
    assert_eq!(PortType::parse("abc"), Err(PortParseError::InvalidValue));
    assert_eq!(PortType::parse(""), Err(PortParseError::InvalidValue));
    assert_eq!(PortType::parse("70000"), Err(PortParseError::OutOfRange));
}

#[test]
fn port_default_is_conventional() {
    assert_eq!(PortType::default().inner, "localhost:8080");
    assert_eq!(PortType::default().to_text(), "localhost:8080");
}

#[test]
fn config_default_is_zeroed() {
    let c = Config::default();
    assert_eq!(c.exit_minutes, 0);
    assert!(!c.debug);
}

#[test]
fn missing_media_root_is_refused_with_path() {
    let r = validate_media_root(None, "/srv/audio");
    match r {
        Err(ConfigError::MissingMediaRoot { ref path }) => assert_eq!(path, "/srv/audio"),
        _ => panic!("expected a missing-media-root error"),
    }
    assert!(r.unwrap_err().message().contains("/srv/audio"));
}

#[test]
fn empty_media_root_is_refused_with_path() {
    let root = DirTree { name: "/srv/audio".to_string(), files: vec![], subdirs: vec![] };
    let r = validate_media_root(Some(&root), "/srv/audio");
    match r {
        Err(ConfigError::EmptyMediaRoot { ref path }) => assert_eq!(path, "/srv/audio"),
        _ => panic!("expected an empty-media-root error"),
    }
    assert!(r.unwrap_err().message().contains("/srv/audio"));
}

#[test]
fn populated_media_root_is_accepted() {
    let root = DirTree {
        name: "/srv/audio".to_string(),
        files: vec![],
        subdirs: vec![DirTree {
            name: "daijisen".to_string(),
            files: vec![],
            subdirs: vec![],
        }],
    };
    assert!(validate_media_root(Some(&root), "/srv/audio").is_ok());
}

#[test]
fn split_extension_takes_last_dot() {
    assert_eq!(
        split_extension("word.mp3"),
        Some(("word".to_string(), "mp3".to_string()))
    );
    assert_eq!(
        split_extension("a.b.c"),
        Some(("a.b".to_string(), "c".to_string()))
    );
    assert_eq!(split_extension("noext"), None);
}
