use yomichan_audio_server::entry::DatabaseEntry;
use yomichan_audio_server::kana::KanaTable;
use yomichan_audio_server::ordering::default_order;
use yomichan_audio_server::request::{classify_reading, process_entries};
use yomichan_audio_server::resolve::{AudioFileError, AudioResult};
use yomichan_audio_server::source::AudioSource;
use yomichan_audio_server::tree::DirTree;

fn dir(name: &str, files: &[&str], subdirs: Vec<DirTree>) -> DirTree {
    DirTree {
        name: name.to_string(),
        files: files.iter().map(|f| f.to_string()).collect(),
        subdirs,
    }
}

fn row(
    expression: &str,
    reading: Option<&str>,
    source: AudioSource,
    speaker: Option<&str>,
    display: &str,
    file: &str,
) -> DatabaseEntry {
    DatabaseEntry {
        expression: expression.to_string(),
        reading: reading.map(|r| r.to_string()),
        source,
        speaker: speaker.map(|s| s.to_string()),
        display: display.to_string(),
        file: file.to_string(),
    }
}

const HOST: &str = "localhost:8080";

#[test]
fn find_audio_file() {
    let e = row(
        "日本語",
        Some("にほんご"),
        AudioSource::ForvoJp,
        Some("strawberrybrown"),
        "strawberrybrown",
        "日本語.mp3",
    );
    let root = dir(
        "audio",
        &[],
        vec![dir(
            "forvo_jp",
            &[],
            vec![dir("strawberrybrown", &["日本語.mp3"], vec![])],
        )],
    );
    let path = e.find_audio_file(&root).unwrap();
    assert_eq!(path, vec!["forvo_jp", "strawberrybrown", "日本語.mp3"]);
}

#[test]
fn find_audio_file_reports_searched_dir() {
    let e = row("本", Some("ほん"), AudioSource::Daijisen, None, "", "honn.mp3");
    let root = dir("audio", &[], vec![dir("daijisen", &[], vec![])]);
    let err = e.find_audio_file(&root).unwrap_err();
    let AudioFileError::MissingAudioFile { entry, dir } = err;
    assert_eq!(entry.file, "honn.mp3");
    assert_eq!(dir, "audio");
}

#[test]
fn round_trip() {
    let table = KanaTable::new();
    let supplementary = classify_reading(&table, "ほん").unwrap();
    assert_eq!(supplementary, AudioSource::ForvoJp);

    let dict = vec![row("本", Some("ほん"), AudioSource::Daijisen, None, "", "honn.mp3")];
    let root = dir(
        "audio",
        &[],
        vec![dir("daijisen", &[], vec![dir("media", &["honn.mp3"], vec![])])],
    );
    let order = default_order();
    let results: Vec<AudioResult> = process_entries(dict, Vec::new(), &order, &root, HOST);
    assert_eq!(results.len(), 1);
    assert!(results[0].url.ends_with("daijisen/media/honn.mp3"));
    assert_eq!(results[0].url, "http://localhost:8080/audio/daijisen/media/honn.mp3");
    assert_eq!(results[0].name, "daijisen");
}

#[test]
fn two_sources_are_ordered_by_priority() {
    let dict = vec![row("本", Some("ほん"), AudioSource::Daijisen, None, "", "honn.mp3")];
    let forvo = vec![row(
        "本",
        Some("ほん"),
        AudioSource::ForvoJp,
        Some("x"),
        "x",
        "honn.mp3",
    )];
    let root = dir(
        "audio",
        &[],
        vec![
            dir("daijisen", &[], vec![dir("media", &["honn.mp3"], vec![])]),
            dir("forvo_jp", &[], vec![dir("x", &["honn.mp3"], vec![])]),
        ],
    );
    let order = default_order();
    let results = process_entries(dict, forvo, &order, &root, HOST);
    assert_eq!(results.len(), 2);
    assert_eq!(results[0].name, "daijisen");
    assert_eq!(results[1].name, "forvo_jp x");
    assert!(results[0].url.ends_with("daijisen/media/honn.mp3"));
    assert!(results[1].url.ends_with("forvo_jp/x/honn.mp3"));
}

#[test]
fn unmatched_expression_yields_empty_list() {
    let table = KanaTable::new();
    assert_eq!(classify_reading(&table, "bueno"), Ok(AudioSource::ForvoZh));
    let root = dir("audio", &[], vec![dir("forvo_zh", &[], vec![])]);
    let order = default_order();
    let results = process_entries(Vec::new(), Vec::new(), &order, &root, HOST);
    assert!(results.is_empty());
}

#[test]
fn stored_prefix_is_stripped_before_resolution() {
    let forvo = vec![row(
        "word",
        Some("ワード"),
        AudioSource::ForvoJp,
        Some("x"),
        "x",
        "forvo_jp/x/word.mp3",
    )];
    let root = dir(
        "audio",
        &[],
        vec![dir("forvo_jp", &[], vec![dir("x", &["word.mp3"], vec![])])],
    );
    let order = default_order();
    let results = process_entries(Vec::new(), forvo, &order, &root, HOST);
    assert_eq!(results.len(), 1);
    assert!(results[0].url.ends_with("forvo_jp/x/word.mp3"));
}

#[test]
fn recursive_search_matches_each_speaker_folder() {
    let speakers = dir(
        "speakers",
        &[],
        vec![
            dir("alice", &["w.mp3"], vec![]),
            dir("bob", &["w.mp3"], vec![]),
        ],
    );
    let root = dir("audio", &[], vec![dir("forvo_jp", &[], vec![speakers])]);
    let order = default_order();

    let alice = row("w", None, AudioSource::ForvoJp, Some("alice"), "alice", "w.mp3");
    let bob = row("w", None, AudioSource::ForvoJp, Some("bob"), "bob", "w.mp3");
    let results = process_entries(vec![alice, bob], Vec::new(), &order, &root, HOST);
    assert_eq!(results.len(), 2);
    assert!(results[0].url.ends_with("forvo_jp/speakers/alice/w.mp3"));
    assert!(results[1].url.ends_with("forvo_jp/speakers/bob/w.mp3"));
    assert_eq!(results[0].name, "forvo_jp alice");
    assert_eq!(results[1].name, "forvo_jp bob");
}

#[test]
fn custom_sort_order_overrides_default() {
    let order = yomichan_audio_server::ordering::parse_sort_file("forvo_jp\ndaijisen\n");
    let dict = vec![row("本", Some("ほん"), AudioSource::Daijisen, None, "", "honn.mp3")];
    let forvo = vec![row(
        "本",
        Some("ほん"),
        AudioSource::ForvoJp,
        Some("x"),
        "x",
        "honn.mp3",
    )];
    let root = dir(
        "audio",
        &[],
        vec![
            dir("daijisen", &[], vec![dir("media", &["honn.mp3"], vec![])]),
            dir("forvo_jp", &[], vec![dir("x", &["honn.mp3"], vec![])]),
        ],
    );
    let results = process_entries(dict, forvo, &order, &root, HOST);
    assert_eq!(results.len(), 2);
    assert_eq!(results[0].name, "forvo_jp x");
    assert_eq!(results[1].name, "daijisen");
}

#[test]
fn media_folder_wins_over_display_folder() {
    let root = dir(
        "audio",
        &[],
        vec![dir(
            "nhk16",
            &[],
            vec![
                dir("media", &["w.mp3"], vec![]),
                dir("x", &["w.mp3"], vec![]),
            ],
        )],
    );
    let e = row("w", None, AudioSource::Nhk16, None, "x", "w.mp3");
    let r = e.to_audio_result(&root, HOST).unwrap();
    assert!(r.url.ends_with("nhk16/media/w.mp3"));
}

#[test]
fn empty_display_resolves_directly_under_source() {
    let root = dir("audio", &[], vec![dir("jpod", &["w.mp3"], vec![])]);
    let e = row("w", None, AudioSource::Jpod, None, "", "w.mp3");
    let r = e.to_audio_result(&root, HOST).unwrap();
    assert!(r.url.ends_with("jpod/w.mp3"));
    assert_eq!(r.name, "jpod");
}

#[test]
fn unresolvable_entries_are_dropped_silently() {
    let dict = vec![
        row("本", Some("ほん"), AudioSource::Daijisen, None, "", "honn.mp3"),
        row("本", Some("ほん"), AudioSource::Nhk16, None, "", "missing.mp3"),
    ];
    let root = dir(
        "audio",
        &[],
        vec![
            dir("daijisen", &[], vec![dir("media", &["honn.mp3"], vec![])]),
            dir("nhk16", &[], vec![dir("media", &[], vec![])]),
        ],
    );
    let order = default_order();
    let results = process_entries(dict, Vec::new(), &order, &root, HOST);
    assert_eq!(results.len(), 1);
    assert_eq!(results[0].name, "daijisen");
}

#[test]
fn missing_file_error_names_entry_and_root() {
    let root = dir("audio", &[], vec![dir("nhk16", &[], vec![])]);
    let e = row("w", None, AudioSource::Nhk16, None, "", "w.mp3");
    let err = e.to_audio_result(&root, HOST).unwrap_err();
    let AudioFileError::MissingAudioFile { entry, dir } = err;
    assert_eq!(entry.file, "w.mp3");
    assert_eq!(dir, "audio/nhk16");
}

#[test]
fn folder_holding_the_file_under_wrong_name_is_skipped() {
    // The recursive tier does not descend into a folder that already holds
    // the file under a non-matching name.
    let wrong = dir(
        "wrong",
        &["w.mp3"],
        vec![dir("alice", &["w.mp3"], vec![])],
    );
    let root = dir("audio", &[], vec![dir("forvo_jp", &[], vec![wrong])]);
    let e = row("w", None, AudioSource::ForvoJp, Some("alice"), "alice", "w.mp3");
    assert!(e.to_audio_result(&root, HOST).is_err());
}
