use gatefold::lyrics::{
    best_lyrics, classify, finish_timings, make_lyrics, Line, Lyrics, Provider, Sync, Word,
};
use gatefold::sources::{
    lrclib_lyrics, lrclib_query, lyricsfile_text, spotify_lyrics, LrclibRecord, LyricsFile,
    LyricsFileLine, LyricsFileWord, SpotifyLine, SpotifyLyrics, SpotifyWord,
};
use gatefold::lyrics::{is_kana, is_plain_script, spotify_provider, Request};
use gatefold::script::ScriptClass;
use gatefold::timing::{parse_lrc, parse_ms, parse_time, plain_lines};
use gatefold::ttml::parse_ttml;

fn word(text: &str, start_ms: u32, end_ms: u32) -> Word {
    Word {
        text: text.to_owned(),
        start_ms,
        end_ms,
    }
}

#[test]
fn quality_orders_word_line_plain() {
    assert!(Sync::Word > Sync::Line);
    assert!(Sync::Line > Sync::Unsynced);
}

#[test]
fn parses_lrc_and_infers_line_ends() {
    let mut lines = parse_lrc("[00:01.25] First\n[00:03.500]Second");
    finish_timings(&mut lines, 5_000);
    assert_eq!(lines[0].start_ms, Some(1_250));
    assert_eq!(lines[0].end_ms, Some(3_500));
    assert_eq!(lines[1].end_ms, Some(5_000));
}

#[test]
fn parses_word_synced_lyricsfile() {
    let file = LyricsFile {
        language: None,
        plain: None,
        lines: vec![LyricsFileLine {
            text: "Hello world".to_owned(),
            start_ms: Some(1000),
            end_ms: Some(2200),
            words: vec![
                LyricsFileWord {
                    text: "Hello ".to_owned(),
                    start_ms: Some(1000),
                    end_ms: None,
                },
                LyricsFileWord {
                    text: "world".to_owned(),
                    start_ms: Some(1600),
                    end_ms: None,
                },
            ],
        }],
    };
    let mut lines: Vec<Line> = file
        .lines
        .into_iter()
        .map(|line| Line {
            text: line.text,
            start_ms: line.start_ms,
            end_ms: line.end_ms,
            words: line
                .words
                .into_iter()
                .map(|w| Word {
                    text: w.text,
                    start_ms: w.start_ms.unwrap(),
                    end_ms: w.end_ms.unwrap_or(0),
                })
                .collect(),
        })
        .collect();
    assert_eq!(classify(&lines), Sync::Word);
    finish_timings(&mut lines, 3_000);
    assert_eq!(lines[0].words[0].end_ms, 1_600);
    assert_eq!(lines[0].words[1].end_ms, 2_200);
}

#[test]
fn parses_word_synced_ttml_without_losing_spaces() {
    let lyrics = parse_ttml(
        r#"<tt xml:lang="en"><body><div><p begin="0:01.000" end="0:03.000"><span begin="0:01.000" end="0:02.000">Hello</span> <span begin="0:02.000" end="0:03.000">world</span><span ttm:role="x-translation">你好世界</span><span ttm:role="x-bg"><span begin="0:02.000" end="0:03.000">echo</span></span></p></div></body></tt>"#,
        Provider::Amll,
        "test",
        4_000,
    )
    .unwrap();
    assert_eq!(lyrics.sync, Sync::Word);
    assert_eq!(lyrics.language.as_deref(), Some("en"));
    assert_eq!(lyrics.lines[0].text, "Hello world");
    assert_eq!(lyrics.lines[0].words[0].text, "Hello ");
    assert_eq!(lyrics.lines[0].words[1].start_ms, 2_000);
}

#[test]
fn parses_ttml_time_variants() {
    assert_eq!(parse_time("00:01:30.500"), Some(90_500));
    assert_eq!(parse_time("1:16.656"), Some(76_656));
    assert_eq!(parse_time("250ms"), Some(250));
}

#[test]
fn finds_active_line_and_word() {
    let lyrics = Lyrics {
        source: Provider::Spotify,
        attribution: "test".into(),
        language: None,
        sync: Sync::Word,
        romanization_available: false,
        lines: vec![Line {
            text: "one two".into(),
            start_ms: Some(1_000),
            end_ms: Some(3_000),
            words: vec![
                Word {
                    text: "one ".into(),
                    start_ms: 1_000,
                    end_ms: 2_000,
                },
                Word {
                    text: "two".into(),
                    start_ms: 2_000,
                    end_ms: 3_000,
                },
            ],
        }],
    };
    assert_eq!(lyrics.active_line(2_500), Some(0));
    assert_eq!(lyrics.active_word(0, 2_500), Some(1));
    assert_eq!(lyrics.active_line(3_000), None);
    assert_eq!(lyrics.seek_position(0, None), Some(1_000));
    assert_eq!(lyrics.seek_position(0, Some(1)), Some(2_000));
}

#[test]
fn romanizes_japanese_without_changing_timings() {
    let lyrics = make_lyrics(
        Provider::Amll,
        "test".into(),
        Some("ja".into()),
        Sync::Word,
        vec![Line {
            text: "こんにちは世界".into(),
            start_ms: Some(1_000),
            end_ms: Some(3_000),
            words: vec![Word {
                text: "世界".into(),
                start_ms: 2_000,
                end_ms: 3_000,
            }],
        }],
    );
    assert!(lyrics.romanization_available);
    let romanized = lyrics.romanized().unwrap();
    assert_eq!(romanized.lines[0].text, "konnichiha sekai");
    assert_eq!(romanized.lines[0].words[0].text, "sekai");
    assert_eq!(romanized.lines[0].words[0].start_ms, 2_000);
    assert!(!romanized.romanization_available);
}

#[test]
fn latin_lyrics_offer_no_romanization() {
    let lyrics = make_lyrics(
        Provider::Lrclib,
        "LRCLIB".into(),
        None,
        Sync::Unsynced,
        plain_lines("Hello there\nGeneral Kenobi"),
    );
    assert!(!lyrics.romanization_available);
    assert!(lyrics.romanized().is_none());
}

#[test]
fn romanizes_non_japanese_by_transliteration() {
    let lyrics = make_lyrics(
        Provider::Lrclib,
        "LRCLIB".into(),
        None,
        Sync::Line,
        vec![Line {
            text: "Привет".into(),
            start_ms: Some(0),
            end_ms: Some(1_000),
            words: Vec::new(),
        }],
    );
    assert!(lyrics.romanization_available);
    let romanized = lyrics.romanized().unwrap();
    assert_eq!(romanized.lines[0].text, "Privet");
    assert_eq!(romanized.lines[0].start_ms, Some(0));
}

#[test]
fn finished_words_never_end_before_they_start() {
    let mut lines = vec![Line {
        text: "a b".into(),
        start_ms: Some(5_000),
        end_ms: Some(1_000),
        words: vec![word("a ", 5_000, 0), word("b", 6_000, 5_500)],
    }];
    finish_timings(&mut lines, 4_000);
    assert_eq!(lines[0].end_ms, Some(5_000));
    assert_eq!(lines[0].words[0].end_ms, 6_000);
    assert_eq!(lines[0].words[1].end_ms, 6_000);
    for w in &lines[0].words {
        assert!(w.end_ms >= w.start_ms);
    }
}

#[test]
fn untimed_lines_get_no_end() {
    let mut lines = plain_lines("one\ntwo");
    finish_timings(&mut lines, 9_000);
    assert_eq!(classify(&lines), Sync::Unsynced);
    assert!(lines.iter().all(|l| l.start_ms.is_none() && l.end_ms.is_none()));
}

#[test]
fn lrc_skips_lines_without_a_time() {
    let lines = parse_lrc("[ar:Someone]\nno tag here\n[01:02.5]Late\n[xx:10]bad");
    assert_eq!(lines.len(), 1);
    assert_eq!(lines[0].start_ms, Some(62_500));
    assert_eq!(lines[0].text, "Late");
}

#[test]
fn time_variants_and_refusals() {
    assert_eq!(parse_time("1.5s"), Some(1_500));
    assert_eq!(parse_time("2"), Some(2_000));
    assert_eq!(parse_time("0.0005"), Some(1));
    assert_eq!(parse_time("abc"), None);
    assert_eq!(parse_time(""), None);
    assert_eq!(parse_ms("1234"), Some(1234));
    assert_eq!(parse_ms("+7"), Some(7));
    assert_eq!(parse_ms("-7"), None);
    assert_eq!(parse_ms("4294967296"), None);
}

#[test]
fn provider_names() {
    assert_eq!(Provider::Spotify.name(), "Spotify");
    assert_eq!(Provider::Amll.name(), "AMLL");
    assert_eq!(Provider::Lrclib.name(), "LRCLIB");
}

#[test]
fn best_lyrics_prefer_finer_timing_then_the_first() {
    let plain = make_lyrics(Provider::Spotify, "a".into(), None, Sync::Unsynced, plain_lines("x"));
    let lined = make_lyrics(Provider::Amll, "b".into(), None, Sync::Line, parse_lrc("[00:01]x"));
    let lined2 = make_lyrics(Provider::Lrclib, "c".into(), None, Sync::Line, parse_lrc("[00:02]y"));
    let best = best_lyrics(vec![plain, lined, lined2]).unwrap();
    assert_eq!(best.source, Provider::Amll);
    assert!(best_lyrics(Vec::new()).is_none());
}

#[test]
fn spotify_response_becomes_lyrics() {
    let response = SpotifyLyrics {
        language: String::new(),
        provider_display_name: "Musixmatch".into(),
        lines: vec![
            SpotifyLine {
                start_time_ms: "1000".into(),
                end_time_ms: "0".into(),
                words: "Hi there".into(),
                syllables: vec![
                    SpotifyWord {
                        start_time_ms: "1000".into(),
                        end_time_ms: "1500".into(),
                        text: Some("Hi ".into()),
                        words: None,
                    },
                    SpotifyWord {
                        start_time_ms: "bad".into(),
                        end_time_ms: "0".into(),
                        text: Some("skipped".into()),
                        words: None,
                    },
                ],
            },
            SpotifyLine {
                start_time_ms: "4000".into(),
                end_time_ms: "0".into(),
                words: "Bye".into(),
                syllables: Vec::new(),
            },
        ],
    };
    let lyrics = spotify_lyrics(response, 6_000).unwrap();
    assert_eq!(lyrics.attribution, "Musixmatch");
    assert_eq!(lyrics.language, None);
    assert_eq!(lyrics.sync, Sync::Word);
    assert_eq!(lyrics.lines[0].words.len(), 1);
    assert_eq!(lyrics.lines[0].end_ms, Some(4_000));
    assert_eq!(lyrics.lines[1].end_ms, Some(6_000));
    let empty = SpotifyLyrics {
        language: "en".into(),
        provider_display_name: String::new(),
        lines: Vec::new(),
    };
    assert!(spotify_lyrics(empty, 1_000).is_none());
}

#[test]
fn lrclib_prefers_the_lyricsfile_then_synced_then_plain() {
    let record = LrclibRecord {
        plain_lyrics: Some("plain one".into()),
        synced_lyrics: Some("[00:01.00]synced one".into()),
        lyricsfile: Some("   ".into()),
    };
    assert!(lyricsfile_text(&record).is_none());
    let synced = lrclib_lyrics(&record, None, 10_000).unwrap();
    assert_eq!(synced.sync, Sync::Line);
    assert_eq!(synced.lines[0].text, "synced one");
    let file = LyricsFile {
        language: Some("en".into()),
        plain: None,
        lines: vec![LyricsFileLine {
            text: "from file".into(),
            start_ms: Some(500),
            end_ms: None,
            words: Vec::new(),
        }],
    };
    let from_file = lrclib_lyrics(&record, Some(file), 10_000).unwrap();
    assert_eq!(from_file.lines[0].text, "from file");
    assert_eq!(from_file.language.as_deref(), Some("en"));
    let bare = LrclibRecord {
        plain_lyrics: Some("just words".into()),
        synced_lyrics: None,
        lyricsfile: None,
    };
    let plain = lrclib_lyrics(&bare, None, 0).unwrap();
    assert_eq!(plain.sync, Sync::Unsynced);
    assert_eq!(plain.attribution, "LRCLIB");
}

#[test]
fn lrclib_query_needs_title_and_artist() {
    let request = Request {
        uri: "spotify:track:x".into(),
        title: "Song".into(),
        artists: vec!["Band".into(), "Guest".into()],
        duration_ms: 181_900,
    };
    let query = lrclib_query(&request).unwrap();
    assert_eq!(
        query,
        vec![
            ("track_name".to_owned(), "Song".to_owned()),
            ("artist_name".to_owned(), "Band".to_owned()),
            ("duration".to_owned(), "181".to_owned()),
        ]
    );
    let untitled = Request {
        title: String::new(),
        ..request
    };
    assert!(lrclib_query(&untitled).is_none());
}

#[test]
fn finishing_twice_changes_nothing() {
    let mut lines = parse_lrc("[00:01.00]a\n[00:01.00]b\n[00:05.00]c");
    lines[0].words = vec![word("a", 1_000, 0)];
    finish_timings(&mut lines, 3_000);
    let once = lines.clone();
    finish_timings(&mut lines, 3_000);
    assert_eq!(lines, once);
}

#[test]
fn scripts_that_need_romanization() {
    assert!(is_plain_script(ScriptClass::Latin));
    assert!(is_plain_script(ScriptClass::Common));
    assert!(!is_plain_script(ScriptClass::Other));
    assert!(!is_plain_script(ScriptClass::Hiragana));
    assert!(is_kana(ScriptClass::Katakana));
    assert!(!is_kana(ScriptClass::Other));
}

#[test]
fn ttml_text_is_unescaped() {
    let lyrics = parse_ttml(
        r#"<tt><body><div><p begin="1s" end="2s">Rock &amp; roll</p></div></body></tt>"#,
        Provider::Amll,
        "AMLL",
        3_000,
    )
    .unwrap();
    assert_eq!(lyrics.sync, Sync::Line);
    assert_eq!(lyrics.lines[0].text, "Rock & roll");
    assert_eq!(lyrics.lines[0].start_ms, Some(1_000));
    assert_eq!(lyrics.language, None);
}

#[test]
fn spotify_is_named_as_the_provider() {
    assert_eq!(spotify_provider(), "Spotify");
}

#[test]
fn a_line_without_an_end_ends_at_the_last_millisecond() {
    let lyrics = Lyrics {
        source: Provider::Spotify,
        attribution: "test".into(),
        language: None,
        sync: Sync::Line,
        romanization_available: false,
        lines: vec![Line {
            text: "open".into(),
            start_ms: Some(1_000),
            end_ms: None,
            words: vec![],
        }],
    };
    assert_eq!(lyrics.active_line(u32::MAX - 1), Some(0));
    assert_eq!(lyrics.active_line(u32::MAX), None);
}

#[test]
fn times_are_read_as_float_literals() {
    assert_eq!(parse_time("1e3s"), Some(1_000_000));
    assert_eq!(parse_time("1E-3s"), Some(1));
    assert_eq!(parse_time("-0s"), Some(0));
    assert_eq!(parse_time("-0.5s"), None);
    assert_eq!(parse_time("2.5e-1s"), Some(250));
    assert_eq!(parse_time("1e1:00"), Some(600_000));
    assert_eq!(parse_time("-0:05"), Some(5_000));
    assert_eq!(parse_time("0:1.5e1"), Some(15_000));
    assert_eq!(parse_time("1e999999999999999999999s"), None);
    assert_eq!(parse_time("1e-999999999999999999999s"), Some(0));
    assert_eq!(parse_time("1e"), None);
    let lines = parse_lrc("[00:1e1]Ten\n[00:-2]Before\n[01:NaN]Minute\n[00:Infinity]Last");
    assert_eq!(lines[0].start_ms, Some(10_000));
    assert_eq!(lines[1].start_ms, Some(0));
    assert_eq!(lines[2].start_ms, Some(60_000));
    assert_eq!(lines[3].start_ms, Some(u32::MAX));
}
