use std::collections::HashMap;

use tlweave::engine::{
    accept_completion, build_grammar, classify_line, fit_step, prepare_text, FitOutcome, LineStep,
    Translator, UpsertRow,
};
use tlweave::errors::TlError;
use tlweave::prompt::{build_header, build_prompt, render_character, snapshot, Seen};
use tlweave::roster::{decode_jp_speaker, en_speaker_text, Character, EnSpeaker, Roster};
use tlweave::text::{contains_sub, replace_all, str_eq, trim};

fn chara(jp: &str, short: &str, en: &str, gender: &str, aliases: &[(&str, &str)]) -> Character {
    Character {
        jpspeaker: jp.to_string(),
        jpshort: short.to_string(),
        enspeaker: en.to_string(),
        gender: gender.to_string(),
        aliases: aliases
            .iter()
            .map(|&(j, e)| (j.to_string(), e.to_string()))
            .collect(),
    }
}

fn small_roster() -> Roster {
    Roster {
        characters: vec![
            chara("アリス", "", "Alice", "Female", &[]),
            chara("ボブ先生", "ボブ", "Bob", "Male", &[("ボビー", "Bobby")]),
        ],
        elements: vec![(
            "魔法".to_string(),
            "[element] Name: Magic (魔法) | Type: Concept".to_string(),
        )],
    }
}

#[test]
fn text_utilities_behave() {
    assert!(str_eq("abc", "abc"));
    assert!(!str_eq("abc", "abd"));
    assert!(contains_sub("こんにちは", "にち"));
    assert!(!contains_sub("こんにちは", "さよ"));
    assert!(contains_sub("abc", ""));
    assert_eq!(replace_all("aaa", "aa", "b"), "ba");
    assert_eq!(replace_all("xAyAz", "A", "BB"), "xBByBBz");
    assert_eq!(replace_all("none", "q", "r"), "none");
    assert_eq!(trim("  x\t\n"), "x");
    assert_eq!(trim("\u{3000}間\u{3000}"), "間");
    assert_eq!(trim(" \n\t "), "");
}

#[test]
fn prepare_text_substitutes_both_names() {
    assert_eq!(prepare_text("#Name[1]と#Name[2]"), "玻ヰ璃とハイリ");
    assert_eq!(prepare_text("plain"), "plain");
}

#[test]
fn decode_exact_match() {
    let r = small_roster();
    match decode_jp_speaker(&r.characters, "アリス") {
        Ok(EnSpeaker::Character(i)) => {
            assert_eq!(i, 0);
            let sp = EnSpeaker::Character(i);
            assert_eq!(en_speaker_text(&r.characters, &sp), "Alice");
        }
        other => panic!("expected roster entry, got {other:?}"),
    }
}

#[test]
fn decode_placeholder_and_voice() {
    let r = small_roster();
    match decode_jp_speaker(&r.characters, "？？？") {
        Ok(EnSpeaker::Str(s)) => assert_eq!(s, "???"),
        other => panic!("expected passthrough, got {other:?}"),
    }
    match decode_jp_speaker(&r.characters, "アリスの声") {
        Ok(EnSpeaker::Str(s)) => assert_eq!(s, "Alice's voice"),
        other => panic!("expected voice form, got {other:?}"),
    }
}

#[test]
fn decode_unknown_speaker_is_fatal() {
    let r = small_roster();
    match decode_jp_speaker(&r.characters, "カロル") {
        Err(e) => {
            assert!(matches!(&e, TlError::UnknownSpeaker(s) if s == "カロル"));
            assert!(e.is_fatal());
        }
        Ok(other) => panic!("expected an error, got {other:?}"),
    }
}

#[test]
fn character_line_renders_with_aliases() {
    let c = chara("J", "", "E", "G", &[("j1", "e1"), ("j2", "e2")]);
    assert_eq!(
        render_character(&c),
        "Name: E (J) | Gender: G | Aliases: e1 (j1), e2 (j2)"
    );
    let plain = chara("J", "", "E", "G", &[]);
    assert_eq!(render_character(&plain), "Name: E (J) | Gender: G");
}

#[test]
fn seen_renders_tagged_pair() {
    let s = Seen {
        speaker: Some(("J".to_string(), "E".to_string())),
        jpline: "か".to_string(),
        enline: "what".to_string(),
    };
    assert_eq!(
        s.render(),
        "<|start_header_id|>Japanese<|end_header_id|>]\n\n[J]: か<|eot_id|>\
         <|start_header_id|>English<|end_header_id|>\n\n[E]: what<|eot_id|>"
    );
    let untagged = Seen {
        speaker: None,
        jpline: "a".to_string(),
        enline: "b".to_string(),
    };
    assert_eq!(
        untagged.render(),
        "<|start_header_id|>Japanese<|end_header_id|>]\n\na<|eot_id|>\
         <|start_header_id|>English<|end_header_id|>\n\nb<|eot_id|>"
    );
}

#[test]
fn header_lists_speaker_and_element() {
    let r = small_roster();
    let seen: Vec<Seen> = Vec::new();
    let h = build_header(&r, &seen, Some("アリス"), "魔法だ").expect("header builds");
    assert_eq!(
        h,
        "<|begin_of_text|><|start_header_id|>Metadata<|end_header_id|>\n\
         \n[character] Name: Alice (アリス) | Gender: Female\
         \n[element] Name: Magic (魔法) | Type: Concept<|eot_id|>"
    );
}

#[test]
fn header_finds_short_name_and_alias_in_line() {
    let r = small_roster();
    let seen: Vec<Seen> = Vec::new();
    // The short name of Bob appears literally in the upcoming line.
    let h = build_header(&r, &seen, None, "ボブを見た").expect("header builds");
    assert!(h.contains("Name: Bob (ボブ先生) | Gender: Male | Aliases: Bobby (ボビー)"));
    // So does an alias.
    let h2 = build_header(&r, &seen, None, "ボビー!").expect("header builds");
    assert!(h2.contains("Name: Bob (ボブ先生)"));
    // But an unrelated line lists nobody.
    let h3 = build_header(&r, &seen, None, "無関係").expect("header builds");
    assert!(!h3.contains("[character]"));
}

#[test]
fn header_rejects_unknown_context_speaker() {
    let r = small_roster();
    let seen = vec![Seen {
        speaker: Some(("誰か".to_string(), "Somebody".to_string())),
        jpline: "x".to_string(),
        enline: "y".to_string(),
    }];
    let e = build_header(&r, &seen, None, "z").expect_err("unknown speaker");
    assert!(matches!(&e, TlError::UnknownSpeaker(s) if s == "誰か"));
}

#[test]
fn prompt_wraps_line_between_language_headers() {
    let r = Roster { characters: Vec::new(), elements: Vec::new() };
    let seen: Vec<Seen> = Vec::new();
    let p = build_prompt(&r, &seen, None, "x").expect("prompt builds");
    assert_eq!(
        p,
        "<|begin_of_text|><|start_header_id|>Metadata<|end_header_id|>\n<|eot_id|>\
         <|start_header_id|>Japanese<|end_header_id|>\n\nx<|eot_id|>\
         <|start_header_id|>English<|end_header_id|>\n\n"
    );
    let tagged = build_prompt(&r, &seen, Some("？？？"), "x").expect("prompt builds");
    assert!(tagged.contains("\n\n[？？？]: x<|eot_id|>"));
}

#[test]
fn classify_line_never_resubmits() {
    assert!(matches!(classify_line(&Some("done".to_string())), LineStep::Absorb));
    assert!(matches!(classify_line(&None), LineStep::Translate));
}

fn dummy_seen(n: usize) -> Vec<Seen> {
    (0..n)
        .map(|i| Seen {
            speaker: None,
            jpline: format!("jp{i}"),
            enline: format!("en{i}"),
        })
        .collect()
}

#[test]
fn fit_step_evicts_a_sixteenth_but_at_least_one() {
    let mut s = dummy_seen(32);
    assert!(matches!(fit_step(&mut s, 5000), FitOutcome::Evicted));
    assert_eq!(s.len(), 30);
    assert_eq!(s[0].jpline, "jp2");

    let mut small = dummy_seen(10);
    assert!(matches!(fit_step(&mut small, 5000), FitOutcome::Evicted));
    assert_eq!(small.len(), 9);

    let mut fits = dummy_seen(10);
    assert!(matches!(fit_step(&mut fits, 960), FitOutcome::Fits));
    assert_eq!(fits.len(), 10);

    let mut empty: Vec<Seen> = Vec::new();
    assert!(matches!(fit_step(&mut empty, 5000), FitOutcome::Exhausted));
}

#[test]
fn fit_loop_terminates_even_when_nothing_fits() {
    // A tokenizer stub that always reports an over-budget prompt.
    let mut seen = dummy_seen(40);
    let mut rounds: usize = 0;
    loop {
        let token_count = 100_000;
        match fit_step(&mut seen, token_count) {
            FitOutcome::Fits => break,
            FitOutcome::Evicted => {
                rounds += 1;
                assert!(rounds <= 41, "the fit loop must terminate");
            }
            FitOutcome::Exhausted => break,
        }
    }
    assert_eq!(seen.len(), 0);
}

#[test]
fn snapshot_isolates_the_variant_context() {
    let shared = dummy_seen(5);
    let mut copy = snapshot(&shared);
    assert!(matches!(fit_step(&mut copy, 5000), FitOutcome::Evicted));
    assert_eq!(copy.len(), 4);
    assert_eq!(shared.len(), 5);
}

#[test]
fn grammar_forces_the_speaker_prefix() {
    assert_eq!(
        build_grammar("[Alice]: "),
        "root ::= \"[Alice]: \" [^\\x00]*"
    );
}

#[test]
fn completion_judgement() {
    let ok = accept_completion("[Alice]: hello ".to_string(), "eos", "[Alice]: ");
    assert_eq!(ok.expect("accepted"), "hello");

    let cut = accept_completion("[Alice]: par".to_string(), "length", "[Alice]: ");
    match cut {
        Err(e) => {
            assert!(matches!(&e, TlError::GenerationCutoff(c) if c == "[Alice]: par"));
            assert!(!e.is_fatal());
        }
        Ok(other) => panic!("expected cutoff, got {other:?}"),
    }

    let bad = accept_completion("something else".to_string(), "eos", "[Alice]: ");
    assert!(matches!(bad, Err(TlError::MalformedResponse)));
}

#[test]
fn push_context_pairs_label_with_decoded_name() {
    let t = Translator::new(small_roster()).expect("engine");
    let mut seen: Vec<Seen> = Vec::new();
    t.push_context(
        &mut seen,
        Some("アリス".to_string()),
        "こん".to_string(),
        "hi".to_string(),
    )
    .expect("known speaker");
    assert_eq!(seen.len(), 1);
    let pair = seen[0].speaker.as_ref().expect("tagged");
    assert_eq!(pair.0, "アリス");
    assert_eq!(pair.1, "Alice");

    let e = t
        .push_context(&mut seen, Some("誰か".to_string()), "a".to_string(), "b".to_string())
        .expect_err("unknown speaker");
    assert!(e.is_fatal());
    assert_eq!(seen.len(), 1);
}

#[test]
fn speaker_prefix_forms() {
    let t = Translator::new(small_roster()).expect("engine");
    assert_eq!(t.speaker_prefix(&None).expect("no speaker"), "");
    assert_eq!(
        t.speaker_prefix(&Some("アリス".to_string())).expect("known"),
        "[Alice]: "
    );
}

fn apply_upsert(
    store: &mut HashMap<(u16, u32), (String, Option<String>)>,
    row: &UpsertRow,
) {
    store.insert(
        (row.script_id, row.address),
        (row.tl_body.clone(), row.tl_variant.clone()),
    );
}

#[test]
fn upsert_is_idempotent() {
    let mut store: HashMap<(u16, u32), (String, Option<String>)> = HashMap::new();
    let row = UpsertRow {
        script_id: 7,
        address: 0x10,
        tl_body: "first".to_string(),
        tl_variant: None,
    };
    apply_upsert(&mut store, &row);
    apply_upsert(&mut store, &row);
    assert_eq!(store.len(), 1);
    assert_eq!(store[&(7, 0x10)].0, "first");

    let overwrite = UpsertRow {
        script_id: 7,
        address: 0x10,
        tl_body: "second".to_string(),
        tl_variant: Some("var".to_string()),
    };
    apply_upsert(&mut store, &overwrite);
    assert_eq!(store.len(), 1);
    assert_eq!(store[&(7, 0x10)].0, "second");
}

#[test]
fn cutoff_mid_series_keeps_earlier_lines_and_stops() {
    let t = Translator::new(small_roster()).expect("engine");
    let mut seen: Vec<Seen> = Vec::new();
    let mut store: HashMap<(u16, u32), (String, Option<String>)> = HashMap::new();
    let mut completions: usize = 0;
    let mut failure: Option<TlError> = None;

    for addr in 1u32..=5 {
        let line = format!("line {addr}");
        assert!(matches!(classify_line(&None), LineStep::Translate));
        loop {
            let prompt = build_prompt(&t.roster, &seen, None, &line).expect("prompt");
            let token_count = prompt.chars().count().min(100);
            match fit_step(&mut seen, token_count) {
                FitOutcome::Fits => break,
                FitOutcome::Evicted => continue,
                FitOutcome::Exhausted => break,
            }
        }
        let prefix = t.speaker_prefix(&None).expect("no speaker");
        let _grammar = build_grammar(&prefix);
        // The generation service stub: a cutoff on the third call.
        completions += 1;
        let (content, stop) = if completions == 3 {
            (format!("{prefix}par"), "length")
        } else {
            (format!("{prefix}tl {addr}"), "eos")
        };
        match accept_completion(content, stop, &prefix) {
            Ok(tl) => {
                let row = UpsertRow {
                    script_id: 1,
                    address: addr,
                    tl_body: tl.clone(),
                    tl_variant: None,
                };
                apply_upsert(&mut store, &row);
                t.push_context(&mut seen, None, line.clone(), tl).expect("push");
            }
            Err(e) => {
                failure = Some(e);
                break;
            }
        }
    }

    // Lines 1 and 2 are persisted, lines 4 and 5 were never attempted.
    assert_eq!(completions, 3);
    assert_eq!(store.len(), 2);
    assert_eq!(store[&(1, 1)].0, "tl 1");
    assert_eq!(store[&(1, 2)].0, "tl 2");
    assert!(!store.contains_key(&(1, 3)));
    assert!(!store.contains_key(&(1, 4)));
    assert!(!store.contains_key(&(1, 5)));
    // The failure is series-scoped: the run goes on to the next leaf.
    let e = failure.expect("the series failed");
    assert!(!e.is_fatal());
}

#[test]
fn error_messages() {
    assert_eq!(
        TlError::GenerationCutoff("par".to_string()).message(),
        "maximum number of tokens reached: par"
    );
    assert_eq!(TlError::DuplicateEdge.message(), "duplicate dependency edge");
    assert_eq!(
        TlError::UnknownSpeaker("誰か".to_string()).message(),
        "unrecognized speaker: 誰か"
    );
}
