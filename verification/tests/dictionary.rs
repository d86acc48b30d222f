use quenya::ara::aramorph::dict::{
    clean_gloss, deduce_pos, is_comment, is_lemma_definition, load_dictionary, parse_entry, pos_tag,
    remove_fatHatAn, remove_kashida, resolve_pos, DictionaryIndex, Entry, LineError, LoadError,
    LoadState,
};

fn lines(text: &[&str]) -> Vec<String> {
    text.iter().map(|line| line.to_string()).collect()
}

fn entry(surface: &str, vocabulary: &str, category: &str, gloss: &str, pos: &str, lemma: Option<&str>) -> Entry {
    Entry {
        entry: surface.to_string(),
        vocabulary: vocabulary.to_string(),
        category: category.to_string(),
        gloss: gloss.to_string(),
        pos: pos.to_string(),
        lemma: lemma.map(|id| id.to_string()),
    }
}

#[test]
fn it_recognizes_comment() {
    let line = String::from("; This is a comment.");

    assert_eq!(is_comment(&line), true);
}

#[test]
fn it_recognizes_non_comment() {
    let line = String::from("y	ya	IVPref-hw-ya	he/it <pos>ya/IV3MS+</pos>");

    assert_eq!(is_comment(&line), false);
}

#[test]
fn lemma_line_begins_with_two_marks() {
    assert_eq!(is_lemma_definition(&String::from(";;katab-u_1")), true);
    assert_eq!(is_lemma_definition(&String::from(";; katab-u_1")), true);
    assert_eq!(is_lemma_definition(&String::from(";;")), true);
    assert_eq!(is_lemma_definition(&String::from("; katab-u_1")), false);
    assert_eq!(is_lemma_definition(&String::from(" ;;katab-u_1")), false);
    assert_eq!(is_lemma_definition(&String::from(";")), false);
    assert_eq!(is_lemma_definition(&String::from("")), false);
    assert_eq!(is_comment(&String::from(";;katab-u_1")), true);
    assert_eq!(is_comment(&String::from("")), false);
}

#[test]
fn gloss_is_kept_as_it_stands() {
    assert_eq!(clean_gloss(String::from("he/it <pos>ya/IV3MS+</pos>")), "he/it <pos>ya/IV3MS+</pos>");
}

#[test]
fn kashida_is_removed() {
    assert_eq!(remove_kashida(&String::from("كتـــب")), "كتب");
    assert_eq!(remove_kashida(&String::from("ـ")), "");
    assert_eq!(remove_kashida(&String::from("ktb")), "ktb");
    assert_eq!(remove_kashida(&String::from("")), "");
}

#[test]
fn vowel_marks_are_removed() {
    assert_eq!(remove_fatHatAn(&String::from("كَتَبَ")), "كتب");
    assert_eq!(remove_fatHatAn(&String::from("\u{064A}\u{064B}\u{0652}\u{0653}")), "\u{064A}\u{0653}");
    assert_eq!(remove_fatHatAn(&String::from("ــ")), "ــ");
}

#[test]
fn tag_is_found_in_gloss() {
    assert_eq!(pos_tag("he/it <pos>ya/IV3MS+</pos>"), Ok(Some(String::from("ya/IV3MS+"))));
    assert_eq!(pos_tag("write"), Ok(None));
    assert_eq!(pos_tag("<pos></pos>"), Ok(None));
    assert_eq!(pos_tag("a <pos>x</pos> b <pos>y</pos> c"), Ok(Some(String::from("x</pos> b <pos>y"))));
}

#[test]
fn part_of_speech_follows_from_category() {
    assert_eq!(deduce_pos("Pref-0", "x"), Some(String::from("")));
    assert_eq!(deduce_pos("Suff-0", "x"), Some(String::from("")));
    assert_eq!(deduce_pos("FW-Wa", "wa"), Some(String::from("wa/FUNC_WORD")));
    assert_eq!(deduce_pos("IV", "ya"), Some(String::from("ya/VERB_IMPERFECT")));
    assert_eq!(deduce_pos("PV", "katab"), Some(String::from("katab/VERB_PERFECT")));
    assert_eq!(deduce_pos("CV", "ktb"), Some(String::from("ktb/VERB_IMPERATIVE")));
    assert_eq!(deduce_pos("Ndu", "walad"), Some(String::from("walad/NOUN")));
    assert_eq!(deduce_pos("N", "kutubiy~"), Some(String::from("kutubiy~/NOUN")));
    assert_eq!(deduce_pos("N", ""), Some(String::from("/NOUN")));
    assert_eq!(deduce_pos("Pref-Wa", "wa"), None);
    assert_eq!(deduce_pos("", "wa"), None);
    assert_eq!(deduce_pos("iv", "wa"), None);
}

#[test]
fn noun_with_capital_is_proper() {
    assert_eq!(deduce_pos("N", "Zayd"), Some(String::from("Zayd/NOUN_PROP")));
    assert_eq!(deduce_pos("N", "zayd"), Some(String::from("zayd/NOUN")));
    assert_eq!(deduce_pos("N", "Ab"), Some(String::from("Ab/NOUN_PROP")));
    assert_eq!(deduce_pos("N", "[ab"), Some(String::from("[ab/NOUN")));
    assert_eq!(deduce_pos("N", "@ab"), Some(String::from("@ab/NOUN")));
    let proper = parse_entry("zyd\tZayd\tN\tZayd", &None).unwrap();
    assert_eq!(proper.pos, "Zayd/NOUN_PROP");
    let common = parse_entry("zyd\tzayd\tN\tZayd", &None).unwrap();
    assert_eq!(common.pos, "zayd/NOUN");
}

#[test]
fn tag_goes_before_category() {
    assert_eq!(resolve_pos(Some("ya/IV3MS+"), "IVPref-hw-ya", "ya"), Some(String::from("ya/IV3MS+")));
    assert_eq!(resolve_pos(None, "IVPref-hw-ya", "ya"), Some(String::from("ya/VERB_IMPERFECT")));
    assert_eq!(resolve_pos(Some("x"), "unknown", "ya"), Some(String::from("x")));
    assert_eq!(resolve_pos(None, "unknown", "ya"), None);
}

#[test]
fn data_line_gives_entry() {
    let lemma = Some(String::from("katab-u_1"));
    let parsed = parse_entry("y\tya\tIVPref-hw-ya\the/it <pos>ya/IV3MS+</pos>", &lemma);
    assert_eq!(
        parsed,
        Ok(entry("y", "ya", "IVPref-hw-ya", "he/it <pos>ya/IV3MS+</pos>", "ya/IV3MS+", Some("katab-u_1")))
    );
    assert_eq!(parse_entry("\t\tPref-0\t", &None), Ok(entry("", "", "Pref-0", "", "", None)));
}

#[test]
fn data_line_needs_four_fields() {
    assert_eq!(parse_entry("ktb\tkatab\tPV", &None), Err(LineError::Malformed));
    assert_eq!(parse_entry("ktb\tkatab\tPV\twrite\tmore", &None), Err(LineError::Malformed));
    assert_eq!(parse_entry("", &None), Err(LineError::Malformed));
    assert_eq!(parse_entry("ktb katab PV write", &None), Err(LineError::Malformed));
}

#[test]
fn data_line_needs_part_of_speech() {
    assert_eq!(parse_entry("ktb\tkatab\tXX\twrite", &None), Err(LineError::NoPartOfSpeech));
}

#[test]
fn index_keeps_order_under_one_key() {
    let mut index = DictionaryIndex::new();
    assert_eq!(index.contains_key("ktb"), false);
    assert!(index.get("ktb").is_none());
    index.add(entry("ktb", "katab", "PV", "write", "katab/VERB_PERFECT", Some("L1")));
    index.add(entry("wld", "walad", "N", "boy", "walad/NOUN", Some("L2")));
    index.add(entry("ktb", "kutib", "PV_Pass", "be written", "kutib/VERB_PERFECT", Some("L1")));
    assert_eq!(index.contains_key("ktb"), true);
    assert_eq!(index.contains_key("kt"), false);
    let found = index.get("ktb").unwrap();
    assert_eq!(found.len(), 2);
    assert_eq!(found[0].vocabulary, "katab");
    assert_eq!(found[1].vocabulary, "kutib");
    assert_eq!(index.get("wld").unwrap().len(), 1);
}

#[test]
fn every_data_line_is_found_again() {
    let file = lines(&[
        "; a dictionary of stems",
        ";;katab-u_1",
        "ktb\tkatab\tPV\twrite",
        "ktb\tkutib\tPV_Pass\tbe written <pos>kutib/VERB_PASSIVE</pos>",
        ";",
        ";;walad_1",
        "wld\twalad\tN\tboy",
    ]);
    let index = load_dictionary(&file).unwrap();
    let first = index.get("ktb").unwrap();
    assert_eq!(
        *first,
        vec![
            entry("ktb", "katab", "PV", "write", "katab/VERB_PERFECT", Some("katab-u_1")),
            entry(
                "ktb",
                "kutib",
                "PV_Pass",
                "be written <pos>kutib/VERB_PASSIVE</pos>",
                "kutib/VERB_PASSIVE",
                Some("katab-u_1")
            ),
        ]
    );
    let second = index.get("wld").unwrap();
    assert_eq!(*second, vec![entry("wld", "walad", "N", "boy", "walad/NOUN", Some("walad_1"))]);
    assert!(index.get("katab").is_none());
    assert!(index.get("; a dictionary of stems").is_none());
}

#[test]
fn entry_before_any_lemma_has_none() {
    let file = lines(&["\t\tPref-0\t", ";; l ", "w\twa\tPref-Wa\tand <pos>wa/CONJ+</pos>"]);
    let index = load_dictionary(&file).unwrap();
    assert_eq!(index.get("").unwrap()[0].lemma, None);
    assert_eq!(index.get("w").unwrap()[0].lemma, Some(String::from(" l ")));
}

#[test]
fn empty_file_gives_empty_index() {
    let index = load_dictionary(&Vec::new()).unwrap();
    assert_eq!(index.contains_key(""), false);
}

#[test]
fn duplicate_lemma_fails() {
    let file = lines(&[
        ";;katab-u_1",
        "ktb\tkatab\tPV\twrite",
        ";;walad_1",
        "wld\twalad\tN\tboy",
        ";;katab-u_1",
        "ktb\tkutib\tPV_Pass\tbe written",
    ]);
    assert_eq!(load_dictionary(&file).err(), Some(LoadError { line: 4, cause: LineError::DuplicateLemma }));
    let empty = lines(&[";;", "; between", ";;"]);
    assert_eq!(load_dictionary(&empty).err(), Some(LoadError { line: 2, cause: LineError::DuplicateLemma }));
    let apart = lines(&[";;katab-u_1", ";; katab-u_1", ";;katab-u_1 "]);
    assert_eq!(load_dictionary(&apart).is_ok(), true);
}

#[test]
fn line_without_three_tabs_fails() {
    let short = lines(&[";;l", "ktb\tkatab\tPV\twrite", "wld\twalad\tN"]);
    assert_eq!(load_dictionary(&short).err(), Some(LoadError { line: 2, cause: LineError::Malformed }));
    let long = lines(&["ktb\tkatab\tPV\twrite\t"]);
    assert_eq!(load_dictionary(&long).err(), Some(LoadError { line: 0, cause: LineError::Malformed }));
    let blank = lines(&["ktb\tkatab\tPV\twrite", ""]);
    assert_eq!(load_dictionary(&blank).err(), Some(LoadError { line: 1, cause: LineError::Malformed }));
}

#[test]
fn category_without_part_of_speech_fails() {
    let file = lines(&["ktb\tkatab\tPV\twrite", "ktb\tkatab\tXX\twrite"]);
    assert_eq!(load_dictionary(&file).err(), Some(LoadError { line: 1, cause: LineError::NoPartOfSpeech }));
}

#[test]
fn first_error_is_told() {
    let file = lines(&[";;l", "bad", ";;l"]);
    assert_eq!(load_dictionary(&file).err(), Some(LoadError { line: 1, cause: LineError::Malformed }));
}

#[test]
fn state_is_threaded_through_lines() {
    let state = LoadState::new();
    assert_eq!(state.lemma, None);
    let state = state.step(&String::from(";;katab-u_1")).ok().unwrap();
    assert_eq!(state.lemma, Some(String::from("katab-u_1")));
    assert_eq!(state.seen.contains("katab-u_1"), true);
    let state = state.step(&String::from("; nothing")).ok().unwrap();
    assert_eq!(state.lemma, Some(String::from("katab-u_1")));
    let state = state.step(&String::from("ktb\tkatab\tPV\twrite")).ok().unwrap();
    assert_eq!(state.index.get("ktb").unwrap()[0].lemma, Some(String::from("katab-u_1")));
    assert_eq!(state.step(&String::from(";;katab-u_1")).err(), Some(LineError::DuplicateLemma));
}
