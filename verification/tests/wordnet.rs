use quenya::wn::multi::parse::{
    entry_from_groups, parse_digit, parse_multilingual_wordnet_file, parse_multilingual_wordnet_line,
    Definition, Entry, Example, Lemma,
};
use quenya::wn::pos::{as_char, find_part, parse_pos, Part};
use quenya::wn::princeton::data::{
    identifier_from_groups, parse_hex_digit, parse_wordnet_data, parse_words, WordNetIdentifier,
};

fn groups(texts: &[Option<&str>]) -> Vec<Option<String>> {
    texts.iter().map(|text| text.map(|t| t.to_string())).collect()
}

#[test]
fn it_extracts_indonesian_lemma() {
    let line = "00018158-v	ind:lemma	membubung\n";

    let lemma = parse_multilingual_wordnet_line(line).unwrap();

    assert_eq!(lemma, Entry::Lemma(Lemma {
        lemma: String::from("membubung"),
        language: String::from("ind"),
        offset: String::from("00018158"),
        pos: Part::Verb,
    }))
}

#[test]
fn it_extract_indonesian_definition() {
    let line = "00006024-n	ind:def	0	organisme yang tergantung pada zat organik kompleks untuk gizi\n";

    let definition = parse_multilingual_wordnet_line(line).unwrap();

    assert_eq!(definition, Entry::Definition(Definition {
        sid: 0,
        definition: String::from("organisme yang tergantung pada zat organik kompleks untuk gizi"),
        language: String::from("ind"),
        pos: Part::Noun,
        offset: String::from("00006024"),
    }))
}

#[test]
fn it_extracts_japanese_lemmas() {
    let line = "00006610-r	jpn:lemma	著しく\n";

    let lemma = parse_multilingual_wordnet_line(line).unwrap();

    assert_eq!(lemma, Entry::Lemma(Lemma {
        language: String::from("jpn"),
        offset: String::from("00006610"),
        pos: Part::Adverb,
        lemma: String::from("著しく"),
    }))
}

#[test]
fn it_extracts_japanese_definitions() {
    let line = "10363445-n	jpn:def	0	気に留める人\n";

    let definition = parse_multilingual_wordnet_line(line).unwrap();

    assert_eq!(definition, Entry::Definition(Definition {
        sid: 0,
        definition: String::from("気に留める人"),
        language: String::from("jpn"),
        pos: Part::Noun,
        offset: String::from("10363445"),
    }))
}

#[test]
fn it_extract_japanese_examples() {
    let line = "01785341-a	jpn:exe	2	ロシアの最後の時間は、容赦ない確実性とともに訪れたようであった\n";

    let example = parse_multilingual_wordnet_line(line).unwrap();

    assert_eq!(example, Entry::Example(Example {
        example: String::from("ロシアの最後の時間は、容赦ない確実性とともに訪れたようであった"),
        pos: Part::Adjective,
        offset: String::from("01785341"),
        language: String::from("jpn"),
    }))
}

#[test]
fn it_extracts_noun_data() {
    let line = "11563715 20 n 02 Jungermanniaceae 0 family_Jungermanniaceae 0 002 @ 11558116 n 0000 #m 11563371 n 0000 | comprising the leafy members of the order Jungermanniales  ";

    let data = parse_wordnet_data(line).unwrap();

    assert_eq!(data.synset_offset, "11563715");
    assert_eq!(data.ss_type, Part::Noun);
    assert_eq!(data.words.get(0).unwrap(), &WordNetIdentifier { word: String::from("Jungermanniaceae"), lex_id: 0 });
    assert_eq!(data.words.get(1).unwrap(), &WordNetIdentifier { word: String::from("family_Jungermanniaceae"), lex_id: 0 });
    assert_eq!(data.gloss, "comprising the leafy members of the order Jungermanniales");
}

#[test]
fn parts_are_one_letter_each() {
    assert_eq!(parse_pos("a"), Part::Adjective);
    assert_eq!(parse_pos("n"), Part::Noun);
    assert_eq!(parse_pos("r"), Part::Adverb);
    assert_eq!(parse_pos("v"), Part::Verb);
    assert_eq!(find_part("v"), Some(Part::Verb));
    assert_eq!(find_part("s"), None);
    assert_eq!(find_part(""), None);
    assert_eq!(find_part("vv"), None);
    assert_eq!(find_part("V"), None);
    assert_eq!(as_char(Part::Adjective), 'a');
    assert_eq!(as_char(Part::Adverb), 'r');
    assert_eq!(as_char(Part::Noun), 'n');
    assert_eq!(as_char(Part::Verb), 'v');
    for part in [Part::Adjective, Part::Adverb, Part::Noun, Part::Verb] {
        assert_eq!(find_part(&as_char(part).to_string()), Some(part));
    }
}

#[test]
fn lines_that_are_no_entries_give_none() {
    assert_eq!(parse_multilingual_wordnet_line(""), None);
    assert_eq!(parse_multilingual_wordnet_line("# a comment"), None);
    assert_eq!(parse_multilingual_wordnet_line("0001815-v\tind:lemma\tmembubung"), None);
    assert_eq!(parse_multilingual_wordnet_line("00018158-v\tind:word\tmembubung"), None);
    assert_eq!(parse_multilingual_wordnet_line("00018158-s\tind:lemma\tmembubung"), None);
    assert_eq!(parse_multilingual_wordnet_line("00006024-n\tind:def\torganisme"), None);
    assert_eq!(parse_multilingual_wordnet_line("00006024-n\tind:def\t\u{0663}\torganisme"), None);
}

#[test]
fn groups_give_entry() {
    let lemma = groups(&[None, Some("00018158"), Some("v"), Some("ind"), Some("lemma"), None, None, Some("membubung")]);
    assert_eq!(
        entry_from_groups(&lemma),
        Some(Entry::Lemma(Lemma {
            language: String::from("ind"),
            offset: String::from("00018158"),
            pos: Part::Verb,
            lemma: String::from("membubung"),
        }))
    );
    let definition = groups(&[None, Some("1"), Some("n"), Some("ind"), Some("def"), Some("7 "), Some("7"), Some("x")]);
    assert_eq!(
        entry_from_groups(&definition),
        Some(Entry::Definition(Definition {
            language: String::from("ind"),
            offset: String::from("1"),
            pos: Part::Noun,
            sid: 7,
            definition: String::from("x"),
        }))
    );
    let without_number = groups(&[None, Some("1"), Some("n"), Some("ind"), Some("def"), None, None, Some("x")]);
    assert_eq!(entry_from_groups(&without_number), None);
    let two_digits = groups(&[None, Some("1"), Some("n"), Some("ind"), Some("def"), None, Some("12"), Some("x")]);
    assert_eq!(entry_from_groups(&two_digits), None);
    let short = groups(&[None, Some("1"), Some("n"), Some("ind"), Some("lemma")]);
    assert_eq!(entry_from_groups(&short), None);
    assert_eq!(entry_from_groups(&Vec::new()), None);
}

#[test]
fn digits_are_read() {
    assert_eq!(parse_digit("0"), Some(0));
    assert_eq!(parse_digit("9"), Some(9));
    assert_eq!(parse_digit(""), None);
    assert_eq!(parse_digit("10"), None);
    assert_eq!(parse_digit("a"), None);
    assert_eq!(parse_digit("/"), None);
    assert_eq!(parse_digit(":"), None);
    assert_eq!(parse_hex_digit("0"), Some(0));
    assert_eq!(parse_hex_digit("9"), Some(9));
    assert_eq!(parse_hex_digit("a"), Some(10));
    assert_eq!(parse_hex_digit("f"), Some(15));
    assert_eq!(parse_hex_digit("A"), Some(10));
    assert_eq!(parse_hex_digit("F"), Some(15));
    assert_eq!(parse_hex_digit("g"), None);
    assert_eq!(parse_hex_digit("G"), None);
    assert_eq!(parse_hex_digit("@"), None);
    assert_eq!(parse_hex_digit("`"), None);
    assert_eq!(parse_hex_digit("ff"), None);
    assert_eq!(parse_hex_digit(""), None);
}

#[test]
fn file_is_read_without_comments() {
    let lines = vec![
        String::from("# Wordnet Bahasa"),
        String::from("00001740-a\tind:lemma\tberdaya"),
        String::from("00001740-a\tind:def\t0\tmampu"),
        String::from("# more"),
        String::from("00001740-a\tind:exe\t0\tia berdaya"),
    ];
    let entries = parse_multilingual_wordnet_file(&lines).unwrap();
    assert_eq!(entries.len(), 3);
    assert_eq!(*entries.get(0).unwrap(), Entry::Lemma(Lemma {
        offset: String::from("00001740"),
        lemma: String::from("berdaya"),
        pos: Part::Adjective,
        language: String::from("ind"),
    }));
    let broken = vec![String::from("00001740-a\tind:lemma\tberdaya"), String::from("")];
    assert_eq!(parse_multilingual_wordnet_file(&broken), None);
    assert_eq!(parse_multilingual_wordnet_file(&Vec::new()), Some(Vec::new()));
}

#[test]
fn words_are_read_with_their_numbers() {
    assert_eq!(
        parse_words("able 0 capable a "),
        Some(vec![
            WordNetIdentifier { word: String::from("able"), lex_id: 0 },
            WordNetIdentifier { word: String::from("capable"), lex_id: 10 },
        ])
    );
    assert_eq!(parse_words(""), Some(Vec::new()));
    let word = groups(&[Some("able F"), Some("able F"), Some("able"), Some("F")]);
    assert_eq!(identifier_from_groups(&word), Some(WordNetIdentifier { word: String::from("able"), lex_id: 15 }));
    let no_number = groups(&[Some("able"), Some("able"), Some("able"), None]);
    assert_eq!(identifier_from_groups(&no_number), None);
}

#[test]
fn line_that_is_no_data_gives_none() {
    assert_eq!(parse_wordnet_data(""), None);
    assert_eq!(parse_wordnet_data("  1 This software and database is being provided to you"), None);
    let satellite = "00001740 00 s 01 able 0 000 | having the necessary means";
    assert_eq!(parse_wordnet_data(satellite), None);
    let adjective = "00001740 00 a 01 able 0 000 | having the necessary means";
    assert_eq!(parse_wordnet_data(adjective).unwrap().gloss, "having the necessary means");
}
