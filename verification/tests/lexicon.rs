use quenya::lexicon::{lexeme_key, Lexeme, Lexicon};
use quenya::nld::{lexemes_of, load_lexicon};
use quenya::omni::Omniglot;
use quenya::wn::multi::parse::{parse_multilingual_wordnet_file, Definition, Entry, Lemma};
use quenya::wn::pos::Part;

#[test]
fn it_returns_err_when_lemma_is_not_found() {
    let lexicon = Lexicon::new();

    assert_eq!(lexicon.find_lexeme_by_lemma("search", Part::Verb).is_err(), true);
}

#[test]
fn it_returns_lexemes_that_were_added() {
    let mut lexicon = Lexicon::new();

    let lexeme = Lexeme {
        lemma: String::from("search"),
        pos: Part::Verb,
    };

    lexicon.add_lexeme(&lexeme);

    assert_eq!(lexicon.find_lexeme_by_lemma("search", Part::Verb).unwrap().lemma, String::from("search"));
}

#[test]
fn key_is_lemma_colon_letter() {
    assert_eq!(lexeme_key("search", Part::Verb), "search:v");
    assert_eq!(lexeme_key("search", Part::Noun), "search:n");
    assert_eq!(lexeme_key("quick", Part::Adjective), "quick:a");
    assert_eq!(lexeme_key("", Part::Adverb), ":r");
}

#[test]
fn lexeme_is_found_by_lemma_and_part_only() {
    let mut lexicon = Lexicon::new();
    let verb = Lexeme { lemma: String::from("search"), pos: Part::Verb };
    let noun = Lexeme { lemma: String::from("search"), pos: Part::Noun };
    lexicon.add_lexeme(&verb);
    assert_eq!(lexicon.find_lexeme_by_lemma("search", Part::Noun).is_err(), true);
    assert_eq!(lexicon.find_lexeme_by_lemma("searc", Part::Verb).is_err(), true);
    lexicon.add_lexeme(&noun);
    assert_eq!(lexicon.find_lexeme_by_lemma("search", Part::Noun).unwrap().pos, Part::Noun);
    assert_eq!(lexicon.find_lexeme_by_lemma("search", Part::Verb).unwrap().pos, Part::Verb);
    assert_eq!(Lexicon::default().find_lexeme_by_lemma("search", Part::Verb).is_err(), true);
}

#[test]
fn lexicon_is_filled_from_lemmas() {
    let entries = vec![
        Entry::Lemma(Lemma {
            language: String::from("nld"),
            offset: String::from("00001740"),
            pos: Part::Verb,
            lemma: String::from("zoeken"),
        }),
        Entry::Definition(Definition {
            language: String::from("nld"),
            offset: String::from("00001740"),
            pos: Part::Verb,
            sid: 0,
            definition: String::from("proberen te vinden"),
        }),
        Entry::Lemma(Lemma {
            language: String::from("nld"),
            offset: String::from("00001741"),
            pos: Part::Noun,
            lemma: String::from("boek"),
        }),
    ];
    let lexemes = lexemes_of(&entries);
    assert_eq!(lexemes.len(), 2);
    assert_eq!(lexemes[0].lemma, "zoeken");
    assert_eq!(lexemes[1].lemma, "boek");
    let lexicon = load_lexicon(&lexemes);
    assert_eq!(lexicon.find_lexeme_by_lemma("zoeken", Part::Verb).is_ok(), true);
    assert_eq!(lexicon.find_lexeme_by_lemma("boek", Part::Noun).is_ok(), true);
    assert_eq!(lexicon.find_lexeme_by_lemma("proberen te vinden", Part::Verb).is_ok(), false);
}

#[test]
fn it_should_create() {
    let lines = vec![
        String::from("# Open Dutch WordNet"),
        String::from("01315613-v\tnld:lemma\tzoeken"),
        String::from("02153709-v\tnld:lemma\tkijken"),
    ];
    let lexemes = lexemes_of(&parse_multilingual_wordnet_file(&lines).unwrap());
    let omni = Omniglot::new(load_lexicon(&lexemes));

    assert_eq!(omni.lexicon.get("nld").is_some(), true);

    assert_eq!(omni.lexicon.get("nld").unwrap().find_lexeme_by_lemma("zoeken", Part::Verb).is_ok(), true);
    assert_eq!(omni.lexicon.get("nld").unwrap().find_lexeme_by_lemma("3513dsags", Part::Verb).is_ok(), false);
}

#[test]
fn only_known_languages_have_a_lexicon() {
    let omni = Omniglot::new(Lexicon::new());
    assert_eq!(omni.lexicon.get("nld").is_some(), true);
    assert_eq!(omni.lexicon.get("eng").is_some(), false);
    assert_eq!(omni.lexicon.get("").is_some(), false);
}
