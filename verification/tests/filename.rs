use mwparser_utils::filename_to_make;

#[test]
fn plain_name_unchanged() {
    assert_eq!(filename_to_make("Article_Name.tex"), "Article_Name.tex");
}

#[test]
fn empty_stays_empty() {
    assert_eq!(filename_to_make(""), "");
}

#[test]
fn space_becomes_underscore() {
    assert_eq!(filename_to_make("a b c"), "a_b_c");
}

#[test]
fn every_special_is_escaped() {
    assert_eq!(
        filename_to_make(" :()/'\"*=$#%"),
        "_@COLON@@LBR@@RBR@@SLASH@@SQUOTE@@DQUOTE@@STAR@@EQ@@DOLLAR@@SHARP@@PERC@"
    );
}

#[test]
fn mixed_text_is_escaped_in_place() {
    assert_eq!(
        filename_to_make("Mathe für Nicht-Freaks: Analysis (Teil 1)"),
        "Mathe_für_Nicht-Freaks@COLON@_Analysis_@LBR@Teil_1@RBR@"
    );
}
