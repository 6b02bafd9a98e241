use syncbox::slug::{slugify, MySlug};

#[test]
fn main_conv_lettera_non_accentata() {
    assert_eq!(slugify("a"), "a");
}

#[test]
fn main_conv_lettera_accentata() {
    assert_eq!(slugify("\u{e8}"), "e");
}

#[test]
fn main_conv_lettera_non_ammessa_sconosciuta() {
    assert_eq!(slugify("\u{1f44c}"), "-");
}

#[test]
fn main_conv_lettera_accentata_non_in_lista() {
    assert_eq!(slugify("\u{1f00}"), "-");
}

#[test]
fn main_stringa_con_spazi() {
    assert_eq!(slugify("Hello World!"), "hello-world");
}

#[test]
fn main_stringa_con_caratteri_accentati() {
    assert_eq!(slugify("perch\u{e8}"), "perche");
}

#[test]
fn main_stringa_vuota() {
    assert_eq!(slugify(""), "");
}

#[test]
fn main_stringa_con_piu_spazi_consecutivi() {
    assert_eq!(slugify("ciao   ciao"), "ciao-ciao");
}

#[test]
fn main_stringa_con_piu_spazi_non_validi_consecutivi() {
    assert_eq!(slugify("ciao???ciao"), "ciao-ciao");
}

#[test]
fn main_stringa_con_solo_caratteri_non_validi() {
    assert_eq!(slugify("???"), "-");
}

#[test]
fn main_stringa_con_spazio_alla_fine() {
    assert_eq!(slugify("ciao "), "ciao");
}

#[test]
fn is_slug_and_to_slug() {
    let s1 = String::from("Hello String");
    let s2 = "hello-slice";
    assert!(!s1.is_slug());
    assert!(s2.is_slug());
    assert_eq!(s1.to_slug(), "hello-string");
    assert_eq!(s2.to_slug(), "hello-slice");
}

#[test]
fn upper_case_accented_letters_are_lowered_then_folded() {
    assert_eq!(slugify("\u{c8}\u{c9}T\u{c9}"), "eete");
}

#[test]
fn leading_separator_is_kept() {
    assert_eq!(slugify("  a"), "-a");
}
