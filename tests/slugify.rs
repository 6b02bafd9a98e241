use syncbox::slug::slugify;

#[test]
fn conv_lettera_non_accentata() {
    assert_eq!(slugify("a"), "a");
}

#[test]
fn conv_lettera_accentata() {
    assert_eq!(slugify("\u{e8}"), "e");
}

#[test]
fn conv_lettera_non_ammessa_sconosciuta() {
    assert_eq!(slugify("\u{1f44c}"), "-");
}

#[test]
fn conv_lettera_accentata_non_in_lista() {
    assert_eq!(slugify("\u{1f00}"), "-");
}

#[test]
fn stringa_con_spazi() {
    assert_eq!(slugify("Hello World!"), "hello-world");
}

#[test]
fn stringa_con_caratteri_accentati() {
    assert_eq!(slugify("perch\u{e8}"), "perche");
}

#[test]
fn stringa_vuota() {
    assert_eq!(slugify(""), "");
}

#[test]
fn stringa_con_piu_spazi_consecutivi() {
    assert_eq!(slugify("ciao   ciao"), "ciao-ciao");
}

#[test]
fn stringa_con_piu_spazi_non_validi_consecutivi() {
    assert_eq!(slugify("ciao???ciao"), "ciao-ciao");
}

#[test]
fn stringa_con_solo_caratteri_non_validi() {
    assert_eq!(slugify("???"), "-");
}

#[test]
fn stringa_con_spazio_alla_fine() {
    assert_eq!(slugify("ciao "), "ciao");
}
