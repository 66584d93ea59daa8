use zellij_windows::keyboard_parser::{KittyKeyboardParser, KittyParseOutcome};
use zellij_windows::keys::{BareKey, KeyModifiers, KeyWithModifier};

fn feed(bytes: &[u8]) -> KittyParseOutcome {
    KittyKeyboardParser::new().feed(bytes)
}

fn complete(bare_key: BareKey) -> KittyParseOutcome {
    KittyParseOutcome::Complete(KeyWithModifier::new(bare_key))
}

#[test]
fn beginnings_of_reports_are_incomplete() {
    assert_eq!(feed(b""), KittyParseOutcome::Incomplete);
    assert_eq!(feed(b"\x1b"), KittyParseOutcome::Incomplete);
    assert_eq!(feed(b"\x1b["), KittyParseOutcome::Incomplete);
    assert_eq!(feed(b"\x1b[46;5"), KittyParseOutcome::Incomplete);
}

#[test]
fn other_bytes_are_no_reports() {
    assert_eq!(feed(b"a"), KittyParseOutcome::NoMatch);
    assert_eq!(feed(b"\x1bO"), KittyParseOutcome::NoMatch);
    assert_eq!(feed(b"\x1b[46;5x"), KittyParseOutcome::NoMatch);
    assert_eq!(feed(b"\x1b[46;5uu"), KittyParseOutcome::NoMatch);
    assert_eq!(feed(b"\x1b[4294967296u"), KittyParseOutcome::NoMatch);
    assert_eq!(feed(b"\x1b[97;0u"), KittyParseOutcome::NoMatch);
    assert_eq!(feed(b"\x1b[97;257u"), KittyParseOutcome::NoMatch);
    assert_eq!(feed(b"\x1b[1;2;3u"), KittyParseOutcome::NoMatch);
    assert_eq!(feed(b"\x1b[55296u"), KittyParseOutcome::NoMatch);
    assert_eq!(feed(b"\x1b[2A"), KittyParseOutcome::NoMatch);
}

#[test]
fn reports_give_their_keys() {
    assert_eq!(feed(b"\x1b[97u"), complete(BareKey::Char('a')));
    assert_eq!(feed(b"\x1b[128512u"), complete(BareKey::Char('\u{1f600}')));
    assert_eq!(feed(b"\x1b[13u"), complete(BareKey::Enter));
    assert_eq!(feed(b"\x1b[57399u"), complete(BareKey::Char('0')));
    assert_eq!(feed(b"\x1b[57426u"), complete(BareKey::Delete));
    assert_eq!(feed(b"\x1b[15~"), complete(BareKey::F(5)));
    assert_eq!(feed(b"\x1b[24~"), complete(BareKey::F(12)));
    assert_eq!(feed(b"\x1b[A"), complete(BareKey::Up));
    assert_eq!(feed(b"\x1b[1P"), complete(BareKey::F(1)));
}

#[test]
fn modifiers_are_read_bit_by_bit() {
    assert_eq!(
        feed(b"\x1b[97;16u"),
        KittyParseOutcome::Complete(KeyWithModifier {
            bare_key: BareKey::Char('a'),
            key_modifiers: KeyModifiers {
                ctrl: true,
                alt: true,
                shift: true,
                super_key: true,
            },
        })
    );
    assert_eq!(
        feed(b"\x1b[97;2u"),
        KittyParseOutcome::Complete(KeyWithModifier {
            bare_key: BareKey::Char('a'),
            key_modifiers: KeyModifiers {
                ctrl: false,
                alt: false,
                shift: true,
                super_key: false,
            },
        })
    );
    assert_eq!(feed(b"\x1b[97;u"), complete(BareKey::Char('a')));
}
