use hotkey_manager::error::ParseError;
use hotkey_manager::hotkey::{Hotkey, Modifier, Modifiers};
use hotkey_manager::keys::KeyToken;
use hotkey_manager::parser::{modifier_for, parse};
use hotkey_manager::text::{split_chars, text_of, trim_chars, upper_chars};

fn chars(s: &str) -> Vec<char> {
    s.chars().collect()
}

fn key(name: &str) -> u32 {
    KeyToken::resolve(name).expect("a key name").code
}

#[test]
fn parses_modifiers_and_key() {
    let hotkey = parse("CTRL+SHIFT+K").unwrap();
    assert!(hotkey.modifiers.ctrl);
    assert!(hotkey.modifiers.shift);
    assert!(!hotkey.modifiers.alt);
    assert!(!hotkey.modifiers.alt_gr);
    assert!(!hotkey.modifiers.super_key);
    assert_eq!(hotkey.key, key("K"));
}

#[test]
fn modifier_order_and_case_do_not_count() {
    let expected = parse("CTRL+SHIFT+K").unwrap();
    assert_eq!(parse("SHIFT+CTRL+K").unwrap(), expected);
    assert_eq!(parse("shift+ctrl+k").unwrap(), expected);
    assert_eq!(parse("Shift+Control+k").unwrap(), expected);
    assert_eq!(parse("K+CTRL+SHIFT").unwrap(), expected);
    assert_eq!(parse("CTRL+SHIFT+CTRL+K").unwrap(), expected);
}

#[test]
fn whitespace_around_tokens_is_ignored() {
    let expected = parse("CTRL+SHIFT+K").unwrap();
    assert_eq!(parse("  ctrl +\tshift + k \n").unwrap(), expected);
}

#[test]
fn modifier_aliases_are_normalised() {
    let expected = parse("SUPER+K").unwrap();
    assert!(expected.modifiers.super_key);
    assert_eq!(parse("CMD+K").unwrap(), expected);
    assert_eq!(parse("COMMAND+K").unwrap(), expected);
    assert_eq!(parse("WIN+K").unwrap(), expected);
    assert_eq!(parse("META+K").unwrap(), expected);
    assert_eq!(parse("OPTION+K").unwrap(), parse("ALT+K").unwrap());
    assert_eq!(parse("CONTROL+K").unwrap(), parse("CTRL+K").unwrap());
    assert!(parse("ALTGR+K").unwrap().modifiers.alt_gr);
}

#[test]
fn empty_description_is_rejected() {
    assert_eq!(parse(""), Err(ParseError::EmptyDescription));
    assert_eq!(parse("   "), Err(ParseError::EmptyDescription));
    assert_eq!(parse("\t\n"), Err(ParseError::EmptyDescription));
}

#[test]
fn modifiers_alone_miss_a_key() {
    assert_eq!(parse("CTRL"), Err(ParseError::MissingKey));
    assert_eq!(parse("CTRL+SHIFT"), Err(ParseError::MissingKey));
    assert_eq!(parse("CTRL+"), Err(ParseError::MissingKey));
    assert_eq!(parse("+"), Err(ParseError::MissingKey));
}

#[test]
fn two_keys_are_rejected() {
    assert_eq!(parse("CTRL+K+L"), Err(ParseError::MultipleKeys));
    assert_eq!(parse("K+K"), Err(ParseError::MultipleKeys));
    assert_eq!(parse("5+5"), Err(ParseError::MultipleKeys));
}

#[test]
fn unknown_token_is_reported() {
    assert_eq!(parse("FOO+K"), Err(ParseError::UnknownToken("FOO".to_string())));
    assert_eq!(parse("ctrl+foo"), Err(ParseError::UnknownToken("FOO".to_string())));
    assert_eq!(parse("K+L+FOO+BAR"), Err(ParseError::UnknownToken("FOO".to_string())));
    assert_eq!(parse("CT RL+K"), Err(ParseError::UnknownToken("CT RL".to_string())));
}

#[test]
fn key_without_modifiers() {
    let hotkey = parse("S").unwrap();
    assert_eq!(hotkey.modifiers, Modifiers::none());
    assert_eq!(hotkey.key, key("S"));
}

#[test]
fn different_keys_get_different_codes() {
    assert_ne!(parse("A").unwrap().key, parse("B").unwrap().key);
    assert_ne!(parse("F1").unwrap().key, parse("F2").unwrap().key);
    assert_ne!(parse("CTRL+A").unwrap(), parse("CTRL+B").unwrap());
    assert_ne!(parse("CTRL+A").unwrap(), parse("ALT+A").unwrap());
}

#[test]
fn digits_and_named_keys() {
    assert_eq!(parse("5").unwrap().key, key("KEY_5"));
    assert_eq!(parse("RETURN").unwrap(), parse("ENTER").unwrap());
    assert_eq!(parse("ALT+BACKSPACE").unwrap().key, key("BACKSPACE"));
    assert_eq!(parse("super+right").unwrap().key, key("RIGHT"));
    assert!(parse("F12").is_ok());
}

#[test]
fn shifted_symbol_implies_shift() {
    let hotkey = parse("CTRL+!").unwrap();
    assert!(hotkey.modifiers.shift);
    assert!(hotkey.modifiers.ctrl);
    assert_eq!(hotkey, parse("CTRL+SHIFT+1").unwrap());
}

#[test]
fn key_token_from_lookup() {
    let token = KeyToken::from_lookup(Some((vec![Modifier::Shift], vec![7]))).unwrap();
    assert_eq!(token.code, 7);
    assert_eq!(token.implied, Modifiers::none().with(Modifier::Shift));
    assert_eq!(KeyToken::from_lookup(Some((vec![], vec![7, 8]))), None);
    assert_eq!(KeyToken::from_lookup(Some((vec![], vec![]))), None);
    assert_eq!(KeyToken::from_lookup(None), None);
}

#[test]
fn key_token_resolve() {
    assert!(KeyToken::resolve("K").is_some());
    assert!(KeyToken::resolve("FOO").is_none());
    assert!(KeyToken::resolve("CTRL").is_none());
    assert!(KeyToken::resolve("").is_none());
}

#[test]
fn modifier_table() {
    assert_eq!(modifier_for(&chars("CTRL")), Some(Modifier::Ctrl));
    assert_eq!(modifier_for(&chars("CONTROL")), Some(Modifier::Ctrl));
    assert_eq!(modifier_for(&chars("SHIFT")), Some(Modifier::Shift));
    assert_eq!(modifier_for(&chars("ALT")), Some(Modifier::Alt));
    assert_eq!(modifier_for(&chars("OPTION")), Some(Modifier::Alt));
    assert_eq!(modifier_for(&chars("ALTGR")), Some(Modifier::AltGr));
    assert_eq!(modifier_for(&chars("SUPER")), Some(Modifier::Super));
    assert_eq!(modifier_for(&chars("CMD")), Some(Modifier::Super));
    assert_eq!(modifier_for(&chars("COMMAND")), Some(Modifier::Super));
    assert_eq!(modifier_for(&chars("WIN")), Some(Modifier::Super));
    assert_eq!(modifier_for(&chars("META")), Some(Modifier::Super));
    assert_eq!(modifier_for(&chars("ctrl")), None);
    assert_eq!(modifier_for(&chars("K")), None);
    assert_eq!(modifier_for(&chars("")), None);
}

#[test]
fn text_helpers() {
    assert_eq!(upper_chars("aZ+é 1"), chars("AZ+é 1"));
    assert_eq!(trim_chars(&chars("  a b \t")), chars("a b"));
    assert_eq!(trim_chars(&chars(" \u{a0}\u{3000} ")), chars(""));
    assert_eq!(trim_chars(&chars("x")), chars("x"));
    assert_eq!(
        split_chars(&chars("a+ b++c")),
        vec![chars("a"), chars(" b"), chars(""), chars("c")]
    );
    assert_eq!(split_chars(&chars("")), vec![chars("")]);
    assert_eq!(split_chars(&chars("+")), vec![chars(""), chars("")]);
    assert_eq!(text_of(&chars("héllo")), "héllo".to_string());
}

#[test]
fn modifier_set_operations() {
    let set = Modifiers::none().with(Modifier::Ctrl).with(Modifier::Alt);
    assert!(set.contains(Modifier::Ctrl));
    assert!(set.contains(Modifier::Alt));
    assert!(!set.contains(Modifier::Shift));
    assert!(!set.is_empty());
    assert!(Modifiers::none().is_empty());
    assert_eq!(
        Modifiers::from_list(&vec![Modifier::Alt, Modifier::Ctrl, Modifier::Alt]),
        set
    );
    let both = set.union(Modifiers::none().with(Modifier::Super));
    assert!(both.contains(Modifier::Super) && both.contains(Modifier::Ctrl));
    assert!(Hotkey::new(set, 3).same(&Hotkey { modifiers: set, key: 3 }));
    assert!(!Hotkey::new(set, 3).same(&Hotkey::new(set, 4)));
}
