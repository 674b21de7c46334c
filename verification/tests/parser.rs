use pith::alphabet::{Alphabet, ESCAPE};
use pith::parser::{classify_segment, parse_path, NodeClass};

fn test_alphabet() -> Alphabet {
    let mut names: Vec<String> = [
        "$", "-", "!", "#", "§", "~", "(", ")", "[", "]", "{", "}", "@", "*", "+", ",", "|", ":", "?", "^", "&", "%", "<",
        ">", "=", ";", "_",
    ]
    .iter()
    .map(|s| s.to_string())
    .collect();
    names.push("€".to_string());
    Alphabet::from_names(&names)
}

#[test]
fn test_data_node() {
    let alphabet = test_alphabet();
    assert_eq!(classify_segment("blue", &alphabet), NodeClass::Data("blue".to_string()));
    assert_eq!(classify_segment("001", &alphabet), NodeClass::Data("001".to_string()));
}

#[test]
fn test_instruction_node() {
    let alphabet = test_alphabet();
    assert_eq!(
        classify_segment("-expected", &alphabet),
        NodeClass::Instruction { door: '-', arg: "expected".to_string() }
    );
    assert_eq!(
        classify_segment("!completed", &alphabet),
        NodeClass::Instruction { door: '!', arg: "completed".to_string() }
    );
    assert_eq!(classify_segment("§read", &alphabet), NodeClass::Instruction { door: '§', arg: "read".to_string() });
    assert_eq!(classify_segment("~42", &alphabet), NodeClass::Instruction { door: '~', arg: "42".to_string() });
}

#[test]
fn test_pointer_node() {
    let alphabet = test_alphabet();
    assert_eq!(classify_segment("€$price", &alphabet), NodeClass::Pointer("$price".to_string()));
    assert_eq!(classify_segment("€€", &alphabet), NodeClass::Pointer("€".to_string()));
    assert_eq!(classify_segment("€#channel", &alphabet), NodeClass::Pointer("#channel".to_string()));
}

#[test]
fn test_parse_full_path() {
    let alphabet = test_alphabet();
    let parsed = parse_path("/tmp/test_os/src/hard/identities/001/-expected/type/identity", "/tmp/test_os/src", &alphabet, true);
    assert_eq!(parsed.segments.len(), 6);
    assert_eq!(parsed.segments[0], NodeClass::Data("hard".to_string()));
    assert_eq!(parsed.segments[1], NodeClass::Data("identities".to_string()));
    assert_eq!(parsed.segments[2], NodeClass::Data("001".to_string()));
    assert_eq!(parsed.segments[3], NodeClass::Instruction { door: '-', arg: "expected".to_string() });
    assert_eq!(parsed.segments[4], NodeClass::Data("type".to_string()));
    assert_eq!(parsed.segments[5], NodeClass::Data("identity".to_string()));
    assert_eq!(parsed.scope, Some("hard".to_string()));
    assert!(parsed.is_leaf);
}

#[test]
fn composed_forms_classify_alike() {
    let alphabet = test_alphabet();
    assert_eq!(classify_segment("cafe\u{301}", &alphabet), NodeClass::Data("caf\u{e9}".to_string()));
    assert_eq!(classify_segment("", &alphabet), NodeClass::Data(String::new()));
}

#[test]
fn parse_path_outside_root_keeps_components_and_skips_dotfiles() {
    let alphabet = test_alphabet();
    let parsed = parse_path("other/.hidden/x", "/root", &alphabet, false);
    assert_eq!(parsed.segments, vec![NodeClass::Data("other".to_string()), NodeClass::Data("x".to_string())]);
    assert_eq!(parsed.scope, Some("other".to_string()));
    assert!(!parsed.is_leaf);
}

#[test]
fn test_escape_is_always_present() {
    let alphabet = Alphabet::from_names(&[]);
    assert!(alphabet.is_reserved(ESCAPE));
    assert!(alphabet.is_escape('€'));
    assert_eq!(alphabet.len(), 1);
}

#[test]
fn test_load_reserved_chars() {
    let names: Vec<String> = ["$", "-", "!", "€"].iter().map(|s| s.to_string()).collect();
    let alphabet = Alphabet::from_names(&names);
    assert!(alphabet.is_reserved('$'));
    assert!(alphabet.is_reserved('-'));
    assert!(alphabet.is_reserved('!'));
    assert!(alphabet.is_reserved('€'));
    assert_eq!(alphabet.len(), 4);
}

#[test]
fn test_dotfiles_ignored() {
    let names: Vec<String> = [".gitkeep", "$"].iter().map(|s| s.to_string()).collect();
    let alphabet = Alphabet::from_names(&names);
    assert!(!alphabet.is_reserved('.'));
    assert!(alphabet.is_reserved('$'));
    assert_eq!(alphabet.len(), 2);
}

#[test]
fn test_unicode_logic_doors() {
    let names: Vec<String> = ["§", "λ", "∞"].iter().map(|s| s.to_string()).collect();
    let alphabet = Alphabet::from_names(&names);
    assert!(alphabet.is_reserved('§'));
    assert!(alphabet.is_reserved('λ'));
    assert!(alphabet.is_reserved('∞'));
    assert!(!alphabet.is_empty());
    assert_eq!(alphabet.iter().count(), 4);
}
