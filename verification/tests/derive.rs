use mpw_vault::derive::{templates, PasswordType};

const ALL: [(PasswordType, &str, usize); 8] = [
    (PasswordType::Maximum, "Maximum", 2),
    (PasswordType::Long, "Long", 21),
    (PasswordType::Medium, "Medium", 2),
    (PasswordType::Short, "Short", 1),
    (PasswordType::Basic, "Basic", 3),
    (PasswordType::Pin, "PIN", 1),
    (PasswordType::Name, "Name", 1),
    (PasswordType::Phrase, "Phrase", 3),
];

#[test]
fn password_types_have_their_names() {
    for (kind, name, _) in ALL {
        assert_eq!(kind.name(), name);
        assert_eq!(PasswordType::from_name(name), Some(kind));
    }
}

#[test]
fn other_names_are_no_password_types() {
    for name in ["", "maximum", "Pin", "pin", "Maximum ", "Max", "Longer"] {
        assert_eq!(PasswordType::from_name(name), None, "{}", name);
    }
}

#[test]
fn templates_can_be_used_with_a_seed() {
    for (kind, _, count) in ALL {
        let list = templates(kind);
        assert_eq!(list.len(), count);
        for template in &list {
            assert!(template.len() < 32);
            assert!(template.iter().all(|class| !class.is_empty()));
        }
    }
}

#[test]
fn symbols_stand_for_their_classes() {
    let pin = templates(PasswordType::Pin);
    assert_eq!(pin, vec![vec!["0123456789".chars().collect::<Vec<char>>(); 4]]);
    let short = templates(PasswordType::Short);
    assert_eq!(
        short,
        vec![vec![
            "BCDFGHJKLMNPQRSTVWXYZ".chars().collect::<Vec<char>>(),
            "aeiou".chars().collect(),
            "bcdfghjklmnpqrstvwxyz".chars().collect(),
            "0123456789".chars().collect(),
        ]]
    );
    let maximum = templates(PasswordType::Maximum);
    assert_eq!(maximum[0].len(), 20);
    assert_eq!(maximum[0][0].len(), 52);
    assert_eq!(maximum[0][1], "0123456789".chars().collect::<Vec<char>>());
    assert_eq!(maximum[0][2], "@&%?,=[]_:-+*$#!'^~;()/.".chars().collect::<Vec<char>>());
    assert_eq!(maximum[0][3].len(), 72);
    assert_eq!(maximum[1][19].len(), 24);
}

#[test]
fn a_blank_stands_for_itself() {
    let phrase = templates(PasswordType::Phrase);
    let lengths: Vec<usize> = phrase.iter().map(|template| template.len()).collect();
    assert_eq!(lengths, vec![20, 18, 20]);
    assert_eq!(phrase[0][4], vec![' ']);
    assert_eq!(phrase[2][2], vec![' ']);
}
