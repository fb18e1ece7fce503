use std::cell::{Cell, RefCell};

use evil::supervillain::{Megaweapon, ParseError, Supervillain};

fn primary() -> Supervillain {
    Supervillain {
        first_name: "Lex".to_string(),
        last_name: "Luthor".to_string(),
    }
}

#[test]
fn full_name_returns_first_name_space_last_name() {
    let sut = primary();
    let full_name = sut.full_name();
    assert_eq!(full_name, "Lex Luthor");
}

#[test]
fn set_full_name_sets_first_and_last_name() {
    let mut sut = primary();
    sut.set_full_name("Darth Vader");
    assert_eq!(sut.first_name, "Darth");
    assert_eq!(sut.last_name, "Vader");
}

#[test]
fn from_str_slice_produces_supervillain_with_first_and_last_name() -> Result<(), ParseError> {
    let sut = Supervillain::try_parse("Darth Vader")?;
    assert_eq!(sut.first_name, "Darth");
    assert_eq!(sut.last_name, "Vader");
    Ok(())
}

#[test]
fn from_str_slice_produces_error_with_less_than_two_substrings() {
    let result = Supervillain::try_parse("");
    let Err(_) = result else {
        panic!("Unexpected value returned by try_from");
    };
}

struct WeaponDouble {
    pub is_shot: RefCell<bool>,
}

impl WeaponDouble {
    fn new() -> WeaponDouble {
        WeaponDouble {
            is_shot: RefCell::new(false),
        }
    }
}

impl Megaweapon for WeaponDouble {
    fn shoot(&self) {
        *self.is_shot.borrow_mut() = true;
    }
}

#[test]
fn attack_shoots_weapon() {
    let sut = primary();
    let weapon = WeaponDouble::new();
    sut.attack(&weapon);
    assert!(*weapon.is_shot.borrow());
}

struct CountingWeapon {
    shots: Cell<u32>,
}

impl Megaweapon for CountingWeapon {
    fn shoot(&self) {
        self.shots.set(self.shots.get() + 1);
    }
}

#[test]
fn attack_fires_exactly_once() {
    let sut = primary();
    let weapon = CountingWeapon {
        shots: Cell::new(0),
    };
    assert_eq!(weapon.shots.get(), 0);
    sut.attack(&weapon);
    assert_eq!(weapon.shots.get(), 1);
}

#[test]
fn plan_is_sadly_expected() {
    let sut = primary();
    assert_eq!(sut.come_up_with_plan(), "Take over the world!");
}

#[test]
fn parsing_then_formatting_reproduces_the_full_name() {
    let sut = Supervillain::try_parse("Darth Vader").unwrap();
    assert_eq!(sut.full_name(), "Darth Vader");
}

#[test]
fn excess_tokens_are_truncated_to_the_first_two() {
    let sut = Supervillain::try_parse("A B C").unwrap();
    assert_eq!(sut.first_name, "A");
    assert_eq!(sut.last_name, "B");
}

#[test]
fn a_single_token_is_too_few() {
    let result = Supervillain::try_parse("Galactus");
    assert!(matches!(result, Err(ParseError::TooFewTokens)));
}

#[test]
fn a_trailing_space_yields_an_empty_last_name() {
    let sut = Supervillain::try_parse("A ").unwrap();
    assert_eq!(sut.first_name, "A");
    assert_eq!(sut.last_name, "");
}

#[test]
fn a_double_space_yields_an_empty_second_token() {
    let sut = Supervillain::try_parse("A  B").unwrap();
    assert_eq!(sut.first_name, "A");
    assert_eq!(sut.last_name, "");
}

#[test]
fn set_full_name_keeps_formatting_exact() {
    let mut sut = primary();
    sut.set_full_name("Ernst Blofeld");
    assert_eq!(sut.full_name(), "Ernst Blofeld");
}
