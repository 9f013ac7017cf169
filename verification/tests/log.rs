use dungeon::color::{orange, red, white};
use dungeon::messages::{
    death_message, hit_message, miss_message, push_decimal, remains_of,
};
use dungeon::{Color, Messages};

#[test]
fn new_log_is_empty() {
    let log = Messages::new();
    assert_eq!(log.len(), 0);
    assert_eq!(log.iter().count(), 0);
}

#[test]
fn add_appends_in_order() {
    let mut log = Messages::new();
    log.add("first".to_string(), white());
    log.add("second".to_string(), red());
    log.add("third".to_string(), orange());
    assert_eq!(log.len(), 3);
    assert_eq!(log.get(0), &("first".to_string(), white()));
    assert_eq!(log.get(1), &("second".to_string(), red()));
    assert_eq!(log.get(2), &("third".to_string(), orange()));
}

#[test]
fn iter_reads_oldest_first_and_can_be_reversed() {
    let mut log = Messages::new();
    log.add("a".to_string(), white());
    log.add("b".to_string(), red());
    let forward: Vec<String> = log.iter().map(|line| line.0.clone()).collect();
    assert_eq!(forward, vec!["a".to_string(), "b".to_string()]);
    let backward: Vec<String> = log.iter().rev().map(|line| line.0.clone()).collect();
    assert_eq!(backward, vec!["b".to_string(), "a".to_string()]);
}

#[test]
fn add_keeps_earlier_lines() {
    let mut log = Messages::new();
    log.add("Welcome hero! Beware the dragons.".to_string(), red());
    let before = log.get(0).clone();
    log.add("later".to_string(), white());
    assert_eq!(log.get(0), &before);
}

#[test]
fn palette_has_the_documented_values() {
    assert_eq!(white(), Color { r: 255, g: 255, b: 255 });
    assert_eq!(red(), Color { r: 255, g: 0, b: 0 });
    assert_eq!(orange(), Color { r: 255, g: 127, b: 0 });
    assert_eq!(dungeon::color::dark_red(), Color { r: 191, g: 0, b: 0 });
    assert_eq!(dungeon::color::desaturated_green(), Color { r: 63, g: 127, b: 63 });
    assert_eq!(dungeon::color::darker_green(), Color { r: 0, g: 127, b: 0 });
}

#[test]
fn push_decimal_writes_single_digits() {
    for n in 0..10u32 {
        let mut text = String::new();
        push_decimal(&mut text, n);
        assert_eq!(text, format!("{}", n));
    }
}

#[test]
fn push_decimal_writes_after_what_is_there() {
    let mut text = "hp ".to_string();
    push_decimal(&mut text, 1203);
    assert_eq!(text, "hp 1203");
}

#[test]
fn push_decimal_writes_the_largest_number() {
    let mut text = String::new();
    push_decimal(&mut text, u32::MAX);
    assert_eq!(text, "4294967295");
    let mut round = String::new();
    push_decimal(&mut round, 1000);
    assert_eq!(round, "1000");
}

#[test]
fn hit_message_names_both_and_the_damage() {
    assert_eq!(hit_message("hero", "police officer", 5), "hero attacks police officer for 5 hit points");
    assert_eq!(hit_message("army soldier", "hero", 12), "army soldier attacks hero for 12 hit points");
}

#[test]
fn miss_message_says_no_effect() {
    assert_eq!(miss_message("police officer", "hero"), "police officer attacks hero but it has no effect");
}

#[test]
fn death_message_names_the_dead() {
    assert_eq!(death_message("army soldier"), "army soldier is dead");
}

#[test]
fn remains_of_prefixes_the_name() {
    assert_eq!(remains_of("police officer"), "remains of police officer");
    assert_eq!(remains_of(""), "remains of ");
}
