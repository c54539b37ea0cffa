use spellclash::card_parser::{
    mana_cost, power, split, to_mana_item, toughness, ManaColor, ManaCostItem, PrintedPower,
    PrintedToughness,
};

#[test]
fn split_trims_and_drops_empty_fields() {
    let text = Some(String::from(" Legendary , Creature,, Artifact "));
    assert_eq!(split(&text), vec!["Legendary", "Creature", "Artifact"]);
}

#[test]
fn split_of_nothing_is_empty() {
    assert!(split(&None).is_empty());
    assert!(split(&Some(String::from(" , ,"))).is_empty());
    assert!(split(&Some(String::new())).is_empty());
}

#[test]
fn split_single_field() {
    assert_eq!(split(&Some(String::from("Land"))), vec!["Land"]);
}

#[test]
fn colored_symbols_are_one_mana_each() {
    assert_eq!(to_mana_item("W"), vec![ManaCostItem::Colored(ManaColor::White)]);
    assert_eq!(to_mana_item("U"), vec![ManaCostItem::Colored(ManaColor::Blue)]);
    assert_eq!(to_mana_item("B"), vec![ManaCostItem::Colored(ManaColor::Black)]);
    assert_eq!(to_mana_item("R"), vec![ManaCostItem::Colored(ManaColor::Red)]);
    assert_eq!(to_mana_item("G"), vec![ManaCostItem::Colored(ManaColor::Green)]);
}

#[test]
fn numeric_symbol_is_that_much_generic_mana() {
    assert_eq!(to_mana_item("3"), vec![ManaCostItem::Generic; 3]);
    assert!(to_mana_item("0").is_empty());
    assert_eq!(to_mana_item("12").len(), 12);
}

#[test]
fn mana_cost_reads_symbols_in_order() {
    let cost = mana_cost(&Some(String::from("{2}{G}{G}")));
    assert_eq!(
        cost.items,
        vec![
            ManaCostItem::Generic,
            ManaCostItem::Generic,
            ManaCostItem::Colored(ManaColor::Green),
            ManaCostItem::Colored(ManaColor::Green),
        ]
    );
}

#[test]
fn mana_cost_of_nothing_is_empty() {
    assert!(mana_cost(&None).items.is_empty());
    assert!(mana_cost(&Some(String::new())).items.is_empty());
}

#[test]
fn mana_cost_with_two_digit_generic() {
    let cost = mana_cost(&Some(String::from("{10}{U}")));
    assert_eq!(cost.items.len(), 11);
    assert_eq!(cost.items[10], ManaCostItem::Colored(ManaColor::Blue));
}

#[test]
fn mana_cost_ignores_text_outside_braces() {
    let cost = mana_cost(&Some(String::from("x{W}y{1}")));
    assert_eq!(cost.items, vec![ManaCostItem::Colored(ManaColor::White), ManaCostItem::Generic]);
}

#[test]
fn power_and_toughness_read_numbers() {
    let three = String::from("3");
    let minus_one = String::from("-1");
    let plus_two = String::from("+2");
    assert_eq!(power(Some(&three)), Some(PrintedPower::Number(3)));
    assert_eq!(power(Some(&minus_one)), Some(PrintedPower::Number(-1)));
    assert_eq!(toughness(Some(&plus_two)), Some(PrintedToughness::Number(2)));
    assert_eq!(toughness(Some(&three)), Some(PrintedToughness::Number(3)));
}

#[test]
fn absent_power_and_toughness() {
    assert_eq!(power(None), None);
    assert_eq!(toughness(None), None);
}

#[test]
fn split_fields_have_no_commas_or_edge_whitespace() {
    let text = Some(String::from(" Legendary ,, Snow ,"));
    let fields = split(&text);
    assert_eq!(fields, vec!["Legendary", "Snow"]);
    for f in &fields {
        assert!(!f.is_empty() && !f.contains(','));
        assert_eq!(f.trim(), *f);
    }
    assert!(fields.len() <= 3 + 1);
}
