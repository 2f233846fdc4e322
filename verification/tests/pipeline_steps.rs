//! Tests of the pipeline's pure steps: eligibility filtering, outcome
//! partitioning, sorting by low bound, and total aggregation.

use rl_pricer::inventory::{
    filter_eligible, filter_non_blueprint, filter_tradeable, Certification, InventoryEntry, Paint,
    Quality, SimpleInventoryEntry, Slot, SpecialEdition, Tradeable,
};
use rl_pricer::pipeline::{
    partition_outcomes, sort_priced_by_low, total_value, FetchOutcome, PricedItem,
};
use rl_pricer::price::{FetchError, PriceRange};

fn raw_entry(name: &str, slot: Slot, tradeable: Tradeable, blueprint_item: &str) -> InventoryEntry {
    InventoryEntry {
        product_id: 0,
        name: name.to_string(),
        slot,
        paint: Paint::Unpainted,
        certification: Certification::Uncertified,
        certification_value: 0,
        rank_label: String::new(),
        quality: Quality::NoQuality,
        amount: 1,
        special_edition: SpecialEdition::NoEdition,
        blueprint_item_id: 0,
        blueprint_item: blueprint_item.to_string(),
        blueprint_cost: 0,
        tradeable,
    }
}

fn simple(name: &str) -> SimpleInventoryEntry {
    SimpleInventoryEntry {
        name: name.to_string(),
        slot: Slot::Body,
        paint: Paint::Unpainted,
        certification: Certification::Uncertified,
        quality: Quality::NoQuality,
        amount: 1,
        special_edition: SpecialEdition::NoEdition,
    }
}

fn names(entries: &[InventoryEntry]) -> Vec<String> {
    entries.iter().map(|e| e.name.clone()).collect()
}

#[test]
fn blueprint_is_excluded_whatever_the_order() {
    let blueprint = raw_entry("Fennec", Slot::Blueprint, Tradeable::True, "");
    let body = raw_entry("Octane", Slot::Body, Tradeable::True, "");
    let forward = filter_eligible(vec![blueprint, body]);
    assert_eq!(names(&forward), vec!["Octane".to_string()]);

    let blueprint = raw_entry("Fennec", Slot::Blueprint, Tradeable::True, "");
    let body = raw_entry("Octane", Slot::Body, Tradeable::True, "");
    let backward = filter_eligible(vec![body, blueprint]);
    assert_eq!(names(&backward), vec!["Octane".to_string()]);
}

#[test]
fn blueprint_reference_is_excluded() {
    let with_ref = raw_entry("Dingo", Slot::Body, Tradeable::True, "Dingo");
    let plain = raw_entry("Octane", Slot::Body, Tradeable::True, "");
    let kept = filter_eligible(vec![with_ref, plain]);
    assert_eq!(names(&kept), vec!["Octane".to_string()]);
}

#[test]
fn untradeable_is_excluded() {
    let locked = raw_entry("Werewolf", Slot::Body, Tradeable::False, "");
    let kept = filter_tradeable(vec![locked]);
    assert!(kept.is_empty());
}

#[test]
fn filtering_is_idempotent() {
    let input = vec![
        raw_entry("Octane", Slot::Body, Tradeable::True, ""),
        raw_entry("Fennec", Slot::Blueprint, Tradeable::True, ""),
        raw_entry("Werewolf", Slot::Body, Tradeable::False, ""),
        raw_entry("Dieci", Slot::Wheels, Tradeable::True, ""),
    ];
    let once = filter_eligible(input);
    let once_names = names(&once);
    let twice = filter_eligible(once);
    assert_eq!(names(&twice), once_names);
    assert_eq!(once_names, vec!["Octane".to_string(), "Dieci".to_string()]);
}

#[test]
fn staged_filters_match_eligibility() {
    let input = vec![
        raw_entry("Octane", Slot::Body, Tradeable::True, ""),
        raw_entry("Fennec", Slot::Blueprint, Tradeable::True, ""),
        raw_entry("Werewolf", Slot::Body, Tradeable::False, ""),
    ];
    let staged = filter_non_blueprint(filter_tradeable(input.clone()));
    let direct = filter_eligible(input);
    assert_eq!(names(&staged), names(&direct));
}

#[test]
fn from_json_keeps_the_pricing_fields() {
    let raw = raw_entry("Octane", Slot::Body, Tradeable::True, "");
    let simple = SimpleInventoryEntry::from_json(raw);
    assert_eq!(simple.name, "Octane");
    assert_eq!(simple.slot, Slot::Body);
    assert_eq!(simple.paint, Paint::Unpainted);
    assert_eq!(simple.quality, Quality::NoQuality);
    assert_eq!(simple.amount, 1);
}

#[test]
fn partition_is_a_total_disjoint_split() {
    let outcomes = vec![
        FetchOutcome::Priced(PriceRange { low: 10, high: 20 }, simple("a")),
        FetchOutcome::Failed(FetchError::PriceNotFound, simple("b")),
        FetchOutcome::Priced(PriceRange { low: 5, high: 6 }, simple("c")),
        FetchOutcome::Failed(FetchError::Transport, simple("d")),
    ];
    let total = outcomes.len();
    let (priced, failed) = partition_outcomes(outcomes);
    assert_eq!(priced.len() + failed.len(), total);
    assert_eq!(priced[0].entry.name, "a");
    assert_eq!(priced[0].range, PriceRange { low: 10, high: 20 });
    assert_eq!(priced[1].entry.name, "c");
    assert_eq!(failed[0].entry.name, "b");
    assert_eq!(failed[0].error, FetchError::PriceNotFound);
    assert_eq!(failed[1].entry.name, "d");
    assert_eq!(failed[1].error, FetchError::Transport);
}

#[test]
fn partition_of_empty_is_empty() {
    let (priced, failed) = partition_outcomes(Vec::new());
    assert!(priced.is_empty());
    assert!(failed.is_empty());
}

fn priced(name: &str, low: u64, high: u64) -> PricedItem {
    PricedItem { range: PriceRange { low, high }, entry: simple(name) }
}

#[test]
fn sort_orders_by_low_bound() {
    let items = vec![priced("a", 30, 40), priced("b", 10, 15), priced("c", 20, 22)];
    let sorted = sort_priced_by_low(items);
    let lows: Vec<u64> = sorted.iter().map(|p| p.range.low).collect();
    assert_eq!(lows, vec![10, 20, 30]);
}

#[test]
fn sort_is_stable_and_idempotent() {
    let items = vec![priced("first", 10, 11), priced("second", 10, 12), priced("early", 5, 9)];
    let once = sort_priced_by_low(items);
    let once_names: Vec<String> = once.iter().map(|p| p.entry.name.clone()).collect();
    // ties keep their input order
    assert_eq!(once_names, vec!["early".to_string(), "first".to_string(), "second".to_string()]);
    let twice = sort_priced_by_low(once);
    let twice_names: Vec<String> = twice.iter().map(|p| p.entry.name.clone()).collect();
    assert_eq!(twice_names, once_names);
}

#[test]
fn totals_are_the_exact_sums() {
    let items = vec![priced("a", 10, 20), priced("b", 5, 6), priced("c", 0, 100)];
    let (low, high) = total_value(&items);
    assert_eq!(low, 15);
    assert_eq!(high, 126);
    assert!(low <= high);
}

#[test]
fn totals_of_empty_are_zero() {
    let (low, high) = total_value(&Vec::new());
    assert_eq!(low, 0);
    assert_eq!(high, 0);
}

#[test]
fn totals_do_not_overflow_at_the_bound() {
    let items = vec![priced("a", u64::MAX, u64::MAX), priced("b", u64::MAX, u64::MAX)];
    let (low, high) = total_value(&items);
    assert_eq!(low, 2 * (u64::MAX as u128));
    assert_eq!(high, low);
}
