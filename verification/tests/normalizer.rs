//! Tests of the lookup-key normalizer: the fixed category tables, the name
//! normalization steps and their known quirks, and the segment composition.

use rl_pricer::inventory::{Certification, Paint, Quality, SimpleInventoryEntry, Slot, SpecialEdition};
use rl_pricer::query::slot_is_mappable;

fn entry(slot: Slot, name: &str, paint: Paint, quality: Quality, edition: SpecialEdition) -> SimpleInventoryEntry {
    SimpleInventoryEntry {
        name: name.to_string(),
        slot,
        paint,
        certification: Certification::Uncertified,
        quality,
        amount: 1,
        special_edition: edition,
    }
}

fn plain(slot: Slot, name: &str) -> SimpleInventoryEntry {
    entry(slot, name, Paint::Unpainted, Quality::NoQuality, SpecialEdition::NoEdition)
}

#[test]
fn normalizer_is_pure() {
    let e = entry(Slot::Wheels, "Dieci", Paint::TitaniumWhite, Quality::NoQuality, SpecialEdition::NoEdition);
    let first = e.to_insider_gg_query(false);
    let second = e.to_insider_gg_query(false);
    assert_eq!(first, second);
    let third = e.to_insider_gg_query(true);
    assert_eq!(third, e.to_insider_gg_query(true));
}

#[test]
fn painted_wheels_key() {
    let e = entry(Slot::Wheels, "Dieci", Paint::TitaniumWhite, Quality::NoQuality, SpecialEdition::NoEdition);
    let url = e.to_insider_gg_query(false);
    assert_eq!(url, "https://rl.insider.gg/en/pc/wheels/dieci/white");
    assert!(url.ends_with("/wheels/dieci/white"));
}

#[test]
fn title_separator_becomes_path() {
    let e = plain(Slot::Body, "Octane: Krush");
    assert_eq!(e.to_insider_gg_query(false), "https://rl.insider.gg/en/pc/cars/octane/krush");
}

#[test]
fn ampersand_leaves_two_underscores() {
    // ' & ' becomes '_ _', then spaces become underscores, and the one
    // collapse pass turns the run of three into two, not one.
    let e = plain(Slot::Topper, "Nuts & Bolts");
    assert_eq!(e.to_insider_gg_query(false), "https://rl.insider.gg/en/pc/toppers/nuts__bolts");
}

#[test]
fn apostrophe_and_double_underscore_collapse() {
    let e = plain(Slot::Decal, "Golden Moon '23");
    assert_eq!(e.to_insider_gg_query(false), "https://rl.insider.gg/en/pc/decals/golden_moon_23");
}

#[test]
fn exclamation_marks_are_deleted() {
    let e = plain(Slot::Decal, "WWE SmackDown Live!");
    assert_eq!(
        e.to_insider_gg_query(false),
        "https://rl.insider.gg/en/pc/decals/wwe_smackdown_live"
    );
}

#[test]
fn spaced_dash_collapses_to_one_underscore() {
    let e = plain(Slot::Decal, "Lunchbox - Esper");
    assert_eq!(e.to_insider_gg_query(false), "https://rl.insider.gg/en/pc/decals/lunchbox_esper");
}

#[test]
fn dots_dashes_quotes_become_underscores() {
    assert_eq!(
        plain(Slot::Decal, "Y.O.U").to_insider_gg_query(false),
        "https://rl.insider.gg/en/pc/decals/y_o_u"
    );
    assert_eq!(
        plain(Slot::Wheels, "Tri-2050").to_insider_gg_query(false),
        "https://rl.insider.gg/en/pc/wheels/tri_2050"
    );
    assert_eq!(
        plain(Slot::Decal, "School'd").to_insider_gg_query(false),
        "https://rl.insider.gg/en/pc/decals/school_d"
    );
}

#[test]
fn trailing_underscores_are_trimmed() {
    let e = plain(Slot::Decal, "Abc.");
    assert_eq!(e.to_insider_gg_query(false), "https://rl.insider.gg/en/pc/decals/abc");
}

#[test]
fn name_override_applies() {
    let e = plain(Slot::Trail, "Blade Wave");
    assert_eq!(
        e.to_insider_gg_query(false),
        "https://rl.insider.gg/en/pc/trails/blade_wave_2020/inverted"
    );
}

#[test]
fn quality_segment_only_when_requested() {
    let e = entry(Slot::Body, "Octane", Paint::Unpainted, Quality::BlackMarket, SpecialEdition::NoEdition);
    assert_eq!(e.to_insider_gg_query(false), "https://rl.insider.gg/en/pc/cars/octane");
    assert_eq!(e.to_insider_gg_query(true), "https://rl.insider.gg/en/pc/cars/octane/black_market");
}

#[test]
fn edition_and_paint_segment_order() {
    let e = entry(Slot::Wheels, "Zomba", Paint::Orange, Quality::Import, SpecialEdition::Infinite);
    assert_eq!(e.to_insider_gg_query(false), "https://rl.insider.gg/en/pc/wheels/zomba/infinite/orange");
    assert_eq!(
        e.to_insider_gg_query(true),
        "https://rl.insider.gg/en/pc/wheels/zomba/import/infinite/orange"
    );
}

#[test]
fn slot_table_spot_checks() {
    assert_eq!(
        plain(Slot::AnimatedDecal, "Heatwave").to_insider_gg_query(false),
        "https://rl.insider.gg/en/pc/decals/heatwave"
    );
    assert_eq!(
        plain(Slot::RocketBoost, "Standard").to_insider_gg_query(false),
        "https://rl.insider.gg/en/pc/boosts/standard"
    );
    assert_eq!(
        plain(Slot::EngineAudio, "Cutter").to_insider_gg_query(false),
        "https://rl.insider.gg/en/pc/engine_sounds/cutter"
    );
    assert_eq!(
        plain(Slot::AvatarBorder, "Gravity").to_insider_gg_query(false),
        "https://rl.insider.gg/en/pc/avatar_borders/gravity"
    );
}

#[test]
fn unmappable_slots_are_reported() {
    assert!(!slot_is_mappable(&Slot::Blueprint));
    assert!(!slot_is_mappable(&Slot::Unknown));
    assert!(!slot_is_mappable(&Slot::PlayerAnthem));
    assert!(!slot_is_mappable(&Slot::PlayerTitle));
    assert!(!slot_is_mappable(&Slot::RewardItem));
    assert!(slot_is_mappable(&Slot::Body));
    assert!(slot_is_mappable(&Slot::Wheels));
}
