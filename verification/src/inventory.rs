//! Inventory data model: the categorical vocabularies of an inventory
//! export, the full entry record, and the reduced record that the pricing
//! pipeline works on, together with the eligibility filter.

use vstd::prelude::*;

verus! {

/// Equipment slot of an item (closed category; `Unknown` is the sentinel
/// for an empty slot string in the source data).
#[derive(Clone, Copy, PartialEq, Eq, Structural, Debug)]
pub enum Slot {
    AnimatedDecal,
    Antenna,
    AvatarBorder,
    Blueprint,
    Body,
    Crate,
    Decal,
    EngineAudio,
    GoalExplosion,
    PaintFinish,
    PlayerAnthem,
    PlayerBanner,
    PlayerTitle,
    RewardItem,
    RocketBoost,
    Topper,
    Trail,
    Wheels,
    Unknown,
}

/// Paint color of an item (closed category; `None` means unpainted).
#[derive(Clone, Copy, PartialEq, Eq, Structural, Debug)]
pub enum Paint {
    Black,
    BurntSienna,
    Cobalt,
    Crimson,
    ForestGreen,
    Grey,
    Lime,
    Unpainted,
    Orange,
    Pink,
    Purple,
    Saffron,
    SkyBlue,
    TitaniumWhite,
}

/// Certified stat type of an item (closed category; `None` means uncertified).
#[derive(Clone, Copy, PartialEq, Eq, Structural, Debug)]
pub enum Certification {
    AerialGoals,
    Assists,
    BackwardsGoals,
    BicycleGoals,
    Centers,
    Clears,
    EpicSaves,
    Goals,
    Juggles,
    LongGoals,
    MVPs,
    Uncertified,
    Saves,
    ShotsOnGoal,
    TurtleGoals,
    Wins,
}

/// Rarity tier of an item (closed category; `None` is the sentinel for an
/// empty or unknown quality string in the source data).
#[derive(Clone, Copy, PartialEq, Eq, Structural, Debug)]
pub enum Quality {
    NoQuality,
    BlackMarket,
    Common,
    Exotic,
    Import,
    Legacy,
    Limited,
    Rare,
    Uncommon,
    VeryRare,
}

/// Special-edition variant of an item (closed category; `None` means the
/// plain edition).
#[derive(Clone, Copy, PartialEq, Eq, Structural, Debug)]
pub enum SpecialEdition {
    NoEdition,
    Holographic,
    Infinite,
    Inverted,
    Remixed,
}

/// Whether the source marks the item as tradeable.
#[derive(Clone, Copy, PartialEq, Eq, Structural, Debug)]
pub enum Tradeable {
    True,
    False,
}

/// One raw inventory entry, with every field of the source record.
#[derive(Clone, Debug)]
pub struct InventoryEntry {
    pub product_id: isize,
    pub name: String,
    pub slot: Slot,
    pub paint: Paint,
    pub certification: Certification,
    pub certification_value: usize,
    pub rank_label: String,
    pub quality: Quality,
    pub amount: usize,
    pub special_edition: SpecialEdition,
    pub blueprint_item_id: usize,
    pub blueprint_item: String,
    pub blueprint_cost: usize,
    pub tradeable: Tradeable,
}

/// The root of an inventory export: an ordered sequence of entries.
#[derive(Debug)]
pub struct InventoryJsonRoot {
    pub inventory: Vec<InventoryEntry>,
}

/// The reduced record the pricing pipeline works on: only the fields that
/// the lookup-key normalization reads.
#[derive(Clone, Debug)]
pub struct SimpleInventoryEntry {
    pub name: String,
    pub slot: Slot,
    pub paint: Paint,
    pub certification: Certification,
    pub quality: Quality,
    pub amount: usize,
    pub special_edition: SpecialEdition,
}

impl SimpleInventoryEntry {
    /// Drops the fields of a raw entry that pricing never reads.
    pub fn from_json(entry: InventoryEntry) -> (r: SimpleInventoryEntry)
        ensures
            r.name == entry.name,
            r.slot == entry.slot,
            r.paint == entry.paint,
            r.certification == entry.certification,
            r.quality == entry.quality,
            r.amount == entry.amount,
            r.special_edition == entry.special_edition,
    {
        SimpleInventoryEntry {
            name: entry.name,
            slot: entry.slot,
            paint: entry.paint,
            certification: entry.certification,
            quality: entry.quality,
            amount: entry.amount,
            special_edition: entry.special_edition,
        }
    }
}

/// The source marks the entry as tradeable.
pub open spec fn is_tradeable(e: InventoryEntry) -> bool {
    e.tradeable is True
}

/// The entry is not a blueprint: no blueprint-item reference and not in the
/// blueprint slot.
pub open spec fn is_non_blueprint(e: InventoryEntry) -> bool {
    e.blueprint_item@.len() == 0 && !(e.slot is Blueprint)
}

/// An entry is eligible for pricing when it is tradeable and not a blueprint.
pub open spec fn is_eligible(e: InventoryEntry) -> bool {
    is_tradeable(e) && is_non_blueprint(e)
}

/// The subsequence of tradeable entries, in input order.
pub open spec fn filter_tradeable_spec(s: Seq<InventoryEntry>) -> Seq<InventoryEntry> {
    s.filter(|e: InventoryEntry| is_tradeable(e))
}

/// The subsequence of non-blueprint entries, in input order.
pub open spec fn filter_non_blueprint_spec(s: Seq<InventoryEntry>) -> Seq<InventoryEntry> {
    s.filter(|e: InventoryEntry| is_non_blueprint(e))
}

/// The subsequence of eligible entries, in input order.
pub open spec fn filter_eligible_spec(s: Seq<InventoryEntry>) -> Seq<InventoryEntry> {
    s.filter(|e: InventoryEntry| is_eligible(e))
}

/// Keeps exactly the tradeable entries, in input order.
pub fn filter_tradeable(entries: Vec<InventoryEntry>) -> (r: Vec<InventoryEntry>)
    ensures
        r@ == filter_tradeable_spec(entries@),
{
    let ghost pred = |e: InventoryEntry| is_tradeable(e);
    let mut out: Vec<InventoryEntry> = Vec::new();
    let mut rest = entries;
    let ghost all = rest@;
    let n = rest.len();
    let mut i: usize = 0;
    proof {
        reveal(Seq::filter);
        assert(all.skip(0) =~= all);
        assert(all.take(0) =~= Seq::<InventoryEntry>::empty());
    }
    while rest.len() > 0
        invariant
            all.len() == n,
            i + rest@.len() == all.len(),
            rest@ == all.skip(i as int),
            out@ == all.take(i as int).filter(pred),
            pred == (|e: InventoryEntry| is_tradeable(e)),
        decreases rest@.len(),
    {
        let e = rest.remove(0);
        proof {
            lemma_take_one_more(all, i as int);
            assert(all.skip(i as int).remove(0) =~= all.skip(i + 1));
            Seq::filter_distributes_over_add(all.take(i as int), seq![e], pred);
            lemma_filter_singleton(e, pred);
        }
        if matches!(e.tradeable, Tradeable::True) {
            out.push(e);
        }
        i = i + 1;
    }
    proof {
        assert(all.take(all.len() as int) =~= all);
    }
    out
}

/// Keeps exactly the non-blueprint entries, in input order.
pub fn filter_non_blueprint(entries: Vec<InventoryEntry>) -> (r: Vec<InventoryEntry>)
    ensures
        r@ == filter_non_blueprint_spec(entries@),
{
    let ghost pred = |e: InventoryEntry| is_non_blueprint(e);
    let mut out: Vec<InventoryEntry> = Vec::new();
    let mut rest = entries;
    let ghost all = rest@;
    let n = rest.len();
    let mut i: usize = 0;
    proof {
        reveal(Seq::filter);
        assert(all.skip(0) =~= all);
        assert(all.take(0) =~= Seq::<InventoryEntry>::empty());
    }
    while rest.len() > 0
        invariant
            all.len() == n,
            i + rest@.len() == all.len(),
            rest@ == all.skip(i as int),
            out@ == all.take(i as int).filter(pred),
            pred == (|e: InventoryEntry| is_non_blueprint(e)),
        decreases rest@.len(),
    {
        let e = rest.remove(0);
        proof {
            lemma_take_one_more(all, i as int);
            assert(all.skip(i as int).remove(0) =~= all.skip(i + 1));
            Seq::filter_distributes_over_add(all.take(i as int), seq![e], pred);
            lemma_filter_singleton(e, pred);
        }
        if e.blueprint_item.as_str().is_empty() && !matches!(e.slot, Slot::Blueprint) {
            out.push(e);
        }
        i = i + 1;
    }
    proof {
        assert(all.take(all.len() as int) =~= all);
    }
    out
}

/// Keeps exactly the eligible entries (tradeable and not a blueprint), in
/// input order.
pub fn filter_eligible(entries: Vec<InventoryEntry>) -> (r: Vec<InventoryEntry>)
    ensures
        r@ == filter_eligible_spec(entries@),
{
    let ghost pred = |e: InventoryEntry| is_eligible(e);
    let mut out: Vec<InventoryEntry> = Vec::new();
    let mut rest = entries;
    let ghost all = rest@;
    let n = rest.len();
    let mut i: usize = 0;
    proof {
        reveal(Seq::filter);
        assert(all.skip(0) =~= all);
        assert(all.take(0) =~= Seq::<InventoryEntry>::empty());
    }
    while rest.len() > 0
        invariant
            all.len() == n,
            i + rest@.len() == all.len(),
            rest@ == all.skip(i as int),
            out@ == all.take(i as int).filter(pred),
            pred == (|e: InventoryEntry| is_eligible(e)),
        decreases rest@.len(),
    {
        let e = rest.remove(0);
        proof {
            lemma_take_one_more(all, i as int);
            assert(all.skip(i as int).remove(0) =~= all.skip(i + 1));
            Seq::filter_distributes_over_add(all.take(i as int), seq![e], pred);
            lemma_filter_singleton(e, pred);
        }
        if matches!(e.tradeable, Tradeable::True) && e.blueprint_item.as_str().is_empty()
            && !matches!(e.slot, Slot::Blueprint) {
            out.push(e);
        }
        i = i + 1;
    }
    proof {
        assert(all.take(all.len() as int) =~= all);
    }
    out
}

/// `s.take(i + 1)` is `s.take(i)` with `s[i]` appended.
proof fn lemma_take_one_more<A>(s: Seq<A>, i: int)
    requires
        0 <= i < s.len(),
    ensures
        s.take(i + 1) =~= s.take(i) + seq![s[i]],
        s.skip(i)[0] == s[i],
{
}

/// Filtering a one-element sequence keeps or drops that one element.
proof fn lemma_filter_singleton<A>(x: A, pred: spec_fn(A) -> bool)
    ensures
        seq![x].filter(pred) =~= if pred(x) {
            seq![x]
        } else {
            Seq::<A>::empty()
        },
{
    reveal(Seq::filter);
    assert(seq![x].drop_last() =~= Seq::<A>::empty());
    assert(Seq::<A>::empty().filter(pred) =~= Seq::<A>::empty());
}

/// A sequence whose entries all satisfy the predicate is left unchanged by
/// filtering.
proof fn lemma_filter_of_all_true<A>(s: Seq<A>, pred: spec_fn(A) -> bool)
    requires
        forall|i: int| 0 <= i < s.len() ==> pred(#[trigger] s[i]),
    ensures
        s.filter(pred) =~= s,
    decreases s.len(),
{
    reveal(Seq::filter);
    if s.len() > 0 {
        lemma_filter_of_all_true(s.drop_last(), pred);
    }
}

/// Eligibility filtering is idempotent: filtering an already-filtered
/// sequence changes nothing.
pub proof fn lemma_filter_eligible_idempotent(s: Seq<InventoryEntry>)
    ensures
        filter_eligible_spec(filter_eligible_spec(s)) == filter_eligible_spec(s),
{
    let pred = |e: InventoryEntry| is_eligible(e);
    assert forall|i: int| 0 <= i < s.filter(pred).len() implies pred(#[trigger] s.filter(pred)[i]) by {
        s.lemma_filter_pred(pred, i);
    }
    lemma_filter_of_all_true(s.filter(pred), pred);
}

/// Eligibility filtering equals tradeable filtering followed by
/// non-blueprint filtering: the two conditions are an intersection, so the
/// staging order does not change the result.
pub proof fn lemma_filter_stages_compose(s: Seq<InventoryEntry>)
    ensures
        filter_non_blueprint_spec(filter_tradeable_spec(s)) == filter_eligible_spec(s),
    decreases s.len(),
{
    reveal(Seq::filter);
    let tr = |e: InventoryEntry| is_tradeable(e);
    let nb = |e: InventoryEntry| is_non_blueprint(e);
    let el = |e: InventoryEntry| is_eligible(e);
    if s.len() == 0 {
        assert(s.filter(tr) =~= s);
        assert(s.filter(el) =~= s);
    } else {
        lemma_filter_stages_compose(s.drop_last());
        let x = s.last();
        if tr(x) {
            assert(s.filter(tr) == s.drop_last().filter(tr).push(x));
            assert(s.filter(tr).drop_last() =~= s.drop_last().filter(tr));
            assert(s.filter(tr).last() == x);
        } else {
            assert(s.filter(tr) == s.drop_last().filter(tr));
        }
    }
}

} // verus!
