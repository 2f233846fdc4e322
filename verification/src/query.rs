//! The lookup-key normalizer: maps one inventory item's categorical
//! attributes and display name to the canonical URL path used to query the
//! external price source.

use vstd::prelude::*;
use vstd::string::StringExecFns;

use crate::inventory::{Paint, Quality, SimpleInventoryEntry, Slot, SpecialEdition};
use crate::text::{
    chars_to_string, map_spaces, map_specials, remove_bangs, replace_chars, replace_str,
    str_to_chars, strip_bangs, strip_trailing_underscores, trim_end_underscores,
    underscore_spaces, underscore_specials,
};

verus! {

/// The slots that the external price catalog supports. The filter's contract
/// keeps blueprints out, and anthems, titles, reward items and the unknown
/// sentinel have no catalog page: meeting one of those here is an internal
/// consistency error, not a recoverable fetch failure.
pub open spec fn slot_mappable(s: Slot) -> bool {
    !(s is Unknown || s is Blueprint || s is PlayerAnthem || s is PlayerTitle || s is RewardItem)
}

/// The fixed path segment of each supported slot; unsupported slots get the
/// empty segment (they are guarded out by `slot_mappable`).
pub open spec fn slot_segment(s: Slot) -> Seq<char>
    recommends
        slot_mappable(s),
{
    match s {
        Slot::AnimatedDecal => "decals"@,
        Slot::Antenna => "antennas"@,
        Slot::AvatarBorder => "avatar_borders"@,
        Slot::Body => "cars"@,
        Slot::Crate => "crates"@,
        Slot::Decal => "decals"@,
        Slot::EngineAudio => "engine_sounds"@,
        Slot::GoalExplosion => "goal_explosions"@,
        Slot::PaintFinish => "paint_finishes"@,
        Slot::PlayerBanner => "banners"@,
        Slot::RocketBoost => "boosts"@,
        Slot::Topper => "toppers"@,
        Slot::Trail => "trails"@,
        Slot::Wheels => "wheels"@,
        _ => Seq::empty(),
    }
}

/// The external vocabulary token of each paint color; unpainted items omit
/// the segment.
pub open spec fn paint_token(p: Paint) -> Option<Seq<char>> {
    match p {
        Paint::Black => Option::Some("black"@),
        Paint::BurntSienna => Option::Some("sienna"@),
        Paint::Cobalt => Option::Some("cobalt"@),
        Paint::Crimson => Option::Some("crimson"@),
        Paint::ForestGreen => Option::Some("fgreen"@),
        Paint::Grey => Option::Some("grey"@),
        Paint::Lime => Option::Some("lime"@),
        Paint::Unpainted => Option::None,
        Paint::Orange => Option::Some("orange"@),
        Paint::Pink => Option::Some("pink"@),
        Paint::Purple => Option::Some("purple"@),
        Paint::Saffron => Option::Some("saffron"@),
        Paint::SkyBlue => Option::Some("sblue"@),
        Paint::TitaniumWhite => Option::Some("white"@),
    }
}

/// The external vocabulary token of each special edition; the plain edition
/// omits the segment.
pub open spec fn edition_token(e: SpecialEdition) -> Option<Seq<char>> {
    match e {
        SpecialEdition::NoEdition => Option::None,
        SpecialEdition::Holographic => Option::Some("holographic"@),
        SpecialEdition::Infinite => Option::Some("infinite"@),
        SpecialEdition::Inverted => Option::Some("inverted"@),
        SpecialEdition::Remixed => Option::Some("remixed"@),
    }
}

/// The external vocabulary token of each quality tier, emitted only when the
/// caller asks for the quality segment; an absent quality omits the segment.
pub open spec fn quality_token(q: Quality, with_quality: bool) -> Option<Seq<char>> {
    if !with_quality {
        Option::None
    } else {
        match q {
            Quality::NoQuality => Option::None,
            Quality::BlackMarket => Option::Some("black_market"@),
            Quality::Common => Option::Some("common"@),
            Quality::Exotic => Option::Some("exotic"@),
            Quality::Import => Option::Some("import"@),
            Quality::Legacy => Option::Some("legacy"@),
            Quality::Limited => Option::Some("limited"@),
            Quality::Rare => Option::Some("rare"@),
            Quality::Uncommon => Option::Some("uncommon"@),
            Quality::VeryRare => Option::Some("very_rare"@),
        }
    }
}

/// The single literal name override: one display name is spelled differently
/// by the external catalog and is rewritten before generic normalization.
pub open spec fn overridden_name(n: Seq<char>) -> Seq<char> {
    if n == "Blade Wave"@ {
        "Blade Wave 2020: Inverted"@
    } else {
        n
    }
}

/// What `str::to_lowercase` returns: the lowercase form of a string, a
/// function of its characters alone.
pub uninterp spec fn lower_of(s: Seq<char>) -> Seq<char>;

/// Relies on `str::to_lowercase`: the result depends on the characters of
/// the input alone.
#[verifier::external_body]
fn lowercase(s: &str) -> (r: String)
    ensures
        r@ == lower_of(s@),
{
    s.to_lowercase()
}

/// Generic normalization of an already-lowercased display name to the
/// external key format: delete exclamation marks; collapse the spaced dash;
/// rewrite the special characters to underscores; turn a `": "` title
/// separator into a path separator; rewrite spaces to underscores; collapse
/// double then triple underscores once each (a best-effort cleanup, not a
/// general collapse of arbitrarily long runs); and trim trailing
/// underscores.
pub open spec fn normalized_name(lowered: Seq<char>) -> Seq<char> {
    let no_bangs = remove_bangs(lowered);
    let dashes = replace_str(no_bangs, seq![' ', '-', ' '], seq!['_']);
    let specials = underscore_specials(dashes);
    let sep = replace_str(specials, seq![':', ' '], seq!['/']);
    let spaces = underscore_spaces(sep);
    let two = replace_str(spaces, seq!['_', '_'], seq!['_']);
    let three = replace_str(two, seq!['_', '_', '_'], seq!['_']);
    trim_end_underscores(three)
}

/// `o` as an optional path segment: absent contributes nothing, present
/// contributes a slash-prefixed segment.
pub open spec fn opt_segment(o: Option<Seq<char>>) -> Seq<char> {
    match o {
        Option::None => Seq::empty(),
        Option::Some(t) => seq!['/'] + t,
    }
}

/// The canonical lookup path of an item: fixed host, locale and platform
/// prefix, slot segment, normalized name, then the optional quality,
/// special-edition and paint segments in that order.
pub open spec fn query_path(e: SimpleInventoryEntry, with_quality: bool) -> Seq<char>
    recommends
        slot_mappable(e.slot),
{
    "https://rl.insider.gg/en/pc/"@ + slot_segment(e.slot) + "/"@ + normalized_name(
        lower_of(overridden_name(e.name@)),
    ) + opt_segment(quality_token(e.quality, with_quality)) + opt_segment(
        edition_token(e.special_edition),
    ) + opt_segment(paint_token(e.paint))
}

/// The slot's fixed path segment.
fn slot_segment_str(s: &Slot) -> (r: &'static str)
    requires
        slot_mappable(*s),
    ensures
        r@ == slot_segment(*s),
{
    match s {
        Slot::AnimatedDecal => "decals",
        Slot::Antenna => "antennas",
        Slot::AvatarBorder => "avatar_borders",
        Slot::Body => "cars",
        Slot::Crate => "crates",
        Slot::Decal => "decals",
        Slot::EngineAudio => "engine_sounds",
        Slot::GoalExplosion => "goal_explosions",
        Slot::PaintFinish => "paint_finishes",
        Slot::PlayerBanner => "banners",
        Slot::RocketBoost => "boosts",
        Slot::Topper => "toppers",
        Slot::Trail => "trails",
        Slot::Wheels => "wheels",
        _ => "",
    }
}

/// The paint's vocabulary token, if the item is painted.
fn paint_token_str(p: &Paint) -> (r: Option<&'static str>)
    ensures
        match r {
            Option::Some(t) => paint_token(*p) == Option::Some(t@),
            Option::None => paint_token(*p) is None,
        },
{
    match p {
        Paint::Black => Option::Some("black"),
        Paint::BurntSienna => Option::Some("sienna"),
        Paint::Cobalt => Option::Some("cobalt"),
        Paint::Crimson => Option::Some("crimson"),
        Paint::ForestGreen => Option::Some("fgreen"),
        Paint::Grey => Option::Some("grey"),
        Paint::Lime => Option::Some("lime"),
        Paint::Unpainted => Option::None,
        Paint::Orange => Option::Some("orange"),
        Paint::Pink => Option::Some("pink"),
        Paint::Purple => Option::Some("purple"),
        Paint::Saffron => Option::Some("saffron"),
        Paint::SkyBlue => Option::Some("sblue"),
        Paint::TitaniumWhite => Option::Some("white"),
    }
}

/// The special edition's vocabulary token, if the item has one.
fn edition_token_str(e: &SpecialEdition) -> (r: Option<&'static str>)
    ensures
        match r {
            Option::Some(t) => edition_token(*e) == Option::Some(t@),
            Option::None => edition_token(*e) is None,
        },
{
    match e {
        SpecialEdition::NoEdition => Option::None,
        SpecialEdition::Holographic => Option::Some("holographic"),
        SpecialEdition::Infinite => Option::Some("infinite"),
        SpecialEdition::Inverted => Option::Some("inverted"),
        SpecialEdition::Remixed => Option::Some("remixed"),
    }
}

/// The quality's vocabulary token, when the quality segment is requested.
fn quality_token_str(q: &Quality, with_quality: bool) -> (r: Option<&'static str>)
    ensures
        match r {
            Option::Some(t) => quality_token(*q, with_quality) == Option::Some(t@),
            Option::None => quality_token(*q, with_quality) is None,
        },
{
    if !with_quality {
        return Option::None;
    }
    match q {
        Quality::NoQuality => Option::None,
        Quality::BlackMarket => Option::Some("black_market"),
        Quality::Common => Option::Some("common"),
        Quality::Exotic => Option::Some("exotic"),
        Quality::Import => Option::Some("import"),
        Quality::Legacy => Option::Some("legacy"),
        Quality::Limited => Option::Some("limited"),
        Quality::Rare => Option::Some("rare"),
        Quality::Uncommon => Option::Some("uncommon"),
        Quality::VeryRare => Option::Some("very_rare"),
    }
}

impl SimpleInventoryEntry {
    /// The canonical lookup URL of this item on the external price source.
    /// Pure: the result is a function of the item's fields alone, so two
    /// calls on the same item return the same string. Total over every item
    /// whose slot the catalog supports.
    pub fn to_insider_gg_query(&self, with_quality: bool) -> (r: String)
        requires
            slot_mappable(self.slot),
        ensures
            r@ == query_path(*self, with_quality),
    {
        let bw = String::from_str("Blade Wave");
        let base: &str = if self.name == bw {
            "Blade Wave 2020: Inverted"
        } else {
            self.name.as_str()
        };
        proof {
            assert(base@ == overridden_name(self.name@));
        }
        let lowered = lowercase(base);
        let chars = str_to_chars(lowered.as_str());

        let no_bangs = strip_bangs(&chars);

        let mut pat_dash: Vec<char> = Vec::new();
        pat_dash.push(' ');
        pat_dash.push('-');
        pat_dash.push(' ');
        let mut rep_underscore: Vec<char> = Vec::new();
        rep_underscore.push('_');
        proof {
            assert(pat_dash@ =~= seq![' ', '-', ' ']);
            assert(rep_underscore@ =~= seq!['_']);
        }
        let dashes = replace_chars(&no_bangs, &pat_dash, &rep_underscore);

        let specials = map_specials(&dashes);

        let mut pat_sep: Vec<char> = Vec::new();
        pat_sep.push(':');
        pat_sep.push(' ');
        let mut rep_slash: Vec<char> = Vec::new();
        rep_slash.push('/');
        proof {
            assert(pat_sep@ =~= seq![':', ' ']);
            assert(rep_slash@ =~= seq!['/']);
        }
        let sep = replace_chars(&specials, &pat_sep, &rep_slash);

        let spaces = map_spaces(&sep);

        let mut pat_two: Vec<char> = Vec::new();
        pat_two.push('_');
        pat_two.push('_');
        proof {
            assert(pat_two@ =~= seq!['_', '_']);
        }
        let two = replace_chars(&spaces, &pat_two, &rep_underscore);

        let mut pat_three: Vec<char> = Vec::new();
        pat_three.push('_');
        pat_three.push('_');
        pat_three.push('_');
        proof {
            assert(pat_three@ =~= seq!['_', '_', '_']);
        }
        let three = replace_chars(&two, &pat_three, &rep_underscore);

        let trimmed = strip_trailing_underscores(&three);
        let name_segment = chars_to_string(&trimmed);
        proof {
            assert(name_segment@ == normalized_name(lower_of(overridden_name(self.name@))));
        }

        let mut url = String::from_str("https://rl.insider.gg/en/pc/");
        url.append(slot_segment_str(&self.slot));
        url.append("/");
        url.append(name_segment.as_str());
        if let Option::Some(q) = quality_token_str(&self.quality, with_quality) {
            url.append("/");
            url.append(q);
        }
        if let Option::Some(e) = edition_token_str(&self.special_edition) {
            url.append("/");
            url.append(e);
        }
        if let Option::Some(p) = paint_token_str(&self.paint) {
            url.append("/");
            url.append(p);
        }
        proof {
            reveal_strlit("/");
            assert("/"@ =~= seq!['/']);
            assert(url@ =~= query_path(*self, with_quality));
        }
        url
    }
}

/// Whether the external catalog has a page for this slot; the lookup-key
/// normalizer requires it, so callers test this first.
pub fn slot_is_mappable(s: &Slot) -> (r: bool)
    ensures
        r == slot_mappable(*s),
{
    !matches!(
        s,
        Slot::Unknown | Slot::Blueprint | Slot::PlayerAnthem | Slot::PlayerTitle | Slot::RewardItem
    )
}

} // verus!
