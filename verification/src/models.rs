//! The records that the warframe.market API and the local cache hold.
//!
//! Drop rates are carried as an opaque type parameter `R`: the library moves
//! them to where they are summed but never computes with them.

use vstd::prelude::*;

use crate::assoc::AssocMap;

verus! {

/// The key under which English texts are stored.
pub open spec fn english() -> Seq<char> {
    seq!['e', 'n']
}

pub fn english_key() -> (k: String)
    ensures
        k@ == english(),
{
    proof { reveal_strlit("en"); }
    "en".to_owned()
}

/// `Some` of the characters of a string slice, or `None`.
pub open spec fn opt_str_view(o: Option<&str>) -> Option<Seq<char>> {
    match o {
        Some(s) => Some(s@),
        None => None,
    }
}

/// Some string of `strings` reads `t`.
pub open spec fn listed(strings: Seq<String>, t: Seq<char>) -> bool {
    exists|j: int| 0 <= j < strings.len() && #[trigger] strings[j]@ == t
}

/// Standard v2 response wrapper.
pub struct ApiResponse<T> {
    pub data: T,
}

/// v1 endpoints wrap results in `payload` instead.
pub struct V1DropSourcesResponse<R> {
    pub payload: V1DropSourcesPayload<R>,
}

pub struct V1DropSourcesPayload<R> {
    pub dropsources: Vec<DropSource<R>>,
}

pub struct ItemShort {
    pub id: String,
    pub slug: String,
    pub tags: Vec<String>,
    /// Ducat trade-in value — only present on prime parts.
    pub ducats: Option<u32>,
    pub i18n: Option<ItemI18nMap>,
}

pub struct ItemI18nMap {
    pub en: ItemI18nEntry,
}

pub struct ItemI18nEntry {
    pub name: String,
}

impl ItemShort {
    /// The English name when there is one, else the slug.
    pub open spec fn display_name(self) -> Seq<char> {
        match self.i18n {
            Some(i) => i.en.name@,
            None => self.slug@,
        }
    }

    pub fn name(&self) -> (r: &str)
        ensures
            r@ == self.display_name(),
            self.i18n is Some ==> r@ == self.i18n.unwrap().en.name@,
            self.i18n is None ==> r@ == self.slug@,
    {
        match &self.i18n {
            Some(i) => i.en.name.as_str(),
            None => self.slug.as_str(),
        }
    }
}

pub struct Location {
    pub id: String,
    pub slug: String,
    pub faction: Option<String>,
    pub min_level: Option<i32>,
    pub max_level: Option<i32>,
    /// Texts by language code.
    pub i18n: Option<AssocMap<String, LocationI18n>>,
}

pub struct LocationI18n {
    pub node_name: String,
    pub system_name: Option<String>,
}

impl Location {
    /// The English node name, if the location has English texts.
    pub open spec fn node_name_spec(self) -> Option<Seq<char>> {
        match self.i18n {
            Some(m) => if m@.contains_key(english()) {
                Some(m@[english()].node_name@)
            } else {
                None
            },
            None => None,
        }
    }

    /// The English system name, if the location has English texts that name one.
    pub open spec fn system_name_spec(self) -> Option<Seq<char>> {
        match self.i18n {
            Some(m) => if m@.contains_key(english()) {
                match m@[english()].system_name {
                    Some(s) => Some(s@),
                    None => None,
                }
            } else {
                None
            },
            None => None,
        }
    }

    pub fn node_name(&self) -> (r: Option<&str>)
        ensures
            opt_str_view(r) == self.node_name_spec(),
            self.i18n is Some && self.i18n.unwrap()@.contains_key(seq!['e', 'n']) ==> r is Some
                && r.unwrap()@ == self.i18n.unwrap()@[seq!['e', 'n']].node_name@,
            !(self.i18n is Some && self.i18n.unwrap()@.contains_key(seq!['e', 'n'])) ==> r is None,
    {
        match &self.i18n {
            Some(m) => {
                let en = english_key();
                match m.get(&en) {
                    Some(e) => Some(e.node_name.as_str()),
                    None => None,
                }
            },
            None => None,
        }
    }

    pub fn system_name(&self) -> (r: Option<&str>)
        ensures
            opt_str_view(r) == self.system_name_spec(),
            self.i18n is Some && self.i18n.unwrap()@.contains_key(seq!['e', 'n'])
                && self.i18n.unwrap()@[seq!['e', 'n']].system_name is Some ==> r is Some
                && r.unwrap()@ == self.i18n.unwrap()@[seq!['e', 'n']].system_name.unwrap()@,
            !(self.i18n is Some && self.i18n.unwrap()@.contains_key(seq!['e', 'n'])
                && self.i18n.unwrap()@[seq!['e', 'n']].system_name is Some) ==> r is None,
    {
        match &self.i18n {
            Some(m) => {
                let en = english_key();
                match m.get(&en) {
                    Some(e) => match &e.system_name {
                        Some(s) => Some(s.as_str()),
                        None => None,
                    },
                    None => None,
                }
            },
            None => None,
        }
    }
}

pub struct Mission {
    pub id: String,
    pub slug: String,
    /// Texts by language code.
    pub i18n: Option<AssocMap<String, MissionI18n>>,
}

pub struct MissionI18n {
    pub name: String,
}

impl Mission {
    /// The English mission name, if the mission has English texts.
    pub open spec fn name_spec(self) -> Option<Seq<char>> {
        match self.i18n {
            Some(m) => if m@.contains_key(english()) {
                Some(m@[english()].name@)
            } else {
                None
            },
            None => None,
        }
    }

    pub fn name(&self) -> (r: Option<&str>)
        ensures
            opt_str_view(r) == self.name_spec(),
            self.i18n is Some && self.i18n.unwrap()@.contains_key(seq!['e', 'n']) ==> r is Some
                && r.unwrap()@ == self.i18n.unwrap()@[seq!['e', 'n']].name@,
            !(self.i18n is Some && self.i18n.unwrap()@.contains_key(seq!['e', 'n'])) ==> r is None,
    {
        match &self.i18n {
            Some(m) => {
                let en = english_key();
                match m.get(&en) {
                    Some(e) => Some(e.name.as_str()),
                    None => None,
                }
            },
            None => None,
        }
    }
}

/// Unified record for both drop-source shapes:
///
/// `source_type` = "relic"   → prime part found inside a relic
///   fields: relic (relic item-id), rates
///
/// `source_type` = "mission" → relic/item found in a mission rotation
///   fields: location, mission, rate, rarity, rotation (optional)
///
/// `R` is the type of a drop chance in percent.
pub struct DropSource<R> {
    pub source_type: String,
    pub item: String,
    // relic-type fields
    pub relic: Option<String>,
    pub rates: Option<RelicRates<R>>,
    // mission-type fields
    pub location: Option<String>,
    pub mission: Option<String>,
    pub rate: Option<R>,
    pub rarity: Option<String>,
    pub rotation: Option<String>,
}

/// Drop chances, in percent, of a part at each relic refinement.
pub struct RelicRates<R> {
    pub intact: R,
    pub exceptional: R,
    pub flawless: R,
    pub radiant: R,
}

impl<R: Copy> Clone for RelicRates<R> {
    fn clone(&self) -> (r: Self)
        ensures
            r == *self,
    {
        *self
    }
}

impl<R: Copy> Copy for RelicRates<R> {}

pub struct OrderWithUser {
    pub id: String,
    /// "buy" or "sell".
    pub order_type: String,
    pub platinum: u32,
    pub quantity: u32,
    pub item_id: String,
    pub user: UserShort,
}

pub struct UserShort {
    pub ingame_name: String,
    pub status: String,
    pub reputation: i32,
}

pub struct Order {
    /// Is the unique identifier of the order.
    pub id: String,
    /// Specifies whether the order is a 'buy' or 'sell'.
    pub order_type: String,
    /// Is the total platinum currency involved in the order.
    pub platinum: i32,
    /// Represents the number of items included in the order.
    pub quantity: i32,
    /// (optional) indicates the items quantity per transaction.
    pub per_trade: Option<i8>,
    /// (optional) specifies the rank or level of the item in the order.
    pub rank: Option<i8>,
    /// (optional) specifies number of charges left (used in requiem mods).
    pub charges: Option<i8>,
    /// (optional) defines the specific subtype or category of the item.
    pub subtype: Option<String>,
    /// (optional) denotes the count of amber stars in a sculpture order.
    pub amber_stars: Option<i8>,
    /// (optional) denotes the count of cyan stars in a sculpture order.
    pub cyan_stars: Option<i8>,
    /// (auth\mod) Indicates whether the order is publicly visible or not.
    pub visible: bool,
    /// Records the creation time of the order.
    pub created_at: String,
    /// Records the last modification time of the order.
    pub updated_at: String,
    /// Is the unique identifier of the item involved in the order.
    pub item_id: String,
    /// User-defined group to which the order belongs
    pub group: Option<String>,
}

/// A public user profile with full information.
pub struct User {
    /// Unique identifier of the user.
    pub id: String,
    /// User's in-game name.
    pub ingame_name: String,
    /// User's slug - a human-readable unique user identifier.
    pub slug: String,
    /// Optional link to the user's avatar image.
    pub avatar: Option<String>,
    /// Optional link to the user's profile background image.
    pub background: Option<String>,
    /// Optional HTML-formatted text about the user.
    pub about: Option<String>,
    /// User's reputation score.
    pub reputation: i16,
    /// Optional in-game mastery level.
    pub mastery_level: Option<i8>,
    /// Platform the user plays on.
    pub platform: String,
    /// Indicates if the user is open to cross-platform trading.
    pub crossplay: bool,
    /// User's locale or preferred language.
    pub locale: String,
    /// Current status of the user.
    pub status: String,
    /// Timestamp of the user's last online presence.
    pub last_seen: String,
    /// Indicates whether the user is currently banned.
    pub banned: Option<bool>,
    /// End date of the current ban, if applicable.
    pub ban_until: Option<String>,
    /// Indicates whether the user has been warned.
    pub warned: Option<bool>,
    /// Warning message, if any.
    pub warn_message: Option<String>,
    /// Ban message or reason for the ban, if any.
    pub ban_message: Option<String>,
}

} // verus!
