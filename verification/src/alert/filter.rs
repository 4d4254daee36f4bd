//! Which alerts are worth waking someone up for: an explicit allowlist over P-VTEC, and a
//! path by event name for the products that carry no code.

use vstd::prelude::*;
#[allow(unused_imports)]
use crate::alert::vtec::VtecFields;
use crate::alert::Alert;
use crate::config::Alerts;
#[allow(unused_imports)]
use crate::text::{copied, ends_with, is_suffix, listed, texts};

verus! {

/// How dangerous an accepted alert is.
#[derive(Debug, Clone, Copy, PartialEq, Eq, PartialOrd, Ord, Structural)]
pub enum ThreatTier {
    Watch,
    Severe,
    Lethal,
}

impl ThreatTier {
    /// The word for a tier.
    pub open spec fn word(self) -> Seq<char> {
        match self {
            ThreatTier::Lethal => "LETHAL"@,
            ThreatTier::Severe => "SEVERE"@,
            ThreatTier::Watch => "WATCH"@,
        }
    }

    /// How grave a tier is.
    pub open spec fn gravity(self) -> int {
        match self {
            ThreatTier::Watch => 0,
            ThreatTier::Severe => 1,
            ThreatTier::Lethal => 2,
        }
    }

    pub fn label(self) -> (r: &'static str)
        ensures
            r@ == self.word(),
            self is Lethal ==> r@ == "LETHAL"@,
            self is Severe ==> r@ == "SEVERE"@,
            self is Watch ==> r@ == "WATCH"@,
    {
        match self {
            ThreatTier::Lethal => "LETHAL",
            ThreatTier::Severe => "SEVERE",
            ThreatTier::Watch => "WATCH",
        }
    }
}

/// The allowlist.
#[derive(Debug, Clone)]
pub struct Filter {
    lethal: Vec<String>,
    severe: Vec<String>,
    watch: Vec<String>,
    extra_events: Vec<String>,
}

/// What the allowlist holds.
pub struct Allowlist {
    pub lethal: Set<Seq<char>>,
    pub severe: Set<Seq<char>>,
    pub watch: Set<Seq<char>>,
    pub extra_events: Set<Seq<char>>,
}

impl Allowlist {
    /// The gravest tier that lists a code or an event name.
    pub open spec fn tier(self, key: Seq<char>) -> Option<ThreatTier> {
        if self.lethal.contains(key) {
            Some(ThreatTier::Lethal)
        } else if self.severe.contains(key) {
            Some(ThreatTier::Severe)
        } else if self.watch.contains(key) {
            Some(ThreatTier::Watch)
        } else {
            None
        }
    }

    /// The tier of an event by its name: listed in a tier, or accepted by name, or a
    /// warning whose codes could not be read.
    pub open spec fn tier_by_name(self, event: Seq<char>, unparsed: bool) -> Option<ThreatTier> {
        if self.tier(event) is Some {
            self.tier(event)
        } else if self.extra_events.contains(event) {
            Some(ThreatTier::Severe)
        } else if unparsed && is_suffix(event, "Warning"@) {
            Some(ThreatTier::Severe)
        } else {
            None
        }
    }

    /// The tier of a product: none where its code is not operational, else the tier of its
    /// code, else the tier of its name.
    pub open spec fn tier_of_product(
        self,
        code: Option<VtecFields>,
        event: Seq<char>,
        unparsed: bool,
    ) -> Option<ThreatTier> {
        match code {
            Some(v) if v.product_class != 'O' => None,
            Some(v) if self.tier(v.kind()) is Some => self.tier(v.kind()),
            _ => self.tier_by_name(event, unparsed),
        }
    }

    /// The tier of an alert.
    pub open spec fn verdict(self, alert: Alert) -> Option<ThreatTier> {
        self.tier_of_product(alert.primary(), alert.properties.event@, alert.unparsed())
    }
}

impl Filter {
    /// What this filter accepts.
    pub closed spec fn view(self) -> Allowlist {
        Allowlist {
            lethal: texts(self.lethal@).to_set(),
            severe: texts(self.severe@).to_set(),
            watch: texts(self.watch@).to_set(),
            extra_events: texts(self.extra_events@).to_set(),
        }
    }

    pub fn from_config(alerts: &Alerts) -> (r: Filter)
        ensures
            r@.lethal == texts(alerts.tiers.lethal@).to_set(),
            r@.severe == texts(alerts.tiers.severe@).to_set(),
            r@.watch == texts(alerts.tiers.watch@).to_set(),
            r@.extra_events == texts(alerts.extra_events@).to_set(),
    {
        Filter {
            lethal: alerts.tiers.lethal_codes(),
            severe: alerts.tiers.severe_codes(),
            watch: alerts.tiers.watch_codes(),
            extra_events: copied(&alerts.extra_events),
        }
    }

    /// The gravest tier that lists `key`.
    pub fn tier_of(&self, key: &str) -> (r: Option<ThreatTier>)
        ensures
            r == self@.tier(key@),
    {
        if listed(&self.lethal, key) {
            return Some(ThreatTier::Lethal);
        }
        if listed(&self.severe, key) {
            return Some(ThreatTier::Severe);
        }
        if listed(&self.watch, key) {
            return Some(ThreatTier::Watch);
        }
        None
    }

    /// `None` means that the alert is not worth waking someone up for. Unknown products are
    /// rejected. The names are asked for coded products too, so that a product whose code
    /// is in no tier can still be accepted by name.
    pub fn classify(&self, alert: &Alert) -> (r: Option<ThreatTier>)
        ensures
            r == self@.verdict(*alert),
    {
        if let Some(vtec) = alert.primary_vtec() {
            if !vtec.is_operational() {
                return None;
            }
            let kind = vtec.phenomenon_significance();
            if let Some(tier) = self.tier_of(kind.as_str()) {
                return Some(tier);
            }
        }
        if let Some(tier) = self.tier_of(alert.properties.event.as_str()) {
            return Some(tier);
        }
        if listed(&self.extra_events, alert.properties.event.as_str()) {
            return Some(ThreatTier::Severe);
        }
        if alert.vtec_unparsed() && ends_with(alert.properties.event.as_str(), "Warning") {
            return Some(ThreatTier::Severe);
        }
        None
    }
}

/// A product that is not operational raises no alarm, whatever it is called.
pub proof fn law_tests_raise_no_alarm(list: Allowlist, v: VtecFields, event: Seq<char>, u: bool)
    requires
        v.product_class != 'O',
    ensures
        list.tier_of_product(Some(v), event, u) is None,
{
}

/// The list is an allowlist: a product is accepted only if its code or its name is listed,
/// or it is a warning whose codes could not be read.
pub proof fn law_unknown_products_are_rejected(
    list: Allowlist,
    code: Option<VtecFields>,
    event: Seq<char>,
    unparsed: bool,
)
    requires
        list.tier_of_product(code, event, unparsed) is Some,
    ensures
        ({
            ||| code matches Some(v) && list.tier(v.kind()) is Some
            ||| list.tier(event) is Some
            ||| list.extra_events.contains(event)
            ||| unparsed && is_suffix(event, "Warning"@)
        }),
{
}

/// A warning whose codes could not be read is never dropped.
pub proof fn law_unreadable_warning_is_kept(list: Allowlist, event: Seq<char>)
    requires
        is_suffix(event, "Warning"@),
    ensures
        list.tier_of_product(None, event, true) is Some,
{
}

/// An event accepted by name reaches a product whose operational code is in no tier.
pub proof fn law_name_rescues_coded_product(list: Allowlist, v: VtecFields, event: Seq<char>, u: bool)
    requires
        v.product_class == 'O',
        list.tier(v.kind()) is None,
        list.extra_events.contains(event),
    ensures
        list.tier_of_product(Some(v), event, u) is Some,
{
}

/// What is listed in several tiers has the gravest of them, and what is in none has none.
pub proof fn law_gravest_listing_wins(list: Allowlist, key: Seq<char>)
    ensures
        list.tier(key) == Some(ThreatTier::Lethal) <==> list.lethal.contains(key),
        list.tier(key) == Some(ThreatTier::Severe) <==> list.severe.contains(key)
            && !list.lethal.contains(key),
        list.tier(key) == Some(ThreatTier::Watch) <==> list.watch.contains(key)
            && !list.severe.contains(key) && !list.lethal.contains(key),
{
}

/// To list a key in one more tier never makes it less grave, and leaves other keys alone.
pub proof fn law_more_listings_never_lower_a_tier(
    less: Allowlist,
    more: Allowlist,
    key: Seq<char>,
)
    requires
        less.lethal.subset_of(more.lethal),
        less.severe.subset_of(more.severe),
        less.watch.subset_of(more.watch),
        less.tier(key) is Some,
    ensures
        more.tier(key) is Some,
        more.tier(key)->0.gravity() >= less.tier(key)->0.gravity(),
{
}

/// The code decides before the name: an operational product whose code is listed has the tier of
/// its code, whatever it is called.
pub proof fn law_code_decides_before_the_name(
    list: Allowlist,
    v: VtecFields,
    event: Seq<char>,
    unparsed: bool,
)
    requires
        v.product_class == 'O',
    ensures
        list.lethal.contains(v.kind()) ==> list.tier_of_product(Some(v), event, unparsed) == Some(
            ThreatTier::Lethal,
        ),
        list.severe.contains(v.kind()) && !list.lethal.contains(v.kind()) ==> list.tier_of_product(
            Some(v),
            event,
            unparsed,
        ) == Some(ThreatTier::Severe),
        list.watch.contains(v.kind()) && !list.severe.contains(v.kind()) && !list.lethal.contains(
            v.kind(),
        ) ==> list.tier_of_product(Some(v), event, unparsed) == Some(ThreatTier::Watch),
{
}

/// Where no code decides, the name does: a name listed in a tier has that tier, and one that is
/// only accepted, or that of a warning whose codes could not be read, is severe.
pub proof fn law_name_decides_without_a_listed_code(
    list: Allowlist,
    code: Option<VtecFields>,
    event: Seq<char>,
    unparsed: bool,
)
    requires
        code matches Some(v) ==> v.product_class == 'O' && !list.lethal.contains(v.kind())
            && !list.severe.contains(v.kind()) && !list.watch.contains(v.kind()),
    ensures
        list.lethal.contains(event) ==> list.tier_of_product(code, event, unparsed) == Some(
            ThreatTier::Lethal,
        ),
        list.tier(event) is Some ==> list.tier_of_product(code, event, unparsed) == list.tier(
            event,
        ),
        list.tier(event) is None && list.extra_events.contains(event) ==> list.tier_of_product(
            code,
            event,
            unparsed,
        ) == Some(ThreatTier::Severe),
        list.tier(event) is None && unparsed && is_suffix(event, "Warning"@)
            ==> list.tier_of_product(code, event, unparsed) == Some(ThreatTier::Severe),
        list.tier(event) is None && !list.extra_events.contains(event) && !(unparsed && is_suffix(
            event,
            "Warning"@,
        )) ==> list.tier_of_product(code, event, unparsed) is None,
{
}

/// Tiers are graded, and each has its own word.
pub proof fn law_tiers_are_graded(a: ThreatTier, b: ThreatTier)
    ensures
        ThreatTier::Lethal.gravity() > ThreatTier::Severe.gravity(),
        ThreatTier::Severe.gravity() > ThreatTier::Watch.gravity(),
        a.word() == b.word() ==> a == b,
        a is Lethal ==> a.word() == "LETHAL"@,
        a is Severe ==> a.word() == "SEVERE"@,
        a is Watch ==> a.word() == "WATCH"@,
{
    reveal_strlit("LETHAL");
    reveal_strlit("SEVERE");
    reveal_strlit("WATCH");
    assert("LETHAL"@[0] == 'L' && "SEVERE"@[0] == 'S' && "WATCH"@[0] == 'W');
}

} // verus!
