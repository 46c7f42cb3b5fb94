//! Navigation: going to the place that a server names, or to one of several.

use vstd::prelude::*;

use crate::code_action::numbered;
use crate::effect::{effects_view, emit, no_effects, Effect, EffectView};
use crate::format::{decimal_of, join2};
use crate::number::{parse_usize, parsed};
use crate::protocol::{Location, LocationView, NavItem};
use crate::ui::{items_view, PickerItem, PickerRequest, PickerView};

verus! {

pub open spec fn locations_view(v: Seq<Location>) -> Seq<LocationView> {
    v.map_values(|l: Location| l@)
}

/// The places of items.
pub open spec fn places(v: Seq<NavItem>) -> Seq<LocationView> {
    v.map_values(|i: NavItem| i.location@)
}

/// The labels of items.
pub open spec fn labels(v: Seq<NavItem>) -> Seq<Seq<char>> {
    v.map_values(|i: NavItem| i.label@)
}

/// What choosing an item does: it goes to the place whose number is the item's id.
pub open spec fn chosen(places: Seq<LocationView>, item: Seq<char>) -> Seq<EffectView> {
    match parsed(item, usize::MAX as int) {
        Some(i) => if i < places.len() {
            seq![EffectView::OpenLocation(places[i])]
        } else {
            Seq::empty()
        },
        None => Seq::empty(),
    }
}

/// The places that the picker shows.
pub struct LspNavPlugin {
    pub locations: Vec<Location>,
}

fn copy_location(l: &Location) -> (r: Location)
    ensures
        r@ == l@,
{
    Location { path: l.path.clone(), line: l.line, character: l.character }
}

impl LspNavPlugin {
    /// No places.
    pub fn new() -> (r: LspNavPlugin)
        ensures
            locations_view(r.locations@) == Seq::<LocationView>::empty(),
    {
        let r = LspNavPlugin { locations: Vec::new() };
        assert(locations_view(r.locations@) =~= Seq::empty());
        r
    }

    /// Go to the one place that the server names.
    pub fn on_goto(loc: &Location) -> (r: Vec<Effect>)
        ensures
            effects_view(r@) == seq![EffectView::OpenLocation(loc@)],
    {
        let mut out: Vec<Effect> = no_effects();
        emit(&mut out, Effect::OpenLocation(copy_location(loc)));
        out
    }

    /// Offer the places that the server names. Where there is none, the last ones stay.
    pub fn on_locations(&mut self, title: &str, items: &[NavItem]) -> (r: Vec<Effect>)
        ensures
            locations_view(final(self).locations@) == if items@.len() == 0 {
                locations_view(old(self).locations@)
            } else {
                places(items@)
            },
            effects_view(r@) == seq![
                if items@.len() == 0 {
                    EffectView::Notify("No "@ + title@)
                } else {
                    EffectView::OpenPicker(
                        PickerView {
                            owner: "lsp-nav"@,
                            token: "nav"@,
                            title: title@,
                            items: numbered(labels(items@)),
                            commands: Seq::empty(),
                            start_in_commands: false,
                        },
                    )
                },
            ],
    {
        let mut out: Vec<Effect> = no_effects();
        if items.len() == 0 {
            emit(&mut out, Effect::Notify(join2("No ", title)));
            return out;
        }
        let mut rows: Vec<PickerItem> = Vec::new();
        let mut locations: Vec<Location> = Vec::new();
        let mut i: usize = 0;
        while i < items.len()
            invariant
                i <= items.len(),
                rows@.len() == i,
                locations@.len() == i,
                forall|k: int|
                    0 <= k < i ==> ((#[trigger] rows@[k]).id@, rows@[k].label@) == numbered(
                        labels(items@),
                    )[k],
                forall|k: int| 0 <= k < i ==> (#[trigger] locations@[k])@ == places(items@)[k],
            decreases items.len() - i,
        {
            rows.push(PickerItem { id: decimal_of(i as u64), label: items[i].label.clone() });
            locations.push(copy_location(&items[i].location));
            i += 1;
        }
        assert(items_view(rows@) =~= numbered(labels(items@)));
        assert(locations_view(locations@) =~= places(items@));
        self.locations = locations;
        let none: Vec<PickerItem> = Vec::new();
        assert(items_view(none@) =~= Seq::empty());
        emit(
            &mut out,
            Effect::OpenPicker(
                PickerRequest {
                    owner: "lsp-nav".to_owned(),
                    token: "nav".to_owned(),
                    title: title.to_owned(),
                    items: rows,
                    commands: none,
                    start_in_commands: false,
                },
            ),
        );
        out
    }

    /// Go to the place that was chosen.
    pub fn on_picker_activate(&self, item_id: &str) -> (r: Vec<Effect>)
        ensures
            effects_view(r@) == chosen(locations_view(self.locations@), item_id@),
    {
        let mut out: Vec<Effect> = no_effects();
        if let Some(i) = parse_usize(item_id) {
            if i < self.locations.len() {
                assert(locations_view(self.locations@)[i as int] == self.locations@[i as int]@);
                emit(&mut out, Effect::OpenLocation(copy_location(&self.locations[i])));
            }
        }
        out
    }
}

/// Choosing a row goes to the place that the row shows.
pub proof fn rows_lead_to_their_places(items: Seq<NavItem>, i: int)
    requires
        0 <= i < items.len() <= usize::MAX,
    ensures
        chosen(places(items), numbered(labels(items))[i].0) == seq![
            EffectView::OpenLocation(items[i].location@),
        ],
{
    crate::number::decimals_read_back(i as nat, usize::MAX as int);
}

} // verus!
