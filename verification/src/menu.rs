//! The stack of open menus: the root menu and the submenus opened from it, by id.
//!
//! Submenus get ids in the order they are created, so a menu opened from another has a larger
//! id than it; hovering an item of a menu closes every menu opened after that one.

use vstd::prelude::*;

verus! {

/// The id of a menu; the root menu is 0.
#[derive(Clone, Copy, Debug, PartialEq, Eq, Structural)]
pub struct MenuId(pub usize);

/// The root menu.
pub fn root_menu() -> (r: MenuId)
    ensures
        r == MenuId(0),
{
    MenuId(0)
}

/// Whether a menu stays open when every menu after `until` closes.
pub open spec fn opened_by(until: MenuId) -> spec_fn(MenuId) -> bool {
    |id: MenuId| id.0 <= until.0
}

/// The menus that stay open when every menu after `until` closes.
pub open spec fn kept_until(menus: Seq<MenuId>, until: MenuId) -> Seq<MenuId> {
    menus.filter(opened_by(until))
}

/// Closes every open menu with an id larger than `until`, keeping the others in order.
pub fn close_menus_until(menus: &mut Vec<MenuId>, until: MenuId)
    ensures
        final(menus)@ == kept_until(old(menus)@, until),
{
    let ghost old_menus = menus@;
    let mut kept: Vec<MenuId> = Vec::new();
    let mut i: usize = 0;
    while i < menus.len()
        invariant
            menus@ == old_menus,
            i <= old_menus.len(),
            kept@ == kept_until(old_menus.subrange(0, i as int), until),
        decreases old_menus.len() - i,
    {
        let id = menus[i];
        if id.0 <= until.0 {
            kept.push(id);
        }
        proof {
            assert(old_menus.subrange(0, i + 1) =~= old_menus.subrange(0, i as int).push(id));
            old_menus.subrange(0, i as int).lemma_filter_push(id, opened_by(until));
        }
        i = i + 1;
    }
    proof {
        assert(old_menus.subrange(0, i as int) =~= old_menus);
    }
    *menus = kept;
}

/// Opens menu `id`, unless it is open already.
pub fn push_menu(menus: &mut Vec<MenuId>, id: MenuId)
    ensures
        final(menus)@ == if old(menus)@.contains(id) {
            old(menus)@
        } else {
            old(menus)@.push(id)
        },
{
    let mut i: usize = 0;
    while i < menus.len()
        invariant
            i <= menus@.len(),
            forall|k: int| 0 <= k < i ==> menus@[k] != id,
        decreases menus@.len() - i,
    {
        if menus[i] == id {
            return;
        }
        i = i + 1;
    }
    menus.push(id);
}

/// Opening a menu leaves it open exactly once, when no menu was open twice before.
pub proof fn law_push_menu_opens_once(menus: Seq<MenuId>, id: MenuId)
    requires
        menus.no_duplicates(),
    ensures
        ({
            let after = if menus.contains(id) {
                menus
            } else {
                menus.push(id)
            };
            &&& after.contains(id)
            &&& after.no_duplicates()
        }),
{
    if !menus.contains(id) {
        let after = menus.push(id);
        assert(after[menus.len() as int] == id);
        assert forall|i: int, j: int| 0 <= i < after.len() && 0 <= j < after.len() && i != j
            implies after[i] != after[j] by {
            if i < menus.len() && j < menus.len() {
            } else if i < menus.len() {
                assert(menus.contains(after[i]));
            } else {
                assert(menus.contains(after[j]));
            }
        }
    }
}

/// Closing the menus after `until` keeps `until` and every menu before it open and closes
/// every menu after it.
pub proof fn law_close_menus_until_keeps_the_path(menus: Seq<MenuId>, until: MenuId, id: MenuId)
    ensures
        kept_until(menus, until).contains(id) <==> (menus.contains(id) && id.0 <= until.0),
{
    let kept = menus.filter(opened_by(until));
    if kept.contains(id) {
        menus.lemma_filter_contains_rev(opened_by(until), id);
        let k = choose|k: int| 0 <= k < kept.len() && kept[k] == id;
        menus.lemma_filter_pred(opened_by(until), k);
    }
    if menus.contains(id) && id.0 <= until.0 {
        let i = choose|i: int| 0 <= i < menus.len() && menus[i] == id;
        menus.lemma_filter_contains(opened_by(until), i);
    }
}

} // verus!
