//! The menu that adds an effect to the graph: by category, or by search.
use crate::params::{indices_are_in_order, indices_where, indices_where_contains};
use crate::snarl::EffectCategory;
use crate::text::chars_of;
use vstd::prelude::*;

verus! {

/// A text in lower case.
pub uninterp spec fn text_lowercase(s: Seq<char>) -> Seq<char>;

/// `str::to_lowercase`: the lower-case form of a text, by the tables of Unicode
/// alone.
#[verifier::external_body]
fn lowercase(s: &str) -> (r: String)
    ensures
        r@ == text_lowercase(s@),
{
    s.to_lowercase()
}

/// Whether a text stands somewhere in another.
pub open spec fn holds_text(hay: Seq<char>, needle: Seq<char>) -> bool {
    exists|i: int| #[trigger] stands_at(hay, needle, i)
}

/// Whether a text stands at a place in another.
pub open spec fn stands_at(hay: Seq<char>, needle: Seq<char>, i: int) -> bool {
    0 <= i && i + needle.len() <= hay.len() && hay.subrange(i, i + needle.len()) == needle
}

/// Whether a text stands somewhere in another.
pub fn text_holds(hay: &str, needle: &str) -> (r: bool)
    ensures
        r == holds_text(hay@, needle@),
{
    let h = chars_of(hay);
    let n = chars_of(needle);
    if n.len() > h.len() {
        return false;
    }
    let size: usize = h.len();
    let last: usize = size - n.len();
    let mut i: usize = 0;
    while i <= last
        invariant
            h@ == hay@,
            n@ == needle@,
            size == h@.len(),
            last == size - n@.len(),
            i <= last + 1,
            forall|j: int| 0 <= j < i ==> !stands_at(hay@, needle@, j),
        decreases last + 1 - i,
    {
        let mut k: usize = 0;
        while k < n.len() && h[i + k] == n[k]
            invariant
                k <= n@.len(),
                size == h@.len(),
                i + n@.len() <= size,
                forall|j: int| 0 <= j < k ==> h@[i + j] == n@[j],
            decreases n@.len() - k,
        {
            k = k + 1;
        }
        if k == n.len() {
            assert(h@.subrange(i as int, i + n@.len()) =~= n@);
            assert(stands_at(hay@, needle@, i as int));
            return true;
        }
        proof {
            if stands_at(hay@, needle@, i as int) {
                assert(h@.subrange(i as int, i + n@.len())[k as int] == h@[i + k]);
            }
        }
        i = i + 1;
    }
    false
}

/// An effect on offer.
#[derive(Debug)]
pub struct MenuEffect {
    /// Registry id.
    pub id: String,
    /// Display name.
    pub name: String,
    /// Category.
    pub category: EffectCategory,
}

/// The categories in menu order.
pub open spec fn menu_categories() -> Seq<EffectCategory> {
    seq![
        EffectCategory::Dynamics,
        EffectCategory::Distortion,
        EffectCategory::Modulation,
        EffectCategory::Filter,
        EffectCategory::TimeBased,
        EffectCategory::Utility,
    ]
}

/// Whether an effect is found by a search text in lower case: its name in lower
/// case or its id holds the text.
pub open spec fn found(lower_name: Seq<char>, id: Seq<char>, lower_filter: Seq<char>) -> bool {
    holds_text(lower_name, lower_filter) || holds_text(id, lower_filter)
}

/// Whether an effect is found by a search text in lower case.
pub fn is_found(lower_name: &str, id: &str, lower_filter: &str) -> (r: bool)
    ensures
        r == found(lower_name@, id@, lower_filter@),
{
    text_holds(lower_name, lower_filter) || text_holds(id, lower_filter)
}

/// What the menu offers, effects by index.
#[derive(Debug)]
pub enum GraphMenu {
    /// A submenu for each category.
    Categories(Vec<(EffectCategory, Vec<usize>)>),
    /// The effects that the search found.
    Found(Vec<usize>),
}

/// What a category's submenu offers.
pub open spec fn in_category(effects: Seq<MenuEffect>, cat: EffectCategory) -> Seq<usize> {
    indices_where(effects.len(), |i: int| effects[i].category == cat)
}

/// What a search offers.
pub open spec fn search(effects: Seq<MenuEffect>, filter: Seq<char>) -> Seq<usize> {
    indices_where(
        effects.len(),
        |i: int|
            found(text_lowercase(effects[i].name@), effects[i].id@, text_lowercase(filter)),
    )
}

fn effects_in_category(effects: &Vec<MenuEffect>, cat: EffectCategory) -> (r: Vec<usize>)
    ensures
        r@ == in_category(effects@, cat),
{
    let ghost pred = |i: int| effects@[i].category == cat;
    let mut r: Vec<usize> = Vec::new();
    let mut i: usize = 0;
    while i < effects.len()
        invariant
            i <= effects@.len(),
            pred == (|i: int| effects@[i].category == cat),
            r@ == indices_where(i as nat, pred),
        decreases effects@.len() - i,
    {
        if effects[i].category == cat {
            r.push(i);
        }
        i = i + 1;
    }
    r
}

/// What the menu offers for a search text: the categories where it is empty,
/// otherwise the effects it finds, whatever the case of its letters.
pub fn graph_menu(filter: &str, effects: &Vec<MenuEffect>) -> (menu: GraphMenu)
    ensures
        match menu {
            GraphMenu::Categories(cats) => filter@.len() == 0 && cats@.len() == 6 && forall|k: int|
                0 <= k < 6 ==> (#[trigger] cats@[k]).0 == menu_categories()[k] && cats@[k].1@
                    == in_category(effects@, menu_categories()[k]),
            GraphMenu::Found(found) => filter@.len() > 0 && found@ == search(effects@, filter@),
        },
{
    if chars_of(filter).len() == 0 {
        let order = [
            EffectCategory::Dynamics,
            EffectCategory::Distortion,
            EffectCategory::Modulation,
            EffectCategory::Filter,
            EffectCategory::TimeBased,
            EffectCategory::Utility,
        ];
        assert(order@ =~= menu_categories());
        let mut cats: Vec<(EffectCategory, Vec<usize>)> = Vec::new();
        let mut k: usize = 0;
        while k < 6
            invariant
                k <= 6,
                order@ == menu_categories(),
                cats@.len() == k,
                forall|j: int|
                    0 <= j < k ==> (#[trigger] cats@[j]).0 == menu_categories()[j] && cats@[j].1@
                        == in_category(effects@, menu_categories()[j]),
            decreases 6 - k,
        {
            let cat = order[k];
            cats.push((cat, effects_in_category(effects, cat)));
            k = k + 1;
        }
        return GraphMenu::Categories(cats);
    }
    let lower = lowercase(filter);
    let ghost pred = |i: int|
        found(text_lowercase(effects@[i].name@), effects@[i].id@, text_lowercase(filter@));
    let mut r: Vec<usize> = Vec::new();
    let mut i: usize = 0;
    while i < effects.len()
        invariant
            i <= effects@.len(),
            lower@ == text_lowercase(filter@),
            pred == (|i: int|
                found(text_lowercase(effects@[i].name@), effects@[i].id@, text_lowercase(filter@))),
            r@ == indices_where(i as nat, pred),
        decreases effects@.len() - i,
    {
        let name = lowercase(effects[i].name.as_str());
        if is_found(name.as_str(), effects[i].id.as_str(), lower.as_str()) {
            r.push(i);
        }
        i = i + 1;
    }
    GraphMenu::Found(r)
}

/// Every effect can be picked in exactly one submenu.
pub proof fn categories_offer_everything(effects: Seq<MenuEffect>, i: usize)
    requires
        i < effects.len(),
        effects.len() <= usize::MAX,
    ensures
        exists|k: int|
            0 <= k < menu_categories().len() && in_category(
                effects,
                #[trigger] menu_categories()[k],
            ).contains(i),
        forall|j: int, k: int|
            0 <= j < menu_categories().len() && 0 <= k < menu_categories().len() && in_category(
                effects,
                #[trigger] menu_categories()[j],
            ).contains(i) && in_category(effects, #[trigger] menu_categories()[k]).contains(i)
                ==> j == k,
{
    let cats = menu_categories();
    assert forall|k: int| 0 <= k < cats.len() implies (in_category(
        effects,
        #[trigger] cats[k],
    ).contains(i) <==> effects[i as int].category == cats[k]) by {
        indices_where_contains(effects.len(), |j: int| effects[j].category == cats[k], i);
    }
    let c = effects[i as int].category;
    match c {
        EffectCategory::Dynamics => assert(cats[0] == c),
        EffectCategory::Distortion => assert(cats[1] == c),
        EffectCategory::Modulation => assert(cats[2] == c),
        EffectCategory::Filter => assert(cats[3] == c),
        EffectCategory::TimeBased => assert(cats[4] == c),
        EffectCategory::Utility => assert(cats[5] == c),
    }
}

/// A submenu offers the effects of its category, all of them and no other, in order.
pub proof fn a_submenu_offers_its_category(effects: Seq<MenuEffect>, cat: EffectCategory, i: usize)
    requires
        effects.len() <= usize::MAX,
    ensures
        in_category(effects, cat).contains(i) <==> i < effects.len() && effects[i as int].category
            == cat,
        forall|a: int, b: int|
            0 <= a < b < in_category(effects, cat).len() ==> (#[trigger] in_category(
                effects,
                cat,
            )[a]) < (#[trigger] in_category(effects, cat)[b]),
{
    indices_where_contains(effects.len(), |j: int| effects[j].category == cat, i);
    indices_are_in_order(effects.len(), |j: int| effects[j].category == cat);
}

/// A search finds the effects whose name, in lower case, or whose id has the text, in
/// lower case, in it somewhere: all of them and no other, in order.
pub proof fn a_search_finds_what_has_the_text(effects: Seq<MenuEffect>, filter: Seq<char>, i: usize)
    requires
        effects.len() <= usize::MAX,
    ensures
        search(effects, filter).contains(i) <==> i < effects.len() && ({
            let text = text_lowercase(filter);
            let name = text_lowercase(effects[i as int].name@);
            let id = effects[i as int].id@;
            ||| exists|a: int|
                0 <= a && a + text.len() <= name.len() && #[trigger] name.subrange(
                    a,
                    a + text.len(),
                ) == text
            ||| exists|a: int|
                0 <= a && a + text.len() <= id.len() && #[trigger] id.subrange(a, a + text.len())
                    == text
        }),
        forall|a: int, b: int|
            0 <= a < b < search(effects, filter).len() ==> (#[trigger] search(effects, filter)[a])
                < (#[trigger] search(effects, filter)[b]),
{
    let pred = |j: int|
        found(text_lowercase(effects[j].name@), effects[j].id@, text_lowercase(filter));
    indices_where_contains(effects.len(), pred, i);
    indices_are_in_order(effects.len(), pred);
    if i < effects.len() {
        let text = text_lowercase(filter);
        let name = text_lowercase(effects[i as int].name@);
        let id = effects[i as int].id@;
        if holds_text(name, text) {
            let a = choose|a: int| #[trigger] stands_at(name, text, a);
            assert(name.subrange(a, a + text.len()) == text);
        }
        if holds_text(id, text) {
            let a = choose|a: int| #[trigger] stands_at(id, text, a);
            assert(id.subrange(a, a + text.len()) == text);
        }
        if exists|a: int|
            0 <= a && a + text.len() <= name.len() && #[trigger] name.subrange(a, a + text.len())
                == text {
            let a = choose|a: int|
                0 <= a && a + text.len() <= name.len() && #[trigger] name.subrange(
                    a,
                    a + text.len(),
                ) == text;
            assert(stands_at(name, text, a));
        }
        if exists|a: int|
            0 <= a && a + text.len() <= id.len() && #[trigger] id.subrange(a, a + text.len())
                == text {
            let a = choose|a: int|
                0 <= a && a + text.len() <= id.len() && #[trigger] id.subrange(a, a + text.len())
                    == text;
            assert(stands_at(id, text, a));
        }
    }
}

/// The submenus stand in one order, each category once.
pub proof fn submenus_stand_in_order()
    ensures
        menu_categories().len() == 6,
        menu_categories()[0] == EffectCategory::Dynamics,
        menu_categories()[1] == EffectCategory::Distortion,
        menu_categories()[2] == EffectCategory::Modulation,
        menu_categories()[3] == EffectCategory::Filter,
        menu_categories()[4] == EffectCategory::TimeBased,
        menu_categories()[5] == EffectCategory::Utility,
{
}

} // verus!
