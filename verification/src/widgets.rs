//! The small decisions of the client's widgets: accordions, collapsible
//! panels, alerts, side-by-side players, dropdowns, and the rating menu.

use vstd::prelude::*;
use crate::lists::ItemMetadata;
use crate::numbers::{law_decimal_read_back, parse_u64, spec_parse_u64};
use crate::text::{decimal, u64_text};

verus! {

/// Whether an accordion is collapsed: a controlled accordion follows its
/// `collapsed` property (collapsed when unset), another its own state.
pub fn accordion_collapsed(controlled: bool, collapsed: Option<bool>, own_state: bool) -> (r: bool)
    ensures
        r == accordion_shown(controlled, collapsed, own_state),
{
    if controlled {
        match collapsed {
            Some(c) => c,
            None => true,
        }
    } else {
        own_state
    }
}

/// The state an accordion's own state starts from: its `collapsed` property,
/// collapsed when unset.
pub fn accordion_initial(collapsed: Option<bool>) -> (r: bool)
    ensures
        r == match collapsed {
            Some(c) => c,
            None => true,
        },
{
    match collapsed {
        Some(c) => c,
        None => true,
    }
}

/// What a click on an accordion's header does.
#[derive(Clone, Copy, Debug, PartialEq, Eq)]
pub enum AccordionClick {
    /// Run the accordion's toggle callback; its state follows its property.
    CallToggle,
    /// Set the accordion's own state to the given value.
    SetOwn(bool),
}

/// A click on the header of an accordion with a toggle callback runs the
/// callback; on another accordion it flips the accordion's own state.
pub fn accordion_click(controlled: bool, own_state: bool) -> (r: AccordionClick)
    ensures
        r == if controlled { AccordionClick::CallToggle } else { AccordionClick::SetOwn(!own_state) },
{
    if controlled {
        AccordionClick::CallToggle
    } else {
        AccordionClick::SetOwn(!own_state)
    }
}

/// The own state after a click, as `accordion_click` sets it.
pub open spec fn own_state_after(controlled: bool, own_state: bool) -> bool {
    match if controlled { AccordionClick::CallToggle } else { AccordionClick::SetOwn(!own_state) } {
        AccordionClick::SetOwn(b) => b,
        AccordionClick::CallToggle => own_state,
    }
}

/// On an accordion without a toggle callback each click flips whether it is
/// collapsed, so two clicks restore it; with a callback, a click leaves its
/// own state alone and it shows what its property says.
pub proof fn law_accordion_toggle(controlled: bool, own_state: bool, property: Option<bool>)
    ensures
        !controlled ==> accordion_shown(false, property, own_state_after(false, own_state)) == !accordion_shown(false, property, own_state),
        own_state_after(controlled, own_state_after(controlled, own_state)) == own_state,
        controlled ==> accordion_shown(true, property, own_state_after(true, own_state)) == accordion_shown(true, property, own_state),
{
}

/// Whether an accordion shows collapsed, as `accordion_collapsed` decides.
pub open spec fn accordion_shown(controlled: bool, collapsed: Option<bool>, own_state: bool) -> bool {
    if controlled {
        match collapsed {
            Some(c) => c,
            None => true,
        }
    } else {
        own_state
    }
}

/// The class of an accordion's body and the outline of its arrow.
pub fn accordion_look(collapsed: bool) -> (r: (&'static str, &'static str))
    ensures
        r.0@ == if collapsed { "tw:hidden"@ } else { "tw:block"@ },
        r.1@ == if collapsed { "m19.5 8.25-7.5 7.5-7.5-7.5"@ } else { "m4.5 15.75 7.5-7.5 7.5 7.5"@ },
{
    if collapsed {
        ("tw:hidden", "m19.5 8.25-7.5 7.5-7.5-7.5")
    } else {
        ("tw:block", "m4.5 15.75 7.5-7.5 7.5 7.5")
    }
}

/// The class of a collapsible panel.
pub fn collapse_class(collapsed: bool) -> (s: &'static str)
    ensures
        s@ == if collapsed { "collapse"@ } else { "collapse show"@ },
{
    if collapsed {
        "collapse"
    } else {
        "collapse show"
    }
}

/// The class and the text of an alert: success for `Ok`, danger for `Err`.
pub fn alert_view(result: Result<String, String>) -> (r: (&'static str, String))
    ensures
        match result {
            Ok(m) => r.0@ == "alert alert-success alert-dismissible"@ && r.1 == m,
            Err(m) => r.0@ == "alert alert-danger alert-dismissible"@ && r.1 == m,
        },
{
    match result {
        Ok(msg) => ("alert alert-success alert-dismissible", msg),
        Err(msg) => ("alert alert-danger alert-dismissible", msg),
    }
}

/// The side of a comparison shown on small screens.
#[derive(Clone, Copy, Debug, PartialEq, Eq)]
pub enum IframeCompareMsg {
    Left,
    Right,
}

/// The player shown on small screens: the one of the chosen side's item.
pub fn shown_iframe(flag: IframeCompareMsg, left: &ItemMetadata, right: &ItemMetadata) -> (r: Option<String>)
    ensures
        r == match flag {
            IframeCompareMsg::Left => left.iframe,
            IframeCompareMsg::Right => right.iframe,
        },
{
    let chosen = match flag {
        IframeCompareMsg::Left => &left.iframe,
        IframeCompareMsg::Right => &right.iframe,
    };
    match chosen {
        Some(s) => Some(s.clone()),
        None => None,
    }
}

/// The border classes of the left and right tabs: the chosen side's tab is highlighted.
pub fn tab_borders(flag: IframeCompareMsg) -> (r: (&'static str, &'static str))
    ensures
        match flag {
            IframeCompareMsg::Left => r.0@ == "tw:border-purple-500"@ && r.1@ == "tw:border-gray-300"@,
            IframeCompareMsg::Right => r.0@ == "tw:border-gray-300"@ && r.1@ == "tw:border-purple-500"@,
        },
{
    match flag {
        IframeCompareMsg::Left => ("tw:border-purple-500", "tw:border-gray-300"),
        IframeCompareMsg::Right => ("tw:border-gray-300", "tw:border-purple-500"),
    }
}

/// Where a dropdown opens from its button.
#[derive(Clone, Copy, Debug, PartialEq, Eq)]
pub enum Direction {
    Up,
    Down,
}

/// The classes that place a dropdown above or below its button.
pub fn dropdown_placement(direction: Direction) -> (s: &'static str)
    ensures
        s@ == match direction {
            Direction::Up => "tw:inset-auto tw:bottom-[anchor(top)]"@,
            Direction::Down => "tw:top-[anchor(bottom)]"@,
        },
{
    match direction {
        Direction::Up => "tw:inset-auto tw:bottom-[anchor(top)]",
        Direction::Down => "tw:top-[anchor(bottom)]",
    }
}

/// Reads the value of the rating menu: a number, or nothing for the empty
/// choice. The menu offers the ratings 1 to 10 (see `rating_options`).
pub fn parse_rating(value: &str) -> (r: Option<u64>)
    ensures
        match r {
            Some(n) => spec_parse_u64(value@) == Some(n as nat),
            None => spec_parse_u64(value@) is None,
        },
{
    parse_u64(value)
}

/// The label of option `i` of the rating menu: the empty choice first, then
/// the ratings 1 to 10.
pub open spec fn rating_label(i: int) -> Seq<char> {
    if i == 0 {
        Seq::<char>::empty()
    } else {
        decimal(i as nat)
    }
}

/// The rating that option `i` of the rating menu stands for: none for the
/// empty choice, else `i`.
pub open spec fn option_rating(i: int) -> Option<u64> {
    if i == 0 {
        None
    } else {
        Some(i as u64)
    }
}

/// The option of the rating menu that shows a rating as selected; none for a
/// rating outside 1 to 10.
pub open spec fn option_of(rating: Option<u64>) -> Option<int> {
    match rating {
        None => Some(0),
        Some(k) => if 1 <= k <= 10 { Some(k as int) } else { None },
    }
}

/// The labels of the rating menu, in order.
pub fn rating_options() -> (v: Vec<String>)
    ensures
        v@.len() == 11,
        forall|i: int| 0 <= i < 11 ==> #[trigger] v@[i]@ == rating_label(i),
{
    let mut v: Vec<String> = Vec::new();
    v.push(String::new());
    let mut k: u64 = 1;
    while k <= 10
        invariant
            1 <= k <= 11,
            v@.len() == k,
            forall|i: int| 0 <= i < k ==> #[trigger] v@[i]@ == rating_label(i),
        decreases 11 - k,
    {
        v.push(u64_text(k));
        k = k + 1;
    }
    v
}

/// The option of the rating menu shown as selected for a rating.
pub fn selected_option(rating: Option<u64>) -> (i: Option<usize>)
    ensures
        match i {
            Some(n) => option_of(rating) == Some(n as int),
            None => option_of(rating) is None,
        },
{
    match rating {
        None => Some(0),
        Some(k) => if 1 <= k && k <= 10 {
            Some(k as usize)
        } else {
            None
        },
    }
}

/// Choosing an option of the rating menu reads back the rating it stands
/// for, which is none or a rating from 1 to 10, and that rating shows the
/// same option as selected.
pub proof fn law_rating_menu_round_trip(i: int)
    requires
        0 <= i < 11,
    ensures
        spec_parse_u64(rating_label(i)) == match option_rating(i) {
            Some(k) => Some(k as nat),
            None => None,
        },
        option_rating(i) matches Some(k) ==> 1 <= k <= 10,
        option_of(option_rating(i)) == Some(i),
{
    if i > 0 {
        law_decimal_read_back(i as nat);
    }
}

} // verus!
