//! What the editor knows of an effect's parameters.
use crate::bits::{bits_le, le};
use crate::patch::{Bits, MorphCurve};
use vstd::prelude::*;

verus! {

/// A parameter as its effect describes it.
#[derive(Debug, PartialEq, Eq)]
pub struct ParamInfo {
    /// Full display name.
    pub name: String,
    /// Name that fits under a knob.
    pub short_name: String,
    /// Smallest value.
    pub min: Bits,
    /// Largest value.
    pub max: Bits,
    /// Value of a fresh instance.
    pub default: Bits,
    /// Whether it selects one of a few steps.
    pub stepped: bool,
    /// Whether it is a readout (a meter).
    pub read_only: bool,
    /// Whether the editor leaves it out.
    pub hidden: bool,
    /// Whether macros are not assigned to it by themselves (output gain, mix).
    pub macro_exclude: bool,
    /// How a sweep over its range is shaped.
    pub curve: MorphCurve,
}

/// Whether a panel shows the parameter.
pub open spec fn visible(p: ParamInfo) -> bool {
    !p.hidden && !p.read_only
}

/// Whether a macro can be assigned to the parameter by itself: a continuous,
/// musical control with a range.
pub open spec fn mappable(p: ParamInfo) -> bool {
    !p.stepped && !p.read_only && !p.hidden && !p.macro_exclude && !le(p.max, p.min)
}

/// Whether a panel shows parameter `i` as a combo box.
pub open spec fn shown_stepped(params: Seq<Option<ParamInfo>>, i: int) -> bool {
    params[i] matches Some(p) && visible(p) && p.stepped
}

/// Whether a panel shows parameter `i` as a knob. A parameter without a
/// description is a knob.
pub open spec fn shown_continuous(params: Seq<Option<ParamInfo>>, i: int) -> bool {
    match params[i] {
        Some(p) => visible(p) && !p.stepped,
        None => true,
    }
}

/// The indices below `n` for which `pred` holds, in order.
pub open spec fn indices_where(n: nat, pred: spec_fn(int) -> bool) -> Seq<usize>
    decreases n,
{
    if n == 0 {
        Seq::empty()
    } else {
        let before = indices_where((n - 1) as nat, pred);
        if pred(n - 1) {
            before.push((n - 1) as usize)
        } else {
            before
        }
    }
}

impl Clone for ParamInfo {
    fn clone(&self) -> (r: Self)
        ensures
            r == *self,
    {
        ParamInfo {
            name: self.name.clone(),
            short_name: self.short_name.clone(),
            min: self.min,
            max: self.max,
            default: self.default,
            stepped: self.stepped,
            read_only: self.read_only,
            hidden: self.hidden,
            macro_exclude: self.macro_exclude,
            curve: self.curve,
        }
    }
}

/// A copy of some descriptions.
pub fn clone_params(params: &Vec<ParamInfo>) -> (r: Vec<ParamInfo>)
    ensures
        r@ == params@,
{
    let mut r: Vec<ParamInfo> = Vec::new();
    let mut i: usize = 0;
    while i < params.len()
        invariant
            i <= params@.len(),
            r@ == params@.take(i as int),
        decreases params@.len() - i,
    {
        r.push(params[i].clone());
        i = i + 1;
        assert(r@ =~= params@.take(i as int));
    }
    assert(r@ =~= params@);
    r
}

impl ParamInfo {
    /// Whether a panel shows the parameter.
    pub fn is_visible(&self) -> (r: bool)
        ensures
            r == visible(*self),
    {
        !self.hidden && !self.read_only
    }

    /// Whether a macro can be assigned to the parameter by itself.
    pub fn is_mappable(&self) -> (r: bool)
        ensures
            r == mappable(*self),
    {
        !self.stepped && !self.read_only && !self.hidden && !self.macro_exclude && !bits_le(
            self.max,
            self.min,
        )
    }
}

/// The parameters that a panel shows: those shown as combo boxes, and those
/// shown as knobs.
pub fn partition_params(params: &[Option<ParamInfo>]) -> (r: (Vec<usize>, Vec<usize>))
    ensures
        r.0@ == indices_where(params@.len(), |i: int| shown_stepped(params@, i)),
        r.1@ == indices_where(params@.len(), |i: int| shown_continuous(params@, i)),
{
    let mut stepped: Vec<usize> = Vec::new();
    let mut continuous: Vec<usize> = Vec::new();
    let ghost as_combo = |i: int| shown_stepped(params@, i);
    let ghost as_knob = |i: int| shown_continuous(params@, i);
    let mut i: usize = 0;
    while i < params.len()
        invariant
            i <= params@.len(),
            as_combo == (|i: int| shown_stepped(params@, i)),
            as_knob == (|i: int| shown_continuous(params@, i)),
            stepped@ == indices_where(i as nat, as_combo),
            continuous@ == indices_where(i as nat, as_knob),
        decreases params@.len() - i,
    {
        match &params[i] {
            Some(p) => {
                if p.is_visible() {
                    if p.stepped {
                        stepped.push(i);
                    } else {
                        continuous.push(i);
                    }
                }
            },
            None => {
                continuous.push(i);
            },
        }
        i = i + 1;
    }
    (stepped, continuous)
}

/// How many of the parameters a panel shows: what a node's badge says.
pub fn visible_param_count(params: &[ParamInfo]) -> (n: usize)
    ensures
        n == indices_where(params@.len(), |i: int| visible(params@[i])).len(),
{
    let ghost shown = |i: int| visible(params@[i]);
    let mut n: usize = 0;
    let mut i: usize = 0;
    while i < params.len()
        invariant
            n <= i <= params@.len(),
            shown == (|i: int| visible(params@[i])),
            n == indices_where(i as nat, shown).len(),
        decreases params@.len() - i,
    {
        if params[i].is_visible() {
            n = n + 1;
        }
        i = i + 1;
    }
    n
}

/// An index is listed exactly if it is below the bound and satisfies the
/// predicate.
pub proof fn indices_where_contains(n: nat, pred: spec_fn(int) -> bool, i: usize)
    requires
        n <= usize::MAX + 1,
    ensures
        indices_where(n, pred).contains(i) <==> i < n && pred(i as int),
    decreases n,
{
    if n > 0 {
        let before = indices_where((n - 1) as nat, pred);
        indices_where_contains((n - 1) as nat, pred, i);
        if pred(n - 1) {
            let last = (n - 1) as usize;
            assert(before.push(last)[before.len() as int] == last);
            if before.contains(i) {
                let k = before.index_of(i);
                assert(before.push(last)[k] == i);
            }
        }
    }
}

/// A panel leaves nothing out and shows nothing twice: every parameter is shown
/// in exactly one of the two ways, unless its description hides it.
pub proof fn panel_shows_every_visible_param(params: Seq<Option<ParamInfo>>, i: usize)
    requires
        params.len() <= usize::MAX,
        i < params.len(),
    ensures
        ({
            let combos = indices_where(params.len(), |j: int| shown_stepped(params, j));
            let knobs = indices_where(params.len(), |j: int| shown_continuous(params, j));
            &&& !(combos.contains(i) && knobs.contains(i))
            &&& (combos.contains(i) || knobs.contains(i)) <==> (params[i as int] matches Some(p)
                ==> visible(p))
        }),
{
    indices_where_contains(params.len(), |j: int| shown_stepped(params, j), i);
    indices_where_contains(params.len(), |j: int| shown_continuous(params, j), i);
}

/// A panel shows every parameter that is neither hidden nor a readout, one with
/// steps as a combo box and any other as a knob, and each list is in order.
pub proof fn panels_show_steps_as_combos(params: Seq<Option<ParamInfo>>, i: usize)
    requires
        params.len() <= usize::MAX,
        i < params.len(),
    ensures
        ({
            let combos = indices_where(params.len(), |j: int| shown_stepped(params, j));
            let knobs = indices_where(params.len(), |j: int| shown_continuous(params, j));
            &&& params[i as int] matches Some(p) ==> {
                &&& combos.contains(i) <==> !p.hidden && !p.read_only && p.stepped
                &&& knobs.contains(i) <==> !p.hidden && !p.read_only && !p.stepped
            }
            &&& params[i as int] is None ==> knobs.contains(i) && !combos.contains(i)
            &&& forall|a: int, b: int|
                0 <= a < b < combos.len() ==> #[trigger] combos[a] < #[trigger] combos[b]
            &&& forall|a: int, b: int|
                0 <= a < b < knobs.len() ==> #[trigger] knobs[a] < #[trigger] knobs[b]
        }),
{
    indices_where_contains(params.len(), |j: int| shown_stepped(params, j), i);
    indices_where_contains(params.len(), |j: int| shown_continuous(params, j), i);
    indices_are_in_order(params.len(), |j: int| shown_stepped(params, j));
    indices_are_in_order(params.len(), |j: int| shown_continuous(params, j));
}

/// Indices are listed in order, each below the bound.
pub proof fn indices_are_in_order(n: nat, pred: spec_fn(int) -> bool)
    requires
        n <= usize::MAX,
    ensures
        forall|a: int, b: int|
            0 <= a < b < indices_where(n, pred).len() ==> (#[trigger] indices_where(n, pred)[a]) < (
            #[trigger] indices_where(n, pred)[b]),
        forall|a: int|
            0 <= a < indices_where(n, pred).len() ==> (#[trigger] indices_where(n, pred)[a]) < n,
    decreases n,
{
    if n > 0 {
        let before = indices_where((n - 1) as nat, pred);
        let after = indices_where(n, pred);
        indices_are_in_order((n - 1) as nat, pred);
        assert forall|a: int| 0 <= a < after.len() implies (#[trigger] after[a]) < n by {
            if a < before.len() {
                assert(after[a] == before[a]);
            }
        }
        assert forall|a: int, b: int| 0 <= a < b < after.len() implies (#[trigger] after[a]) < (
        #[trigger] after[b]) by {
            assert(after[a] == before[a]);
            if b < before.len() {
                assert(after[b] == before[b]);
            }
        }
    }
}

/// A macro is assigned by itself only to a control that is continuous, shown, not
/// a readout, not left out of macros, and has a range; and to every such control.
pub proof fn what_can_be_mapped(p: ParamInfo)
    ensures
        p.stepped || p.read_only || p.hidden || p.macro_exclude ==> !mappable(p),
        p.min == p.max && p.min % 0x8000_0000 <= 0x7F80_0000 ==> !mappable(p),
        !p.stepped && !p.read_only && !p.hidden && !p.macro_exclude && p.min < p.max <= 0x7F80_0000
            ==> mappable(p),
        p.max < p.min <= 0x7F80_0000 ==> !mappable(p),
        !p.stepped && !p.read_only && !p.hidden && !p.macro_exclude && 0x8000_0000 < p.min
            <= 0xFF80_0000 && p.max <= 0x7F80_0000 ==> mappable(p),
        visible(p) <==> !p.hidden && !p.read_only,
{
}

} // verus!
