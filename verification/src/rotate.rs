//! Round-robin wallpaper selection: each monitor's transform picks an
//! orientation, the persisted counter of that orientation picks the
//! wallpaper, and the counter advances once per wallpaper handed out.
use vstd::prelude::*;
use crate::cache::Orientation;

verus! {

/// A monitor as the compositor reports it: its name and its transform
/// code (0–7); the transform's parity decides the orientation it wants.
pub struct MonitorInfo {
    pub name: String,
    pub transform: u8,
}

/// The orientation a monitor's transform calls for: an even code keeps
/// the panel wide, an odd one stands it a quarter turn.
pub open spec fn orientation_for_transform(t: u8) -> Orientation {
    if t % 2 == 0 {
        Orientation::Landscape
    } else {
        Orientation::Portrait
    }
}

/// The orientation a monitor's transform calls for.
pub fn transform_orientation(t: u8) -> (r: Orientation)
    ensures
        r == orientation_for_transform(t),
{
    if t % 2 == 0 {
        Orientation::Landscape
    } else {
        Orientation::Portrait
    }
}

/// The two persisted rotation counters, one per orientation. Only their
/// value modulo the current list length matters for selection; they grow
/// without wrapping at increment time.
#[derive(Clone, Copy, Debug, PartialEq, Eq, Structural)]
pub struct RotationState {
    pub landscape_index: u64,
    pub portrait_index: u64,
}

/// The wallpaper of `list` that counter value `idx` selects.
pub open spec fn selected_at(list: Seq<Seq<char>>, idx: u64) -> Seq<char>
    recommends
        list.len() > 0,
{
    list[(idx as int) % (list.len() as int)]
}

/// An optional wallpaper read as an optional path.
pub open spec fn opt_view(o: Option<String>) -> Option<Seq<char>> {
    match o {
        Some(s) => Some(s@),
        None => None,
    }
}

/// Picks the next wallpaper for one monitor: from the list its transform
/// calls for, the entry the counter selects. The counter advances by
/// exactly one when and only when a wallpaper is handed out; an empty
/// list hands out nothing and moves nothing. The other orientation's
/// counter is never touched.
pub fn select_wallpaper(
    state: &mut RotationState,
    transform: u8,
    landscape: &Vec<String>,
    portrait: &Vec<String>,
) -> (r: Option<String>)
    requires
        orientation_for_transform(transform) == Orientation::Landscape
            && landscape.deep_view().len() > 0 ==> old(state).landscape_index < u64::MAX,
        orientation_for_transform(transform) == Orientation::Portrait
            && portrait.deep_view().len() > 0 ==> old(state).portrait_index < u64::MAX,
    ensures
        orientation_for_transform(transform) == Orientation::Landscape
            ==> final(state).portrait_index == old(state).portrait_index && (
        if landscape.deep_view().len() > 0 {
            opt_view(r) == Some(selected_at(landscape.deep_view(), old(state).landscape_index))
                && final(state).landscape_index == old(state).landscape_index + 1
        } else {
            r is None && final(state).landscape_index == old(state).landscape_index
        }),
        orientation_for_transform(transform) == Orientation::Portrait
            ==> final(state).landscape_index == old(state).landscape_index && (
        if portrait.deep_view().len() > 0 {
            opt_view(r) == Some(selected_at(portrait.deep_view(), old(state).portrait_index))
                && final(state).portrait_index == old(state).portrait_index + 1
        } else {
            r is None && final(state).portrait_index == old(state).portrait_index
        }),
{
    if transform % 2 == 0 {
        if landscape.len() > 0 {
            let len64: u64 = landscape.len() as u64;
            let idx: usize = (state.landscape_index % len64) as usize;
            proof {
                assert(landscape.deep_view()[idx as int] == landscape@[idx as int]@);
            }
            let w = landscape[idx].clone();
            state.landscape_index = state.landscape_index + 1;
            Some(w)
        } else {
            None
        }
    } else {
        if portrait.len() > 0 {
            let len64: u64 = portrait.len() as u64;
            let idx: usize = (state.portrait_index % len64) as usize;
            proof {
                assert(portrait.deep_view()[idx as int] == portrait@[idx as int]@);
            }
            let w = portrait[idx].clone();
            state.portrait_index = state.portrait_index + 1;
            Some(w)
        } else {
            None
        }
    }
}

/// What one run hands one monitor: the monitor's name, and the wallpaper
/// set on it, if any.
pub struct Assignment {
    pub monitor: String,
    pub wallpaper: Option<String>,
}

/// How many of the first `upto` monitors ask for orientation `o`.
pub open spec fn monitors_wanting(ms: Seq<MonitorInfo>, upto: int, o: Orientation) -> int
    decreases upto,
{
    if upto <= 0 {
        0
    } else {
        monitors_wanting(ms, upto - 1, o) + if orientation_for_transform(ms[upto - 1].transform)
            == o {
            1int
        } else {
            0int
        }
    }
}

/// The count of monitors asking for an orientation lies between 0 and
/// `upto`.
pub proof fn lemma_monitors_wanting_bounds(ms: Seq<MonitorInfo>, upto: int, o: Orientation)
    requires
        0 <= upto,
    ensures
        0 <= monitors_wanting(ms, upto, o) <= upto,
    decreases upto,
{
    if upto > 0 {
        lemma_monitors_wanting_bounds(ms, upto - 1, o);
    }
}

/// The wallpaper the monitor at position `i` receives when a run starts
/// from counters `st`: the counter of its orientation, advanced once for
/// every earlier monitor of the same orientation, selects from that
/// orientation's list; an empty list yields nothing.
pub open spec fn planned_wallpaper(
    ms: Seq<MonitorInfo>,
    i: int,
    landscape: Seq<Seq<char>>,
    portrait: Seq<Seq<char>>,
    st: RotationState,
) -> Option<Seq<char>> {
    let o = orientation_for_transform(ms[i].transform);
    if o == Orientation::Landscape {
        if landscape.len() > 0 {
            Some(
                selected_at(
                    landscape,
                    (st.landscape_index + monitors_wanting(ms, i, Orientation::Landscape)) as u64,
                ),
            )
        } else {
            None
        }
    } else {
        if portrait.len() > 0 {
            Some(
                selected_at(
                    portrait,
                    (st.portrait_index + monitors_wanting(ms, i, Orientation::Portrait)) as u64,
                ),
            )
        } else {
            None
        }
    }
}

/// Serves every monitor in list order and returns the plan: monitor `i`
/// gets `planned_wallpaper(..., i, ...)`, and each counter ends advanced
/// by exactly the number of monitors its orientation's non-empty list
/// served — by nothing when that list is empty.
pub fn plan_rotation(
    monitors: &Vec<MonitorInfo>,
    landscape: &Vec<String>,
    portrait: &Vec<String>,
    state: &mut RotationState,
) -> (plan: Vec<Assignment>)
    requires
        landscape.deep_view().len() > 0 ==> old(state).landscape_index + monitors@.len()
            <= u64::MAX,
        portrait.deep_view().len() > 0 ==> old(state).portrait_index + monitors@.len()
            <= u64::MAX,
    ensures
        plan@.len() == monitors@.len(),
        forall|i: int| 0 <= i < plan@.len() ==> (#[trigger] plan@[i]).monitor@
            == monitors@[i].name@,
        forall|i: int| 0 <= i < plan@.len() ==> opt_view((#[trigger] plan@[i]).wallpaper)
            == planned_wallpaper(
            monitors@,
            i,
            landscape.deep_view(),
            portrait.deep_view(),
            *old(state),
        ),
        final(state).landscape_index == old(state).landscape_index + (
        if landscape.deep_view().len() > 0 {
            monitors_wanting(monitors@, monitors@.len() as int, Orientation::Landscape)
        } else {
            0
        }),
        final(state).portrait_index == old(state).portrait_index + (
        if portrait.deep_view().len() > 0 {
            monitors_wanting(monitors@, monitors@.len() as int, Orientation::Portrait)
        } else {
            0
        }),
{
    let n = monitors.len();
    let mut plan: Vec<Assignment> = Vec::new();
    let mut i: usize = 0;
    while i < n
        invariant
            i <= n,
            n == monitors@.len(),
            plan@.len() == i,
            landscape.deep_view().len() > 0 ==> old(state).landscape_index + n <= u64::MAX,
            portrait.deep_view().len() > 0 ==> old(state).portrait_index + n <= u64::MAX,
            state.landscape_index == old(state).landscape_index + (
            if landscape.deep_view().len() > 0 {
                monitors_wanting(monitors@, i as int, Orientation::Landscape)
            } else {
                0
            }),
            state.portrait_index == old(state).portrait_index + (
            if portrait.deep_view().len() > 0 {
                monitors_wanting(monitors@, i as int, Orientation::Portrait)
            } else {
                0
            }),
            forall|j: int| 0 <= j < i ==> (#[trigger] plan@[j]).monitor@ == monitors@[j].name@,
            forall|j: int| 0 <= j < i ==> opt_view((#[trigger] plan@[j]).wallpaper)
                == planned_wallpaper(
                monitors@,
                j,
                landscape.deep_view(),
                portrait.deep_view(),
                *old(state),
            ),
        decreases n - i,
    {
        let name = monitors[i].name.clone();
        let t = monitors[i].transform;
        proof {
            lemma_monitors_wanting_bounds(monitors@, i as int, Orientation::Landscape);
            lemma_monitors_wanting_bounds(monitors@, i as int, Orientation::Portrait);
        }
        let w = select_wallpaper(state, t, landscape, portrait);
        plan.push(Assignment { monitor: name, wallpaper: w });
        i += 1;
    }
    plan
}

} // verus!
